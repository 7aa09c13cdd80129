# votport_store

The store of a file drop server: request links and the uploads that came in
through them, download links, tenants and their quotas, principals, automation
tokens, settings, the audit log, notification policies, and the signed chain of
delivery events.

`src/` is the library. `Store` holds the tables as one transaction reads and
leaves them; every operation says in its contract what it returns and what it
leaves, as a function of the tables before it. A refused operation changes
nothing. What the operations promise together is proved beside them: the quota
aggregates stay true of the stored files (`accounting`), what is written is read
back (`readback`), tenants are kept apart (`isolation`), ids and tokens stay
unique (`uniqueness`), what has ended stays ended (`finality`), a grant was fetched
as often as the least fetched of its files (`counters`), exports of events
are chains (`evidence`), pages of links and exports of events taken one after the
other give everything once (`paging`, `exports`), and a converted copy has true accounts and an artifact
that matches it (`convert`).

`app/` keeps the store in a SQLite database: it loads the tables in a
transaction, runs one operation, and writes back what changed. It also opens and
upgrades databases, and converts data copies of an older release. The rest of the
server reaches it through the `Host` trait.

`tests/` runs the library on concrete tables.
