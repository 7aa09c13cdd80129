//! The audit log.
use vstd::prelude::*;

use crate::clock::{clock_gave, now_unix, time_of};
use crate::columns::{
    column, column_or_zero, decode_error, from_column, natural, to_column, to_column_or_zero,
    undecoded,
};
use crate::json::{parse_json, parsed_json};
use crate::records::{AuditRow, AuditRowView};
use crate::rows::{AuditLogRow, AuditLogRowView, LinkRow, LinkRowView};
use crate::settings::next_generation;
use crate::store::{Store, StoreView, follows};
use crate::table::{
    Row, allot_id, any, append_row, count, delete_where, limit_rows, next_id, outcome, page,
    project, select, sort_rows, sorted_by, try_map, try_project, update_where, updated,
};
use crate::text::{ascii_fold, contains, find_in, folded, same};
use crate::uploads::link_is;

verus! {

/// What an audit read asks of an event's name and of the row's texts.
#[derive(Clone, Copy, Debug)]
pub struct AuditFilters<'a> {
    pub event: Option<&'a str>,
    pub query: Option<&'a str>,
}

impl<'a> Default for AuditFilters<'a> {
    fn default() -> (r: AuditFilters<'a>)
        ensures
            r.event is None && r.query is None,
    {
        AuditFilters { event: None, query: None }
    }
}

// ------------------------------------------------------------ specifications
/// The contents of an optional text.
pub open spec fn asked(text: Option<&str>) -> Option<Seq<char>> {
    match text {
        Some(text) => Some(text@),
        None => None,
    }
}

/// A row as exported, its detail being what the decoder makes of it.
pub open spec fn exported_with(a: AuditLogRowView, detail: Result<Seq<char>, Seq<char>>) -> Result<
    AuditRowView,
    Seq<char>,
> {
    match detail {
        Err(e) => Err(undecoded("6"@, e)),
        Ok(detail) => Ok(
            AuditRowView {
                rowid: a.rowid,
                at: natural(a.at),
                tenant: a.tenant,
                actor: a.actor,
                event: a.event,
                subject: a.subject,
                detail,
            },
        ),
    }
}

/// A row as exported.
pub open spec fn audit_row_of() -> spec_fn(AuditLogRowView) -> Result<AuditRowView, Seq<char>> {
    |a: AuditLogRowView| exported_with(a, parsed_json(a.detail))
}

/// A namespace by the name it is searched under.
pub open spec fn shown_tenant(tenant: Seq<char>) -> Seq<char> {
    if tenant.len() == 0 {
        "default"@
    } else {
        tenant
    }
}

/// Whether a word occurs in a text, ASCII letters taken without case.
pub open spec fn mentions(text: Seq<char>, word: Seq<char>) -> bool {
    contains(ascii_fold(text), ascii_fold(word))
}

/// Whether a row passes the filters.
pub open spec fn passes(
    a: AuditLogRowView,
    tenant: Option<Seq<char>>,
    event: Option<Seq<char>>,
    query: Option<Seq<char>>,
) -> bool {
    &&& tenant matches Some(t) ==> a.tenant == t
    &&& event matches Some(e) ==> (e.len() == 0 || a.event == e)
    &&& query matches Some(q) ==> (q.len() == 0 || mentions(shown_tenant(a.tenant), q) || mentions(
        a.actor,
        q,
    ) || mentions(a.event, q) || mentions(a.subject, q))
}

/// The rows of an export: behind the cursor, past the filters.
pub open spec fn exportable(
    since: i64,
    after: i64,
    tenant: Option<Seq<char>>,
    event: Option<Seq<char>>,
    query: Option<Seq<char>>,
) -> spec_fn(AuditLogRowView) -> bool {
    |a: AuditLogRowView|
        (a.at > since || (a.at == since && a.rowid > after)) && passes(a, tenant, event, query)
}

/// Oldest first.
pub open spec fn older_row() -> spec_fn(AuditLogRowView, AuditLogRowView) -> bool {
    |a: AuditLogRowView, b: AuditLogRowView| a.at < b.at || (a.at == b.at && a.rowid < b.rowid)
}

/// The limit of an export.
pub open spec fn export_limit(limit: u64) -> i64 {
    if limit > i64::MAX {
        1000
    } else {
        limit as i64
    }
}

/// An export.
pub open spec fn exported(
    log: Seq<AuditLogRowView>,
    tenant: Option<Seq<char>>,
    since: u64,
    after: u64,
    limit: u64,
    event: Option<Seq<char>>,
    query: Option<Seq<char>>,
) -> Result<Seq<AuditRowView>, Seq<char>> {
    let rows = log.filter(
        exportable(column_or_zero(since), column_or_zero(after), tenant, event, query),
    );
    try_map(page(sorted_by(rows, older_row()), 0, export_limit(limit) as int), audit_row_of())
}

/// The rows before one, past the filters; before 0 stands for all.
pub open spec fn recently(
    before: u64,
    tenant: Option<Seq<char>>,
    event: Option<Seq<char>>,
    query: Option<Seq<char>>,
) -> spec_fn(AuditLogRowView) -> bool {
    |a: AuditLogRowView|
        (before == 0 || a.rowid < column(before)) && passes(a, tenant, event, query)
}

/// Latest row first.
pub open spec fn later_row() -> spec_fn(AuditLogRowView, AuditLogRowView) -> bool {
    |a: AuditLogRowView, b: AuditLogRowView| a.rowid > b.rowid
}

/// The latest rows.
pub open spec fn recent(
    log: Seq<AuditLogRowView>,
    tenant: Option<Seq<char>>,
    before: u64,
    limit: u64,
    event: Option<Seq<char>>,
    query: Option<Seq<char>>,
) -> Result<Seq<AuditRowView>, Seq<char>> {
    let rows = log.filter(recently(before, tenant, event, query));
    try_map(page(sorted_by(rows, later_row()), 0, column(limit) as int), audit_row_of())
}

/// The rows of the log by number.
pub open spec fn audit_ids(log: Seq<AuditLogRowView>) -> Seq<i64> {
    log.map_values(|a: AuditLogRowView| a.rowid)
}

/// The counter after one more row.
pub open spec fn one_more_row(rows: i64) -> i64 {
    if rows == i64::MAX {
        rows
    } else {
        (rows + 1) as i64
    }
}

/// The counter after rows were removed.
pub open spec fn fewer_rows(rows: i64, removed: nat) -> i64 {
    if rows - removed < i64::MIN {
        i64::MIN
    } else {
        (rows - removed) as i64
    }
}

/// The store with one more audit row.
pub open spec fn audited(
    s: StoreView,
    at: u64,
    tenant: Seq<char>,
    actor: Seq<char>,
    event: Seq<char>,
    subject: Seq<char>,
    detail: Seq<char>,
) -> Result<(StoreView, usize), Seq<char>> {
    match next_id(audit_ids(s.audit_log)) {
        None => Err("database or disk is full"@),
        Some(rowid) => Ok(
            (
                StoreView {
                    audit_log: s.audit_log.push(
                        AuditLogRowView {
                            rowid,
                            at: column_or_zero(at),
                            tenant,
                            actor,
                            event,
                            subject,
                            detail,
                        },
                    ),
                    audit_rows: one_more_row(s.audit_rows),
                    ..s
                },
                1,
            ),
        ),
    }
}

/// The store with one more audit row, or one more failure.
pub open spec fn audited_or_counted(
    s: StoreView,
    at: u64,
    tenant: Seq<char>,
    actor: Seq<char>,
    event: Seq<char>,
    subject: Seq<char>,
    detail: Seq<char>,
) -> StoreView {
    match audited(s, at, tenant, actor, event, subject, detail) {
        Ok((contents, _)) => contents,
        Err(_) => StoreView {
            audit_insert_failures: next_generation(s.audit_insert_failures),
            ..s
        },
    }
}

/// A link with a legal hold, or without one.
pub open spec fn held(hold: bool) -> spec_fn(LinkRowView) -> LinkRowView {
    |l: LinkRowView| LinkRowView { legal_hold: hold, ..l }
}

/// What the log says of a legal hold.
pub open spec fn hold_detail(hold: bool) -> Seq<char> {
    if hold {
        "{\"legal_hold\":true}"@
    } else {
        "{\"legal_hold\":false}"@
    }
}

/// The store after a legal hold changed.
pub open spec fn hold_changed(
    s: StoreView,
    tenant: Seq<char>,
    id: Seq<char>,
    hold: bool,
    actor: Seq<char>,
    now: u64,
) -> Result<(StoreView, bool), Seq<char>> {
    if !any(s.links, link_is(tenant, id)) {
        Ok((s, false))
    } else {
        match audited(
            StoreView { links: updated(s.links, link_is(tenant, id), held(hold)), ..s },
            now,
            tenant,
            actor,
            "link_legal_hold_changed"@,
            id,
            hold_detail(hold),
        ) {
            Ok((contents, _)) => Ok((contents, true)),
            Err(e) => Err(e),
        }
    }
}

/// The rows older than a time.
pub open spec fn older_than(before: i64) -> spec_fn(AuditLogRowView) -> bool {
    |a: AuditLogRowView| a.at < before
}

/// The rows not older than a time.
pub open spec fn not_older_than(before: i64) -> spec_fn(AuditLogRowView) -> bool {
    |a: AuditLogRowView| !(a.at < before)
}

/// Whether the counter is the length of the log.
pub open spec fn counted(s: StoreView) -> bool {
    s.audit_rows == s.audit_log.len()
}

// ---------------------------------------------------------------------- laws
/// The export behind a row's cursor holds exactly the rows that come after it.
pub proof fn exports_go_on_behind_their_cursor(last: AuditLogRowView, a: AuditLogRowView)
    requires
        last.at >= 0,
        last.rowid >= 0,
    ensures
        exportable(
            column_or_zero(natural(last.at)),
            column_or_zero(natural(last.rowid)),
            None,
            None,
            None,
        )(a) == older_row()(last, a),
{
}

/// A new row keeps the counter true, and is the last of the log.
pub proof fn auditing_keeps_the_count(
    s: StoreView,
    at: u64,
    tenant: Seq<char>,
    actor: Seq<char>,
    event: Seq<char>,
    subject: Seq<char>,
    detail: Seq<char>,
)
    requires
        counted(s),
        s.audit_log.len() < i64::MAX,
        parsed_json(detail) == Ok::<Seq<char>, Seq<char>>(detail),
    ensures
        counted(audited_or_counted(s, at, tenant, actor, event, subject, detail)),
        audited(s, at, tenant, actor, event, subject, detail) matches Ok((after, _))
            ==> audit_row_of()(after.audit_log.last()) == Ok::<AuditRowView, Seq<char>>(
            AuditRowView {
                rowid: after.audit_log.last().rowid,
                at: natural(column_or_zero(at)),
                tenant,
                actor,
                event,
                subject,
                detail,
            },
        ),
{
}

/// Pruning keeps the counter true.
pub proof fn pruning_keeps_the_count(s: StoreView, before: u64)
    requires
        counted(s),
    ensures
        counted(pruned(s, before)),
{
    let p = older_than(column_or_zero(before));
    let q = not_older_than(column_or_zero(before));
    lemma_split(s.audit_log, p, q);
}

proof fn lemma_split(
    log: Seq<AuditLogRowView>,
    p: spec_fn(AuditLogRowView) -> bool,
    q: spec_fn(AuditLogRowView) -> bool,
)
    requires
        forall|a: AuditLogRowView| q(a) == !#[trigger] p(a),
    ensures
        log.filter(p).len() + log.filter(q).len() == log.len(),
    decreases log.len(),
{
    reveal(Seq::filter);
    if log.len() > 0 {
        lemma_split(log.drop_last(), p, q);
    }
}

/// The store after old rows were removed.
pub open spec fn pruned(s: StoreView, before: u64) -> StoreView {
    StoreView {
        audit_log: s.audit_log.filter(not_older_than(column_or_zero(before))),
        audit_rows: fewer_rows(
            s.audit_rows,
            count(s.audit_log, older_than(column_or_zero(before))),
        ),
        ..s
    }
}

/// A new row's number is greater than every other of the log: whoever reads on
/// from the last number misses none.
pub proof fn row_numbers_grow(
    s: StoreView,
    at: u64,
    tenant: Seq<char>,
    actor: Seq<char>,
    event: Seq<char>,
    subject: Seq<char>,
    detail: Seq<char>,
    i: int,
)
    requires
        0 <= i < s.audit_log.len(),
    ensures
        audited(s, at, tenant, actor, event, subject, detail) matches Ok((after, _))
            ==> s.audit_log[i].rowid < after.audit_log.last().rowid,
{
    let ids = audit_ids(s.audit_log);
    assert(ids[i] == s.audit_log[i].rowid);
    crate::table::lemma_greatest(ids);
}

// ---------------------------------------------------------------- operations
/// A row as exported.
pub fn map_audit_row(a: &AuditLogRow) -> (r: Result<AuditRow, String>)
    ensures
        outcome(r) == audit_row_of()(a@),
{
    export_row(a, parse_json(a.detail.as_str()))
}

/// A row as exported, its detail being what the decoder makes of it.
pub fn export_row(a: &AuditLogRow, detail: Result<String, String>) -> (r: Result<AuditRow, String>)
    ensures
        outcome(r) == exported_with(a@, outcome(detail)),
{
    match detail {
        Err(error) => Err(decode_error("6", error.as_str())),
        Ok(detail) => Ok(
            AuditRow {
                rowid: a.rowid,
                at: from_column(a.at),
                tenant: a.tenant.clone(),
                actor: a.actor.clone(),
                event: a.event.clone(),
                subject: a.subject.clone(),
                detail,
            },
        ),
    }
}

fn mentions_word(text: &str, word: &Vec<char>) -> (r: bool)
    ensures
        r == contains(ascii_fold(text@), word@),
{
    let text = folded(text);
    find_in(&text, word)
}

/// Whether a row passes the filters.
pub fn passes_filters(a: &AuditLogRow, tenant: Option<&str>, filters: AuditFilters<'_>) -> (r: bool)
    ensures
        r == passes(a@, asked(tenant), asked(filters.event), asked(filters.query)),
{
    if let Some(tenant) = tenant {
        if !same(a.tenant.as_str(), tenant) {
            return false;
        }
    }
    if let Some(event) = filters.event {
        if event.unicode_len() != 0 && !same(a.event.as_str(), event) {
            return false;
        }
    }
    if let Some(query) = filters.query {
        if query.unicode_len() != 0 {
            let word = folded(query);
            let tenant = if a.tenant.as_str().unicode_len() == 0 {
                "default"
            } else {
                a.tenant.as_str()
            };
            return mentions_word(tenant, &word) || mentions_word(a.actor.as_str(), &word)
                || mentions_word(a.event.as_str(), &word) || mentions_word(
                a.subject.as_str(),
                &word,
            );
        }
    }
    true
}

impl Store {
    /// Inserts one audit row; `detail` is JSON text.
    pub fn insert_audit_row(
        &mut self,
        at: u64,
        tenant: &str,
        actor: &str,
        event: &str,
        subject: &str,
        detail: &str,
    ) -> (r: Result<usize, String>)
        ensures
            follows(
                audited(old(self)@, at, tenant@, actor@, event@, subject@, detail@),
                old(self)@,
                final(self)@,
                r,
            ),
    {
        let rowid_of = |a: &AuditLogRow| -> (r: i64)
            ensures
                r.deep_view() == (|a: AuditLogRowView| a.rowid)(a@),
        {
            a.rowid
        };
        let ids = project(&self.audit_log, rowid_of, Ghost(|a: AuditLogRowView| a.rowid));
        assert(ids@ =~= audit_ids(self@.audit_log)) by {
            assert forall|i: int| 0 <= i < ids@.len() implies ids@[i] == audit_ids(
                self@.audit_log,
            )[i] by {
                assert(ids.deep_view()[i] == audit_ids(self@.audit_log)[i]);
            }
        }
        match allot_id(&ids) {
            Some(rowid) => {
                append_row(
                    &mut self.audit_log,
                    AuditLogRow {
                        rowid,
                        at: to_column_or_zero(at),
                        tenant: tenant.to_owned(),
                        actor: actor.to_owned(),
                        event: event.to_owned(),
                        subject: subject.to_owned(),
                        detail: detail.to_owned(),
                    },
                );
                if self.audit_rows < i64::MAX {
                    self.audit_rows = self.audit_rows + 1;
                }
                Ok(1)
            },
            None => Err("database or disk is full".to_owned()),
        }
    }

    /// Inserts one audit row now. Best effort: what could not be written is
    /// counted.
    pub fn audit(&mut self, tenant: &str, actor: &str, event: &str, subject: &str, detail: &str)
        ensures
            exists|reading: Option<u64>| #[trigger]
                clock_gave(reading) && final(self)@ == audited_or_counted(
                    old(self)@,
                    time_of(reading),
                    tenant@,
                    actor@,
                    event@,
                    subject@,
                    detail@,
                ),
    {
        let now: u64 = now_unix();
        self.audit_at(tenant, actor, event, subject, detail, now);
    }

    /// Inserts one audit row at time `now`, or counts that it could not.
    pub fn audit_at(
        &mut self,
        tenant: &str,
        actor: &str,
        event: &str,
        subject: &str,
        detail: &str,
        now: u64,
    )
        ensures
            final(self)@ == audited_or_counted(
                old(self)@,
                now,
                tenant@,
                actor@,
                event@,
                subject@,
                detail@,
            ),
    {
        let written = self.insert_audit_row(now, tenant, actor, event, subject, detail);
        if written.is_err() {
            if self.audit_insert_failures == u64::MAX {
                self.audit_insert_failures = 0;
            } else {
                self.audit_insert_failures = self.audit_insert_failures + 1;
            }
        }
    }

    /// Changes a legal hold now and records it.
    pub fn set_link_legal_hold(&mut self, tenant: &str, id: &str, legal_hold: bool, actor: &str) -> (r: Result<
        bool,
        String,
    >)
        ensures
            exists|reading: Option<u64>| #[trigger]
                clock_gave(reading) && follows(
                    hold_changed(old(self)@, tenant@, id@, legal_hold, actor@, time_of(reading)),
                    old(self)@,
                    final(self)@,
                    r,
                ),
    {
        let now: u64 = now_unix();
        self.set_link_legal_hold_at(tenant, id, legal_hold, actor, now)
    }

    /// Changes a legal hold at time `now` and records it.
    pub fn set_link_legal_hold_at(
        &mut self,
        tenant: &str,
        id: &str,
        legal_hold: bool,
        actor: &str,
        now: u64,
    ) -> (r: Result<bool, String>)
        ensures
            follows(
                hold_changed(old(self)@, tenant@, id@, legal_hold, actor@, now),
                old(self)@,
                final(self)@,
                r,
            ),
    {
        let hit = |l: &LinkRow| -> (b: bool)
            ensures
                b == link_is(tenant@, id@)(l@),
        {
            same(l.tenant.as_str(), tenant) && same(l.id.as_str(), id)
        };
        let change = |l: &LinkRow| -> (r: LinkRow)
            ensures
                r@ == held(legal_hold)(l@),
        {
            let mut l = l.dup();
            l.legal_hold = legal_hold;
            l
        };
        if !crate::table::exists_where(&self.links, hit, Ghost(link_is(tenant@, id@))) {
            return Ok(false);
        }
        let detail = if legal_hold {
            "{\"legal_hold\":true}"
        } else {
            "{\"legal_hold\":false}"
        };
        match self.insert_audit_row(now, tenant, actor, "link_legal_hold_changed", id, detail) {
            Ok(_) => {
                update_where(
                    &mut self.links,
                    hit,
                    change,
                    Ghost(link_is(tenant@, id@)),
                    Ghost(held(legal_hold)),
                );
                Ok(true)
            },
            Err(error) => Err(error),
        }
    }

    /// Audit rows strictly after the (at, rowid) cursor, oldest first, capped.
    /// `Some(tenant)` matches that exact namespace, the default tenant among
    /// them; `None` selects all tenants.
    pub fn audit_export(&self, tenant: Option<&str>, since: u64, after_rowid: u64, limit: u64) -> (r: Result<
        Vec<AuditRow>,
        String,
    >)
        ensures
            outcome(r) == exported(
                self@.audit_log,
                asked(tenant),
                since,
                after_rowid,
                limit,
                None,
                None,
            ),
    {
        self.audit_export_filtered(
            tenant,
            since,
            after_rowid,
            limit,
            AuditFilters { event: None, query: None },
        )
    }

    /// Audit rows strictly after the (at, rowid) cursor that pass the filters,
    /// oldest first, capped.
    pub fn audit_export_filtered(
        &self,
        tenant: Option<&str>,
        since: u64,
        after_rowid: u64,
        limit: u64,
        filters: AuditFilters<'_>,
    ) -> (r: Result<Vec<AuditRow>, String>)
        ensures
            outcome(r) == exported(
                self@.audit_log,
                asked(tenant),
                since,
                after_rowid,
                limit,
                asked(filters.event),
                asked(filters.query),
            ),
    {
        let since: i64 = to_column_or_zero(since);
        let after: i64 = to_column_or_zero(after_rowid);
        let keep = |a: &AuditLogRow| -> (b: bool)
            ensures
                b == exportable(
                    since,
                    after,
                    asked(tenant),
                    asked(filters.event),
                    asked(filters.query),
                )(a@),
        {
            (a.at > since || (a.at == since && a.rowid > after)) && passes_filters(
                a,
                tenant,
                filters,
            )
        };
        let before = |a: &AuditLogRow, b: &AuditLogRow| -> (r: bool)
            ensures
                r == older_row()(a@, b@),
        {
            a.at < b.at || (a.at == b.at && a.rowid < b.rowid)
        };
        let read = |a: &AuditLogRow| -> (r: Result<AuditRow, String>)
            ensures
                outcome(r) == audit_row_of()(a@),
        {
            map_audit_row(a)
        };
        let rows = select(
            &self.audit_log,
            keep,
            Ghost(
                exportable(
                    since,
                    after,
                    asked(tenant),
                    asked(filters.event),
                    asked(filters.query),
                ),
            ),
        );
        let rows = sort_rows(rows, before, Ghost(older_row()));
        let limit: i64 = if limit > i64::MAX as u64 {
            1000
        } else {
            limit as i64
        };
        let rows = limit_rows(&rows, limit);
        try_project(&rows, read, Ghost(audit_row_of()))
    }

    /// The latest audit rows before a row, or of all for 0.
    pub fn audit_recent(&self, tenant: Option<&str>, before_rowid: u64, limit: u64) -> (r: Result<
        Vec<AuditRow>,
        String,
    >)
        ensures
            outcome(r) == recent(self@.audit_log, asked(tenant), before_rowid, limit, None, None),
    {
        self.audit_recent_filtered(
            tenant,
            before_rowid,
            limit,
            AuditFilters { event: None, query: None },
        )
    }

    /// The latest audit rows that pass the filters, before a row or of all for 0.
    pub fn audit_recent_filtered(
        &self,
        tenant: Option<&str>,
        before_rowid: u64,
        limit: u64,
        filters: AuditFilters<'_>,
    ) -> (r: Result<Vec<AuditRow>, String>)
        ensures
            outcome(r) == recent(
                self@.audit_log,
                asked(tenant),
                before_rowid,
                limit,
                asked(filters.event),
                asked(filters.query),
            ),
    {
        let cursor: i64 = to_column(before_rowid);
        let keep = |a: &AuditLogRow| -> (b: bool)
            ensures
                b == recently(
                    before_rowid,
                    asked(tenant),
                    asked(filters.event),
                    asked(filters.query),
                )(a@),
        {
            (before_rowid == 0 || a.rowid < cursor) && passes_filters(a, tenant, filters)
        };
        let before = |a: &AuditLogRow, b: &AuditLogRow| -> (r: bool)
            ensures
                r == later_row()(a@, b@),
        {
            a.rowid > b.rowid
        };
        let read = |a: &AuditLogRow| -> (r: Result<AuditRow, String>)
            ensures
                outcome(r) == audit_row_of()(a@),
        {
            map_audit_row(a)
        };
        let rows = select(
            &self.audit_log,
            keep,
            Ghost(
                recently(before_rowid, asked(tenant), asked(filters.event), asked(filters.query)),
            ),
        );
        let rows = sort_rows(rows, before, Ghost(later_row()));
        let limit: i64 = to_column(limit);
        let rows = limit_rows(&rows, limit);
        try_project(&rows, read, Ghost(audit_row_of()))
    }

    /// Deletes audit rows older than `before`, and reports how many.
    pub fn audit_prune(&mut self, before: u64) -> (r: Result<usize, String>)
        ensures
            final(self)@ == pruned(old(self)@, before),
            r matches Ok(n) && n == count(
                old(self)@.audit_log,
                older_than(column_or_zero(before)),
            ),
    {
        let before: i64 = to_column_or_zero(before);
        let hit = |a: &AuditLogRow| -> (b: bool)
            ensures
                b == older_than(before)(a@),
        {
            a.at < before
        };
        let n: usize = delete_where(
            &mut self.audit_log,
            hit,
            Ghost(older_than(before)),
            Ghost(not_older_than(before)),
        );
        let least: i64 = i64::MIN;
        let room: u64 = (self.audit_rows as i128 - least as i128) as u64;
        if n as u64 > room {
            self.audit_rows = i64::MIN;
        } else {
            self.audit_rows = (self.audit_rows as i128 - n as i128) as i64;
        }
        Ok(n)
    }

    /// The number of audit rows, as kept beside the log.
    pub fn audit_count(&self) -> (r: Result<u64, String>)
        ensures
            outcome(r) == Ok::<u64, Seq<char>>(natural(self@.audit_rows)),
    {
        Ok(from_column(self.audit_rows))
    }
}

} // verus!
