//! Exports of delivery events taken one after the other give a tenant's whole chain.
use vstd::prelude::*;

use crate::accounting::lemma_filter_twice;
use crate::columns::wrapped;
use crate::evidence::{
    MAX_EVENT_PAGE_BYTES, chained, checkpoint_of, continued, cost, drafted, earlier_event, end_of,
    envelope_text, event_between, event_ids, event_of, event_row_of, event_stands, event_until,
    exported, genesis, is_chain, is_reached, last_event, later_event, linked, page_of_events,
    reached, width,
};
use crate::paging::{
    ascending, comparable, is_order, lemma_ascending_unique, lemma_filter_comparable,
    lemma_filter_contains, lemma_sorted_ascending,
};
use crate::records::{DeliveryEventView, EventCheckpointView, EventExportView};
use crate::rows::EventRowView;
use crate::store::StoreView;
use crate::table::{page, sorted_by};

verus! {

// ------------------------------------------------------------ specifications
/// The events of rows that continue a chain from `previous`.
pub open spec fn read_chain(
    rows: Seq<EventRowView>,
    issuer: Seq<char>,
    tenant: Seq<char>,
    previous: EventCheckpointView,
) -> Result<Seq<DeliveryEventView>, Seq<char>>
    decreases rows.len(),
{
    if rows.len() == 0 {
        Ok(Seq::empty())
    } else {
        match continued(rows[0], issuer, tenant, previous) {
            Err(e) => Err(e),
            Ok(event) => match read_chain(rows.skip(1), issuer, tenant, checkpoint_of(event)) {
                Err(e) => Err(e),
                Ok(rest) => Ok(seq![event] + rest),
            },
        }
    }
}

/// The rows of a tenant's chain, in order.
pub open spec fn chain_rows(events: Seq<EventRowView>, tenant: Seq<char>) -> Seq<EventRowView> {
    sorted_by(events.filter(event_until(tenant, i64::MAX)), earlier_event())
}

/// The whole chain of a tenant.
pub open spec fn history(events: Seq<EventRowView>, issuer: Seq<char>, tenant: Seq<char>) -> Result<
    Seq<DeliveryEventView>,
    Seq<char>,
> {
    read_chain(chain_rows(events, tenant), issuer, tenant, genesis())
}

/// Whether every event has a number of its own, from one on.
pub open spec fn numbered(events: Seq<EventRowView>) -> bool {
    &&& forall|i: int| 0 <= i < events.len() ==> (#[trigger] events[i]).id > 0
    &&& forall|i: int, j: int|
        0 <= i < j < events.len() ==> (#[trigger] events[i]).id != (#[trigger] events[j]).id
}

/// Whether each event of a chain fits on a page that starts before it.
pub open spec fn each_fits(
    all: Seq<DeliveryEventView>,
    issuer: Seq<char>,
    tenant: Seq<char>,
) -> bool {
    let terminal = end_of(genesis(), all);
    &&& all.len() == 0 ==> width(envelope_text(issuer, tenant, genesis(), terminal))
        <= MAX_EVENT_PAGE_BYTES
    &&& forall|i: int|
        0 <= i < all.len() ==> width(
            envelope_text(issuer, tenant, end_of(genesis(), #[trigger] all.take(i)), terminal),
        ) + cost(all[i]) <= MAX_EVENT_PAGE_BYTES
}

/// One export, as [`exported`] gives it.
#[verifier::opaque]
pub open spec fn one_export(
    events: Seq<EventRowView>,
    issuer: Seq<char>,
    tenant: Seq<char>,
    start: EventCheckpointView,
    terminal: Option<EventCheckpointView>,
    limit: usize,
) -> Result<EventExportView, Seq<char>> {
    exported(events, issuer, tenant, start, terminal, limit)
}

/// The events of exports that are taken one after the other from `start` on, each from
/// the end of the one before and up to the terminal of the first, up to `more` of them
/// behind the first. The `n`-th export finds the events of the `n`-th table.
pub open spec fn exports_walked(
    tables: spec_fn(nat) -> Seq<EventRowView>,
    issuer: Seq<char>,
    tenant: Seq<char>,
    start: EventCheckpointView,
    terminal: Option<EventCheckpointView>,
    limit: usize,
    n: nat,
    more: nat,
) -> Result<Seq<DeliveryEventView>, Seq<char>>
    decreases more,
{
    match one_export(tables(n), issuer, tenant, start, terminal, limit) {
        Err(e) => Err(e),
        Ok(x) => if x.complete || more == 0 {
            Ok(x.events)
        } else {
            match exports_walked(
                tables,
                issuer,
                tenant,
                x.end,
                Some(x.terminal),
                limit,
                n + 1,
                (more - 1) as nat,
            ) {
                Err(e) => Err(e),
                Ok(rest) => Ok(x.events + rest),
            }
        },
    }
}

// -------------------------------------------------------------------- chains
/// Where a chain stands behind its first `k` events.
spec fn stand(all: Seq<DeliveryEventView>, k: int) -> EventCheckpointView {
    if k <= 0 {
        genesis()
    } else {
        checkpoint_of(all[k - 1])
    }
}

proof fn lemma_read(
    rows: Seq<EventRowView>,
    issuer: Seq<char>,
    tenant: Seq<char>,
    previous: EventCheckpointView,
    i: int,
)
    requires
        read_chain(rows, issuer, tenant, previous) is Ok,
        0 <= i < rows.len(),
    ensures
        ({
            let all = read_chain(rows, issuer, tenant, previous)->Ok_0;
            let before = if i == 0 {
                previous
            } else {
                checkpoint_of(all[i - 1])
            };
            &&& all.len() == rows.len()
            &&& continued(rows[i], issuer, tenant, before) == Ok::<DeliveryEventView, Seq<char>>(
                all[i],
            )
            &&& read_chain(rows.skip(i), issuer, tenant, before) == Ok::<
                Seq<DeliveryEventView>,
                Seq<char>,
            >(all.skip(i))
        }),
    decreases rows.len(),
{
    let all = read_chain(rows, issuer, tenant, previous)->Ok_0;
    let event = continued(rows[0], issuer, tenant, previous)->Ok_0;
    let rest = read_chain(rows.skip(1), issuer, tenant, checkpoint_of(event))->Ok_0;
    lemma_read_length(rows, issuer, tenant, previous);
    assert(all =~= seq![event] + rest);
    if i == 0 {
        assert(rows.skip(0) =~= rows);
        assert(all.skip(0) =~= all);
    } else {
        lemma_read(rows.skip(1), issuer, tenant, checkpoint_of(event), i - 1);
        assert(rows.skip(1).skip(i - 1) =~= rows.skip(i));
        assert(all.skip(i) =~= rest.skip(i - 1));
    }
}

proof fn lemma_read_length(
    rows: Seq<EventRowView>,
    issuer: Seq<char>,
    tenant: Seq<char>,
    previous: EventCheckpointView,
)
    ensures
        read_chain(rows, issuer, tenant, previous) matches Ok(all) ==> all.len() == rows.len(),
    decreases rows.len(),
{
    if rows.len() > 0 {
        if let Ok(event) = continued(rows[0], issuer, tenant, previous) {
            lemma_read_length(rows.skip(1), issuer, tenant, checkpoint_of(event));
        }
    }
}

proof fn lemma_read_take(
    rows: Seq<EventRowView>,
    issuer: Seq<char>,
    tenant: Seq<char>,
    previous: EventCheckpointView,
    m: int,
)
    requires
        0 <= m <= rows.len(),
        read_chain(rows, issuer, tenant, previous) is Ok,
    ensures
        read_chain(rows.take(m), issuer, tenant, previous) == Ok::<
            Seq<DeliveryEventView>,
            Seq<char>,
        >(read_chain(rows, issuer, tenant, previous)->Ok_0.take(m)),
    decreases rows.len(),
{
    let all = read_chain(rows, issuer, tenant, previous)->Ok_0;
    lemma_read_length(rows, issuer, tenant, previous);
    if m > 0 {
        let event = continued(rows[0], issuer, tenant, previous)->Ok_0;
        let rest = read_chain(rows.skip(1), issuer, tenant, checkpoint_of(event))->Ok_0;
        lemma_read_take(rows.skip(1), issuer, tenant, checkpoint_of(event), m - 1);
        assert(rows.take(m).skip(1) =~= rows.skip(1).take(m - 1));
        assert(all.take(m) =~= seq![event] + rest.take(m - 1));
    } else {
        assert(all.take(0) =~= Seq::empty());
    }
}

/// Of rows that continue a chain, as many are linked as there is room for.
proof fn lemma_linked_prefix(
    rows: Seq<EventRowView>,
    issuer: Seq<char>,
    tenant: Seq<char>,
    previous: EventCheckpointView,
    budget: int,
    taken: Seq<DeliveryEventView>,
) -> (j: int)
    requires
        read_chain(rows, issuer, tenant, previous) is Ok,
        taken.len() > 0 || rows.len() == 0 || cost(
            read_chain(rows, issuer, tenant, previous)->Ok_0[0],
        ) <= budget,
    ensures
        ({
            let all = read_chain(rows, issuer, tenant, previous)->Ok_0;
            &&& 0 <= j <= rows.len()
            &&& rows.len() > 0 && cost(all[0]) <= budget ==> j > 0
            &&& linked(rows, issuer, tenant, previous, budget, taken) == Ok::<
                Seq<DeliveryEventView>,
                Seq<char>,
            >(taken + all.take(j))
        }),
    decreases rows.len(),
{
    let all = read_chain(rows, issuer, tenant, previous)->Ok_0;
    lemma_read_length(rows, issuer, tenant, previous);
    assert(taken + all.take(0) =~= taken);
    if rows.len() == 0 {
        0
    } else {
        let event = continued(rows[0], issuer, tenant, previous)->Ok_0;
        let rest = read_chain(rows.skip(1), issuer, tenant, checkpoint_of(event))->Ok_0;
        assert(all[0] == event);
        if cost(event) > budget {
            0
        } else {
            let j = lemma_linked_prefix(
                rows.skip(1),
                issuer,
                tenant,
                checkpoint_of(event),
                budget - cost(event),
                taken.push(event),
            );
            assert(taken + all.take(j + 1) =~= taken.push(event) + rest.take(j));
            j + 1
        }
    }
}

// -------------------------------------------------------------------- tables
proof fn lemma_event_orders()
    ensures
        is_order(earlier_event()),
        is_order(later_event()),
{
}

proof fn lemma_events_comparable(events: Seq<EventRowView>)
    requires
        numbered(events),
    ensures
        comparable(events, earlier_event()),
        comparable(events, later_event()),
{
    assert forall|i: int, j: int| 0 <= i < j < events.len() implies earlier_event()(
        #[trigger] events[i],
        #[trigger] events[j],
    ) || earlier_event()(events[j], events[i]) by {
        assert(events[i].id != events[j].id);
    }
    assert forall|i: int, j: int| 0 <= i < j < events.len() implies later_event()(
        #[trigger] events[i],
        #[trigger] events[j],
    ) || later_event()(events[j], events[i]) by {
        assert(events[i].id != events[j].id);
    }
}

/// What is known of an intact chain: its rows ascend from number one on, they are the
/// tenant's, and each stands behind the one before.
spec fn is_intact(events: Seq<EventRowView>, issuer: Seq<char>, tenant: Seq<char>) -> bool {
    numbered(events) && history(events, issuer, tenant) is Ok
}

proof fn lemma_chain_rows(events: Seq<EventRowView>, issuer: Seq<char>, tenant: Seq<char>)
    requires
        is_intact(events, issuer, tenant),
    ensures
        ({
            let rows = chain_rows(events, tenant);
            let all = history(events, issuer, tenant)->Ok_0;
            &&& all.len() == rows.len()
            &&& ascending(rows, earlier_event())
            &&& forall|x: EventRowView| #[trigger]
                rows.contains(x) <==> events.contains(x) && x.tenant == tenant
            &&& forall|i: int|
                0 <= i < rows.len() ==> (#[trigger] all[i]).id == rows[i].id && rows[i].id > 0
                    && event_of(rows[i]) == Ok::<DeliveryEventView, Seq<char>>(all[i])
                    && event_stands(all[i], issuer, tenant)
        }),
{
    let p = event_until(tenant, i64::MAX);
    let rows = chain_rows(events, tenant);
    let all = history(events, issuer, tenant)->Ok_0;
    lemma_event_orders();
    lemma_events_comparable(events);
    lemma_filter_comparable(events, p, earlier_event());
    lemma_sorted_ascending(events.filter(p), earlier_event());
    lemma_read_length(rows, issuer, tenant, genesis());
    assert forall|x: EventRowView| #[trigger] rows.contains(x) <==> events.contains(x) && x.tenant
        == tenant by {
        lemma_filter_contains(events, p, x);
    }
    reveal(continued);
    assert forall|i: int| 0 <= i < rows.len() implies (#[trigger] all[i]).id == rows[i].id
        && rows[i].id > 0 && event_of(rows[i]) == Ok::<DeliveryEventView, Seq<char>>(all[i])
        && event_stands(all[i], issuer, tenant) by {
        lemma_read(rows, issuer, tenant, genesis(), i);
        assert(rows.contains(rows[i]));
        let k = choose|k: int| 0 <= k < events.len() && events[k] == rows[i];
        assert(events[k].id > 0);
    }
}

/// The rows of a table that agrees with another up to a number are those of the other.
proof fn lemma_same_rows(
    events: Seq<EventRowView>,
    table: Seq<EventRowView>,
    tenant: Seq<char>,
    through: i64,
    p: spec_fn(EventRowView) -> bool,
)
    requires
        table.filter(event_until(tenant, through)) == events.filter(event_until(tenant, through)),
        forall|x: EventRowView| #[trigger] p(x) ==> event_until(tenant, through)(x),
    ensures
        table.filter(p) == events.filter(p),
{
    lemma_filter_twice(table, event_until(tenant, through), p);
    lemma_filter_twice(events, event_until(tenant, through), p);
}

/// A chain is reached behind each of its events.
proof fn lemma_reached(
    events: Seq<EventRowView>,
    issuer: Seq<char>,
    tenant: Seq<char>,
    k: int,
    through: i64,
)
    requires
        is_intact(events, issuer, tenant),
        0 <= k <= chain_rows(events, tenant).len(),
        stand(history(events, issuer, tenant)->Ok_0, k).id <= through,
        k < chain_rows(events, tenant).len() ==> through < chain_rows(events, tenant)[k].id,
    ensures
        reached(events, issuer, tenant, through as u64) == Ok::<EventCheckpointView, Seq<char>>(
            stand(history(events, issuer, tenant)->Ok_0, k),
        ),
{
    let all = history(events, issuer, tenant)->Ok_0;
    let rows = chain_rows(events, tenant);
    let p = event_until(tenant, through);
    let found = events.filter(p);
    let sorted = sorted_by(found, later_event());
    lemma_chain_rows(events, issuer, tenant);
    lemma_event_orders();
    lemma_events_comparable(events);
    lemma_filter_comparable(events, p, later_event());
    lemma_sorted_ascending(found, later_event());
    assert(wrapped(through as u64) == through);
    if k > 0 {
        let row = rows[k - 1];
        assert(all[k - 1].id == row.id);
        assert(rows.contains(row));
        lemma_filter_contains(events, p, row);
        assert(sorted.contains(row));
        let i = choose|i: int| 0 <= i < sorted.len() && sorted[i] == row;
        let top = sorted[0];
        assert(sorted.contains(top));
        lemma_filter_contains(events, p, top);
        assert(rows.contains(top));
        let m = choose|m: int| 0 <= m < rows.len() && rows[m] == top;
        if m >= k {
            if m > k {
                assert(earlier_event()(rows[k], rows[m]));
            }
            assert(false);
        }
        if m < k - 1 {
            assert(earlier_event()(rows[m], rows[k - 1]));
            assert(later_event()(sorted[0], sorted[i]));
            assert(false);
        }
    } else if sorted.len() > 0 {
        let top = sorted[0];
        assert(sorted.contains(top));
        lemma_filter_contains(events, p, top);
        assert(rows.contains(top));
        let m = choose|m: int| 0 <= m < rows.len() && rows[m] == top;
        if m > 0 {
            assert(earlier_event()(rows[0], rows[m]));
        }
        assert(false);
    }
}

/// The rows of a page behind the first `k` events are what follows them.
proof fn lemma_page_rows(
    events: Seq<EventRowView>,
    issuer: Seq<char>,
    tenant: Seq<char>,
    k: int,
)
    requires
        is_intact(events, issuer, tenant),
        0 <= k <= chain_rows(events, tenant).len(),
    ensures
        ({
            let all = history(events, issuer, tenant)->Ok_0;
            let rows = chain_rows(events, tenant);
            let terminal = stand(all, rows.len() as int);
            sorted_by(
                events.filter(
                    event_between(tenant, wrapped(stand(all, k).id), wrapped(terminal.id)),
                ),
                earlier_event(),
            ) == rows.skip(k)
        }),
{
    let all = history(events, issuer, tenant)->Ok_0;
    let rows = chain_rows(events, tenant);
    let n = rows.len() as int;
    lemma_chain_rows(events, issuer, tenant);
    lemma_event_orders();
    lemma_events_comparable(events);
    if k > 0 {
        assert(all[k - 1].id == rows[k - 1].id);
    }
    if n > 0 {
        assert(all[n - 1].id == rows[n - 1].id);
    }
    let start = wrapped(stand(all, k).id);
    let end = wrapped(stand(all, n).id);
    let q = event_between(tenant, start, end);
    let found = sorted_by(events.filter(q), earlier_event());
    let rest = rows.skip(k);
    lemma_filter_comparable(events, q, earlier_event());
    lemma_sorted_ascending(events.filter(q), earlier_event());
    assert forall|x: EventRowView| #[trigger] rest.contains(x) <==> found.contains(x) by {
        lemma_filter_contains(events, q, x);
        if rest.contains(x) {
            let i = choose|i: int| 0 <= i < rest.len() && rest[i] == x;
            assert(rows[k + i] == x);
            assert(rows.contains(x));
            assert(all[k + i].id == rows[k + i].id);
            if k > 0 {
                assert(earlier_event()(rows[k - 1], rows[k + i]));
            }
            if k + i < n - 1 {
                assert(earlier_event()(rows[k + i], rows[n - 1]));
            }
        }
        if found.contains(x) {
            assert(rows.contains(x));
            let i = choose|i: int| 0 <= i < rows.len() && rows[i] == x;
            if k > 0 && i < k - 1 {
                assert(earlier_event()(rows[i], rows[k - 1]));
            }
            assert(i >= k);
            assert(rest[i - k] == x);
        }
    }
    assert forall|i: int, j: int| 0 <= i < j < rest.len() implies earlier_event()(
        #[trigger] rest[i],
        #[trigger] rest[j],
    ) by {
        assert(earlier_event()(rows[k + i], rows[k + j]));
    }
    lemma_ascending_unique(found, rest, earlier_event());
}

/// The numbers along an intact chain ascend and fit in a column.
proof fn lemma_bounds(events: Seq<EventRowView>, issuer: Seq<char>, tenant: Seq<char>, k: int)
    requires
        is_intact(events, issuer, tenant),
        0 <= k <= chain_rows(events, tenant).len(),
    ensures
        ({
            let all = history(events, issuer, tenant)->Ok_0;
            let rows = chain_rows(events, tenant);
            let start = stand(all, k);
            let last = stand(all, all.len() as int);
            &&& all.len() == rows.len()
            &&& start.id <= last.id <= i64::MAX
            &&& wrapped(start.id) == start.id && wrapped(last.id) == last.id
            &&& k < all.len() ==> start.id < rows[k].id && start.id < last.id
        }),
{
    let all = history(events, issuer, tenant)->Ok_0;
    let rows = chain_rows(events, tenant);
    let n = all.len() as int;
    lemma_chain_rows(events, issuer, tenant);
    if n > 0 {
        assert(all[n - 1].id == rows[n - 1].id);
    }
    if k > 0 {
        assert(all[k - 1].id == rows[k - 1].id);
        if k < n {
            assert(earlier_event()(rows[k - 1], rows[n - 1]));
            assert(earlier_event()(rows[k - 1], rows[k]));
        }
    } else if n > 0 {
        assert(all[0].id == rows[0].id);
    }
}

/// A table that agrees with an intact chain reaches where the chain stands.
proof fn lemma_table_reached(
    events: Seq<EventRowView>,
    table: Seq<EventRowView>,
    issuer: Seq<char>,
    tenant: Seq<char>,
    k: int,
)
    requires
        is_intact(events, issuer, tenant),
        0 <= k <= chain_rows(events, tenant).len(),
        ({
            let all = history(events, issuer, tenant)->Ok_0;
            let through = wrapped(stand(all, all.len() as int).id);
            table.filter(event_until(tenant, through)) == events.filter(
                event_until(tenant, through),
            )
        }),
    ensures
        is_reached(table, issuer, tenant, stand(history(events, issuer, tenant)->Ok_0, k)),
{
    let all = history(events, issuer, tenant)->Ok_0;
    let start = stand(all, k);
    let last = stand(all, all.len() as int);
    lemma_bounds(events, issuer, tenant, k);
    lemma_same_rows(
        events,
        table,
        tenant,
        wrapped(last.id),
        event_until(tenant, wrapped(start.id)),
    );
    lemma_reached(events, issuer, tenant, k, start.id as i64);
    assert(last_event(table, tenant, wrapped(start.id)) == last_event(
        events,
        tenant,
        wrapped(start.id),
    ));
}

/// One page behind the first `k` events of an intact chain goes on with the next.
proof fn lemma_export_page(
    events: Seq<EventRowView>,
    table: Seq<EventRowView>,
    issuer: Seq<char>,
    tenant: Seq<char>,
    limit: usize,
    k: int,
    budget: int,
) -> (j: int)
    requires
        is_intact(events, issuer, tenant),
        1 <= limit <= 100,
        0 <= k <= chain_rows(events, tenant).len(),
        ({
            let all = history(events, issuer, tenant)->Ok_0;
            let through = wrapped(stand(all, all.len() as int).id);
            &&& k < all.len() ==> cost(all[k]) <= budget
            &&& table.filter(event_until(tenant, through)) == events.filter(
                event_until(tenant, through),
            )
        }),
    ensures
        ({
            let all = history(events, issuer, tenant)->Ok_0;
            let n = all.len() as int;
            &&& 0 <= j <= n - k
            &&& k < n ==> j > 0
            &&& page_of_events(
                table,
                issuer,
                tenant,
                stand(all, k),
                stand(all, n).id,
                limit,
                budget,
            ) == Ok::<Seq<DeliveryEventView>, Seq<char>>(all.subrange(k, k + j))
        }),
{
    let all = history(events, issuer, tenant)->Ok_0;
    let rows = chain_rows(events, tenant);
    let n = all.len() as int;
    let start = stand(all, k);
    let last = stand(all, n);
    lemma_bounds(events, issuer, tenant, k);
    lemma_same_rows(
        events,
        table,
        tenant,
        wrapped(last.id),
        event_between(tenant, wrapped(start.id), wrapped(last.id)),
    );
    lemma_page_rows(events, issuer, tenant, k);
    let rest = rows.skip(k);
    let some: int = if rest.len() < limit {
        rest.len() as int
    } else {
        limit as int
    };
    let shown = page(rest, 0, limit as int);
    assert(shown =~= rest.take(some));
    if k < n {
        lemma_read(rows, issuer, tenant, genesis(), k);
    } else {
        assert(rest =~= Seq::<EventRowView>::empty());
        assert(all.skip(k) =~= Seq::<DeliveryEventView>::empty());
    }
    lemma_read_take(rest, issuer, tenant, start, some);
    if k < n {
        assert(all.skip(k).take(some)[0] == all[k]);
    }
    let j = lemma_linked_prefix(shown, issuer, tenant, start, budget, Seq::empty());
    assert(Seq::<DeliveryEventView>::empty() + all.skip(k).take(some).take(j) =~= all.subrange(
        k,
        k + j,
    ));
    j
}

/// One export behind the first `k` events of an intact chain goes on with the next.
proof fn lemma_export(
    events: Seq<EventRowView>,
    table: Seq<EventRowView>,
    issuer: Seq<char>,
    tenant: Seq<char>,
    terminal: Option<EventCheckpointView>,
    limit: usize,
    k: int,
) -> (m: int)
    requires
        is_intact(events, issuer, tenant),
        each_fits(history(events, issuer, tenant)->Ok_0, issuer, tenant),
        1 <= limit <= 100,
        0 <= k <= chain_rows(events, tenant).len(),
        k < chain_rows(events, tenant).len() || k == 0,
        ({
            let all = history(events, issuer, tenant)->Ok_0;
            let last = stand(all, all.len() as int);
            &&& terminal is None ==> table == events
            &&& terminal is Some ==> terminal == Some(last)
            &&& table.filter(event_until(tenant, wrapped(last.id))) == events.filter(
                event_until(tenant, wrapped(last.id)),
            )
        }),
    ensures
        ({
            let all = history(events, issuer, tenant)->Ok_0;
            let n = all.len() as int;
            &&& k <= m <= n
            &&& k < n ==> k < m
            &&& one_export(table, issuer, tenant, stand(all, k), terminal, limit) matches Ok(x)
                && x.events == all.subrange(k, m) && x.end == stand(all, m) && x.terminal == stand(
                all,
                n,
            ) && x.complete == (m == n)
        }),
{
    let all = history(events, issuer, tenant)->Ok_0;
    let n = all.len() as int;
    let start = stand(all, k);
    let last = stand(all, n);
    lemma_bounds(events, issuer, tenant, k);
    lemma_bounds(events, issuer, tenant, n);
    lemma_table_reached(events, table, issuer, tenant, k);
    lemma_table_reached(events, table, issuer, tenant, n);
    lemma_reached(events, issuer, tenant, n, i64::MAX);
    assert(end_of(genesis(), all.take(k)) == start) by {
        if k > 0 {
            assert(all.take(k).last() == all[k - 1]);
        }
    }
    assert(end_of(genesis(), all) == last);
    let envelope = width(envelope_text(issuer, tenant, start, last));
    let budget = MAX_EVENT_PAGE_BYTES - envelope;
    if k < n {
        assert(width(envelope_text(issuer, tenant, end_of(genesis(), all.take(k)), last)) + cost(
            all[k],
        ) <= MAX_EVENT_PAGE_BYTES);
    }
    reveal(one_export);
    let j = lemma_export_page(events, table, issuer, tenant, limit, k, budget);
    let found = all.subrange(k, k + j);
    assert(end_of(start, found) == stand(all, k + j)) by {
        if j > 0 {
            assert(found.last() == all[k + j - 1]);
        }
    }
    lemma_bounds(events, issuer, tenant, k + j);
    k + j
}

proof fn lemma_exports(
    tables: spec_fn(nat) -> Seq<EventRowView>,
    issuer: Seq<char>,
    tenant: Seq<char>,
    terminal: Option<EventCheckpointView>,
    limit: usize,
    k: int,
    n: nat,
    more: nat,
)
    requires
        is_intact(tables(0), issuer, tenant),
        each_fits(history(tables(0), issuer, tenant)->Ok_0, issuer, tenant),
        1 <= limit <= 100,
        0 <= k <= chain_rows(tables(0), tenant).len(),
        k < chain_rows(tables(0), tenant).len() || k == 0,
        more + k >= chain_rows(tables(0), tenant).len(),
        ({
            let all = history(tables(0), issuer, tenant)->Ok_0;
            let last = stand(all, all.len() as int);
            &&& terminal is None ==> n == 0
            &&& terminal is Some ==> terminal == Some(last)
            &&& forall|i: nat|
                (#[trigger] tables(i)).filter(event_until(tenant, wrapped(last.id))) == tables(
                    0,
                ).filter(event_until(tenant, wrapped(last.id)))
        }),
    ensures
        ({
            let all = history(tables(0), issuer, tenant)->Ok_0;
            exports_walked(tables, issuer, tenant, stand(all, k), terminal, limit, n, more) == Ok::<
                Seq<DeliveryEventView>,
                Seq<char>,
            >(all.skip(k))
        }),
    decreases more,
{
    let all = history(tables(0), issuer, tenant)->Ok_0;
    let last = stand(all, all.len() as int);
    lemma_chain_rows(tables(0), issuer, tenant);
    assert(tables(n).filter(event_until(tenant, wrapped(last.id))) == tables(0).filter(
        event_until(tenant, wrapped(last.id)),
    ));
    let m = lemma_export(tables(0), tables(n), issuer, tenant, terminal, limit, k);
    let x = one_export(tables(n), issuer, tenant, stand(all, k), terminal, limit)->Ok_0;
    assert(x.events == all.subrange(k, m) && x.end == stand(all, m) && x.terminal == last);
    if m == all.len() {
        assert(x.complete);
        assert(all.subrange(k, m) =~= all.skip(k));
    } else {
        assert(!x.complete && more > 0);
        lemma_exports(
            tables,
            issuer,
            tenant,
            Some(last),
            limit,
            m,
            n + 1,
            (more - 1) as nat,
        );
        assert(all.subrange(k, m) + all.skip(m) =~= all.skip(k));
    }
}

// ---------------------------------------------------------------------- laws
/// The exports of an intact chain, taken one after the other, together are all of its
/// events up to where it stood at the first export, each once and in order; events that
/// are appended meanwhile are left out.
pub proof fn exports_together_are_the_chain(
    tables: spec_fn(nat) -> Seq<EventRowView>,
    issuer: Seq<char>,
    tenant: Seq<char>,
    limit: usize,
)
    requires
        1 <= limit <= 100,
        numbered(tables(0)),
        history(tables(0), issuer, tenant) matches Ok(all) && each_fits(all, issuer, tenant)
            && forall|i: nat|
            (#[trigger] tables(i)).filter(
                event_until(tenant, wrapped(end_of(genesis(), all).id)),
            ) == tables(0).filter(event_until(tenant, wrapped(end_of(genesis(), all).id))),
    ensures
        ({
            let all = history(tables(0), issuer, tenant)->Ok_0;
            &&& exports_walked(
                tables,
                issuer,
                tenant,
                genesis(),
                None,
                limit,
                0,
                all.len(),
            ) == Ok::<Seq<DeliveryEventView>, Seq<char>>(all)
            &&& is_chain(genesis(), all, issuer, tenant)
            &&& all.len() == chain_rows(tables(0), tenant).len()
            &&& forall|x: EventRowView| #[trigger]
                chain_rows(tables(0), tenant).contains(x) <==> tables(0).contains(x) && x.tenant
                    == tenant
            &&& forall|i: int|
                0 <= i < all.len() ==> event_of(chain_rows(tables(0), tenant)[i]) == Ok::<
                    DeliveryEventView,
                    Seq<char>,
                >(#[trigger] all[i])
        }),
{
    let all = history(tables(0), issuer, tenant)->Ok_0;
    lemma_chain_rows(tables(0), issuer, tenant);
    assert(end_of(genesis(), all) == stand(all, all.len() as int));
    lemma_exports(tables, issuer, tenant, None, limit, 0, 0, all.len());
    assert(all.skip(0) =~= all);
    lemma_is_chain(tables(0), issuer, tenant, all.len() as int);
    assert(all.take(all.len() as int) =~= all);
}

proof fn lemma_is_chain(events: Seq<EventRowView>, issuer: Seq<char>, tenant: Seq<char>, i: int)
    requires
        is_intact(events, issuer, tenant),
        0 <= i <= chain_rows(events, tenant).len(),
    ensures
        is_chain(genesis(), history(events, issuer, tenant)->Ok_0.take(i), issuer, tenant),
    decreases i,
{
    let all = history(events, issuer, tenant)->Ok_0;
    lemma_chain_rows(events, issuer, tenant);
    if i > 0 {
        lemma_is_chain(events, issuer, tenant, i - 1);
        lemma_read(chain_rows(events, tenant), issuer, tenant, genesis(), i - 1);
        assert(all.take(i).drop_last() =~= all.take(i - 1));
        assert(all.take(i).last() == all[i - 1]);
        if i > 1 {
            assert(all.take(i - 1).last() == all[i - 2]);
        }
        reveal(continued);
    }
}

/// An event that is appended comes behind every event there is, and so leaves every
/// chain as it was up to there.
pub proof fn appended_events_come_last(
    s: StoreView,
    issuer: Seq<char>,
    tenant: Seq<char>,
    grant_id: Seq<char>,
    kind: Seq<char>,
    payload: Seq<char>,
    now: u64,
    signature: Seq<char>,
    whose: Seq<char>,
    i: int,
)
    requires
        0 <= i < s.events.len(),
    ensures
        drafted(s, issuer, tenant, grant_id, kind, payload, now) matches Ok(e) ==> s.events[i].id
            < e.id && chained(s, e, signature).events.filter(
            event_until(whose, s.events[i].id),
        ) == s.events.filter(event_until(whose, s.events[i].id)),
{
    if let Ok(e) = drafted(s, issuer, tenant, grant_id, kind, payload, now) {
        let ids = event_ids(s);
        let row = event_row_of(e, signature);
        crate::table::lemma_greatest(ids);
        assert(ids[i] == s.events[i].id);
        crate::table::lemma_filter_push(s.events, row, event_until(whose, s.events[i].id));
    }
}

} // verus!
