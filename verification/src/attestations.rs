//! Reports on deliveries and the chain of events: what is taken down, what it stands for, and
//! that no page or export leaves an event out.
use vstd::prelude::*;
use vstd::utf8::encode_utf8;

use crate::columns::wrapped;
use crate::evidence::{
    chained, checkpoint_of, continued, cost, document_of, drafted, earlier_event, earlier_evidence,
    end_of, event_between, event_of, event_stands, event_until, event_verifies, events_after,
    evidence_admitted, evidence_after, evidence_by, evidence_document, evidence_event, evidence_is,
    evidence_on, evidence_outcome, evidence_recorded, exported, is_chain, is_reached, kind_name,
    last_event, later_event, linked, listed_evidence, manifest_known, page_limit, page_of_events,
    reached, total_cost, with_evidence,
};
use crate::hexadecimal::hex_bytes;
use crate::issue::digest_of;
use crate::kinds::EvidenceKind;
use crate::offers::grant_by_id;
use crate::records::{DeliveryEventView, EventCheckpointView, EvidenceView};
use crate::rows::{DigestRowView, EventRowView, EvidenceRowView, GrantRowView};
use crate::selection::{
    lemma_counted, lemma_found, lemma_ordered, lemma_paged, lemma_read, lemma_selected,
};
use crate::signatures::strictly_signed;
use crate::store::StoreView;
use crate::table::{any, first, greatest, page, sorted_by, try_map};

verus! {

// --------------------------------------------------------------------- events
/// An event stands only for its own issuer and its own tenant, and only under a signature of
/// that issuer's key over its document.
pub proof fn events_stand_for_their_own(e: DeliveryEventView, issuer: Seq<char>, tenant: Seq<char>)
    ensures
        event_stands(e, issuer, tenant) ==> e.issuer == issuer && e.tenant == tenant && e.id > 0,
        e.issuer == issuer && e.tenant == tenant && e.id > 0 ==> event_stands(e, issuer, tenant)
            == event_verifies(e),
        event_verifies(e) ==> strictly_signed(
            hex_bytes(e.issuer),
            encode_utf8("votport-delivery-event-v1\0"@) + encode_utf8(document_of(e)),
            hex_bytes(e.signature),
        ),
        event_verifies(e) ==> hex_bytes(e.issuer).len() == 32,
{
}

/// Whether a row is the last of a tenant's chain up to a number.
pub open spec fn is_last(
    events: Seq<EventRowView>,
    tenant: Seq<char>,
    through: i64,
    row: EventRowView,
) -> bool {
    &&& events.contains(row) && row.tenant == tenant && row.id <= through
    &&& forall|o: EventRowView| #[trigger]
        events.contains(o) && o.tenant == tenant && o.id <= through ==> o.id <= row.id
}

proof fn lemma_last(events: Seq<EventRowView>, tenant: Seq<char>, through: i64)
    ensures
        match last_event(events, tenant, through) {
            None => forall|o: EventRowView| #[trigger]
                events.contains(o) && o.tenant == tenant ==> o.id > through,
            Some(row) => is_last(events, tenant, through, row),
        },
{
    let own = event_until(tenant, through);
    let rows = events.filter(own);
    let all = sorted_by(rows, later_event());
    lemma_selected(events, own);
    lemma_ordered(rows, later_event());
    if all.len() > 0 {
        crate::table::lemma_sorted_ordered(rows, later_event());
        assert(all.contains(all[0]));
        assert forall|o: EventRowView| #[trigger]
            events.contains(o) && o.tenant == tenant && o.id <= through implies o.id
            <= all[0].id by {
            assert(rows.contains(o));
            assert(all.contains(o));
            let k = choose|k: int| 0 <= k < all.len() && all[k] == o;
            lemma_first_is_last(all, k);
        }
    } else {
        assert forall|o: EventRowView| #[trigger]
            events.contains(o) && o.tenant == tenant implies o.id > through by {
            if o.id <= through {
                assert(rows.contains(o));
                assert(all.contains(o));
            }
        }
    }
}

proof fn lemma_first_is_last(all: Seq<EventRowView>, k: int)
    requires
        0 <= k < all.len(),
        forall|i: int|
            #![trigger all[i]]
            0 < i < all.len() ==> !later_event()(all[i], all[i - 1]),
    ensures
        all[k].id <= all[0].id,
    decreases k,
{
    if k > 0 {
        lemma_first_is_last(all, k - 1);
        assert(!later_event()(all[k], all[k - 1]));
    }
}

/// Where a chain stands at a number is told by the last of its events up to there, if that is
/// a valid one; where there is none it stands at its start.
pub proof fn chains_stand_at_their_last_event(
    events: Seq<EventRowView>,
    issuer: Seq<char>,
    tenant: Seq<char>,
    through: u64,
)
    requires
        through <= i64::MAX,
    ensures
        (forall|o: EventRowView| #[trigger]
            events.contains(o) && o.tenant == tenant ==> o.id > through) ==> (reached(
            events,
            issuer,
            tenant,
            through,
        ) matches Ok(c) && c.id == 0 && c.hash.len() == 0),
        (exists|o: EventRowView| #[trigger]
            events.contains(o) && o.tenant == tenant && o.id <= through) ==> (reached(
            events,
            issuer,
            tenant,
            through,
        ) matches Ok(c) ==> exists|row: EventRowView|
            #[trigger] is_last(events, tenant, through as i64, row) && row.hash == c.hash && (row.id
                >= 0 ==> row.id == c.id) && (event_of(row) matches Ok(e) && event_stands(
                e,
                issuer,
                tenant,
            ))),
        forall|row: EventRowView| #[trigger]
            is_last(events, tenant, through as i64, row) && (forall|o: EventRowView| #[trigger]
                is_last(events, tenant, through as i64, o) ==> o == row) && (event_of(
                row,
            ) matches Ok(e) && event_stands(e, issuer, tenant)) ==> reached(
                events,
                issuer,
                tenant,
                through,
            ) is Ok,
{
    lemma_last(events, tenant, through as i64);
    if let Some(row) = last_event(events, tenant, wrapped(through)) {
        assert(is_last(events, tenant, through as i64, row));
    }
}

/// The next event of a chain has a number that none had before, names the hash of the event
/// before it in its tenant's chain, and tells what happened; it is refused exactly if the
/// numbers are used up.
pub proof fn events_are_drafted(
    s: StoreView,
    issuer: Seq<char>,
    tenant: Seq<char>,
    grant_id: Seq<char>,
    kind: Seq<char>,
    payload: Seq<char>,
    now: u64,
)
    ensures
        drafted(s, issuer, tenant, grant_id, kind, payload, now) is Err <==> s.event_sequence
            == i64::MAX || exists|o: EventRowView| #[trigger]
            s.events.contains(o) && o.id == i64::MAX,
        drafted(s, issuer, tenant, grant_id, kind, payload, now) matches Ok(e) ==> {
            &&& e.issuer == issuer && e.tenant == tenant && e.grant_id == grant_id && e.kind == kind
                && e.payload == payload && e.created_at == now
            &&& e.id > s.event_sequence && 0 < e.id <= i64::MAX
            &&& forall|o: EventRowView| #[trigger] s.events.contains(o) ==> e.id > o.id
            &&& (forall|o: EventRowView| #[trigger] s.events.contains(o) ==> o.tenant != tenant)
                ==> e.previous_hash.len() == 0
            &&& (exists|o: EventRowView| #[trigger] s.events.contains(o) && o.tenant == tenant)
                ==> exists|row: EventRowView|
                #[trigger] is_last(s.events, tenant, i64::MAX, row) && e.previous_hash == row.hash
        },
{
    let ids = crate::evidence::event_ids(s);
    crate::table::lemma_greatest(ids);
    crate::trail::lemma_greatest_is_there(ids);
    lemma_last(s.events, tenant, i64::MAX);
    let n = s.events.len();
    assert(ids[n as int] == s.event_sequence);
    assert forall|o: EventRowView| #[trigger] s.events.contains(o) implies o.id <= greatest(
        ids,
    ) by {
        let i = choose|i: int| 0 <= i < n && s.events[i] == o;
        assert(ids[i] == o.id);
    }
    if greatest(ids) == i64::MAX {
        let i = choose|i: int| 0 <= i < ids.len() && ids[i] == greatest(ids);
        if i < n {
            assert(s.events.contains(s.events[i]));
        }
    }
}

/// An event is appended behind those that are there, as it was drafted and signed; nothing
/// else changes.
pub proof fn events_are_appended(s: StoreView, e: DeliveryEventView, signature: Seq<char>)
    requires
        e.id <= i64::MAX,
        e.created_at <= i64::MAX,
    ensures
        ({
            let after = chained(s, e, signature);
            let row = after.events.last();
            &&& after.events.len() == s.events.len() + 1 && after.events.drop_last() == s.events
            &&& row.id == e.id && row.tenant == e.tenant && row.grant_id == e.grant_id && row.kind
                == e.kind && row.payload == e.payload && row.created_at == e.created_at
            &&& row.previous_hash == e.previous_hash && row.issuer == e.issuer && row.signature
                == signature
            &&& after.event_sequence == e.id
            &&& after == (StoreView {
                events: after.events,
                event_sequence: after.event_sequence,
                ..s
            })
        }),
{
    assert(chained(s, e, signature).events.drop_last() =~= s.events);
}

// ---------------------------------------------------------------------- pages
/// Whether events are those of the first rows, in their order.
pub open spec fn told_by(rows: Seq<EventRowView>, events: Seq<DeliveryEventView>) -> bool {
    events.len() <= rows.len() && forall|i: int|
        0 <= i < events.len() ==> event_of(#[trigger] rows[i]) == Ok::<
            DeliveryEventView,
            Seq<char>,
        >(events[i])
}

proof fn lemma_linked_whole(
    all: Seq<EventRowView>,
    issuer: Seq<char>,
    tenant: Seq<char>,
    previous: EventCheckpointView,
    budget: int,
    taken: Seq<DeliveryEventView>,
)
    requires
        told_by(all, taken),
    ensures
        ({
            let rows = all.skip(taken.len() as int);
            linked(rows, issuer, tenant, previous, budget, taken) matches Ok(found) ==> {
                &&& told_by(all, found)
                &&& found.len() >= taken.len()
                &&& found.len() < all.len() ==> (event_of(all[found.len() as int]) matches Ok(next)
                    && total_cost(found) + cost(next) > total_cost(taken) + budget)
            }
        }),
    decreases all.len() - taken.len(),
{
    reveal(continued);
    let rows = all.skip(taken.len() as int);
    if rows.len() > 0 {
        assert(rows[0] == all[taken.len() as int]);
        if let Ok(event) = continued(rows[0], issuer, tenant, previous) {
            if cost(event) <= budget {
                let more = taken.push(event);
                assert(rows.skip(1) =~= all.skip(more.len() as int));
                assert(more.drop_last() =~= taken);
                assert(total_cost(more) == total_cost(taken) + cost(event));
                lemma_linked_whole(
                    all,
                    issuer,
                    tenant,
                    checkpoint_of(event),
                    budget - cost(event),
                    more,
                );
            }
        }
    }
}

/// The rows of a tenant's chain between two numbers, in order.
pub open spec fn stretch(
    events: Seq<EventRowView>,
    tenant: Seq<char>,
    after: i64,
    through: i64,
) -> Seq<EventRowView> {
    sorted_by(
        events.filter(|e: EventRowView| e.tenant == tenant && after < e.id && e.id <= through),
        |a: EventRowView, b: EventRowView| a.id < b.id,
    )
}

/// A page holds the events of the chain's rows from its start on, one after the other, none
/// left out. It ends before the chain does only at its limit, or where the next event would
/// not fit.
pub proof fn pages_leave_no_event_out(
    events: Seq<EventRowView>,
    issuer: Seq<char>,
    tenant: Seq<char>,
    start: EventCheckpointView,
    through: u64,
    limit: usize,
    budget: int,
)
    requires
        start.id <= i64::MAX,
        through <= i64::MAX,
    ensures
        page_of_events(events, issuer, tenant, start, through, limit, budget) matches Ok(found)
            ==> {
            let rows = stretch(events, tenant, start.id as i64, through as i64);
            let most = if limit > 100 {
                100
            } else {
                limit as int
            };
            &&& told_by(rows, found)
            &&& found.len() <= most
            &&& found.len() < rows.len() && found.len() < most ==> (event_of(
                rows[found.len() as int],
            ) matches Ok(next) && total_cost(found) + cost(next) > budget)
        },
{
    let own = event_between(tenant, start.id as i64, through as i64);
    let raw = |e: EventRowView| e.tenant == tenant && (start.id as i64) < e.id && e.id
        <= through as i64;
    lemma_counted(events, own, raw);
    let order = |a: EventRowView, b: EventRowView| a.id < b.id;
    assert(earlier_event() =~= order);
    let rows = stretch(events, tenant, start.id as i64, through as i64);
    assert(rows == sorted_by(events.filter(own), earlier_event()));
    let shown = page(rows, 0, page_limit(limit));
    lemma_paged(rows, 0, page_limit(limit));
    assert(shown.skip(0) =~= shown);
    lemma_linked_whole(shown, issuer, tenant, start, budget, Seq::empty());
    if let Ok(found) = page_of_events(events, issuer, tenant, start, through, limit, budget) {
        assert forall|i: int| 0 <= i < found.len() implies event_of(#[trigger] rows[i]) == Ok::<
            DeliveryEventView,
            Seq<char>,
        >(found[i]) by {
            assert(shown[i] == rows[0 + i]);
        }
        if found.len() < rows.len() && found.len() < page_limit(limit) {
            assert(shown[found.len() as int] == rows[0 + found.len() as int]);
        }
    }
}

proof fn lemma_chain_prefix(
    start: EventCheckpointView,
    events: Seq<DeliveryEventView>,
    issuer: Seq<char>,
    tenant: Seq<char>,
    n: int,
)
    requires
        is_chain(start, events, issuer, tenant),
        0 <= n <= events.len(),
    ensures
        is_chain(start, events.take(n), issuer, tenant),
        total_cost(events.take(n)) <= total_cost(events),
    decreases events.len() - n,
{
    if n < events.len() {
        lemma_chain_prefix(start, events, issuer, tenant, n + 1);
        assert(events.take(n + 1).drop_last() =~= events.take(n));
    } else {
        assert(events.take(n) =~= events);
    }
}

proof fn lemma_linked_succeeds(
    rows: Seq<EventRowView>,
    issuer: Seq<char>,
    tenant: Seq<char>,
    start: EventCheckpointView,
    budget: int,
    events: Seq<DeliveryEventView>,
    n: int,
)
    requires
        0 <= n <= rows.len(),
        rows.len() == events.len(),
        told_by(rows, events),
        is_chain(start, events, issuer, tenant),
        total_cost(events) <= budget,
    ensures
        linked(
            rows.skip(n),
            issuer,
            tenant,
            end_of(start, events.take(n)),
            budget - total_cost(events.take(n)),
            events.take(n),
        ) == Ok::<Seq<DeliveryEventView>, Seq<char>>(events),
    decreases rows.len() - n,
{
    reveal(continued);
    if n < rows.len() {
        let so_far = events.take(n);
        let more = events.take(n + 1);
        lemma_chain_prefix(start, events, issuer, tenant, n + 1);
        assert(more.drop_last() =~= so_far);
        assert(more.last() == events[n]);
        assert(rows.skip(n)[0] == rows[n]);
        assert(event_of(rows[n]) == Ok::<DeliveryEventView, Seq<char>>(events[n]));
        assert(rows.skip(n).skip(1) =~= rows.skip(n + 1));
        assert(so_far.push(events[n]) =~= more);
        lemma_linked_succeeds(rows, issuer, tenant, start, budget, events, n + 1);
    } else {
        assert(events.take(n) =~= events);
    }
}

/// Rows that are a valid chain from a checkpoint on are all on its page, where they are no
/// more than the limit and fit.
pub proof fn valid_chains_are_shown(
    rows: Seq<EventRowView>,
    issuer: Seq<char>,
    tenant: Seq<char>,
    start: EventCheckpointView,
    through: u64,
    limit: usize,
    budget: int,
    events: Seq<EventRowView>,
    told: Seq<DeliveryEventView>,
)
    requires
        start.id <= i64::MAX,
        through <= i64::MAX,
        rows == stretch(events, tenant, start.id as i64, through as i64),
        rows.len() == told.len(),
        rows.len() <= limit,
        rows.len() <= 100,
        told_by(rows, told),
        is_chain(start, told, issuer, tenant),
        total_cost(told) <= budget,
    ensures
        page_of_events(events, issuer, tenant, start, through, limit, budget) == Ok::<
            Seq<DeliveryEventView>,
            Seq<char>,
        >(told),
{
    let own = event_between(tenant, start.id as i64, through as i64);
    let raw = |e: EventRowView| e.tenant == tenant && (start.id as i64) < e.id && e.id
        <= through as i64;
    lemma_counted(events, own, raw);
    let order = |a: EventRowView, b: EventRowView| a.id < b.id;
    assert(earlier_event() =~= order);
    lemma_paged(rows, 0, page_limit(limit));
    assert(rows.skip(0) =~= rows);
    assert(told.take(0) =~= Seq::<DeliveryEventView>::empty());
    lemma_linked_succeeds(rows, issuer, tenant, start, budget, told, 0);
}

/// The events after a number are a page from where the chain stands there; a number that no
/// event can have is refused.
pub proof fn later_events_are_paged(
    events: Seq<EventRowView>,
    issuer: Seq<char>,
    tenant: Seq<char>,
    after: u64,
    limit: usize,
)
    ensures
        after > i64::MAX || reached(events, issuer, tenant, after) is Err ==> events_after(
            events,
            issuer,
            tenant,
            after,
            limit,
        ) is Err,
        events_after(events, issuer, tenant, after, limit) matches Ok(found) ==> {
            &&& found.len() <= 100 && found.len() <= limit
            &&& reached(events, issuer, tenant, after) matches Ok(start) && is_chain(
                start,
                found,
                issuer,
                tenant,
            ) && (start.id <= i64::MAX ==> told_by(
                stretch(events, tenant, start.id as i64, i64::MAX),
                found,
            ))
        },
{
    if after <= i64::MAX {
        if let Ok(start) = reached(events, issuer, tenant, after) {
            lemma_last(events, tenant, after as i64);
            let budget = crate::evidence::MAX_EVENT_PAGE_BYTES - 128;
            let through = i64::MAX as u64;
            if start.id <= i64::MAX {
                pages_leave_no_event_out(events, issuer, tenant, start, through, limit, budget);
            }
            crate::evidence::pages_are_chains(
                events,
                issuer,
                tenant,
                start,
                through,
                limit,
                budget,
            );
        }
    }
}

/// An export is of the tenant and issuer it was asked for, starts where it was told to, and
/// goes up to the checkpoint it was given, or else to where the chain stands. It takes between
/// one and a hundred events at once, and both ends have to be of the chain.
pub proof fn exports_are_what_was_asked_for(
    events: Seq<EventRowView>,
    issuer: Seq<char>,
    tenant: Seq<char>,
    start: EventCheckpointView,
    terminal: Option<EventCheckpointView>,
    limit: usize,
)
    ensures
        exported(events, issuer, tenant, start, terminal, limit) matches Ok(x) ==> {
            &&& 1 <= limit <= 100
            &&& x.issuer == issuer && x.tenant == tenant && x.start == start
            &&& x.format == "votport-delivery-events-v1"@
            &&& is_reached(events, issuer, tenant, x.start)
            &&& terminal matches Some(t) ==> x.terminal == t && is_reached(
                events,
                issuer,
                tenant,
                t,
            )
            &&& terminal is None ==> reached(events, issuer, tenant, i64::MAX as u64) == Ok::<
                EventCheckpointView,
                Seq<char>,
            >(x.terminal)
            &&& x.start.id <= x.terminal.id
            &&& x.events.len() == 0 ==> x.end == x.start && x.complete
            &&& x.events.len() > 0 ==> x.end.id == x.events.last().id && x.end.hash
                == x.events.last().hash
            &&& x.terminal.id <= i64::MAX ==> told_by(
                stretch(events, tenant, start.id as i64, x.terminal.id as i64),
                x.events,
            )
        },
{
    if let Ok(x) = exported(events, issuer, tenant, start, terminal, limit) {
        if x.terminal.id <= i64::MAX {
            let budget = crate::evidence::MAX_EVENT_PAGE_BYTES - crate::evidence::width(
                crate::evidence::envelope_text(issuer, tenant, start, x.terminal),
            );
            pages_leave_no_event_out(
                events,
                issuer,
                tenant,
                start,
                x.terminal.id,
                limit,
                budget,
            );
        }
    }
}

// -------------------------------------------------------------------- reports
/// The digest of a delivery is remembered from the first time it is asked for: it is told
/// again whatever is offered then. It is told for a delivery that is there.
pub proof fn digests_are_remembered(
    s: StoreView,
    id: Seq<char>,
    digest: Seq<char>,
    other: Seq<char>,
)
    ensures
        manifest_known(s, id, digest) matches Ok((after, d)) ==> {
            &&& manifest_known(after, id, other) == Ok::<(StoreView, Seq<char>), Seq<char>>(
                (after, d),
            )
            &&& exists|x: DigestRowView| #[trigger]
                after.digests.contains(x) && x.grant_id == id && x.digest == d
            &&& (forall|x: DigestRowView| #[trigger] s.digests.contains(x) ==> x.grant_id != id)
                ==> d == digest && after.digests.drop_last() == s.digests
            &&& (exists|x: DigestRowView| #[trigger] s.digests.contains(x) && x.grant_id == id)
                ==> after == s
            &&& after == (StoreView { digests: after.digests, ..s })
        },
        (forall|x: DigestRowView| #[trigger] s.digests.contains(x) ==> x.grant_id != id) ==> (
        manifest_known(s, id, digest) is Ok <==> (grant_by_id(s, id) matches Ok(Some(_)))),
        (exists|x: DigestRowView| #[trigger] s.digests.contains(x) && x.grant_id == id)
            ==> manifest_known(s, id, digest) is Ok,
{
    lemma_found(s.digests, digest_of(id));
    if let Ok((after, d)) = manifest_known(s, id, digest) {
        if first(s.digests, digest_of(id)) is None {
            let row = DigestRowView { grant_id: id, digest };
            assert(after.digests == s.digests.push(row));
            assert(after.digests.drop_last() =~= s.digests);
            crate::readback::lemma_first_pushed(s.digests, row, digest_of(id));
            assert(after.digests[s.digests.len() as int] == row);
            assert(after.digests.contains(row));
            assert(first(after.digests, digest_of(id)) == Some(row));
        }
    }
}

/// Whether a device has reported something on a delivery.
pub open spec fn has_reported(
    s: StoreView,
    grant_id: Seq<char>,
    holder: Seq<char>,
    kind: Seq<char>,
) -> bool {
    exists|e: EvidenceRowView| #[trigger]
        s.evidence.contains(e) && e.grant_id == grant_id && e.holder == holder && e.kind == kind
}

/// Whether a report is on record under its id.
pub open spec fn on_record(s: StoreView, id: Seq<char>) -> bool {
    any(s.evidence, evidence_is(id))
}

/// A report is taken if the delivery is there and the report is on what was delivered; an
/// acceptance needs a verification by the same device before it, and a delivery has at most
/// two thousand reports. A report that is on record already is not taken again.
pub proof fn reports_are_admitted(s: StoreView, e: EvidenceView, d: DigestRowView)
    requires
        s.digests.contains(d),
        d.grant_id == e.grant_id,
        forall|x: DigestRowView| #[trigger]
            s.digests.contains(x) && x.grant_id == e.grant_id ==> x == d,
        forall|x: EvidenceRowView| #[trigger] s.evidence.contains(x) ==> x.rowid < i64::MAX,
    ensures
        ({
            let there = exists|g: GrantRowView| #[trigger]
                s.grants.contains(g) && g.id == e.grant_id;
            let known = exists|x: EvidenceRowView| #[trigger]
                s.evidence.contains(x) && x.id == e.id;
            let many = s.evidence.filter(
                |x: EvidenceRowView| x.grant_id == e.grant_id,
            ).len();
            &&& evidence_admitted(s, e) == Ok::<bool, Seq<char>>(false) <==> there && d.digest
                == e.manifest && known
            &&& evidence_admitted(s, e) == Ok::<bool, Seq<char>>(true) <==> there && d.digest
                == e.manifest && !known && many < 2000 && (e.kind is Accepted ==> has_reported(
                s,
                e.grant_id,
                e.holder,
                "verified"@,
            ))
        }),
{
    lemma_found(s.grants, crate::downloads::grant_is(e.grant_id));
    lemma_found(s.digests, digest_of(e.grant_id));
    lemma_found(s.evidence, evidence_is(e.id));
    lemma_found(s.evidence, evidence_by(e.grant_id, e.holder, "verified"@));
    let raw = |x: EvidenceRowView| x.grant_id == e.grant_id;
    lemma_counted(s.evidence, evidence_on(e.grant_id), raw);
    let ids = crate::evidence::evidence_ids(s.evidence);
    crate::trail::lemma_greatest_is_there(ids);
    if greatest(ids) == i64::MAX {
        let i = choose|i: int| 0 <= i < ids.len() && ids[i] == greatest(ids);
        assert(s.evidence.contains(s.evidence[i]));
    }
}

/// Without the delivery or its digest no report is taken.
pub proof fn reports_need_their_delivery(s: StoreView, e: EvidenceView)
    ensures
        (forall|g: GrantRowView| #[trigger] s.grants.contains(g) ==> g.id != e.grant_id) || (forall|
            x: DigestRowView,
        | #[trigger] s.digests.contains(x) ==> x.grant_id != e.grant_id) ==> evidence_admitted(
            s,
            e,
        ) is Err,
{
    lemma_found(s.grants, crate::downloads::grant_is(e.grant_id));
    lemma_found(s.digests, digest_of(e.grant_id));
}

/// Whether the store is as it was but for one more report.
pub open spec fn one_more_report(s: StoreView, after: StoreView, e: EvidenceView, now: u64) -> bool {
    let row = after.evidence.last();
    &&& after.evidence.len() == s.evidence.len() + 1 && after.evidence.drop_last() == s.evidence
    &&& row.id == e.id && row.grant_id == e.grant_id && row.holder == e.holder && row.document
        == e.document
    &&& row.kind == match e.kind {
        EvidenceKind::Verified => "verified"@,
        EvidenceKind::Accepted => "accepted"@,
    }
    &&& now <= i64::MAX ==> row.received_at == now
    &&& forall|x: EvidenceRowView| #[trigger] s.evidence.contains(x) ==> x.rowid < row.rowid
}

/// Whether an event tells of a report on a delivery of a tenant.
pub open spec fn tells_of(event: EventRowView, g: GrantRowView, e: EvidenceView) -> bool {
    event.tenant == g.tenant && event.grant_id == e.grant_id && event.kind == match e.kind {
        EvidenceKind::Verified => "recipient_verified"@,
        EvidenceKind::Accepted => "recipient_accepted"@,
    }
}

/// A report that is taken is on record from then on. The first of its kind from its device
/// gives one event in the chain of the delivery's tenant, a further one gives none; a report
/// that is not taken changes nothing.
pub proof fn reports_are_recorded(
    s: StoreView,
    issuer: Seq<char>,
    e: EvidenceView,
    now: u64,
    signature: Seq<char>,
)
    ensures
        ({
            let after = evidence_recorded(s, issuer, e, now, signature);
            let kind = match e.kind {
                EvidenceKind::Verified => "verified"@,
                EvidenceKind::Accepted => "accepted"@,
            };
            &&& evidence_outcome(s, issuer, e, now) != Ok::<bool, Seq<char>>(true) ==> after == s
            &&& evidence_outcome(s, issuer, e, now) == Ok::<bool, Seq<char>>(true) ==> {
                &&& one_more_report(s, after, e, now)
                &&& on_record(after, e.id)
                &&& has_reported(s, e.grant_id, e.holder, kind) ==> after.events == s.events
                    && after.event_sequence == s.event_sequence
                &&& !has_reported(s, e.grant_id, e.holder, kind) ==> after.events.len()
                    == s.events.len() + 1 && after.events.drop_last() == s.events && exists|
                    g: GrantRowView,
                | #[trigger]
                    s.grants.contains(g) && g.id == e.grant_id && tells_of(
                        after.events.last(),
                        g,
                        e,
                    )
                &&& after == (StoreView {
                    evidence: after.evidence,
                    events: after.events,
                    event_sequence: after.event_sequence,
                    ..s
                })
            }
            &&& evidence_admitted(s, e) != Ok::<bool, Seq<char>>(true) ==> evidence_outcome(
                s,
                issuer,
                e,
                now,
            ) == evidence_admitted(s, e)
            &&& evidence_admitted(s, e) == Ok::<bool, Seq<char>>(true) && has_reported(
                s,
                e.grant_id,
                e.holder,
                kind,
            ) ==> evidence_outcome(s, issuer, e, now) == Ok::<bool, Seq<char>>(true)
            &&& evidence_document(s, issuer, e, now) is Some <==> evidence_outcome(
                s,
                issuer,
                e,
                now,
            ) == Ok::<bool, Seq<char>>(true) && !has_reported(s, e.grant_id, e.holder, kind)
        }),
{
    lemma_found(s.grants, crate::downloads::grant_is(e.grant_id));
    lemma_found(s.evidence, evidence_by(e.grant_id, e.holder, kind_name(e.kind)));
    let ids = crate::evidence::evidence_ids(s.evidence);
    crate::table::lemma_greatest(ids);
    assert forall|x: EvidenceRowView| #[trigger] s.evidence.contains(x) implies x.rowid <= greatest(
        ids,
    ) by {
        let i = choose|i: int| 0 <= i < s.evidence.len() && s.evidence[i] == x;
        assert(ids[i] == x.rowid);
    }
    let after = evidence_recorded(s, issuer, e, now, signature);
    if evidence_outcome(s, issuer, e, now) == Ok::<bool, Seq<char>>(true) {
        assert(with_evidence(s, e, now).evidence.drop_last() =~= s.evidence);
        lemma_found(after.evidence, evidence_is(e.id));
        assert(after.evidence[s.evidence.len() as int] == after.evidence.last());
        assert(after.evidence.contains(after.evidence.last()));
        if !has_reported(s, e.grant_id, e.holder, kind_name(e.kind)) {
            let event = evidence_event(s, issuer, e, now)->Ok_0;
            assert(after == chained(with_evidence(s, e, now), event, signature));
            assert(after.events.drop_last() =~= s.events);
            let g = first(s.grants, crate::downloads::grant_is(e.grant_id))->0;
            assert(tells_of(after.events.last(), g, e));
        }
    }
}

/// A report is on record exactly if one of its id is there.
pub proof fn records_are_known(s: StoreView, id: Seq<char>)
    ensures
        on_record(s, id) <==> exists|x: EvidenceRowView| #[trigger]
            s.evidence.contains(x) && x.id == id,
{
    lemma_found(s.evidence, evidence_is(id));
}

/// The reports on a delivery after a number.
pub open spec fn reports_listed(s: StoreView, grant_id: Seq<char>, after: u64, limit: usize) -> Result<
    Seq<Seq<char>>,
    Seq<char>,
> {
    try_map(
        page(
            sorted_by(
                s.evidence.filter(evidence_after(grant_id, wrapped(after))),
                earlier_evidence(),
            ),
            0,
            page_limit(limit),
        ),
        listed_evidence(),
    )
}

/// Whether rows are those behind the reports that are listed, earlier numbers first.
pub open spec fn reports_behind(
    s: StoreView,
    grant_id: Seq<char>,
    after: u64,
    rows: Seq<EvidenceRowView>,
    list: Seq<Seq<char>>,
) -> bool {
    &&& rows.len() == list.len()
    &&& forall|i: int|
        0 <= i < rows.len() ==> s.evidence.contains(#[trigger] rows[i]) && rows[i].grant_id
            == grant_id && rows[i].rowid > after && listed_evidence()(rows[i]) == Ok::<
            Seq<char>,
            Seq<char>,
        >(list[i])
    &&& forall|i: int| 0 < i < rows.len() ==> rows[i - 1].rowid <= (#[trigger] rows[i]).rowid
}

/// The reports that are listed are those on the delivery after the number, the earliest first,
/// as many as were asked for up to a hundred, and all where no more are left.
pub proof fn reports_are_listed(s: StoreView, grant_id: Seq<char>, after: u64, limit: usize)
    requires
        after <= i64::MAX,
    ensures
        reports_listed(s, grant_id, after, limit) matches Ok(list) ==> {
            let all = s.evidence.filter(
                |x: EvidenceRowView| x.grant_id == grant_id && x.rowid > after,
            ).len();
            let most = if limit > 100 {
                100
            } else {
                limit as int
            };
            &&& list.len() == if all <= most {
                all as int
            } else {
                most
            }
            &&& exists|rows: Seq<EvidenceRowView>| reports_behind(s, grant_id, after, rows, list)
            &&& all <= most ==> forall|x: EvidenceRowView| #[trigger]
                s.evidence.contains(x) && x.grant_id == grant_id && x.rowid > after
                    ==> listed_evidence()(x) is Ok && list.contains(listed_evidence()(x)->Ok_0)
        },
{
    let own = evidence_after(grant_id, wrapped(after));
    let raw = |x: EvidenceRowView| x.grant_id == grant_id && x.rowid > after;
    lemma_counted(s.evidence, own, raw);
    lemma_selected(s.evidence, own);
    let rest = s.evidence.filter(own);
    let all = sorted_by(rest, earlier_evidence());
    lemma_ordered(rest, earlier_evidence());
    crate::table::lemma_sorted_ordered(rest, earlier_evidence());
    let rows = page(all, 0, page_limit(limit));
    lemma_paged(all, 0, page_limit(limit));
    lemma_read(rows, listed_evidence());
    if let Ok(list) = reports_listed(s, grant_id, after, limit) {
        assert(reports_behind(s, grant_id, after, rows, list)) by {
            assert forall|i: int| 0 <= i < rows.len() implies s.evidence.contains(
                #[trigger] rows[i],
            ) && rows[i].grant_id == grant_id && rows[i].rowid > after && listed_evidence()(rows[i])
                == Ok::<Seq<char>, Seq<char>>(list[i]) by {
                assert(rows[i] == all[0 + i]);
                assert(all.contains(all[i]));
                assert(rest.contains(all[i]));
                assert(listed_evidence()(rows[i]) == Ok::<Seq<char>, Seq<char>>(list[i]));
            }
            assert forall|i: int| 0 < i < rows.len() implies rows[i - 1].rowid <= (
            #[trigger] rows[i]).rowid by {
                assert(rows[i] == all[0 + i]);
                assert(rows[i - 1] == all[0 + (i - 1)]);
                assert(!earlier_evidence()(all[i], all[i - 1]));
            }
        }
        if all.len() <= page_limit(limit) {
            assert forall|x: EvidenceRowView| #[trigger]
                s.evidence.contains(x) && x.grant_id == grant_id && x.rowid > after implies listed_evidence()(
            x) is Ok && list.contains(listed_evidence()(x)->Ok_0) by {
                assert(rest.contains(x));
                assert(all.contains(x));
                let i = choose|i: int| 0 <= i < all.len() && all[i] == x;
                assert(rows[i] == x);
                assert(listed_evidence()(rows[i]) == Ok::<Seq<char>, Seq<char>>(list[i]));
            }
        }
    }
}

} // verus!
