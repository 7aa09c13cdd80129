//! The audit trail: what is written to it stays, is found by what was asked for, and in order.
use vstd::prelude::*;

use crate::audit::{
    audit_row_of, audited, audited_or_counted, export_limit, exportable, exported, held,
    hold_changed, later_row, not_older_than, older_row, older_than, pruned, recent, recently,
};
use crate::columns::column_or_zero;
use crate::json::parsed_json;
use crate::records::AuditRowView;
use crate::rows::{AuditLogRowView, LinkRowView};
use crate::selection::{
    lemma_changed, lemma_found, lemma_listed, lemma_paged, lemma_read, lemma_selected,
};
use crate::store::StoreView;
use crate::table::{count, greatest, page, sorted_by};
use crate::text::{ascii_fold, contains};
use crate::uploads::link_is;

verus! {

/// Whether a row is one that was asked for: of the tenant, of the event, and with the word in
/// the tenant's name, the actor, the event or the subject, ASCII letters in either case. What
/// is not asked for, or empty, does not matter.
pub open spec fn answers(
    a: AuditLogRowView,
    tenant: Option<Seq<char>>,
    event: Option<Seq<char>>,
    query: Option<Seq<char>>,
) -> bool {
    &&& tenant is Some ==> a.tenant == tenant->0
    &&& event is Some && (event->0).len() > 0 ==> a.event == event->0
    &&& query is Some && (query->0).len() > 0 ==> {
        let word = ascii_fold(query->0);
        let name = if a.tenant.len() == 0 {
            "default"@
        } else {
            a.tenant
        };
        contains(ascii_fold(a.actor), word) || contains(ascii_fold(a.event), word) || contains(
            ascii_fold(a.subject),
            word,
        ) || contains(ascii_fold(name), word)
    }
}

/// Whether a row is shown as it was written, its detail as it decodes.
pub open spec fn told_as(a: AuditLogRowView, r: AuditRowView) -> bool {
    &&& r.rowid == a.rowid && r.tenant == a.tenant && r.actor == a.actor
    &&& r.event == a.event && r.subject == a.subject
    &&& r.at == if a.at >= 0 {
        a.at as int
    } else {
        0
    }
    &&& parsed_json(a.detail) == Ok::<Seq<char>, Seq<char>>(r.detail)
}

/// An export shows rows that answer it and come after the cursor, oldest first, as they were
/// written; where fewer are shown than were asked for, all of them. It fails only where a
/// detail does not decode.
pub proof fn exports_show_the_rows_asked_for(
    log: Seq<AuditLogRowView>,
    tenant: Option<Seq<char>>,
    since: u64,
    after: u64,
    limit: u64,
    event: Option<Seq<char>>,
    query: Option<Seq<char>>,
)
    requires
        since <= i64::MAX,
        after <= i64::MAX,
    ensures
        exported(log, tenant, since, after, limit, event, query) matches Ok(list) ==> {
            let cap = if limit <= i64::MAX {
                limit as int
            } else {
                1000
            };
            &&& list.len() <= cap
            &&& forall|r: AuditRowView| #[trigger]
                list.contains(r) ==> exists|a: AuditLogRowView| #[trigger]
                    log.contains(a) && (a.at > since || (a.at == since && a.rowid > after))
                        && answers(a, tenant, event, query) && told_as(a, r)
            &&& forall|i: int|
                0 <= i < list.len() - 1 ==> (#[trigger] list[i]).at <= list[i + 1].at
            &&& list.len() < cap ==> forall|a: AuditLogRowView| #[trigger]
                log.contains(a) && (a.at > since || (a.at == since && a.rowid > after)) && answers(
                    a,
                    tenant,
                    event,
                    query,
                ) ==> exists|r: AuditRowView| #[trigger] list.contains(r) && told_as(a, r)
        },
        (forall|a: AuditLogRowView| #[trigger] log.contains(a) ==> parsed_json(a.detail) is Ok)
            ==> exported(log, tenant, since, after, limit, event, query) is Ok,
{
    let own = exportable(column_or_zero(since), column_or_zero(after), tenant, event, query);
    let cap = export_limit(limit) as int;
    let all = sorted_by(log.filter(own), older_row());
    lemma_listed(log, own, older_row(), 0, cap, audit_row_of());
    lemma_paged(all, 0, cap);
    lemma_selected(log, own);
    crate::selection::lemma_ordered(log.filter(own), older_row());
    crate::table::lemma_sorted_ordered(log.filter(own), older_row());
    assert forall|a: AuditLogRowView| #[trigger] own(a) <==> (a.at > since || (a.at == since
        && a.rowid > after)) && answers(a, tenant, event, query) by {}
    if let Ok(list) = exported(log, tenant, since, after, limit, event, query) {
        assert forall|r: AuditRowView| #[trigger] list.contains(r) implies exists|
            a: AuditLogRowView,
        | #[trigger]
            log.contains(a) && (a.at > since || (a.at == since && a.rowid > after)) && answers(
                a,
                tenant,
                event,
                query,
            ) && told_as(a, r) by {
            let a = choose|a: AuditLogRowView| #[trigger]
                log.contains(a) && own(a) && audit_row_of()(a) == Ok::<AuditRowView, Seq<char>>(r);
            assert(told_as(a, r));
        }
        assert forall|i: int| 0 <= i < list.len() - 1 implies (#[trigger] list[i]).at <= list[i
            + 1].at by {
            assert(audit_row_of()(all[0 + i]) == Ok::<AuditRowView, Seq<char>>(list[i]));
            assert(audit_row_of()(all[0 + (i + 1)]) == Ok::<AuditRowView, Seq<char>>(list[i + 1]));
            assert(!older_row()(all[i + 1], all[i]));
        }
        if list.len() < cap {
            assert(all.len() <= cap);
            assert forall|a: AuditLogRowView| #[trigger]
                log.contains(a) && (a.at > since || (a.at == since && a.rowid > after)) && answers(
                    a,
                    tenant,
                    event,
                    query,
                ) implies exists|r: AuditRowView| #[trigger] list.contains(r) && told_as(a, r) by {
                assert(own(a));
                assert(list.contains(audit_row_of()(a)->Ok_0));
            }
        }
    }
    if forall|a: AuditLogRowView| #[trigger] log.contains(a) ==> parsed_json(a.detail) is Ok {
        let rows = page(all, 0, cap);
        assert forall|i: int| 0 <= i < rows.len() implies audit_row_of()(#[trigger] rows[i]) is Ok by {
            assert(rows.contains(rows[i]));
            assert(all.contains(rows[i]));
            assert(log.filter(own).contains(rows[i]));
            assert(log.contains(rows[i]));
        }
        lemma_read(rows, audit_row_of());
    }
}

/// The latest rows are those that answer and come before the row asked about, if one was,
/// the latest first; where fewer are shown than were asked for, all of them.
pub proof fn recent_rows_are_the_latest(
    log: Seq<AuditLogRowView>,
    tenant: Option<Seq<char>>,
    before: u64,
    limit: u64,
    event: Option<Seq<char>>,
    query: Option<Seq<char>>,
)
    requires
        before <= i64::MAX,
        limit <= i64::MAX,
    ensures
        recent(log, tenant, before, limit, event, query) matches Ok(list) ==> {
            &&& list.len() <= limit
            &&& forall|r: AuditRowView| #[trigger]
                list.contains(r) ==> exists|a: AuditLogRowView| #[trigger]
                    log.contains(a) && (before > 0 ==> a.rowid < before) && answers(
                        a,
                        tenant,
                        event,
                        query,
                    ) && told_as(a, r)
            &&& forall|i: int|
                0 <= i < list.len() - 1 ==> (#[trigger] list[i]).rowid >= list[i + 1].rowid
            &&& list.len() < limit ==> forall|a: AuditLogRowView| #[trigger]
                log.contains(a) && (before > 0 ==> a.rowid < before) && answers(
                    a,
                    tenant,
                    event,
                    query,
                ) ==> exists|r: AuditRowView| #[trigger] list.contains(r) && told_as(a, r)
        },
{
    let own = recently(before, tenant, event, query);
    let cap = limit as int;
    let all = sorted_by(log.filter(own), later_row());
    lemma_listed(log, own, later_row(), 0, cap, audit_row_of());
    lemma_paged(all, 0, cap);
    crate::table::lemma_sorted_ordered(log.filter(own), later_row());
    assert forall|a: AuditLogRowView| #[trigger] own(a) <==> (before > 0 ==> a.rowid < before)
        && answers(a, tenant, event, query) by {}
    if let Ok(list) = recent(log, tenant, before, limit, event, query) {
        assert forall|r: AuditRowView| #[trigger] list.contains(r) implies exists|
            a: AuditLogRowView,
        | #[trigger]
            log.contains(a) && (before > 0 ==> a.rowid < before) && answers(a, tenant, event, query)
                && told_as(a, r) by {
            let a = choose|a: AuditLogRowView| #[trigger]
                log.contains(a) && own(a) && audit_row_of()(a) == Ok::<AuditRowView, Seq<char>>(r);
            assert(told_as(a, r));
        }
        assert forall|i: int| 0 <= i < list.len() - 1 implies (#[trigger] list[i]).rowid >= list[i
            + 1].rowid by {
            assert(audit_row_of()(all[0 + i]) == Ok::<AuditRowView, Seq<char>>(list[i]));
            assert(audit_row_of()(all[0 + (i + 1)]) == Ok::<AuditRowView, Seq<char>>(list[i + 1]));
            assert(!later_row()(all[i + 1], all[i]));
        }
        if list.len() < limit {
            assert(all.len() <= cap);
            assert forall|a: AuditLogRowView| #[trigger]
                log.contains(a) && (before > 0 ==> a.rowid < before) && answers(
                    a,
                    tenant,
                    event,
                    query,
                ) implies exists|r: AuditRowView| #[trigger] list.contains(r) && told_as(a, r) by {
                assert(own(a));
                assert(list.contains(audit_row_of()(a)->Ok_0));
            }
        }
    }
}

/// A row that is written is the last of the trail, numbered higher than any before it, and
/// says what it was given; the rows before it stay, and so does everything else. Only where
/// the numbers are used up is it not written, and then the failure is counted.
pub proof fn what_is_audited_stays(
    s: StoreView,
    at: u64,
    tenant: Seq<char>,
    actor: Seq<char>,
    event: Seq<char>,
    subject: Seq<char>,
    detail: Seq<char>,
)
    requires
        at <= i64::MAX,
    ensures
        ({
            let full = exists|a: AuditLogRowView| #[trigger]
                s.audit_log.contains(a) && a.rowid == i64::MAX;
            let after = audited_or_counted(s, at, tenant, actor, event, subject, detail);
            &&& full <==> audited(s, at, tenant, actor, event, subject, detail) is Err
            &&& !full ==> {
                &&& after.audit_log.len() == s.audit_log.len() + 1
                &&& after.audit_log.take(s.audit_log.len() as int) == s.audit_log
                &&& forall|a: AuditLogRowView| #[trigger]
                    s.audit_log.contains(a) ==> a.rowid < after.audit_log.last().rowid
                &&& after.audit_log.last() == AuditLogRowView {
                    rowid: after.audit_log.last().rowid,
                    at: at as i64,
                    tenant,
                    actor,
                    event,
                    subject,
                    detail,
                }
                &&& s.audit_rows < i64::MAX ==> after.audit_rows == s.audit_rows + 1
                &&& after == StoreView {
                    audit_log: after.audit_log,
                    audit_rows: after.audit_rows,
                    ..s
                }
                &&& audited(s, at, tenant, actor, event, subject, detail) matches Ok((same, n))
                    && same == after && n == 1
            }
            &&& full ==> after == StoreView {
                audit_insert_failures: after.audit_insert_failures,
                ..s
            } && (s.audit_insert_failures < u64::MAX ==> after.audit_insert_failures
                == s.audit_insert_failures + 1)
        }),
{
    let ids = crate::audit::audit_ids(s.audit_log);
    crate::table::lemma_greatest(ids);
    lemma_greatest_is_there(ids);
    assert forall|a: AuditLogRowView| #[trigger] s.audit_log.contains(a) implies a.rowid
        <= greatest(ids) by {
        let i = choose|i: int| 0 <= i < s.audit_log.len() && s.audit_log[i] == a;
        assert(ids[i] == a.rowid);
    }
    if greatest(ids) == i64::MAX {
        let i = choose|i: int| 0 <= i < ids.len() && ids[i] == greatest(ids);
        assert(s.audit_log.contains(s.audit_log[i]));
    } else {
        let after = audited_or_counted(s, at, tenant, actor, event, subject, detail);
        assert(after.audit_log.take(s.audit_log.len() as int) =~= s.audit_log);
    }
}

/// The greatest of some numbers is one of them, where it is above zero.
pub proof fn lemma_greatest_is_there(ids: Seq<i64>)
    ensures
        greatest(ids) > 0 ==> exists|i: int| 0 <= i < ids.len() && ids[i] == greatest(ids),
    decreases ids.len(),
{
    if ids.len() > 0 {
        let h = ids.drop_last();
        lemma_greatest_is_there(h);
        if greatest(ids) > 0 {
            if ids.last() > greatest(h) {
                assert(ids[ids.len() - 1] == greatest(ids));
            } else {
                let i = choose|i: int| 0 <= i < h.len() && h[i] == greatest(h);
                assert(ids[i] == greatest(ids));
            }
        }
    }
}

/// A legal hold is set on the tenant's link of that id alone, or taken off it, and the trail
/// says so, in the tenant's name, with the actor and the link; where there is no such link,
/// nothing happens.
pub proof fn holds_are_set_and_audited(
    s: StoreView,
    tenant: Seq<char>,
    id: Seq<char>,
    hold: bool,
    actor: Seq<char>,
    now: u64,
)
    requires
        now <= i64::MAX,
    ensures
        ({
            let there = exists|l: LinkRowView| #[trigger]
                s.links.contains(l) && l.tenant == tenant && l.id == id;
            match hold_changed(s, tenant, id, hold, actor, now) {
                Err(_) => there && exists|a: AuditLogRowView| #[trigger]
                    s.audit_log.contains(a) && a.rowid == i64::MAX,
                Ok((after, false)) => !there && after == s,
                Ok((after, true)) => {
                    &&& there
                    &&& after.links.len() == s.links.len()
                    &&& forall|i: int|
                        0 <= i < s.links.len() ==> #[trigger] after.links[i] == if s.links[i].tenant
                            == tenant && s.links[i].id == id {
                            LinkRowView { legal_hold: hold, ..s.links[i] }
                        } else {
                            s.links[i]
                        }
                    &&& after.audit_log.len() == s.audit_log.len() + 1
                    &&& after.audit_log.take(s.audit_log.len() as int) == s.audit_log
                    &&& after.audit_log.last().tenant == tenant && after.audit_log.last().actor
                        == actor && after.audit_log.last().subject == id
                        && after.audit_log.last().event == "link_legal_hold_changed"@
                        && after.audit_log.last().at == now
                    &&& after.audit_log.last().detail == (if hold {
                        "{\"legal_hold\":true}"@
                    } else {
                        "{\"legal_hold\":false}"@
                    })
                    &&& after == StoreView {
                        links: after.links,
                        audit_log: after.audit_log,
                        audit_rows: after.audit_rows,
                        ..s
                    }
                },
            }
        }),
{
    lemma_found(s.links, link_is(tenant, id));
    lemma_changed(s.links, link_is(tenant, id), held(hold));
    let marked = StoreView {
        links: crate::table::updated(s.links, link_is(tenant, id), held(hold)),
        ..s
    };
    what_is_audited_stays(
        marked,
        now,
        tenant,
        actor,
        "link_legal_hold_changed"@,
        id,
        crate::audit::hold_detail(hold),
    );
}

/// Pruning removes exactly the rows that are older than the time, and counts them.
pub proof fn pruning_takes_the_old_rows(s: StoreView, before: u64)
    requires
        before <= i64::MAX,
    ensures
        ({
            let after = pruned(s, before);
            &&& forall|a: AuditLogRowView| #[trigger]
                after.audit_log.contains(a) <==> s.audit_log.contains(a) && a.at >= before
            &&& count(s.audit_log, older_than(column_or_zero(before))) + after.audit_log.len()
                == s.audit_log.len()
            &&& s.audit_rows >= s.audit_log.len() ==> after.audit_rows == s.audit_rows - (
            s.audit_log.len() - after.audit_log.len())
            &&& after == StoreView {
                audit_log: after.audit_log,
                audit_rows: after.audit_rows,
                ..s
            }
        }),
{
    let q = not_older_than(column_or_zero(before));
    lemma_selected(s.audit_log, q);
    crate::standing::lemma_halves(s.audit_log, older_than(column_or_zero(before)), q);
}

} // verus!
