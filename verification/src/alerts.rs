//! Notifications: which policies are well formed, where they go, and what came of them.
use vstd::prelude::*;

use crate::columns::wrapped;
use crate::issue::override_of;
use crate::kinds::NotificationMode;
use crate::lifecycle::job_in;
use crate::notifications::{
    at_revision, default_policy, defaulting, defaults_of, destination_at, destination_before,
    destination_in, destination_is, destination_of, grant_at, job_for, job_notified, notifying,
    other_override, outcome_recorded, overriding, policy_checked, redefined, revised, rule_holds,
    rules_checked, save_checked, tried, unreadable_at, used_in, with_defaults, with_destination,
};
use crate::records::{NotificationDestinationView, NotificationPolicyView, NotificationRuleView};
use crate::rows::{DefaultsRowView, DestinationRowView, GrantRowView, JobRowView, OverrideRowView};
use crate::selection::{
    lemma_changed, lemma_counted, lemma_found, lemma_listed, lemma_paged, lemma_selected,
};
use crate::store::StoreView;
use crate::table::{any, first, page, sorted_by, try_map, updated};
use crate::text::text_lt;

verus! {

// ------------------------------------------------------------------ policies
/// Whether a rule names events, all supported and none twice.
pub open spec fn well_chosen(r: NotificationRuleView, events: Seq<Seq<char>>) -> bool {
    &&& r.events.len() > 0
    &&& forall|i: int| 0 <= i < r.events.len() ==> events.contains(#[trigger] r.events[i])
    &&& forall|i: int, j: int| 0 <= i < j < r.events.len() ==> r.events[i] != r.events[j]
}

proof fn lemma_well_chosen(r: NotificationRuleView, events: Seq<Seq<char>>)
    requires
        events.no_duplicates(),
    ensures
        rule_holds(r, events) == well_chosen(r, events),
{
    if well_chosen(r, events) {
        assert(r.events.no_duplicates());
        r.events.unique_seq_to_set();
        events.unique_seq_to_set();
        assert(r.events.to_set().subset_of(events.to_set())) by {
            assert forall|x: Seq<char>| #[trigger]
                r.events.to_set().contains(x) implies events.to_set().contains(x) by {
                let i = choose|i: int| 0 <= i < r.events.len() && r.events[i] == x;
                assert(events.contains(r.events[i]));
            }
        }
        vstd::set_lib::lemma_len_subset(r.events.to_set(), events.to_set());
    }
}

proof fn lemma_rules(rules: Seq<NotificationRuleView>, events: Seq<Seq<char>>)
    requires
        events.no_duplicates(),
    ensures
        rules_checked(rules, events) is Ok <==> {
            &&& forall|i: int| 0 <= i < rules.len() ==> well_chosen(#[trigger] rules[i], events)
            &&& forall|i: int, j: int|
                0 <= i < j < rules.len() ==> rules[i].destination_id != rules[j].destination_id
        },
    decreases rules.len(),
{
    if rules.len() > 0 {
        let head = rules.drop_last();
        let n = rules.len() - 1;
        lemma_rules(head, events);
        lemma_well_chosen(rules.last(), events);
        assert(rules[n] == rules.last());
        if rules_checked(rules, events) is Ok {
            assert forall|i: int| 0 <= i < rules.len() implies well_chosen(
                #[trigger] rules[i],
                events,
            ) by {
                if i < n {
                    assert(head[i] == rules[i]);
                }
            }
            assert forall|i: int, j: int| 0 <= i < j < rules.len() implies rules[i].destination_id
                != rules[j].destination_id by {
                if j < n {
                    assert(head[i].destination_id != head[j].destination_id);
                } else {
                    assert(rules[i].destination_id != rules.last().destination_id);
                }
            }
        } else if (forall|i: int| 0 <= i < rules.len() ==> well_chosen(#[trigger] rules[i], events))
            && (forall|i: int, j: int|
            0 <= i < j < rules.len() ==> rules[i].destination_id != rules[j].destination_id) {
            assert forall|i: int| 0 <= i < head.len() implies well_chosen(
                #[trigger] head[i],
                events,
            ) by {
                assert(head[i] == rules[i]);
            }
            assert forall|i: int, j: int| 0 <= i < j < head.len() implies head[i].destination_id
                != head[j].destination_id by {
                assert(rules[i].destination_id != rules[j].destination_id);
            }
            assert(well_chosen(rules[n], events));
            assert forall|i: int| 0 <= i < n implies (#[trigger] rules[i]).destination_id
                != rules.last().destination_id by {
                assert(rules[i].destination_id != rules[n].destination_id);
            }
            assert(false);
        }
    }
}

/// A policy is accepted exactly if it is custom with one to 32 rules, each for another
/// connection and with supported events, none twice; or not custom and without rules.
pub proof fn policies_are_well_formed(p: NotificationPolicyView, events: Seq<Seq<char>>)
    requires
        events.no_duplicates(),
    ensures
        policy_checked(p, events) is Ok <==> if p.mode == NotificationMode::Custom {
            &&& 1 <= p.rules.len() <= 32
            &&& forall|i: int| 0 <= i < p.rules.len() ==> well_chosen(#[trigger] p.rules[i], events)
            &&& forall|i: int, j: int|
                0 <= i < j < p.rules.len() ==> p.rules[i].destination_id
                    != p.rules[j].destination_id
        } else {
            p.rules.len() == 0
        },
{
    lemma_rules(p.rules, events);
}

// --------------------------------------------------------------- connections
/// A connection may be saved exactly if the tenant is there and it is the revision that is
/// recorded, or a new one of a tenant with fewer than a hundred. Saving touches that
/// connection of that tenant alone, and forgets what came of the one before.
pub proof fn connections_are_saved_over_their_revision(
    s: StoreView,
    tenant: Seq<char>,
    d: NotificationDestinationView,
    there: Result<(), Seq<char>>,
)
    requires
        forall|i: int, j: int|
            0 <= i < j < s.destinations.len() ==> s.destinations[i].id != s.destinations[j].id,
        forall|x: DestinationRowView| #[trigger]
            s.destinations.contains(x) ==> x.document_error is None,
    ensures
        save_checked(s, tenant, d, there) is Ok <==> there is Ok && ((exists|x: DestinationRowView|
         #[trigger]
            s.destinations.contains(x) && x.tenant == tenant && x.id == d.id && x.document.revision
                == d.revision) || (d.revision == 0 && (forall|x: DestinationRowView| #[trigger]
            s.destinations.contains(x) ==> !(x.tenant == tenant && x.id == d.id))
            && s.destinations.filter(|x: DestinationRowView| x.tenant == tenant).len() < 100)),
        ({
            let after = with_destination(s, tenant, d);
            &&& after == StoreView { destinations: after.destinations, ..s }
            &&& forall|i: int|
                0 <= i < s.destinations.len() ==> #[trigger] after.destinations[i]
                    == if s.destinations[i].tenant == tenant && s.destinations[i].id == d.id {
                    DestinationRowView {
                        document: d,
                        document_error: None,
                        readable: false,
                        revision: None,
                        last_at: None,
                        last_delivered: None,
                        ..s.destinations[i]
                    }
                } else {
                    s.destinations[i]
                }
            &&& if exists|x: DestinationRowView| #[trigger]
                s.destinations.contains(x) && x.id == d.id {
                after.destinations.len() == s.destinations.len()
            } else {
                &&& after.destinations.len() == s.destinations.len() + 1
                &&& after.destinations.last().tenant == tenant && after.destinations.last().id
                    == d.id && after.destinations.last().document == d
                    && after.destinations.last().last_at is None
            }
        }),
{
    let p = destination_at(tenant, d.id);
    lemma_found(s.destinations, p);
    lemma_found(s.destinations, destination_is(d.id));
    lemma_counted(
        s.destinations,
        destination_in(tenant),
        |x: DestinationRowView| x.tenant == tenant,
    );
    lemma_changed(s.destinations, p, redefined(d));
    if let Some(c) = first(s.destinations, p) {
        assert forall|x: DestinationRowView| #[trigger] s.destinations.contains(x) && x.tenant
            == tenant && x.id == d.id implies x == c by {
            let i = choose|i: int| 0 <= i < s.destinations.len() && s.destinations[i] == x;
            let k = choose|k: int| 0 <= k < s.destinations.len() && s.destinations[k] == c;
            if i < k {
                assert(s.destinations[i].id != s.destinations[k].id);
            } else if k < i {
                assert(s.destinations[k].id != s.destinations[i].id);
            }
        }
    }
    if !any(s.destinations, destination_is(d.id)) {
        assert forall|i: int| 0 <= i < s.destinations.len() implies !(s.destinations[i].tenant
            == tenant && (#[trigger] s.destinations[i]).id == d.id) by {
            assert(!destination_is(d.id)(s.destinations[i]));
        }
    }
}

/// Saving a connection raises its revision by one and changes nothing else of it, so that what
/// was read before the save cannot be saved over it.
pub proof fn saves_raise_the_revision(
    s: StoreView,
    tenant: Seq<char>,
    d: NotificationDestinationView,
)
    requires
        d.revision < u64::MAX,
        forall|x: DestinationRowView| #[trigger]
            s.destinations.contains(x) && x.id == d.id ==> x.tenant == tenant,
    ensures
        revised(d).revision == d.revision + 1,
        revised(d) == (NotificationDestinationView { revision: revised(d).revision, ..d }),
        save_checked(
            with_destination(s, tenant, revised(d)),
            tenant,
            d,
            Ok::<(), Seq<char>>(()),
        ) is Err,
        save_checked(
            with_destination(s, tenant, revised(d)),
            tenant,
            revised(d),
            Ok::<(), Seq<char>>(()),
        ) is Ok,
{
    let next = revised(d);
    let after = with_destination(s, tenant, next).destinations;
    let own = destination_at(tenant, d.id);
    lemma_found(s.destinations, destination_is(d.id));
    lemma_found(s.destinations, own);
    if any(s.destinations, destination_is(d.id)) {
        let x = choose|x: DestinationRowView| #[trigger]
            s.destinations.contains(x) && destination_is(d.id)(x);
        assert(own(x));
        crate::table::lemma_first_updated(s.destinations, own, redefined(next));
    } else {
        crate::readback::lemma_first_pushed(s.destinations, after.last(), own);
    }
}

/// The connections that are listed of a tenant are its own, by id and at most a hundred; where
/// it has no more, all of them.
pub proof fn tenants_see_their_connections(s: StoreView, tenant: Seq<char>)
    ensures
        try_map(
            page(
                sorted_by(s.destinations.filter(destination_in(tenant)), destination_before()),
                0,
                100,
            ),
            destination_of(),
        ) matches Ok(list) ==> {
            &&& list.len() <= 100
            &&& forall|d: NotificationDestinationView| #[trigger]
                list.contains(d) ==> exists|x: DestinationRowView| #[trigger]
                    s.destinations.contains(x) && x.tenant == tenant && x.document == d
                        && x.document_error is None
            &&& list.len() < 100 ==> forall|x: DestinationRowView| #[trigger]
                s.destinations.contains(x) && x.tenant == tenant ==> list.contains(x.document)
        },
        forall|id: Seq<char>|
            (#[trigger] first(s.destinations, destination_at(tenant, id))) matches Some(x)
                ==> s.destinations.contains(x) && x.tenant == tenant && x.id == id,
        forall|a: DestinationRowView, b: DestinationRowView| #[trigger]
            destination_before()(a, b) <==> text_lt(a.id, b.id),
{
    let own = destination_in(tenant);
    let all = sorted_by(s.destinations.filter(own), destination_before());
    lemma_paged(all, 0, 100);
    lemma_listed(s.destinations, own, destination_before(), 0, 100, destination_of());
    if let Ok(list) = try_map(page(all, 0, 100), destination_of()) {
        assert forall|d: NotificationDestinationView| #[trigger] list.contains(d) implies exists|
            x: DestinationRowView,
        | #[trigger]
            s.destinations.contains(x) && x.tenant == tenant && x.document == d && x.document_error
                is None by {
            let x = choose|x: DestinationRowView| #[trigger]
                s.destinations.contains(x) && own(x) && destination_of()(x) == Ok::<
                    NotificationDestinationView,
                    Seq<char>,
                >(d);
        }
        if list.len() < 100 {
            assert forall|x: DestinationRowView| #[trigger]
                s.destinations.contains(x) && x.tenant == tenant implies list.contains(
                x.document,
            ) by {
                assert(own(x));
                assert(list.contains(destination_of()(x)->Ok_0));
            }
        }
    }
    assert forall|id: Seq<char>|
        #![trigger first(s.destinations, destination_at(tenant, id))]
        first(s.destinations, destination_at(tenant, id)) is Some implies {
        let x = first(s.destinations, destination_at(tenant, id))->0;
        s.destinations.contains(x) && x.tenant == tenant && x.id == id
    } by {
        lemma_found(s.destinations, destination_at(tenant, id));
    }
}

/// What came of a notification is noted, with its time, on the connection that was used, if
/// it still is in the revision that was used; nothing else changes.
pub proof fn outcomes_are_noted_on_their_revision(
    s: StoreView,
    tenant: Seq<char>,
    d: NotificationDestinationView,
    delivered: bool,
    now: u64,
)
    requires
        forall|x: DestinationRowView| #[trigger]
            s.destinations.contains(x) ==> x.document_error is None && x.document.revision
                <= i64::MAX,
        d.revision <= i64::MAX,
        now <= i64::MAX,
    ensures
        outcome_recorded(s, tenant, d, delivered, now) matches Ok((after, _)) && {
            &&& after == StoreView { destinations: after.destinations, ..s }
            &&& after.destinations.len() == s.destinations.len()
            &&& forall|i: int|
                0 <= i < s.destinations.len() ==> #[trigger] after.destinations[i]
                    == if s.destinations[i].tenant == tenant && s.destinations[i].id == d.id
                    && s.destinations[i].document.revision == d.revision {
                    DestinationRowView {
                        last_at: Some(now as i64),
                        last_delivered: Some(delivered),
                        ..s.destinations[i]
                    }
                } else {
                    s.destinations[i]
                }
        },
{
    lemma_found(s.destinations, unreadable_at(tenant, d.id));
    let p = at_revision(tenant, d.id, d.revision);
    lemma_changed(s.destinations, p, tried(wrapped(now), delivered));
    if let Ok((after, _)) = outcome_recorded(s, tenant, d, delivered, now) {
        assert forall|i: int| 0 <= i < s.destinations.len() implies #[trigger] after.destinations[i]
            == if s.destinations[i].tenant == tenant && s.destinations[i].id == d.id
            && s.destinations[i].document.revision == d.revision {
            DestinationRowView {
                last_at: Some(now as i64),
                last_delivered: Some(delivered),
                ..s.destinations[i]
            }
        } else {
            s.destinations[i]
        } by {
            assert(s.destinations.contains(s.destinations[i]));
        }
    }
}

/// The connections whose use is told are the tenant's that were used.
pub proof fn used_connections_are_told(s: StoreView, tenant: Seq<char>)
    ensures
        forall|x: DestinationRowView| #[trigger]
            s.destinations.filter(used_in(tenant)).contains(x) <==> s.destinations.contains(x)
                && x.tenant == tenant && x.last_at is Some,
{
    lemma_selected(s.destinations, used_in(tenant));
}

// ------------------------------------------------------------------ defaults
/// A tenant's defaults are those that were set last, and silence where none were; setting them
/// touches no other tenant's.
pub proof fn defaults_are_the_tenants_own(
    s: StoreView,
    tenant: Seq<char>,
    p: NotificationPolicyView,
    other: Seq<char>,
)
    ensures
        default_policy(with_defaults(s, tenant, p), tenant) == Ok::<
            NotificationPolicyView,
            Seq<char>,
        >(p),
        other != tenant ==> default_policy(with_defaults(s, tenant, p), other) == default_policy(
            s,
            other,
        ),
        (forall|d: DefaultsRowView| #[trigger]
            s.notification_defaults.contains(d) ==> d.tenant != other) ==> default_policy(s, other)
            == Ok::<NotificationPolicyView, Seq<char>>(
            NotificationPolicyView { mode: NotificationMode::Off, rules: Seq::empty() },
        ),
        with_defaults(s, tenant, p) == (StoreView {
            notification_defaults: with_defaults(s, tenant, p).notification_defaults,
            ..s
        }),
{
    crate::notifications::saved_defaults_read_back(s, tenant, p);
    lemma_found(s.notification_defaults, defaults_of(other));
    if other != tenant {
        let after = with_defaults(s, tenant, p).notification_defaults;
        if any(s.notification_defaults, defaults_of(tenant)) {
            lemma_other_first(
                s.notification_defaults,
                defaults_of(tenant),
                defaulting(p),
                defaults_of(other),
            );
        } else {
            lemma_push_first(s.notification_defaults, after.last(), defaults_of(other));
        }
    }
}

/// Changing rows that a condition does not select leaves the first that it does.
pub proof fn lemma_other_first<V>(
    s: Seq<V>,
    p: spec_fn(V) -> bool,
    u: spec_fn(V) -> V,
    q: spec_fn(V) -> bool,
)
    requires
        forall|x: V| #[trigger] p(x) ==> !q(x) && !q(u(x)),
    ensures
        first(updated(s, p, u), q) == first(s, q),
    decreases s.len(),
{
    if s.len() > 0 {
        assert(updated(s, p, u).skip(1) =~= updated(s.skip(1), p, u));
        assert(updated(s, p, u)[0] == if p(s[0]) {
            u(s[0])
        } else {
            s[0]
        });
        lemma_other_first(s.skip(1), p, u, q);
    }
}

/// One more row that a condition does not select leaves the first that it does.
pub proof fn lemma_push_first<V>(s: Seq<V>, x: V, q: spec_fn(V) -> bool)
    requires
        !q(x),
    ensures
        first(s.push(x), q) == first(s, q),
    decreases s.len(),
{
    if s.len() > 0 {
        assert(s.push(x).skip(1) =~= s.skip(1).push(x));
        lemma_push_first(s.skip(1), x, q);
    } else {
        let rest = s.push(x).skip(1);
        assert(rest.len() == 0);
        assert(s.push(x)[0] == x);
        assert(first(rest, q) is None);
    }
}

// ---------------------------------------------------------------- deliveries
/// The store after a tenant's grant was given notifications.
pub open spec fn with_notifications(
    s: StoreView,
    tenant: Seq<char>,
    id: Seq<char>,
    p: NotificationPolicyView,
) -> StoreView {
    StoreView { grants: updated(s.grants, grant_at(tenant, id), notifying(Some(p))), ..s }
}

/// Notifications of a delivery are set on the tenant's grant of that id alone.
pub proof fn notifications_are_set_on_one_grant(
    s: StoreView,
    tenant: Seq<char>,
    id: Seq<char>,
    p: NotificationPolicyView,
)
    ensures
        ({
            let after = with_notifications(s, tenant, id, p);
            &&& after.grants.len() == s.grants.len()
            &&& forall|i: int|
                0 <= i < s.grants.len() ==> #[trigger] after.grants[i] == if s.grants[i].tenant
                    == tenant && s.grants[i].id == id {
                    GrantRowView {
                        notifications: Some(p),
                        notifications_error: None,
                        ..s.grants[i]
                    }
                } else {
                    s.grants[i]
                }
        }),
        any(s.grants, grant_at(tenant, id)) <==> exists|g: GrantRowView| #[trigger]
            s.grants.contains(g) && g.tenant == tenant && g.id == id,
{
    lemma_changed(s.grants, grant_at(tenant, id), notifying(Some(p)));
    lemma_found(s.grants, grant_at(tenant, id));
}

/// A job's notifications are overridden by the policy that is set, on the job's grant too;
/// where it is reset, the override is gone and the grant has those of the job's request, or
/// else of its project. It is done exactly where the tenant has the job.
pub proof fn jobs_are_overridden(
    s: StoreView,
    tenant: Seq<char>,
    id: Seq<char>,
    policy: Option<NotificationPolicyView>,
    j: JobRowView,
)
    requires
        s.jobs.contains(j) && j.id == id && j.document_error is None,
        forall|a: int, b: int| 0 <= a < b < s.jobs.len() ==> s.jobs[a].id != s.jobs[b].id,
    ensures
        job_notified(s, tenant, id, policy) matches Ok((after, done)) && {
            &&& done <==> j.tenant == tenant
            &&& !done ==> after == s
            &&& done ==> {
                let wanted = if policy is Some {
                    policy
                } else if j.request_notifications is Some {
                    j.request_notifications
                } else {
                    j.project_notifications
                };
                &&& after == StoreView {
                    grants: after.grants,
                    notification_overrides: after.notification_overrides,
                    ..s
                }
                &&& after.grants.len() == s.grants.len()
                &&& forall|i: int|
                    0 <= i < s.grants.len() ==> #[trigger] after.grants[i] == if s.grants[i].tenant
                        == tenant && s.grants[i].id == id {
                        GrantRowView {
                            notifications: wanted,
                            notifications_error: None,
                            ..s.grants[i]
                        }
                    } else {
                        s.grants[i]
                    }
                &&& policy is None ==> forall|o: OverrideRowView| #[trigger]
                    after.notification_overrides.contains(o)
                        <==> s.notification_overrides.contains(o) && o.job_id != id
                &&& policy is Some ==> {
                    &&& first(after.notification_overrides, override_of(id)) matches Some(o)
                        && o.document == policy->0 && o.document_error is None
                    &&& forall|o: OverrideRowView| #[trigger]
                        s.notification_overrides.contains(o) && o.job_id != id
                            ==> after.notification_overrides.contains(o)
                }
            }
        },
{
    let own = job_in(tenant, id);
    lemma_found(s.jobs, own);
    let k = choose|k: int| 0 <= k < s.jobs.len() && s.jobs[k] == j;
    if let Some(f) = first(s.jobs, own) {
        let m = choose|m: int| 0 <= m < s.jobs.len() && s.jobs[m] == f;
        if m < k {
            assert(s.jobs[m].id != s.jobs[k].id);
        } else if k < m {
            assert(s.jobs[k].id != s.jobs[m].id);
        }
        assert(f == j);
    }
    if let Ok((after, true)) = job_notified(s, tenant, id, policy) {
        lemma_changed(
            s.grants,
            grant_at(tenant, id),
            notifying(crate::notifications::in_force(j, policy)),
        );
        lemma_selected(s.notification_overrides, other_override(id));
        if let Some(p) = policy {
            let q = override_of(id);
            let row = OverrideRowView { job_id: id, document: p, document_error: None };
            crate::readback::lemma_first_put(s.notification_overrides, q, overriding(p), row);
            lemma_changed(s.notification_overrides, q, overriding(p));
            assert forall|o: OverrideRowView| #[trigger]
                s.notification_overrides.contains(o) && o.job_id
                    != id implies after.notification_overrides.contains(o) by {
                let i = choose|i: int|
                    0 <= i < s.notification_overrides.len() && s.notification_overrides[i] == o;
                assert(after.notification_overrides[i] == o);
            }
        }
    }
}

/// Whether a tenant has a job for an actor's operation is told as it is recorded.
pub proof fn operations_are_known(
    s: StoreView,
    tenant: Seq<char>,
    actor: Seq<char>,
    operation_id: Seq<char>,
)
    ensures
        any(s.jobs, job_for(tenant, actor, operation_id)) <==> exists|j: JobRowView| #[trigger]
            s.jobs.contains(j) && j.tenant == tenant && j.actor == actor && j.operation_id
                == operation_id,
{
    lemma_found(s.jobs, job_for(tenant, actor, operation_id));
}

} // verus!
