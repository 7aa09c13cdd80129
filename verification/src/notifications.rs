//! Who is notified of what, and over which connections.
use vstd::prelude::*;

use crate::clock::{clock_gave, now_unix, time_of};
use crate::columns::{decode_error, to_wrapped, undecoded, wrapped};
use crate::decimal::{decimal, i64_text, signed_decimal, u64_text};
use crate::issue::override_of;
use crate::json::{
    array, boolean, json_array, json_bool, json_object, json_string, member, object, quoted,
};
use crate::kinds::NotificationMode;
use crate::lifecycle::job_in;
use crate::records::{
    NotificationDestination, NotificationDestinationView, NotificationPolicy,
    NotificationPolicyView, NotificationRule, NotificationRuleView,
};
use crate::rows::{
    DefaultsRow, DefaultsRowView, DestinationRow, DestinationRowView, GrantRow, GrantRowView,
    JobRow, JobRowView, OverrideRow, OverrideRowView,
};
use crate::store::{Store, StoreView, follows};
use crate::table::{
    Row, any, append_row, count, count_where, delete_where, dup_option, exists_where, find, first,
    limit_rows, outcome, select, sort_rows, try_map, try_project, update_where, updated,
};
use crate::text::{lt, same, text_lt};

verus! {

/// What can be notified of.
pub const NOTIFICATION_EVENTS: [&'static str; 12] = [
    "route_approval_requested",
    "route_approved",
    "route_identity_changed",
    "route_failed",
    "route_recovered",
    "route_received",
    "upload_complete",
    "upload_failed",
    "outbound_download_started",
    "outbound_delivery_complete",
    "workflow_retry_scheduled",
    "workflow_failed",
];

// ------------------------------------------------------------ specifications
/// The contents of a list of texts.
pub open spec fn names(events: Seq<&str>) -> Seq<Seq<char>> {
    events.map_values(|e: &str| e@)
}

/// Whether a rule names supported events, each once.
pub open spec fn rule_holds(rule: NotificationRuleView, events: Seq<Seq<char>>) -> bool {
    &&& 0 < rule.events.len() <= events.len()
    &&& forall|i: int| 0 <= i < rule.events.len() ==> events.contains(#[trigger] rule.events[i])
    &&& rule.events.no_duplicates()
}

/// Whether rules hold, or what is wrong with the first that does not.
pub open spec fn rules_checked(rules: Seq<NotificationRuleView>, events: Seq<Seq<char>>) -> Result<
    (),
    Seq<char>,
>
    decreases rules.len(),
{
    if rules.len() == 0 {
        Ok(())
    } else {
        match rules_checked(rules.drop_last(), events) {
            Err(e) => Err(e),
            Ok(_) => if exists|i: int|
                0 <= i < rules.len() - 1 && (#[trigger] rules[i]).destination_id
                    == rules.last().destination_id {
                Err("Choose each destination once"@)
            } else if !rule_holds(rules.last(), events) {
                Err("Choose supported events for each destination"@)
            } else {
                Ok(())
            },
        }
    }
}

/// Whether a policy is well formed, or what is wrong with it.
pub open spec fn policy_checked(p: NotificationPolicyView, events: Seq<Seq<char>>) -> Result<
    (),
    Seq<char>,
> {
    if p.mode != NotificationMode::Custom {
        if p.rules.len() == 0 {
            Ok(())
        } else {
            Err("Only custom notifications accept rules"@)
        }
    } else if p.rules.len() == 0 || p.rules.len() > 32 {
        Err("Choose 1 to 32 notification destinations"@)
    } else {
        rules_checked(p.rules, events)
    }
}

/// What may be told of a connection: its secrets only by whether they are set.
pub open spec fn public_text(d: NotificationDestinationView) -> Seq<char> {
    json_object(
        seq![
            ("channel"@, json_string(d.channel)),
            ("enabled"@, json_bool(d.enabled)),
            ("id"@, json_string(d.id)),
            ("label"@, json_string(d.label)),
            ("recipients"@, json_array(d.recipients)),
            ("revision"@, decimal(d.revision as nat)),
            ("target"@, json_string(d.target)),
            ("thread_id"@, json_string(d.thread_id)),
            ("token_set"@, json_bool(d.token.len() > 0)),
            ("url_set"@, json_bool(d.url.len() > 0)),
            ("user_set"@, json_bool(d.user.len() > 0)),
        ],
    )
}

/// The connections of a tenant.
pub open spec fn destination_in(tenant: Seq<char>) -> spec_fn(DestinationRowView) -> bool {
    |d: DestinationRowView| d.tenant == tenant
}

/// A connection of a tenant.
pub open spec fn destination_at(tenant: Seq<char>, id: Seq<char>) -> spec_fn(
    DestinationRowView,
) -> bool {
    |d: DestinationRowView| d.tenant == tenant && d.id == id
}

/// The connection under an id.
pub open spec fn destination_is(id: Seq<char>) -> spec_fn(DestinationRowView) -> bool {
    |d: DestinationRowView| d.id == id
}

/// By id.
pub open spec fn destination_before() -> spec_fn(DestinationRowView, DestinationRowView) -> bool {
    |a: DestinationRowView, b: DestinationRowView| text_lt(a.id, b.id)
}

/// What a row says of its connection.
pub open spec fn destination_of() -> spec_fn(DestinationRowView) -> Result<
    NotificationDestinationView,
    Seq<char>,
> {
    |d: DestinationRowView|
        match d.document_error {
            Some(e) => Err(undecoded("0"@, e)),
            None => Ok(d.document),
        }
}

/// A connection with another document, and no outcome yet.
pub open spec fn redefined(document: NotificationDestinationView) -> spec_fn(
    DestinationRowView,
) -> DestinationRowView {
    |d: DestinationRowView|
        DestinationRowView {
            document,
            document_error: None,
            readable: false,
            revision: None,
            last_at: None,
            last_delivered: None,
            ..d
        }
}

/// Whether a connection may be saved over what is there.
pub open spec fn save_checked(
    s: StoreView,
    tenant: Seq<char>,
    d: NotificationDestinationView,
    tenant_there: Result<(), Seq<char>>,
) -> Result<(), Seq<char>> {
    match tenant_there {
        Err(e) => Err(e),
        Ok(_) => match first(s.destinations, destination_at(tenant, d.id)) {
            Some(current) => match current.document_error {
                Some(e) => Err(e),
                None => if current.document.revision != d.revision {
                    Err("Connection changed; reload before saving"@)
                } else {
                    Ok(())
                },
            },
            None => if d.revision != 0 {
                Err("Connection changed; reload before saving"@)
            } else if count(s.destinations, destination_in(tenant)) >= 100 {
                Err("A tenant can have at most 100 notification destinations"@)
            } else {
                Ok(())
            },
        },
    }
}

/// The store with a connection saved; one of another tenant is left alone.
pub open spec fn with_destination(
    s: StoreView,
    tenant: Seq<char>,
    d: NotificationDestinationView,
) -> StoreView {
    StoreView {
        destinations: if any(s.destinations, destination_is(d.id)) {
            updated(s.destinations, destination_at(tenant, d.id), redefined(d))
        } else {
            s.destinations.push(
                DestinationRowView {
                    id: d.id,
                    tenant,
                    document: d,
                    document_error: None,
                    readable: false,
                    revision: None,
                    last_at: None,
                    last_delivered: None,
                },
            )
        },
        ..s
    }
}

/// The next revision of a connection.
pub open spec fn revised(d: NotificationDestinationView) -> NotificationDestinationView {
    NotificationDestinationView { revision: (d.revision + 1) as u64, ..d }
}

/// The defaults of a tenant.
pub open spec fn defaults_of(tenant: Seq<char>) -> spec_fn(DefaultsRowView) -> bool {
    |d: DefaultsRowView| d.tenant == tenant
}

/// No notifications.
pub open spec fn silence() -> NotificationPolicyView {
    NotificationPolicyView { mode: NotificationMode::Off, rules: Seq::empty() }
}

/// The notifications that a tenant's links and deliveries default to.
pub open spec fn default_policy(s: StoreView, tenant: Seq<char>) -> Result<
    NotificationPolicyView,
    Seq<char>,
> {
    match first(s.notification_defaults, defaults_of(tenant)) {
        None => Ok(silence()),
        Some(d) => match d.document_error {
            Some(e) => Err(undecoded("0"@, e)),
            None => Ok(d.document),
        },
    }
}

/// Defaults with another policy.
pub open spec fn defaulting(document: NotificationPolicyView) -> spec_fn(
    DefaultsRowView,
) -> DefaultsRowView {
    |d: DefaultsRowView| DefaultsRowView { document, document_error: None, ..d }
}

/// The store with a tenant's defaults.
pub open spec fn with_defaults(s: StoreView, tenant: Seq<char>, p: NotificationPolicyView) -> StoreView {
    StoreView {
        notification_defaults: if any(s.notification_defaults, defaults_of(tenant)) {
            updated(s.notification_defaults, defaults_of(tenant), defaulting(p))
        } else {
            s.notification_defaults.push(
                DefaultsRowView { tenant, document: p, document_error: None },
            )
        },
        ..s
    }
}

/// The connections of a tenant that were used.
pub open spec fn used_in(tenant: Seq<char>) -> spec_fn(DestinationRowView) -> bool {
    |d: DestinationRowView| d.tenant == tenant && d.last_at is Some
}

/// When a connection was used, and whether that succeeded.
pub open spec fn last_use() -> spec_fn(DestinationRowView) -> Result<
    (Seq<char>, Seq<char>),
    Seq<char>,
> {
    |d: DestinationRowView|
        match d.last_delivered {
            None => Err("Invalid column type Null at index: 2, name: last_delivered"@),
            Some(delivered) => Ok(
                (
                    d.id,
                    json_object(
                        seq![
                            ("at"@, signed_decimal(d.last_at->0 as int)),
                            ("delivered"@, json_bool(delivered)),
                        ],
                    ),
                ),
            ),
        }
}

/// By key.
pub open spec fn by_key() -> spec_fn((Seq<char>, Seq<char>), (Seq<char>, Seq<char>)) -> bool {
    |a: (Seq<char>, Seq<char>), b: (Seq<char>, Seq<char>)| text_lt(a.0, b.0)
}

/// The revision that a row's document holds, where it is an integer of a column.
pub open spec fn revision_in(d: DestinationRowView) -> Option<i64> {
    if d.document_error is Some {
        d.revision
    } else if d.document.revision <= i64::MAX {
        Some(d.document.revision as i64)
    } else {
        None
    }
}

/// A connection of a tenant in a revision.
pub open spec fn at_revision(tenant: Seq<char>, id: Seq<char>, revision: u64) -> spec_fn(
    DestinationRowView,
) -> bool {
    |d: DestinationRowView|
        d.tenant == tenant && d.id == id && revision_in(d) == Some(wrapped(revision))
}

/// A connection of a tenant whose document is no JSON.
pub open spec fn unreadable_at(tenant: Seq<char>, id: Seq<char>) -> spec_fn(
    DestinationRowView,
) -> bool {
    |d: DestinationRowView|
        d.tenant == tenant && d.id == id && d.document_error is Some && !d.readable
}

/// A connection with an outcome.
pub open spec fn tried(at: i64, delivered: bool) -> spec_fn(
    DestinationRowView,
) -> DestinationRowView {
    |d: DestinationRowView|
        DestinationRowView { last_at: Some(at), last_delivered: Some(delivered), ..d }
}

/// The store after a connection was used at time `now`, unless its document is no
/// JSON.
pub open spec fn outcome_recorded(
    s: StoreView,
    tenant: Seq<char>,
    d: NotificationDestinationView,
    delivered: bool,
    now: u64,
) -> Result<(StoreView, ()), Seq<char>> {
    if any(s.destinations, unreadable_at(tenant, d.id)) {
        Err("malformed JSON"@)
    } else {
        Ok(
            (
                StoreView {
                    destinations: updated(
                        s.destinations,
                        at_revision(tenant, d.id, d.revision),
                        tried(wrapped(now), delivered),
                    ),
                    ..s
                },
                (),
            ),
        )
    }
}

/// A grant of a tenant.
pub open spec fn grant_at(tenant: Seq<char>, id: Seq<char>) -> spec_fn(GrantRowView) -> bool {
    |g: GrantRowView| g.tenant == tenant && g.id == id
}

/// A grant with other notifications.
pub open spec fn notifying(policy: Option<NotificationPolicyView>) -> spec_fn(
    GrantRowView,
) -> GrantRowView {
    |g: GrantRowView| GrantRowView { notifications: policy, notifications_error: None, ..g }
}

/// An override with another policy.
pub open spec fn overriding(document: NotificationPolicyView) -> spec_fn(
    OverrideRowView,
) -> OverrideRowView {
    |o: OverrideRowView| OverrideRowView { document, document_error: None, ..o }
}

/// Every other override.
pub open spec fn other_override(id: Seq<char>) -> spec_fn(OverrideRowView) -> bool {
    |o: OverrideRowView| o.job_id != id
}

/// The notifications in force for a job: its override, else its request's, else
/// its project's.
pub open spec fn in_force(j: JobRowView, policy: Option<NotificationPolicyView>) -> Option<
    NotificationPolicyView,
> {
    match policy {
        Some(p) => Some(p),
        None => match j.request_notifications {
            Some(p) => Some(p),
            None => j.project_notifications,
        },
    }
}

/// The store after a job's notifications were set, or reset.
pub open spec fn job_notified(
    s: StoreView,
    tenant: Seq<char>,
    id: Seq<char>,
    policy: Option<NotificationPolicyView>,
) -> Result<(StoreView, bool), Seq<char>> {
    match first(s.jobs, job_in(tenant, id)) {
        None => Ok((s, false)),
        Some(j) => match j.document_error {
            Some(e) => Err(undecoded("0"@, e)),
            None => Ok(
                (
                    StoreView {
                        notification_overrides: match policy {
                            None => s.notification_overrides.filter(other_override(id)),
                            Some(p) => if any(s.notification_overrides, override_of(id)) {
                                updated(s.notification_overrides, override_of(id), overriding(p))
                            } else {
                                s.notification_overrides.push(
                                    OverrideRowView {
                                        job_id: id,
                                        document: p,
                                        document_error: None,
                                    },
                                )
                            },
                        },
                        grants: updated(
                            s.grants,
                            grant_at(tenant, id),
                            notifying(in_force(j, policy)),
                        ),
                        ..s
                    },
                    true,
                ),
            ),
        },
    }
}

/// A tenant's job for an operation of an actor.
pub open spec fn job_for(tenant: Seq<char>, actor: Seq<char>, operation_id: Seq<char>) -> spec_fn(
    JobRowView,
) -> bool {
    |j: JobRowView| j.tenant == tenant && j.actor == actor && j.operation_id == operation_id
}

// ---------------------------------------------------------------------- laws
/// A saved connection is read back in its next revision, and only that revision
/// can be saved over it.
pub proof fn saved_destinations_read_back(
    s: StoreView,
    tenant: Seq<char>,
    d: NotificationDestinationView,
)
    requires
        save_checked(s, tenant, d, Ok(())) is Ok,
        any(s.destinations, destination_is(d.id)) ==> any(
            s.destinations,
            destination_at(tenant, d.id),
        ),
        d.revision < u64::MAX,
    ensures
        ({
            let after = with_destination(s, tenant, revised(d));
            &&& first(after.destinations, destination_at(tenant, d.id)) matches Some(row)
                && destination_of()(row) == Ok::<NotificationDestinationView, Seq<char>>(
                revised(d),
            )
            &&& save_checked(after, tenant, d, Ok(())) == Err::<(), Seq<char>>(
                "Connection changed; reload before saving"@,
            )
        }),
{
    let p = destination_at(tenant, d.id);
    let after = with_destination(s, tenant, revised(d));
    crate::table::lemma_first_found(s.destinations, p);
    if any(s.destinations, destination_is(d.id)) {
        crate::table::lemma_first_updated(s.destinations, p, redefined(revised(d)));
    } else {
        if any(s.destinations, p) {
            let i = choose|i: int| 0 <= i < s.destinations.len() && p(#[trigger] s.destinations[i]);
            assert(destination_is(d.id)(s.destinations[i]));
        }
        let rows = after.destinations;
        assert forall|j: int| 0 <= j < rows.len() - 1 implies !p(#[trigger] rows[j]) by {
            assert(rows[j] == s.destinations[j]);
        }
        assert(p(rows.last()));
        crate::table::lemma_first(rows, p, rows.len() - 1);
    }
}

/// Whether two connections differ in nothing but the texts of secrets that both have
/// or both lack.
pub open spec fn same_but_secrets(
    a: NotificationDestinationView,
    b: NotificationDestinationView,
) -> bool {
    &&& b == NotificationDestinationView { url: b.url, token: b.token, user: b.user, ..a }
    &&& (a.url.len() > 0) == (b.url.len() > 0)
    &&& (a.token.len() > 0) == (b.token.len() > 0)
    &&& (a.user.len() > 0) == (b.user.len() > 0)
}

/// What is told of a connection does not depend on its secrets, but for whether they
/// are set.
pub proof fn secrets_are_not_told(a: NotificationDestinationView, b: NotificationDestinationView)
    requires
        same_but_secrets(a, b),
    ensures
        public_text(a) == public_text(b),
{
}

/// No tenant comes to have more than a hundred connections.
pub proof fn connections_stay_bounded(
    s: StoreView,
    tenant: Seq<char>,
    d: NotificationDestinationView,
    other: Seq<char>,
)
    requires
        save_checked(s, tenant, d, Ok(())) is Ok,
        count(s.destinations, destination_in(other)) <= 100,
    ensures
        count(with_destination(s, tenant, revised(d)).destinations, destination_in(other)) <= 100,
{
    let after = with_destination(s, tenant, revised(d)).destinations;
    let p = destination_at(tenant, d.id);
    if any(s.destinations, destination_is(d.id)) {
        lemma_count_alike(s.destinations, after, other);
    } else {
        crate::table::lemma_first_found(s.destinations, p);
        if any(s.destinations, p) {
            let i = choose|i: int| 0 <= i < s.destinations.len() && p(#[trigger] s.destinations[i]);
            assert(destination_is(d.id)(s.destinations[i]));
        }
        crate::table::lemma_filter_push(s.destinations, after.last(), destination_in(other));
    }
}

proof fn lemma_count_alike(
    a: Seq<DestinationRowView>,
    b: Seq<DestinationRowView>,
    tenant: Seq<char>,
)
    requires
        a.len() == b.len(),
        forall|i: int| 0 <= i < a.len() ==> (#[trigger] a[i]).tenant == b[i].tenant,
    ensures
        count(a, destination_in(tenant)) == count(b, destination_in(tenant)),
    decreases a.len(),
{
    if a.len() > 0 {
        let (x, y) = (a.drop_last(), b.drop_last());
        assert forall|i: int| 0 <= i < x.len() implies (#[trigger] x[i]).tenant == y[i].tenant by {
            assert(a[i].tenant == b[i].tenant);
        }
        lemma_count_alike(x, y, tenant);
        assert(a[a.len() - 1].tenant == b[a.len() - 1].tenant);
        assert(a =~= x.push(a.last()));
        assert(b =~= y.push(b.last()));
        crate::table::lemma_filter_push(x, a.last(), destination_in(tenant));
        crate::table::lemma_filter_push(y, b.last(), destination_in(tenant));
    } else {
        assert(a =~= b);
    }
}

/// Saved defaults are read back.
pub proof fn saved_defaults_read_back(s: StoreView, tenant: Seq<char>, p: NotificationPolicyView)
    ensures
        default_policy(with_defaults(s, tenant, p), tenant) == Ok::<
            NotificationPolicyView,
            Seq<char>,
        >(p),
{
    let rows = s.notification_defaults;
    let own = defaults_of(tenant);
    let after = with_defaults(s, tenant, p).notification_defaults;
    crate::table::lemma_first_found(rows, own);
    if any(rows, own) {
        crate::table::lemma_first_updated(rows, own, defaulting(p));
    } else {
        assert forall|j: int| 0 <= j < rows.len() implies !own(#[trigger] after[j]) by {
            assert(after[j] == rows[j]);
        }
        crate::table::lemma_first(after, own, rows.len() as int);
    }
}

// ---------------------------------------------------------------- operations
fn has_revision(d: &DestinationRow, revision: i64) -> (r: bool)
    ensures
        r == (revision_in(d@) == Some(revision)),
{
    if d.document_error.is_some() {
        match d.revision {
            Some(held) => held == revision,
            None => false,
        }
    } else {
        d.document.revision <= i64::MAX as u64 && d.document.revision as i64 == revision
    }
}

fn is_named(events: &[&str], event: &str) -> (r: bool)
    ensures
        r == names(events@).contains(event@),
{
    let mut i: usize = 0;
    while i < events.len()
        invariant
            i <= events.len(),
            forall|k: int| 0 <= k < i ==> #[trigger] names(events@)[k] != event@,
        decreases events.len() - i,
    {
        if same(events[i], event) {
            assert(names(events@)[i as int] == event@);
            return true;
        }
        i += 1;
    }
    false
}

fn repeats(list: &Vec<String>) -> (r: bool)
    ensures
        r == !list.deep_view().no_duplicates(),
{
    let mut i: usize = 0;
    let ghost all = list.deep_view();
    while i < list.len()
        invariant
            i <= list.len(),
            all == list.deep_view(),
            forall|a: int, b: int| 0 <= a < b < i ==> #[trigger] all[a] != #[trigger] all[b],
        decreases list.len() - i,
    {
        let mut j: usize = 0;
        while j < i
            invariant
                i < list.len(),
                j <= i,
                all == list.deep_view(),
                forall|a: int| 0 <= a < j ==> #[trigger] all[a] != all[i as int],
            decreases i - j,
        {
            if same(list[j].as_str(), list[i].as_str()) {
                assert(all[j as int] == all[i as int]);
                return true;
            }
            j += 1;
        }
        i += 1;
    }
    assert(all.no_duplicates());
    false
}

fn check_rule(rule: &NotificationRule, events: &[&str]) -> (r: bool)
    ensures
        r == rule_holds(rule@, names(events@)),
{
    if rule.events.len() == 0 || rule.events.len() > events.len() {
        return false;
    }
    let mut i: usize = 0;
    while i < rule.events.len()
        invariant
            i <= rule.events.len(),
            forall|k: int|
                0 <= k < i ==> names(events@).contains(#[trigger] rule.events.deep_view()[k]),
        decreases rule.events.len() - i,
    {
        if !is_named(events, rule.events[i].as_str()) {
            assert(rule@.events[i as int] == rule.events@[i as int]@);
            return false;
        }
        i += 1;
    }
    !repeats(&rule.events)
}

impl NotificationPolicy {
    /// Whether the policy notifies at all.
    pub fn enabled(&self) -> (r: bool)
        ensures
            r == (self@.mode != NotificationMode::Off),
    {
        self.mode != NotificationMode::Off
    }

    /// Whether the policy is well formed for these events, or what is wrong
    /// with it.
    pub fn validate(&self, events: &[&str]) -> (r: Result<(), String>)
        ensures
            outcome(r) == policy_checked(self@, names(events@)),
    {
        if self.mode != NotificationMode::Custom {
            return if self.rules.len() == 0 {
                Ok(())
            } else {
                Err("Only custom notifications accept rules".to_owned())
            };
        }
        if self.rules.len() == 0 || self.rules.len() > 32 {
            return Err("Choose 1 to 32 notification destinations".to_owned());
        }
        let ghost all = self.rules.deep_view();
        let ghost known = names(events@);
        let mut i: usize = 0;
        assert(all.take(0) =~= Seq::<NotificationRuleView>::empty());
        while i < self.rules.len()
            invariant
                i <= self.rules.len(),
                self.mode == NotificationMode::Custom,
                1 <= self.rules.len() <= 32,
                all == self.rules.deep_view(),
                known == names(events@),
                rules_checked(all.take(i as int), known) == Ok::<(), Seq<char>>(()),
            decreases self.rules.len() - i,
        {
            let ghost head = all.take(i + 1);
            proof {
                assert(head.drop_last() =~= all.take(i as int));
                assert(head.last() == all[i as int]);
            }
            let mut j: usize = 0;
            while j < i
                invariant
                    i < self.rules.len(),
                    j <= i,
                    self.mode == NotificationMode::Custom,
                    1 <= self.rules.len() <= 32,
                    all == self.rules.deep_view(),
                    known == names(events@),
                    head == all.take(i + 1),
                    head.drop_last() == all.take(i as int),
                    head.last() == all[i as int],
                    rules_checked(all.take(i as int), known) == Ok::<(), Seq<char>>(()),
                    forall|k: int|
                        0 <= k < j ==> (#[trigger] head[k]).destination_id
                            != head.last().destination_id,
                decreases i - j,
            {
                if same(
                    self.rules[j].destination_id.as_str(),
                    self.rules[i].destination_id.as_str(),
                ) {
                    proof {
                        assert(head[j as int].destination_id == head.last().destination_id);
                        lemma_refused(all, known, i + 1);
                    }
                    return Err("Choose each destination once".to_owned());
                }
                j += 1;
            }
            if !check_rule(&self.rules[i], events) {
                proof {
                    lemma_refused(all, known, i + 1);
                }
                return Err("Choose supported events for each destination".to_owned());
            }
            i += 1;
        }
        assert(all.take(i as int) =~= all);
        Ok(())
    }
}

proof fn lemma_refused(rules: Seq<NotificationRuleView>, events: Seq<Seq<char>>, n: int)
    requires
        0 <= n <= rules.len(),
        rules_checked(rules.take(n), events) is Err,
    ensures
        rules_checked(rules, events) == rules_checked(rules.take(n), events),
    decreases rules.len() - n,
{
    if n < rules.len() {
        assert(rules.take(n + 1).drop_last() =~= rules.take(n));
        lemma_refused(rules, events, n + 1);
    } else {
        assert(rules.take(n) =~= rules);
    }
}

impl NotificationDestination {
    /// What may be told of the connection, as JSON text: its secrets only by
    /// whether they are set.
    pub fn public(&self) -> (s: String)
        ensures
            s@ == public_text(self@),
    {
        let mut members: Vec<(String, String)> = Vec::new();
        members.push(member("channel", quoted(self.channel.as_str())));
        members.push(member("enabled", boolean(self.enabled)));
        members.push(member("id", quoted(self.id.as_str())));
        members.push(member("label", quoted(self.label.as_str())));
        members.push(member("recipients", array(&self.recipients)));
        members.push(member("revision", u64_text(self.revision)));
        members.push(member("target", quoted(self.target.as_str())));
        members.push(member("thread_id", quoted(self.thread_id.as_str())));
        members.push(member("token_set", boolean(self.token.as_str().unicode_len() > 0)));
        members.push(member("url_set", boolean(self.url.as_str().unicode_len() > 0)));
        members.push(member("user_set", boolean(self.user.as_str().unicode_len() > 0)));
        let ghost d = self@;
        assert(members.deep_view() =~= seq![
            ("channel"@, json_string(d.channel)),
            ("enabled"@, json_bool(d.enabled)),
            ("id"@, json_string(d.id)),
            ("label"@, json_string(d.label)),
            ("recipients"@, json_array(d.recipients)),
            ("revision"@, decimal(d.revision as nat)),
            ("target"@, json_string(d.target)),
            ("thread_id"@, json_string(d.thread_id)),
            ("token_set"@, json_bool(d.token.len() > 0)),
            ("url_set"@, json_bool(d.url.len() > 0)),
            ("user_set"@, json_bool(d.user.len() > 0)),
        ]);
        object(&members)
    }
}

fn read_destination(d: &DestinationRow) -> (r: Result<NotificationDestination, String>)
    ensures
        outcome(r) == destination_of()(d@),
{
    match &d.document_error {
        Some(error) => Err(decode_error("0", error.as_str())),
        None => Ok(d.document.dup()),
    }
}

fn show_use(d: &DestinationRow) -> (r: Result<(String, String), String>)
    requires
        d.last_at is Some,
    ensures
        outcome(r) == last_use()(d@),
{
    match (d.last_delivered, d.last_at) {
        (Some(delivered), Some(at)) => {
            let mut members: Vec<(String, String)> = Vec::new();
            members.push(member("at", i64_text(at)));
            members.push(member("delivered", boolean(delivered)));
            assert(members.deep_view() =~= seq![
                ("at"@, signed_decimal(at as int)),
                ("delivered"@, json_bool(delivered)),
            ]);
            Ok((d.id.clone(), object(&members)))
        },
        _ => Err("Invalid column type Null at index: 2, name: last_delivered".to_owned()),
    }
}

impl Store {
    /// The connections of a tenant, by id, at most a hundred.
    pub fn notification_destinations(&self, tenant: &str) -> (r: Result<
        Vec<NotificationDestination>,
        String,
    >)
        ensures
            outcome(r) == crate::answers::connections_told(self@, tenant@),
    {
        let own = |d: &DestinationRow| -> (b: bool)
            ensures
                b == destination_in(tenant@)(d@),
        {
            same(d.tenant.as_str(), tenant)
        };
        let before = |a: &DestinationRow, b: &DestinationRow| -> (r: bool)
            ensures
                r == destination_before()(a@, b@),
        {
            lt(a.id.as_str(), b.id.as_str())
        };
        let read = |d: &DestinationRow| -> (r: Result<NotificationDestination, String>)
            ensures
                outcome(r) == destination_of()(d@),
        {
            read_destination(d)
        };
        let rows = select(&self.destinations, own, Ghost(destination_in(tenant@)));
        let rows = sort_rows(rows, before, Ghost(destination_before()));
        let rows = limit_rows(&rows, 100);
        try_project(&rows, read, Ghost(destination_of()))
    }

    /// A connection of a tenant.
    pub fn notification_destination(&self, tenant: &str, id: &str) -> (r: Result<
        Option<NotificationDestination>,
        String,
    >)
        ensures
            outcome(r) == crate::answers::connection_told(self@, tenant@, id@),
    {
        let hit = |d: &DestinationRow| -> (b: bool)
            ensures
                b == destination_at(tenant@, id@)(d@),
        {
            same(d.tenant.as_str(), tenant) && same(d.id.as_str(), id)
        };
        match find(&self.destinations, hit, Ghost(destination_at(tenant@, id@))) {
            Some(found) => match read_destination(&self.destinations[found]) {
                Ok(destination) => Ok(Some(destination)),
                Err(error) => Err(error),
            },
            None => Ok(None),
        }
    }

    fn check_destination(
        &self,
        tenant: &str,
        destination: &NotificationDestination,
        tenant_there: Result<(), String>,
    ) -> (r: Result<(), String>)
        ensures
            outcome(r) == save_checked(self@, tenant@, destination@, outcome(tenant_there)),
    {
        if let Err(error) = tenant_there {
            return Err(error);
        }
        let id = destination.id.as_str();
        let hit = |d: &DestinationRow| -> (b: bool)
            ensures
                b == destination_at(tenant@, id@)(d@),
        {
            same(d.tenant.as_str(), tenant) && same(d.id.as_str(), id)
        };
        match find(&self.destinations, hit, Ghost(destination_at(tenant@, id@))) {
            Some(found) => {
                if let Some(error) = &self.destinations[found].document_error {
                    return Err(error.clone());
                }
                if self.destinations[found].document.revision != destination.revision {
                    return Err("Connection changed; reload before saving".to_owned());
                }
            },
            None => {
                if destination.revision != 0 {
                    return Err("Connection changed; reload before saving".to_owned());
                }
                let own = |d: &DestinationRow| -> (b: bool)
                    ensures
                        b == destination_in(tenant@)(d@),
                {
                    same(d.tenant.as_str(), tenant)
                };
                if count_where(&self.destinations, own, Ghost(destination_in(tenant@))) >= 100 {
                    return Err(
                        "A tenant can have at most 100 notification destinations".to_owned(),
                    );
                }
            },
        }
        Ok(())
    }

    /// Saves a connection in its next revision over the one that the caller read.
    /// `tenant_there` says why the tenant may not be written to, if so.
    pub fn save_notification_destination(
        &mut self,
        tenant: &str,
        destination: &mut NotificationDestination,
        tenant_there: Result<(), String>,
    ) -> (r: Result<(), String>)
        requires
            save_checked(old(self)@, tenant@, old(destination)@, outcome(tenant_there)) is Ok
                ==> old(destination)@.revision < u64::MAX,
        ensures
            outcome(r) == save_checked(
                old(self)@,
                tenant@,
                old(destination)@,
                outcome(tenant_there),
            ),
            final(destination)@ == if r is Ok {
                revised(old(destination)@)
            } else {
                old(destination)@
            },
            final(self)@ == if r is Ok {
                with_destination(old(self)@, tenant@, revised(old(destination)@))
            } else {
                old(self)@
            },
    {
        if let Err(error) = self.check_destination(tenant, destination, tenant_there) {
            return Err(error);
        }
        destination.revision = destination.revision + 1;
        let document = destination.dup();
        let id = document.id.as_str();
        let hit = |d: &DestinationRow| -> (b: bool)
            ensures
                b == destination_at(tenant@, id@)(d@),
        {
            same(d.tenant.as_str(), tenant) && same(d.id.as_str(), id)
        };
        let taken = |d: &DestinationRow| -> (b: bool)
            ensures
                b == destination_is(id@)(d@),
        {
            same(d.id.as_str(), id)
        };
        let change = |d: &DestinationRow| -> (r: DestinationRow)
            ensures
                r@ == redefined(document@)(d@),
        {
            DestinationRow {
                id: d.id.clone(),
                tenant: d.tenant.clone(),
                document: document.dup(),
                document_error: None,
                readable: false,
                revision: None,
                last_at: None,
                last_delivered: None,
            }
        };
        if exists_where(&self.destinations, taken, Ghost(destination_is(id@))) {
            update_where(
                &mut self.destinations,
                hit,
                change,
                Ghost(destination_at(tenant@, id@)),
                Ghost(redefined(document@)),
            );
        } else {
            append_row(
                &mut self.destinations,
                DestinationRow {
                    id: document.id.clone(),
                    tenant: tenant.to_owned(),
                    document: document.dup(),
                    document_error: None,
                    readable: false,
                    revision: None,
                    last_at: None,
                    last_delivered: None,
                },
            );
        }
        Ok(())
    }

    /// The notifications that a tenant's links and deliveries default to.
    pub fn notification_defaults(&self, tenant: &str) -> (r: Result<NotificationPolicy, String>)
        ensures
            outcome(r) == default_policy(self@, tenant@),
    {
        let own = |d: &DefaultsRow| -> (b: bool)
            ensures
                b == defaults_of(tenant@)(d@),
        {
            same(d.tenant.as_str(), tenant)
        };
        match find(&self.notification_defaults, own, Ghost(defaults_of(tenant@))) {
            Some(found) => match &self.notification_defaults[found].document_error {
                Some(error) => Err(decode_error("0", error.as_str())),
                None => Ok(self.notification_defaults[found].document.dup()),
            },
            None => {
                let rules: Vec<NotificationRule> = Vec::new();
                assert(rules.deep_view() =~= Seq::empty());
                Ok(NotificationPolicy { mode: NotificationMode::Off, rules })
            },
        }
    }

    /// Sets the notifications that a tenant's links and deliveries default to.
    /// `tenant_there` says why the tenant may not be written to, if so.
    pub fn save_notification_defaults(
        &mut self,
        tenant: &str,
        policy: &NotificationPolicy,
        tenant_there: Result<(), String>,
    ) -> (r: Result<(), String>)
        ensures
            outcome(r) == outcome(tenant_there),
            final(self)@ == if r is Ok {
                with_defaults(old(self)@, tenant@, policy@)
            } else {
                old(self)@
            },
    {
        if let Err(error) = tenant_there {
            return Err(error);
        }
        let own = |d: &DefaultsRow| -> (b: bool)
            ensures
                b == defaults_of(tenant@)(d@),
        {
            same(d.tenant.as_str(), tenant)
        };
        let change = |d: &DefaultsRow| -> (r: DefaultsRow)
            ensures
                r@ == defaulting(policy@)(d@),
        {
            DefaultsRow { tenant: d.tenant.clone(), document: policy.dup(), document_error: None }
        };
        if exists_where(&self.notification_defaults, own, Ghost(defaults_of(tenant@))) {
            update_where(
                &mut self.notification_defaults,
                own,
                change,
                Ghost(defaults_of(tenant@)),
                Ghost(defaulting(policy@)),
            );
        } else {
            append_row(
                &mut self.notification_defaults,
                DefaultsRow {
                    tenant: tenant.to_owned(),
                    document: policy.dup(),
                    document_error: None,
                },
            );
        }
        Ok(())
    }

    /// When each connection of a tenant was last used, and whether that
    /// succeeded, as JSON text.
    pub fn notification_outcomes(&self, tenant: &str) -> (r: Result<String, String>)
        ensures
            outcome(r) == crate::answers::uses_told(self@, tenant@),
    {
        let used = |d: &DestinationRow| -> (b: bool)
            ensures
                b == used_in(tenant@)(d@),
        {
            same(d.tenant.as_str(), tenant) && d.last_at.is_some()
        };
        let rows = select(&self.destinations, used, Ghost(used_in(tenant@)));
        let ghost all = rows.deep_view();
        let mut pairs: Vec<(String, String)> = Vec::new();
        let mut i: usize = 0;
        proof {
            crate::table::lemma_filter_any_of(self@.destinations, used_in(tenant@));
            assert(all.take(0) =~= Seq::<DestinationRowView>::empty());
            assert(pairs.deep_view() =~= Seq::<(Seq<char>, Seq<char>)>::empty());
        }
        while i < rows.len()
            invariant
                i <= rows.len(),
                all == rows.deep_view(),
                all == self@.destinations.filter(used_in(tenant@)),
                forall|k: int| 0 <= k < all.len() ==> used_in(tenant@)(#[trigger] all[k]),
                try_map(all.take(i as int), last_use()) == Ok::<
                    Seq<(Seq<char>, Seq<char>)>,
                    Seq<char>,
                >(pairs.deep_view()),
            decreases rows.len() - i,
        {
            proof {
                assert(used_in(tenant@)(all[i as int]));
                assert(all.take(i + 1).drop_last() =~= all.take(i as int));
                assert(all.take(i + 1).last() == all[i as int]);
            }
            match show_use(&rows[i]) {
                Ok(pair) => {
                    let ghost before = pairs.deep_view();
                    pairs.push(pair);
                    assert(pairs.deep_view() =~= before.push(pair.deep_view()));
                },
                Err(error) => {
                    proof {
                        crate::table::lemma_try_map_refused(all, last_use(), i + 1);
                    }
                    return Err(error);
                },
            }
            i += 1;
        }
        assert(all.take(i as int) =~= all);
        let before = |a: &(String, String), b: &(String, String)| -> (r: bool)
            ensures
                r == by_key()(a.deep_view(), b.deep_view()),
        {
            lt(a.0.as_str(), b.0.as_str())
        };
        let pairs = sort_rows(pairs, before, Ghost(by_key()));
        Ok(object(&pairs))
    }

    /// Records now whether a connection delivered, unless it was saved since.
    pub fn record_notification_outcome(
        &mut self,
        tenant: &str,
        destination: &NotificationDestination,
        delivered: bool,
    ) -> (r: Result<(), String>)
        ensures
            exists|reading: Option<u64>| #[trigger]
                clock_gave(reading) && follows(
                    outcome_recorded(
                        old(self)@,
                        tenant@,
                        destination@,
                        delivered,
                        time_of(reading),
                    ),
                    old(self)@,
                    final(self)@,
                    r,
                ),
    {
        let now: u64 = now_unix();
        self.record_notification_outcome_at(tenant, destination, delivered, now)
    }

    /// Records at time `now` whether a connection delivered, unless it was saved
    /// since.
    pub fn record_notification_outcome_at(
        &mut self,
        tenant: &str,
        destination: &NotificationDestination,
        delivered: bool,
        now: u64,
    ) -> (r: Result<(), String>)
        ensures
            follows(
                outcome_recorded(old(self)@, tenant@, destination@, delivered, now),
                old(self)@,
                final(self)@,
                r,
            ),
    {
        let at: i64 = to_wrapped(now);
        let id = destination.id.as_str();
        let revision: i64 = to_wrapped(destination.revision);
        let asked: u64 = destination.revision;
        let hit = |d: &DestinationRow| -> (b: bool)
            ensures
                b == at_revision(tenant@, id@, asked)(d@),
        {
            same(d.tenant.as_str(), tenant) && same(d.id.as_str(), id) && has_revision(d, revision)
        };
        let broken = |d: &DestinationRow| -> (b: bool)
            ensures
                b == unreadable_at(tenant@, id@)(d@),
        {
            same(d.tenant.as_str(), tenant) && same(d.id.as_str(), id) && d.document_error.is_some()
                && !d.readable
        };
        if exists_where(&self.destinations, broken, Ghost(unreadable_at(tenant@, id@))) {
            return Err("malformed JSON".to_owned());
        }
        let change = |d: &DestinationRow| -> (r: DestinationRow)
            ensures
                r@ == tried(at, delivered)(d@),
        {
            let mut d = d.dup();
            d.last_at = Some(at);
            d.last_delivered = Some(delivered);
            d
        };
        update_where(
            &mut self.destinations,
            hit,
            change,
            Ghost(at_revision(tenant@, id@, asked)),
            Ghost(tried(at, delivered)),
        );
        Ok(())
    }

    fn notify_grant(&mut self, tenant: &str, id: &str, policy: &Option<NotificationPolicy>) -> (n:
        usize)
        ensures
            final(self)@ == (StoreView {
                grants: updated(
                    old(self)@.grants,
                    grant_at(tenant@, id@),
                    notifying(policy.deep_view()),
                ),
                ..old(self)@
            }),
            n == count(old(self)@.grants, grant_at(tenant@, id@)),
    {
        let hit = |g: &GrantRow| -> (b: bool)
            ensures
                b == grant_at(tenant@, id@)(g@),
        {
            same(g.tenant.as_str(), tenant) && same(g.id.as_str(), id)
        };
        let change = |g: &GrantRow| -> (r: GrantRow)
            ensures
                r@ == notifying(policy.deep_view())(g@),
        {
            let mut g = g.dup();
            g.notifications = dup_option(policy);
            g.notifications_error = None;
            g
        };
        update_where(
            &mut self.grants,
            hit,
            change,
            Ghost(grant_at(tenant@, id@)),
            Ghost(notifying(policy.deep_view())),
        )
    }

    /// Sets a grant's notifications, and says whether there was such a grant.
    pub fn set_outbound_notifications(&mut self, tenant: &str, id: &str, policy: &NotificationPolicy) -> (r: Result<
        bool,
        String,
    >)
        ensures
            outcome(r) == Ok::<bool, Seq<char>>(any(old(self)@.grants, grant_at(tenant@, id@))),
            final(self)@ == crate::alerts::with_notifications(
                old(self)@,
                tenant@,
                id@,
                policy@,
            ),
    {
        let n: usize = self.notify_grant(tenant, id, &Some(policy.dup()));
        proof {
            crate::table::lemma_filter_any(old(self)@.grants, grant_at(tenant@, id@));
        }
        Ok(n > 0)
    }

    /// Sets a job's notifications, or resets them to its request's or project's.
    pub fn set_job_notifications(&mut self, tenant: &str, id: &str, policy: Option<&NotificationPolicy>) -> (r: Result<
        bool,
        String,
    >)
        ensures
            follows(
                job_notified(
                    old(self)@,
                    tenant@,
                    id@,
                    match policy {
                        Some(p) => Some(p@),
                        None => None,
                    },
                ),
                old(self)@,
                final(self)@,
                r,
            ),
    {
        let hit = |j: &JobRow| -> (b: bool)
            ensures
                b == job_in(tenant@, id@)(j@),
        {
            same(j.id.as_str(), id) && same(j.tenant.as_str(), tenant)
        };
        let found: usize = match find(&self.jobs, hit, Ghost(job_in(tenant@, id@))) {
            Some(found) => found,
            None => return Ok(false),
        };
        if let Some(error) = &self.jobs[found].document_error {
            return Err(decode_error("0", error.as_str()));
        }
        let effective: Option<NotificationPolicy> = match policy {
            Some(policy) => Some(policy.dup()),
            None => match &self.jobs[found].request_notifications {
                Some(policy) => Some(policy.dup()),
                None => dup_option(&self.jobs[found].project_notifications),
            },
        };
        let set = |o: &OverrideRow| -> (b: bool)
            ensures
                b == override_of(id@)(o@),
        {
            same(o.job_id.as_str(), id)
        };
        match policy {
            Some(policy) => {
                let change = |o: &OverrideRow| -> (r: OverrideRow)
                    ensures
                        r@ == overriding(policy@)(o@),
                {
                    OverrideRow {
                        job_id: o.job_id.clone(),
                        document: policy.dup(),
                        document_error: None,
                    }
                };
                if exists_where(&self.notification_overrides, set, Ghost(override_of(id@))) {
                    update_where(
                        &mut self.notification_overrides,
                        set,
                        change,
                        Ghost(override_of(id@)),
                        Ghost(overriding(policy@)),
                    );
                } else {
                    append_row(
                        &mut self.notification_overrides,
                        OverrideRow {
                            job_id: id.to_owned(),
                            document: policy.dup(),
                            document_error: None,
                        },
                    );
                }
            },
            None => {
                delete_where(
                    &mut self.notification_overrides,
                    set,
                    Ghost(override_of(id@)),
                    Ghost(other_override(id@)),
                );
            },
        }
        self.notify_grant(tenant, id, &effective);
        Ok(true)
    }

    /// Whether an actor of a tenant has a job for an operation.
    pub fn delivery_operation_exists(&self, tenant: &str, actor: &str, operation_id: &str) -> (r: Result<
        bool,
        String,
    >)
        ensures
            outcome(r) == Ok::<bool, Seq<char>>(
                any(self@.jobs, job_for(tenant@, actor@, operation_id@)),
            ),
    {
        let hit = |j: &JobRow| -> (b: bool)
            ensures
                b == job_for(tenant@, actor@, operation_id@)(j@),
        {
            same(j.tenant.as_str(), tenant) && same(j.actor.as_str(), actor) && same(
                j.operation_id.as_str(),
                operation_id,
            )
        };
        Ok(exists_where(&self.jobs, hit, Ghost(job_for(tenant@, actor@, operation_id@))))
    }
}

} // verus!
