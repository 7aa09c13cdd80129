//! What single questions are answered: each answer is told by the rows that it is about, and
//! lists come in the order they are meant to.
use vstd::prelude::*;

use crate::automation::{older_token, operation_of, operation_on, token_in, token_of};
use crate::availability::manifest_grant;
use crate::columns::wrapped;
use crate::downloads::grant_is;
use crate::grants::{listed, read_first};
use crate::issue::{GrantChecks, issued, operation_is, override_of};
use crate::lifecycle::{
    manifest_of, manifest_root_of, object_lt, remanifested, servable, usable_grant_is,
};
use crate::links::{
    DELIVERED_CANDIDATE_PAGE, by_id, by_path, candidate, link_after, path_and_receipt,
    tenant_and_id, tenant_is,
};
use crate::notifications::{
    by_key, destination_at, destination_before, destination_in, destination_of, grant_at, last_use,
    used_in,
};
use crate::offers::preview_tells;
use crate::principals::{by_subject, external_is, principal_is, principal_of};
use crate::records::{
    AutomationOperationView, AutomationTokenView, BrandingView, FetchTicketView,
    NotificationDestinationView, ObjectIdView, OutboundGrantView, PrincipalView, ScimGroupView,
    TenantView,
};
use crate::rows::{
    AutomationTokenRowView, BrandingRowView, DestinationRowView, FileRowView, GrantManifestRowView,
    GrantRowView, JobRowView, LinkRowView, MetaRowView, OperationRowView, OverrideRowView,
    PrincipalRowView, ScimGroupRowView, TenantRowView, TicketRowView,
};
use crate::scim::{by_name, group_external, group_is, group_named, group_shown, head};
use crate::search::{
    comes_after, completion, file_shown, files_found, found, in_context, later_upload, needle,
    newer_download, newer_request, row_limit,
};
use crate::selection::{
    lemma_counted, lemma_found, lemma_ordered, lemma_paged, lemma_read, lemma_selected,
};
use crate::sessions::{Progress, checkpointed};
use crate::settings::{meta_is, meta_set};
use crate::store::StoreView;
use crate::table::{any, first, page, sorted_by, try_map, updated};
use crate::tenants::{branding_of, branding_read, tenant_alike, tenant_of, tenant_row};
use crate::text::text_lt;
use crate::tickets::{not_expired_before, ticket_is, ticket_of, unexpired};
use crate::quota::live_in;
use crate::upkeep::number_told;
use crate::usage::{path_and_length, stored_files};

verus! {

// ------------------------------------------------------------------- automation
/// A tenant's automation tokens.
pub open spec fn tokens_told(s: StoreView, tenant: Seq<char>) -> Result<
    Seq<AutomationTokenView>,
    Seq<char>,
> {
    try_map(sorted_by(s.tokens.filter(token_in(tenant)), older_token()), token_of())
}

/// Whether a token is what its row tells.
pub open spec fn token_tells(r: AutomationTokenRowView, t: AutomationTokenView) -> bool {
    &&& t.id == r.id && t.token_hash == r.token_hash && t.tenant == r.tenant && t.label == r.label
    &&& t.directory == r.directory && t.permissions == r.permissions
    &&& r.created_at >= 0 ==> t.created_at == r.created_at
    &&& r.expires_at >= 0 ==> t.expires_at == r.expires_at
    &&& number_told(r.revoked_at, t.revoked_at) && number_told(r.last_used_at, t.last_used_at)
}

/// Whether rows are those behind the tokens that were read, oldest first.
pub open spec fn tokens_behind(
    s: StoreView,
    tenant: Seq<char>,
    rows: Seq<AutomationTokenRowView>,
    list: Seq<AutomationTokenView>,
) -> bool {
    &&& rows.len() == list.len()
    &&& forall|i: int|
        0 <= i < rows.len() ==> s.tokens.contains(#[trigger] rows[i]) && rows[i].tenant == tenant
            && token_tells(rows[i], list[i])
    &&& forall|i: int|
        0 < i < rows.len() ==> rows[i - 1].created_at <= (#[trigger] rows[i]).created_at
}

/// The tokens that are listed are the tenant's, all of them, oldest first.
pub proof fn tokens_are_listed(s: StoreView, tenant: Seq<char>)
    ensures
        tokens_told(s, tenant) matches Ok(list) ==> {
            &&& list.len() == s.tokens.filter(|t: AutomationTokenRowView| t.tenant == tenant).len()
            &&& exists|rows: Seq<AutomationTokenRowView>| tokens_behind(s, tenant, rows, list)
        },
        (forall|t: AutomationTokenRowView| #[trigger]
            s.tokens.contains(t) && t.tenant == tenant ==> t.permissions_error is None)
            ==> tokens_told(s, tenant) is Ok,
{
    let raw = |t: AutomationTokenRowView| t.tenant == tenant;
    let own = s.tokens.filter(token_in(tenant));
    let all = sorted_by(own, older_token());
    lemma_counted(s.tokens, token_in(tenant), raw);
    lemma_selected(s.tokens, token_in(tenant));
    lemma_ordered(own, older_token());
    crate::table::lemma_sorted_ordered(own, older_token());
    lemma_read(all, token_of());
    assert forall|i: int| 0 <= i < all.len() implies s.tokens.contains(#[trigger] all[i])
        && all[i].tenant == tenant by {
        assert(all.contains(all[i]));
        assert(own.contains(all[i]));
    }
    if let Ok(list) = tokens_told(s, tenant) {
        assert(tokens_behind(s, tenant, all, list)) by {
            assert forall|i: int| 0 <= i < all.len() implies s.tokens.contains(#[trigger] all[i])
                && all[i].tenant == tenant && token_tells(all[i], list[i]) by {
                assert(token_of()(all[i]) == Ok::<AutomationTokenView, Seq<char>>(list[i]));
            }
            assert forall|i: int| 0 < i < all.len() implies all[i - 1].created_at <= (
            #[trigger] all[i]).created_at by {
                assert(!older_token()(all[i], all[i - 1]));
            }
        }
    }
    if forall|t: AutomationTokenRowView| #[trigger]
        s.tokens.contains(t) && t.tenant == tenant ==> t.permissions_error is None {
        assert forall|i: int| 0 <= i < all.len() implies token_of()(#[trigger] all[i]) is Ok by {
            assert(s.tokens.contains(all[i]));
        }
    }
}

/// The operation under a token's operation id.
pub open spec fn operation_told(s: StoreView, token_id: Seq<char>, operation_id: Seq<char>) -> Option<
    AutomationOperationView,
> {
    match first(s.operations, operation_is(token_id, operation_id)) {
        Some(o) => Some(operation_of(o)),
        None => None,
    }
}

/// What a token delivered under a grant.
pub open spec fn delivery_told(s: StoreView, token_id: Seq<char>, grant_id: Seq<char>) -> Option<
    (Seq<char>, Seq<char>),
> {
    match (
        first(s.operations, operation_on(token_id, grant_id)),
        first(s.grants, grant_is(grant_id)),
    ) {
        (Some(o), Some(g)) => Some((o.operation_id, g.token_hash)),
        _ => None,
    }
}

/// An operation is told exactly if the token has it, as it was asked for; a delivery exactly if
/// the token made it and the grant is there, with the grant's digest.
pub proof fn operations_are_told(
    s: StoreView,
    token_id: Seq<char>,
    operation_id: Seq<char>,
    grant_id: Seq<char>,
)
    ensures
        operation_told(s, token_id, operation_id) is Some <==> exists|o: OperationRowView| #[trigger]
            s.operations.contains(o) && o.token_id == token_id && o.operation_id == operation_id,
        operation_told(s, token_id, operation_id) matches Some(x) ==> x.token_id == token_id
            && x.operation_id == operation_id && exists|o: OperationRowView| #[trigger]
            s.operations.contains(o) && o.token_id == token_id && o.operation_id == operation_id
                && x.request_hash == o.request_hash && x.grant_id == o.grant_id,
        delivery_told(s, token_id, grant_id) is Some <==> (exists|o: OperationRowView| #[trigger]
            s.operations.contains(o) && o.token_id == token_id && o.grant_id == grant_id) && (exists|
            g: GrantRowView,
        | #[trigger] s.grants.contains(g) && g.id == grant_id),
        delivery_told(s, token_id, grant_id) matches Some(x) ==> (exists|o: OperationRowView|
         #[trigger]
            s.operations.contains(o) && o.token_id == token_id && o.grant_id == grant_id && x.0
                == o.operation_id) && (exists|g: GrantRowView| #[trigger]
            s.grants.contains(g) && g.id == grant_id && x.1 == g.token_hash),
{
    lemma_found(s.operations, operation_is(token_id, operation_id));
    lemma_found(s.operations, operation_on(token_id, grant_id));
    lemma_found(s.grants, grant_is(grant_id));
}

/// A grant that is issued for a job has the notifications that override the job's, where there
/// are any, and else those it was issued with.
pub proof fn overrides_are_in_force_when_issued(
    s: StoreView,
    g: OutboundGrantView,
    share: Option<(Seq<char>, Seq<char>)>,
    checks: GrantChecks,
    now: u64,
    j: JobRowView,
    o: OverrideRowView,
)
    requires
        s.jobs.contains(j),
        j.id == g.id,
        j.tenant == g.tenant,
        forall|x: OverrideRowView| #[trigger]
            s.notification_overrides.contains(x) && x.job_id == g.id ==> x == o,
    ensures
        issued(s, g, None, share, checks, now) matches Ok((after, _)) ==> {
            &&& s.notification_overrides.contains(o) && o.job_id == g.id
                ==> after.grants.last().notifications == Some(o.document)
            &&& (forall|x: OverrideRowView| #[trigger]
                s.notification_overrides.contains(x) ==> x.job_id != g.id)
                ==> after.grants.last().notifications == g.notifications
        },
{
    lemma_found(s.jobs, crate::lifecycle::job_in(g.tenant, g.id));
    lemma_found(s.notification_overrides, override_of(g.id));
}

// ----------------------------------------------------------------------- grants
/// A grant of a tenant as a page shows it.
pub open spec fn preview_told(s: StoreView, tenant: Seq<char>, id: Seq<char>, preview: usize) -> Result<
    Option<(OutboundGrantView, usize)>,
    Seq<char>,
> {
    if preview > i64::MAX {
        Err("outbound grant file preview limit overflow"@)
    } else {
        read_first(first(s.grants, grant_at(tenant, id)), listed(s.grant_files, preview as i64))
    }
}

/// A grant is shown by itself as a page shows it: the tenant's under that id, and none exactly
/// if the tenant has none.
pub proof fn grants_are_previewed(s: StoreView, tenant: Seq<char>, id: Seq<char>, preview: usize)
    requires
        preview <= i64::MAX,
    ensures
        (preview_told(s, tenant, id, preview) matches Ok(None)) <==> !exists|r: GrantRowView|
         #[trigger]
            s.grants.contains(r) && r.tenant == tenant && r.id == id,
        preview_told(s, tenant, id, preview) matches Ok(Some(x)) ==> exists|r: GrantRowView|
         #[trigger]
            s.grants.contains(r) && r.tenant == tenant && r.id == id && preview_tells(
                s.grant_files,
                r,
                preview,
                x,
            ),
{
    lemma_found(s.grants, grant_at(tenant, id));
    if let Some(r) = first(s.grants, grant_at(tenant, id)) {
        crate::offers::lemma_counters(s.grant_files, r.id, r.files);
    }
}

/// The grants whose manifests are served at a time.
pub open spec fn grants_served(s: StoreView, now: i64) -> Seq<Seq<char>> {
    s.grant_manifests.filter(servable(s.grants, now)).map_values(manifest_grant())
}

/// The roots of the manifests that are served at a time.
pub open spec fn roots_served(s: StoreView, now: i64) -> Seq<Seq<char>> {
    s.grant_manifests.filter(servable(s.grants, now)).map_values(manifest_root_of())
}

/// Whether a grant can be used at a time: it was not revoked, has not expired, and leaves a
/// download.
pub open spec fn can_be_used(g: GrantRowView, now: i64) -> bool {
    g.revoked_at is None && now < g.expires_at && (g.max_downloads is None || g.downloads
        < g.max_downloads->0)
}

/// Whether a manifest is of a grant that can be used at a time.
pub open spec fn is_served(s: StoreView, m: GrantManifestRowView, now: i64) -> bool {
    exists|g: GrantRowView| #[trigger]
        s.grants.contains(g) && g.id == m.grant_id && can_be_used(g, now)
}

/// Whether a manifest with a root is served under a grant.
pub open spec fn served_as(s: StoreView, grant_id: Seq<char>, root: Seq<char>, now: i64) -> bool {
    exists|m: GrantManifestRowView| #[trigger]
        s.grant_manifests.contains(m) && is_served(s, m, now) && m.grant_id == grant_id
            && m.manifest_root == root
}

/// Manifests are served exactly of the grants that can be used, each under its grant and with
/// its root.
pub proof fn manifests_are_served_while_usable(s: StoreView, now: i64)
    ensures
        grants_served(s, now).len() == roots_served(s, now).len(),
        forall|m: GrantManifestRowView| #[trigger]
            s.grant_manifests.contains(m) && is_served(s, m, now) ==> grants_served(
                s,
                now,
            ).contains(m.grant_id) && roots_served(s, now).contains(m.manifest_root),
        forall|i: int|
            0 <= i < grants_served(s, now).len() ==> served_as(
                s,
                grants_served(s, now)[i],
                #[trigger] roots_served(s, now)[i],
                now,
            ),
{
    let own = servable(s.grants, now);
    let rows = s.grant_manifests.filter(own);
    lemma_selected(s.grant_manifests, own);
    assert forall|m: GrantManifestRowView| #[trigger] own(m) == is_served(s, m, now) by {
        lemma_found(s.grants, usable_grant_is(m.grant_id, now));
    }
    assert forall|m: GrantManifestRowView| #[trigger]
        s.grant_manifests.contains(m) && is_served(s, m, now) implies grants_served(
        s,
        now,
    ).contains(m.grant_id) && roots_served(s, now).contains(m.manifest_root) by {
        assert(own(m));
        assert(rows.contains(m));
        let i = choose|i: int| 0 <= i < rows.len() && rows[i] == m;
        assert(grants_served(s, now)[i] == m.grant_id);
        assert(roots_served(s, now)[i] == m.manifest_root);
    }
    assert forall|i: int| 0 <= i < grants_served(s, now).len() implies served_as(
        s,
        grants_served(s, now)[i],
        #[trigger] roots_served(s, now)[i],
        now,
    ) by {
        assert(rows.contains(rows[i]));
        assert(own(rows[i]));
        assert(s.grant_manifests.contains(rows[i]));
    }
}

/// The root of a grant's manifest.
pub open spec fn root_told(s: StoreView, grant_id: Seq<char>) -> Option<Seq<char>> {
    match first(s.grant_manifests, manifest_of(grant_id)) {
        Some(m) => Some(m.manifest_root),
        None => None,
    }
}

/// The store with a grant's manifest recorded.
pub open spec fn with_manifest(
    s: StoreView,
    grant_id: Seq<char>,
    root: Seq<char>,
    now: u64,
) -> StoreView {
    StoreView {
        grant_manifests: if any(s.grant_manifests, manifest_of(grant_id)) {
            updated(s.grant_manifests, manifest_of(grant_id), remanifested(root, wrapped(now)))
        } else {
            s.grant_manifests.push(
                GrantManifestRowView { grant_id, manifest_root: root, created_at: wrapped(now) },
            )
        },
        ..s
    }
}

/// A grant has the root that was recorded last, at the time it was recorded; no other grant's
/// changes.
pub proof fn manifests_are_recorded(
    s: StoreView,
    grant_id: Seq<char>,
    root: Seq<char>,
    now: u64,
    other: Seq<char>,
)
    requires
        now <= i64::MAX,
    ensures
        root_told(with_manifest(s, grant_id, root, now), grant_id) == Some(root),
        first(with_manifest(s, grant_id, root, now).grant_manifests, manifest_of(grant_id)) matches Some(
            m,
        ) && m.created_at == now,
        other != grant_id ==> root_told(with_manifest(s, grant_id, root, now), other) == root_told(
            s,
            other,
        ),
        root_told(s, other) is Some <==> exists|m: GrantManifestRowView| #[trigger]
            s.grant_manifests.contains(m) && m.grant_id == other,
        with_manifest(s, grant_id, root, now) == (StoreView {
            grant_manifests: with_manifest(s, grant_id, root, now).grant_manifests,
            ..s
        }),
{
    let row = GrantManifestRowView { grant_id, manifest_root: root, created_at: now as i64 };
    crate::readback::lemma_first_put(
        s.grant_manifests,
        manifest_of(grant_id),
        remanifested(root, wrapped(now)),
        row,
    );
    lemma_found(s.grant_manifests, manifest_of(other));
    if other != grant_id {
        if any(s.grant_manifests, manifest_of(grant_id)) {
            crate::alerts::lemma_other_first(
                s.grant_manifests,
                manifest_of(grant_id),
                remanifested(root, wrapped(now)),
                manifest_of(other),
            );
        } else {
            crate::alerts::lemma_push_first(s.grant_manifests, row, manifest_of(other));
        }
    }
}

// ---------------------------------------------------------------------- tickets
/// The ticket under an id.
pub open spec fn ticket_told(s: StoreView, token_id: Seq<char>) -> Option<FetchTicketView> {
    match first(s.tickets, ticket_is(token_id)) {
        Some(t) => Some(ticket_of()(t)),
        None => None,
    }
}

/// The tickets that have not expired.
pub open spec fn tickets_told(s: StoreView, now: i64) -> Seq<FetchTicketView> {
    s.tickets.filter(unexpired(now)).map_values(ticket_of())
}

/// The store without the tickets that expired before a time.
pub open spec fn without_expired(s: StoreView, before: i64) -> StoreView {
    StoreView { tickets: s.tickets.filter(not_expired_before(before)), ..s }
}

/// Whether a ticket is what its row tells.
pub open spec fn ticket_tells(r: TicketRowView, t: FetchTicketView) -> bool {
    &&& t.token_id == r.token_id && t.grant_id == r.grant_id && t.manifest_root == r.manifest_root
    &&& t.holder == r.holder && t.grant_token_hash == r.grant_token_hash
    &&& r.expires_at >= 0 ==> t.expires_at == r.expires_at
    &&& r.policy_revision >= 0 ==> t.policy_revision == r.policy_revision
    &&& number_told(r.delivered_at, t.delivered_at)
}

/// A ticket is told under its id as it was minted; those told at a time are all that have not
/// expired, and what is pruned are those that expired before a time.
pub proof fn tickets_are_told(s: StoreView, token_id: Seq<char>, now: i64)
    ensures
        ticket_told(s, token_id) is Some <==> exists|r: TicketRowView| #[trigger]
            s.tickets.contains(r) && r.token_id == token_id,
        ticket_told(s, token_id) matches Some(t) ==> exists|r: TicketRowView| #[trigger]
            s.tickets.contains(r) && r.token_id == token_id && ticket_tells(r, t),
        tickets_told(s, now).len() == s.tickets.filter(
            |r: TicketRowView| now < r.expires_at,
        ).len(),
        forall|i: int|
            0 <= i < tickets_told(s, now).len() ==> ticket_tells(
                s.tickets.filter(|r: TicketRowView| now < r.expires_at)[i],
                #[trigger] tickets_told(s, now)[i],
            ),
        forall|r: TicketRowView| #[trigger]
            without_expired(s, now).tickets.contains(r) <==> s.tickets.contains(r) && now
                <= r.expires_at,
        without_expired(s, now) == (StoreView { tickets: without_expired(s, now).tickets, ..s }),
{
    lemma_found(s.tickets, ticket_is(token_id));
    let raw = |r: TicketRowView| now < r.expires_at;
    lemma_counted(s.tickets, unexpired(now), raw);
    lemma_selected(s.tickets, not_expired_before(now));
}

// ------------------------------------------------------------------ connections
/// A tenant's connections.
pub open spec fn connections_told(s: StoreView, tenant: Seq<char>) -> Result<
    Seq<NotificationDestinationView>,
    Seq<char>,
> {
    try_map(
        page(
            sorted_by(s.destinations.filter(destination_in(tenant)), destination_before()),
            0,
            100,
        ),
        destination_of(),
    )
}

/// A connection of a tenant.
pub open spec fn connection_told(s: StoreView, tenant: Seq<char>, id: Seq<char>) -> Result<
    Option<NotificationDestinationView>,
    Seq<char>,
> {
    read_first(first(s.destinations, destination_at(tenant, id)), destination_of())
}

/// When a tenant's connections were last used.
pub open spec fn uses_told(s: StoreView, tenant: Seq<char>) -> Result<Seq<char>, Seq<char>> {
    match try_map(s.destinations.filter(used_in(tenant)), last_use()) {
        Ok(pairs) => Ok(crate::json::json_object(sorted_by(pairs, by_key()))),
        Err(e) => Err(e),
    }
}

/// A connection is told exactly if the tenant has it, as it was saved.
pub proof fn connections_are_told(s: StoreView, tenant: Seq<char>, id: Seq<char>)
    ensures
        (connection_told(s, tenant, id) matches Ok(None)) <==> !exists|d: DestinationRowView|
         #[trigger]
            s.destinations.contains(d) && d.tenant == tenant && d.id == id,
        connection_told(s, tenant, id) matches Ok(Some(c)) ==> exists|d: DestinationRowView|
         #[trigger]
            s.destinations.contains(d) && d.tenant == tenant && d.id == id && d.document == c,
        (forall|d: DestinationRowView| #[trigger]
            s.destinations.contains(d) && d.tenant == tenant && d.id == id ==> d.document_error
                is None) ==> connection_told(s, tenant, id) is Ok,
        connections_told(s, tenant) matches Ok(list) ==> list.len() <= 100,
{
    lemma_found(s.destinations, destination_at(tenant, id));
    let all = sorted_by(s.destinations.filter(destination_in(tenant)), destination_before());
    lemma_paged(all, 0, 100);
    lemma_read(page(all, 0, 100), destination_of());
}

/// What is told of a connection's last use is when it was and whether it was delivered.
pub proof fn uses_tell_what_came_of_them(d: DestinationRowView)
    requires
        d.last_at is Some,
    ensures
        last_use()(d) is Ok <==> d.last_delivered is Some,
        last_use()(d) matches Ok(x) ==> x.0 == d.id && x.1 == crate::json::json_object(
            seq![
                ("at"@, crate::decimal::signed_decimal(d.last_at->0 as int)),
                (
                    "delivered"@,
                    if d.last_delivered->0 {
                        "true"@
                    } else {
                        "false"@
                    },
                ),
            ],
        ),
{
}

// ------------------------------------------------------------------- identities
/// A principal by its subject.
pub open spec fn principal_told(s: StoreView, subject: Seq<char>) -> Result<
    Option<PrincipalView>,
    Seq<char>,
> {
    read_first(first(s.principals, principal_is(subject)), principal_of())
}

/// A principal by the id that it has elsewhere.
pub open spec fn principal_under(s: StoreView, external_id: Seq<char>) -> Result<
    Option<PrincipalView>,
    Seq<char>,
> {
    let found = sorted_by(s.principals.filter(external_is(external_id)), by_subject());
    read_first(
        if found.len() > 0 {
            Some(found[0])
        } else {
            None
        },
        principal_of(),
    )
}

/// Whether a principal is what its row tells.
pub open spec fn principal_tells(r: PrincipalRowView, p: PrincipalView) -> bool {
    &&& p.subject == r.subject && p.blocked == r.blocked && p.source == r.source && p.external_id
        == r.external_id && p.last_groups == r.last_groups
    &&& r.credential_version >= 0 ==> p.credential_version == r.credential_version
    &&& r.last_login_at >= 0 ==> p.last_login_at == r.last_login_at
    &&& r.created_at >= 0 ==> p.created_at == r.created_at
}

/// A principal is told under its subject, and under the id it has elsewhere; none is exactly
/// if no principal has it.
pub proof fn principals_are_told(s: StoreView, subject: Seq<char>, external_id: Seq<char>)
    ensures
        (principal_told(s, subject) matches Ok(None)) <==> !exists|r: PrincipalRowView| #[trigger]
            s.principals.contains(r) && r.subject == subject,
        principal_told(s, subject) matches Ok(Some(p)) ==> p.subject == subject && exists|
            r: PrincipalRowView,
        | #[trigger] s.principals.contains(r) && principal_tells(r, p),
        (principal_under(s, external_id) matches Ok(None)) <==> !exists|r: PrincipalRowView|
         #[trigger]
            s.principals.contains(r) && r.external_id == Some(external_id),
        principal_under(s, external_id) matches Ok(Some(p)) ==> p.external_id == Some(external_id)
            && exists|r: PrincipalRowView| #[trigger]
            s.principals.contains(r) && principal_tells(r, p),
{
    lemma_found(s.principals, principal_is(subject));
    let own = s.principals.filter(external_is(external_id));
    let found = sorted_by(own, by_subject());
    lemma_selected(s.principals, external_is(external_id));
    lemma_ordered(own, by_subject());
    if found.len() > 0 {
        assert(found.contains(found[0]));
        assert(own.contains(found[0]));
    }
    if exists|r: PrincipalRowView| #[trigger]
        s.principals.contains(r) && r.external_id == Some(external_id) {
        let r = choose|r: PrincipalRowView| #[trigger]
            s.principals.contains(r) && r.external_id == Some(external_id);
        assert(own.contains(r));
        assert(found.contains(r));
    }
}

/// A group by its id.
pub open spec fn group_told(s: StoreView, id: Seq<char>) -> Option<ScimGroupView> {
    group_shown(s, first(s.groups, group_is(id)))
}

/// A group by its name.
pub open spec fn group_under_name(s: StoreView, name: Seq<char>) -> Option<ScimGroupView> {
    group_shown(s, head(sorted_by(s.groups.filter(group_named(name)), by_name())))
}

/// A group by the id that it has elsewhere.
pub open spec fn group_under(s: StoreView, external_id: Seq<char>) -> Option<ScimGroupView> {
    group_shown(s, head(sorted_by(s.groups.filter(group_external(external_id)), by_name())))
}

/// Whether a group is what its row tells.
pub open spec fn group_tells(r: ScimGroupRowView, g: ScimGroupView) -> bool {
    g.id == r.id && g.display_name == r.display_name && g.external_id == r.external_id && (
    r.created_at >= 0 ==> g.created_at == r.created_at)
}

/// A group is told under its id, its name and the id it has elsewhere; none is exactly if no
/// group has it.
pub proof fn groups_are_told(s: StoreView, id: Seq<char>, name: Seq<char>, external_id: Seq<char>)
    ensures
        group_told(s, id) is Some <==> exists|r: ScimGroupRowView| #[trigger]
            s.groups.contains(r) && r.id == id,
        group_told(s, id) matches Some(g) ==> exists|r: ScimGroupRowView| #[trigger]
            s.groups.contains(r) && r.id == id && group_tells(r, g),
        group_under_name(s, name) is Some <==> exists|r: ScimGroupRowView| #[trigger]
            s.groups.contains(r) && r.display_name == name,
        group_under_name(s, name) matches Some(g) ==> exists|r: ScimGroupRowView| #[trigger]
            s.groups.contains(r) && r.display_name == name && group_tells(r, g),
        group_under(s, external_id) is Some <==> exists|r: ScimGroupRowView| #[trigger]
            s.groups.contains(r) && r.external_id == Some(external_id),
        group_under(s, external_id) matches Some(g) ==> exists|r: ScimGroupRowView| #[trigger]
            s.groups.contains(r) && r.external_id == Some(external_id) && group_tells(r, g),
{
    lemma_found(s.groups, group_is(id));
    lemma_head(s.groups, group_named(name));
    lemma_head(s.groups, group_external(external_id));
}

proof fn lemma_head(groups: Seq<ScimGroupRowView>, p: spec_fn(ScimGroupRowView) -> bool)
    ensures
        ({
            let h = head(sorted_by(groups.filter(p), by_name()));
            &&& h is Some <==> exists|r: ScimGroupRowView| #[trigger] groups.contains(r) && p(r)
            &&& h matches Some(r) ==> groups.contains(r) && p(r)
        }),
{
    let own = groups.filter(p);
    let all = sorted_by(own, by_name());
    lemma_selected(groups, p);
    lemma_ordered(own, by_name());
    if all.len() > 0 {
        assert(all.contains(all[0]));
        assert(own.contains(all[0]));
    }
    if exists|r: ScimGroupRowView| #[trigger] groups.contains(r) && p(r) {
        let r = choose|r: ScimGroupRowView| #[trigger] groups.contains(r) && p(r);
        assert(own.contains(r));
        assert(all.contains(r));
    }
}

// --------------------------------------------------------------------- settings
/// The hash of the administrator's password.
pub open spec fn password_told(s: StoreView) -> Option<Seq<char>> {
    match first(s.meta, meta_is("admin_password_hash"@)) {
        Some(m) => Some(m.value),
        None => None,
    }
}

/// The store with the hash of the administrator's password set.
pub open spec fn with_password(s: StoreView, hash: Seq<char>) -> StoreView {
    StoreView {
        meta: if any(s.meta, meta_is("admin_password_hash"@)) {
            updated(s.meta, meta_is("admin_password_hash"@), meta_set(hash))
        } else {
            s.meta.push(MetaRowView { key: "admin_password_hash"@, value: hash })
        },
        ..s
    }
}

/// The password is the one that was set last; nothing else that is kept beside it changes.
pub proof fn passwords_are_set(s: StoreView, hash: Seq<char>, other: Seq<char>)
    ensures
        password_told(with_password(s, hash)) == Some(hash),
        password_told(s) is Some <==> exists|m: MetaRowView| #[trigger]
            s.meta.contains(m) && m.key == "admin_password_hash"@,
        other != "admin_password_hash"@ ==> first(with_password(s, hash).meta, meta_is(other))
            == first(s.meta, meta_is(other)),
        with_password(s, hash) == (StoreView { meta: with_password(s, hash).meta, ..s }),
{
    let key = "admin_password_hash"@;
    let row = MetaRowView { key, value: hash };
    crate::readback::lemma_first_put(s.meta, meta_is(key), meta_set(hash), row);
    lemma_found(s.meta, meta_is(key));
    if other != key {
        if any(s.meta, meta_is(key)) {
            crate::alerts::lemma_other_first(s.meta, meta_is(key), meta_set(hash), meta_is(other));
        } else {
            crate::alerts::lemma_push_first(s.meta, row, meta_is(other));
        }
    }
}

// ---------------------------------------------------------------------- tenants
/// A tenant taken in, unless there is one alike.
pub open spec fn with_tenant(s: StoreView, t: TenantView, incarnation: Seq<char>) -> Option<StoreView> {
    if any(s.tenants, tenant_alike(t.key)) {
        None
    } else {
        Some(StoreView { tenants: s.tenants.push(tenant_row(t, incarnation)), ..s })
    }
}

/// A tenant by its key.
pub open spec fn tenant_told(s: StoreView, key: Seq<char>) -> Result<Option<TenantView>, Seq<char>> {
    read_first(first(s.tenants, tenant_is(key)), tenant_of())
}

/// The branding of a tenant.
pub open spec fn branding_told(s: StoreView, tenant: Seq<char>) -> Option<BrandingView> {
    match first(s.branding, branding_of(tenant)) {
        Some(b) => Some(branding_read(b)),
        None => None,
    }
}

/// A tenant that is taken in comes behind the others and changes nothing else; a tenant and its
/// branding are told under its key, and absent exactly if there are none.
pub proof fn tenants_and_brandings_are_told(
    s: StoreView,
    t: TenantView,
    incarnation: Seq<char>,
    key: Seq<char>,
)
    ensures
        with_tenant(s, t, incarnation) matches Some(after) ==> after.tenants.len()
            == s.tenants.len() + 1 && after.tenants.drop_last() == s.tenants
            && after.tenants.last().key == t.key && after.tenants.last().incarnation == incarnation
            && after == (StoreView { tenants: after.tenants, ..s }),
        with_tenant(s, t, incarnation) is None <==> exists|o: TenantRowView| #[trigger]
            s.tenants.contains(o) && crate::text::lowercase(o.key) == crate::text::lowercase(t.key),
        (tenant_told(s, key) matches Ok(None)) <==> !exists|o: TenantRowView| #[trigger]
            s.tenants.contains(o) && o.key == key,
        tenant_told(s, key) matches Ok(Some(x)) ==> x.key == key && exists|o: TenantRowView|
         #[trigger]
            s.tenants.contains(o) && o.key == key && x.incarnation == o.incarnation && x.label
                == o.label && x.admin_group == o.admin_group,
        branding_told(s, key) is Some <==> exists|b: BrandingRowView| #[trigger]
            s.branding.contains(b) && b.tenant == key,
        branding_told(s, key) matches Some(x) ==> x.tenant == key,
{
    lemma_found(s.tenants, tenant_alike(t.key));
    lemma_found(s.tenants, tenant_is(key));
    lemma_found(s.branding, branding_of(key));
    if let Some(after) = with_tenant(s, t, incarnation) {
        assert(after.tenants.drop_last() =~= s.tenants);
    }
}

// ------------------------------------------------------------------------ walks
/// The stored paths that may hold an object.
pub open spec fn candidates_told(
    s: StoreView,
    tenant: Seq<char>,
    link_id: Seq<char>,
    suite: Seq<char>,
    object: ObjectIdView,
    after: Seq<char>,
) -> Seq<(Seq<char>, bool)> {
    page(
        sorted_by(s.files.filter(candidate(tenant, link_id, suite, object, after)), by_path()),
        0,
        DELIVERED_CANDIDATE_PAGE as int,
    ).map_values(path_and_receipt())
}

/// The links that retention walks behind an id.
pub open spec fn links_walked(s: StoreView, after: Option<Seq<char>>, limit: usize) -> Seq<
    (Seq<char>, Seq<char>),
> {
    page(sorted_by(s.links.filter(link_after(after)), by_id()), 0, limit as int).map_values(
        tenant_and_id(),
    )
}

/// Whether a tenant has a link.
pub open spec fn is_link(s: StoreView, link: (Seq<char>, Seq<char>)) -> bool {
    exists|l: LinkRowView| #[trigger] s.links.contains(l) && link == (l.tenant, l.id)
}

/// Walks go on behind where they were, in order: paths that were told come one after the other
/// and behind the one asked for, and so do the ids of links; as many come as fit.
pub proof fn walks_go_in_order(
    s: StoreView,
    tenant: Seq<char>,
    link_id: Seq<char>,
    suite: Seq<char>,
    object: ObjectIdView,
    after: Seq<char>,
    behind: Option<Seq<char>>,
    limit: usize,
)
    ensures
        ({
            let list = candidates_told(s, tenant, link_id, suite, object, after);
            &&& list.len() <= 128
            &&& forall|i: int| 0 <= i < list.len() ==> text_lt(after, (#[trigger] list[i]).0)
            &&& forall|i: int|
                0 < i < list.len() ==> !text_lt((#[trigger] list[i]).0, list[i - 1].0)
        }),
        ({
            let list = links_walked(s, behind, limit);
            let all = s.links.filter(
                |l: LinkRowView| behind is None || text_lt(behind->0, l.id),
            ).len();
            &&& list.len() == if all <= limit {
                all as int
            } else {
                limit as int
            }
            &&& forall|i: int| 0 <= i < list.len() ==> is_link(s, #[trigger] list[i])
            &&& forall|i: int|
                0 < i < list.len() ==> !text_lt((#[trigger] list[i]).1, list[i - 1].1)
        }),
{
    let own = candidate(tenant, link_id, suite, object, after);
    let files = s.files.filter(own);
    let all = sorted_by(files, by_path());
    lemma_selected(s.files, own);
    lemma_ordered(files, by_path());
    lemma_paged(all, 0, 128);
    assert forall|a: FileRowView, b: FileRowView| #[trigger] by_path()(a, b) implies !by_path()(
        b,
        a,
    ) by {
        crate::text::text_order_is_total(a.stored_as, b.stored_as);
    }
    crate::table::lemma_sorted_ordered(files, by_path());
    let shown = page(all, 0, 128);
    let list = candidates_told(s, tenant, link_id, suite, object, after);
    assert forall|i: int| 0 <= i < list.len() implies text_lt(after, (#[trigger] list[i]).0) by {
        assert(shown[i] == all[0 + i]);
        assert(all.contains(all[i]));
        assert(files.contains(all[i]));
    }
    assert forall|i: int| 0 < i < list.len() implies !text_lt((#[trigger] list[i]).0, list[i - 1].0) by {
        assert(shown[i] == all[0 + i]);
        assert(shown[i - 1] == all[0 + (i - 1)]);
        assert(!by_path()(all[i], all[i - 1]));
    }
    let mine = link_after(behind);
    let raw = |l: LinkRowView| behind is None || text_lt(behind->0, l.id);
    lemma_counted(s.links, mine, raw);
    let links = s.links.filter(mine);
    let ordered = sorted_by(links, by_id());
    lemma_selected(s.links, mine);
    lemma_ordered(links, by_id());
    lemma_paged(ordered, 0, limit as int);
    assert forall|a: LinkRowView, b: LinkRowView| #[trigger] by_id()(a, b) implies !by_id()(b, a) by {
        crate::text::text_order_is_total(a.id, b.id);
    }
    crate::table::lemma_sorted_ordered(links, by_id());
    let part = page(ordered, 0, limit as int);
    let walked = links_walked(s, behind, limit);
    assert forall|i: int| 0 <= i < walked.len() implies is_link(s, #[trigger] walked[i]) by {
        assert(part[i] == ordered[0 + i]);
        assert(ordered.contains(ordered[i]));
        assert(links.contains(ordered[i]));
        assert(s.links.contains(ordered[i]));
    }
    assert forall|i: int| 0 < i < walked.len() implies !text_lt(
        (#[trigger] walked[i]).1,
        walked[i - 1].1,
    ) by {
        assert(part[i] == ordered[0 + i]);
        assert(part[i - 1] == ordered[0 + (i - 1)]);
        assert(!by_id()(ordered[i], ordered[i - 1]));
    }
}

/// The store with checkpoints taken of a session's files.
pub open spec fn with_checkpoints(s: StoreView, id: Seq<char>, progress: Seq<Progress>) -> Result<
    (StoreView, ()),
    Seq<char>,
> {
    match checkpointed(s.session_files, id, progress) {
        Err(e) => Err(e),
        Ok(session_files) => Ok((StoreView { session_files, ..s }, ())),
    }
}

/// Checkpoints change the files of sessions and nothing else, as they are taken one by one;
/// without any nothing changes.
pub proof fn checkpoints_change_files_only(s: StoreView, id: Seq<char>, progress: Seq<Progress>)
    ensures
        with_checkpoints(s, id, progress) matches Ok((after, _)) ==> after == (StoreView {
            session_files: after.session_files,
            ..s
        }) && checkpointed(s.session_files, id, progress) == Ok::<
            Seq<crate::rows::SessionFileRowView>,
            Seq<char>,
        >(after.session_files),
        with_checkpoints(s, id, progress) is Ok <==> checkpointed(s.session_files, id, progress)
            is Ok,
        progress.len() == 0 ==> with_checkpoints(s, id, progress) == Ok::<
            (StoreView, ()),
            Seq<char>,
        >((s, ())),
{
}

/// Whether one object comes no later than another: by suite, then by root, then by length.
pub open spec fn no_later(a: (Seq<char>, Seq<char>, u64), b: (Seq<char>, Seq<char>, u64)) -> bool {
    text_lt(a.0, b.0) || (a.0 == b.0 && (text_lt(a.1, b.1) || (a.1 == b.1 && a.2 <= b.2)))
}

/// Objects of whole limbs come in the order of their suite, root and length.
pub proof fn objects_are_ordered_by_suite_root_and_length(
    a: (Seq<char>, Seq<char>, i64, i64),
    b: (Seq<char>, Seq<char>, i64, i64),
)
    requires
        0 <= a.2 < 0x1_0000_0000,
        0 <= a.3 < 0x1_0000_0000,
        0 <= b.2 < 0x1_0000_0000,
        0 <= b.3 < 0x1_0000_0000,
    ensures
        !object_lt()(b, a) ==> no_later(
            crate::lifecycle::whole_object()(a),
            crate::lifecycle::whole_object()(b),
        ),
        object_lt()(a, b) ==> no_later(
            crate::lifecycle::whole_object()(a),
            crate::lifecycle::whole_object()(b),
        ) && crate::lifecycle::whole_object()(a) != crate::lifecycle::whole_object()(b),
{
    crate::text::text_order_is_total(a.0, b.0);
    crate::text::text_order_is_total(a.1, b.1);
}

/// The files that a tenant stores, each with its length.
pub open spec fn live_files_told(s: StoreView, tenant: Seq<char>) -> Result<
    Seq<(Seq<char>, u64)>,
    Seq<char>,
> {
    match stored_files(s.files, live_in(tenant)) {
        Err(e) => Err(e),
        Ok(leading) => Ok(leading.map_values(path_and_length())),
    }
}

/// The files that are told of a tenant are those it stores, each under the path it is stored at
/// and with the length that its record tells.
pub proof fn stored_files_are_told_with_their_length(s: StoreView, tenant: Seq<char>)
    ensures
        live_files_told(s, tenant) is Ok <==> stored_files(s.files, live_in(tenant)) is Ok,
        live_files_told(s, tenant) matches Ok(list) ==> {
            let rows = stored_files(s.files, live_in(tenant))->Ok_0;
            &&& list.len() == rows.len()
            &&& forall|i: int|
                0 <= i < list.len() ==> (#[trigger] list[i]).0 == rows[i].stored_as && (0
                    <= rows[i].bytes_hi < 0x1_0000_0000 && 0 <= rows[i].bytes_lo < 0x1_0000_0000
                    ==> list[i].1 == rows[i].bytes_hi * 0x1_0000_0000 + rows[i].bytes_lo)
        },
{
}

// ----------------------------------------------------------------------- search
/// What a search finds comes with the latest first: requests and downloads by when they were
/// made, files by when their upload was completed.
pub proof fn searches_show_the_latest_first(
    s: StoreView,
    tenant: Seq<char>,
    query: Seq<char>,
    limit: u64,
)
    ensures
        found(s, tenant, query, limit) matches Ok(r) ==> {
            &&& forall|i: int|
                0 < i < r.requests.len() ==> r.requests[i - 1].created_at >= (
                #[trigger] r.requests[i]).created_at
            &&& forall|i: int|
                0 < i < r.downloads.len() ==> r.downloads[i - 1].created_at >= (
                #[trigger] r.downloads[i]).created_at
            &&& forall|i: int|
                0 < i < r.files.len() ==> r.files[i - 1].completed_at >= (
                #[trigger] r.files[i]).completed_at
        },
{
    if let Ok(r) = found(s, tenant, query, limit) {
        let n = row_limit(limit);
        let pattern = needle(query);
        let requests = s.links.filter(crate::search::request_found(tenant, pattern));
        let all = sorted_by(requests, newer_request());
        crate::table::lemma_sorted_ordered(requests, newer_request());
        lemma_paged(all, 0, n);
        assert forall|i: int| 0 < i < r.requests.len() implies r.requests[i - 1].created_at >= (
        #[trigger] r.requests[i]).created_at by {
            let shown = page(all, 0, n);
            assert(shown[i] == all[0 + i] && shown[i - 1] == all[0 + (i - 1)]);
            assert(!newer_request()(all[i], all[i - 1]));
        }
        let downloads = s.grants.filter(crate::search::download_found(tenant, pattern));
        let ordered = sorted_by(downloads, newer_download());
        crate::table::lemma_sorted_ordered(downloads, newer_download());
        lemma_paged(ordered, 0, n);
        assert forall|i: int| 0 < i < r.downloads.len() implies r.downloads[i - 1].created_at >= (
        #[trigger] r.downloads[i]).created_at by {
            let shown = page(ordered, 0, n);
            assert(shown[i] == ordered[0 + i] && shown[i - 1] == ordered[0 + (i - 1)]);
            assert(!newer_download()(ordered[i], ordered[i - 1]));
        }
        lemma_files_latest(s, tenant, pattern, n);
    }
}

proof fn lemma_files_latest(s: StoreView, tenant: Seq<char>, pattern: Seq<char>, n: int)
    requires
        0 <= n,
    ensures
        files_found(s, tenant, pattern, n) matches Ok(files) ==> forall|i: int|
            0 < i < files.len() ==> files[i - 1].completed_at >= (#[trigger] files[i]).completed_at,
{
    let rows = s.files.filter(crate::search::file_found(s, tenant, pattern)).map_values(
        in_context(s, tenant),
    );
    let all = sorted_by(rows, later_upload());
    assert forall|
        a: (FileRowView, crate::rows::UploadRowView, LinkRowView),
        b: (FileRowView, crate::rows::UploadRowView, LinkRowView),
    | #[trigger] later_upload()(a, b) implies !later_upload()(b, a) by {
        lemma_completions(completion(a.1), completion(b.1));
    }
    crate::table::lemma_sorted_ordered(rows, later_upload());
    lemma_paged(all, 0, n);
    let shown = page(all, 0, n);
    lemma_read(shown, file_shown());
    if let Ok(files) = files_found(s, tenant, pattern, n) {
        assert forall|i: int| 0 < i < files.len() implies files[i - 1].completed_at >= (
        #[trigger] files[i]).completed_at by {
            assert(shown[i] == all[0 + i] && shown[i - 1] == all[0 + (i - 1)]);
            assert(!later_upload()(all[i], all[i - 1]));
            assert(file_shown()(shown[i]) == Ok::<crate::records::SearchFileView, Seq<char>>(
                files[i],
            ));
            assert(file_shown()(shown[i - 1]) == Ok::<crate::records::SearchFileView, Seq<char>>(
                files[i - 1],
            ));
        }
    }
}

proof fn lemma_completions(a: crate::search::Completion, b: crate::search::Completion)
    ensures
        comes_after(a, b) ==> !comes_after(b, a),
{
    if let (crate::search::Completion::Text(x), crate::search::Completion::Text(y)) = (a, b) {
        crate::text::text_order_is_total(x, y);
    }
}

} // verus!
