//! Tenants are kept apart: each reads its own, and one's removal leaves every other
//! as it was.
use vstd::prelude::*;

use crate::accounting::lemma_filter_twice;
use crate::automation::{older_token, token_in, token_of};
use crate::evidence::event_until;
use crate::grants::{full_of, grant_in, older_grant, read_first};
use crate::links::{
    cut, full_link, links_listed, listed_link, newer_link, one_more, page_shown, policy_of,
    tenant_is,
};
use crate::notifications::{defaults_of, destination_in};
use crate::quota::quota_is;
use crate::records::{LinkCursorView, UploadRecordView};
use crate::rows::{
    AutomationTokenRowView, DigestRowView, EvidenceRowView, FileRowView, GrantFileRowView,
    GrantRowView, InboundRouteRowView, JobRowView, OperationRowView, OutboundRouteRowView,
    OverrideRowView, SessionFileRowView, SessionRowView, TradeEndpointRowView,
    TradeInvitationRowView, TradeRouteRowView, UploadRowView,
};
use crate::store::StoreView;
use crate::table::{
    any, first, lemma_filter_any_of, lemma_first_found, lemma_sorted_multiset, page, sorted_by,
    try_map,
};
use crate::tenants::{
    branding_of, branding_of_others, cache_elsewhere, defaults_elsewhere, destination_elsewhere,
    digest_elsewhere, endpoint_elsewhere, event_elsewhere, evidence_elsewhere, file_elsewhere,
    grant_elsewhere, grant_file_elsewhere, grant_named, inbound_elsewhere, inbound_named,
    inbound_part_elsewhere, invitation_elsewhere, job_elsewhere, job_named, operation_elsewhere,
    other_tenant, outbound_elsewhere, outgoing_named, override_elsewhere, quota_elsewhere, removed,
    rotation_elsewhere, session_elsewhere, session_file_elsewhere, session_named, storage_elsewhere,
    text_elsewhere, token_elsewhere, token_named, trade_route_elsewhere, trade_route_named,
    upload_elsewhere, without_tenant,
};
use crate::uploads::{link_is, upload_read};

verus! {

/// The files of a tenant.
pub open spec fn file_in(tenant: Seq<char>) -> spec_fn(FileRowView) -> bool {
    |f: FileRowView| f.tenant == tenant
}

/// The uploads of a tenant.
pub open spec fn upload_in(tenant: Seq<char>) -> spec_fn(UploadRowView) -> bool {
    |u: UploadRowView| u.tenant == tenant
}

/// The sessions of a tenant.
pub open spec fn session_in(tenant: Seq<char>) -> spec_fn(SessionRowView) -> bool {
    |s: SessionRowView| s.tenant == tenant
}

/// The jobs of a tenant.
pub open spec fn tenant_job(tenant: Seq<char>) -> spec_fn(JobRowView) -> bool {
    |j: JobRowView| j.tenant == tenant
}

/// The files of a tenant's sessions.
pub open spec fn session_file_in(sessions: Seq<SessionRowView>, tenant: Seq<char>) -> spec_fn(
    SessionFileRowView,
) -> bool {
    |f: SessionFileRowView| any(sessions, session_named(tenant, f.session_id))
}

/// The files of a tenant's grants.
pub open spec fn grant_file_in(grants: Seq<GrantRowView>, tenant: Seq<char>) -> spec_fn(
    GrantFileRowView,
) -> bool {
    |f: GrantFileRowView| any(grants, grant_named(tenant, f.grant_id))
}

/// The digests of a tenant's grants.
pub open spec fn digest_in(grants: Seq<GrantRowView>, tenant: Seq<char>) -> spec_fn(
    DigestRowView,
) -> bool {
    |d: DigestRowView| any(grants, grant_named(tenant, d.grant_id))
}

/// The reports on a tenant's grants.
pub open spec fn evidence_in(grants: Seq<GrantRowView>, tenant: Seq<char>) -> spec_fn(
    EvidenceRowView,
) -> bool {
    |e: EvidenceRowView| any(grants, grant_named(tenant, e.grant_id))
}

/// What is kept under the id of a tenant's grant.
pub open spec fn under_grant(grants: Seq<GrantRowView>, tenant: Seq<char>) -> spec_fn(
    Seq<char>,
) -> bool {
    |id: Seq<char>| any(grants, grant_named(tenant, id))
}

/// The operations of a tenant's tokens.
pub open spec fn operation_in(tokens: Seq<AutomationTokenRowView>, tenant: Seq<char>) -> spec_fn(
    OperationRowView,
) -> bool {
    |o: OperationRowView| any(tokens, token_named(tenant, o.token_id))
}

/// The routes by which a tenant's jobs deliver.
pub open spec fn outbound_in(jobs: Seq<JobRowView>, tenant: Seq<char>) -> spec_fn(
    OutboundRouteRowView,
) -> bool {
    |r: OutboundRouteRowView| any(jobs, job_named(tenant, r.job_id))
}

/// The notifications set for a tenant's jobs.
pub open spec fn override_in(jobs: Seq<JobRowView>, tenant: Seq<char>) -> spec_fn(
    OverrideRowView,
) -> bool {
    |o: OverrideRowView| any(jobs, job_named(tenant, o.job_id))
}

/// What is kept under the id of a tenant's trade route.
pub open spec fn under_trade_route(routes: Seq<TradeRouteRowView>, tenant: Seq<char>) -> spec_fn(
    Seq<char>,
) -> bool {
    |id: Seq<char>| any(routes, trade_route_named(tenant, id))
}

/// What is kept under the id of a tenant's inbound route.
pub open spec fn under_inbound_route(
    routes: Seq<InboundRouteRowView>,
    tenant: Seq<char>,
) -> spec_fn(Seq<char>) -> bool {
    |id: Seq<char>| any(routes, inbound_named(tenant, id))
}

/// The inbound routes of a tenant.
pub open spec fn inbound_in(tenant: Seq<char>) -> spec_fn(InboundRouteRowView) -> bool {
    |r: InboundRouteRowView| r.tenant == tenant
}

/// The trade routes of a tenant.
pub open spec fn trade_route_in(tenant: Seq<char>) -> spec_fn(TradeRouteRowView) -> bool {
    |r: TradeRouteRowView| r.tenant == tenant
}

/// The invitations of a tenant.
pub open spec fn invitation_in(tenant: Seq<char>) -> spec_fn(TradeInvitationRowView) -> bool {
    |i: TradeInvitationRowView| i.tenant == tenant
}

/// The endpoints of a tenant.
pub open spec fn endpoint_in(tenant: Seq<char>) -> spec_fn(TradeEndpointRowView) -> bool {
    |e: TradeEndpointRowView| e.tenant == tenant
}

/// A tenant's own key.
pub open spec fn own_key(tenant: Seq<char>) -> spec_fn(Seq<char>) -> bool {
    |key: Seq<char>| key == tenant
}

/// Whether what belongs to a row under an id belongs to one tenant alone: no id of a
/// session, grant, job, token or route is used by two tenants.
pub open spec fn owners_apart(s: StoreView, a: Seq<char>, b: Seq<char>) -> bool {
    forall|id: Seq<char>|
        {
            &&& !(any(s.sessions, #[trigger] session_named(a, id)) && any(
                s.sessions,
                session_named(b, id),
            ))
            &&& !(any(s.grants, grant_named(a, id)) && any(s.grants, grant_named(b, id)))
            &&& !(any(s.jobs, job_named(a, id)) && any(s.jobs, job_named(b, id)))
            &&& !(any(s.tokens, token_named(a, id)) && any(s.tokens, token_named(b, id)))
            &&& !(any(s.trade_routes, trade_route_named(a, id)) && any(
                s.trade_routes,
                trade_route_named(b, id),
            ))
            &&& !(any(s.inbound_routes, inbound_named(a, id)) && any(
                s.inbound_routes,
                inbound_named(b, id),
            ))
        }
}

/// What two stores hold of a tenant is the same. Rows that belong to others by an id
/// are told by the tables of `s`.
pub open spec fn same_for(a: StoreView, b: StoreView, s: StoreView, tenant: Seq<char>) -> bool {
    &&& a.links == b.links
    &&& a.tenants.filter(tenant_is(tenant)) == b.tenants.filter(tenant_is(tenant))
    &&& a.branding.filter(branding_of(tenant)) == b.branding.filter(branding_of(tenant))
    &&& a.files.filter(file_in(tenant)) == b.files.filter(file_in(tenant))
    &&& a.quotas.filter(quota_is(tenant)) == b.quotas.filter(quota_is(tenant))
    &&& a.uploads.filter(upload_in(tenant)) == b.uploads.filter(upload_in(tenant))
    &&& a.sessions.filter(session_in(tenant)) == b.sessions.filter(session_in(tenant))
    &&& a.session_files.filter(session_file_in(s.sessions, tenant)) == b.session_files.filter(
        session_file_in(s.sessions, tenant),
    )
    &&& a.jobs.filter(tenant_job(tenant)) == b.jobs.filter(tenant_job(tenant))
    &&& a.notification_overrides.filter(override_in(s.jobs, tenant))
        == b.notification_overrides.filter(override_in(s.jobs, tenant))
    &&& a.outbound_routes.filter(outbound_in(s.jobs, tenant)) == b.outbound_routes.filter(
        outbound_in(s.jobs, tenant),
    )
    &&& a.grants.filter(grant_in(tenant)) == b.grants.filter(grant_in(tenant))
    &&& a.grant_files.filter(grant_file_in(s.grants, tenant)) == b.grant_files.filter(
        grant_file_in(s.grants, tenant),
    )
    &&& a.grant_manifests == b.grant_manifests
    &&& a.tickets == b.tickets
    &&& a.digests.filter(digest_in(s.grants, tenant)) == b.digests.filter(
        digest_in(s.grants, tenant),
    )
    &&& a.evidence.filter(evidence_in(s.grants, tenant)) == b.evidence.filter(
        evidence_in(s.grants, tenant),
    )
    &&& a.policy_cache.filter(under_grant(s.grants, tenant)) == b.policy_cache.filter(
        under_grant(s.grants, tenant),
    )
    &&& a.tokens.filter(token_in(tenant)) == b.tokens.filter(token_in(tenant))
    &&& a.operations.filter(operation_in(s.tokens, tenant)) == b.operations.filter(
        operation_in(s.tokens, tenant),
    )
    &&& a.destinations.filter(destination_in(tenant)) == b.destinations.filter(
        destination_in(tenant),
    )
    &&& a.notification_defaults.filter(defaults_of(tenant)) == b.notification_defaults.filter(
        defaults_of(tenant),
    )
    &&& a.events.filter(event_until(tenant, i64::MAX)) == b.events.filter(
        event_until(tenant, i64::MAX),
    )
    &&& same_trade_for(a, b, s, tenant)
}

/// What two stores hold of a tenant's trade, projects and webhooks is the same.
pub open spec fn same_trade_for(
    a: StoreView,
    b: StoreView,
    s: StoreView,
    tenant: Seq<char>,
) -> bool {
    &&& a.trade_routes.filter(trade_route_in(tenant)) == b.trade_routes.filter(
        trade_route_in(tenant),
    )
    &&& a.trade_invitations.filter(invitation_in(tenant)) == b.trade_invitations.filter(
        invitation_in(tenant),
    )
    &&& a.trade_endpoints.filter(endpoint_in(tenant)) == b.trade_endpoints.filter(
        endpoint_in(tenant),
    )
    &&& a.inbound_routes.filter(inbound_in(tenant)) == b.inbound_routes.filter(inbound_in(tenant))
    &&& a.trade_rotations.filter(under_trade_route(s.trade_routes, tenant))
        == b.trade_rotations.filter(under_trade_route(s.trade_routes, tenant))
    &&& a.storage_credentials.filter(under_trade_route(s.trade_routes, tenant))
        == b.storage_credentials.filter(under_trade_route(s.trade_routes, tenant))
    &&& a.delivery_storage.filter(under_trade_route(s.trade_routes, tenant))
        == b.delivery_storage.filter(under_trade_route(s.trade_routes, tenant))
    &&& a.trade_delivery_policies.filter(under_inbound_route(s.inbound_routes, tenant))
        == b.trade_delivery_policies.filter(under_inbound_route(s.inbound_routes, tenant))
    &&& a.route_uploads.filter(under_inbound_route(s.inbound_routes, tenant))
        == b.route_uploads.filter(under_inbound_route(s.inbound_routes, tenant))
    &&& a.projects.filter(own_key(tenant)) == b.projects.filter(own_key(tenant))
    &&& a.webhooks.filter(own_key(tenant)) == b.webhooks.filter(own_key(tenant))
    &&& a.webhook_attempts.filter(own_key(tenant)) == b.webhook_attempts.filter(own_key(tenant))
}

proof fn lemma_trade_spared(s: StoreView, key: Seq<char>, other: Seq<char>)
    requires
        other != key,
        owners_apart(s, other, key),
    ensures
        same_trade_for(without_tenant(s, key), s, s, other),
{
    assert forall|id: Seq<char>| #[trigger] under_trade_route(s.trade_routes, other)(
        id,
    ) implies rotation_elsewhere(s.trade_routes, key)(id) && storage_elsewhere(
        s.trade_routes,
        key,
    )(id) by {
        assert(session_named(other, id) == session_named(other, id));
        if any(s.trade_routes, outgoing_named(key, id)) {
            let i = choose|i: int|
                0 <= i < s.trade_routes.len() && outgoing_named(key, id)(
                    #[trigger] s.trade_routes[i],
                );
            assert(trade_route_named(key, id)(s.trade_routes[i]));
        }
    }
    assert forall|id: Seq<char>| #[trigger] under_inbound_route(s.inbound_routes, other)(
        id,
    ) implies inbound_part_elsewhere(s.inbound_routes, key)(id) by {
        assert(session_named(other, id) == session_named(other, id));
    }
    lemma_filter_twice(s.trade_routes, trade_route_elsewhere(key), trade_route_in(other));
    lemma_filter_twice(s.trade_invitations, invitation_elsewhere(key), invitation_in(other));
    lemma_filter_twice(s.trade_endpoints, endpoint_elsewhere(key), endpoint_in(other));
    lemma_filter_twice(s.inbound_routes, inbound_elsewhere(key), inbound_in(other));
    let by_trade = under_trade_route(s.trade_routes, other);
    let by_route = under_inbound_route(s.inbound_routes, other);
    lemma_filter_twice(s.trade_rotations, rotation_elsewhere(s.trade_routes, key), by_trade);
    lemma_filter_twice(s.storage_credentials, storage_elsewhere(s.trade_routes, key), by_trade);
    lemma_filter_twice(s.delivery_storage, storage_elsewhere(s.trade_routes, key), by_trade);
    lemma_filter_twice(
        s.trade_delivery_policies,
        inbound_part_elsewhere(s.inbound_routes, key),
        by_route,
    );
    lemma_filter_twice(s.route_uploads, inbound_part_elsewhere(s.inbound_routes, key), by_route);
    lemma_filter_twice(s.projects, text_elsewhere(key), own_key(other));
    lemma_filter_twice(s.webhooks, text_elsewhere(key), own_key(other));
    lemma_filter_twice(s.webhook_attempts, text_elsewhere(key), own_key(other));
}

proof fn lemma_parts_spared(s: StoreView, key: Seq<char>, other: Seq<char>)
    requires
        other != key,
        owners_apart(s, other, key),
    ensures
        ({
            let after = without_tenant(s, key);
            &&& after.session_files.filter(session_file_in(s.sessions, other))
                == s.session_files.filter(session_file_in(s.sessions, other))
            &&& after.notification_overrides.filter(override_in(s.jobs, other))
                == s.notification_overrides.filter(override_in(s.jobs, other))
            &&& after.outbound_routes.filter(outbound_in(s.jobs, other))
                == s.outbound_routes.filter(outbound_in(s.jobs, other))
            &&& after.grant_files.filter(grant_file_in(s.grants, other)) == s.grant_files.filter(
                grant_file_in(s.grants, other),
            )
            &&& after.digests.filter(digest_in(s.grants, other)) == s.digests.filter(
                digest_in(s.grants, other),
            )
            &&& after.evidence.filter(evidence_in(s.grants, other)) == s.evidence.filter(
                evidence_in(s.grants, other),
            )
            &&& after.policy_cache.filter(under_grant(s.grants, other)) == s.policy_cache.filter(
                under_grant(s.grants, other),
            )
            &&& after.operations.filter(operation_in(s.tokens, other)) == s.operations.filter(
                operation_in(s.tokens, other),
            )
        }),
{
    assert forall|id: Seq<char>| #[trigger] under_grant(s.grants, other)(id) implies !any(
        s.grants,
        grant_named(key, id),
    ) by {
        assert(session_named(other, id) == session_named(other, id));
    }
    assert forall|f: SessionFileRowView| #[trigger] session_file_in(s.sessions, other)(
        f,
    ) implies session_file_elsewhere(s.sessions, key)(f) by {
        assert(session_named(other, f.session_id) == session_named(other, f.session_id));
    }
    assert forall|o: OverrideRowView| #[trigger] override_in(s.jobs, other)(
        o,
    ) implies override_elsewhere(s.jobs, key)(o) by {
        assert(session_named(other, o.job_id) == session_named(other, o.job_id));
    }
    assert forall|r: OutboundRouteRowView| #[trigger] outbound_in(s.jobs, other)(
        r,
    ) implies outbound_elsewhere(s.jobs, key)(r) by {
        assert(session_named(other, r.job_id) == session_named(other, r.job_id));
    }
    assert forall|f: GrantFileRowView| #[trigger] grant_file_in(s.grants, other)(
        f,
    ) implies grant_file_elsewhere(s.grants, key)(f) by {
        assert(under_grant(s.grants, other)(f.grant_id));
    }
    assert forall|d: DigestRowView| #[trigger] digest_in(s.grants, other)(
        d,
    ) implies digest_elsewhere(s.grants, key)(d) by {
        assert(under_grant(s.grants, other)(d.grant_id));
    }
    assert forall|e: EvidenceRowView| #[trigger] evidence_in(s.grants, other)(
        e,
    ) implies evidence_elsewhere(s.grants, key)(e) by {
        assert(under_grant(s.grants, other)(e.grant_id));
    }
    assert forall|o: OperationRowView| #[trigger] operation_in(s.tokens, other)(
        o,
    ) implies operation_elsewhere(s.tokens, key)(o) by {
        assert(session_named(other, o.token_id) == session_named(other, o.token_id));
    }
    lemma_filter_twice(
        s.session_files,
        session_file_elsewhere(s.sessions, key),
        session_file_in(s.sessions, other),
    );
    lemma_filter_twice(
        s.notification_overrides,
        override_elsewhere(s.jobs, key),
        override_in(s.jobs, other),
    );
    lemma_filter_twice(
        s.outbound_routes,
        outbound_elsewhere(s.jobs, key),
        outbound_in(s.jobs, other),
    );
    lemma_filter_twice(
        s.grant_files,
        grant_file_elsewhere(s.grants, key),
        grant_file_in(s.grants, other),
    );
    lemma_filter_twice(s.digests, digest_elsewhere(s.grants, key), digest_in(s.grants, other));
    lemma_filter_twice(s.evidence, evidence_elsewhere(s.grants, key), evidence_in(s.grants, other));
    lemma_filter_twice(s.policy_cache, cache_elsewhere(s.grants, key), under_grant(s.grants, other));
    lemma_filter_twice(
        s.operations,
        operation_elsewhere(s.tokens, key),
        operation_in(s.tokens, other),
    );
}

/// Removing a tenant leaves every other tenant as it was, and nothing is removed
/// while links or unsettled routes hold the tenant back.
pub proof fn removal_spares_other_tenants(
    s: StoreView,
    key: Seq<char>,
    storage: Result<(), String>,
    other: Seq<char>,
)
    requires
        other != key,
        owners_apart(s, other, key),
    ensures
        removed(s, key, storage) matches Ok((after, removal)) ==> same_for(after, s, s, other) && (
        removal is HasLinks || removal is HasRoutes ==> after == s),
{
    lemma_trade_spared(s, key, other);
    lemma_parts_spared(s, key, other);
    lemma_filter_twice(s.tenants, other_tenant(key), tenant_is(other));
    lemma_filter_twice(s.branding, branding_of_others(key), branding_of(other));
    lemma_filter_twice(s.files, file_elsewhere(key), file_in(other));
    lemma_filter_twice(s.quotas, quota_elsewhere(key), quota_is(other));
    lemma_filter_twice(s.uploads, upload_elsewhere(key), upload_in(other));
    lemma_filter_twice(s.sessions, session_elsewhere(key), session_in(other));
    lemma_filter_twice(s.jobs, job_elsewhere(key), tenant_job(other));
    lemma_filter_twice(s.grants, grant_elsewhere(key), grant_in(other));
    lemma_filter_twice(s.tokens, token_elsewhere(key), token_in(other));
    lemma_filter_twice(s.destinations, destination_elsewhere(key), destination_in(other));
    lemma_filter_twice(s.notification_defaults, defaults_elsewhere(key), defaults_of(other));
    lemma_filter_twice(s.events, event_elsewhere(key), event_until(other, i64::MAX));
}

proof fn lemma_sorted_from<V>(s: Seq<V>, before: spec_fn(V, V) -> bool, x: V)
    ensures
        sorted_by(s, before).contains(x) ==> s.contains(x),
{
    lemma_sorted_multiset(s, before);
    vstd::seq_lib::to_multiset_contains(sorted_by(s, before), x);
    vstd::seq_lib::to_multiset_contains(s, x);
}

/// Every item that is read was read from a row that was selected.
proof fn lemma_read_from<V, W>(
    rows: Seq<V>,
    own: spec_fn(V) -> bool,
    before: spec_fn(V, V) -> bool,
    offset: int,
    limit: int,
    read: spec_fn(V) -> Result<W, Seq<char>>,
    i: int,
) -> (row: V)
    requires
        try_map(page(sorted_by(rows.filter(own), before), offset, limit), read) matches Ok(items)
            && 0 <= i < items.len(),
        0 <= offset,
        0 <= limit,
    ensures
        own(row),
        read(row) == Ok::<W, Seq<char>>(
            try_map(page(sorted_by(rows.filter(own), before), offset, limit), read)->Ok_0[i],
        ),
{
    let sorted = sorted_by(rows.filter(own), before);
    let shown = page(sorted, offset, limit);
    lemma_items(shown, read, i);
    let row = shown[i];
    assert(row == sorted[offset + i]);
    assert(sorted.contains(row));
    lemma_sorted_from(rows.filter(own), before, row);
    lemma_filter_any_of(rows, own);
    let k = choose|k: int| 0 <= k < rows.filter(own).len() && rows.filter(own)[k] == row;
    assert(own(rows.filter(own)[k]));
    row
}

/// As many items are read as there are rows.
pub proof fn lemma_as_many<V, W>(rows: Seq<V>, read: spec_fn(V) -> Result<W, Seq<char>>)
    ensures
        try_map(rows, read) matches Ok(items) ==> items.len() == rows.len(),
    decreases rows.len(),
{
    if rows.len() > 0 {
        lemma_as_many(rows.drop_last(), read);
    }
}

/// What was read at a place is what the row at that place was read as.
pub proof fn lemma_items<V, W>(rows: Seq<V>, read: spec_fn(V) -> Result<W, Seq<char>>, i: int)
    requires
        try_map(rows, read) matches Ok(items) && 0 <= i < items.len(),
    ensures
        try_map(rows, read)->Ok_0.len() == rows.len(),
        read(rows[i]) == Ok::<W, Seq<char>>(try_map(rows, read)->Ok_0[i]),
    decreases rows.len(),
{
    lemma_as_many(rows, read);
    let head = rows.drop_last();
    lemma_as_many(head, read);
    if i < head.len() {
        lemma_items(head, read, i);
    }
}

/// A page of a tenant's links, whatever it was asked for, shows links of that
/// tenant alone.
pub proof fn link_pages_stay_in_their_tenant(
    s: StoreView,
    tenant: Seq<char>,
    cursor: Option<LinkCursorView>,
    word: Seq<char>,
    status: Seq<char>,
    now: i64,
    routable: bool,
    limit: u64,
    i: int,
)
    ensures
        page_shown(s, tenant, cursor, word, status, now, routable, limit) matches Ok(shown) ==> 0
            <= i < shown.links.len() ==> shown.links[i].tenant == tenant,
{
    let own = listed_link(s, tenant, cursor, word, status, now, routable);
    let shown = page(
        links_listed(s, tenant, cursor, word, status, now, routable),
        0,
        one_more(limit),
    );
    if let Ok(links) = try_map(shown, policy_of()) {
        if 0 <= i < cut(links, limit).links.len() {
            lemma_read_from(s.links, own, newer_link(), 0, one_more(limit), policy_of(), i);
        }
    }
}

/// The deliveries that are listed for a tenant are that tenant's alone.
pub proof fn deliveries_stay_in_their_tenant(s: StoreView, tenant: Seq<char>, i: int)
    ensures
        try_map(
            sorted_by(s.grants.filter(grant_in(tenant)), older_grant()),
            full_of(s.grant_files),
        ) matches Ok(grants) ==> 0 <= i < grants.len() ==> grants[i].tenant == tenant,
{
    let rows = sorted_by(s.grants.filter(grant_in(tenant)), older_grant());
    let limit = rows.len() as int;
    if let Ok(grants) = try_map(rows, full_of(s.grant_files)) {
        if 0 <= i < grants.len() {
            assert(page(rows, 0, limit) =~= rows) by {
                assert(rows.skip(0) =~= rows);
            }
            lemma_read_from(
                s.grants,
                grant_in(tenant),
                older_grant(),
                0,
                limit,
                full_of(s.grant_files),
                i,
            );
        }
    }
}

/// The tokens that are listed for a tenant are that tenant's alone.
pub proof fn tokens_stay_in_their_tenant(s: StoreView, tenant: Seq<char>, i: int)
    ensures
        try_map(
            sorted_by(s.tokens.filter(token_in(tenant)), older_token()),
            token_of(),
        ) matches Ok(tokens) ==> 0 <= i < tokens.len() ==> tokens[i].tenant == tenant,
{
    let rows = sorted_by(s.tokens.filter(token_in(tenant)), older_token());
    let limit = rows.len() as int;
    if let Ok(tokens) = try_map(rows, token_of()) {
        if 0 <= i < tokens.len() {
            assert(page(rows, 0, limit) =~= rows) by {
                assert(rows.skip(0) =~= rows);
            }
            lemma_read_from(s.tokens, token_in(tenant), older_token(), 0, limit, token_of(), i);
        }
    }
}

/// A link that is read under a tenant is that tenant's, and so is the upload.
pub proof fn reads_stay_in_their_tenant(s: StoreView, tenant: Seq<char>, id: Seq<char>)
    ensures
        read_first(first(s.links, link_is(tenant, id)), full_link(s)) matches Ok(Some(link))
            ==> link.tenant == tenant && link.id == id,
        !any(s.links, link_is(tenant, id)) ==> forall|upload: Seq<char>|
            (#[trigger] upload_read(s, tenant, id, upload)) == Ok::<
                Option<UploadRecordView>,
                Seq<char>,
            >(None),
{
    lemma_first_found(s.links, link_is(tenant, id));
}

} // verus!
