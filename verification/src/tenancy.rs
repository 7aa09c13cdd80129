//! Tenants and what is their own: they come once, change in place, and leave nothing behind;
//! and the settings that are in force for them.
use vstd::prelude::*;

use crate::columns::natural;
use crate::decimal::{decimal, decimal_round_trip};
use crate::kinds::TenantRemoval;
use crate::links::tenant_is;
use crate::records::{BrandingView, ConfigView, TenantView};
use crate::rows::{
    AutomationTokenRowView, BrandingRowView, DefaultsRowView, DestinationRowView, DigestRowView,
    EventRowView, EvidenceRowView, FileRowView, GrantFileRowView, GrantRowView, InboundRouteRowView,
    JobRowView, LinkRowView, OperationRowView, OutboundRouteRowView, OverrideRowView, QuotaRowView,
    SessionFileRowView, SessionRowView, SettingRowView, TenantRowView, TradeEndpointRowView,
    TradeInvitationRowView, TradeRouteRowView, UploadRowView,
};
use crate::selection::{lemma_changed, lemma_counted, lemma_found, lemma_read, lemma_selected};
use crate::settings::{
    a_write_touches_one_setting, after_write, caps_of, limit_setting, number_setting, overlaid,
    port_setting, set_to, setting_is, settings_written, smtp_channel, switch_setting, text_setting,
};
use crate::store::StoreView;
use crate::table::{any, count, first, try_map, updated};
use crate::tenants::{
    branding_of, branding_of_others, branding_read, branding_row, cache_elsewhere, digest_elsewhere,
    evidence_elsewhere, grant_file_elsewhere, grant_named, inbound_named, inbound_part_elsewhere,
    incarnations, job_named, operation_elsewhere, outbound_elsewhere, outgoing_named,
    override_elsewhere, quota_round_trip, rebranded, removed, rotation_elsewhere,
    session_file_elsewhere, session_named, storage_elsewhere, tenant_alike, tenant_of, tenant_row,
    tenant_updated, token_named, trade_route_named, unsettled, unsettled_job, unsettled_route,
    without_tenant,
};
use crate::text::{lowercase, trimmed};
use crate::usage::link_in;

verus! {

// ------------------------------------------------------------------- tenants
/// A tenant is taken in exactly if no other has its key but for the case of its letters. Its
/// record tells what was given, under the incarnation it came with, and reads back so.
pub proof fn tenants_come_once(s: StoreView, t: TenantView, incarnation: Seq<char>)
    requires
        t.created_at <= i64::MAX,
    ensures
        any(s.tenants, tenant_alike(t.key)) <==> exists|o: TenantRowView| #[trigger]
            s.tenants.contains(o) && lowercase(o.key) == lowercase(t.key),
        tenant_of()(tenant_row(t, incarnation)) == Ok::<TenantView, Seq<char>>(
            TenantView { incarnation, ..t },
        ),
        tenant_row(t, incarnation).key == t.key,
        tenant_row(t, incarnation).incarnation == incarnation,
        tenant_row(t, incarnation).created_at == t.created_at,
{
    lemma_found(s.tenants, tenant_alike(t.key));
    quota_round_trip(t.max_total_bytes, "3"@);
    quota_round_trip(t.max_links, "4"@);
    quota_round_trip(t.max_sessions, "5"@);
}

/// The store with a tenant changed.
pub open spec fn with_tenant_updated(s: StoreView, t: TenantView) -> StoreView {
    StoreView { tenants: updated(s.tenants, tenant_is(t.key), tenant_updated(t)), ..s }
}

/// A change gives the tenant under the key the label, the group and the quotas, and leaves its
/// key, its incarnation and its age; no other tenant changes.
pub proof fn tenants_change_in_place(s: StoreView, t: TenantView)
    ensures
        ({
            let after = with_tenant_updated(s, t);
            &&& after.tenants.len() == s.tenants.len()
            &&& forall|i: int|
                0 <= i < s.tenants.len() && s.tenants[i].key != t.key
                    ==> #[trigger] after.tenants[i] == s.tenants[i]
            &&& forall|i: int|
                0 <= i < s.tenants.len() && s.tenants[i].key == t.key ==> tenant_of()(
                    #[trigger] after.tenants[i],
                ) == Ok::<TenantView, Seq<char>>(
                    TenantView {
                        incarnation: s.tenants[i].incarnation,
                        created_at: natural(s.tenants[i].created_at),
                        ..t
                    },
                )
        }),
        any(s.tenants, tenant_is(t.key)) <==> exists|o: TenantRowView| #[trigger]
            s.tenants.contains(o) && o.key == t.key,
{
    lemma_found(s.tenants, tenant_is(t.key));
    lemma_changed(s.tenants, tenant_is(t.key), tenant_updated(t));
    quota_round_trip(t.max_total_bytes, "3"@);
    quota_round_trip(t.max_links, "4"@);
    quota_round_trip(t.max_sessions, "5"@);
}

/// The tenants that are listed are all there are, in order; a tenant is found under its key.
pub proof fn tenants_are_told(s: StoreView, key: Seq<char>)
    ensures
        try_map(s.tenants, tenant_of()) matches Ok(list) ==> list.len() == s.tenants.len()
            && forall|i: int|
            0 <= i < list.len() ==> (#[trigger] list[i]).key == s.tenants[i].key
                && list[i].incarnation == s.tenants[i].incarnation && list[i].label
                == s.tenants[i].label && list[i].admin_group == s.tenants[i].admin_group,
        first(s.tenants, tenant_is(key)) is Some <==> exists|o: TenantRowView| #[trigger]
            s.tenants.contains(o) && o.key == key,
        first(s.tenants, tenant_is(key)) matches Some(t) ==> s.tenants.contains(t) && t.key == key,
        s.links.len() <= u64::MAX ==> count(s.links, link_in(key)) as u64 == s.links.filter(
            |l: LinkRowView| l.tenant == key,
        ).len(),
{
    lemma_read(s.tenants, tenant_of());
    lemma_found(s.tenants, tenant_is(key));
    let own = |l: LinkRowView| l.tenant == key;
    lemma_counted(s.links, link_in(key), own);
    lemma_selected(s.links, own);
    if let Ok(list) = try_map(s.tenants, tenant_of()) {
        assert forall|i: int| 0 <= i < list.len() implies (#[trigger] list[i]).key
            == s.tenants[i].key && list[i].incarnation == s.tenants[i].incarnation && list[i].label
            == s.tenants[i].label && list[i].admin_group == s.tenants[i].admin_group by {
            assert(tenant_of()(s.tenants[i]) == Ok::<TenantView, Seq<char>>(list[i]));
        }
    }
}

/// The incarnations that are told are those of the keys asked for that are tenants.
pub proof fn incarnations_are_told(s: StoreView, keys: Seq<Seq<char>>)
    ensures
        forall|x: (Seq<char>, Seq<char>)| #[trigger]
            incarnations(s, keys).contains(x) ==> keys.contains(x.0) && exists|t: TenantRowView|
             #[trigger]
                s.tenants.contains(t) && t.key == x.0 && t.incarnation == x.1,
        forall|i: int, t: TenantRowView| #[trigger]
            s.tenants.contains(t) && 0 <= i < keys.len() && (#[trigger] keys[i]) == t.key
                ==> exists|j: int|
                0 <= j < incarnations(s, keys).len() && (#[trigger] incarnations(s, keys)[j]).0
                    == t.key,
    decreases keys.len(),
{
    if keys.len() > 0 {
        let head = keys.drop_last();
        let before = incarnations(s, head);
        let after = incarnations(s, keys);
        incarnations_are_told(s, head);
        lemma_found(s.tenants, tenant_is(keys.last()));
        assert forall|x: (Seq<char>, Seq<char>)| #[trigger] after.contains(x) implies keys.contains(
            x.0,
        ) && exists|t: TenantRowView| #[trigger]
            s.tenants.contains(t) && t.key == x.0 && t.incarnation == x.1 by {
            let j = choose|j: int| 0 <= j < after.len() && after[j] == x;
            if j < before.len() {
                assert(before[j] == x);
                assert(before.contains(x));
                let i = choose|i: int| 0 <= i < head.len() && head[i] == x.0;
                assert(keys[i] == x.0);
            } else {
                assert(keys[keys.len() - 1] == x.0);
            }
        }
        assert forall|i: int, t: TenantRowView| #[trigger]
            s.tenants.contains(t) && 0 <= i < keys.len() && (#[trigger] keys[i])
                == t.key implies exists|j: int|
            0 <= j < after.len() && (#[trigger] after[j]).0 == t.key by {
            if i < head.len() {
                assert(head[i] == t.key);
                let j = choose|j: int| 0 <= j < before.len() && (#[trigger] before[j]).0 == t.key;
                assert(after[j].0 == t.key);
            } else {
                assert(tenant_is(keys.last())(t));
                assert(after[before.len() as int].0 == t.key);
            }
        }
    }
}

// ------------------------------------------------------------------- removal
/// A route holds its tenant back as long as the peer may still wait for something: not once
/// it was acknowledged, nor while its job is suspended; else until the destination is
/// complete, and beyond that where it is to be revoked or its job was cancelled or its source
/// revoked.
pub proof fn routes_hold_until_settled(r: OutboundRouteRowView, j: JobRowView)
    ensures
        r.acknowledged ==> !unsettled(r, j),
        j.state == "suspended"@ ==> !unsettled(r, j),
        j.id != r.job_id ==> !unsettled(r, j),
        j.id == r.job_id && !r.acknowledged && j.state != "suspended"@ ==> {
            &&& r.destination_state != Some("complete"@) ==> unsettled(r, j)
            &&& r.revocation || j.source_revoked || j.state == "cancelled"@ ==> unsettled(r, j)
            &&& j.retired_from == Some("cancelled"@) && (j.state == "retired"@ || j.state
                == "retiring"@) ==> unsettled(r, j)
            &&& r.destination_state == Some("complete"@) && !r.revocation && !j.source_revoked
                && j.state != "cancelled"@ && j.retired_from != Some("cancelled"@) ==> !unsettled(
                r,
                j,
            )
        },
{
}

/// A tenant is held back by a route of its jobs that is not settled, and else by a link of it;
/// a removal that is not held back says whether there was such a tenant.
pub proof fn tenants_leave_when_nothing_holds_them(
    s: StoreView,
    key: Seq<char>,
    storage: Result<(), String>,
)
    ensures
        ({
            let routes = exists|r: OutboundRouteRowView, j: JobRowView| #[trigger]
                s.outbound_routes.contains(r) && #[trigger] s.jobs.contains(j) && j.tenant == key
                    && unsettled(r, j);
            let there = exists|t: TenantRowView| #[trigger] s.tenants.contains(t) && t.key == key;
            let links = exists|l: LinkRowView| #[trigger] s.links.contains(l) && l.tenant == key;
            match removed(s, key, storage) {
                Err(_) => !routes && !(there && links) && storage is Err,
                Ok((after, TenantRemoval::HasRoutes)) => routes && after == s,
                Ok((after, TenantRemoval::HasLinks)) => !routes && there && links && after == s,
                Ok((after, TenantRemoval::Deleted)) => !routes && there && !links && storage is Ok
                    && after == without_tenant(s, key),
                Ok((after, TenantRemoval::Absent)) => !routes && !there && storage is Ok && after
                    == without_tenant(s, key),
            }
        }),
{
    lemma_found(s.tenants, tenant_is(key));
    lemma_found(s.links, link_in(key));
    lemma_found(s.outbound_routes, unsettled_route(s.jobs, key));
    assert forall|r: OutboundRouteRowView| #[trigger]
        s.outbound_routes.contains(r) implies (unsettled_route(s.jobs, key)(r) <==> exists|
        j: JobRowView,
    | #[trigger] s.jobs.contains(j) && j.tenant == key && unsettled(r, j)) by {
        lemma_found(s.jobs, unsettled_job(r, key));
    }
    if any(s.outbound_routes, unsettled_route(s.jobs, key)) {
        let r = choose|r: OutboundRouteRowView| #[trigger]
            s.outbound_routes.contains(r) && unsettled_route(s.jobs, key)(r);
        let j = choose|j: JobRowView| #[trigger]
            s.jobs.contains(j) && j.tenant == key && unsettled(r, j);
        assert(s.outbound_routes.contains(r) && s.jobs.contains(j));
    }
}

/// A removed tenant leaves no record that is its own, and no record of another is touched;
/// what hung on its sessions, grants and tokens goes with them.
pub proof fn removed_tenants_leave_nothing(s: StoreView, key: Seq<char>)
    ensures
        ({
            let after = without_tenant(s, key);
            &&& forall|x: FileRowView| #[trigger]
                after.files.contains(x) <==> s.files.contains(x) && x.tenant != key
            &&& forall|x: QuotaRowView| #[trigger]
                after.quotas.contains(x) <==> s.quotas.contains(x) && x.tenant != key
            &&& forall|x: UploadRowView| #[trigger]
                after.uploads.contains(x) <==> s.uploads.contains(x) && x.tenant != key
            &&& forall|x: SessionRowView| #[trigger]
                after.sessions.contains(x) <==> s.sessions.contains(x) && x.tenant != key
            &&& forall|x: JobRowView| #[trigger]
                after.jobs.contains(x) <==> s.jobs.contains(x) && x.tenant != key
            &&& forall|x: GrantRowView| #[trigger]
                after.grants.contains(x) <==> s.grants.contains(x) && x.tenant != key
            &&& forall|x: EventRowView| #[trigger]
                after.events.contains(x) <==> s.events.contains(x) && x.tenant != key
            &&& forall|x: DestinationRowView| #[trigger]
                after.destinations.contains(x) <==> s.destinations.contains(x) && x.tenant != key
            &&& forall|x: DefaultsRowView| #[trigger]
                after.notification_defaults.contains(x) <==> s.notification_defaults.contains(x) && x.tenant != key
            &&& forall|x: TradeInvitationRowView| #[trigger]
                after.trade_invitations.contains(x) <==> s.trade_invitations.contains(x) && x.tenant != key
            &&& forall|x: TradeEndpointRowView| #[trigger]
                after.trade_endpoints.contains(x) <==> s.trade_endpoints.contains(x) && x.tenant != key
            &&& forall|x: TradeRouteRowView| #[trigger]
                after.trade_routes.contains(x) <==> s.trade_routes.contains(x) && x.tenant != key
            &&& forall|x: InboundRouteRowView| #[trigger]
                after.inbound_routes.contains(x) <==> s.inbound_routes.contains(x) && x.tenant != key
            &&& forall|x: AutomationTokenRowView| #[trigger]
                after.tokens.contains(x) <==> s.tokens.contains(x) && x.tenant != key
            &&& forall|x: BrandingRowView| #[trigger]
                after.branding.contains(x) <==> s.branding.contains(x) && x.tenant != key
            &&& forall|x: TenantRowView| #[trigger]
                after.tenants.contains(x) <==> s.tenants.contains(x) && x.key != key
            &&& forall|x: SessionFileRowView| #[trigger]
                after.session_files.contains(x) <==> s.session_files.contains(x) && forall|
                    y: SessionRowView,
                | #[trigger] s.sessions.contains(y) && y.id == x.session_id ==> y.tenant != key
            &&& forall|x: GrantFileRowView| #[trigger]
                after.grant_files.contains(x) <==> s.grant_files.contains(x) && forall|
                    y: GrantRowView,
                | #[trigger] s.grants.contains(y) && y.id == x.grant_id ==> y.tenant != key
            &&& forall|x: OperationRowView| #[trigger]
                after.operations.contains(x) <==> s.operations.contains(x) && forall|
                    y: AutomationTokenRowView,
                | #[trigger] s.tokens.contains(y) && y.id == x.token_id ==> y.tenant != key
            &&& after.links == s.links && after.audit_log == s.audit_log && after.settings
                == s.settings && after.principals == s.principals && after.groups == s.groups
                && after.members == s.members
        }),
{
    lemma_selected(s.files, crate::tenants::file_elsewhere(key));
    lemma_selected(s.quotas, crate::tenants::quota_elsewhere(key));
    lemma_selected(s.uploads, crate::tenants::upload_elsewhere(key));
    lemma_selected(s.sessions, crate::tenants::session_elsewhere(key));
    lemma_selected(s.jobs, crate::tenants::job_elsewhere(key));
    lemma_selected(s.grants, crate::tenants::grant_elsewhere(key));
    lemma_selected(s.events, crate::tenants::event_elsewhere(key));
    lemma_selected(s.destinations, crate::tenants::destination_elsewhere(key));
    lemma_selected(s.notification_defaults, crate::tenants::defaults_elsewhere(key));
    lemma_selected(s.trade_invitations, crate::tenants::invitation_elsewhere(key));
    lemma_selected(s.trade_endpoints, crate::tenants::endpoint_elsewhere(key));
    lemma_selected(s.trade_routes, crate::tenants::trade_route_elsewhere(key));
    lemma_selected(s.inbound_routes, crate::tenants::inbound_elsewhere(key));
    lemma_selected(s.tokens, crate::tenants::token_elsewhere(key));
    lemma_selected(s.branding, crate::tenants::branding_of_others(key));
    lemma_selected(s.tenants, crate::tenants::other_tenant(key));
    lemma_selected(s.session_files, session_file_elsewhere(s.sessions, key));
    lemma_selected(s.grant_files, grant_file_elsewhere(s.grants, key));
    lemma_selected(s.operations, operation_elsewhere(s.tokens, key));
    assert forall|x: SessionFileRowView| #[trigger] session_file_elsewhere(s.sessions, key)(x)
        <==> forall|y: SessionRowView| #[trigger]
        s.sessions.contains(y) && y.id == x.session_id ==> y.tenant != key by {
        lemma_found(s.sessions, session_named(key, x.session_id));
    }
    assert forall|x: GrantFileRowView| #[trigger] grant_file_elsewhere(s.grants, key)(x)
        <==> forall|y: GrantRowView| #[trigger]
        s.grants.contains(y) && y.id == x.grant_id ==> y.tenant != key by {
        lemma_found(s.grants, grant_named(key, x.grant_id));
    }
    assert forall|x: OperationRowView| #[trigger] operation_elsewhere(s.tokens, key)(x)
        <==> forall|y: AutomationTokenRowView| #[trigger]
        s.tokens.contains(y) && y.id == x.token_id ==> y.tenant != key by {
        lemma_found(s.tokens, token_named(key, x.token_id));
    }
}

/// What hangs on the routes, jobs and grants of a removed tenant goes with them, and so do its
/// projects and webhooks; what hangs on another's stays.
pub proof fn what_hangs_on_a_tenant_goes_with_it(s: StoreView, key: Seq<char>)
    ensures
        ({
            let after = without_tenant(s, key);
            &&& forall|x: Seq<char>| #[trigger]
                after.trade_rotations.contains(x) <==> s.trade_rotations.contains(x) && forall|
                    y: TradeRouteRowView,
                | #[trigger] s.trade_routes.contains(y) && y.id == x ==> y.tenant != key
            &&& forall|x: Seq<char>| #[trigger]
                after.trade_delivery_policies.contains(x) <==> s.trade_delivery_policies.contains(x) && forall|
                    y: InboundRouteRowView,
                | #[trigger] s.inbound_routes.contains(y) && y.id == x ==> y.tenant != key
            &&& forall|x: Seq<char>| #[trigger]
                after.route_uploads.contains(x) <==> s.route_uploads.contains(x) && forall|
                    y: InboundRouteRowView,
                | #[trigger] s.inbound_routes.contains(y) && y.id == x ==> y.tenant != key
            &&& forall|x: Seq<char>| #[trigger]
                after.storage_credentials.contains(x) <==> s.storage_credentials.contains(x) && forall|
                    y: TradeRouteRowView,
                | #[trigger] s.trade_routes.contains(y) && y.id == x && y.direction == "outgoing"@ ==> y.tenant != key
            &&& forall|x: Seq<char>| #[trigger]
                after.delivery_storage.contains(x) <==> s.delivery_storage.contains(x) && forall|
                    y: TradeRouteRowView,
                | #[trigger] s.trade_routes.contains(y) && y.id == x && y.direction == "outgoing"@ ==> y.tenant != key
            &&& forall|x: OutboundRouteRowView| #[trigger]
                after.outbound_routes.contains(x) <==> s.outbound_routes.contains(x) && forall|
                    y: JobRowView,
                | #[trigger] s.jobs.contains(y) && y.id == x.job_id ==> y.tenant != key
            &&& forall|x: OverrideRowView| #[trigger]
                after.notification_overrides.contains(x) <==> s.notification_overrides.contains(x) && forall|
                    y: JobRowView,
                | #[trigger] s.jobs.contains(y) && y.id == x.job_id ==> y.tenant != key
            &&& forall|x: DigestRowView| #[trigger]
                after.digests.contains(x) <==> s.digests.contains(x) && forall|
                    y: GrantRowView,
                | #[trigger] s.grants.contains(y) && y.id == x.grant_id ==> y.tenant != key
            &&& forall|x: EvidenceRowView| #[trigger]
                after.evidence.contains(x) <==> s.evidence.contains(x) && forall|
                    y: GrantRowView,
                | #[trigger] s.grants.contains(y) && y.id == x.grant_id ==> y.tenant != key
            &&& forall|x: Seq<char>| #[trigger]
                after.policy_cache.contains(x) <==> s.policy_cache.contains(x) && forall|
                    y: GrantRowView,
                | #[trigger] s.grants.contains(y) && y.id == x ==> y.tenant != key
            &&& forall|x: Seq<char>| #[trigger]
                after.projects.contains(x) <==> s.projects.contains(x) && x != key
            &&& forall|x: Seq<char>| #[trigger]
                after.webhooks.contains(x) <==> s.webhooks.contains(x) && x != key
            &&& forall|x: Seq<char>| #[trigger]
                after.webhook_attempts.contains(x) <==> s.webhook_attempts.contains(x) && x != key
            &&& after.meta == s.meta && after.tickets == s.tickets && after.grant_manifests
                == s.grant_manifests && after.settings_generation == s.settings_generation
                && after.event_sequence == s.event_sequence && after.audit_rows == s.audit_rows
        }),
{
    lemma_selected(s.trade_rotations, rotation_elsewhere(s.trade_routes, key));
    assert forall|x: Seq<char>| #[trigger] rotation_elsewhere(s.trade_routes, key)(x) <==> forall|y: TradeRouteRowView| #[trigger]
        s.trade_routes.contains(y) && y.id == x ==> y.tenant != key by {
        lemma_found(s.trade_routes, trade_route_named(key, x));
    }
    lemma_selected(s.trade_delivery_policies, inbound_part_elsewhere(s.inbound_routes, key));
    assert forall|x: Seq<char>| #[trigger] inbound_part_elsewhere(s.inbound_routes, key)(x) <==> forall|y: InboundRouteRowView| #[trigger]
        s.inbound_routes.contains(y) && y.id == x ==> y.tenant != key by {
        lemma_found(s.inbound_routes, inbound_named(key, x));
    }
    lemma_selected(s.route_uploads, inbound_part_elsewhere(s.inbound_routes, key));
    lemma_selected(s.storage_credentials, storage_elsewhere(s.trade_routes, key));
    assert forall|x: Seq<char>| #[trigger] storage_elsewhere(s.trade_routes, key)(x) <==> forall|y: TradeRouteRowView| #[trigger]
        s.trade_routes.contains(y) && y.id == x && y.direction == "outgoing"@ ==> y.tenant != key by {
        lemma_found(s.trade_routes, outgoing_named(key, x));
    }
    lemma_selected(s.delivery_storage, storage_elsewhere(s.trade_routes, key));
    lemma_selected(s.outbound_routes, outbound_elsewhere(s.jobs, key));
    assert forall|x: OutboundRouteRowView| #[trigger] outbound_elsewhere(s.jobs, key)(x) <==> forall|y: JobRowView| #[trigger]
        s.jobs.contains(y) && y.id == x.job_id ==> y.tenant != key by {
        lemma_found(s.jobs, job_named(key, x.job_id));
    }
    lemma_selected(s.notification_overrides, override_elsewhere(s.jobs, key));
    assert forall|x: OverrideRowView| #[trigger] override_elsewhere(s.jobs, key)(x) <==> forall|y: JobRowView| #[trigger]
        s.jobs.contains(y) && y.id == x.job_id ==> y.tenant != key by {
        lemma_found(s.jobs, job_named(key, x.job_id));
    }
    lemma_selected(s.digests, digest_elsewhere(s.grants, key));
    assert forall|x: DigestRowView| #[trigger] digest_elsewhere(s.grants, key)(x) <==> forall|y: GrantRowView| #[trigger]
        s.grants.contains(y) && y.id == x.grant_id ==> y.tenant != key by {
        lemma_found(s.grants, grant_named(key, x.grant_id));
    }
    lemma_selected(s.evidence, evidence_elsewhere(s.grants, key));
    assert forall|x: EvidenceRowView| #[trigger] evidence_elsewhere(s.grants, key)(x) <==> forall|y: GrantRowView| #[trigger]
        s.grants.contains(y) && y.id == x.grant_id ==> y.tenant != key by {
        lemma_found(s.grants, grant_named(key, x.grant_id));
    }
    lemma_selected(s.policy_cache, cache_elsewhere(s.grants, key));
    assert forall|x: Seq<char>| #[trigger] cache_elsewhere(s.grants, key)(x) <==> forall|y: GrantRowView| #[trigger]
        s.grants.contains(y) && y.id == x ==> y.tenant != key by {
        lemma_found(s.grants, grant_named(key, x));
    }
    lemma_selected(s.projects, crate::tenants::text_elsewhere(key));
    lemma_selected(s.webhooks, crate::tenants::text_elsewhere(key));
    lemma_selected(s.webhook_attempts, crate::tenants::text_elsewhere(key));
}

// ------------------------------------------------------------------ branding
/// The store with a tenant's branding set.
pub open spec fn with_branding(s: StoreView, b: BrandingView) -> StoreView {
    StoreView {
        branding: if any(s.branding, branding_of(b.tenant)) {
            updated(s.branding, branding_of(b.tenant), rebranded(branding_row(b)))
        } else {
            s.branding.push(branding_row(b))
        },
        ..s
    }
}

/// The store without a tenant's branding.
pub open spec fn without_branding(s: StoreView, tenant: Seq<char>) -> StoreView {
    StoreView { branding: s.branding.filter(branding_of_others(tenant)), ..s }
}

/// A tenant has the branding that was set last, and none once it was deleted; another's stays.
pub proof fn branding_is_the_tenants_own(s: StoreView, b: BrandingView, other: Seq<char>)
    requires
        b.updated_at <= i64::MAX,
    ensures
        first(with_branding(s, b).branding, branding_of(b.tenant)) matches Some(row)
            && branding_read(row) == b,
        other != b.tenant ==> first(with_branding(s, b).branding, branding_of(other)) == first(
            s.branding,
            branding_of(other),
        ),
        forall|x: BrandingRowView| #[trigger]
            without_branding(s, other).branding.contains(x) <==> s.branding.contains(x) && x.tenant
                != other,
        any(s.branding, branding_of(other)) <==> exists|x: BrandingRowView| #[trigger]
            s.branding.contains(x) && x.tenant == other,
{
    crate::readback::set_branding_reads_back(s.branding, b);
    lemma_selected(s.branding, branding_of_others(other));
    lemma_found(s.branding, branding_of(other));
    if other != b.tenant {
        if any(s.branding, branding_of(b.tenant)) {
            crate::alerts::lemma_other_first(
                s.branding,
                branding_of(b.tenant),
                rebranded(branding_row(b)),
                branding_of(other),
            );
        } else {
            crate::alerts::lemma_push_first(s.branding, branding_row(b), branding_of(other));
        }
    }
}

// ------------------------------------------------------------------ settings
/// A text that is set is in force, and an empty one switches the setting off; without a row the
/// environment's is.
pub proof fn texts_are_in_force(rows: Seq<SettingRowView>, key: Seq<char>, env: Option<Seq<char>>)
    ensures
        set_to(rows, key) is None ==> text_setting(rows, key, env) == (env, "env"@),
        set_to(rows, key) matches Some(v) ==> text_setting(rows, key, env).1 == "db"@ && (v.len()
            == 0 ==> text_setting(rows, key, env).0 is None) && (v.len() > 0 ==> text_setting(
            rows,
            key,
            env,
        ).0 == Some(v)),
{
}

/// A number that is set is in force, whatever it is; as a limit if it is not zero, and as a
/// port if it is one. What is not a number is passed over.
pub proof fn numbers_are_in_force(
    rows: Seq<SettingRowView>,
    key: Seq<char>,
    n: u64,
    env: u64,
    limit: Option<u64>,
    port: u16,
)
    ensures
        set_to(rows, key) is None ==> number_setting(rows, key, env) == (env, "env"@)
            && limit_setting(rows, key, limit) == (limit, "env"@) && port_setting(rows, key, port)
            == (port, "env"@),
        set_to(rows, key) == Some(decimal(n as nat)) ==> {
            &&& number_setting(rows, key, env) == (n, "db"@)
            &&& n > 0 ==> limit_setting(rows, key, limit) == (Some(n), "db"@)
            &&& n == 0 ==> limit_setting(rows, key, limit) == (limit, "env"@)
            &&& 1 <= n <= 65535 ==> port_setting(rows, key, port) == (n as u16, "db"@)
            &&& n == 0 ==> port_setting(rows, key, port) == (port, "env"@)
        },
        set_to(rows, key) matches Some(v) && crate::decimal::parsed(v, u64::MAX as int) is None
            ==> number_setting(rows, key, env) == (env, "env"@) && limit_setting(rows, key, limit)
            == (limit, "env"@),
{
    decimal_round_trip(n as nat, u64::MAX as int);
    if n <= 65535 {
        decimal_round_trip(n as nat, u16::MAX as int);
    }
}

/// A switch is on at "1", off at "0", and else as the environment has it.
pub proof fn switches_are_in_force(rows: Seq<SettingRowView>, key: Seq<char>, env: bool)
    ensures
        set_to(rows, key) == Some("1"@) ==> switch_setting(rows, key, env) == (true, "db"@),
        set_to(rows, key) == Some("0"@) ==> switch_setting(rows, key, env) == (false, "db"@),
        set_to(rows, key) != Some("1"@) && set_to(rows, key) != Some("0"@) ==> switch_setting(
            rows,
            key,
            env,
        ) == (env, "env"@),
{
    reveal_strlit("1");
    reveal_strlit("0");
    assert("1"@[0] != "0"@[0]);
}

/// Mail is sent exactly where a host and a sender are left once white space is taken off, with
/// the port, the encryption, the name and the password that are set.
pub proof fn mail_needs_host_and_sender(
    host: Option<Seq<char>>,
    port: u16,
    starttls: bool,
    username: Option<Seq<char>>,
    password: Option<Seq<char>>,
    from: Option<Seq<char>>,
)
    ensures
        ({
            let channel = smtp_channel(host, port, starttls, username, password, from);
            &&& channel is Some <==> host is Some && trimmed(host->0).len() > 0 && from is Some
                && trimmed(from->0).len() > 0
            &&& channel matches Some(c) ==> {
                &&& c.host == trimmed(host->0) && c.from == trimmed(from->0)
                &&& c.port == port && c.starttls == starttls && c.password == password
                &&& c.username is Some <==> username is Some && trimmed(username->0).len() > 0
                &&& c.username is Some ==> c.username->0 == trimmed(username->0)
            }
        }),
{
}

/// A number written under the name of a setting is that setting's, and told to be set.
pub proof fn written_numbers_are_in_force(
    rows: Seq<SettingRowView>,
    env: ConfigView,
    n: u64,
    at: i64,
    actor: Seq<char>,
)
    ensures
        ({
            let o = overlaid(after_write(rows, "audit_retention_days"@, Some(decimal(n as nat)), at, actor), env);
            o.resolved.audit_retention_days == n && o.audit_retention_days_source == "db"@
        }),
        ({
            let o = overlaid(after_write(rows, "upload_retention_days"@, Some(decimal(n as nat)), at, actor), env);
            o.resolved.upload_retention_days == n && o.upload_retention_days_source == "db"@
        }),
        n > 0 ==> ({
            let o = overlaid(after_write(rows, "default_max_total_bytes"@, Some(decimal(n as nat)), at, actor), env);
            o.resolved.default_max_total_bytes == Some(n) && o.default_max_total_bytes_source == "db"@
        }),
        n > 0 ==> ({
            let o = overlaid(after_write(rows, "default_max_links"@, Some(decimal(n as nat)), at, actor), env);
            o.resolved.default_max_links == Some(n) && o.default_max_links_source == "db"@
        }),
        n > 0 ==> ({
            let o = overlaid(after_write(rows, "default_max_sessions"@, Some(decimal(n as nat)), at, actor), env);
            o.resolved.default_max_sessions == Some(n) && o.default_max_sessions_source == "db"@
        }),
        n > 0 ==> ({
            let o = overlaid(after_write(rows, "sso_session_secs"@, Some(decimal(n as nat)), at, actor), env);
            o.resolved.sso_session_secs == n && o.sso_session_secs_source == "db"@
        }),
        1 <= n <= 65535 ==> ({
            let o = overlaid(after_write(rows, "smtp_port"@, Some(decimal(n as nat)), at, actor), env);
            o.smtp_port == n && o.smtp_port_source == "db"@
        }),
{
    lemma_written(rows, "audit_retention_days"@, decimal(n as nat), n, at, actor, env);
    lemma_written(rows, "upload_retention_days"@, decimal(n as nat), n, at, actor, env);
    lemma_written(rows, "default_max_total_bytes"@, decimal(n as nat), n, at, actor, env);
    lemma_written(rows, "default_max_links"@, decimal(n as nat), n, at, actor, env);
    lemma_written(rows, "default_max_sessions"@, decimal(n as nat), n, at, actor, env);
    lemma_written(rows, "sso_session_secs"@, decimal(n as nat), n, at, actor, env);
    lemma_written(rows, "smtp_port"@, decimal(n as nat), n, at, actor, env);
}

proof fn lemma_written(
    rows: Seq<SettingRowView>,
    key: Seq<char>,
    value: Seq<char>,
    n: u64,
    at: i64,
    actor: Seq<char>,
    env: ConfigView,
)
    ensures
        set_to(after_write(rows, key, Some(value), at, actor), key) == Some(value),
        value == decimal(n as nat) ==> crate::decimal::parsed(value, u64::MAX as int) == Some(
            n as int,
        ) && (n <= 65535 ==> crate::decimal::parsed(value, u16::MAX as int) == Some(n as int)),
{
    a_write_touches_one_setting(rows, key, Some(value), at, actor, key);
    decimal_round_trip(n as nat, u64::MAX as int);
    if n <= 65535 {
        decimal_round_trip(n as nat, u16::MAX as int);
    }
}

/// A switch written under the name of a setting is that setting's.
pub proof fn written_switches_are_in_force(
    rows: Seq<SettingRowView>,
    env: ConfigView,
    on: bool,
    at: i64,
    actor: Seq<char>,
)
    ensures
        ({
            let o = overlaid(
                after_write(
                    rows,
                    "smtp_starttls"@,
                    Some(
                        if on {
                            "1"@
                        } else {
                            "0"@
                        },
                    ),
                    at,
                    actor,
                ),
                env,
            );
            o.smtp_starttls == on && o.smtp_starttls_source == "db"@
        }),
        ({
            let o = overlaid(
                after_write(
                    rows,
                    "public_password_login"@,
                    Some(
                        if on {
                            "1"@
                        } else {
                            "0"@
                        },
                    ),
                    at,
                    actor,
                ),
                env,
            );
            o.resolved.public_password_login == on && o.public_password_login_source == "db"@
        }),
        ({
            let o = overlaid(
                after_write(
                    rows,
                    "require_provisioning"@,
                    Some(
                        if on {
                            "1"@
                        } else {
                            "0"@
                        },
                    ),
                    at,
                    actor,
                ),
                env,
            );
            o.resolved.require_provisioning == on && o.require_provisioning_source == "db"@
        }),
        ({
            let o = overlaid(
                after_write(
                    rows,
                    "draining"@,
                    Some(
                        if on {
                            "1"@
                        } else {
                            "0"@
                        },
                    ),
                    at,
                    actor,
                ),
                env,
            );
            o.resolved.draining == on && o.draining_source == "db"@
        }),
{
    let value = if on {
        "1"@
    } else {
        "0"@
    };
    reveal_strlit("1");
    reveal_strlit("0");
    assert("1"@[0] != "0"@[0]);
    lemma_written(rows, "smtp_starttls"@, value, 0, at, actor, env);
    lemma_written(rows, "public_password_login"@, value, 0, at, actor, env);
    lemma_written(rows, "require_provisioning"@, value, 0, at, actor, env);
    lemma_written(rows, "draining"@, value, 0, at, actor, env);
}

/// A text written under the name of a setting is that setting's.
pub proof fn written_texts_are_in_force(
    rows: Seq<SettingRowView>,
    env: ConfigView,
    value: Seq<char>,
    at: i64,
    actor: Seq<char>,
)
    requires
        value.len() > 0,
    ensures
        ({
            let o = overlaid(after_write(rows, "smtp_host"@, Some(value), at, actor), env);
            o.smtp_host == Some(value) && o.smtp_host_source == "db"@
        }),
        ({
            let o = overlaid(after_write(rows, "smtp_username"@, Some(value), at, actor), env);
            o.smtp_username == Some(value) && o.smtp_username_source == "db"@
        }),
        ({
            let o = overlaid(after_write(rows, "smtp_from"@, Some(value), at, actor), env);
            o.smtp_from == Some(value) && o.smtp_from_source == "db"@
        }),
        ({
            let o = overlaid(after_write(rows, "scim_token"@, Some(value), at, actor), env);
            o.resolved.scim_token == Some(value) && o.scim_token_source == "db"@ && o.scim_token_set
        }),
        ({
            let o = overlaid(after_write(rows, "scim_token_previous"@, Some(value), at, actor), env);
            o.resolved.scim_token_previous == Some(value) && o.scim_token_previous_set
        }),
        ({
            let o = overlaid(after_write(rows, "replica_token"@, Some(value), at, actor), env);
            o.resolved.replica_token == Some(value) && o.replica_token_source == "db"@ && o.replica_token_set
        }),
        ({
            let o = overlaid(after_write(rows, "smtp_password"@, Some(value), at, actor), env);
            o.smtp_password_set && o.smtp_password_source == "db"@ && (o.resolved.smtp matches Some(
                c,
            ) ==> c.password == Some(value))
        }),
{
    lemma_written(rows, "smtp_host"@, value, 0, at, actor, env);
    lemma_written(rows, "smtp_username"@, value, 0, at, actor, env);
    lemma_written(rows, "smtp_from"@, value, 0, at, actor, env);
    lemma_written(rows, "scim_token"@, value, 0, at, actor, env);
    lemma_written(rows, "scim_token_previous"@, value, 0, at, actor, env);
    lemma_written(rows, "replica_token"@, value, 0, at, actor, env);
    lemma_written(rows, "smtp_password"@, value, 0, at, actor, env);
}

/// Of several writes the last of each key counts, and a key that none names stays as it was;
/// every round of writes counts as one change.
pub proof fn the_last_write_counts(
    s: StoreView,
    actor: Seq<char>,
    writes: Seq<(Seq<char>, Option<Seq<char>>)>,
    now: u64,
    key: Seq<char>,
)
    requires
        now <= i64::MAX,
    ensures
        ({
            let after = settings_written(s, actor, writes, now);
            &&& forall|i: int|
                0 <= i < writes.len() && (#[trigger] writes[i]).0 == key && (forall|j: int|
                    i < j < writes.len() ==> (#[trigger] writes[j]).0 != key) ==> set_to(
                    after.settings,
                    key,
                ) == writes[i].1
            &&& (forall|j: int| 0 <= j < writes.len() ==> (#[trigger] writes[j]).0 != key)
                ==> set_to(after.settings, key) == set_to(s.settings, key)
            &&& s.settings_generation < u64::MAX ==> after.settings_generation
                == s.settings_generation + 1
            &&& s.settings_generation == u64::MAX ==> after.settings_generation == 0
            &&& after == StoreView {
                settings: after.settings,
                settings_generation: after.settings_generation,
                ..s
            }
        }),
    decreases writes.len(),
{
    if writes.len() > 0 {
        let head = writes.drop_last();
        let n = writes.len() - 1;
        the_last_write_counts(s, actor, head, now, key);
        let before = settings_written(s, actor, head, now).settings;
        a_write_touches_one_setting(
            before,
            writes.last().0,
            writes.last().1,
            crate::columns::column_or_zero(now),
            actor,
            key,
        );
        assert(writes[n] == writes.last());
        let after = settings_written(s, actor, writes, now);
        assert forall|i: int|
            0 <= i < writes.len() && (#[trigger] writes[i]).0 == key && (forall|j: int|
                i < j < writes.len() ==> (#[trigger] writes[j]).0 != key) implies set_to(
            after.settings,
            key,
        ) == writes[i].1 by {
            if i < n {
                assert(writes[n].0 != key);
                assert(head[i] == writes[i]);
                assert forall|j: int| i < j < head.len() implies (#[trigger] head[j]).0 != key by {
                    assert(writes[j].0 != key);
                }
            }
        }
        if forall|j: int| 0 <= j < writes.len() ==> (#[trigger] writes[j]).0 != key {
            assert(writes[n].0 != key);
            assert forall|j: int| 0 <= j < head.len() implies (#[trigger] head[j]).0 != key by {
                assert(writes[j].0 != key);
            }
        }
    }
}

/// A setting that is written notes who wrote it and when.
pub proof fn writes_are_signed(
    rows: Seq<SettingRowView>,
    key: Seq<char>,
    value: Seq<char>,
    at: i64,
    actor: Seq<char>,
)
    ensures
        first(after_write(rows, key, Some(value), at, actor), setting_is(key)) matches Some(r)
            && r.key == key && r.value == value && r.updated_at == at && r.updated_by == actor,
{
    let row = SettingRowView { key, value, updated_at: at, updated_by: actor };
    crate::readback::lemma_first_put(
        rows,
        setting_is(key),
        crate::settings::resettled(value, at, actor),
        row,
    );
}

/// The default namespace has the limits of the settings, a tenant its own, and what is neither
/// has none.
pub proof fn caps_are_the_namespaces_own(
    s: StoreView,
    tenant: Seq<char>,
    env: ConfigView,
    t: TenantRowView,
    told: TenantView,
)
    ensures
        tenant.len() == 0 ==> caps_of(s, tenant, env) == Ok::<crate::settings::Quotas, Seq<char>>(
            (
                overlaid(s.settings, env).resolved.default_max_total_bytes,
                overlaid(s.settings, env).resolved.default_max_links,
                overlaid(s.settings, env).resolved.default_max_sessions,
            ),
        ),
        tenant.len() > 0 && (forall|o: TenantRowView| #[trigger]
            s.tenants.contains(o) ==> o.key != tenant) ==> caps_of(s, tenant, env) == Ok::<
            crate::settings::Quotas,
            Seq<char>,
        >((None, None, None)),
        tenant.len() > 0 && s.tenants.contains(t) && t.key == tenant && (forall|o: TenantRowView|
         #[trigger]
            s.tenants.contains(o) && o.key == tenant ==> o == t) && tenant_of()(t) == Ok::<
            TenantView,
            Seq<char>,
        >(told) ==> caps_of(s, tenant, env) == Ok::<crate::settings::Quotas, Seq<char>>(
            (told.max_total_bytes, told.max_links, told.max_sessions),
        ),
{
    lemma_found(s.tenants, tenant_is(tenant));
}

} // verus!
