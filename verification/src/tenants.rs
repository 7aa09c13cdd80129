//! Tenants and their branding.
use vstd::prelude::*;

use crate::columns::{
    column, column_or_zero, decode_error, from_column, natural, to_column, to_column_or_zero,
    undecoded,
};
use crate::decimal::{
    decimal, decimal_round_trip, not_a_number, number_error, parse_number, parsed, u64_text,
};
use crate::kinds::{InsertTenantError, TenantRemoval};
use crate::links::tenant_is;
use crate::records::{Branding, BrandingView, Tenant, TenantView};
use crate::rows::{
    AutomationTokenRow, AutomationTokenRowView, BrandingRow, BrandingRowView, DefaultsRow,
    DefaultsRowView, DestinationRow, DestinationRowView, DigestRow, DigestRowView, EventRow,
    EventRowView, EvidenceRow, EvidenceRowView, FileRow, FileRowView, GrantFileRow,
    GrantFileRowView, GrantRow, GrantRowView, InboundRouteRow, InboundRouteRowView, JobRow,
    JobRowView, LinkRow, OperationRow, OperationRowView, OutboundRouteRow, OutboundRouteRowView,
    OverrideRow, OverrideRowView, QuotaRow, QuotaRowView, SessionFileRow, SessionFileRowView,
    SessionRow, SessionRowView, TenantRow, TenantRowView, TradeEndpointRow, TradeEndpointRowView,
    TradeInvitationRow, TradeInvitationRowView, TradeRouteRow, TradeRouteRowView, UploadRow,
    UploadRowView,
};
use crate::store::{Store, StoreView, follows};
use crate::table::{
    Row, any, append_row, count, count_where, delete_where, dup_option, exists_where, find, first,
    keep_where, lemma_filter_any, outcome, try_map, try_project, update_where,
};
use crate::text::{lowercase, same, text_of, texts, to_lowercase};
use crate::usage::link_in;

verus! {

// ------------------------------------------------------------ specifications
/// The mark that a quota column's text begins with.
pub open spec fn quota_mark() -> Seq<char> {
    seq!['u', ':']
}

/// A quota as its column holds it.
pub open spec fn quota_text(value: u64) -> Seq<char> {
    quota_mark() + decimal(value as nat)
}

/// An optional quota as its column holds it.
pub open spec fn quota_column(value: Option<u64>) -> Option<Seq<char>> {
    match value {
        Some(value) => Some(quota_text(value)),
        None => None,
    }
}

/// A quota column's text without its mark.
pub open spec fn unmarked(s: Seq<char>) -> Seq<char> {
    if s.len() >= 2 && s[0] == 'u' && s[1] == ':' {
        s.skip(2)
    } else {
        s
    }
}

/// The refusal of a quota column that holds no number.
pub open spec fn bad_quota(s: Seq<char>, index: Seq<char>) -> Seq<char> {
    undecoded(index, not_a_number(unmarked(s), u64::MAX as int))
}

/// The quota that a column holds.
pub open spec fn quota_read(s: Option<Seq<char>>, index: Seq<char>) -> Result<Option<u64>, Seq<char>> {
    match s {
        None => Ok(None),
        Some(s) => match parsed(unmarked(s), u64::MAX as int) {
            Some(n) => Ok(Some(n as u64)),
            None => Err(bad_quota(s, index)),
        },
    }
}

/// A quota survives being stored.
pub proof fn quota_round_trip(value: Option<u64>, index: Seq<char>)
    ensures
        quota_read(quota_column(value), index) == Ok::<Option<u64>, Seq<char>>(value),
{
    if let Some(n) = value {
        let s = quota_text(n);
        assert(s[0] == 'u');
        assert(s[1] == ':');
        assert(unmarked(s) =~= decimal(n as nat));
        decimal_round_trip(n as nat, u64::MAX as int);
    }
}

/// The tenant that a row stands for.
pub open spec fn tenant_of() -> spec_fn(TenantRowView) -> Result<TenantView, Seq<char>> {
    |t: TenantRowView|
        match quota_read(t.max_total_bytes, "3"@) {
            Err(e) => Err(e),
            Ok(bytes) => match quota_read(t.max_links, "4"@) {
                Err(e) => Err(e),
                Ok(links) => match quota_read(t.max_sessions, "5"@) {
                    Err(e) => Err(e),
                    Ok(sessions) => Ok(
                        TenantView {
                            key: t.key,
                            incarnation: t.incarnation,
                            label: t.label,
                            admin_group: t.admin_group,
                            max_total_bytes: bytes,
                            max_links: links,
                            max_sessions: sessions,
                            created_at: natural(t.created_at),
                        },
                    ),
                },
            },
        }
}

/// The row of a new tenant.
pub open spec fn tenant_row(t: TenantView, incarnation: Seq<char>) -> TenantRowView {
    TenantRowView {
        key: t.key,
        incarnation,
        label: t.label,
        admin_group: t.admin_group,
        max_total_bytes: quota_column(t.max_total_bytes),
        max_links: quota_column(t.max_links),
        max_sessions: quota_column(t.max_sessions),
        created_at: column_or_zero(t.created_at),
    }
}

/// Tenants whose key is the same but for the case of its letters.
pub open spec fn tenant_alike(key: Seq<char>) -> spec_fn(TenantRowView) -> bool {
    |t: TenantRowView| lowercase(t.key) == lowercase(key)
}

/// A tenant with another label, group and quotas.
pub open spec fn tenant_updated(t: TenantView) -> spec_fn(TenantRowView) -> TenantRowView {
    |row: TenantRowView|
        TenantRowView {
            label: t.label,
            admin_group: t.admin_group,
            max_total_bytes: quota_column(t.max_total_bytes),
            max_links: quota_column(t.max_links),
            max_sessions: quota_column(t.max_sessions),
            ..row
        }
}

/// The branding of a tenant.
pub open spec fn branding_of(tenant: Seq<char>) -> spec_fn(BrandingRowView) -> bool {
    |b: BrandingRowView| b.tenant == tenant
}

/// The branding of other tenants.
pub open spec fn branding_of_others(tenant: Seq<char>) -> spec_fn(BrandingRowView) -> bool {
    |b: BrandingRowView| b.tenant != tenant
}

/// The branding that a row stands for.
pub open spec fn branding_read(b: BrandingRowView) -> BrandingView {
    BrandingView {
        tenant: b.tenant,
        name: b.name,
        color: b.color,
        logo_ext: b.logo_ext,
        footer_text: b.footer_text,
        footer_link_label: b.footer_link_label,
        footer_link_url: b.footer_link_url,
        updated_at: natural(b.updated_at),
    }
}

/// The row of a branding.
pub open spec fn branding_row(b: BrandingView) -> BrandingRowView {
    BrandingRowView {
        tenant: b.tenant,
        name: b.name,
        color: b.color,
        logo_ext: b.logo_ext,
        updated_at: column(b.updated_at),
        footer_text: b.footer_text,
        footer_link_label: b.footer_link_label,
        footer_link_url: b.footer_link_url,
    }
}

/// Another branding in its place.
pub open spec fn rebranded(row: BrandingRowView) -> spec_fn(BrandingRowView) -> BrandingRowView {
    |b: BrandingRowView| row
}

// ------------------------------------------------------------------- removal
/// Whether a job's delivery to a destination still has to be settled with the
/// peer.
pub open spec fn unsettled(r: OutboundRouteRowView, j: JobRowView) -> bool {
    j.id == r.job_id && j.state != "suspended"@ && !r.acknowledged && (r.revocation || j.state
        == "cancelled"@ || ((j.state == "retiring"@ || j.state == "retired"@) && j.retired_from
        == Some("cancelled"@)) || j.source_revoked || r.destination_state != Some("complete"@))
}

/// A tenant's job for which a route is unsettled.
pub open spec fn unsettled_job(r: OutboundRouteRowView, tenant: Seq<char>) -> spec_fn(JobRowView) -> bool {
    |j: JobRowView| j.tenant == tenant && unsettled(r, j)
}

/// Routes of a tenant's jobs that are unsettled.
pub open spec fn unsettled_route(jobs: Seq<JobRowView>, tenant: Seq<char>) -> spec_fn(
    OutboundRouteRowView,
) -> bool {
    |r: OutboundRouteRowView| any(jobs, unsettled_job(r, tenant))
}

pub open spec fn other_tenant(key: Seq<char>) -> spec_fn(TenantRowView) -> bool {
    |t: TenantRowView| t.key != key
}

pub open spec fn file_elsewhere(key: Seq<char>) -> spec_fn(FileRowView) -> bool {
    |f: FileRowView| f.tenant != key
}

pub open spec fn quota_elsewhere(key: Seq<char>) -> spec_fn(QuotaRowView) -> bool {
    |q: QuotaRowView| q.tenant != key
}

pub open spec fn upload_elsewhere(key: Seq<char>) -> spec_fn(UploadRowView) -> bool {
    |u: UploadRowView| u.tenant != key
}

pub open spec fn session_elsewhere(key: Seq<char>) -> spec_fn(SessionRowView) -> bool {
    |s: SessionRowView| s.tenant != key
}

pub open spec fn session_named(key: Seq<char>, id: Seq<char>) -> spec_fn(SessionRowView) -> bool {
    |s: SessionRowView| s.tenant == key && s.id == id
}

pub open spec fn session_file_elsewhere(sessions: Seq<SessionRowView>, key: Seq<char>) -> spec_fn(
    SessionFileRowView,
) -> bool {
    |f: SessionFileRowView| !any(sessions, session_named(key, f.session_id))
}

pub open spec fn trade_route_named(key: Seq<char>, id: Seq<char>) -> spec_fn(TradeRouteRowView) -> bool {
    |r: TradeRouteRowView| r.tenant == key && r.id == id
}

pub open spec fn outgoing_named(key: Seq<char>, id: Seq<char>) -> spec_fn(TradeRouteRowView) -> bool {
    |r: TradeRouteRowView| r.tenant == key && r.direction == "outgoing"@ && r.id == id
}

pub open spec fn rotation_elsewhere(routes: Seq<TradeRouteRowView>, key: Seq<char>) -> spec_fn(
    Seq<char>,
) -> bool {
    |id: Seq<char>| !any(routes, trade_route_named(key, id))
}

pub open spec fn storage_elsewhere(routes: Seq<TradeRouteRowView>, key: Seq<char>) -> spec_fn(
    Seq<char>,
) -> bool {
    |id: Seq<char>| !any(routes, outgoing_named(key, id))
}

pub open spec fn inbound_named(key: Seq<char>, id: Seq<char>) -> spec_fn(InboundRouteRowView) -> bool {
    |r: InboundRouteRowView| r.tenant == key && r.id == id
}

pub open spec fn inbound_part_elsewhere(routes: Seq<InboundRouteRowView>, key: Seq<char>) -> spec_fn(
    Seq<char>,
) -> bool {
    |id: Seq<char>| !any(routes, inbound_named(key, id))
}

pub open spec fn inbound_elsewhere(key: Seq<char>) -> spec_fn(InboundRouteRowView) -> bool {
    |r: InboundRouteRowView| r.tenant != key
}

pub open spec fn job_named(key: Seq<char>, id: Seq<char>) -> spec_fn(JobRowView) -> bool {
    |j: JobRowView| j.tenant == key && j.id == id
}

pub open spec fn outbound_elsewhere(jobs: Seq<JobRowView>, key: Seq<char>) -> spec_fn(
    OutboundRouteRowView,
) -> bool {
    |r: OutboundRouteRowView| !any(jobs, job_named(key, r.job_id))
}

pub open spec fn override_elsewhere(jobs: Seq<JobRowView>, key: Seq<char>) -> spec_fn(
    OverrideRowView,
) -> bool {
    |o: OverrideRowView| !any(jobs, job_named(key, o.job_id))
}

pub open spec fn job_elsewhere(key: Seq<char>) -> spec_fn(JobRowView) -> bool {
    |j: JobRowView| j.tenant != key
}

pub open spec fn grant_named(key: Seq<char>, id: Seq<char>) -> spec_fn(GrantRowView) -> bool {
    |g: GrantRowView| g.tenant == key && g.id == id
}

pub open spec fn digest_elsewhere(grants: Seq<GrantRowView>, key: Seq<char>) -> spec_fn(
    DigestRowView,
) -> bool {
    |d: DigestRowView| !any(grants, grant_named(key, d.grant_id))
}

pub open spec fn evidence_elsewhere(grants: Seq<GrantRowView>, key: Seq<char>) -> spec_fn(
    EvidenceRowView,
) -> bool {
    |e: EvidenceRowView| !any(grants, grant_named(key, e.grant_id))
}

pub open spec fn cache_elsewhere(grants: Seq<GrantRowView>, key: Seq<char>) -> spec_fn(
    Seq<char>,
) -> bool {
    |id: Seq<char>| !any(grants, grant_named(key, id))
}

pub open spec fn grant_file_elsewhere(grants: Seq<GrantRowView>, key: Seq<char>) -> spec_fn(
    GrantFileRowView,
) -> bool {
    |f: GrantFileRowView| !any(grants, grant_named(key, f.grant_id))
}

pub open spec fn grant_elsewhere(key: Seq<char>) -> spec_fn(GrantRowView) -> bool {
    |g: GrantRowView| g.tenant != key
}

pub open spec fn event_elsewhere(key: Seq<char>) -> spec_fn(EventRowView) -> bool {
    |e: EventRowView| e.tenant != key
}

pub open spec fn text_elsewhere(key: Seq<char>) -> spec_fn(Seq<char>) -> bool {
    |t: Seq<char>| t != key
}

pub open spec fn destination_elsewhere(key: Seq<char>) -> spec_fn(DestinationRowView) -> bool {
    |d: DestinationRowView| d.tenant != key
}

pub open spec fn defaults_elsewhere(key: Seq<char>) -> spec_fn(DefaultsRowView) -> bool {
    |d: DefaultsRowView| d.tenant != key
}

pub open spec fn invitation_elsewhere(key: Seq<char>) -> spec_fn(TradeInvitationRowView) -> bool {
    |i: TradeInvitationRowView| i.tenant != key
}

pub open spec fn endpoint_elsewhere(key: Seq<char>) -> spec_fn(TradeEndpointRowView) -> bool {
    |e: TradeEndpointRowView| e.tenant != key
}

pub open spec fn trade_route_elsewhere(key: Seq<char>) -> spec_fn(TradeRouteRowView) -> bool {
    |r: TradeRouteRowView| r.tenant != key
}

pub open spec fn token_named(key: Seq<char>, id: Seq<char>) -> spec_fn(AutomationTokenRowView) -> bool {
    |t: AutomationTokenRowView| t.tenant == key && t.id == id
}

pub open spec fn operation_elsewhere(tokens: Seq<AutomationTokenRowView>, key: Seq<char>) -> spec_fn(
    OperationRowView,
) -> bool {
    |o: OperationRowView| !any(tokens, token_named(key, o.token_id))
}

pub open spec fn token_elsewhere(key: Seq<char>) -> spec_fn(AutomationTokenRowView) -> bool {
    |t: AutomationTokenRowView| t.tenant != key
}

/// The store without a tenant and all that is its own.
pub open spec fn without_tenant(s: StoreView, key: Seq<char>) -> StoreView {
    StoreView {
        tenants: s.tenants.filter(other_tenant(key)),
        files: s.files.filter(file_elsewhere(key)),
        quotas: s.quotas.filter(quota_elsewhere(key)),
        uploads: s.uploads.filter(upload_elsewhere(key)),
        session_files: s.session_files.filter(session_file_elsewhere(s.sessions, key)),
        sessions: s.sessions.filter(session_elsewhere(key)),
        trade_rotations: s.trade_rotations.filter(rotation_elsewhere(s.trade_routes, key)),
        trade_delivery_policies: s.trade_delivery_policies.filter(
            inbound_part_elsewhere(s.inbound_routes, key),
        ),
        storage_credentials: s.storage_credentials.filter(storage_elsewhere(s.trade_routes, key)),
        delivery_storage: s.delivery_storage.filter(storage_elsewhere(s.trade_routes, key)),
        route_uploads: s.route_uploads.filter(inbound_part_elsewhere(s.inbound_routes, key)),
        inbound_routes: s.inbound_routes.filter(inbound_elsewhere(key)),
        outbound_routes: s.outbound_routes.filter(outbound_elsewhere(s.jobs, key)),
        notification_overrides: s.notification_overrides.filter(override_elsewhere(s.jobs, key)),
        digests: s.digests.filter(digest_elsewhere(s.grants, key)),
        evidence: s.evidence.filter(evidence_elsewhere(s.grants, key)),
        policy_cache: s.policy_cache.filter(cache_elsewhere(s.grants, key)),
        events: s.events.filter(event_elsewhere(key)),
        jobs: s.jobs.filter(job_elsewhere(key)),
        projects: s.projects.filter(text_elsewhere(key)),
        webhooks: s.webhooks.filter(text_elsewhere(key)),
        webhook_attempts: s.webhook_attempts.filter(text_elsewhere(key)),
        destinations: s.destinations.filter(destination_elsewhere(key)),
        notification_defaults: s.notification_defaults.filter(defaults_elsewhere(key)),
        trade_invitations: s.trade_invitations.filter(invitation_elsewhere(key)),
        trade_endpoints: s.trade_endpoints.filter(endpoint_elsewhere(key)),
        trade_routes: s.trade_routes.filter(trade_route_elsewhere(key)),
        grant_files: s.grant_files.filter(grant_file_elsewhere(s.grants, key)),
        grants: s.grants.filter(grant_elsewhere(key)),
        operations: s.operations.filter(operation_elsewhere(s.tokens, key)),
        tokens: s.tokens.filter(token_elsewhere(key)),
        branding: s.branding.filter(branding_of_others(key)),
        ..s
    }
}

/// A tenant removed, unless its links or unsettled routes hold it back.
/// `storage` is what came of removing the storage set up for it.
pub open spec fn removed(s: StoreView, key: Seq<char>, storage: Result<(), String>) -> Result<
    (StoreView, TenantRemoval),
    Seq<char>,
> {
    if any(s.outbound_routes, unsettled_route(s.jobs, key)) {
        Ok((s, TenantRemoval::HasRoutes))
    } else if any(s.tenants, tenant_is(key)) && any(s.links, link_in(key)) {
        Ok((s, TenantRemoval::HasLinks))
    } else if storage is Err {
        Err(storage->Err_0@)
    } else {
        Ok(
            (
                without_tenant(s, key),
                if any(s.tenants, tenant_is(key)) {
                    TenantRemoval::Deleted
                } else {
                    TenantRemoval::Absent
                },
            ),
        )
    }
}

// ---------------------------------------------------------------- operations
/// A quota as its column holds it.
pub fn encode_quota(value: u64) -> (s: String)
    ensures
        s@ == quota_text(value),
{
    let mut s = String::new();
    s.push('u');
    s.push(':');
    assert(s@ =~= quota_mark());
    s.append(u64_text(value).as_str());
    s
}

fn encode_optional_quota(value: Option<u64>) -> (s: Option<String>)
    ensures
        s.deep_view() == quota_column(value),
{
    match value {
        Some(value) => Some(encode_quota(value)),
        None => None,
    }
}

/// The quota that a column holds; `index` names the column.
pub fn decode_quota(value: &Option<String>, index: &str) -> (r: Result<Option<u64>, String>)
    ensures
        outcome(r) == quota_read(value.deep_view(), index@),
{
    match value {
        None => Ok(None),
        Some(text) => {
            let v = crate::text::chars(text.as_str());
            let bare = if v.len() >= 2 && v[0] == 'u' && v[1] == ':' {
                text_of(&v, 2, v.len())
            } else {
                text.clone()
            };
            assert(bare@ =~= unmarked(text@));
            match parse_number(bare.as_str(), u64::MAX) {
                Some(n) => Ok(Some(n)),
                None => Err(
                    decode_error(index, number_error(bare.as_str(), u64::MAX).as_str()),
                ),
            }
        },
    }
}

/// The tenant that a row stands for.
pub fn map_tenant(t: &TenantRow) -> (r: Result<Tenant, String>)
    ensures
        outcome(r) == tenant_of()(t@),
{
    let max_total_bytes = match decode_quota(&t.max_total_bytes, "3") {
        Ok(value) => value,
        Err(error) => {
            return Err(error);
        },
    };
    let max_links = match decode_quota(&t.max_links, "4") {
        Ok(value) => value,
        Err(error) => {
            return Err(error);
        },
    };
    let max_sessions = match decode_quota(&t.max_sessions, "5") {
        Ok(value) => value,
        Err(error) => {
            return Err(error);
        },
    };
    Ok(
        Tenant {
            key: t.key.clone(),
            incarnation: t.incarnation.clone(),
            label: t.label.clone(),
            admin_group: dup_option(&t.admin_group),
            max_total_bytes,
            max_links,
            max_sessions,
            created_at: from_column(t.created_at),
        },
    )
}

fn is_unsettled(r: &OutboundRouteRow, j: &JobRow) -> (b: bool)
    ensures
        b == unsettled(r@, j@),
{
    same(j.id.as_str(), r.job_id.as_str()) && !same(j.state.as_str(), "suspended")
        && !r.acknowledged && (r.revocation || same(j.state.as_str(), "cancelled") || ((same(
        j.state.as_str(),
        "retiring",
    ) || same(j.state.as_str(), "retired")) && is_text(&j.retired_from, "cancelled"))
        || j.source_revoked || !is_text(&r.destination_state, "complete"))
}

fn is_text(value: &Option<String>, text: &str) -> (r: bool)
    ensures
        r == (value.deep_view() == Some(text@)),
{
    match value {
        Some(value) => same(value.as_str(), text),
        None => false,
    }
}

impl Store {
    /// Inserts a tenant under a new incarnation, unless there is one whose key
    /// is the same but for the case of its letters.
    pub fn insert_tenant(&mut self, tenant: Tenant, incarnation: String) -> (r: Result<
        (),
        InsertTenantError,
    >)
        ensures
            match crate::answers::with_tenant(old(self)@, tenant@, incarnation@) {
                None => r == Err::<(), InsertTenantError>(InsertTenantError::AlreadyExists)
                    && final(self)@ == old(self)@,
                Some(after) => r is Ok && final(self)@ == after,
            },
    {
        let lowered = to_lowercase(tenant.key.as_str());
        let alike = |t: &TenantRow| -> (b: bool)
            ensures
                b == tenant_alike(tenant.key@)(t@),
        {
            same(to_lowercase(t.key.as_str()).as_str(), lowered.as_str())
        };
        if exists_where(&self.tenants, alike, Ghost(tenant_alike(tenant.key@))) {
            return Err(InsertTenantError::AlreadyExists);
        }
        append_row(
            &mut self.tenants,
            TenantRow {
                key: tenant.key.clone(),
                incarnation,
                label: tenant.label.clone(),
                admin_group: dup_option(&tenant.admin_group),
                max_total_bytes: encode_optional_quota(tenant.max_total_bytes),
                max_links: encode_optional_quota(tenant.max_links),
                max_sessions: encode_optional_quota(tenant.max_sessions),
                created_at: to_column_or_zero(tenant.created_at),
            },
        );
        Ok(())
    }

    /// The tenants in order of insertion.
    pub fn tenants(&self) -> (r: Result<Vec<Tenant>, String>)
        ensures
            outcome(r) == try_map(self@.tenants, tenant_of()),
    {
        let read = |t: &TenantRow| -> (r: Result<Tenant, String>)
            ensures
                outcome(r) == tenant_of()(t@),
        {
            map_tenant(t)
        };
        try_project(&self.tenants, read, Ghost(tenant_of()))
    }

    /// A tenant by its key.
    pub fn tenant(&self, key: &str) -> (r: Result<Option<Tenant>, String>)
        ensures
            outcome(r) == crate::answers::tenant_told(self@, key@),
    {
        let hit = |t: &TenantRow| -> (b: bool)
            ensures
                b == tenant_is(key@)(t@),
        {
            same(t.key.as_str(), key)
        };
        match find(&self.tenants, hit, Ghost(tenant_is(key@))) {
            Some(found) => match map_tenant(&self.tenants[found]) {
                Ok(tenant) => Ok(Some(tenant)),
                Err(error) => Err(error),
            },
            None => Ok(None),
        }
    }

    /// The incarnation of the tenant under a key.
    pub fn tenant_incarnation(&self, key: &str) -> (r: Option<String>)
        ensures
            r.deep_view() == match first(self@.tenants, tenant_is(key@)) {
                Some(t) => Some(t.incarnation),
                None => None,
            },
    {
        let hit = |t: &TenantRow| -> (b: bool)
            ensures
                b == tenant_is(key@)(t@),
        {
            same(t.key.as_str(), key)
        };
        match find(&self.tenants, hit, Ghost(tenant_is(key@))) {
            Some(found) => Some(self.tenants[found].incarnation.clone()),
            None => None,
        }
    }

    /// The incarnations of those of `keys` that are tenants, key by key.
    pub fn tenant_incarnations(&self, keys: &[String]) -> (r: Result<Vec<(String, String)>, String>)
        ensures
            outcome(r) == Ok::<Seq<(Seq<char>, Seq<char>)>, Seq<char>>(
                incarnations(self@, texts(keys@)),
            ),
    {
        let ghost all = texts(keys@);
        let mut out: Vec<(String, String)> = Vec::new();
        let mut i: usize = 0;
        proof {
            assert(all.take(0) =~= Seq::<Seq<char>>::empty());
            assert(out.deep_view() =~= Seq::<(Seq<char>, Seq<char>)>::empty());
        }
        while i < keys.len()
            invariant
                i <= keys.len(),
                all == texts(keys@),
                out.deep_view() == incarnations(self@, all.take(i as int)),
            decreases keys.len() - i,
        {
            proof {
                assert(all.take(i + 1).drop_last() =~= all.take(i as int));
                assert(all.take(i + 1).last() == keys@[i as int]@);
            }
            if let Some(incarnation) = self.tenant_incarnation(keys[i].as_str()) {
                append_row(&mut out, (keys[i].clone(), incarnation));
            }
            i += 1;
        }
        assert(all.take(i as int) =~= all);
        Ok(out)
    }

    /// How many links a tenant has.
    pub fn tenant_link_count(&self, key: &str) -> (r: Result<u64, String>)
        ensures
            outcome(r) == Ok::<u64, Seq<char>>(count(self@.links, link_in(key@)) as u64),
    {
        let own = |l: &LinkRow| -> (b: bool)
            ensures
                b == link_in(key@)(l@),
        {
            same(l.tenant.as_str(), key)
        };
        Ok(count_where(&self.links, own, Ghost(link_in(key@))) as u64)
    }

    /// Changes a tenant's label, group and quotas; its key, incarnation and time
    /// of creation stay. Reports whether there is such a tenant.
    pub fn update_tenant(&mut self, tenant: &Tenant) -> (r: Result<bool, String>)
        ensures
            final(self)@ == crate::tenancy::with_tenant_updated(old(self)@, tenant@),
            outcome(r) == Ok::<bool, Seq<char>>(any(old(self)@.tenants, tenant_is(tenant@.key))),
    {
        let hit = |t: &TenantRow| -> (b: bool)
            ensures
                b == tenant_is(tenant.key@)(t@),
        {
            same(t.key.as_str(), tenant.key.as_str())
        };
        let change = |t: &TenantRow| -> (r: TenantRow)
            ensures
                r@ == tenant_updated(tenant@)(t@),
        {
            TenantRow {
                key: t.key.clone(),
                incarnation: t.incarnation.clone(),
                label: tenant.label.clone(),
                admin_group: dup_option(&tenant.admin_group),
                max_total_bytes: encode_optional_quota(tenant.max_total_bytes),
                max_links: encode_optional_quota(tenant.max_links),
                max_sessions: encode_optional_quota(tenant.max_sessions),
                created_at: t.created_at,
            }
        };
        proof {
            lemma_filter_any(self@.tenants, tenant_is(tenant@.key));
        }
        let changed: usize = update_where(
            &mut self.tenants,
            hit,
            change,
            Ghost(tenant_is(tenant.key@)),
            Ghost(tenant_updated(tenant@)),
        );
        Ok(changed > 0)
    }

    /// Removes a tenant and all that is its own. It is held back while it has
    /// links, or routes that are not settled with their peers. `storage` is what
    /// came of removing the storage set up for the tenant.
    pub fn remove_tenant(&mut self, key: &str, storage: Result<(), String>) -> (r: Result<
        TenantRemoval,
        String,
    >)
        ensures
            follows(removed(old(self)@, key@, storage), old(self)@, final(self)@, r),
    {
        let jobs = &self.jobs;
        let route = |r: &OutboundRouteRow| -> (b: bool)
            ensures
                b == unsettled_route(jobs.deep_view(), key@)(r@),
        {
            let job = |j: &JobRow| -> (b: bool)
                ensures
                    b == unsettled_job(r@, key@)(j@),
            {
                same(j.tenant.as_str(), key) && is_unsettled(r, j)
            };
            exists_where(jobs, job, Ghost(unsettled_job(r@, key@)))
        };
        if exists_where(
            &self.outbound_routes,
            route,
            Ghost(unsettled_route(jobs.deep_view(), key@)),
        ) {
            return Ok(TenantRemoval::HasRoutes);
        }
        let hit = |t: &TenantRow| -> (b: bool)
            ensures
                b == tenant_is(key@)(t@),
        {
            same(t.key.as_str(), key)
        };
        let own = |l: &LinkRow| -> (b: bool)
            ensures
                b == link_in(key@)(l@),
        {
            same(l.tenant.as_str(), key)
        };
        let there = exists_where(&self.tenants, hit, Ghost(tenant_is(key@)));
        if there && exists_where(&self.links, own, Ghost(link_in(key@))) {
            return Ok(TenantRemoval::HasLinks);
        }
        if let Err(error) = storage {
            return Err(error);
        }
        self.remove_received(key);
        self.remove_routes(key);
        self.remove_deliveries(key);
        self.remove_settings(key);
        if there {
            Ok(TenantRemoval::Deleted)
        } else {
            Ok(TenantRemoval::Absent)
        }
    }

    /// Removes what a tenant received.
    fn remove_received(&mut self, key: &str)
        ensures
            final(self)@ == (StoreView {
                session_files: old(self)@.session_files.filter(
                    session_file_elsewhere(old(self)@.sessions, key@),
                ),
                files: old(self)@.files.filter(file_elsewhere(key@)),
                quotas: old(self)@.quotas.filter(quota_elsewhere(key@)),
                uploads: old(self)@.uploads.filter(upload_elsewhere(key@)),
                sessions: old(self)@.sessions.filter(session_elsewhere(key@)),
                ..old(self)@
            }),
    {
        let owners = &self.sessions;
        let keep = |r: &SessionFileRow| -> (b: bool)
            ensures
                b == session_file_elsewhere(owners.deep_view(), key@)(r.deep_view()),
        {
            let id = r.session_id.as_str();
            let own = |o: &SessionRow| -> (b: bool)
                ensures
                    b == session_named(key@, id@)(o@),
            {
                same(o.tenant.as_str(), key) && same(o.id.as_str(), id)
            };
            !exists_where(owners, own, Ghost(session_named(key@, id@)))
        };
        keep_where(&mut self.session_files, keep, Ghost(session_file_elsewhere(owners.deep_view(), key@)));
        let keep = |r: &FileRow| -> (b: bool)
            ensures
                b == file_elsewhere(key@)(r.deep_view()),
        {
            !same(r.tenant.as_str(), key)
        };
        keep_where(&mut self.files, keep, Ghost(file_elsewhere(key@)));
        let keep = |r: &QuotaRow| -> (b: bool)
            ensures
                b == quota_elsewhere(key@)(r.deep_view()),
        {
            !same(r.tenant.as_str(), key)
        };
        keep_where(&mut self.quotas, keep, Ghost(quota_elsewhere(key@)));
        let keep = |r: &UploadRow| -> (b: bool)
            ensures
                b == upload_elsewhere(key@)(r.deep_view()),
        {
            !same(r.tenant.as_str(), key)
        };
        keep_where(&mut self.uploads, keep, Ghost(upload_elsewhere(key@)));
        let keep = |r: &SessionRow| -> (b: bool)
            ensures
                b == session_elsewhere(key@)(r.deep_view()),
        {
            !same(r.tenant.as_str(), key)
        };
        keep_where(&mut self.sessions, keep, Ghost(session_elsewhere(key@)));
    }

    /// Removes a tenant's routes and what hangs on them.
    fn remove_routes(&mut self, key: &str)
        ensures
            final(self)@ == (StoreView {
                trade_rotations: old(self)@.trade_rotations.filter(
                    rotation_elsewhere(old(self)@.trade_routes, key@),
                ),
                trade_delivery_policies: old(self)@.trade_delivery_policies.filter(
                    inbound_part_elsewhere(old(self)@.inbound_routes, key@),
                ),
                storage_credentials: old(self)@.storage_credentials.filter(
                    storage_elsewhere(old(self)@.trade_routes, key@),
                ),
                delivery_storage: old(self)@.delivery_storage.filter(
                    storage_elsewhere(old(self)@.trade_routes, key@),
                ),
                route_uploads: old(self)@.route_uploads.filter(
                    inbound_part_elsewhere(old(self)@.inbound_routes, key@),
                ),
                outbound_routes: old(self)@.outbound_routes.filter(
                    outbound_elsewhere(old(self)@.jobs, key@),
                ),
                inbound_routes: old(self)@.inbound_routes.filter(inbound_elsewhere(key@)),
                trade_invitations: old(self)@.trade_invitations.filter(invitation_elsewhere(key@)),
                trade_endpoints: old(self)@.trade_endpoints.filter(endpoint_elsewhere(key@)),
                trade_routes: old(self)@.trade_routes.filter(trade_route_elsewhere(key@)),
                ..old(self)@
            }),
    {
        let owners = &self.trade_routes;
        let keep = |r: &String| -> (b: bool)
            ensures
                b == rotation_elsewhere(owners.deep_view(), key@)(r.deep_view()),
        {
            let id = r.as_str();
            let own = |o: &TradeRouteRow| -> (b: bool)
                ensures
                    b == trade_route_named(key@, id@)(o@),
            {
                same(o.tenant.as_str(), key) && same(o.id.as_str(), id)
            };
            !exists_where(owners, own, Ghost(trade_route_named(key@, id@)))
        };
        keep_where(&mut self.trade_rotations, keep, Ghost(rotation_elsewhere(owners.deep_view(), key@)));
        let owners = &self.inbound_routes;
        let keep = |r: &String| -> (b: bool)
            ensures
                b == inbound_part_elsewhere(owners.deep_view(), key@)(r.deep_view()),
        {
            let id = r.as_str();
            let own = |o: &InboundRouteRow| -> (b: bool)
                ensures
                    b == inbound_named(key@, id@)(o@),
            {
                same(o.tenant.as_str(), key) && same(o.id.as_str(), id)
            };
            !exists_where(owners, own, Ghost(inbound_named(key@, id@)))
        };
        keep_where(&mut self.trade_delivery_policies, keep, Ghost(inbound_part_elsewhere(owners.deep_view(), key@)));
        let owners = &self.trade_routes;
        let keep = |r: &String| -> (b: bool)
            ensures
                b == storage_elsewhere(owners.deep_view(), key@)(r.deep_view()),
        {
            let id = r.as_str();
            let own = |o: &TradeRouteRow| -> (b: bool)
                ensures
                    b == outgoing_named(key@, id@)(o@),
            {
                same(o.tenant.as_str(), key) && same(o.direction.as_str(), "outgoing") && same(
                    o.id.as_str(),
                    id,
                )
            };
            !exists_where(owners, own, Ghost(outgoing_named(key@, id@)))
        };
        keep_where(&mut self.storage_credentials, keep, Ghost(storage_elsewhere(owners.deep_view(), key@)));
        let owners = &self.trade_routes;
        let keep = |r: &String| -> (b: bool)
            ensures
                b == storage_elsewhere(owners.deep_view(), key@)(r.deep_view()),
        {
            let id = r.as_str();
            let own = |o: &TradeRouteRow| -> (b: bool)
                ensures
                    b == outgoing_named(key@, id@)(o@),
            {
                same(o.tenant.as_str(), key) && same(o.direction.as_str(), "outgoing") && same(
                    o.id.as_str(),
                    id,
                )
            };
            !exists_where(owners, own, Ghost(outgoing_named(key@, id@)))
        };
        keep_where(&mut self.delivery_storage, keep, Ghost(storage_elsewhere(owners.deep_view(), key@)));
        let owners = &self.inbound_routes;
        let keep = |r: &String| -> (b: bool)
            ensures
                b == inbound_part_elsewhere(owners.deep_view(), key@)(r.deep_view()),
        {
            let id = r.as_str();
            let own = |o: &InboundRouteRow| -> (b: bool)
                ensures
                    b == inbound_named(key@, id@)(o@),
            {
                same(o.tenant.as_str(), key) && same(o.id.as_str(), id)
            };
            !exists_where(owners, own, Ghost(inbound_named(key@, id@)))
        };
        keep_where(&mut self.route_uploads, keep, Ghost(inbound_part_elsewhere(owners.deep_view(), key@)));
        let owners = &self.jobs;
        let keep = |r: &OutboundRouteRow| -> (b: bool)
            ensures
                b == outbound_elsewhere(owners.deep_view(), key@)(r.deep_view()),
        {
            let id = r.job_id.as_str();
            let own = |o: &JobRow| -> (b: bool)
                ensures
                    b == job_named(key@, id@)(o@),
            {
                same(o.tenant.as_str(), key) && same(o.id.as_str(), id)
            };
            !exists_where(owners, own, Ghost(job_named(key@, id@)))
        };
        keep_where(&mut self.outbound_routes, keep, Ghost(outbound_elsewhere(owners.deep_view(), key@)));
        let keep = |r: &InboundRouteRow| -> (b: bool)
            ensures
                b == inbound_elsewhere(key@)(r.deep_view()),
        {
            !same(r.tenant.as_str(), key)
        };
        keep_where(&mut self.inbound_routes, keep, Ghost(inbound_elsewhere(key@)));
        let keep = |r: &TradeInvitationRow| -> (b: bool)
            ensures
                b == invitation_elsewhere(key@)(r.deep_view()),
        {
            !same(r.tenant.as_str(), key)
        };
        keep_where(&mut self.trade_invitations, keep, Ghost(invitation_elsewhere(key@)));
        let keep = |r: &TradeEndpointRow| -> (b: bool)
            ensures
                b == endpoint_elsewhere(key@)(r.deep_view()),
        {
            !same(r.tenant.as_str(), key)
        };
        keep_where(&mut self.trade_endpoints, keep, Ghost(endpoint_elsewhere(key@)));
        let keep = |r: &TradeRouteRow| -> (b: bool)
            ensures
                b == trade_route_elsewhere(key@)(r.deep_view()),
        {
            !same(r.tenant.as_str(), key)
        };
        keep_where(&mut self.trade_routes, keep, Ghost(trade_route_elsewhere(key@)));
    }

    /// Removes a tenant's jobs, grants and their records.
    fn remove_deliveries(&mut self, key: &str)
        ensures
            final(self)@ == (StoreView {
                notification_overrides: old(self)@.notification_overrides.filter(
                    override_elsewhere(old(self)@.jobs, key@),
                ),
                digests: old(self)@.digests.filter(
                    digest_elsewhere(old(self)@.grants, key@),
                ),
                evidence: old(self)@.evidence.filter(
                    evidence_elsewhere(old(self)@.grants, key@),
                ),
                policy_cache: old(self)@.policy_cache.filter(
                    cache_elsewhere(old(self)@.grants, key@),
                ),
                grant_files: old(self)@.grant_files.filter(
                    grant_file_elsewhere(old(self)@.grants, key@),
                ),
                events: old(self)@.events.filter(event_elsewhere(key@)),
                jobs: old(self)@.jobs.filter(job_elsewhere(key@)),
                grants: old(self)@.grants.filter(grant_elsewhere(key@)),
                ..old(self)@
            }),
    {
        let owners = &self.jobs;
        let keep = |r: &OverrideRow| -> (b: bool)
            ensures
                b == override_elsewhere(owners.deep_view(), key@)(r.deep_view()),
        {
            let id = r.job_id.as_str();
            let own = |o: &JobRow| -> (b: bool)
                ensures
                    b == job_named(key@, id@)(o@),
            {
                same(o.tenant.as_str(), key) && same(o.id.as_str(), id)
            };
            !exists_where(owners, own, Ghost(job_named(key@, id@)))
        };
        keep_where(&mut self.notification_overrides, keep, Ghost(override_elsewhere(owners.deep_view(), key@)));
        let owners = &self.grants;
        let keep = |r: &DigestRow| -> (b: bool)
            ensures
                b == digest_elsewhere(owners.deep_view(), key@)(r.deep_view()),
        {
            let id = r.grant_id.as_str();
            let own = |o: &GrantRow| -> (b: bool)
                ensures
                    b == grant_named(key@, id@)(o@),
            {
                same(o.tenant.as_str(), key) && same(o.id.as_str(), id)
            };
            !exists_where(owners, own, Ghost(grant_named(key@, id@)))
        };
        keep_where(&mut self.digests, keep, Ghost(digest_elsewhere(owners.deep_view(), key@)));
        let owners = &self.grants;
        let keep = |r: &EvidenceRow| -> (b: bool)
            ensures
                b == evidence_elsewhere(owners.deep_view(), key@)(r.deep_view()),
        {
            let id = r.grant_id.as_str();
            let own = |o: &GrantRow| -> (b: bool)
                ensures
                    b == grant_named(key@, id@)(o@),
            {
                same(o.tenant.as_str(), key) && same(o.id.as_str(), id)
            };
            !exists_where(owners, own, Ghost(grant_named(key@, id@)))
        };
        keep_where(&mut self.evidence, keep, Ghost(evidence_elsewhere(owners.deep_view(), key@)));
        let owners = &self.grants;
        let keep = |r: &String| -> (b: bool)
            ensures
                b == cache_elsewhere(owners.deep_view(), key@)(r.deep_view()),
        {
            let id = r.as_str();
            let own = |o: &GrantRow| -> (b: bool)
                ensures
                    b == grant_named(key@, id@)(o@),
            {
                same(o.tenant.as_str(), key) && same(o.id.as_str(), id)
            };
            !exists_where(owners, own, Ghost(grant_named(key@, id@)))
        };
        keep_where(&mut self.policy_cache, keep, Ghost(cache_elsewhere(owners.deep_view(), key@)));
        let owners = &self.grants;
        let keep = |r: &GrantFileRow| -> (b: bool)
            ensures
                b == grant_file_elsewhere(owners.deep_view(), key@)(r.deep_view()),
        {
            let id = r.grant_id.as_str();
            let own = |o: &GrantRow| -> (b: bool)
                ensures
                    b == grant_named(key@, id@)(o@),
            {
                same(o.tenant.as_str(), key) && same(o.id.as_str(), id)
            };
            !exists_where(owners, own, Ghost(grant_named(key@, id@)))
        };
        keep_where(&mut self.grant_files, keep, Ghost(grant_file_elsewhere(owners.deep_view(), key@)));
        let keep = |r: &EventRow| -> (b: bool)
            ensures
                b == event_elsewhere(key@)(r.deep_view()),
        {
            !same(r.tenant.as_str(), key)
        };
        keep_where(&mut self.events, keep, Ghost(event_elsewhere(key@)));
        let keep = |r: &JobRow| -> (b: bool)
            ensures
                b == job_elsewhere(key@)(r.deep_view()),
        {
            !same(r.tenant.as_str(), key)
        };
        keep_where(&mut self.jobs, keep, Ghost(job_elsewhere(key@)));
        let keep = |r: &GrantRow| -> (b: bool)
            ensures
                b == grant_elsewhere(key@)(r.deep_view()),
        {
            !same(r.tenant.as_str(), key)
        };
        keep_where(&mut self.grants, keep, Ghost(grant_elsewhere(key@)));
    }

    /// Removes a tenant's settings and credentials.
    fn remove_settings(&mut self, key: &str)
        ensures
            final(self)@ == (StoreView {
                operations: old(self)@.operations.filter(
                    operation_elsewhere(old(self)@.tokens, key@),
                ),
                tokens: old(self)@.tokens.filter(token_elsewhere(key@)),
                projects: old(self)@.projects.filter(text_elsewhere(key@)),
                webhooks: old(self)@.webhooks.filter(text_elsewhere(key@)),
                webhook_attempts: old(self)@.webhook_attempts.filter(text_elsewhere(key@)),
                destinations: old(self)@.destinations.filter(destination_elsewhere(key@)),
                notification_defaults: old(self)@.notification_defaults.filter(defaults_elsewhere(key@)),
                branding: old(self)@.branding.filter(branding_of_others(key@)),
                tenants: old(self)@.tenants.filter(other_tenant(key@)),
                ..old(self)@
            }),
    {
        let owners = &self.tokens;
        let keep = |r: &OperationRow| -> (b: bool)
            ensures
                b == operation_elsewhere(owners.deep_view(), key@)(r.deep_view()),
        {
            let id = r.token_id.as_str();
            let own = |o: &AutomationTokenRow| -> (b: bool)
                ensures
                    b == token_named(key@, id@)(o@),
            {
                same(o.tenant.as_str(), key) && same(o.id.as_str(), id)
            };
            !exists_where(owners, own, Ghost(token_named(key@, id@)))
        };
        keep_where(&mut self.operations, keep, Ghost(operation_elsewhere(owners.deep_view(), key@)));
        let keep = |r: &AutomationTokenRow| -> (b: bool)
            ensures
                b == token_elsewhere(key@)(r.deep_view()),
        {
            !same(r.tenant.as_str(), key)
        };
        keep_where(&mut self.tokens, keep, Ghost(token_elsewhere(key@)));
        let keep = |r: &String| -> (b: bool)
            ensures
                b == text_elsewhere(key@)(r.deep_view()),
        {
            !same(r.as_str(), key)
        };
        keep_where(&mut self.projects, keep, Ghost(text_elsewhere(key@)));
        let keep = |r: &String| -> (b: bool)
            ensures
                b == text_elsewhere(key@)(r.deep_view()),
        {
            !same(r.as_str(), key)
        };
        keep_where(&mut self.webhooks, keep, Ghost(text_elsewhere(key@)));
        let keep = |r: &String| -> (b: bool)
            ensures
                b == text_elsewhere(key@)(r.deep_view()),
        {
            !same(r.as_str(), key)
        };
        keep_where(&mut self.webhook_attempts, keep, Ghost(text_elsewhere(key@)));
        let keep = |r: &DestinationRow| -> (b: bool)
            ensures
                b == destination_elsewhere(key@)(r.deep_view()),
        {
            !same(r.tenant.as_str(), key)
        };
        keep_where(&mut self.destinations, keep, Ghost(destination_elsewhere(key@)));
        let keep = |r: &DefaultsRow| -> (b: bool)
            ensures
                b == defaults_elsewhere(key@)(r.deep_view()),
        {
            !same(r.tenant.as_str(), key)
        };
        keep_where(&mut self.notification_defaults, keep, Ghost(defaults_elsewhere(key@)));
        let keep = |r: &BrandingRow| -> (b: bool)
            ensures
                b == branding_of_others(key@)(r.deep_view()),
        {
            !same(r.tenant.as_str(), key)
        };
        keep_where(&mut self.branding, keep, Ghost(branding_of_others(key@)));
        let keep = |r: &TenantRow| -> (b: bool)
            ensures
                b == other_tenant(key@)(r.deep_view()),
        {
            !same(r.key.as_str(), key)
        };
        keep_where(&mut self.tenants, keep, Ghost(other_tenant(key@)));
    }

    /// The branding of a tenant.
    pub fn branding(&self, tenant: &str) -> (r: Result<Option<Branding>, String>)
        ensures
            outcome(r) == Ok::<Option<BrandingView>, Seq<char>>(
                crate::answers::branding_told(self@, tenant@),
            ),
    {
        let hit = |b: &BrandingRow| -> (r: bool)
            ensures
                r == branding_of(tenant@)(b@),
        {
            same(b.tenant.as_str(), tenant)
        };
        match find(&self.branding, hit, Ghost(branding_of(tenant@))) {
            Some(found) => {
                let b = &self.branding[found];
                Ok(
                    Some(
                        Branding {
                            tenant: b.tenant.clone(),
                            name: b.name.clone(),
                            color: b.color.clone(),
                            logo_ext: b.logo_ext.clone(),
                            footer_text: b.footer_text.clone(),
                            footer_link_label: b.footer_link_label.clone(),
                            footer_link_url: b.footer_link_url.clone(),
                            updated_at: from_column(b.updated_at),
                        },
                    ),
                )
            },
            None => Ok(None),
        }
    }

    /// Sets the branding of a tenant, in place of an earlier one.
    pub fn set_branding(&mut self, branding: &Branding) -> (r: Result<(), String>)
        ensures
            r is Ok,
            final(self)@ == crate::tenancy::with_branding(old(self)@, branding@),
    {
        let row = BrandingRow {
            tenant: branding.tenant.clone(),
            name: branding.name.clone(),
            color: branding.color.clone(),
            logo_ext: branding.logo_ext.clone(),
            updated_at: to_column(branding.updated_at),
            footer_text: branding.footer_text.clone(),
            footer_link_label: branding.footer_link_label.clone(),
            footer_link_url: branding.footer_link_url.clone(),
        };
        let hit = |b: &BrandingRow| -> (r: bool)
            ensures
                r == branding_of(branding.tenant@)(b@),
        {
            same(b.tenant.as_str(), branding.tenant.as_str())
        };
        let change = |b: &BrandingRow| -> (r: BrandingRow)
            ensures
                r@ == rebranded(row@)(b@),
        {
            row.dup()
        };
        if exists_where(&self.branding, hit, Ghost(branding_of(branding.tenant@))) {
            update_where(
                &mut self.branding,
                hit,
                change,
                Ghost(branding_of(branding.tenant@)),
                Ghost(rebranded(row@)),
            );
        } else {
            append_row(&mut self.branding, row.dup());
        }
        Ok(())
    }

    /// Removes the branding of a tenant; reports whether there was one.
    pub fn delete_branding(&mut self, tenant: &str) -> (r: Result<bool, String>)
        ensures
            final(self)@ == crate::tenancy::without_branding(old(self)@, tenant@),
            outcome(r) == Ok::<bool, Seq<char>>(any(old(self)@.branding, branding_of(tenant@))),
    {
        let hit = |b: &BrandingRow| -> (r: bool)
            ensures
                r == branding_of(tenant@)(b@),
        {
            same(b.tenant.as_str(), tenant)
        };
        proof {
            lemma_filter_any(self@.branding, branding_of(tenant@));
        }
        let n: usize = delete_where(
            &mut self.branding,
            hit,
            Ghost(branding_of(tenant@)),
            Ghost(branding_of_others(tenant@)),
        );
        Ok(n > 0)
    }
}

/// Key and incarnation of those of `keys` that are tenants.
pub open spec fn incarnations(s: StoreView, keys: Seq<Seq<char>>) -> Seq<(Seq<char>, Seq<char>)>
    decreases keys.len(),
{
    if keys.len() == 0 {
        Seq::empty()
    } else {
        let done = incarnations(s, keys.drop_last());
        match first(s.tenants, tenant_is(keys.last())) {
            Some(t) => done.push((keys.last(), t.incarnation)),
            None => done,
        }
    }
}

} // verus!
