//! The store's tables.
use vstd::prelude::*;

use crate::rows::{
    AuditLogRow, AuditLogRowView, AutomationTokenRow, AutomationTokenRowView, BrandingRow,
    BrandingRowView, DefaultsRow, DefaultsRowView, DestinationRow, DestinationRowView, DigestRow,
    DigestRowView, EventRow, EventRowView, EvidenceRow, EvidenceRowView, FileRow, FileRowView,
    GrantFileRow, GrantFileRowView, GrantManifestRow, GrantManifestRowView, GrantRow, GrantRowView,
    InboundRouteRow, InboundRouteRowView, JobRow, JobRowView, LinkRow, LinkRowView, MetaRow,
    MetaRowView, OperationRow, OperationRowView, OutboundRouteRow, OutboundRouteRowView,
    OverrideRow, OverrideRowView, PrincipalRow, PrincipalRowView, QuotaRow, QuotaRowView,
    ScimGroupRow, ScimGroupRowView, ScimMemberRow, ScimMemberRowView, SessionFileRow,
    SessionFileRowView, SessionRow, SessionRowView, SettingRow, SettingRowView, TenantRow,
    TenantRowView, TicketRow, TicketRowView, TradeEndpointRow, TradeEndpointRowView,
    TradeInvitationRow, TradeInvitationRowView, TradeRouteRow, TradeRouteRowView, UploadRow,
    UploadRowView,
};
use crate::table::{Row, dup_rows, outcome};

verus! {

/// The tables of the store, as one transaction reads and leaves them.
///
/// Tables without an order of their own are in order of insertion.
#[derive(Debug, PartialEq)]
pub struct Store {
    pub meta: Vec<MetaRow>,
    pub settings: Vec<SettingRow>,
    /// Counts changes of the settings.
    pub settings_generation: u64,
    pub tenants: Vec<TenantRow>,
    pub branding: Vec<BrandingRow>,
    pub links: Vec<LinkRow>,
    pub uploads: Vec<UploadRow>,
    pub files: Vec<FileRow>,
    pub quotas: Vec<QuotaRow>,
    pub sessions: Vec<SessionRow>,
    pub session_files: Vec<SessionFileRow>,
    pub principals: Vec<PrincipalRow>,
    pub groups: Vec<ScimGroupRow>,
    pub members: Vec<ScimMemberRow>,
    pub audit_log: Vec<AuditLogRow>,
    /// The number of audit rows, kept beside the log.
    pub audit_rows: i64,
    /// Counts audit rows that could not be written.
    pub audit_insert_failures: u64,
    pub grants: Vec<GrantRow>,
    pub grant_files: Vec<GrantFileRow>,
    pub grant_manifests: Vec<GrantManifestRow>,
    pub tickets: Vec<TicketRow>,
    pub digests: Vec<DigestRow>,
    pub jobs: Vec<JobRow>,
    pub tokens: Vec<AutomationTokenRow>,
    pub operations: Vec<OperationRow>,
    pub evidence: Vec<EvidenceRow>,
    pub events: Vec<EventRow>,
    /// The greatest event id ever given out.
    pub event_sequence: i64,
    pub destinations: Vec<DestinationRow>,
    pub notification_defaults: Vec<DefaultsRow>,
    pub notification_overrides: Vec<OverrideRow>,
    pub outbound_routes: Vec<OutboundRouteRow>,
    pub inbound_routes: Vec<InboundRouteRow>,
    /// The inbound route of each row of `route_uploads`.
    pub route_uploads: Vec<String>,
    pub trade_routes: Vec<TradeRouteRow>,
    /// The route of each row of `trade_rotations`.
    pub trade_rotations: Vec<String>,
    /// The inbound route of each row of `trade_delivery_policies`.
    pub trade_delivery_policies: Vec<String>,
    pub trade_invitations: Vec<TradeInvitationRow>,
    pub trade_endpoints: Vec<TradeEndpointRow>,
    /// The id of each row of `delivery_storage`.
    pub delivery_storage: Vec<String>,
    /// The id of each row of `delivery_storage_credentials`.
    pub storage_credentials: Vec<String>,
    /// The grant of each row of `delivery_policy_cache`.
    pub policy_cache: Vec<String>,
    /// The tenant of each row of `delivery_projects`.
    pub projects: Vec<String>,
    /// The tenant of each row of `delivery_webhooks`.
    pub webhooks: Vec<String>,
    /// The tenant of each row of `delivery_webhook_attempts`.
    pub webhook_attempts: Vec<String>,
}

/// The contents of [`Store`].
#[verifier::ext_equal]
pub struct StoreView {
    pub meta: Seq<MetaRowView>,
    pub settings: Seq<SettingRowView>,
    pub settings_generation: u64,
    pub tenants: Seq<TenantRowView>,
    pub branding: Seq<BrandingRowView>,
    pub links: Seq<LinkRowView>,
    pub uploads: Seq<UploadRowView>,
    pub files: Seq<FileRowView>,
    pub quotas: Seq<QuotaRowView>,
    pub sessions: Seq<SessionRowView>,
    pub session_files: Seq<SessionFileRowView>,
    pub principals: Seq<PrincipalRowView>,
    pub groups: Seq<ScimGroupRowView>,
    pub members: Seq<ScimMemberRowView>,
    pub audit_log: Seq<AuditLogRowView>,
    pub audit_rows: i64,
    pub audit_insert_failures: u64,
    pub grants: Seq<GrantRowView>,
    pub grant_files: Seq<GrantFileRowView>,
    pub grant_manifests: Seq<GrantManifestRowView>,
    pub tickets: Seq<TicketRowView>,
    pub digests: Seq<DigestRowView>,
    pub jobs: Seq<JobRowView>,
    pub tokens: Seq<AutomationTokenRowView>,
    pub operations: Seq<OperationRowView>,
    pub evidence: Seq<EvidenceRowView>,
    pub events: Seq<EventRowView>,
    pub event_sequence: i64,
    pub destinations: Seq<DestinationRowView>,
    pub notification_defaults: Seq<DefaultsRowView>,
    pub notification_overrides: Seq<OverrideRowView>,
    pub outbound_routes: Seq<OutboundRouteRowView>,
    pub inbound_routes: Seq<InboundRouteRowView>,
    pub route_uploads: Seq<Seq<char>>,
    pub trade_routes: Seq<TradeRouteRowView>,
    pub trade_rotations: Seq<Seq<char>>,
    pub trade_delivery_policies: Seq<Seq<char>>,
    pub trade_invitations: Seq<TradeInvitationRowView>,
    pub trade_endpoints: Seq<TradeEndpointRowView>,
    pub delivery_storage: Seq<Seq<char>>,
    pub storage_credentials: Seq<Seq<char>>,
    pub policy_cache: Seq<Seq<char>>,
    pub projects: Seq<Seq<char>>,
    pub webhooks: Seq<Seq<char>>,
    pub webhook_attempts: Seq<Seq<char>>,
}

impl View for Store {
    type V = StoreView;

    open spec fn view(&self) -> StoreView {
        StoreView {
            meta: self.meta.deep_view(),
            settings: self.settings.deep_view(),
            settings_generation: self.settings_generation,
            tenants: self.tenants.deep_view(),
            branding: self.branding.deep_view(),
            links: self.links.deep_view(),
            uploads: self.uploads.deep_view(),
            files: self.files.deep_view(),
            quotas: self.quotas.deep_view(),
            sessions: self.sessions.deep_view(),
            session_files: self.session_files.deep_view(),
            principals: self.principals.deep_view(),
            groups: self.groups.deep_view(),
            members: self.members.deep_view(),
            audit_log: self.audit_log.deep_view(),
            audit_rows: self.audit_rows,
            audit_insert_failures: self.audit_insert_failures,
            grants: self.grants.deep_view(),
            grant_files: self.grant_files.deep_view(),
            grant_manifests: self.grant_manifests.deep_view(),
            tickets: self.tickets.deep_view(),
            digests: self.digests.deep_view(),
            jobs: self.jobs.deep_view(),
            tokens: self.tokens.deep_view(),
            operations: self.operations.deep_view(),
            evidence: self.evidence.deep_view(),
            events: self.events.deep_view(),
            event_sequence: self.event_sequence,
            destinations: self.destinations.deep_view(),
            notification_defaults: self.notification_defaults.deep_view(),
            notification_overrides: self.notification_overrides.deep_view(),
            outbound_routes: self.outbound_routes.deep_view(),
            inbound_routes: self.inbound_routes.deep_view(),
            route_uploads: self.route_uploads.deep_view(),
            trade_routes: self.trade_routes.deep_view(),
            trade_rotations: self.trade_rotations.deep_view(),
            trade_delivery_policies: self.trade_delivery_policies.deep_view(),
            trade_invitations: self.trade_invitations.deep_view(),
            trade_endpoints: self.trade_endpoints.deep_view(),
            delivery_storage: self.delivery_storage.deep_view(),
            storage_credentials: self.storage_credentials.deep_view(),
            policy_cache: self.policy_cache.deep_view(),
            projects: self.projects.deep_view(),
            webhooks: self.webhooks.deep_view(),
            webhook_attempts: self.webhook_attempts.deep_view(),
        }
    }
}

impl DeepView for Store {
    type V = StoreView;

    open spec fn deep_view(&self) -> StoreView {
        self@
    }
}

impl Row for Store {
    fn dup(&self) -> (r: Self) {
        Store {
            meta: dup_rows(&self.meta),
            settings: dup_rows(&self.settings),
            settings_generation: self.settings_generation,
            tenants: dup_rows(&self.tenants),
            branding: dup_rows(&self.branding),
            links: dup_rows(&self.links),
            uploads: dup_rows(&self.uploads),
            files: dup_rows(&self.files),
            quotas: dup_rows(&self.quotas),
            sessions: dup_rows(&self.sessions),
            session_files: dup_rows(&self.session_files),
            principals: dup_rows(&self.principals),
            groups: dup_rows(&self.groups),
            members: dup_rows(&self.members),
            audit_log: dup_rows(&self.audit_log),
            audit_rows: self.audit_rows,
            audit_insert_failures: self.audit_insert_failures,
            grants: dup_rows(&self.grants),
            grant_files: dup_rows(&self.grant_files),
            grant_manifests: dup_rows(&self.grant_manifests),
            tickets: dup_rows(&self.tickets),
            digests: dup_rows(&self.digests),
            jobs: dup_rows(&self.jobs),
            tokens: dup_rows(&self.tokens),
            operations: dup_rows(&self.operations),
            evidence: dup_rows(&self.evidence),
            events: dup_rows(&self.events),
            event_sequence: self.event_sequence,
            destinations: dup_rows(&self.destinations),
            notification_defaults: dup_rows(&self.notification_defaults),
            notification_overrides: dup_rows(&self.notification_overrides),
            outbound_routes: dup_rows(&self.outbound_routes),
            inbound_routes: dup_rows(&self.inbound_routes),
            route_uploads: dup_rows(&self.route_uploads),
            trade_routes: dup_rows(&self.trade_routes),
            trade_rotations: dup_rows(&self.trade_rotations),
            trade_delivery_policies: dup_rows(&self.trade_delivery_policies),
            trade_invitations: dup_rows(&self.trade_invitations),
            trade_endpoints: dup_rows(&self.trade_endpoints),
            delivery_storage: dup_rows(&self.delivery_storage),
            storage_credentials: dup_rows(&self.storage_credentials),
            policy_cache: dup_rows(&self.policy_cache),
            projects: dup_rows(&self.projects),
            webhooks: dup_rows(&self.webhooks),
            webhook_attempts: dup_rows(&self.webhook_attempts),
        }
    }
}

impl Clone for Store {
    fn clone(&self) -> (r: Self)
        ensures
            r@ == self@,
    {
        self.dup()
    }
}

impl Store {
    /// A store without any rows.
    pub fn new() -> (store: Store)
        ensures
            store@ == empty_store(),
    {
        let store = Store {
            meta: Vec::new(),
            settings: Vec::new(),
            settings_generation: 0,
            tenants: Vec::new(),
            branding: Vec::new(),
            links: Vec::new(),
            uploads: Vec::new(),
            files: Vec::new(),
            quotas: Vec::new(),
            sessions: Vec::new(),
            session_files: Vec::new(),
            principals: Vec::new(),
            groups: Vec::new(),
            members: Vec::new(),
            audit_log: Vec::new(),
            audit_rows: 0,
            audit_insert_failures: 0,
            grants: Vec::new(),
            grant_files: Vec::new(),
            grant_manifests: Vec::new(),
            tickets: Vec::new(),
            digests: Vec::new(),
            jobs: Vec::new(),
            tokens: Vec::new(),
            operations: Vec::new(),
            evidence: Vec::new(),
            events: Vec::new(),
            event_sequence: 0,
            destinations: Vec::new(),
            notification_defaults: Vec::new(),
            notification_overrides: Vec::new(),
            outbound_routes: Vec::new(),
            inbound_routes: Vec::new(),
            route_uploads: Vec::new(),
            trade_routes: Vec::new(),
            trade_rotations: Vec::new(),
            trade_delivery_policies: Vec::new(),
            trade_invitations: Vec::new(),
            trade_endpoints: Vec::new(),
            delivery_storage: Vec::new(),
            storage_credentials: Vec::new(),
            policy_cache: Vec::new(),
            projects: Vec::new(),
            webhooks: Vec::new(),
            webhook_attempts: Vec::new(),
        };
        assert(store@ =~= empty_store());
        store
    }
}

/// The contents of a store without any rows.
pub open spec fn empty_store() -> StoreView {
    StoreView {
        meta: Seq::empty(),
        settings: Seq::empty(),
        settings_generation: 0,
        tenants: Seq::empty(),
        branding: Seq::empty(),
        links: Seq::empty(),
        uploads: Seq::empty(),
        files: Seq::empty(),
        quotas: Seq::empty(),
        sessions: Seq::empty(),
        session_files: Seq::empty(),
        principals: Seq::empty(),
        groups: Seq::empty(),
        members: Seq::empty(),
        audit_log: Seq::empty(),
        audit_rows: 0,
        audit_insert_failures: 0,
        grants: Seq::empty(),
        grant_files: Seq::empty(),
        grant_manifests: Seq::empty(),
        tickets: Seq::empty(),
        digests: Seq::empty(),
        jobs: Seq::empty(),
        tokens: Seq::empty(),
        operations: Seq::empty(),
        evidence: Seq::empty(),
        events: Seq::empty(),
        event_sequence: 0,
        destinations: Seq::empty(),
        notification_defaults: Seq::empty(),
        notification_overrides: Seq::empty(),
        outbound_routes: Seq::empty(),
        inbound_routes: Seq::empty(),
        route_uploads: Seq::empty(),
        trade_routes: Seq::empty(),
        trade_rotations: Seq::empty(),
        trade_delivery_policies: Seq::empty(),
        trade_invitations: Seq::empty(),
        trade_endpoints: Seq::empty(),
        delivery_storage: Seq::empty(),
        storage_credentials: Seq::empty(),
        policy_cache: Seq::empty(),
        projects: Seq::empty(),
        webhooks: Seq::empty(),
        webhook_attempts: Seq::empty(),
    }
}

/// What an operation that may be refused does: it leaves the contents and
/// returns the value that `expected` names, or it changes nothing and returns
/// the error that `expected` names.
pub open spec fn follows<T: DeepView>(
    expected: Result<(StoreView, T::V), Seq<char>>,
    before: StoreView,
    after: StoreView,
    r: Result<T, String>,
) -> bool {
    match expected {
        Ok((contents, value)) => after == contents && outcome(r) == Ok::<T::V, Seq<char>>(value),
        Err(e) => after == before && outcome(r) == Err::<T::V, Seq<char>>(e),
    }
}

} // verus!
