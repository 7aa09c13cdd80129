//! The rows of the store's tables, as their columns hold them.
//!
//! A column that holds a JSON document stands here decoded, beside the reason
//! why it does not decode where that is the case.
use vstd::prelude::*;

use crate::records::{
    HeaderMembers, HeaderMembersView, NotificationDestination, NotificationDestinationView,
    NotificationPolicy, NotificationPolicyView, OutboundGrantFile, OutboundGrantFileView,
    SessionEvent, SessionEventView, UploadRecord, UploadRecordView,
};
use crate::table::{Row, dup_option, dup_rows};

verus! {

/// A row of `outbound_grants`, its integer columns as stored.
#[derive(Debug, PartialEq)]
pub struct GrantRow {
    pub id: String,
    pub token_hash: String,
    pub password_hash: Option<String>,
    pub tenant: String,
    pub link_id: String,
    pub upload_id: String,
    pub package_root: String,
    pub name: String,
    pub suite: String,
    pub root: String,
    pub file_index: i64,
    pub bytes_hi: i64,
    pub bytes_lo: i64,
    pub label: String,
    pub created_at: i64,
    pub expires_at: i64,
    pub revoked_at: Option<i64>,
    pub downloads: i64,
    pub max_downloads: Option<i64>,
    pub first_download_at: Option<i64>,
    pub last_download_at: Option<i64>,
    /// The decoded manifest; empty where it does not decode.
    pub files: Vec<OutboundGrantFile>,
    /// What the decoder says of a manifest that does not decode.
    pub files_error: Option<String>,
    /// Whether a manifest that does not decode is of two characters or less, spaces at
    /// its ends left out.
    pub files_brief: bool,
    pub file_count: i64,
    pub notifications: Option<NotificationPolicy>,
    /// What the decoder says of notifications that do not decode.
    pub notifications_error: Option<String>,
    pub share_token: Option<String>,
}

/// The contents of [`GrantRow`].
#[verifier::ext_equal]
pub struct GrantRowView {
    pub id: Seq<char>,
    pub token_hash: Seq<char>,
    pub password_hash: Option<Seq<char>>,
    pub tenant: Seq<char>,
    pub link_id: Seq<char>,
    pub upload_id: Seq<char>,
    pub package_root: Seq<char>,
    pub name: Seq<char>,
    pub suite: Seq<char>,
    pub root: Seq<char>,
    pub file_index: i64,
    pub bytes_hi: i64,
    pub bytes_lo: i64,
    pub label: Seq<char>,
    pub created_at: i64,
    pub expires_at: i64,
    pub revoked_at: Option<i64>,
    pub downloads: i64,
    pub max_downloads: Option<i64>,
    pub first_download_at: Option<i64>,
    pub last_download_at: Option<i64>,
    pub files: Seq<OutboundGrantFileView>,
    pub files_error: Option<Seq<char>>,
    pub files_brief: bool,
    pub file_count: i64,
    pub notifications: Option<NotificationPolicyView>,
    pub notifications_error: Option<Seq<char>>,
    pub share_token: Option<Seq<char>>,
}

impl View for GrantRow {
    type V = GrantRowView;

    open spec fn view(&self) -> GrantRowView {
        GrantRowView {
            id: self.id@,
            token_hash: self.token_hash@,
            password_hash: self.password_hash.deep_view(),
            tenant: self.tenant@,
            link_id: self.link_id@,
            upload_id: self.upload_id@,
            package_root: self.package_root@,
            name: self.name@,
            suite: self.suite@,
            root: self.root@,
            file_index: self.file_index,
            bytes_hi: self.bytes_hi,
            bytes_lo: self.bytes_lo,
            label: self.label@,
            created_at: self.created_at,
            expires_at: self.expires_at,
            revoked_at: self.revoked_at,
            downloads: self.downloads,
            max_downloads: self.max_downloads,
            first_download_at: self.first_download_at,
            last_download_at: self.last_download_at,
            files: self.files.deep_view(),
            files_error: self.files_error.deep_view(),
            files_brief: self.files_brief,
            file_count: self.file_count,
            notifications: self.notifications.deep_view(),
            notifications_error: self.notifications_error.deep_view(),
            share_token: self.share_token.deep_view(),
        }
    }
}

impl DeepView for GrantRow {
    type V = GrantRowView;

    open spec fn deep_view(&self) -> GrantRowView {
        self@
    }
}

impl Row for GrantRow {
    fn dup(&self) -> (r: Self) {
        GrantRow {
            id: self.id.clone(),
            token_hash: self.token_hash.clone(),
            password_hash: dup_option(&self.password_hash),
            tenant: self.tenant.clone(),
            link_id: self.link_id.clone(),
            upload_id: self.upload_id.clone(),
            package_root: self.package_root.clone(),
            name: self.name.clone(),
            suite: self.suite.clone(),
            root: self.root.clone(),
            file_index: self.file_index,
            bytes_hi: self.bytes_hi,
            bytes_lo: self.bytes_lo,
            label: self.label.clone(),
            created_at: self.created_at,
            expires_at: self.expires_at,
            revoked_at: self.revoked_at,
            downloads: self.downloads,
            max_downloads: self.max_downloads,
            first_download_at: self.first_download_at,
            last_download_at: self.last_download_at,
            files: dup_rows(&self.files),
            files_error: dup_option(&self.files_error),
            files_brief: self.files_brief,
            file_count: self.file_count,
            notifications: dup_option(&self.notifications),
            notifications_error: dup_option(&self.notifications_error),
            share_token: dup_option(&self.share_token),
        }
    }
}

impl Clone for GrantRow {
    fn clone(&self) -> (r: Self)
        ensures
            r@ == self@,
    {
        self.dup()
    }
}

/// A row of `outbound_grant_files`.
#[derive(Debug, PartialEq)]
pub struct GrantFileRow {
    pub grant_id: String,
    pub file_index: i64,
    pub source: String,
    pub name: String,
    pub suite: String,
    pub root: String,
    pub bytes_hi: i64,
    pub bytes_lo: i64,
    pub receipt_b64: String,
    pub downloads: i64,
    pub first_download_at: Option<i64>,
    pub last_download_at: Option<i64>,
}

/// The contents of [`GrantFileRow`].
#[verifier::ext_equal]
pub struct GrantFileRowView {
    pub grant_id: Seq<char>,
    pub file_index: i64,
    pub source: Seq<char>,
    pub name: Seq<char>,
    pub suite: Seq<char>,
    pub root: Seq<char>,
    pub bytes_hi: i64,
    pub bytes_lo: i64,
    pub receipt_b64: Seq<char>,
    pub downloads: i64,
    pub first_download_at: Option<i64>,
    pub last_download_at: Option<i64>,
}

impl View for GrantFileRow {
    type V = GrantFileRowView;

    open spec fn view(&self) -> GrantFileRowView {
        GrantFileRowView {
            grant_id: self.grant_id@,
            file_index: self.file_index,
            source: self.source@,
            name: self.name@,
            suite: self.suite@,
            root: self.root@,
            bytes_hi: self.bytes_hi,
            bytes_lo: self.bytes_lo,
            receipt_b64: self.receipt_b64@,
            downloads: self.downloads,
            first_download_at: self.first_download_at,
            last_download_at: self.last_download_at,
        }
    }
}

impl DeepView for GrantFileRow {
    type V = GrantFileRowView;

    open spec fn deep_view(&self) -> GrantFileRowView {
        self@
    }
}

impl Row for GrantFileRow {
    fn dup(&self) -> (r: Self) {
        GrantFileRow {
            grant_id: self.grant_id.clone(),
            file_index: self.file_index,
            source: self.source.clone(),
            name: self.name.clone(),
            suite: self.suite.clone(),
            root: self.root.clone(),
            bytes_hi: self.bytes_hi,
            bytes_lo: self.bytes_lo,
            receipt_b64: self.receipt_b64.clone(),
            downloads: self.downloads,
            first_download_at: self.first_download_at,
            last_download_at: self.last_download_at,
        }
    }
}

impl Clone for GrantFileRow {
    fn clone(&self) -> (r: Self)
        ensures
            r@ == self@,
    {
        self.dup()
    }
}

/// A row of `outbound_fetch_tickets`.
#[derive(Debug, PartialEq)]
pub struct TicketRow {
    pub token_id: String,
    pub grant_id: String,
    pub manifest_root: String,
    pub expires_at: i64,
    pub delivered_at: Option<i64>,
    pub holder: String,
    pub grant_token_hash: String,
    pub policy_revision: i64,
    pub admitted_at: Option<i64>,
}

/// The contents of [`TicketRow`].
#[verifier::ext_equal]
pub struct TicketRowView {
    pub token_id: Seq<char>,
    pub grant_id: Seq<char>,
    pub manifest_root: Seq<char>,
    pub expires_at: i64,
    pub delivered_at: Option<i64>,
    pub holder: Seq<char>,
    pub grant_token_hash: Seq<char>,
    pub policy_revision: i64,
    pub admitted_at: Option<i64>,
}

impl View for TicketRow {
    type V = TicketRowView;

    open spec fn view(&self) -> TicketRowView {
        TicketRowView {
            token_id: self.token_id@,
            grant_id: self.grant_id@,
            manifest_root: self.manifest_root@,
            expires_at: self.expires_at,
            delivered_at: self.delivered_at,
            holder: self.holder@,
            grant_token_hash: self.grant_token_hash@,
            policy_revision: self.policy_revision,
            admitted_at: self.admitted_at,
        }
    }
}

impl DeepView for TicketRow {
    type V = TicketRowView;

    open spec fn deep_view(&self) -> TicketRowView {
        self@
    }
}

impl Row for TicketRow {
    fn dup(&self) -> (r: Self) {
        TicketRow {
            token_id: self.token_id.clone(),
            grant_id: self.grant_id.clone(),
            manifest_root: self.manifest_root.clone(),
            expires_at: self.expires_at,
            delivered_at: self.delivered_at,
            holder: self.holder.clone(),
            grant_token_hash: self.grant_token_hash.clone(),
            policy_revision: self.policy_revision,
            admitted_at: self.admitted_at,
        }
    }
}

impl Clone for TicketRow {
    fn clone(&self) -> (r: Self)
        ensures
            r@ == self@,
    {
        self.dup()
    }
}

/// A row of `outbound_grant_manifests`.
#[derive(Debug, PartialEq)]
pub struct GrantManifestRow {
    pub grant_id: String,
    pub manifest_root: String,
    pub created_at: i64,
}

/// The contents of [`GrantManifestRow`].
#[verifier::ext_equal]
pub struct GrantManifestRowView {
    pub grant_id: Seq<char>,
    pub manifest_root: Seq<char>,
    pub created_at: i64,
}

impl View for GrantManifestRow {
    type V = GrantManifestRowView;

    open spec fn view(&self) -> GrantManifestRowView {
        GrantManifestRowView {
            grant_id: self.grant_id@,
            manifest_root: self.manifest_root@,
            created_at: self.created_at,
        }
    }
}

impl DeepView for GrantManifestRow {
    type V = GrantManifestRowView;

    open spec fn deep_view(&self) -> GrantManifestRowView {
        self@
    }
}

impl Row for GrantManifestRow {
    fn dup(&self) -> (r: Self) {
        GrantManifestRow {
            grant_id: self.grant_id.clone(),
            manifest_root: self.manifest_root.clone(),
            created_at: self.created_at,
        }
    }
}

impl Clone for GrantManifestRow {
    fn clone(&self) -> (r: Self)
        ensures
            r@ == self@,
    {
        self.dup()
    }
}

/// A row of `delivery_manifests`.
#[derive(Debug, PartialEq)]
pub struct DigestRow {
    pub grant_id: String,
    pub digest: String,
}

/// The contents of [`DigestRow`].
#[verifier::ext_equal]
pub struct DigestRowView {
    pub grant_id: Seq<char>,
    pub digest: Seq<char>,
}

impl View for DigestRow {
    type V = DigestRowView;

    open spec fn view(&self) -> DigestRowView {
        DigestRowView {
            grant_id: self.grant_id@,
            digest: self.digest@,
        }
    }
}

impl DeepView for DigestRow {
    type V = DigestRowView;

    open spec fn deep_view(&self) -> DigestRowView {
        self@
    }
}

impl Row for DigestRow {
    fn dup(&self) -> (r: Self) {
        DigestRow {
            grant_id: self.grant_id.clone(),
            digest: self.digest.clone(),
        }
    }
}

impl Clone for DigestRow {
    fn clone(&self) -> (r: Self)
        ensures
            r@ == self@,
    {
        self.dup()
    }
}

/// The columns of `delivery_jobs` that deliveries depend on.
#[derive(Debug, PartialEq)]
pub struct JobRow {
    pub id: String,
    pub tenant: String,
    pub actor: String,
    pub operation_id: String,
    pub state: String,
    pub token: Option<String>,
    /// The state from which the job was retired, where its document tells.
    pub retired_from: Option<String>,
    /// Whether the job's source was revoked.
    pub source_revoked: bool,
    /// Notifications asked for by the job's request.
    pub request_notifications: Option<NotificationPolicy>,
    /// Notifications of the job's project.
    pub project_notifications: Option<NotificationPolicy>,
    /// What the decoder says of a document that does not decode.
    pub document_error: Option<String>,
}

/// The contents of [`JobRow`].
#[verifier::ext_equal]
pub struct JobRowView {
    pub id: Seq<char>,
    pub tenant: Seq<char>,
    pub actor: Seq<char>,
    pub operation_id: Seq<char>,
    pub state: Seq<char>,
    pub token: Option<Seq<char>>,
    pub retired_from: Option<Seq<char>>,
    pub source_revoked: bool,
    pub request_notifications: Option<NotificationPolicyView>,
    pub project_notifications: Option<NotificationPolicyView>,
    pub document_error: Option<Seq<char>>,
}

impl View for JobRow {
    type V = JobRowView;

    open spec fn view(&self) -> JobRowView {
        JobRowView {
            id: self.id@,
            tenant: self.tenant@,
            actor: self.actor@,
            operation_id: self.operation_id@,
            state: self.state@,
            token: self.token.deep_view(),
            retired_from: self.retired_from.deep_view(),
            source_revoked: self.source_revoked,
            request_notifications: self.request_notifications.deep_view(),
            project_notifications: self.project_notifications.deep_view(),
            document_error: self.document_error.deep_view(),
        }
    }
}

impl DeepView for JobRow {
    type V = JobRowView;

    open spec fn deep_view(&self) -> JobRowView {
        self@
    }
}

impl Row for JobRow {
    fn dup(&self) -> (r: Self) {
        JobRow {
            id: self.id.clone(),
            tenant: self.tenant.clone(),
            actor: self.actor.clone(),
            operation_id: self.operation_id.clone(),
            state: self.state.clone(),
            token: dup_option(&self.token),
            retired_from: dup_option(&self.retired_from),
            source_revoked: self.source_revoked,
            request_notifications: dup_option(&self.request_notifications),
            project_notifications: dup_option(&self.project_notifications),
            document_error: dup_option(&self.document_error),
        }
    }
}

impl Clone for JobRow {
    fn clone(&self) -> (r: Self)
        ensures
            r@ == self@,
    {
        self.dup()
    }
}

/// A row of `automation_tokens`.
#[derive(Debug, PartialEq)]
pub struct AutomationTokenRow {
    pub id: String,
    pub token_hash: String,
    pub tenant: String,
    pub label: String,
    pub created_at: i64,
    pub expires_at: i64,
    pub revoked_at: Option<i64>,
    pub last_used_at: Option<i64>,
    pub directory: Option<String>,
    pub permissions: Vec<String>,
    /// What the decoder says of permissions that do not decode.
    pub permissions_error: Option<String>,
}

/// The contents of [`AutomationTokenRow`].
#[verifier::ext_equal]
pub struct AutomationTokenRowView {
    pub id: Seq<char>,
    pub token_hash: Seq<char>,
    pub tenant: Seq<char>,
    pub label: Seq<char>,
    pub created_at: i64,
    pub expires_at: i64,
    pub revoked_at: Option<i64>,
    pub last_used_at: Option<i64>,
    pub directory: Option<Seq<char>>,
    pub permissions: Seq<Seq<char>>,
    pub permissions_error: Option<Seq<char>>,
}

impl View for AutomationTokenRow {
    type V = AutomationTokenRowView;

    open spec fn view(&self) -> AutomationTokenRowView {
        AutomationTokenRowView {
            id: self.id@,
            token_hash: self.token_hash@,
            tenant: self.tenant@,
            label: self.label@,
            created_at: self.created_at,
            expires_at: self.expires_at,
            revoked_at: self.revoked_at,
            last_used_at: self.last_used_at,
            directory: self.directory.deep_view(),
            permissions: self.permissions.deep_view(),
            permissions_error: self.permissions_error.deep_view(),
        }
    }
}

impl DeepView for AutomationTokenRow {
    type V = AutomationTokenRowView;

    open spec fn deep_view(&self) -> AutomationTokenRowView {
        self@
    }
}

impl Row for AutomationTokenRow {
    fn dup(&self) -> (r: Self) {
        AutomationTokenRow {
            id: self.id.clone(),
            token_hash: self.token_hash.clone(),
            tenant: self.tenant.clone(),
            label: self.label.clone(),
            created_at: self.created_at,
            expires_at: self.expires_at,
            revoked_at: self.revoked_at,
            last_used_at: self.last_used_at,
            directory: dup_option(&self.directory),
            permissions: dup_rows(&self.permissions),
            permissions_error: dup_option(&self.permissions_error),
        }
    }
}

impl Clone for AutomationTokenRow {
    fn clone(&self) -> (r: Self)
        ensures
            r@ == self@,
    {
        self.dup()
    }
}

/// A row of `links`.
#[derive(Debug, PartialEq)]
pub struct LinkRow {
    pub id: String,
    pub tenant: String,
    pub label: String,
    pub dest: String,
    pub password_hash: Option<String>,
    pub created_at: i64,
    pub expires_at: Option<i64>,
    pub max_bytes: Option<i64>,
    pub active: bool,
    pub legal_hold: bool,
    pub events: Vec<SessionEvent>,
    pub notifications: Option<NotificationPolicy>,
    /// What the decoder says of events that do not decode.
    pub events_error: Option<String>,
    /// What the decoder says of notifications that do not decode.
    pub notifications_error: Option<String>,
}

/// The contents of [`LinkRow`].
#[verifier::ext_equal]
pub struct LinkRowView {
    pub id: Seq<char>,
    pub tenant: Seq<char>,
    pub label: Seq<char>,
    pub dest: Seq<char>,
    pub password_hash: Option<Seq<char>>,
    pub created_at: i64,
    pub expires_at: Option<i64>,
    pub max_bytes: Option<i64>,
    pub active: bool,
    pub legal_hold: bool,
    pub events: Seq<SessionEventView>,
    pub notifications: Option<NotificationPolicyView>,
    pub events_error: Option<Seq<char>>,
    pub notifications_error: Option<Seq<char>>,
}

impl View for LinkRow {
    type V = LinkRowView;

    open spec fn view(&self) -> LinkRowView {
        LinkRowView {
            id: self.id@,
            tenant: self.tenant@,
            label: self.label@,
            dest: self.dest@,
            password_hash: self.password_hash.deep_view(),
            created_at: self.created_at,
            expires_at: self.expires_at,
            max_bytes: self.max_bytes,
            active: self.active,
            legal_hold: self.legal_hold,
            events: self.events.deep_view(),
            notifications: self.notifications.deep_view(),
            events_error: self.events_error.deep_view(),
            notifications_error: self.notifications_error.deep_view(),
        }
    }
}

impl DeepView for LinkRow {
    type V = LinkRowView;

    open spec fn deep_view(&self) -> LinkRowView {
        self@
    }
}

impl Row for LinkRow {
    fn dup(&self) -> (r: Self) {
        LinkRow {
            id: self.id.clone(),
            tenant: self.tenant.clone(),
            label: self.label.clone(),
            dest: self.dest.clone(),
            password_hash: dup_option(&self.password_hash),
            created_at: self.created_at,
            expires_at: self.expires_at,
            max_bytes: self.max_bytes,
            active: self.active,
            legal_hold: self.legal_hold,
            events: dup_rows(&self.events),
            notifications: dup_option(&self.notifications),
            events_error: dup_option(&self.events_error),
            notifications_error: dup_option(&self.notifications_error),
        }
    }
}

impl Clone for LinkRow {
    fn clone(&self) -> (r: Self)
        ensures
            r@ == self@,
    {
        self.dup()
    }
}

/// A row of `link_uploads`; the table is in order of `position`.
#[derive(Debug, PartialEq)]
pub struct UploadRow {
    pub link_id: String,
    pub tenant: String,
    pub upload_id: String,
    /// The decoded header document.
    pub header: UploadRecord,
    /// What the decoder says of a header document that does not decode.
    pub header_error: Option<String>,
    /// What a header document that does not decode holds, where it is JSON.
    pub members: Option<HeaderMembers>,
    pub file_count: i64,
}

/// The contents of [`UploadRow`].
#[verifier::ext_equal]
pub struct UploadRowView {
    pub link_id: Seq<char>,
    pub tenant: Seq<char>,
    pub upload_id: Seq<char>,
    pub header: UploadRecordView,
    pub header_error: Option<Seq<char>>,
    pub members: Option<HeaderMembersView>,
    pub file_count: i64,
}

impl View for UploadRow {
    type V = UploadRowView;

    open spec fn view(&self) -> UploadRowView {
        UploadRowView {
            link_id: self.link_id@,
            tenant: self.tenant@,
            upload_id: self.upload_id@,
            header: self.header@,
            header_error: self.header_error.deep_view(),
            members: self.members.deep_view(),
            file_count: self.file_count,
        }
    }
}

impl DeepView for UploadRow {
    type V = UploadRowView;

    open spec fn deep_view(&self) -> UploadRowView {
        self@
    }
}

impl Row for UploadRow {
    fn dup(&self) -> (r: Self) {
        UploadRow {
            link_id: self.link_id.clone(),
            tenant: self.tenant.clone(),
            upload_id: self.upload_id.clone(),
            header: self.header.dup(),
            header_error: dup_option(&self.header_error),
            members: dup_option(&self.members),
            file_count: self.file_count,
        }
    }
}

impl Clone for UploadRow {
    fn clone(&self) -> (r: Self)
        ensures
            r@ == self@,
    {
        self.dup()
    }
}

/// A row of `files`.
#[derive(Debug, PartialEq)]
pub struct FileRow {
    pub link_id: String,
    pub tenant: String,
    pub upload_id: String,
    pub file_index: i64,
    pub bytes_hi: i64,
    pub bytes_lo: i64,
    pub deleted: bool,
    pub stored_as: String,
    pub path: String,
    pub suite: String,
    pub root: String,
    pub receipt: bool,
}

/// The contents of [`FileRow`].
#[verifier::ext_equal]
pub struct FileRowView {
    pub link_id: Seq<char>,
    pub tenant: Seq<char>,
    pub upload_id: Seq<char>,
    pub file_index: i64,
    pub bytes_hi: i64,
    pub bytes_lo: i64,
    pub deleted: bool,
    pub stored_as: Seq<char>,
    pub path: Seq<char>,
    pub suite: Seq<char>,
    pub root: Seq<char>,
    pub receipt: bool,
}

impl View for FileRow {
    type V = FileRowView;

    open spec fn view(&self) -> FileRowView {
        FileRowView {
            link_id: self.link_id@,
            tenant: self.tenant@,
            upload_id: self.upload_id@,
            file_index: self.file_index,
            bytes_hi: self.bytes_hi,
            bytes_lo: self.bytes_lo,
            deleted: self.deleted,
            stored_as: self.stored_as@,
            path: self.path@,
            suite: self.suite@,
            root: self.root@,
            receipt: self.receipt,
        }
    }
}

impl DeepView for FileRow {
    type V = FileRowView;

    open spec fn deep_view(&self) -> FileRowView {
        self@
    }
}

impl Row for FileRow {
    fn dup(&self) -> (r: Self) {
        FileRow {
            link_id: self.link_id.clone(),
            tenant: self.tenant.clone(),
            upload_id: self.upload_id.clone(),
            file_index: self.file_index,
            bytes_hi: self.bytes_hi,
            bytes_lo: self.bytes_lo,
            deleted: self.deleted,
            stored_as: self.stored_as.clone(),
            path: self.path.clone(),
            suite: self.suite.clone(),
            root: self.root.clone(),
            receipt: self.receipt,
        }
    }
}

impl Clone for FileRow {
    fn clone(&self) -> (r: Self)
        ensures
            r@ == self@,
    {
        self.dup()
    }
}

/// A row of `tenant_quota_usage`.
#[derive(Debug, PartialEq)]
pub struct QuotaRow {
    pub tenant: String,
    pub bytes_hi: i64,
    pub bytes_lo: i64,
    /// 0 exact, 1 saturated, 2 dirty.
    pub state: i64,
}

/// The contents of [`QuotaRow`].
#[verifier::ext_equal]
pub struct QuotaRowView {
    pub tenant: Seq<char>,
    pub bytes_hi: i64,
    pub bytes_lo: i64,
    pub state: i64,
}

impl View for QuotaRow {
    type V = QuotaRowView;

    open spec fn view(&self) -> QuotaRowView {
        QuotaRowView {
            tenant: self.tenant@,
            bytes_hi: self.bytes_hi,
            bytes_lo: self.bytes_lo,
            state: self.state,
        }
    }
}

impl DeepView for QuotaRow {
    type V = QuotaRowView;

    open spec fn deep_view(&self) -> QuotaRowView {
        self@
    }
}

impl Row for QuotaRow {
    fn dup(&self) -> (r: Self) {
        QuotaRow {
            tenant: self.tenant.clone(),
            bytes_hi: self.bytes_hi,
            bytes_lo: self.bytes_lo,
            state: self.state,
        }
    }
}

impl Clone for QuotaRow {
    fn clone(&self) -> (r: Self)
        ensures
            r@ == self@,
    {
        self.dup()
    }
}

/// A row of `tenants`; the quota columns hold text.
#[derive(Debug, PartialEq)]
pub struct TenantRow {
    pub key: String,
    pub incarnation: String,
    pub label: String,
    pub admin_group: Option<String>,
    pub max_total_bytes: Option<String>,
    pub max_links: Option<String>,
    pub max_sessions: Option<String>,
    pub created_at: i64,
}

/// The contents of [`TenantRow`].
#[verifier::ext_equal]
pub struct TenantRowView {
    pub key: Seq<char>,
    pub incarnation: Seq<char>,
    pub label: Seq<char>,
    pub admin_group: Option<Seq<char>>,
    pub max_total_bytes: Option<Seq<char>>,
    pub max_links: Option<Seq<char>>,
    pub max_sessions: Option<Seq<char>>,
    pub created_at: i64,
}

impl View for TenantRow {
    type V = TenantRowView;

    open spec fn view(&self) -> TenantRowView {
        TenantRowView {
            key: self.key@,
            incarnation: self.incarnation@,
            label: self.label@,
            admin_group: self.admin_group.deep_view(),
            max_total_bytes: self.max_total_bytes.deep_view(),
            max_links: self.max_links.deep_view(),
            max_sessions: self.max_sessions.deep_view(),
            created_at: self.created_at,
        }
    }
}

impl DeepView for TenantRow {
    type V = TenantRowView;

    open spec fn deep_view(&self) -> TenantRowView {
        self@
    }
}

impl Row for TenantRow {
    fn dup(&self) -> (r: Self) {
        TenantRow {
            key: self.key.clone(),
            incarnation: self.incarnation.clone(),
            label: self.label.clone(),
            admin_group: dup_option(&self.admin_group),
            max_total_bytes: dup_option(&self.max_total_bytes),
            max_links: dup_option(&self.max_links),
            max_sessions: dup_option(&self.max_sessions),
            created_at: self.created_at,
        }
    }
}

impl Clone for TenantRow {
    fn clone(&self) -> (r: Self)
        ensures
            r@ == self@,
    {
        self.dup()
    }
}

/// A row of `branding`.
#[derive(Debug, PartialEq)]
pub struct BrandingRow {
    pub tenant: String,
    pub name: String,
    pub color: String,
    pub logo_ext: String,
    pub updated_at: i64,
    pub footer_text: String,
    pub footer_link_label: String,
    pub footer_link_url: String,
}

/// The contents of [`BrandingRow`].
#[verifier::ext_equal]
pub struct BrandingRowView {
    pub tenant: Seq<char>,
    pub name: Seq<char>,
    pub color: Seq<char>,
    pub logo_ext: Seq<char>,
    pub updated_at: i64,
    pub footer_text: Seq<char>,
    pub footer_link_label: Seq<char>,
    pub footer_link_url: Seq<char>,
}

impl View for BrandingRow {
    type V = BrandingRowView;

    open spec fn view(&self) -> BrandingRowView {
        BrandingRowView {
            tenant: self.tenant@,
            name: self.name@,
            color: self.color@,
            logo_ext: self.logo_ext@,
            updated_at: self.updated_at,
            footer_text: self.footer_text@,
            footer_link_label: self.footer_link_label@,
            footer_link_url: self.footer_link_url@,
        }
    }
}

impl DeepView for BrandingRow {
    type V = BrandingRowView;

    open spec fn deep_view(&self) -> BrandingRowView {
        self@
    }
}

impl Row for BrandingRow {
    fn dup(&self) -> (r: Self) {
        BrandingRow {
            tenant: self.tenant.clone(),
            name: self.name.clone(),
            color: self.color.clone(),
            logo_ext: self.logo_ext.clone(),
            updated_at: self.updated_at,
            footer_text: self.footer_text.clone(),
            footer_link_label: self.footer_link_label.clone(),
            footer_link_url: self.footer_link_url.clone(),
        }
    }
}

impl Clone for BrandingRow {
    fn clone(&self) -> (r: Self)
        ensures
            r@ == self@,
    {
        self.dup()
    }
}

/// A row of `upload_sessions`.
#[derive(Debug, PartialEq)]
pub struct SessionRow {
    pub id: String,
    pub link_id: String,
    pub tenant: String,
    pub dest_dir: String,
    pub dest_rel: String,
    pub package_suite: i64,
    pub package_root: String,
    pub package_length: i64,
    pub max_total_bytes: Option<i64>,
    pub started_at: i64,
    pub created_at: i64,
    pub push_key: Option<String>,
    pub committed_upload_id: Option<String>,
}

/// The contents of [`SessionRow`].
#[verifier::ext_equal]
pub struct SessionRowView {
    pub id: Seq<char>,
    pub link_id: Seq<char>,
    pub tenant: Seq<char>,
    pub dest_dir: Seq<char>,
    pub dest_rel: Seq<char>,
    pub package_suite: i64,
    pub package_root: Seq<char>,
    pub package_length: i64,
    pub max_total_bytes: Option<i64>,
    pub started_at: i64,
    pub created_at: i64,
    pub push_key: Option<Seq<char>>,
    pub committed_upload_id: Option<Seq<char>>,
}

impl View for SessionRow {
    type V = SessionRowView;

    open spec fn view(&self) -> SessionRowView {
        SessionRowView {
            id: self.id@,
            link_id: self.link_id@,
            tenant: self.tenant@,
            dest_dir: self.dest_dir@,
            dest_rel: self.dest_rel@,
            package_suite: self.package_suite,
            package_root: self.package_root@,
            package_length: self.package_length,
            max_total_bytes: self.max_total_bytes,
            started_at: self.started_at,
            created_at: self.created_at,
            push_key: self.push_key.deep_view(),
            committed_upload_id: self.committed_upload_id.deep_view(),
        }
    }
}

impl DeepView for SessionRow {
    type V = SessionRowView;

    open spec fn deep_view(&self) -> SessionRowView {
        self@
    }
}

impl Row for SessionRow {
    fn dup(&self) -> (r: Self) {
        SessionRow {
            id: self.id.clone(),
            link_id: self.link_id.clone(),
            tenant: self.tenant.clone(),
            dest_dir: self.dest_dir.clone(),
            dest_rel: self.dest_rel.clone(),
            package_suite: self.package_suite,
            package_root: self.package_root.clone(),
            package_length: self.package_length,
            max_total_bytes: self.max_total_bytes,
            started_at: self.started_at,
            created_at: self.created_at,
            push_key: dup_option(&self.push_key),
            committed_upload_id: dup_option(&self.committed_upload_id),
        }
    }
}

impl Clone for SessionRow {
    fn clone(&self) -> (r: Self)
        ensures
            r@ == self@,
    {
        self.dup()
    }
}

/// A row of `upload_session_files`.
#[derive(Debug, PartialEq)]
pub struct SessionFileRow {
    pub session_id: String,
    pub entry: i64,
    pub display_path: String,
    pub stored_components: Vec<String>,
    /// What the decoder says of components that do not decode.
    pub components_error: Option<String>,
    pub object_suite: i64,
    pub object_root: String,
    pub object_length: i64,
    pub staging_path: String,
    pub journal_path: String,
    pub incarnation: String,
    pub prefix_bytes: i64,
    pub published: bool,
    pub receipt: bool,
    pub commit_profile: String,
    pub nas_contract: String,
}

/// The contents of [`SessionFileRow`].
#[verifier::ext_equal]
pub struct SessionFileRowView {
    pub session_id: Seq<char>,
    pub entry: i64,
    pub display_path: Seq<char>,
    pub stored_components: Seq<Seq<char>>,
    pub components_error: Option<Seq<char>>,
    pub object_suite: i64,
    pub object_root: Seq<char>,
    pub object_length: i64,
    pub staging_path: Seq<char>,
    pub journal_path: Seq<char>,
    pub incarnation: Seq<char>,
    pub prefix_bytes: i64,
    pub published: bool,
    pub receipt: bool,
    pub commit_profile: Seq<char>,
    pub nas_contract: Seq<char>,
}

impl View for SessionFileRow {
    type V = SessionFileRowView;

    open spec fn view(&self) -> SessionFileRowView {
        SessionFileRowView {
            session_id: self.session_id@,
            entry: self.entry,
            display_path: self.display_path@,
            stored_components: self.stored_components.deep_view(),
            components_error: self.components_error.deep_view(),
            object_suite: self.object_suite,
            object_root: self.object_root@,
            object_length: self.object_length,
            staging_path: self.staging_path@,
            journal_path: self.journal_path@,
            incarnation: self.incarnation@,
            prefix_bytes: self.prefix_bytes,
            published: self.published,
            receipt: self.receipt,
            commit_profile: self.commit_profile@,
            nas_contract: self.nas_contract@,
        }
    }
}

impl DeepView for SessionFileRow {
    type V = SessionFileRowView;

    open spec fn deep_view(&self) -> SessionFileRowView {
        self@
    }
}

impl Row for SessionFileRow {
    fn dup(&self) -> (r: Self) {
        SessionFileRow {
            session_id: self.session_id.clone(),
            entry: self.entry,
            display_path: self.display_path.clone(),
            stored_components: dup_rows(&self.stored_components),
            components_error: dup_option(&self.components_error),
            object_suite: self.object_suite,
            object_root: self.object_root.clone(),
            object_length: self.object_length,
            staging_path: self.staging_path.clone(),
            journal_path: self.journal_path.clone(),
            incarnation: self.incarnation.clone(),
            prefix_bytes: self.prefix_bytes,
            published: self.published,
            receipt: self.receipt,
            commit_profile: self.commit_profile.clone(),
            nas_contract: self.nas_contract.clone(),
        }
    }
}

impl Clone for SessionFileRow {
    fn clone(&self) -> (r: Self)
        ensures
            r@ == self@,
    {
        self.dup()
    }
}

/// A row of `principals`.
#[derive(Debug, PartialEq)]
pub struct PrincipalRow {
    pub subject: String,
    pub credential_version: i64,
    pub blocked: bool,
    pub last_login_at: i64,
    pub last_groups: Vec<String>,
    /// JSON text as stored.
    pub last_grants: String,
    /// What the decoder says of groups that do not decode.
    pub document_error: Option<String>,
    pub source: String,
    pub external_id: Option<String>,
    pub created_at: i64,
}

/// The contents of [`PrincipalRow`].
#[verifier::ext_equal]
pub struct PrincipalRowView {
    pub subject: Seq<char>,
    pub credential_version: i64,
    pub blocked: bool,
    pub last_login_at: i64,
    pub last_groups: Seq<Seq<char>>,
    pub last_grants: Seq<char>,
    pub document_error: Option<Seq<char>>,
    pub source: Seq<char>,
    pub external_id: Option<Seq<char>>,
    pub created_at: i64,
}

impl View for PrincipalRow {
    type V = PrincipalRowView;

    open spec fn view(&self) -> PrincipalRowView {
        PrincipalRowView {
            subject: self.subject@,
            credential_version: self.credential_version,
            blocked: self.blocked,
            last_login_at: self.last_login_at,
            last_groups: self.last_groups.deep_view(),
            last_grants: self.last_grants@,
            document_error: self.document_error.deep_view(),
            source: self.source@,
            external_id: self.external_id.deep_view(),
            created_at: self.created_at,
        }
    }
}

impl DeepView for PrincipalRow {
    type V = PrincipalRowView;

    open spec fn deep_view(&self) -> PrincipalRowView {
        self@
    }
}

impl Row for PrincipalRow {
    fn dup(&self) -> (r: Self) {
        PrincipalRow {
            subject: self.subject.clone(),
            credential_version: self.credential_version,
            blocked: self.blocked,
            last_login_at: self.last_login_at,
            last_groups: dup_rows(&self.last_groups),
            last_grants: self.last_grants.clone(),
            document_error: dup_option(&self.document_error),
            source: self.source.clone(),
            external_id: dup_option(&self.external_id),
            created_at: self.created_at,
        }
    }
}

impl Clone for PrincipalRow {
    fn clone(&self) -> (r: Self)
        ensures
            r@ == self@,
    {
        self.dup()
    }
}

/// A row of `scim_groups`.
#[derive(Debug, PartialEq)]
pub struct ScimGroupRow {
    pub id: String,
    pub display_name: String,
    pub external_id: Option<String>,
    pub created_at: i64,
}

/// The contents of [`ScimGroupRow`].
#[verifier::ext_equal]
pub struct ScimGroupRowView {
    pub id: Seq<char>,
    pub display_name: Seq<char>,
    pub external_id: Option<Seq<char>>,
    pub created_at: i64,
}

impl View for ScimGroupRow {
    type V = ScimGroupRowView;

    open spec fn view(&self) -> ScimGroupRowView {
        ScimGroupRowView {
            id: self.id@,
            display_name: self.display_name@,
            external_id: self.external_id.deep_view(),
            created_at: self.created_at,
        }
    }
}

impl DeepView for ScimGroupRow {
    type V = ScimGroupRowView;

    open spec fn deep_view(&self) -> ScimGroupRowView {
        self@
    }
}

impl Row for ScimGroupRow {
    fn dup(&self) -> (r: Self) {
        ScimGroupRow {
            id: self.id.clone(),
            display_name: self.display_name.clone(),
            external_id: dup_option(&self.external_id),
            created_at: self.created_at,
        }
    }
}

impl Clone for ScimGroupRow {
    fn clone(&self) -> (r: Self)
        ensures
            r@ == self@,
    {
        self.dup()
    }
}

/// A row of `scim_group_members`.
#[derive(Debug, PartialEq)]
pub struct ScimMemberRow {
    pub group_id: String,
    pub subject: String,
}

/// The contents of [`ScimMemberRow`].
#[verifier::ext_equal]
pub struct ScimMemberRowView {
    pub group_id: Seq<char>,
    pub subject: Seq<char>,
}

impl View for ScimMemberRow {
    type V = ScimMemberRowView;

    open spec fn view(&self) -> ScimMemberRowView {
        ScimMemberRowView {
            group_id: self.group_id@,
            subject: self.subject@,
        }
    }
}

impl DeepView for ScimMemberRow {
    type V = ScimMemberRowView;

    open spec fn deep_view(&self) -> ScimMemberRowView {
        self@
    }
}

impl Row for ScimMemberRow {
    fn dup(&self) -> (r: Self) {
        ScimMemberRow {
            group_id: self.group_id.clone(),
            subject: self.subject.clone(),
        }
    }
}

impl Clone for ScimMemberRow {
    fn clone(&self) -> (r: Self)
        ensures
            r@ == self@,
    {
        self.dup()
    }
}

/// A row of `audit_log`; the table is in order of `rowid`.
#[derive(Debug, PartialEq)]
pub struct AuditLogRow {
    pub rowid: i64,
    pub at: i64,
    pub tenant: String,
    pub actor: String,
    pub event: String,
    pub subject: String,
    /// JSON text as stored.
    pub detail: String,
}

/// The contents of [`AuditLogRow`].
#[verifier::ext_equal]
pub struct AuditLogRowView {
    pub rowid: i64,
    pub at: i64,
    pub tenant: Seq<char>,
    pub actor: Seq<char>,
    pub event: Seq<char>,
    pub subject: Seq<char>,
    pub detail: Seq<char>,
}

impl View for AuditLogRow {
    type V = AuditLogRowView;

    open spec fn view(&self) -> AuditLogRowView {
        AuditLogRowView {
            rowid: self.rowid,
            at: self.at,
            tenant: self.tenant@,
            actor: self.actor@,
            event: self.event@,
            subject: self.subject@,
            detail: self.detail@,
        }
    }
}

impl DeepView for AuditLogRow {
    type V = AuditLogRowView;

    open spec fn deep_view(&self) -> AuditLogRowView {
        self@
    }
}

impl Row for AuditLogRow {
    fn dup(&self) -> (r: Self) {
        AuditLogRow {
            rowid: self.rowid,
            at: self.at,
            tenant: self.tenant.clone(),
            actor: self.actor.clone(),
            event: self.event.clone(),
            subject: self.subject.clone(),
            detail: self.detail.clone(),
        }
    }
}

impl Clone for AuditLogRow {
    fn clone(&self) -> (r: Self)
        ensures
            r@ == self@,
    {
        self.dup()
    }
}

/// A row of `settings`.
#[derive(Debug, PartialEq)]
pub struct SettingRow {
    pub key: String,
    pub value: String,
    pub updated_at: i64,
    pub updated_by: String,
}

/// The contents of [`SettingRow`].
#[verifier::ext_equal]
pub struct SettingRowView {
    pub key: Seq<char>,
    pub value: Seq<char>,
    pub updated_at: i64,
    pub updated_by: Seq<char>,
}

impl View for SettingRow {
    type V = SettingRowView;

    open spec fn view(&self) -> SettingRowView {
        SettingRowView {
            key: self.key@,
            value: self.value@,
            updated_at: self.updated_at,
            updated_by: self.updated_by@,
        }
    }
}

impl DeepView for SettingRow {
    type V = SettingRowView;

    open spec fn deep_view(&self) -> SettingRowView {
        self@
    }
}

impl Row for SettingRow {
    fn dup(&self) -> (r: Self) {
        SettingRow {
            key: self.key.clone(),
            value: self.value.clone(),
            updated_at: self.updated_at,
            updated_by: self.updated_by.clone(),
        }
    }
}

impl Clone for SettingRow {
    fn clone(&self) -> (r: Self)
        ensures
            r@ == self@,
    {
        self.dup()
    }
}

/// A row of `delivery_evidence`; the table is in order of `rowid`.
#[derive(Debug, PartialEq)]
pub struct EvidenceRow {
    pub rowid: i64,
    pub id: String,
    pub grant_id: String,
    pub holder: String,
    pub kind: String,
    pub received_at: i64,
    /// JSON text.
    pub document: String,
}

/// The contents of [`EvidenceRow`].
#[verifier::ext_equal]
pub struct EvidenceRowView {
    pub rowid: i64,
    pub id: Seq<char>,
    pub grant_id: Seq<char>,
    pub holder: Seq<char>,
    pub kind: Seq<char>,
    pub received_at: i64,
    pub document: Seq<char>,
}

impl View for EvidenceRow {
    type V = EvidenceRowView;

    open spec fn view(&self) -> EvidenceRowView {
        EvidenceRowView {
            rowid: self.rowid,
            id: self.id@,
            grant_id: self.grant_id@,
            holder: self.holder@,
            kind: self.kind@,
            received_at: self.received_at,
            document: self.document@,
        }
    }
}

impl DeepView for EvidenceRow {
    type V = EvidenceRowView;

    open spec fn deep_view(&self) -> EvidenceRowView {
        self@
    }
}

impl Row for EvidenceRow {
    fn dup(&self) -> (r: Self) {
        EvidenceRow {
            rowid: self.rowid,
            id: self.id.clone(),
            grant_id: self.grant_id.clone(),
            holder: self.holder.clone(),
            kind: self.kind.clone(),
            received_at: self.received_at,
            document: self.document.clone(),
        }
    }
}

impl Clone for EvidenceRow {
    fn clone(&self) -> (r: Self)
        ensures
            r@ == self@,
    {
        self.dup()
    }
}

/// A row of `delivery_events`; the table is in order of `id`.
#[derive(Debug, PartialEq)]
pub struct EventRow {
    pub id: i64,
    pub tenant: String,
    pub grant_id: String,
    pub kind: String,
    pub created_at: i64,
    /// JSON text as stored.
    pub payload: String,
    pub previous_hash: String,
    pub hash: String,
    pub issuer: String,
    pub signature: String,
}

/// The contents of [`EventRow`].
#[verifier::ext_equal]
pub struct EventRowView {
    pub id: i64,
    pub tenant: Seq<char>,
    pub grant_id: Seq<char>,
    pub kind: Seq<char>,
    pub created_at: i64,
    pub payload: Seq<char>,
    pub previous_hash: Seq<char>,
    pub hash: Seq<char>,
    pub issuer: Seq<char>,
    pub signature: Seq<char>,
}

impl View for EventRow {
    type V = EventRowView;

    open spec fn view(&self) -> EventRowView {
        EventRowView {
            id: self.id,
            tenant: self.tenant@,
            grant_id: self.grant_id@,
            kind: self.kind@,
            created_at: self.created_at,
            payload: self.payload@,
            previous_hash: self.previous_hash@,
            hash: self.hash@,
            issuer: self.issuer@,
            signature: self.signature@,
        }
    }
}

impl DeepView for EventRow {
    type V = EventRowView;

    open spec fn deep_view(&self) -> EventRowView {
        self@
    }
}

impl Row for EventRow {
    fn dup(&self) -> (r: Self) {
        EventRow {
            id: self.id,
            tenant: self.tenant.clone(),
            grant_id: self.grant_id.clone(),
            kind: self.kind.clone(),
            created_at: self.created_at,
            payload: self.payload.clone(),
            previous_hash: self.previous_hash.clone(),
            hash: self.hash.clone(),
            issuer: self.issuer.clone(),
            signature: self.signature.clone(),
        }
    }
}

impl Clone for EventRow {
    fn clone(&self) -> (r: Self)
        ensures
            r@ == self@,
    {
        self.dup()
    }
}

/// A row of `notification_destinations`.
#[derive(Debug, PartialEq)]
pub struct DestinationRow {
    pub id: String,
    pub tenant: String,
    pub document: NotificationDestination,
    /// What the decoder says of a document that does not decode.
    pub document_error: Option<String>,
    /// Whether a document that does not decode is JSON.
    pub readable: bool,
    /// The revision that a document that does not decode holds, where it is an
    /// integer of a column.
    pub revision: Option<i64>,
    pub last_at: Option<i64>,
    pub last_delivered: Option<bool>,
}

/// The contents of [`DestinationRow`].
#[verifier::ext_equal]
pub struct DestinationRowView {
    pub id: Seq<char>,
    pub tenant: Seq<char>,
    pub document: NotificationDestinationView,
    pub document_error: Option<Seq<char>>,
    pub readable: bool,
    pub revision: Option<i64>,
    pub last_at: Option<i64>,
    pub last_delivered: Option<bool>,
}

impl View for DestinationRow {
    type V = DestinationRowView;

    open spec fn view(&self) -> DestinationRowView {
        DestinationRowView {
            id: self.id@,
            tenant: self.tenant@,
            document: self.document@,
            document_error: self.document_error.deep_view(),
            readable: self.readable,
            revision: self.revision,
            last_at: self.last_at,
            last_delivered: self.last_delivered,
        }
    }
}

impl DeepView for DestinationRow {
    type V = DestinationRowView;

    open spec fn deep_view(&self) -> DestinationRowView {
        self@
    }
}

impl Row for DestinationRow {
    fn dup(&self) -> (r: Self) {
        DestinationRow {
            id: self.id.clone(),
            tenant: self.tenant.clone(),
            document: self.document.dup(),
            document_error: dup_option(&self.document_error),
            readable: self.readable,
            revision: self.revision,
            last_at: self.last_at,
            last_delivered: self.last_delivered,
        }
    }
}

impl Clone for DestinationRow {
    fn clone(&self) -> (r: Self)
        ensures
            r@ == self@,
    {
        self.dup()
    }
}

/// A row of `notification_defaults`.
#[derive(Debug, PartialEq)]
pub struct DefaultsRow {
    pub tenant: String,
    pub document: NotificationPolicy,
    /// What the decoder says of a document that does not decode.
    pub document_error: Option<String>,
}

/// The contents of [`DefaultsRow`].
#[verifier::ext_equal]
pub struct DefaultsRowView {
    pub tenant: Seq<char>,
    pub document: NotificationPolicyView,
    pub document_error: Option<Seq<char>>,
}

impl View for DefaultsRow {
    type V = DefaultsRowView;

    open spec fn view(&self) -> DefaultsRowView {
        DefaultsRowView {
            tenant: self.tenant@,
            document: self.document@,
            document_error: self.document_error.deep_view(),
        }
    }
}

impl DeepView for DefaultsRow {
    type V = DefaultsRowView;

    open spec fn deep_view(&self) -> DefaultsRowView {
        self@
    }
}

impl Row for DefaultsRow {
    fn dup(&self) -> (r: Self) {
        DefaultsRow {
            tenant: self.tenant.clone(),
            document: self.document.dup(),
            document_error: dup_option(&self.document_error),
        }
    }
}

impl Clone for DefaultsRow {
    fn clone(&self) -> (r: Self)
        ensures
            r@ == self@,
    {
        self.dup()
    }
}

/// A row of `notification_job_overrides`.
#[derive(Debug, PartialEq)]
pub struct OverrideRow {
    pub job_id: String,
    pub document: NotificationPolicy,
    /// What the decoder says of a document that does not decode.
    pub document_error: Option<String>,
}

/// The contents of [`OverrideRow`].
#[verifier::ext_equal]
pub struct OverrideRowView {
    pub job_id: Seq<char>,
    pub document: NotificationPolicyView,
    pub document_error: Option<Seq<char>>,
}

impl View for OverrideRow {
    type V = OverrideRowView;

    open spec fn view(&self) -> OverrideRowView {
        OverrideRowView {
            job_id: self.job_id@,
            document: self.document@,
            document_error: self.document_error.deep_view(),
        }
    }
}

impl DeepView for OverrideRow {
    type V = OverrideRowView;

    open spec fn deep_view(&self) -> OverrideRowView {
        self@
    }
}

impl Row for OverrideRow {
    fn dup(&self) -> (r: Self) {
        OverrideRow {
            job_id: self.job_id.clone(),
            document: self.document.dup(),
            document_error: dup_option(&self.document_error),
        }
    }
}

impl Clone for OverrideRow {
    fn clone(&self) -> (r: Self)
        ensures
            r@ == self@,
    {
        self.dup()
    }
}

/// A row of `meta`.
#[derive(Debug, PartialEq)]
pub struct MetaRow {
    pub key: String,
    pub value: String,
}

/// The contents of [`MetaRow`].
#[verifier::ext_equal]
pub struct MetaRowView {
    pub key: Seq<char>,
    pub value: Seq<char>,
}

impl View for MetaRow {
    type V = MetaRowView;

    open spec fn view(&self) -> MetaRowView {
        MetaRowView {
            key: self.key@,
            value: self.value@,
        }
    }
}

impl DeepView for MetaRow {
    type V = MetaRowView;

    open spec fn deep_view(&self) -> MetaRowView {
        self@
    }
}

impl Row for MetaRow {
    fn dup(&self) -> (r: Self) {
        MetaRow {
            key: self.key.clone(),
            value: self.value.clone(),
        }
    }
}

impl Clone for MetaRow {
    fn clone(&self) -> (r: Self)
        ensures
            r@ == self@,
    {
        self.dup()
    }
}

/// A row of `automation_operations`; the table is in order of `rowid`.
#[derive(Debug, PartialEq)]
pub struct OperationRow {
    pub rowid: i64,
    pub token_id: String,
    pub operation_id: String,
    pub request_hash: String,
    pub grant_id: String,
}

/// The contents of [`OperationRow`].
#[verifier::ext_equal]
pub struct OperationRowView {
    pub rowid: i64,
    pub token_id: Seq<char>,
    pub operation_id: Seq<char>,
    pub request_hash: Seq<char>,
    pub grant_id: Seq<char>,
}

impl View for OperationRow {
    type V = OperationRowView;

    open spec fn view(&self) -> OperationRowView {
        OperationRowView {
            rowid: self.rowid,
            token_id: self.token_id@,
            operation_id: self.operation_id@,
            request_hash: self.request_hash@,
            grant_id: self.grant_id@,
        }
    }
}

impl DeepView for OperationRow {
    type V = OperationRowView;

    open spec fn deep_view(&self) -> OperationRowView {
        self@
    }
}

impl Row for OperationRow {
    fn dup(&self) -> (r: Self) {
        OperationRow {
            rowid: self.rowid,
            token_id: self.token_id.clone(),
            operation_id: self.operation_id.clone(),
            request_hash: self.request_hash.clone(),
            grant_id: self.grant_id.clone(),
        }
    }
}

impl Clone for OperationRow {
    fn clone(&self) -> (r: Self)
        ensures
            r@ == self@,
    {
        self.dup()
    }
}

/// A row of `outbound_routes`: a job's delivery to a destination.
#[derive(Debug, PartialEq)]
pub struct OutboundRouteRow {
    pub job_id: String,
    pub destination_id: String,
    /// Whether the peer acknowledged the delivery.
    pub acknowledged: bool,
    /// Whether the delivery is to be revoked at the peer.
    pub revocation: bool,
    /// What the job's document says of the destination.
    pub destination_state: Option<String>,
}

/// The contents of [`OutboundRouteRow`].
#[verifier::ext_equal]
pub struct OutboundRouteRowView {
    pub job_id: Seq<char>,
    pub destination_id: Seq<char>,
    pub acknowledged: bool,
    pub revocation: bool,
    pub destination_state: Option<Seq<char>>,
}

impl View for OutboundRouteRow {
    type V = OutboundRouteRowView;

    open spec fn view(&self) -> OutboundRouteRowView {
        OutboundRouteRowView {
            job_id: self.job_id@,
            destination_id: self.destination_id@,
            acknowledged: self.acknowledged,
            revocation: self.revocation,
            destination_state: self.destination_state.deep_view(),
        }
    }
}

impl DeepView for OutboundRouteRow {
    type V = OutboundRouteRowView;

    open spec fn deep_view(&self) -> OutboundRouteRowView {
        self@
    }
}

impl Row for OutboundRouteRow {
    fn dup(&self) -> (r: Self) {
        OutboundRouteRow {
            job_id: self.job_id.clone(),
            destination_id: self.destination_id.clone(),
            acknowledged: self.acknowledged,
            revocation: self.revocation,
            destination_state: dup_option(&self.destination_state),
        }
    }
}

impl Clone for OutboundRouteRow {
    fn clone(&self) -> (r: Self)
        ensures
            r@ == self@,
    {
        self.dup()
    }
}

/// A row of `inbound_routes`.
#[derive(Debug, PartialEq)]
pub struct InboundRouteRow {
    pub id: String,
    pub tenant: String,
    pub link_id: String,
}

/// The contents of [`InboundRouteRow`].
#[verifier::ext_equal]
pub struct InboundRouteRowView {
    pub id: Seq<char>,
    pub tenant: Seq<char>,
    pub link_id: Seq<char>,
}

impl View for InboundRouteRow {
    type V = InboundRouteRowView;

    open spec fn view(&self) -> InboundRouteRowView {
        InboundRouteRowView {
            id: self.id@,
            tenant: self.tenant@,
            link_id: self.link_id@,
        }
    }
}

impl DeepView for InboundRouteRow {
    type V = InboundRouteRowView;

    open spec fn deep_view(&self) -> InboundRouteRowView {
        self@
    }
}

impl Row for InboundRouteRow {
    fn dup(&self) -> (r: Self) {
        InboundRouteRow {
            id: self.id.clone(),
            tenant: self.tenant.clone(),
            link_id: self.link_id.clone(),
        }
    }
}

impl Clone for InboundRouteRow {
    fn clone(&self) -> (r: Self)
        ensures
            r@ == self@,
    {
        self.dup()
    }
}

/// A row of `trade_routes`.
#[derive(Debug, PartialEq)]
pub struct TradeRouteRow {
    pub id: String,
    pub tenant: String,
    pub endpoint: String,
    pub direction: String,
    /// What the route's document says of its state.
    pub state: Option<String>,
}

/// The contents of [`TradeRouteRow`].
#[verifier::ext_equal]
pub struct TradeRouteRowView {
    pub id: Seq<char>,
    pub tenant: Seq<char>,
    pub endpoint: Seq<char>,
    pub direction: Seq<char>,
    pub state: Option<Seq<char>>,
}

impl View for TradeRouteRow {
    type V = TradeRouteRowView;

    open spec fn view(&self) -> TradeRouteRowView {
        TradeRouteRowView {
            id: self.id@,
            tenant: self.tenant@,
            endpoint: self.endpoint@,
            direction: self.direction@,
            state: self.state.deep_view(),
        }
    }
}

impl DeepView for TradeRouteRow {
    type V = TradeRouteRowView;

    open spec fn deep_view(&self) -> TradeRouteRowView {
        self@
    }
}

impl Row for TradeRouteRow {
    fn dup(&self) -> (r: Self) {
        TradeRouteRow {
            id: self.id.clone(),
            tenant: self.tenant.clone(),
            endpoint: self.endpoint.clone(),
            direction: self.direction.clone(),
            state: dup_option(&self.state),
        }
    }
}

impl Clone for TradeRouteRow {
    fn clone(&self) -> (r: Self)
        ensures
            r@ == self@,
    {
        self.dup()
    }
}

/// A row of `trade_invitations`.
#[derive(Debug, PartialEq)]
pub struct TradeInvitationRow {
    pub id: String,
    pub tenant: String,
    pub endpoint: String,
}

/// The contents of [`TradeInvitationRow`].
#[verifier::ext_equal]
pub struct TradeInvitationRowView {
    pub id: Seq<char>,
    pub tenant: Seq<char>,
    pub endpoint: Seq<char>,
}

impl View for TradeInvitationRow {
    type V = TradeInvitationRowView;

    open spec fn view(&self) -> TradeInvitationRowView {
        TradeInvitationRowView {
            id: self.id@,
            tenant: self.tenant@,
            endpoint: self.endpoint@,
        }
    }
}

impl DeepView for TradeInvitationRow {
    type V = TradeInvitationRowView;

    open spec fn deep_view(&self) -> TradeInvitationRowView {
        self@
    }
}

impl Row for TradeInvitationRow {
    fn dup(&self) -> (r: Self) {
        TradeInvitationRow {
            id: self.id.clone(),
            tenant: self.tenant.clone(),
            endpoint: self.endpoint.clone(),
        }
    }
}

impl Clone for TradeInvitationRow {
    fn clone(&self) -> (r: Self)
        ensures
            r@ == self@,
    {
        self.dup()
    }
}

/// A row of `trade_endpoints`.
#[derive(Debug, PartialEq)]
pub struct TradeEndpointRow {
    pub id: String,
    pub tenant: String,
}

/// The contents of [`TradeEndpointRow`].
#[verifier::ext_equal]
pub struct TradeEndpointRowView {
    pub id: Seq<char>,
    pub tenant: Seq<char>,
}

impl View for TradeEndpointRow {
    type V = TradeEndpointRowView;

    open spec fn view(&self) -> TradeEndpointRowView {
        TradeEndpointRowView {
            id: self.id@,
            tenant: self.tenant@,
        }
    }
}

impl DeepView for TradeEndpointRow {
    type V = TradeEndpointRowView;

    open spec fn deep_view(&self) -> TradeEndpointRowView {
        self@
    }
}

impl Row for TradeEndpointRow {
    fn dup(&self) -> (r: Self) {
        TradeEndpointRow {
            id: self.id.clone(),
            tenant: self.tenant.clone(),
        }
    }
}

impl Clone for TradeEndpointRow {
    fn clone(&self) -> (r: Self)
        ensures
            r@ == self@,
    {
        self.dup()
    }
}

} // verus!
