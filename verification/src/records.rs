//! The records that the store takes in and hands out.
use vstd::prelude::*;

use crate::kinds::{CommitProfile, EvidenceKind, NasContract, NotificationMode};
use crate::table::{Row, dup_option, dup_rows};

verus! {

/// One received file of an upload.
#[derive(Debug, PartialEq)]
pub struct FileRecord {
    /// Path as named inside the uploaded package.
    pub path: String,
    /// Path the bytes are stored under, relative to the owning tenant's subtree.
    pub stored_as: String,
    pub bytes: u64,
    /// Hash suite of the object root ("blake3" or "sha256").
    pub suite: String,
    /// Hex object root the received bytes verified against.
    pub root: String,
    /// Whether a signed receipt was written next to the file.
    pub receipt: bool,
    /// Set once the stored file was deleted. Such a record never satisfies a
    /// later dedupe, even if a file of the same length sits at its path again.
    pub deleted: bool,
}

/// The contents of [`FileRecord`].
#[verifier::ext_equal]
pub struct FileRecordView {
    pub path: Seq<char>,
    pub stored_as: Seq<char>,
    pub bytes: u64,
    pub suite: Seq<char>,
    pub root: Seq<char>,
    pub receipt: bool,
    pub deleted: bool,
}

impl View for FileRecord {
    type V = FileRecordView;

    open spec fn view(&self) -> FileRecordView {
        FileRecordView {
            path: self.path@,
            stored_as: self.stored_as@,
            bytes: self.bytes,
            suite: self.suite@,
            root: self.root@,
            receipt: self.receipt,
            deleted: self.deleted,
        }
    }
}

impl DeepView for FileRecord {
    type V = FileRecordView;

    open spec fn deep_view(&self) -> FileRecordView {
        self@
    }
}

impl Row for FileRecord {
    fn dup(&self) -> (r: Self) {
        FileRecord {
            path: self.path.clone(),
            stored_as: self.stored_as.clone(),
            bytes: self.bytes,
            suite: self.suite.clone(),
            root: self.root.clone(),
            receipt: self.receipt,
            deleted: self.deleted,
        }
    }
}

impl Clone for FileRecord {
    fn clone(&self) -> (r: Self)
        ensures
            r@ == self@,
    {
        self.dup()
    }
}

/// A session that ended without a completed upload.
#[derive(Debug, PartialEq)]
pub struct SessionEvent {
    pub at: u64,
    pub started_at: u64,
    /// "cancelled", "interrupted" or "rejected".
    pub outcome: String,
    pub detail: String,
    pub received_bytes: u64,
    pub expected_bytes: u64,
    /// Chunks the sender sent again that were already verified.
    pub replayed_chunks: u64,
    /// Chunks the server refused.
    pub rejected_chunks: u64,
}

/// The contents of [`SessionEvent`].
#[verifier::ext_equal]
pub struct SessionEventView {
    pub at: u64,
    pub started_at: u64,
    pub outcome: Seq<char>,
    pub detail: Seq<char>,
    pub received_bytes: u64,
    pub expected_bytes: u64,
    pub replayed_chunks: u64,
    pub rejected_chunks: u64,
}

impl View for SessionEvent {
    type V = SessionEventView;

    open spec fn view(&self) -> SessionEventView {
        SessionEventView {
            at: self.at,
            started_at: self.started_at,
            outcome: self.outcome@,
            detail: self.detail@,
            received_bytes: self.received_bytes,
            expected_bytes: self.expected_bytes,
            replayed_chunks: self.replayed_chunks,
            rejected_chunks: self.rejected_chunks,
        }
    }
}

impl DeepView for SessionEvent {
    type V = SessionEventView;

    open spec fn deep_view(&self) -> SessionEventView {
        self@
    }
}

impl Row for SessionEvent {
    fn dup(&self) -> (r: Self) {
        SessionEvent {
            at: self.at,
            started_at: self.started_at,
            outcome: self.outcome.clone(),
            detail: self.detail.clone(),
            received_bytes: self.received_bytes,
            expected_bytes: self.expected_bytes,
            replayed_chunks: self.replayed_chunks,
            rejected_chunks: self.rejected_chunks,
        }
    }
}

impl Clone for SessionEvent {
    fn clone(&self) -> (r: Self)
        ensures
            r@ == self@,
    {
        self.dup()
    }
}

/// One transfer log entry.
#[derive(Debug, PartialEq)]
pub struct LogEvent {
    pub at: u64,
    pub kind: String,
    pub path: Option<String>,
    pub bytes: Option<u64>,
    pub secs: Option<u64>,
    pub count: Option<u64>,
}

/// The contents of [`LogEvent`].
#[verifier::ext_equal]
pub struct LogEventView {
    pub at: u64,
    pub kind: Seq<char>,
    pub path: Option<Seq<char>>,
    pub bytes: Option<u64>,
    pub secs: Option<u64>,
    pub count: Option<u64>,
}

impl View for LogEvent {
    type V = LogEventView;

    open spec fn view(&self) -> LogEventView {
        LogEventView {
            at: self.at,
            kind: self.kind@,
            path: self.path.deep_view(),
            bytes: self.bytes,
            secs: self.secs,
            count: self.count,
        }
    }
}

impl DeepView for LogEvent {
    type V = LogEventView;

    open spec fn deep_view(&self) -> LogEventView {
        self@
    }
}

impl Row for LogEvent {
    fn dup(&self) -> (r: Self) {
        LogEvent {
            at: self.at,
            kind: self.kind.clone(),
            path: dup_option(&self.path),
            bytes: self.bytes,
            secs: self.secs,
            count: self.count,
        }
    }
}

impl Clone for LogEvent {
    fn clone(&self) -> (r: Self)
        ensures
            r@ == self@,
    {
        self.dup()
    }
}

/// A completed or partial upload of a link.
#[derive(Debug, PartialEq)]
pub struct UploadRecord {
    pub id: String,
    pub started_at: u64,
    pub completed_at: u64,
    pub replayed_chunks: u64,
    pub rejected_chunks: u64,
    pub transport: Option<String>,
    /// Hex root of the verified package manifest.
    pub package_root: String,
    pub total_bytes: u64,
    pub files: Vec<FileRecord>,
    /// The session ended before every file was received; `files` holds those
    /// that were published.
    pub partial: bool,
    pub log: Vec<LogEvent>,
}

/// The contents of [`UploadRecord`].
#[verifier::ext_equal]
pub struct UploadRecordView {
    pub id: Seq<char>,
    pub started_at: u64,
    pub completed_at: u64,
    pub replayed_chunks: u64,
    pub rejected_chunks: u64,
    pub transport: Option<Seq<char>>,
    pub package_root: Seq<char>,
    pub total_bytes: u64,
    pub files: Seq<FileRecordView>,
    pub partial: bool,
    pub log: Seq<LogEventView>,
}

impl View for UploadRecord {
    type V = UploadRecordView;

    open spec fn view(&self) -> UploadRecordView {
        UploadRecordView {
            id: self.id@,
            started_at: self.started_at,
            completed_at: self.completed_at,
            replayed_chunks: self.replayed_chunks,
            rejected_chunks: self.rejected_chunks,
            transport: self.transport.deep_view(),
            package_root: self.package_root@,
            total_bytes: self.total_bytes,
            files: self.files.deep_view(),
            partial: self.partial,
            log: self.log.deep_view(),
        }
    }
}

impl DeepView for UploadRecord {
    type V = UploadRecordView;

    open spec fn deep_view(&self) -> UploadRecordView {
        self@
    }
}

impl Row for UploadRecord {
    fn dup(&self) -> (r: Self) {
        UploadRecord {
            id: self.id.clone(),
            started_at: self.started_at,
            completed_at: self.completed_at,
            replayed_chunks: self.replayed_chunks,
            rejected_chunks: self.rejected_chunks,
            transport: dup_option(&self.transport),
            package_root: self.package_root.clone(),
            total_bytes: self.total_bytes,
            files: dup_rows(&self.files),
            partial: self.partial,
            log: dup_rows(&self.log),
        }
    }
}

impl Clone for UploadRecord {
    fn clone(&self) -> (r: Self)
        ensures
            r@ == self@,
    {
        self.dup()
    }
}

/// A destination and the events it is told of.
#[derive(Debug, PartialEq, Eq)]
pub struct NotificationRule {
    pub destination_id: String,
    pub events: Vec<String>,
}

/// The contents of [`NotificationRule`].
#[verifier::ext_equal]
pub struct NotificationRuleView {
    pub destination_id: Seq<char>,
    pub events: Seq<Seq<char>>,
}

impl View for NotificationRule {
    type V = NotificationRuleView;

    open spec fn view(&self) -> NotificationRuleView {
        NotificationRuleView {
            destination_id: self.destination_id@,
            events: self.events.deep_view(),
        }
    }
}

impl DeepView for NotificationRule {
    type V = NotificationRuleView;

    open spec fn deep_view(&self) -> NotificationRuleView {
        self@
    }
}

impl Row for NotificationRule {
    fn dup(&self) -> (r: Self) {
        NotificationRule {
            destination_id: self.destination_id.clone(),
            events: dup_rows(&self.events),
        }
    }
}

impl Clone for NotificationRule {
    fn clone(&self) -> (r: Self)
        ensures
            r@ == self@,
    {
        self.dup()
    }
}

/// Who is notified of what happens to a link or a delivery.
#[derive(Debug, PartialEq, Eq)]
pub struct NotificationPolicy {
    pub mode: NotificationMode,
    pub rules: Vec<NotificationRule>,
}

/// The contents of [`NotificationPolicy`].
#[verifier::ext_equal]
pub struct NotificationPolicyView {
    pub mode: NotificationMode,
    pub rules: Seq<NotificationRuleView>,
}

impl View for NotificationPolicy {
    type V = NotificationPolicyView;

    open spec fn view(&self) -> NotificationPolicyView {
        NotificationPolicyView {
            mode: self.mode,
            rules: self.rules.deep_view(),
        }
    }
}

impl DeepView for NotificationPolicy {
    type V = NotificationPolicyView;

    open spec fn deep_view(&self) -> NotificationPolicyView {
        self@
    }
}

impl Row for NotificationPolicy {
    fn dup(&self) -> (r: Self) {
        NotificationPolicy {
            mode: self.mode,
            rules: dup_rows(&self.rules),
        }
    }
}

impl Clone for NotificationPolicy {
    fn clone(&self) -> (r: Self)
        ensures
            r@ == self@,
    {
        self.dup()
    }
}

/// A configured notification channel.
#[derive(Debug, PartialEq)]
pub struct NotificationDestination {
    pub id: String,
    pub revision: u64,
    pub label: String,
    pub channel: String,
    pub target: String,
    pub enabled: bool,
    pub url: String,
    pub token: String,
    pub user: String,
    pub recipients: Vec<String>,
    pub thread_id: String,
}

/// The contents of [`NotificationDestination`].
#[verifier::ext_equal]
pub struct NotificationDestinationView {
    pub id: Seq<char>,
    pub revision: u64,
    pub label: Seq<char>,
    pub channel: Seq<char>,
    pub target: Seq<char>,
    pub enabled: bool,
    pub url: Seq<char>,
    pub token: Seq<char>,
    pub user: Seq<char>,
    pub recipients: Seq<Seq<char>>,
    pub thread_id: Seq<char>,
}

impl View for NotificationDestination {
    type V = NotificationDestinationView;

    open spec fn view(&self) -> NotificationDestinationView {
        NotificationDestinationView {
            id: self.id@,
            revision: self.revision,
            label: self.label@,
            channel: self.channel@,
            target: self.target@,
            enabled: self.enabled,
            url: self.url@,
            token: self.token@,
            user: self.user@,
            recipients: self.recipients.deep_view(),
            thread_id: self.thread_id@,
        }
    }
}

impl DeepView for NotificationDestination {
    type V = NotificationDestinationView;

    open spec fn deep_view(&self) -> NotificationDestinationView {
        self@
    }
}

impl Row for NotificationDestination {
    fn dup(&self) -> (r: Self) {
        NotificationDestination {
            id: self.id.clone(),
            revision: self.revision,
            label: self.label.clone(),
            channel: self.channel.clone(),
            target: self.target.clone(),
            enabled: self.enabled,
            url: self.url.clone(),
            token: self.token.clone(),
            user: self.user.clone(),
            recipients: dup_rows(&self.recipients),
            thread_id: self.thread_id.clone(),
        }
    }
}

impl Clone for NotificationDestination {
    fn clone(&self) -> (r: Self)
        ensures
            r@ == self@,
    {
        self.dup()
    }
}

/// A fetch capability minted for a grant.
#[derive(Debug, PartialEq)]
pub struct FetchTicket {
    pub holder: String,
    pub grant_token_hash: String,
    pub policy_revision: u64,
    pub token_id: String,
    pub grant_id: String,
    pub manifest_root: String,
    pub expires_at: u64,
    pub delivered_at: Option<u64>,
}

/// The contents of [`FetchTicket`].
#[verifier::ext_equal]
pub struct FetchTicketView {
    pub holder: Seq<char>,
    pub grant_token_hash: Seq<char>,
    pub policy_revision: u64,
    pub token_id: Seq<char>,
    pub grant_id: Seq<char>,
    pub manifest_root: Seq<char>,
    pub expires_at: u64,
    pub delivered_at: Option<u64>,
}

impl View for FetchTicket {
    type V = FetchTicketView;

    open spec fn view(&self) -> FetchTicketView {
        FetchTicketView {
            holder: self.holder@,
            grant_token_hash: self.grant_token_hash@,
            policy_revision: self.policy_revision,
            token_id: self.token_id@,
            grant_id: self.grant_id@,
            manifest_root: self.manifest_root@,
            expires_at: self.expires_at,
            delivered_at: self.delivered_at,
        }
    }
}

impl DeepView for FetchTicket {
    type V = FetchTicketView;

    open spec fn deep_view(&self) -> FetchTicketView {
        self@
    }
}

impl Row for FetchTicket {
    fn dup(&self) -> (r: Self) {
        FetchTicket {
            holder: self.holder.clone(),
            grant_token_hash: self.grant_token_hash.clone(),
            policy_revision: self.policy_revision,
            token_id: self.token_id.clone(),
            grant_id: self.grant_id.clone(),
            manifest_root: self.manifest_root.clone(),
            expires_at: self.expires_at,
            delivered_at: self.delivered_at,
        }
    }
}

impl Clone for FetchTicket {
    fn clone(&self) -> (r: Self)
        ensures
            r@ == self@,
    {
        self.dup()
    }
}

/// One file of an outbound grant.
#[derive(Debug, PartialEq)]
pub struct OutboundGrantFile {
    pub source: String,
    pub name: String,
    pub suite: String,
    pub root: String,
    pub bytes: u64,
    pub receipt_b64: String,
    pub downloads: u64,
    pub first_download_at: Option<u64>,
    pub last_download_at: Option<u64>,
}

/// The contents of [`OutboundGrantFile`].
#[verifier::ext_equal]
pub struct OutboundGrantFileView {
    pub source: Seq<char>,
    pub name: Seq<char>,
    pub suite: Seq<char>,
    pub root: Seq<char>,
    pub bytes: u64,
    pub receipt_b64: Seq<char>,
    pub downloads: u64,
    pub first_download_at: Option<u64>,
    pub last_download_at: Option<u64>,
}

impl View for OutboundGrantFile {
    type V = OutboundGrantFileView;

    open spec fn view(&self) -> OutboundGrantFileView {
        OutboundGrantFileView {
            source: self.source@,
            name: self.name@,
            suite: self.suite@,
            root: self.root@,
            bytes: self.bytes,
            receipt_b64: self.receipt_b64@,
            downloads: self.downloads,
            first_download_at: self.first_download_at,
            last_download_at: self.last_download_at,
        }
    }
}

impl DeepView for OutboundGrantFile {
    type V = OutboundGrantFileView;

    open spec fn deep_view(&self) -> OutboundGrantFileView {
        self@
    }
}

impl Row for OutboundGrantFile {
    fn dup(&self) -> (r: Self) {
        OutboundGrantFile {
            source: self.source.clone(),
            name: self.name.clone(),
            suite: self.suite.clone(),
            root: self.root.clone(),
            bytes: self.bytes,
            receipt_b64: self.receipt_b64.clone(),
            downloads: self.downloads,
            first_download_at: self.first_download_at,
            last_download_at: self.last_download_at,
        }
    }
}

impl Clone for OutboundGrantFile {
    fn clone(&self) -> (r: Self)
        ensures
            r@ == self@,
    {
        self.dup()
    }
}

/// A download link for one received file or for a set of library files.
#[derive(Debug, PartialEq)]
pub struct OutboundGrant {
    pub id: String,
    pub token_hash: String,
    pub password_hash: Option<String>,
    pub tenant: String,
    pub link_id: String,
    pub upload_id: String,
    pub package_root: String,
    pub name: String,
    pub suite: String,
    pub root: String,
    pub file_index: usize,
    pub bytes: u64,
    pub label: String,
    pub created_at: u64,
    pub expires_at: u64,
    pub revoked_at: Option<u64>,
    pub downloads: u64,
    pub max_downloads: Option<u64>,
    pub notifications: Option<NotificationPolicy>,
    pub first_download_at: Option<u64>,
    pub last_download_at: Option<u64>,
    pub files: Vec<OutboundGrantFile>,
}

/// The contents of [`OutboundGrant`].
#[verifier::ext_equal]
pub struct OutboundGrantView {
    pub id: Seq<char>,
    pub token_hash: Seq<char>,
    pub password_hash: Option<Seq<char>>,
    pub tenant: Seq<char>,
    pub link_id: Seq<char>,
    pub upload_id: Seq<char>,
    pub package_root: Seq<char>,
    pub name: Seq<char>,
    pub suite: Seq<char>,
    pub root: Seq<char>,
    pub file_index: usize,
    pub bytes: u64,
    pub label: Seq<char>,
    pub created_at: u64,
    pub expires_at: u64,
    pub revoked_at: Option<u64>,
    pub downloads: u64,
    pub max_downloads: Option<u64>,
    pub notifications: Option<NotificationPolicyView>,
    pub first_download_at: Option<u64>,
    pub last_download_at: Option<u64>,
    pub files: Seq<OutboundGrantFileView>,
}

impl View for OutboundGrant {
    type V = OutboundGrantView;

    open spec fn view(&self) -> OutboundGrantView {
        OutboundGrantView {
            id: self.id@,
            token_hash: self.token_hash@,
            password_hash: self.password_hash.deep_view(),
            tenant: self.tenant@,
            link_id: self.link_id@,
            upload_id: self.upload_id@,
            package_root: self.package_root@,
            name: self.name@,
            suite: self.suite@,
            root: self.root@,
            file_index: self.file_index,
            bytes: self.bytes,
            label: self.label@,
            created_at: self.created_at,
            expires_at: self.expires_at,
            revoked_at: self.revoked_at,
            downloads: self.downloads,
            max_downloads: self.max_downloads,
            notifications: self.notifications.deep_view(),
            first_download_at: self.first_download_at,
            last_download_at: self.last_download_at,
            files: self.files.deep_view(),
        }
    }
}

impl DeepView for OutboundGrant {
    type V = OutboundGrantView;

    open spec fn deep_view(&self) -> OutboundGrantView {
        self@
    }
}

impl Row for OutboundGrant {
    fn dup(&self) -> (r: Self) {
        OutboundGrant {
            id: self.id.clone(),
            token_hash: self.token_hash.clone(),
            password_hash: dup_option(&self.password_hash),
            tenant: self.tenant.clone(),
            link_id: self.link_id.clone(),
            upload_id: self.upload_id.clone(),
            package_root: self.package_root.clone(),
            name: self.name.clone(),
            suite: self.suite.clone(),
            root: self.root.clone(),
            file_index: self.file_index,
            bytes: self.bytes,
            label: self.label.clone(),
            created_at: self.created_at,
            expires_at: self.expires_at,
            revoked_at: self.revoked_at,
            downloads: self.downloads,
            max_downloads: self.max_downloads,
            notifications: dup_option(&self.notifications),
            first_download_at: self.first_download_at,
            last_download_at: self.last_download_at,
            files: dup_rows(&self.files),
        }
    }
}

impl Clone for OutboundGrant {
    fn clone(&self) -> (r: Self)
        ensures
            r@ == self@,
    {
        self.dup()
    }
}

/// One page of a grant's files.
#[derive(Debug, PartialEq)]
pub struct OutboundGrantFilesPage {
    pub grant: OutboundGrant,
    pub file_count: usize,
    /// Sum over every file of the grant, not only the page.
    pub total_bytes: u64,
    pub files: Vec<(usize, OutboundGrantFile)>,
}

/// The contents of [`OutboundGrantFilesPage`].
#[verifier::ext_equal]
pub struct OutboundGrantFilesPageView {
    pub grant: OutboundGrantView,
    pub file_count: usize,
    pub total_bytes: u64,
    pub files: Seq<(usize, OutboundGrantFileView)>,
}

impl View for OutboundGrantFilesPage {
    type V = OutboundGrantFilesPageView;

    open spec fn view(&self) -> OutboundGrantFilesPageView {
        OutboundGrantFilesPageView {
            grant: self.grant@,
            file_count: self.file_count,
            total_bytes: self.total_bytes,
            files: self.files.deep_view(),
        }
    }
}

impl DeepView for OutboundGrantFilesPage {
    type V = OutboundGrantFilesPageView;

    open spec fn deep_view(&self) -> OutboundGrantFilesPageView {
        self@
    }
}

impl Row for OutboundGrantFilesPage {
    fn dup(&self) -> (r: Self) {
        OutboundGrantFilesPage {
            grant: self.grant.dup(),
            file_count: self.file_count,
            total_bytes: self.total_bytes,
            files: dup_rows(&self.files),
        }
    }
}

impl Clone for OutboundGrantFilesPage {
    fn clone(&self) -> (r: Self)
        ensures
            r@ == self@,
    {
        self.dup()
    }
}

/// A credential that scripts act under.
#[derive(Debug, PartialEq)]
pub struct AutomationToken {
    pub id: String,
    pub token_hash: String,
    pub tenant: String,
    pub label: String,
    /// Library directory the token may share; `None` is any of the tenant's.
    pub directory: Option<String>,
    pub permissions: Vec<String>,
    pub created_at: u64,
    pub expires_at: u64,
    pub revoked_at: Option<u64>,
    pub last_used_at: Option<u64>,
}

/// The contents of [`AutomationToken`].
#[verifier::ext_equal]
pub struct AutomationTokenView {
    pub id: Seq<char>,
    pub token_hash: Seq<char>,
    pub tenant: Seq<char>,
    pub label: Seq<char>,
    pub directory: Option<Seq<char>>,
    pub permissions: Seq<Seq<char>>,
    pub created_at: u64,
    pub expires_at: u64,
    pub revoked_at: Option<u64>,
    pub last_used_at: Option<u64>,
}

impl View for AutomationToken {
    type V = AutomationTokenView;

    open spec fn view(&self) -> AutomationTokenView {
        AutomationTokenView {
            id: self.id@,
            token_hash: self.token_hash@,
            tenant: self.tenant@,
            label: self.label@,
            directory: self.directory.deep_view(),
            permissions: self.permissions.deep_view(),
            created_at: self.created_at,
            expires_at: self.expires_at,
            revoked_at: self.revoked_at,
            last_used_at: self.last_used_at,
        }
    }
}

impl DeepView for AutomationToken {
    type V = AutomationTokenView;

    open spec fn deep_view(&self) -> AutomationTokenView {
        self@
    }
}

impl Row for AutomationToken {
    fn dup(&self) -> (r: Self) {
        AutomationToken {
            id: self.id.clone(),
            token_hash: self.token_hash.clone(),
            tenant: self.tenant.clone(),
            label: self.label.clone(),
            directory: dup_option(&self.directory),
            permissions: dup_rows(&self.permissions),
            created_at: self.created_at,
            expires_at: self.expires_at,
            revoked_at: self.revoked_at,
            last_used_at: self.last_used_at,
        }
    }
}

impl Clone for AutomationToken {
    fn clone(&self) -> (r: Self)
        ensures
            r@ == self@,
    {
        self.dup()
    }
}

/// The delivery that an automation request created.
#[derive(Debug, PartialEq)]
pub struct AutomationOperation {
    pub token_id: String,
    pub operation_id: String,
    pub request_hash: String,
    pub grant_id: String,
}

/// The contents of [`AutomationOperation`].
#[verifier::ext_equal]
pub struct AutomationOperationView {
    pub token_id: Seq<char>,
    pub operation_id: Seq<char>,
    pub request_hash: Seq<char>,
    pub grant_id: Seq<char>,
}

impl View for AutomationOperation {
    type V = AutomationOperationView;

    open spec fn view(&self) -> AutomationOperationView {
        AutomationOperationView {
            token_id: self.token_id@,
            operation_id: self.operation_id@,
            request_hash: self.request_hash@,
            grant_id: self.grant_id@,
        }
    }
}

impl DeepView for AutomationOperation {
    type V = AutomationOperationView;

    open spec fn deep_view(&self) -> AutomationOperationView {
        self@
    }
}

impl Row for AutomationOperation {
    fn dup(&self) -> (r: Self) {
        AutomationOperation {
            token_id: self.token_id.clone(),
            operation_id: self.operation_id.clone(),
            request_hash: self.request_hash.clone(),
            grant_id: self.grant_id.clone(),
        }
    }
}

impl Clone for AutomationOperation {
    fn clone(&self) -> (r: Self)
        ensures
            r@ == self@,
    {
        self.dup()
    }
}

/// A request link.
#[derive(Debug, PartialEq)]
pub struct Link {
    pub id: String,
    pub label: String,
    /// Owning tenant key ("" is the default tenant).
    pub tenant: String,
    /// Destination directory relative to the owning tenant's subtree.
    pub dest: String,
    pub password_hash: Option<String>,
    pub created_at: u64,
    pub expires_at: Option<u64>,
    pub max_bytes: Option<u64>,
    pub active: bool,
    pub legal_hold: bool,
    pub notifications: Option<NotificationPolicy>,
    pub uploads: Vec<UploadRecord>,
    pub events: Vec<SessionEvent>,
}

/// The contents of [`Link`].
#[verifier::ext_equal]
pub struct LinkView {
    pub id: Seq<char>,
    pub label: Seq<char>,
    pub tenant: Seq<char>,
    pub dest: Seq<char>,
    pub password_hash: Option<Seq<char>>,
    pub created_at: u64,
    pub expires_at: Option<u64>,
    pub max_bytes: Option<u64>,
    pub active: bool,
    pub legal_hold: bool,
    pub notifications: Option<NotificationPolicyView>,
    pub uploads: Seq<UploadRecordView>,
    pub events: Seq<SessionEventView>,
}

impl View for Link {
    type V = LinkView;

    open spec fn view(&self) -> LinkView {
        LinkView {
            id: self.id@,
            label: self.label@,
            tenant: self.tenant@,
            dest: self.dest@,
            password_hash: self.password_hash.deep_view(),
            created_at: self.created_at,
            expires_at: self.expires_at,
            max_bytes: self.max_bytes,
            active: self.active,
            legal_hold: self.legal_hold,
            notifications: self.notifications.deep_view(),
            uploads: self.uploads.deep_view(),
            events: self.events.deep_view(),
        }
    }
}

impl DeepView for Link {
    type V = LinkView;

    open spec fn deep_view(&self) -> LinkView {
        self@
    }
}

impl Row for Link {
    fn dup(&self) -> (r: Self) {
        Link {
            id: self.id.clone(),
            label: self.label.clone(),
            tenant: self.tenant.clone(),
            dest: self.dest.clone(),
            password_hash: dup_option(&self.password_hash),
            created_at: self.created_at,
            expires_at: self.expires_at,
            max_bytes: self.max_bytes,
            active: self.active,
            legal_hold: self.legal_hold,
            notifications: dup_option(&self.notifications),
            uploads: dup_rows(&self.uploads),
            events: dup_rows(&self.events),
        }
    }
}

impl Clone for Link {
    fn clone(&self) -> (r: Self)
        ensures
            r@ == self@,
    {
        self.dup()
    }
}

/// The last link of a page, from which the next one goes on.
#[derive(Debug, PartialEq)]
pub struct LinkCursor {
    pub created_at: u64,
    pub id: String,
}

/// The contents of [`LinkCursor`].
#[verifier::ext_equal]
pub struct LinkCursorView {
    pub created_at: u64,
    pub id: Seq<char>,
}

impl View for LinkCursor {
    type V = LinkCursorView;

    open spec fn view(&self) -> LinkCursorView {
        LinkCursorView {
            created_at: self.created_at,
            id: self.id@,
        }
    }
}

impl DeepView for LinkCursor {
    type V = LinkCursorView;

    open spec fn deep_view(&self) -> LinkCursorView {
        self@
    }
}

impl Row for LinkCursor {
    fn dup(&self) -> (r: Self) {
        LinkCursor {
            created_at: self.created_at,
            id: self.id.clone(),
        }
    }
}

impl Clone for LinkCursor {
    fn clone(&self) -> (r: Self)
        ensures
            r@ == self@,
    {
        self.dup()
    }
}

/// One page of links.
#[derive(Debug, PartialEq)]
pub struct LinkPage {
    pub links: Vec<Link>,
    pub next_cursor: Option<LinkCursor>,
}

/// The contents of [`LinkPage`].
#[verifier::ext_equal]
pub struct LinkPageView {
    pub links: Seq<LinkView>,
    pub next_cursor: Option<LinkCursorView>,
}

impl View for LinkPage {
    type V = LinkPageView;

    open spec fn view(&self) -> LinkPageView {
        LinkPageView {
            links: self.links.deep_view(),
            next_cursor: self.next_cursor.deep_view(),
        }
    }
}

impl DeepView for LinkPage {
    type V = LinkPageView;

    open spec fn deep_view(&self) -> LinkPageView {
        self@
    }
}

impl Row for LinkPage {
    fn dup(&self) -> (r: Self) {
        LinkPage {
            links: dup_rows(&self.links),
            next_cursor: dup_option(&self.next_cursor),
        }
    }
}

impl Clone for LinkPage {
    fn clone(&self) -> (r: Self)
        ensures
            r@ == self@,
    {
        self.dup()
    }
}

/// A tenant namespace: its own links, receive subtree and quotas.
#[derive(Debug, PartialEq)]
pub struct Tenant {
    /// URL-safe key used in paths and tokens ("" is reserved for the default).
    pub key: String,
    /// Distinguishes this tenant from an earlier one under the same key.
    pub incarnation: String,
    pub label: String,
    /// Group whose members administer the tenant's links.
    pub admin_group: Option<String>,
    /// Cap on received and not deleted bytes across the tenant's links.
    pub max_total_bytes: Option<u64>,
    pub max_links: Option<u64>,
    /// Cap on concurrent upload sessions of the tenant.
    pub max_sessions: Option<u64>,
    pub created_at: u64,
}

/// The contents of [`Tenant`].
#[verifier::ext_equal]
pub struct TenantView {
    pub key: Seq<char>,
    pub incarnation: Seq<char>,
    pub label: Seq<char>,
    pub admin_group: Option<Seq<char>>,
    pub max_total_bytes: Option<u64>,
    pub max_links: Option<u64>,
    pub max_sessions: Option<u64>,
    pub created_at: u64,
}

impl View for Tenant {
    type V = TenantView;

    open spec fn view(&self) -> TenantView {
        TenantView {
            key: self.key@,
            incarnation: self.incarnation@,
            label: self.label@,
            admin_group: self.admin_group.deep_view(),
            max_total_bytes: self.max_total_bytes,
            max_links: self.max_links,
            max_sessions: self.max_sessions,
            created_at: self.created_at,
        }
    }
}

impl DeepView for Tenant {
    type V = TenantView;

    open spec fn deep_view(&self) -> TenantView {
        self@
    }
}

impl Row for Tenant {
    fn dup(&self) -> (r: Self) {
        Tenant {
            key: self.key.clone(),
            incarnation: self.incarnation.clone(),
            label: self.label.clone(),
            admin_group: dup_option(&self.admin_group),
            max_total_bytes: self.max_total_bytes,
            max_links: self.max_links,
            max_sessions: self.max_sessions,
            created_at: self.created_at,
        }
    }
}

impl Clone for Tenant {
    fn clone(&self) -> (r: Self)
        ensures
            r@ == self@,
    {
        self.dup()
    }
}

/// Recipient-facing branding for a tenant ("" is the default tenant).
#[derive(Debug, PartialEq, Default)]
pub struct Branding {
    pub tenant: String,
    pub name: String,
    /// Empty or "#rrggbb".
    pub color: String,
    /// Empty when no logo is stored; else "png", "jpg" or "svg".
    pub logo_ext: String,
    pub footer_text: String,
    pub footer_link_label: String,
    pub footer_link_url: String,
    pub updated_at: u64,
}

/// The contents of [`Branding`].
#[verifier::ext_equal]
pub struct BrandingView {
    pub tenant: Seq<char>,
    pub name: Seq<char>,
    pub color: Seq<char>,
    pub logo_ext: Seq<char>,
    pub footer_text: Seq<char>,
    pub footer_link_label: Seq<char>,
    pub footer_link_url: Seq<char>,
    pub updated_at: u64,
}

impl View for Branding {
    type V = BrandingView;

    open spec fn view(&self) -> BrandingView {
        BrandingView {
            tenant: self.tenant@,
            name: self.name@,
            color: self.color@,
            logo_ext: self.logo_ext@,
            footer_text: self.footer_text@,
            footer_link_label: self.footer_link_label@,
            footer_link_url: self.footer_link_url@,
            updated_at: self.updated_at,
        }
    }
}

impl DeepView for Branding {
    type V = BrandingView;

    open spec fn deep_view(&self) -> BrandingView {
        self@
    }
}

impl Row for Branding {
    fn dup(&self) -> (r: Self) {
        Branding {
            tenant: self.tenant.clone(),
            name: self.name.clone(),
            color: self.color.clone(),
            logo_ext: self.logo_ext.clone(),
            footer_text: self.footer_text.clone(),
            footer_link_label: self.footer_link_label.clone(),
            footer_link_url: self.footer_link_url.clone(),
            updated_at: self.updated_at,
        }
    }
}

impl Clone for Branding {
    fn clone(&self) -> (r: Self)
        ensures
            r@ == self@,
    {
        self.dup()
    }
}

/// A content-addressed object.
#[derive(Debug, PartialEq, Eq)]
pub struct ObjectId {
    pub suite: u16,
    pub root: [u8; 32],
    pub length: u64,
}

/// The contents of [`ObjectId`].
#[verifier::ext_equal]
pub struct ObjectIdView {
    pub suite: u16,
    pub root: Seq<u8>,
    pub length: u64,
}

impl View for ObjectId {
    type V = ObjectIdView;

    open spec fn view(&self) -> ObjectIdView {
        ObjectIdView {
            suite: self.suite,
            root: self.root@,
            length: self.length,
        }
    }
}

impl DeepView for ObjectId {
    type V = ObjectIdView;

    open spec fn deep_view(&self) -> ObjectIdView {
        self@
    }
}

impl Row for ObjectId {
    fn dup(&self) -> (r: Self) {
        ObjectId {
            suite: self.suite,
            root: self.root,
            length: self.length,
        }
    }
}

impl Clone for ObjectId {
    fn clone(&self) -> (r: Self)
        ensures
            r@ == self@,
    {
        self.dup()
    }
}

/// A file of an upload session in progress.
#[derive(Debug, PartialEq, Eq)]
pub struct PersistedUploadFile {
    pub entry: usize,
    pub display_path: String,
    pub stored_components: Vec<String>,
    pub object: ObjectId,
    pub staging_path: String,
    pub journal_path: String,
    pub incarnation: [u8; 16],
    pub profile: CommitProfile,
    pub nas_contract: NasContract,
    /// Contiguous covered offset from zero, from which a restart resumes.
    pub prefix_bytes: u64,
    pub published: bool,
    /// Whether the published file's receipt was written.
    pub receipt: bool,
}

/// The contents of [`PersistedUploadFile`].
#[verifier::ext_equal]
pub struct PersistedUploadFileView {
    pub entry: usize,
    pub display_path: Seq<char>,
    pub stored_components: Seq<Seq<char>>,
    pub object: ObjectIdView,
    pub staging_path: Seq<char>,
    pub journal_path: Seq<char>,
    pub incarnation: Seq<u8>,
    pub profile: CommitProfile,
    pub nas_contract: NasContract,
    pub prefix_bytes: u64,
    pub published: bool,
    pub receipt: bool,
}

impl View for PersistedUploadFile {
    type V = PersistedUploadFileView;

    open spec fn view(&self) -> PersistedUploadFileView {
        PersistedUploadFileView {
            entry: self.entry,
            display_path: self.display_path@,
            stored_components: self.stored_components.deep_view(),
            object: self.object@,
            staging_path: self.staging_path@,
            journal_path: self.journal_path@,
            incarnation: self.incarnation@,
            profile: self.profile,
            nas_contract: self.nas_contract,
            prefix_bytes: self.prefix_bytes,
            published: self.published,
            receipt: self.receipt,
        }
    }
}

impl DeepView for PersistedUploadFile {
    type V = PersistedUploadFileView;

    open spec fn deep_view(&self) -> PersistedUploadFileView {
        self@
    }
}

impl Row for PersistedUploadFile {
    fn dup(&self) -> (r: Self) {
        PersistedUploadFile {
            entry: self.entry,
            display_path: self.display_path.clone(),
            stored_components: dup_rows(&self.stored_components),
            object: self.object.dup(),
            staging_path: self.staging_path.clone(),
            journal_path: self.journal_path.clone(),
            incarnation: self.incarnation,
            profile: self.profile,
            nas_contract: self.nas_contract,
            prefix_bytes: self.prefix_bytes,
            published: self.published,
            receipt: self.receipt,
        }
    }
}

impl Clone for PersistedUploadFile {
    fn clone(&self) -> (r: Self)
        ensures
            r@ == self@,
    {
        self.dup()
    }
}

/// An upload session in progress, kept so that its staging files can be taken
/// up again after a restart.
#[derive(Debug, PartialEq, Eq)]
pub struct PersistedUploadSession {
    pub committed_upload_id: Option<String>,
    pub push_key: Option<String>,
    pub id: String,
    pub link_id: String,
    pub tenant: String,
    pub dest_dir: String,
    pub dest_rel: String,
    pub package: ObjectId,
    pub max_total_bytes: Option<u64>,
    pub started_at: u64,
    pub files: Vec<PersistedUploadFile>,
}

/// The contents of [`PersistedUploadSession`].
#[verifier::ext_equal]
pub struct PersistedUploadSessionView {
    pub committed_upload_id: Option<Seq<char>>,
    pub push_key: Option<Seq<char>>,
    pub id: Seq<char>,
    pub link_id: Seq<char>,
    pub tenant: Seq<char>,
    pub dest_dir: Seq<char>,
    pub dest_rel: Seq<char>,
    pub package: ObjectIdView,
    pub max_total_bytes: Option<u64>,
    pub started_at: u64,
    pub files: Seq<PersistedUploadFileView>,
}

impl View for PersistedUploadSession {
    type V = PersistedUploadSessionView;

    open spec fn view(&self) -> PersistedUploadSessionView {
        PersistedUploadSessionView {
            committed_upload_id: self.committed_upload_id.deep_view(),
            push_key: self.push_key.deep_view(),
            id: self.id@,
            link_id: self.link_id@,
            tenant: self.tenant@,
            dest_dir: self.dest_dir@,
            dest_rel: self.dest_rel@,
            package: self.package@,
            max_total_bytes: self.max_total_bytes,
            started_at: self.started_at,
            files: self.files.deep_view(),
        }
    }
}

impl DeepView for PersistedUploadSession {
    type V = PersistedUploadSessionView;

    open spec fn deep_view(&self) -> PersistedUploadSessionView {
        self@
    }
}

impl Row for PersistedUploadSession {
    fn dup(&self) -> (r: Self) {
        PersistedUploadSession {
            committed_upload_id: dup_option(&self.committed_upload_id),
            push_key: dup_option(&self.push_key),
            id: self.id.clone(),
            link_id: self.link_id.clone(),
            tenant: self.tenant.clone(),
            dest_dir: self.dest_dir.clone(),
            dest_rel: self.dest_rel.clone(),
            package: self.package.dup(),
            max_total_bytes: self.max_total_bytes,
            started_at: self.started_at,
            files: dup_rows(&self.files),
        }
    }
}

impl Clone for PersistedUploadSession {
    fn clone(&self) -> (r: Self)
        ensures
            r@ == self@,
    {
        self.dup()
    }
}

/// What a tenant uses.
#[derive(Debug, PartialEq)]
pub struct TenantUsage {
    pub tenant: String,
    pub links: u64,
    pub received_bytes: u64,
}

/// The contents of [`TenantUsage`].
#[verifier::ext_equal]
pub struct TenantUsageView {
    pub tenant: Seq<char>,
    pub links: u64,
    pub received_bytes: u64,
}

impl View for TenantUsage {
    type V = TenantUsageView;

    open spec fn view(&self) -> TenantUsageView {
        TenantUsageView {
            tenant: self.tenant@,
            links: self.links,
            received_bytes: self.received_bytes,
        }
    }
}

impl DeepView for TenantUsage {
    type V = TenantUsageView;

    open spec fn deep_view(&self) -> TenantUsageView {
        self@
    }
}

impl Row for TenantUsage {
    fn dup(&self) -> (r: Self) {
        TenantUsage {
            tenant: self.tenant.clone(),
            links: self.links,
            received_bytes: self.received_bytes,
        }
    }
}

impl Clone for TenantUsage {
    fn clone(&self) -> (r: Self)
        ensures
            r@ == self@,
    {
        self.dup()
    }
}

/// Bytes that a session in progress holds against its tenant's quota.
#[derive(Debug, PartialEq)]
pub struct RetainedReservation {
    pub id: String,
    pub push_key: Option<String>,
    pub bytes: u64,
}

/// The contents of [`RetainedReservation`].
#[verifier::ext_equal]
pub struct RetainedReservationView {
    pub id: Seq<char>,
    pub push_key: Option<Seq<char>>,
    pub bytes: u64,
}

impl View for RetainedReservation {
    type V = RetainedReservationView;

    open spec fn view(&self) -> RetainedReservationView {
        RetainedReservationView {
            id: self.id@,
            push_key: self.push_key.deep_view(),
            bytes: self.bytes,
        }
    }
}

impl DeepView for RetainedReservation {
    type V = RetainedReservationView;

    open spec fn deep_view(&self) -> RetainedReservationView {
        self@
    }
}

impl Row for RetainedReservation {
    fn dup(&self) -> (r: Self) {
        RetainedReservation {
            id: self.id.clone(),
            push_key: dup_option(&self.push_key),
            bytes: self.bytes,
        }
    }
}

impl Clone for RetainedReservation {
    fn clone(&self) -> (r: Self)
        ensures
            r@ == self@,
    {
        self.dup()
    }
}

/// An SSO principal recorded at its last sign-in.
#[derive(Debug, PartialEq)]
pub struct Principal {
    pub subject: String,
    pub blocked: bool,
    pub credential_version: u64,
    pub last_login_at: u64,
    pub last_groups: Vec<String>,
    /// The grants of the last sign-in, as JSON text.
    pub last_grants: String,
    pub source: String,
    /// The provisioning system's own id for this user.
    pub external_id: Option<String>,
    pub created_at: u64,
}

/// The contents of [`Principal`].
#[verifier::ext_equal]
pub struct PrincipalView {
    pub subject: Seq<char>,
    pub blocked: bool,
    pub credential_version: u64,
    pub last_login_at: u64,
    pub last_groups: Seq<Seq<char>>,
    pub last_grants: Seq<char>,
    pub source: Seq<char>,
    pub external_id: Option<Seq<char>>,
    pub created_at: u64,
}

impl View for Principal {
    type V = PrincipalView;

    open spec fn view(&self) -> PrincipalView {
        PrincipalView {
            subject: self.subject@,
            blocked: self.blocked,
            credential_version: self.credential_version,
            last_login_at: self.last_login_at,
            last_groups: self.last_groups.deep_view(),
            last_grants: self.last_grants@,
            source: self.source@,
            external_id: self.external_id.deep_view(),
            created_at: self.created_at,
        }
    }
}

impl DeepView for Principal {
    type V = PrincipalView;

    open spec fn deep_view(&self) -> PrincipalView {
        self@
    }
}

impl Row for Principal {
    fn dup(&self) -> (r: Self) {
        Principal {
            subject: self.subject.clone(),
            blocked: self.blocked,
            credential_version: self.credential_version,
            last_login_at: self.last_login_at,
            last_groups: dup_rows(&self.last_groups),
            last_grants: self.last_grants.clone(),
            source: self.source.clone(),
            external_id: dup_option(&self.external_id),
            created_at: self.created_at,
        }
    }
}

impl Clone for Principal {
    fn clone(&self) -> (r: Self)
        ensures
            r@ == self@,
    {
        self.dup()
    }
}

/// A SCIM group: a name that sign-in maps to a role, and its members.
#[derive(Debug, PartialEq, Eq)]
pub struct ScimGroup {
    pub id: String,
    pub display_name: String,
    pub external_id: Option<String>,
    pub created_at: u64,
    pub members: Vec<String>,
}

/// The contents of [`ScimGroup`].
#[verifier::ext_equal]
pub struct ScimGroupView {
    pub id: Seq<char>,
    pub display_name: Seq<char>,
    pub external_id: Option<Seq<char>>,
    pub created_at: u64,
    pub members: Seq<Seq<char>>,
}

impl View for ScimGroup {
    type V = ScimGroupView;

    open spec fn view(&self) -> ScimGroupView {
        ScimGroupView {
            id: self.id@,
            display_name: self.display_name@,
            external_id: self.external_id.deep_view(),
            created_at: self.created_at,
            members: self.members.deep_view(),
        }
    }
}

impl DeepView for ScimGroup {
    type V = ScimGroupView;

    open spec fn deep_view(&self) -> ScimGroupView {
        self@
    }
}

impl Row for ScimGroup {
    fn dup(&self) -> (r: Self) {
        ScimGroup {
            id: self.id.clone(),
            display_name: self.display_name.clone(),
            external_id: dup_option(&self.external_id),
            created_at: self.created_at,
            members: dup_rows(&self.members),
        }
    }
}

impl Clone for ScimGroup {
    fn clone(&self) -> (r: Self)
        ensures
            r@ == self@,
    {
        self.dup()
    }
}

/// One row of the audit log as exported.
#[derive(Debug, PartialEq)]
pub struct AuditRow {
    pub rowid: i64,
    pub at: u64,
    pub tenant: String,
    pub actor: String,
    pub event: String,
    pub subject: String,
    /// JSON text.
    pub detail: String,
}

/// The contents of [`AuditRow`].
#[verifier::ext_equal]
pub struct AuditRowView {
    pub rowid: i64,
    pub at: u64,
    pub tenant: Seq<char>,
    pub actor: Seq<char>,
    pub event: Seq<char>,
    pub subject: Seq<char>,
    pub detail: Seq<char>,
}

impl View for AuditRow {
    type V = AuditRowView;

    open spec fn view(&self) -> AuditRowView {
        AuditRowView {
            rowid: self.rowid,
            at: self.at,
            tenant: self.tenant@,
            actor: self.actor@,
            event: self.event@,
            subject: self.subject@,
            detail: self.detail@,
        }
    }
}

impl DeepView for AuditRow {
    type V = AuditRowView;

    open spec fn deep_view(&self) -> AuditRowView {
        self@
    }
}

impl Row for AuditRow {
    fn dup(&self) -> (r: Self) {
        AuditRow {
            rowid: self.rowid,
            at: self.at,
            tenant: self.tenant.clone(),
            actor: self.actor.clone(),
            event: self.event.clone(),
            subject: self.subject.clone(),
            detail: self.detail.clone(),
        }
    }
}

impl Clone for AuditRow {
    fn clone(&self) -> (r: Self)
        ensures
            r@ == self@,
    {
        self.dup()
    }
}

/// Counts over a tenant's download links.
#[derive(Clone, Copy, Debug, Default, PartialEq, Eq)]
pub struct OutboundSummary {
    pub open_grants: u64,
    /// The grant-level counter: a link of several files counts once every file
    /// has been fetched.
    pub deliveries: u64,
    pub active: u64,
}

/// The contents of [`OutboundSummary`].
#[verifier::ext_equal]
pub struct OutboundSummaryView {
    pub open_grants: u64,
    pub deliveries: u64,
    pub active: u64,
}

impl View for OutboundSummary {
    type V = OutboundSummaryView;

    open spec fn view(&self) -> OutboundSummaryView {
        OutboundSummaryView {
            open_grants: self.open_grants,
            deliveries: self.deliveries,
            active: self.active,
        }
    }
}

impl DeepView for OutboundSummary {
    type V = OutboundSummaryView;

    open spec fn deep_view(&self) -> OutboundSummaryView {
        self@
    }
}

impl Row for OutboundSummary {
    fn dup(&self) -> (r: Self) {
        OutboundSummary {
            open_grants: self.open_grants,
            deliveries: self.deliveries,
            active: self.active,
        }
    }
}

/// A request link found by a search.
#[derive(Debug, PartialEq)]
pub struct SearchRequest {
    pub id: String,
    pub label: String,
    pub dest: String,
    pub active: bool,
    pub expires_at: Option<u64>,
    pub created_at: u64,
}

/// The contents of [`SearchRequest`].
#[verifier::ext_equal]
pub struct SearchRequestView {
    pub id: Seq<char>,
    pub label: Seq<char>,
    pub dest: Seq<char>,
    pub active: bool,
    pub expires_at: Option<u64>,
    pub created_at: u64,
}

impl View for SearchRequest {
    type V = SearchRequestView;

    open spec fn view(&self) -> SearchRequestView {
        SearchRequestView {
            id: self.id@,
            label: self.label@,
            dest: self.dest@,
            active: self.active,
            expires_at: self.expires_at,
            created_at: self.created_at,
        }
    }
}

impl DeepView for SearchRequest {
    type V = SearchRequestView;

    open spec fn deep_view(&self) -> SearchRequestView {
        self@
    }
}

impl Row for SearchRequest {
    fn dup(&self) -> (r: Self) {
        SearchRequest {
            id: self.id.clone(),
            label: self.label.clone(),
            dest: self.dest.clone(),
            active: self.active,
            expires_at: self.expires_at,
            created_at: self.created_at,
        }
    }
}

impl Clone for SearchRequest {
    fn clone(&self) -> (r: Self)
        ensures
            r@ == self@,
    {
        self.dup()
    }
}

/// A download link found by a search.
#[derive(Debug, PartialEq)]
pub struct SearchDownload {
    pub id: String,
    pub label: String,
    pub name: String,
    pub created_at: u64,
    pub revoked: bool,
}

/// The contents of [`SearchDownload`].
#[verifier::ext_equal]
pub struct SearchDownloadView {
    pub id: Seq<char>,
    pub label: Seq<char>,
    pub name: Seq<char>,
    pub created_at: u64,
    pub revoked: bool,
}

impl View for SearchDownload {
    type V = SearchDownloadView;

    open spec fn view(&self) -> SearchDownloadView {
        SearchDownloadView {
            id: self.id@,
            label: self.label@,
            name: self.name@,
            created_at: self.created_at,
            revoked: self.revoked,
        }
    }
}

impl DeepView for SearchDownload {
    type V = SearchDownloadView;

    open spec fn deep_view(&self) -> SearchDownloadView {
        self@
    }
}

impl Row for SearchDownload {
    fn dup(&self) -> (r: Self) {
        SearchDownload {
            id: self.id.clone(),
            label: self.label.clone(),
            name: self.name.clone(),
            created_at: self.created_at,
            revoked: self.revoked,
        }
    }
}

impl Clone for SearchDownload {
    fn clone(&self) -> (r: Self)
        ensures
            r@ == self@,
    {
        self.dup()
    }
}

/// A received file found by a search.
#[derive(Debug, PartialEq)]
pub struct SearchFile {
    pub link_id: String,
    pub link_label: String,
    pub upload_id: String,
    pub path: String,
    pub bytes: u64,
    pub completed_at: u64,
}

/// The contents of [`SearchFile`].
#[verifier::ext_equal]
pub struct SearchFileView {
    pub link_id: Seq<char>,
    pub link_label: Seq<char>,
    pub upload_id: Seq<char>,
    pub path: Seq<char>,
    pub bytes: u64,
    pub completed_at: u64,
}

impl View for SearchFile {
    type V = SearchFileView;

    open spec fn view(&self) -> SearchFileView {
        SearchFileView {
            link_id: self.link_id@,
            link_label: self.link_label@,
            upload_id: self.upload_id@,
            path: self.path@,
            bytes: self.bytes,
            completed_at: self.completed_at,
        }
    }
}

impl DeepView for SearchFile {
    type V = SearchFileView;

    open spec fn deep_view(&self) -> SearchFileView {
        self@
    }
}

impl Row for SearchFile {
    fn dup(&self) -> (r: Self) {
        SearchFile {
            link_id: self.link_id.clone(),
            link_label: self.link_label.clone(),
            upload_id: self.upload_id.clone(),
            path: self.path.clone(),
            bytes: self.bytes,
            completed_at: self.completed_at,
        }
    }
}

impl Clone for SearchFile {
    fn clone(&self) -> (r: Self)
        ensures
            r@ == self@,
    {
        self.dup()
    }
}

/// What a search found.
#[derive(Debug, PartialEq)]
pub struct SearchResults {
    pub requests: Vec<SearchRequest>,
    pub downloads: Vec<SearchDownload>,
    pub files: Vec<SearchFile>,
}

/// The contents of [`SearchResults`].
#[verifier::ext_equal]
pub struct SearchResultsView {
    pub requests: Seq<SearchRequestView>,
    pub downloads: Seq<SearchDownloadView>,
    pub files: Seq<SearchFileView>,
}

impl View for SearchResults {
    type V = SearchResultsView;

    open spec fn view(&self) -> SearchResultsView {
        SearchResultsView {
            requests: self.requests.deep_view(),
            downloads: self.downloads.deep_view(),
            files: self.files.deep_view(),
        }
    }
}

impl DeepView for SearchResults {
    type V = SearchResultsView;

    open spec fn deep_view(&self) -> SearchResultsView {
        self@
    }
}

impl Row for SearchResults {
    fn dup(&self) -> (r: Self) {
        SearchResults {
            requests: dup_rows(&self.requests),
            downloads: dup_rows(&self.downloads),
            files: dup_rows(&self.files),
        }
    }
}

impl Clone for SearchResults {
    fn clone(&self) -> (r: Self)
        ensures
            r@ == self@,
    {
        self.dup()
    }
}

/// One signed event of a tenant's delivery chain.
#[derive(Debug, PartialEq)]
pub struct DeliveryEvent {
    pub id: u64,
    pub tenant: String,
    pub grant_id: String,
    pub kind: String,
    pub created_at: u64,
    /// JSON text.
    pub payload: String,
    pub previous_hash: String,
    pub hash: String,
    pub issuer: String,
    pub signature: String,
}

/// The contents of [`DeliveryEvent`].
#[verifier::ext_equal]
pub struct DeliveryEventView {
    pub id: u64,
    pub tenant: Seq<char>,
    pub grant_id: Seq<char>,
    pub kind: Seq<char>,
    pub created_at: u64,
    pub payload: Seq<char>,
    pub previous_hash: Seq<char>,
    pub hash: Seq<char>,
    pub issuer: Seq<char>,
    pub signature: Seq<char>,
}

impl View for DeliveryEvent {
    type V = DeliveryEventView;

    open spec fn view(&self) -> DeliveryEventView {
        DeliveryEventView {
            id: self.id,
            tenant: self.tenant@,
            grant_id: self.grant_id@,
            kind: self.kind@,
            created_at: self.created_at,
            payload: self.payload@,
            previous_hash: self.previous_hash@,
            hash: self.hash@,
            issuer: self.issuer@,
            signature: self.signature@,
        }
    }
}

impl DeepView for DeliveryEvent {
    type V = DeliveryEventView;

    open spec fn deep_view(&self) -> DeliveryEventView {
        self@
    }
}

impl Row for DeliveryEvent {
    fn dup(&self) -> (r: Self) {
        DeliveryEvent {
            id: self.id,
            tenant: self.tenant.clone(),
            grant_id: self.grant_id.clone(),
            kind: self.kind.clone(),
            created_at: self.created_at,
            payload: self.payload.clone(),
            previous_hash: self.previous_hash.clone(),
            hash: self.hash.clone(),
            issuer: self.issuer.clone(),
            signature: self.signature.clone(),
        }
    }
}

impl Clone for DeliveryEvent {
    fn clone(&self) -> (r: Self)
        ensures
            r@ == self@,
    {
        self.dup()
    }
}

/// A position in a tenant's delivery chain.
#[derive(Debug, PartialEq, Eq, Default)]
pub struct EventCheckpoint {
    pub id: u64,
    pub hash: String,
}

/// The contents of [`EventCheckpoint`].
#[verifier::ext_equal]
pub struct EventCheckpointView {
    pub id: u64,
    pub hash: Seq<char>,
}

impl View for EventCheckpoint {
    type V = EventCheckpointView;

    open spec fn view(&self) -> EventCheckpointView {
        EventCheckpointView {
            id: self.id,
            hash: self.hash@,
        }
    }
}

impl DeepView for EventCheckpoint {
    type V = EventCheckpointView;

    open spec fn deep_view(&self) -> EventCheckpointView {
        self@
    }
}

impl Row for EventCheckpoint {
    fn dup(&self) -> (r: Self) {
        EventCheckpoint {
            id: self.id,
            hash: self.hash.clone(),
        }
    }
}

impl Clone for EventCheckpoint {
    fn clone(&self) -> (r: Self)
        ensures
            r@ == self@,
    {
        self.dup()
    }
}

/// What a recipient's device reports of a delivery.
#[derive(Debug, PartialEq)]
pub struct Evidence {
    pub id: String,
    pub grant_id: String,
    /// The device.
    pub holder: String,
    /// The digest of the delivery that was challenged.
    pub manifest: String,
    pub kind: EvidenceKind,
    /// JSON text of the signed report.
    pub document: String,
}

/// The contents of [`Evidence`].
#[verifier::ext_equal]
pub struct EvidenceView {
    pub id: Seq<char>,
    pub grant_id: Seq<char>,
    pub holder: Seq<char>,
    pub manifest: Seq<char>,
    pub kind: EvidenceKind,
    pub document: Seq<char>,
}

impl View for Evidence {
    type V = EvidenceView;

    open spec fn view(&self) -> EvidenceView {
        EvidenceView {
            id: self.id@,
            grant_id: self.grant_id@,
            holder: self.holder@,
            manifest: self.manifest@,
            kind: self.kind,
            document: self.document@,
        }
    }
}

impl DeepView for Evidence {
    type V = EvidenceView;

    open spec fn deep_view(&self) -> EvidenceView {
        self@
    }
}

impl Row for Evidence {
    fn dup(&self) -> (r: Self) {
        Evidence {
            id: self.id.clone(),
            grant_id: self.grant_id.clone(),
            holder: self.holder.clone(),
            manifest: self.manifest.clone(),
            kind: self.kind,
            document: self.document.clone(),
        }
    }
}

impl Clone for Evidence {
    fn clone(&self) -> (r: Self)
        ensures
            r@ == self@,
    {
        self.dup()
    }
}

/// A stretch of a tenant's delivery chain.
#[derive(Debug, PartialEq)]
pub struct EventExport {
    pub format: String,
    pub issuer: String,
    pub tenant: String,
    pub start: EventCheckpoint,
    pub end: EventCheckpoint,
    pub terminal: EventCheckpoint,
    pub complete: bool,
    pub events: Vec<DeliveryEvent>,
}

/// The contents of [`EventExport`].
#[verifier::ext_equal]
pub struct EventExportView {
    pub format: Seq<char>,
    pub issuer: Seq<char>,
    pub tenant: Seq<char>,
    pub start: EventCheckpointView,
    pub end: EventCheckpointView,
    pub terminal: EventCheckpointView,
    pub complete: bool,
    pub events: Seq<DeliveryEventView>,
}

impl View for EventExport {
    type V = EventExportView;

    open spec fn view(&self) -> EventExportView {
        EventExportView {
            format: self.format@,
            issuer: self.issuer@,
            tenant: self.tenant@,
            start: self.start@,
            end: self.end@,
            terminal: self.terminal@,
            complete: self.complete,
            events: self.events.deep_view(),
        }
    }
}

impl DeepView for EventExport {
    type V = EventExportView;

    open spec fn deep_view(&self) -> EventExportView {
        self@
    }
}

impl Row for EventExport {
    fn dup(&self) -> (r: Self) {
        EventExport {
            format: self.format.clone(),
            issuer: self.issuer.clone(),
            tenant: self.tenant.clone(),
            start: self.start.dup(),
            end: self.end.dup(),
            terminal: self.terminal.dup(),
            complete: self.complete,
            events: dup_rows(&self.events),
        }
    }
}

impl Clone for EventExport {
    fn clone(&self) -> (r: Self)
        ensures
            r@ == self@,
    {
        self.dup()
    }
}

/// What a released job says of who may fetch its delivery.
#[derive(Debug, PartialEq)]
pub struct JobRelease {
    /// The revision of the project's policy.
    pub revision: u64,
    /// The holders that may fetch; empty for anyone.
    pub recipients: Vec<String>,
}

/// The contents of [`JobRelease`].
#[verifier::ext_equal]
pub struct JobReleaseView {
    pub revision: u64,
    pub recipients: Seq<Seq<char>>,
}

impl View for JobRelease {
    type V = JobReleaseView;

    open spec fn view(&self) -> JobReleaseView {
        JobReleaseView {
            revision: self.revision,
            recipients: self.recipients.deep_view(),
        }
    }
}

impl DeepView for JobRelease {
    type V = JobReleaseView;

    open spec fn deep_view(&self) -> JobReleaseView {
        self@
    }
}

impl Row for JobRelease {
    fn dup(&self) -> (r: Self) {
        JobRelease {
            revision: self.revision,
            recipients: dup_rows(&self.recipients),
        }
    }
}

impl Clone for JobRelease {
    fn clone(&self) -> (r: Self)
        ensures
            r@ == self@,
    {
        self.dup()
    }
}

/// A path that an upload in progress will publish to.
#[derive(Debug, PartialEq)]
pub struct PendingUploadPath {
    pub destination: String,
    pub components: Vec<String>,
    /// What the decoder says of components that do not decode.
    pub components_error: Option<String>,
}

/// The contents of [`PendingUploadPath`].
#[verifier::ext_equal]
pub struct PendingUploadPathView {
    pub destination: Seq<char>,
    pub components: Seq<Seq<char>>,
    pub components_error: Option<Seq<char>>,
}

impl View for PendingUploadPath {
    type V = PendingUploadPathView;

    open spec fn view(&self) -> PendingUploadPathView {
        PendingUploadPathView {
            destination: self.destination@,
            components: self.components.deep_view(),
            components_error: self.components_error.deep_view(),
        }
    }
}

impl DeepView for PendingUploadPath {
    type V = PendingUploadPathView;

    open spec fn deep_view(&self) -> PendingUploadPathView {
        self@
    }
}

impl Row for PendingUploadPath {
    fn dup(&self) -> (r: Self) {
        PendingUploadPath {
            destination: self.destination.clone(),
            components: dup_rows(&self.components),
            components_error: dup_option(&self.components_error),
        }
    }
}

impl Clone for PendingUploadPath {
    fn clone(&self) -> (r: Self)
        ensures
            r@ == self@,
    {
        self.dup()
    }
}

/// What the environment configures of the settings.
#[derive(Debug, PartialEq)]
pub struct Config {
    pub smtp_host: Option<String>,
    pub smtp_port: u16,
    pub smtp_starttls: bool,
    pub smtp_username: Option<String>,
    pub smtp_password: Option<String>,
    pub smtp_from: Option<String>,
    pub audit_retention_days: u64,
    pub upload_retention_days: u64,
    pub default_max_total_bytes: Option<u64>,
    pub default_max_links: Option<u64>,
    pub default_max_sessions: Option<u64>,
    pub public_password_login: bool,
    pub sso_session_secs: u64,
    pub scim_token: Option<String>,
    pub replica_token: Option<String>,
    pub require_provisioning: bool,
}

/// The contents of [`Config`].
#[verifier::ext_equal]
pub struct ConfigView {
    pub smtp_host: Option<Seq<char>>,
    pub smtp_port: u16,
    pub smtp_starttls: bool,
    pub smtp_username: Option<Seq<char>>,
    pub smtp_password: Option<Seq<char>>,
    pub smtp_from: Option<Seq<char>>,
    pub audit_retention_days: u64,
    pub upload_retention_days: u64,
    pub default_max_total_bytes: Option<u64>,
    pub default_max_links: Option<u64>,
    pub default_max_sessions: Option<u64>,
    pub public_password_login: bool,
    pub sso_session_secs: u64,
    pub scim_token: Option<Seq<char>>,
    pub replica_token: Option<Seq<char>>,
    pub require_provisioning: bool,
}

impl View for Config {
    type V = ConfigView;

    open spec fn view(&self) -> ConfigView {
        ConfigView {
            smtp_host: self.smtp_host.deep_view(),
            smtp_port: self.smtp_port,
            smtp_starttls: self.smtp_starttls,
            smtp_username: self.smtp_username.deep_view(),
            smtp_password: self.smtp_password.deep_view(),
            smtp_from: self.smtp_from.deep_view(),
            audit_retention_days: self.audit_retention_days,
            upload_retention_days: self.upload_retention_days,
            default_max_total_bytes: self.default_max_total_bytes,
            default_max_links: self.default_max_links,
            default_max_sessions: self.default_max_sessions,
            public_password_login: self.public_password_login,
            sso_session_secs: self.sso_session_secs,
            scim_token: self.scim_token.deep_view(),
            replica_token: self.replica_token.deep_view(),
            require_provisioning: self.require_provisioning,
        }
    }
}

impl DeepView for Config {
    type V = ConfigView;

    open spec fn deep_view(&self) -> ConfigView {
        self@
    }
}

impl Row for Config {
    fn dup(&self) -> (r: Self) {
        Config {
            smtp_host: dup_option(&self.smtp_host),
            smtp_port: self.smtp_port,
            smtp_starttls: self.smtp_starttls,
            smtp_username: dup_option(&self.smtp_username),
            smtp_password: dup_option(&self.smtp_password),
            smtp_from: dup_option(&self.smtp_from),
            audit_retention_days: self.audit_retention_days,
            upload_retention_days: self.upload_retention_days,
            default_max_total_bytes: self.default_max_total_bytes,
            default_max_links: self.default_max_links,
            default_max_sessions: self.default_max_sessions,
            public_password_login: self.public_password_login,
            sso_session_secs: self.sso_session_secs,
            scim_token: dup_option(&self.scim_token),
            replica_token: dup_option(&self.replica_token),
            require_provisioning: self.require_provisioning,
        }
    }
}

impl Clone for Config {
    fn clone(&self) -> (r: Self)
        ensures
            r@ == self@,
    {
        self.dup()
    }
}

/// An assembled SMTP channel.
#[derive(Debug, PartialEq)]
pub struct ResolvedSmtp {
    pub host: String,
    pub port: u16,
    pub starttls: bool,
    pub username: Option<String>,
    pub password: Option<String>,
    pub from: String,
}

/// The contents of [`ResolvedSmtp`].
#[verifier::ext_equal]
pub struct ResolvedSmtpView {
    pub host: Seq<char>,
    pub port: u16,
    pub starttls: bool,
    pub username: Option<Seq<char>>,
    pub password: Option<Seq<char>>,
    pub from: Seq<char>,
}

impl View for ResolvedSmtp {
    type V = ResolvedSmtpView;

    open spec fn view(&self) -> ResolvedSmtpView {
        ResolvedSmtpView {
            host: self.host@,
            port: self.port,
            starttls: self.starttls,
            username: self.username.deep_view(),
            password: self.password.deep_view(),
            from: self.from@,
        }
    }
}

impl DeepView for ResolvedSmtp {
    type V = ResolvedSmtpView;

    open spec fn deep_view(&self) -> ResolvedSmtpView {
        self@
    }
}

impl Row for ResolvedSmtp {
    fn dup(&self) -> (r: Self) {
        ResolvedSmtp {
            host: self.host.clone(),
            port: self.port,
            starttls: self.starttls,
            username: dup_option(&self.username),
            password: dup_option(&self.password),
            from: self.from.clone(),
        }
    }
}

impl Clone for ResolvedSmtp {
    fn clone(&self) -> (r: Self)
        ensures
            r@ == self@,
    {
        self.dup()
    }
}

/// The settings in force: the environment's, with what the database sets laid
/// over them.
#[derive(Debug, PartialEq)]
pub struct ResolvedSettings {
    /// Configured when the relay host and the sender address are present.
    pub smtp: Option<ResolvedSmtp>,
    pub audit_retention_days: u64,
    pub upload_retention_days: u64,
    pub default_max_total_bytes: Option<u64>,
    pub default_max_links: Option<u64>,
    pub default_max_sessions: Option<u64>,
    pub public_password_login: bool,
    pub sso_session_secs: u64,
    /// The SCIM bearer; without one no SCIM request is answered.
    pub scim_token: Option<String>,
    /// The bearer saved before the present one, valid until it is cleared.
    pub scim_token_previous: Option<String>,
    /// The bearer for replicas.
    pub replica_token: Option<String>,
    /// Sign-in is refused for subjects that are not provisioned.
    pub require_provisioning: bool,
    /// New upload sessions are refused, so that those in progress can finish.
    pub draining: bool,
}

/// The contents of [`ResolvedSettings`].
#[verifier::ext_equal]
pub struct ResolvedSettingsView {
    pub smtp: Option<ResolvedSmtpView>,
    pub audit_retention_days: u64,
    pub upload_retention_days: u64,
    pub default_max_total_bytes: Option<u64>,
    pub default_max_links: Option<u64>,
    pub default_max_sessions: Option<u64>,
    pub public_password_login: bool,
    pub sso_session_secs: u64,
    pub scim_token: Option<Seq<char>>,
    pub scim_token_previous: Option<Seq<char>>,
    pub replica_token: Option<Seq<char>>,
    pub require_provisioning: bool,
    pub draining: bool,
}

impl View for ResolvedSettings {
    type V = ResolvedSettingsView;

    open spec fn view(&self) -> ResolvedSettingsView {
        ResolvedSettingsView {
            smtp: self.smtp.deep_view(),
            audit_retention_days: self.audit_retention_days,
            upload_retention_days: self.upload_retention_days,
            default_max_total_bytes: self.default_max_total_bytes,
            default_max_links: self.default_max_links,
            default_max_sessions: self.default_max_sessions,
            public_password_login: self.public_password_login,
            sso_session_secs: self.sso_session_secs,
            scim_token: self.scim_token.deep_view(),
            scim_token_previous: self.scim_token_previous.deep_view(),
            replica_token: self.replica_token.deep_view(),
            require_provisioning: self.require_provisioning,
            draining: self.draining,
        }
    }
}

impl DeepView for ResolvedSettings {
    type V = ResolvedSettingsView;

    open spec fn deep_view(&self) -> ResolvedSettingsView {
        self@
    }
}

impl Row for ResolvedSettings {
    fn dup(&self) -> (r: Self) {
        ResolvedSettings {
            smtp: dup_option(&self.smtp),
            audit_retention_days: self.audit_retention_days,
            upload_retention_days: self.upload_retention_days,
            default_max_total_bytes: self.default_max_total_bytes,
            default_max_links: self.default_max_links,
            default_max_sessions: self.default_max_sessions,
            public_password_login: self.public_password_login,
            sso_session_secs: self.sso_session_secs,
            scim_token: dup_option(&self.scim_token),
            scim_token_previous: dup_option(&self.scim_token_previous),
            replica_token: dup_option(&self.replica_token),
            require_provisioning: self.require_provisioning,
            draining: self.draining,
        }
    }
}

impl Clone for ResolvedSettings {
    fn clone(&self) -> (r: Self)
        ensures
            r@ == self@,
    {
        self.dup()
    }
}

/// The settings in force, and whether each came from the database ("db") or
/// from the environment ("env"), which it does where the row is absent or not
/// valid.
#[derive(Debug, PartialEq)]
pub struct SettingsOverlay {
    pub resolved: ResolvedSettings,
    pub smtp_host: Option<String>,
    pub smtp_host_source: &'static str,
    pub smtp_port: u16,
    pub smtp_port_source: &'static str,
    pub smtp_starttls: bool,
    pub smtp_starttls_source: &'static str,
    pub smtp_username: Option<String>,
    pub smtp_username_source: &'static str,
    pub smtp_password_set: bool,
    pub smtp_password_source: &'static str,
    pub smtp_from: Option<String>,
    pub smtp_from_source: &'static str,
    pub audit_retention_days_source: &'static str,
    pub upload_retention_days_source: &'static str,
    pub default_max_total_bytes_source: &'static str,
    pub default_max_links_source: &'static str,
    pub default_max_sessions_source: &'static str,
    pub public_password_login_source: &'static str,
    pub sso_session_secs_source: &'static str,
    pub scim_token_set: bool,
    pub scim_token_source: &'static str,
    pub scim_token_previous_set: bool,
    pub replica_token_set: bool,
    pub replica_token_source: &'static str,
    pub require_provisioning_source: &'static str,
    pub draining_source: &'static str,
}

/// The contents of [`SettingsOverlay`].
#[verifier::ext_equal]
pub struct SettingsOverlayView {
    pub resolved: ResolvedSettingsView,
    pub smtp_host: Option<Seq<char>>,
    pub smtp_host_source: Seq<char>,
    pub smtp_port: u16,
    pub smtp_port_source: Seq<char>,
    pub smtp_starttls: bool,
    pub smtp_starttls_source: Seq<char>,
    pub smtp_username: Option<Seq<char>>,
    pub smtp_username_source: Seq<char>,
    pub smtp_password_set: bool,
    pub smtp_password_source: Seq<char>,
    pub smtp_from: Option<Seq<char>>,
    pub smtp_from_source: Seq<char>,
    pub audit_retention_days_source: Seq<char>,
    pub upload_retention_days_source: Seq<char>,
    pub default_max_total_bytes_source: Seq<char>,
    pub default_max_links_source: Seq<char>,
    pub default_max_sessions_source: Seq<char>,
    pub public_password_login_source: Seq<char>,
    pub sso_session_secs_source: Seq<char>,
    pub scim_token_set: bool,
    pub scim_token_source: Seq<char>,
    pub scim_token_previous_set: bool,
    pub replica_token_set: bool,
    pub replica_token_source: Seq<char>,
    pub require_provisioning_source: Seq<char>,
    pub draining_source: Seq<char>,
}

impl View for SettingsOverlay {
    type V = SettingsOverlayView;

    open spec fn view(&self) -> SettingsOverlayView {
        SettingsOverlayView {
            resolved: self.resolved@,
            smtp_host: self.smtp_host.deep_view(),
            smtp_host_source: self.smtp_host_source@,
            smtp_port: self.smtp_port,
            smtp_port_source: self.smtp_port_source@,
            smtp_starttls: self.smtp_starttls,
            smtp_starttls_source: self.smtp_starttls_source@,
            smtp_username: self.smtp_username.deep_view(),
            smtp_username_source: self.smtp_username_source@,
            smtp_password_set: self.smtp_password_set,
            smtp_password_source: self.smtp_password_source@,
            smtp_from: self.smtp_from.deep_view(),
            smtp_from_source: self.smtp_from_source@,
            audit_retention_days_source: self.audit_retention_days_source@,
            upload_retention_days_source: self.upload_retention_days_source@,
            default_max_total_bytes_source: self.default_max_total_bytes_source@,
            default_max_links_source: self.default_max_links_source@,
            default_max_sessions_source: self.default_max_sessions_source@,
            public_password_login_source: self.public_password_login_source@,
            sso_session_secs_source: self.sso_session_secs_source@,
            scim_token_set: self.scim_token_set,
            scim_token_source: self.scim_token_source@,
            scim_token_previous_set: self.scim_token_previous_set,
            replica_token_set: self.replica_token_set,
            replica_token_source: self.replica_token_source@,
            require_provisioning_source: self.require_provisioning_source@,
            draining_source: self.draining_source@,
        }
    }
}

impl DeepView for SettingsOverlay {
    type V = SettingsOverlayView;

    open spec fn deep_view(&self) -> SettingsOverlayView {
        self@
    }
}

impl Row for SettingsOverlay {
    fn dup(&self) -> (r: Self) {
        SettingsOverlay {
            resolved: self.resolved.dup(),
            smtp_host: dup_option(&self.smtp_host),
            smtp_host_source: self.smtp_host_source,
            smtp_port: self.smtp_port,
            smtp_port_source: self.smtp_port_source,
            smtp_starttls: self.smtp_starttls,
            smtp_starttls_source: self.smtp_starttls_source,
            smtp_username: dup_option(&self.smtp_username),
            smtp_username_source: self.smtp_username_source,
            smtp_password_set: self.smtp_password_set,
            smtp_password_source: self.smtp_password_source,
            smtp_from: dup_option(&self.smtp_from),
            smtp_from_source: self.smtp_from_source,
            audit_retention_days_source: self.audit_retention_days_source,
            upload_retention_days_source: self.upload_retention_days_source,
            default_max_total_bytes_source: self.default_max_total_bytes_source,
            default_max_links_source: self.default_max_links_source,
            default_max_sessions_source: self.default_max_sessions_source,
            public_password_login_source: self.public_password_login_source,
            sso_session_secs_source: self.sso_session_secs_source,
            scim_token_set: self.scim_token_set,
            scim_token_source: self.scim_token_source,
            scim_token_previous_set: self.scim_token_previous_set,
            replica_token_set: self.replica_token_set,
            replica_token_source: self.replica_token_source,
            require_provisioning_source: self.require_provisioning_source,
            draining_source: self.draining_source,
        }
    }
}

impl Clone for SettingsOverlay {
    fn clone(&self) -> (r: Self)
        ensures
            r@ == self@,
    {
        self.dup()
    }
}

/// An object of a database's schema.
#[derive(Debug, PartialEq)]
pub struct SchemaObject {
    /// "table", "index" or "trigger".
    pub kind: String,
    pub name: String,
    /// The statement that created it.
    pub sql: String,
    /// The table that it belongs to.
    pub table: String,
    /// What the database says of each column of a table, by name.
    pub columns: Vec<String>,
}

/// The contents of [`SchemaObject`].
#[verifier::ext_equal]
pub struct SchemaObjectView {
    pub kind: Seq<char>,
    pub name: Seq<char>,
    pub sql: Seq<char>,
    pub table: Seq<char>,
    pub columns: Seq<Seq<char>>,
}

impl View for SchemaObject {
    type V = SchemaObjectView;

    open spec fn view(&self) -> SchemaObjectView {
        SchemaObjectView {
            kind: self.kind@,
            name: self.name@,
            sql: self.sql@,
            table: self.table@,
            columns: self.columns.deep_view(),
        }
    }
}

impl DeepView for SchemaObject {
    type V = SchemaObjectView;

    open spec fn deep_view(&self) -> SchemaObjectView {
        self@
    }
}

impl Row for SchemaObject {
    fn dup(&self) -> (r: Self) {
        SchemaObject {
            kind: self.kind.clone(),
            name: self.name.clone(),
            sql: self.sql.clone(),
            table: self.table.clone(),
            columns: dup_rows(&self.columns),
        }
    }
}

impl Clone for SchemaObject {
    fn clone(&self) -> (r: Self)
        ensures
            r@ == self@,
    {
        self.dup()
    }
}

/// What an object of a schema comes down to when schemas are compared.
#[derive(Debug, PartialEq)]
pub struct SchemaEntry {
    pub kind: String,
    pub name: String,
    pub clauses: Vec<String>,
}

/// The contents of [`SchemaEntry`].
#[verifier::ext_equal]
pub struct SchemaEntryView {
    pub kind: Seq<char>,
    pub name: Seq<char>,
    pub clauses: Seq<Seq<char>>,
}

impl View for SchemaEntry {
    type V = SchemaEntryView;

    open spec fn view(&self) -> SchemaEntryView {
        SchemaEntryView {
            kind: self.kind@,
            name: self.name@,
            clauses: self.clauses.deep_view(),
        }
    }
}

impl DeepView for SchemaEntry {
    type V = SchemaEntryView;

    open spec fn deep_view(&self) -> SchemaEntryView {
        self@
    }
}

impl Row for SchemaEntry {
    fn dup(&self) -> (r: Self) {
        SchemaEntry {
            kind: self.kind.clone(),
            name: self.name.clone(),
            clauses: dup_rows(&self.clauses),
        }
    }
}

impl Clone for SchemaEntry {
    fn clone(&self) -> (r: Self)
        ensures
            r@ == self@,
    {
        self.dup()
    }
}

/// A conversion of a data copy.
#[derive(Debug, PartialEq)]
pub struct Conversion {
    pub id: String,
    pub source: u64,
    pub target: u64,
    pub public_url: String,
    pub issuer: String,
    pub created_at: u64,
    pub bytes: u64,
    pub sha256: String,
    pub replacements: u64,
}

/// The contents of [`Conversion`].
#[verifier::ext_equal]
pub struct ConversionView {
    pub id: Seq<char>,
    pub source: u64,
    pub target: u64,
    pub public_url: Seq<char>,
    pub issuer: Seq<char>,
    pub created_at: u64,
    pub bytes: u64,
    pub sha256: Seq<char>,
    pub replacements: u64,
}

impl View for Conversion {
    type V = ConversionView;

    open spec fn view(&self) -> ConversionView {
        ConversionView {
            id: self.id@,
            source: self.source,
            target: self.target,
            public_url: self.public_url@,
            issuer: self.issuer@,
            created_at: self.created_at,
            bytes: self.bytes,
            sha256: self.sha256@,
            replacements: self.replacements,
        }
    }
}

impl DeepView for Conversion {
    type V = ConversionView;

    open spec fn deep_view(&self) -> ConversionView {
        self@
    }
}

impl Row for Conversion {
    fn dup(&self) -> (r: Self) {
        Conversion {
            id: self.id.clone(),
            source: self.source,
            target: self.target,
            public_url: self.public_url.clone(),
            issuer: self.issuer.clone(),
            created_at: self.created_at,
            bytes: self.bytes,
            sha256: self.sha256.clone(),
            replacements: self.replacements,
        }
    }
}

impl Clone for Conversion {
    fn clone(&self) -> (r: Self)
        ensures
            r@ == self@,
    {
        self.dup()
    }
}

/// A row of `files` as it stood before uploads had ids.
#[derive(Debug, PartialEq)]
pub struct SourceFile {
    pub link_id: String,
    pub upload_index: i64,
    pub file_index: i64,
    pub tenant: String,
    pub bytes_hi: i64,
    pub bytes_lo: i64,
    pub deleted: bool,
    pub stored_as: String,
}

/// The contents of [`SourceFile`].
#[verifier::ext_equal]
pub struct SourceFileView {
    pub link_id: Seq<char>,
    pub upload_index: i64,
    pub file_index: i64,
    pub tenant: Seq<char>,
    pub bytes_hi: i64,
    pub bytes_lo: i64,
    pub deleted: bool,
    pub stored_as: Seq<char>,
}

impl View for SourceFile {
    type V = SourceFileView;

    open spec fn view(&self) -> SourceFileView {
        SourceFileView {
            link_id: self.link_id@,
            upload_index: self.upload_index,
            file_index: self.file_index,
            tenant: self.tenant@,
            bytes_hi: self.bytes_hi,
            bytes_lo: self.bytes_lo,
            deleted: self.deleted,
            stored_as: self.stored_as@,
        }
    }
}

impl DeepView for SourceFile {
    type V = SourceFileView;

    open spec fn deep_view(&self) -> SourceFileView {
        self@
    }
}

impl Row for SourceFile {
    fn dup(&self) -> (r: Self) {
        SourceFile {
            link_id: self.link_id.clone(),
            upload_index: self.upload_index,
            file_index: self.file_index,
            tenant: self.tenant.clone(),
            bytes_hi: self.bytes_hi,
            bytes_lo: self.bytes_lo,
            deleted: self.deleted,
            stored_as: self.stored_as.clone(),
        }
    }
}

impl Clone for SourceFile {
    fn clone(&self) -> (r: Self)
        ensures
            r@ == self@,
    {
        self.dup()
    }
}

/// A link with the uploads that stood inside it.
#[derive(Debug, PartialEq)]
pub struct SourceLink {
    pub id: String,
    pub tenant: String,
    /// The uploads; empty where they cannot be read.
    pub uploads: Vec<UploadRecord>,
    /// Why the uploads cannot be read.
    pub refusal: Option<String>,
}

/// The contents of [`SourceLink`].
#[verifier::ext_equal]
pub struct SourceLinkView {
    pub id: Seq<char>,
    pub tenant: Seq<char>,
    pub uploads: Seq<UploadRecordView>,
    pub refusal: Option<Seq<char>>,
}

impl View for SourceLink {
    type V = SourceLinkView;

    open spec fn view(&self) -> SourceLinkView {
        SourceLinkView {
            id: self.id@,
            tenant: self.tenant@,
            uploads: self.uploads.deep_view(),
            refusal: self.refusal.deep_view(),
        }
    }
}

impl DeepView for SourceLink {
    type V = SourceLinkView;

    open spec fn deep_view(&self) -> SourceLinkView {
        self@
    }
}

impl Row for SourceLink {
    fn dup(&self) -> (r: Self) {
        SourceLink {
            id: self.id.clone(),
            tenant: self.tenant.clone(),
            uploads: dup_rows(&self.uploads),
            refusal: dup_option(&self.refusal),
        }
    }
}

impl Clone for SourceLink {
    fn clone(&self) -> (r: Self)
        ensures
            r@ == self@,
    {
        self.dup()
    }
}

/// What a job's document says.
#[derive(Debug, PartialEq)]
pub struct JobDocument {
    pub id: String,
    pub tenant: String,
    pub actor: String,
    pub operation_id: String,
    pub project_id: String,
    pub state: String,
    pub label: String,
    pub token_generation: u64,
}

/// The contents of [`JobDocument`].
#[verifier::ext_equal]
pub struct JobDocumentView {
    pub id: Seq<char>,
    pub tenant: Seq<char>,
    pub actor: Seq<char>,
    pub operation_id: Seq<char>,
    pub project_id: Seq<char>,
    pub state: Seq<char>,
    pub label: Seq<char>,
    pub token_generation: u64,
}

impl View for JobDocument {
    type V = JobDocumentView;

    open spec fn view(&self) -> JobDocumentView {
        JobDocumentView {
            id: self.id@,
            tenant: self.tenant@,
            actor: self.actor@,
            operation_id: self.operation_id@,
            project_id: self.project_id@,
            state: self.state@,
            label: self.label@,
            token_generation: self.token_generation,
        }
    }
}

impl DeepView for JobDocument {
    type V = JobDocumentView;

    open spec fn deep_view(&self) -> JobDocumentView {
        self@
    }
}

impl Row for JobDocument {
    fn dup(&self) -> (r: Self) {
        JobDocument {
            id: self.id.clone(),
            tenant: self.tenant.clone(),
            actor: self.actor.clone(),
            operation_id: self.operation_id.clone(),
            project_id: self.project_id.clone(),
            state: self.state.clone(),
            label: self.label.clone(),
            token_generation: self.token_generation,
        }
    }
}

impl Clone for JobDocument {
    fn clone(&self) -> (r: Self)
        ensures
            r@ == self@,
    {
        self.dup()
    }
}

/// A job before its link is rotated.
#[derive(Debug, PartialEq)]
pub struct SourceJob {
    pub id: String,
    pub tenant: String,
    pub actor: String,
    pub operation_id: String,
    pub project_id: String,
    pub state: String,
    pub document: JobDocument,
    /// Why the document cannot be read.
    pub refusal: Option<String>,
    /// The digest of the token that the signing key gives for the document.
    pub signed_hash: String,
    /// A new token.
    pub token: String,
    /// The digest of the new token.
    pub token_hash: String,
}

/// The contents of [`SourceJob`].
#[verifier::ext_equal]
pub struct SourceJobView {
    pub id: Seq<char>,
    pub tenant: Seq<char>,
    pub actor: Seq<char>,
    pub operation_id: Seq<char>,
    pub project_id: Seq<char>,
    pub state: Seq<char>,
    pub document: JobDocumentView,
    pub refusal: Option<Seq<char>>,
    pub signed_hash: Seq<char>,
    pub token: Seq<char>,
    pub token_hash: Seq<char>,
}

impl View for SourceJob {
    type V = SourceJobView;

    open spec fn view(&self) -> SourceJobView {
        SourceJobView {
            id: self.id@,
            tenant: self.tenant@,
            actor: self.actor@,
            operation_id: self.operation_id@,
            project_id: self.project_id@,
            state: self.state@,
            document: self.document@,
            refusal: self.refusal.deep_view(),
            signed_hash: self.signed_hash@,
            token: self.token@,
            token_hash: self.token_hash@,
        }
    }
}

impl DeepView for SourceJob {
    type V = SourceJobView;

    open spec fn deep_view(&self) -> SourceJobView {
        self@
    }
}

impl Row for SourceJob {
    fn dup(&self) -> (r: Self) {
        SourceJob {
            id: self.id.clone(),
            tenant: self.tenant.clone(),
            actor: self.actor.clone(),
            operation_id: self.operation_id.clone(),
            project_id: self.project_id.clone(),
            state: self.state.clone(),
            document: self.document.dup(),
            refusal: dup_option(&self.refusal),
            signed_hash: self.signed_hash.clone(),
            token: self.token.clone(),
            token_hash: self.token_hash.clone(),
        }
    }
}

impl Clone for SourceJob {
    fn clone(&self) -> (r: Self)
        ensures
            r@ == self@,
    {
        self.dup()
    }
}

/// What became of a job's link.
#[derive(Debug, PartialEq)]
pub struct Rotation {
    pub job_id: String,
    pub token: String,
    /// The generation of the new link, where the job had one.
    pub generation: Option<u64>,
}

/// The contents of [`Rotation`].
#[verifier::ext_equal]
pub struct RotationView {
    pub job_id: Seq<char>,
    pub token: Seq<char>,
    pub generation: Option<u64>,
}

impl View for Rotation {
    type V = RotationView;

    open spec fn view(&self) -> RotationView {
        RotationView {
            job_id: self.job_id@,
            token: self.token@,
            generation: self.generation,
        }
    }
}

impl DeepView for Rotation {
    type V = RotationView;

    open spec fn deep_view(&self) -> RotationView {
        self@
    }
}

impl Row for Rotation {
    fn dup(&self) -> (r: Self) {
        Rotation {
            job_id: self.job_id.clone(),
            token: self.token.clone(),
            generation: self.generation,
        }
    }
}

impl Clone for Rotation {
    fn clone(&self) -> (r: Self)
        ensures
            r@ == self@,
    {
        self.dup()
    }
}

/// A job with a delivery, after its link was rotated.
#[derive(Debug, PartialEq)]
pub struct Replacement {
    pub document: JobDocument,
    /// Why the document cannot be read.
    pub refusal: Option<String>,
    pub token: String,
    /// The digest of the token.
    pub token_digest: String,
    /// The digest that the delivery is looked up by.
    pub grant_hash: String,
    /// Whether the job was released, and its release stands.
    pub released: bool,
    pub revoked_at: Option<i64>,
    pub expires_at: i64,
}

/// The contents of [`Replacement`].
#[verifier::ext_equal]
pub struct ReplacementView {
    pub document: JobDocumentView,
    pub refusal: Option<Seq<char>>,
    pub token: Seq<char>,
    pub token_digest: Seq<char>,
    pub grant_hash: Seq<char>,
    pub released: bool,
    pub revoked_at: Option<i64>,
    pub expires_at: i64,
}

impl View for Replacement {
    type V = ReplacementView;

    open spec fn view(&self) -> ReplacementView {
        ReplacementView {
            document: self.document@,
            refusal: self.refusal.deep_view(),
            token: self.token@,
            token_digest: self.token_digest@,
            grant_hash: self.grant_hash@,
            released: self.released,
            revoked_at: self.revoked_at,
            expires_at: self.expires_at,
        }
    }
}

impl DeepView for Replacement {
    type V = ReplacementView;

    open spec fn deep_view(&self) -> ReplacementView {
        self@
    }
}

impl Row for Replacement {
    fn dup(&self) -> (r: Self) {
        Replacement {
            document: self.document.dup(),
            refusal: dup_option(&self.refusal),
            token: self.token.clone(),
            token_digest: self.token_digest.clone(),
            grant_hash: self.grant_hash.clone(),
            released: self.released,
            revoked_at: self.revoked_at,
            expires_at: self.expires_at,
        }
    }
}

impl Clone for Replacement {
    fn clone(&self) -> (r: Self)
        ensures
            r@ == self@,
    {
        self.dup()
    }
}

/// A job with a delivery, as the database has it now.
#[derive(Debug, PartialEq)]
pub struct CurrentJob {
    pub id: String,
    pub tenant: String,
    pub token: String,
    /// The digest of the token.
    pub token_digest: String,
    /// The digest that the delivery is looked up by.
    pub grant_hash: String,
    pub token_generation: u64,
    /// Why the job's document cannot be read.
    pub refusal: Option<String>,
}

/// The contents of [`CurrentJob`].
#[verifier::ext_equal]
pub struct CurrentJobView {
    pub id: Seq<char>,
    pub tenant: Seq<char>,
    pub token: Seq<char>,
    pub token_digest: Seq<char>,
    pub grant_hash: Seq<char>,
    pub token_generation: u64,
    pub refusal: Option<Seq<char>>,
}

impl View for CurrentJob {
    type V = CurrentJobView;

    open spec fn view(&self) -> CurrentJobView {
        CurrentJobView {
            id: self.id@,
            tenant: self.tenant@,
            token: self.token@,
            token_digest: self.token_digest@,
            grant_hash: self.grant_hash@,
            token_generation: self.token_generation,
            refusal: self.refusal.deep_view(),
        }
    }
}

impl DeepView for CurrentJob {
    type V = CurrentJobView;

    open spec fn deep_view(&self) -> CurrentJobView {
        self@
    }
}

impl Row for CurrentJob {
    fn dup(&self) -> (r: Self) {
        CurrentJob {
            id: self.id.clone(),
            tenant: self.tenant.clone(),
            token: self.token.clone(),
            token_digest: self.token_digest.clone(),
            grant_hash: self.grant_hash.clone(),
            token_generation: self.token_generation,
            refusal: dup_option(&self.refusal),
        }
    }
}

impl Clone for CurrentJob {
    fn clone(&self) -> (r: Self)
        ensures
            r@ == self@,
    {
        self.dup()
    }
}

/// What a line of the artifact says of a rotated link, as JSON texts.
#[derive(Debug, PartialEq)]
pub struct ArtifactRecord {
    pub job_id: Option<String>,
    pub tenant: Option<String>,
    pub generation: Option<String>,
    pub token_hash: Option<String>,
    /// The link, where the line has one that is a string.
    pub url: Option<String>,
}

/// The contents of [`ArtifactRecord`].
#[verifier::ext_equal]
pub struct ArtifactRecordView {
    pub job_id: Option<Seq<char>>,
    pub tenant: Option<Seq<char>>,
    pub generation: Option<Seq<char>>,
    pub token_hash: Option<Seq<char>>,
    pub url: Option<Seq<char>>,
}

impl View for ArtifactRecord {
    type V = ArtifactRecordView;

    open spec fn view(&self) -> ArtifactRecordView {
        ArtifactRecordView {
            job_id: self.job_id.deep_view(),
            tenant: self.tenant.deep_view(),
            generation: self.generation.deep_view(),
            token_hash: self.token_hash.deep_view(),
            url: self.url.deep_view(),
        }
    }
}

impl DeepView for ArtifactRecord {
    type V = ArtifactRecordView;

    open spec fn deep_view(&self) -> ArtifactRecordView {
        self@
    }
}

impl Row for ArtifactRecord {
    fn dup(&self) -> (r: Self) {
        ArtifactRecord {
            job_id: dup_option(&self.job_id),
            tenant: dup_option(&self.tenant),
            generation: dup_option(&self.generation),
            token_hash: dup_option(&self.token_hash),
            url: dup_option(&self.url),
        }
    }
}

impl Clone for ArtifactRecord {
    fn clone(&self) -> (r: Self)
        ensures
            r@ == self@,
    {
        self.dup()
    }
}

/// What an upload's header that is JSON, but no upload record, holds.
#[derive(Debug, PartialEq)]
pub struct HeaderMembers {
    /// The time of completion, where it is an integer of a column.
    pub completed_at: Option<i64>,
    /// The integer next to the time of completion, where it is a real number.
    pub completed_part: Option<i64>,
    /// Whether a real time is below that integer (-1), is it (0), or is above it (1).
    pub completed_rest: i64,
    /// What real times next to the same integer are ordered by.
    pub completed_order: i64,
    /// The time of completion, where it is a text.
    pub completed_text: Option<String>,
    /// Whether it is marked as partial.
    pub partial: bool,
    /// The bytes in all, where they are told as a length.
    pub total_bytes: Option<u64>,
    /// What the decoder says of bytes that are told as something else.
    pub total_error: Option<String>,
}

/// The contents of [`HeaderMembers`].
#[verifier::ext_equal]
pub struct HeaderMembersView {
    pub completed_at: Option<i64>,
    pub completed_part: Option<i64>,
    pub completed_rest: i64,
    pub completed_order: i64,
    pub completed_text: Option<Seq<char>>,
    pub partial: bool,
    pub total_bytes: Option<u64>,
    pub total_error: Option<Seq<char>>,
}

impl View for HeaderMembers {
    type V = HeaderMembersView;

    open spec fn view(&self) -> HeaderMembersView {
        HeaderMembersView {
            completed_at: self.completed_at,
            completed_part: self.completed_part,
            completed_rest: self.completed_rest,
            completed_order: self.completed_order,
            completed_text: self.completed_text.deep_view(),
            partial: self.partial,
            total_bytes: self.total_bytes,
            total_error: self.total_error.deep_view(),
        }
    }
}

impl DeepView for HeaderMembers {
    type V = HeaderMembersView;

    open spec fn deep_view(&self) -> HeaderMembersView {
        self@
    }
}

impl Row for HeaderMembers {
    fn dup(&self) -> (r: Self) {
        HeaderMembers {
            completed_at: self.completed_at,
            completed_part: self.completed_part,
            completed_rest: self.completed_rest,
            completed_order: self.completed_order,
            completed_text: dup_option(&self.completed_text),
            partial: self.partial,
            total_bytes: self.total_bytes,
            total_error: dup_option(&self.total_error),
        }
    }
}

impl Clone for HeaderMembers {
    fn clone(&self) -> (r: Self)
        ensures
            r@ == self@,
    {
        self.dup()
    }
}

} // verus!
