//! Closed sets of alternatives that records and results draw on.
use vstd::prelude::*;

verus! {

/// Whether a link or delivery notifies anyone, and by which rules.
#[derive(Clone, Copy, Debug, PartialEq, Eq, Structural)]
pub enum NotificationMode {
    Off,
    Default,
    Custom,
}

/// How durably a received file is committed.
#[derive(Clone, Copy, Debug, PartialEq, Eq, Structural)]
pub enum CommitProfile {
    Fast,
    Balanced,
    Strict,
}

/// What network storage promises of an acknowledged write.
#[derive(Clone, Copy, Debug, PartialEq, Eq, Structural)]
pub enum NasContract {
    Unqualified,
    ServerAcknowledged,
}

/// What a recipient's device attests.
#[derive(Clone, Copy, Debug, PartialEq, Eq, Structural)]
pub enum EvidenceKind {
    Verified,
    Accepted,
}

/// What recording a download changed for its grant.
#[derive(Clone, Copy, Debug, PartialEq, Eq, Structural)]
pub struct OutboundDownloadResult {
    /// No download had been recorded before.
    pub first_download: bool,
    /// Every file has now been fetched, which was not so before.
    pub completed_delivery: bool,
}

impl DeepView for OutboundDownloadResult {
    type V = OutboundDownloadResult;

    open spec fn deep_view(&self) -> OutboundDownloadResult {
        *self
    }
}

/// A bearer token beside the digest that it is looked up by.
#[derive(Debug, PartialEq, Eq)]
pub struct Bearer {
    pub token: String,
    pub hash: String,
}

/// Why a link was not inserted.
#[derive(Debug, PartialEq)]
pub enum InsertLinkError {
    /// The link's tenant is not there.
    NamedTenantGone,
    Store(String),
}

/// Why a tenant was not inserted.
#[derive(Debug, PartialEq)]
pub enum InsertTenantError {
    /// A tenant with that key is already there.
    AlreadyExists,
    Store(String),
}

/// What became of a request to remove a tenant.
#[derive(Clone, Copy, Debug, PartialEq, Eq, Structural)]
pub enum TenantRemoval {
    HasRoutes,
    Deleted,
    Absent,
    HasLinks,
}

impl DeepView for TenantRemoval {
    type V = TenantRemoval;

    open spec fn deep_view(&self) -> TenantRemoval {
        *self
    }
}

/// One write to a setting: a text, which may be empty to disable it, or none to
/// follow the environment again.
#[derive(Debug, PartialEq)]
pub enum SettingWrite {
    Put(String),
    Reset,
}

} // verus!
