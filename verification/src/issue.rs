//! Issuing outbound grants.
use vstd::prelude::*;

use crate::clock::{clock_gave, now_unix, time_of};
use crate::columns::{
    column, decode_error, high, low, optional_column, size_to_column, split_bytes, to_column,
    to_optional_column, to_wrapped, undecoded, wrapped,
};
use crate::downloads::{grant_is, in_range};
use crate::grants::grant_with;
use crate::kinds::Bearer;
use crate::lifecycle::job_in;
use crate::records::{
    AutomationOperation, AutomationOperationView, NotificationPolicy, NotificationPolicyView,
    OutboundGrant, OutboundGrantFile, OutboundGrantFileView, OutboundGrantView,
};
use crate::rows::{
    AutomationTokenRow, AutomationTokenRowView, DigestRow, DigestRowView, GrantFileRow,
    GrantFileRowView, GrantRow, GrantRowView, JobRow, OperationRow, OperationRowView, OverrideRow,
    OverrideRowView,
};
use crate::store::{Store, StoreView, follows};
use crate::table::{
    Row, allot_id, any, append_row, append_rows, dup_option, dup_rows, exists_where, find, first,
    next_id, outcome, project,
};
use crate::text::same;

verus! {

/// What the rest of the server says of a grant that is to be issued.
pub struct GrantChecks {
    /// Whether the names that [`OutboundGrant::names_to_admit`] lists are
    /// portable and do not collide.
    pub names: Result<(), String>,
    /// The digest over [`OutboundGrant::manifest_entries`].
    pub digest: String,
    /// Whether the workflow rules let the grant be created.
    pub creation: Result<(), String>,
    /// Whether the job that issues the grant could be finished; `None` where no
    /// job does.
    pub finished: Option<Result<(), String>>,
}

// ------------------------------------------------------------ specifications
/// The names that a grant offers: those of its files, or its own where it
/// stands for a single received file.
pub open spec fn offered_names(g: OutboundGrantView) -> Seq<Seq<char>> {
    if g.files.len() == 0 {
        seq![g.name]
    } else {
        g.files.map_values(|f: OutboundGrantFileView| f.name)
    }
}

/// What a grant's delivery consists of.
pub open spec fn delivery_entries(g: OutboundGrantView) -> Seq<(Seq<char>, Seq<char>, Seq<char>, u64)> {
    if g.files.len() == 0 {
        seq![(g.name, g.suite, g.root, g.bytes)]
    } else {
        g.files.map_values(delivery_entry())
    }
}

/// What one file of a delivery consists of.
pub open spec fn delivery_entry() -> spec_fn(OutboundGrantFileView) -> (
    Seq<char>,
    Seq<char>,
    Seq<char>,
    u64,
) {
    |f: OutboundGrantFileView| (f.name, f.suite, f.root, f.bytes)
}

/// The row of a new grant.
pub open spec fn grant_row_of(
    g: OutboundGrantView,
    notifications: Option<NotificationPolicyView>,
    share_token: Option<Seq<char>>,
) -> GrantRowView {
    GrantRowView {
        id: g.id,
        token_hash: g.token_hash,
        password_hash: g.password_hash,
        tenant: g.tenant,
        link_id: g.link_id,
        upload_id: g.upload_id,
        package_root: g.package_root,
        name: g.name,
        suite: g.suite,
        root: g.root,
        file_index: column(g.file_index as u64),
        bytes_hi: high(g.bytes),
        bytes_lo: low(g.bytes),
        label: g.label,
        created_at: column(g.created_at),
        expires_at: column(g.expires_at),
        revoked_at: optional_column(g.revoked_at),
        downloads: column(g.downloads),
        max_downloads: optional_column(g.max_downloads),
        first_download_at: optional_column(g.first_download_at),
        last_download_at: optional_column(g.last_download_at),
        files: g.files,
        files_error: None,
        files_brief: false,
        file_count: if g.files.len() == 0 {
            1
        } else {
            column(g.files.len() as u64)
        },
        notifications,
        notifications_error: None,
        share_token,
    }
}

/// The rows of a new grant's files.
pub open spec fn file_rows_of(id: Seq<char>, files: Seq<OutboundGrantFileView>) -> Seq<
    GrantFileRowView,
> {
    Seq::new(
        files.len(),
        |i: int|
            GrantFileRowView {
                grant_id: id,
                file_index: column(i as u64),
                source: files[i].source,
                name: files[i].name,
                suite: files[i].suite,
                root: files[i].root,
                bytes_hi: high(files[i].bytes),
                bytes_lo: low(files[i].bytes),
                receipt_b64: files[i].receipt_b64,
                downloads: column(files[i].downloads),
                first_download_at: optional_column(files[i].first_download_at),
                last_download_at: optional_column(files[i].last_download_at),
            },
    )
}

/// The digest recorded for a grant.
pub open spec fn digest_of(id: Seq<char>) -> spec_fn(DigestRowView) -> bool {
    |d: DigestRowView| d.grant_id == id
}

/// The notifications that override those of a job's delivery.
pub open spec fn override_of(id: Seq<char>) -> spec_fn(OverrideRowView) -> bool {
    |o: OverrideRowView| o.job_id == id
}

/// The notifications set for the job `id` of a tenant, if there is such a job.
pub open spec fn job_override(s: StoreView, tenant: Seq<char>, id: Seq<char>) -> Result<
    Option<NotificationPolicyView>,
    Seq<char>,
> {
    if !any(s.jobs, job_in(tenant, id)) {
        Ok(None)
    } else {
        match first(s.notification_overrides, override_of(id)) {
            None => Ok(None),
            Some(o) => match o.document_error {
                Some(e) => Err(undecoded("0"@, e)),
                None => Ok(Some(o.document)),
            },
        }
    }
}

/// An automation token that may act at `now`.
pub open spec fn acting_token(id: Seq<char>, now: i64) -> spec_fn(AutomationTokenRowView) -> bool {
    |t: AutomationTokenRowView| t.id == id && t.revoked_at is None && t.expires_at > now
}

/// An operation of a token.
pub open spec fn operation_is(token_id: Seq<char>, operation_id: Seq<char>) -> spec_fn(
    OperationRowView,
) -> bool {
    |o: OperationRowView| o.token_id == token_id && o.operation_id == operation_id
}

/// The operation that created a grant.
pub open spec fn operation_for(grant_id: Seq<char>) -> spec_fn(OperationRowView) -> bool {
    |o: OperationRowView| o.grant_id == grant_id
}

/// The row ids of operations.
pub open spec fn operation_ids(s: Seq<OperationRowView>) -> Seq<i64> {
    s.map_values(|o: OperationRowView| o.rowid)
}

/// The store with a new grant, its files and its digest, and with the policy
/// that overrides its notifications; or why there is none.
pub open spec fn with_grant(
    s: StoreView,
    g: OutboundGrantView,
    share: Option<(Seq<char>, Seq<char>)>,
    checks: GrantChecks,
) -> Result<StoreView, Seq<char>> {
    if share is Some && (share->0).1 != g.token_hash {
        Err("download token does not match grant"@)
    } else if checks.names is Err {
        Err(checks.names->Err_0@)
    } else if checks.creation is Err {
        Err(checks.creation->Err_0@)
    } else {
        match job_override(s, g.tenant, g.id) {
            Err(e) => Err(e),
            Ok(policy) => if checks.finished is Some && checks.finished->0 is Err {
                Err(checks.finished->0->Err_0@)
            } else if any(s.grants, grant_is(g.id)) {
                Err("UNIQUE constraint failed: outbound_grants.id"@)
            } else if any(s.grants, grant_with(g.token_hash)) {
                Err("UNIQUE constraint failed: outbound_grants.token_hash"@)
            } else if any(s.grant_files, in_range(g.id, column(g.files.len() as u64))) {
                Err(
                    "UNIQUE constraint failed: outbound_grant_files.grant_id, outbound_grant_files.file_index"@,
                )
            } else if any(s.digests, digest_of(g.id)) {
                Err("UNIQUE constraint failed: delivery_manifests.grant_id"@)
            } else {
                Ok(
                    StoreView {
                        grants: s.grants.push(
                            grant_row_of(
                                g,
                                if policy is Some {
                                    policy
                                } else {
                                    g.notifications
                                },
                                if share is Some && checks.finished is None {
                                    Some((share->0).0)
                                } else {
                                    None
                                },
                            ),
                        ),
                        grant_files: s.grant_files + file_rows_of(g.id, g.files),
                        digests: s.digests.push(
                            DigestRowView { grant_id: g.id, digest: checks.digest@ },
                        ),
                        ..s
                    },
                )
            },
        }
    }
}

/// A grant issued at time `now`, together with the operation that asked for it.
pub open spec fn issued(
    s: StoreView,
    g: OutboundGrantView,
    operation: Option<AutomationOperationView>,
    share: Option<(Seq<char>, Seq<char>)>,
    checks: GrantChecks,
    now: u64,
) -> Result<(StoreView, ()), Seq<char>> {
    match with_grant(s, g, share, checks) {
        Err(e) => Err(e),
        Ok(after) => match operation {
            None => Ok((after, ())),
            Some(o) => if !any(s.tokens, acting_token(o.token_id, wrapped(now))) {
                Err("automation token expired or revoked"@)
            } else if any(s.operations, operation_is(o.token_id, o.operation_id)) {
                Err(
                    "UNIQUE constraint failed: automation_operations.token_id, automation_operations.operation_id"@,
                )
            } else if any(s.operations, operation_for(g.id)) {
                Err("UNIQUE constraint failed: automation_operations.grant_id"@)
            } else {
                match next_id(operation_ids(s.operations)) {
                    None => Err("database or disk is full"@),
                    Some(rowid) => Ok(
                        (
                            StoreView {
                                operations: s.operations.push(
                                    OperationRowView {
                                        rowid,
                                        token_id: o.token_id,
                                        operation_id: o.operation_id,
                                        request_hash: o.request_hash,
                                        grant_id: g.id,
                                    },
                                ),
                                ..after
                            },
                            (),
                        ),
                    ),
                }
            },
        },
    }
}

/// The contents of a bearer token.
pub open spec fn bearer_view(b: Option<&Bearer>) -> Option<(Seq<char>, Seq<char>)> {
    match b {
        Some(b) => Some((b.token@, b.hash@)),
        None => None,
    }
}

// ---------------------------------------------------------------- operations
fn file_rows(id: &str, files: &Vec<OutboundGrantFile>) -> (rows: Vec<GrantFileRow>)
    ensures
        rows.deep_view() == file_rows_of(id@, files.deep_view()),
{
    let mut rows: Vec<GrantFileRow> = Vec::new();
    let mut i: usize = 0;
    while i < files.len()
        invariant
            i <= files.len(),
            rows.len() == i,
            forall|k: int|
                0 <= k < i ==> (#[trigger] rows@[k])@ == file_rows_of(id@, files.deep_view())[k],
        decreases files.len() - i,
    {
        let file = &files[i];
        let (hi, lo) = split_bytes(file.bytes);
        rows.push(
            GrantFileRow {
                grant_id: id.to_owned(),
                file_index: size_to_column(i),
                source: file.source.clone(),
                name: file.name.clone(),
                suite: file.suite.clone(),
                root: file.root.clone(),
                bytes_hi: hi,
                bytes_lo: lo,
                receipt_b64: file.receipt_b64.clone(),
                downloads: to_column(file.downloads),
                first_download_at: to_optional_column(file.first_download_at),
                last_download_at: to_optional_column(file.last_download_at),
            },
        );
        i += 1;
    }
    assert(rows.deep_view() =~= file_rows_of(id@, files.deep_view()));
    rows
}

fn grant_row(
    g: &OutboundGrant,
    notifications: Option<NotificationPolicy>,
    share_token: Option<String>,
) -> (row: GrantRow)
    ensures
        row@ == grant_row_of(g@, notifications.deep_view(), share_token.deep_view()),
{
    let (hi, lo) = split_bytes(g.bytes);
    GrantRow {
        id: g.id.clone(),
        token_hash: g.token_hash.clone(),
        password_hash: dup_option(&g.password_hash),
        tenant: g.tenant.clone(),
        link_id: g.link_id.clone(),
        upload_id: g.upload_id.clone(),
        package_root: g.package_root.clone(),
        name: g.name.clone(),
        suite: g.suite.clone(),
        root: g.root.clone(),
        file_index: size_to_column(g.file_index),
        bytes_hi: hi,
        bytes_lo: lo,
        label: g.label.clone(),
        created_at: to_column(g.created_at),
        expires_at: to_column(g.expires_at),
        revoked_at: to_optional_column(g.revoked_at),
        downloads: to_column(g.downloads),
        max_downloads: to_optional_column(g.max_downloads),
        first_download_at: to_optional_column(g.first_download_at),
        last_download_at: to_optional_column(g.last_download_at),
        files: dup_rows(&g.files),
        files_error: None,
        files_brief: false,
        file_count: if g.files.len() == 0 {
            1
        } else {
            size_to_column(g.files.len())
        },
        notifications,
        notifications_error: None,
        share_token,
    }
}

impl OutboundGrant {
    /// The names that must be portable and must not collide.
    pub fn names_to_admit(&self) -> (names: Vec<String>)
        ensures
            names.deep_view() == offered_names(self@),
    {
        let mut names: Vec<String> = Vec::new();
        if self.files.len() == 0 {
            names.push(self.name.clone());
            assert(names.deep_view() =~= seq![self@.name]);
            return names;
        }
        let mut i: usize = 0;
        while i < self.files.len()
            invariant
                i <= self.files.len(),
                names.len() == i,
                forall|k: int| 0 <= k < i ==> (#[trigger] names@[k])@ == self.files@[k]@.name,
            decreases self.files.len() - i,
        {
            names.push(self.files[i].name.clone());
            i += 1;
        }
        assert(names.deep_view() =~= offered_names(self@));
        names
    }

    /// Name, suite, root and length of everything that the grant delivers.
    pub fn manifest_entries(&self) -> (entries: Vec<(String, String, String, u64)>)
        ensures
            entries.deep_view() == delivery_entries(self@),
    {
        if self.files.len() == 0 {
            let mut entries: Vec<(String, String, String, u64)> = Vec::new();
            entries.push((self.name.clone(), self.suite.clone(), self.root.clone(), self.bytes));
            assert(entries.deep_view() =~= delivery_entries(self@));
            return entries;
        }
        let entry = |f: &OutboundGrantFile| -> (e: (String, String, String, u64))
            ensures
                e.deep_view() == delivery_entry()(f@),
        {
            (f.name.clone(), f.suite.clone(), f.root.clone(), f.bytes)
        };
        project(&self.files, entry, Ghost(delivery_entry()))
    }
}

impl Store {
    /// The notifications set for the job `id` of a tenant.
    pub fn notification_job_override(&self, tenant: &str, id: &str) -> (r: Result<
        Option<NotificationPolicy>,
        String,
    >)
        ensures
            outcome(r) == job_override(self@, tenant@, id@),
    {
        let job = |j: &JobRow| -> (b: bool)
            ensures
                b == job_in(tenant@, id@)(j@),
        {
            same(j.id.as_str(), id) && same(j.tenant.as_str(), tenant)
        };
        if !exists_where(&self.jobs, job, Ghost(job_in(tenant@, id@))) {
            return Ok(None);
        }
        let set = |o: &OverrideRow| -> (b: bool)
            ensures
                b == override_of(id@)(o@),
        {
            same(o.job_id.as_str(), id)
        };
        match find(&self.notification_overrides, set, Ghost(override_of(id@))) {
            Some(found) => match &self.notification_overrides[found].document_error {
                Some(error) => Err(decode_error("0", error.as_str())),
                None => Ok(Some(self.notification_overrides[found].document.dup())),
            },
            None => Ok(None),
        }
    }

    /// Issues a grant.
    pub fn insert_outbound_grant(&mut self, grant: OutboundGrant, checks: &GrantChecks) -> (r: Result<
        (),
        String,
    >)
        ensures
            follows(
                issued(old(self)@, grant@, None, None, *checks, 0),
                old(self)@,
                final(self)@,
                r,
            ),
    {
        self.insert_workflow_grant_at(grant, None, None, checks, 0)
    }

    /// Issues a grant that an automation request asked for.
    pub fn insert_outbound_grant_with_operation(
        &mut self,
        grant: OutboundGrant,
        operation: Option<&AutomationOperation>,
        checks: &GrantChecks,
    ) -> (r: Result<(), String>)
        ensures
            exists|reading: Option<u64>| #[trigger]
                clock_gave(reading) && follows(
                    issued(
                        old(self)@,
                        grant@,
                        operation.deep_view(),
                        None,
                        *checks,
                        time_of(reading),
                    ),
                    old(self)@,
                    final(self)@,
                    r,
                ),
    {
        self.insert_workflow_grant(grant, operation, None, checks)
    }

    /// Issues a grant, shared under a token where `share` gives one.
    pub fn insert_workflow_grant(
        &mut self,
        grant: OutboundGrant,
        operation: Option<&AutomationOperation>,
        share: Option<&Bearer>,
        checks: &GrantChecks,
    ) -> (r: Result<(), String>)
        ensures
            exists|reading: Option<u64>| #[trigger]
                clock_gave(reading) && follows(
                    issued(
                        old(self)@,
                        grant@,
                        operation.deep_view(),
                        bearer_view(share),
                        *checks,
                        time_of(reading),
                    ),
                    old(self)@,
                    final(self)@,
                    r,
                ),
    {
        let now: u64 = now_unix();
        self.insert_workflow_grant_at(grant, operation, share, checks, now)
    }

    /// Issues a grant at time `now`.
    pub fn insert_workflow_grant_at(
        &mut self,
        grant: OutboundGrant,
        operation: Option<&AutomationOperation>,
        share: Option<&Bearer>,
        checks: &GrantChecks,
        now: u64,
    ) -> (r: Result<(), String>)
        ensures
            follows(
                issued(
                    old(self)@,
                    grant@,
                    operation.deep_view(),
                    bearer_view(share),
                    *checks,
                    now,
                ),
                old(self)@,
                final(self)@,
                r,
            ),
    {
        if let Some(bearer) = share {
            if !same(bearer.hash.as_str(), grant.token_hash.as_str()) {
                return Err("download token does not match grant".to_owned());
            }
        }
        if let Err(error) = &checks.names {
            return Err(error.clone());
        }
        if let Err(error) = &checks.creation {
            return Err(error.clone());
        }
        let policy = match self.notification_job_override(
            grant.tenant.as_str(),
            grant.id.as_str(),
        ) {
            Ok(policy) => policy,
            Err(error) => {
                return Err(error);
            },
        };
        if let Some(finished) = &checks.finished {
            if let Err(error) = finished {
                return Err(error.clone());
            }
        }
        let id = grant.id.as_str();
        let hash = grant.token_hash.as_str();
        let same_id = |g: &GrantRow| -> (b: bool)
            ensures
                b == grant_is(id@)(g@),
        {
            same(g.id.as_str(), id)
        };
        if exists_where(&self.grants, same_id, Ghost(grant_is(id@))) {
            return Err("UNIQUE constraint failed: outbound_grants.id".to_owned());
        }
        let same_hash = |g: &GrantRow| -> (b: bool)
            ensures
                b == grant_with(hash@)(g@),
        {
            same(g.token_hash.as_str(), hash)
        };
        if exists_where(&self.grants, same_hash, Ghost(grant_with(hash@))) {
            return Err("UNIQUE constraint failed: outbound_grants.token_hash".to_owned());
        }
        let end: i64 = size_to_column(grant.files.len());
        let same_file = |f: &GrantFileRow| -> (b: bool)
            ensures
                b == in_range(id@, end)(f@),
        {
            same(f.grant_id.as_str(), id) && 0 <= f.file_index && f.file_index < end
        };
        if exists_where(&self.grant_files, same_file, Ghost(in_range(id@, end))) {
            return Err(
                "UNIQUE constraint failed: outbound_grant_files.grant_id, outbound_grant_files.file_index".to_owned(),
            );
        }
        let same_digest = |d: &DigestRow| -> (b: bool)
            ensures
                b == digest_of(id@)(d@),
        {
            same(d.grant_id.as_str(), id)
        };
        if exists_where(&self.digests, same_digest, Ghost(digest_of(id@))) {
            return Err("UNIQUE constraint failed: delivery_manifests.grant_id".to_owned());
        }
        if let Some(operation) = operation {
            let rowid = match self.operation_slot(operation, id, now) {
                Ok(rowid) => rowid,
                Err(error) => {
                    return Err(error);
                },
            };
            append_row(
                &mut self.operations,
                OperationRow {
                    rowid,
                    token_id: operation.token_id.clone(),
                    operation_id: operation.operation_id.clone(),
                    request_hash: operation.request_hash.clone(),
                    grant_id: id.to_owned(),
                },
            );
        }
        let notifications = if policy.is_some() {
            policy
        } else {
            dup_option(&grant.notifications)
        };
        let share_token = match share {
            Some(bearer) => if checks.finished.is_none() {
                Some(bearer.token.clone())
            } else {
                None
            },
            None => None,
        };
        append_row(&mut self.grants, grant_row(&grant, notifications, share_token));
        let children = file_rows(id, &grant.files);
        append_rows(&mut self.grant_files, &children);
        append_row(
            &mut self.digests,
            DigestRow { grant_id: id.to_owned(), digest: checks.digest.clone() },
        );
        Ok(())
    }

    /// The row id of a new operation for the grant `id`, or why it is refused.
    fn operation_slot(&self, operation: &AutomationOperation, id: &str, now: u64) -> (r: Result<
        i64,
        String,
    >)
        ensures
            outcome(r) == if !any(
                self@.tokens,
                acting_token(operation.token_id@, wrapped(now)),
            ) {
                Err("automation token expired or revoked"@)
            } else if any(
                self@.operations,
                operation_is(operation.token_id@, operation.operation_id@),
            ) {
                Err(
                    "UNIQUE constraint failed: automation_operations.token_id, automation_operations.operation_id"@,
                )
            } else if any(self@.operations, operation_for(id@)) {
                Err("UNIQUE constraint failed: automation_operations.grant_id"@)
            } else {
                match next_id(operation_ids(self@.operations)) {
                    None => Err("database or disk is full"@),
                    Some(rowid) => Ok(rowid),
                }
            },
    {
        let at: i64 = to_wrapped(now);
        let acting = |t: &AutomationTokenRow| -> (b: bool)
            ensures
                b == acting_token(operation.token_id@, at)(t@),
        {
            same(t.id.as_str(), operation.token_id.as_str()) && t.revoked_at.is_none()
                && t.expires_at > at
        };
        if !exists_where(&self.tokens, acting, Ghost(acting_token(operation.token_id@, at))) {
            return Err("automation token expired or revoked".to_owned());
        }
        let same_operation = |o: &OperationRow| -> (b: bool)
            ensures
                b == operation_is(operation.token_id@, operation.operation_id@)(o@),
        {
            same(o.token_id.as_str(), operation.token_id.as_str()) && same(
                o.operation_id.as_str(),
                operation.operation_id.as_str(),
            )
        };
        if exists_where(
            &self.operations,
            same_operation,
            Ghost(operation_is(operation.token_id@, operation.operation_id@)),
        ) {
            return Err(
                "UNIQUE constraint failed: automation_operations.token_id, automation_operations.operation_id".to_owned(),
            );
        }
        let same_grant = |o: &OperationRow| -> (b: bool)
            ensures
                b == operation_for(id@)(o@),
        {
            same(o.grant_id.as_str(), id)
        };
        if exists_where(&self.operations, same_grant, Ghost(operation_for(id@))) {
            return Err("UNIQUE constraint failed: automation_operations.grant_id".to_owned());
        }
        let rowid_of = |o: &OperationRow| -> (r: i64)
            ensures
                r.deep_view() == (|o: OperationRowView| o.rowid)(o@),
        {
            o.rowid
        };
        let ids = project(&self.operations, rowid_of, Ghost(|o: OperationRowView| o.rowid));
        assert(ids@ =~= operation_ids(self@.operations)) by {
            assert forall|i: int| 0 <= i < ids@.len() implies ids@[i] == operation_ids(
                self@.operations,
            )[i] by {
                assert(ids.deep_view()[i] == operation_ids(self@.operations)[i]);
            }
        }
        match allot_id(&ids) {
            Some(rowid) => Ok(rowid),
            None => Err("database or disk is full".to_owned()),
        }
    }
}

} // verus!
