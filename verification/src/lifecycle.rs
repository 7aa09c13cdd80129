//! What happens to a grant after it was issued: its token, its end and whether
//! it can still be used.
use vstd::prelude::*;

use crate::columns::{
    column, combine_byte_sums, decode_error, from_column, holds_size, is_size, joined, natural,
    size_to_column, to_column, to_wrapped, undecoded, wrapped,
};
use crate::downloads::below;
use crate::grants::{column_sum, grant_in, lemma_sum_overflow};
use crate::kinds::Bearer;
use crate::records::{OutboundGrantFile, OutboundGrantFileView, OutboundSummary};
use crate::rows::{
    GrantFileRow, GrantFileRowView, GrantManifestRow, GrantManifestRowView, GrantRow, GrantRowView,
    JobRow, JobRowView,
};
use crate::store::{Store, StoreView, follows};
use crate::table::{
    Row, any, append_row, append_rows, count, count_where, distinct, distinct_rows, dup_option,
    exists_where, find, first, lemma_filter_any, outcome, project, select, sort_rows, try_map,
    try_project, update_where, updated,
};
use crate::text::{list_has, lt, same, text_lt, texts, to_list};

verus! {

// ------------------------------------------------------------ specifications
/// Whether a grant is neither revoked nor expired at `now`.
pub open spec fn open_at(g: GrantRowView, now: i64) -> bool {
    g.revoked_at is None && g.expires_at > now
}

/// Whether a grant can be downloaded from at `now`: it is open and has not
/// used up its downloads.
pub open spec fn usable_at(g: GrantRowView, now: i64) -> bool {
    open_at(g, now) && below(g.downloads, g.max_downloads)
}

/// The grant `id` of a tenant, unless it was revoked.
pub open spec fn unrevoked(tenant: Seq<char>, id: Seq<char>) -> spec_fn(GrantRowView) -> bool {
    |g: GrantRowView| g.tenant == tenant && g.id == id && g.revoked_at is None
}

/// A grant revoked at time `at`.
pub open spec fn revoked(at: i64) -> spec_fn(GrantRowView) -> GrantRowView {
    |g: GrantRowView| GrantRowView { revoked_at: Some(at), ..g }
}

/// A grant that ends at time `at`.
pub open spec fn ending(at: i64) -> spec_fn(GrantRowView) -> GrantRowView {
    |g: GrantRowView| GrantRowView { expires_at: at, ..g }
}

/// A grant under another token.
pub open spec fn retokened(token: Seq<char>, hash: Seq<char>) -> spec_fn(GrantRowView) -> GrantRowView {
    |g: GrantRowView| GrantRowView { token_hash: hash, share_token: Some(token), ..g }
}

/// The job `id`.
pub open spec fn job_is(id: Seq<char>) -> spec_fn(JobRowView) -> bool {
    |j: JobRowView| j.id == id
}

/// The job `id` of a tenant.
pub open spec fn job_in(tenant: Seq<char>, id: Seq<char>) -> spec_fn(JobRowView) -> bool {
    |j: JobRowView| j.id == id && j.tenant == tenant
}

/// The job `id` of a tenant, if it has ended.
pub open spec fn ended_job(tenant: Seq<char>, id: Seq<char>) -> spec_fn(JobRowView) -> bool {
    |j: JobRowView|
        j.id == id && j.tenant == tenant && (j.state == "retiring"@ || j.state == "retired"@
            || j.state == "suspended"@)
}

/// The end of a grant extended by `seconds` at time `now`: counted from its
/// present end, or from now where that has passed.
pub open spec fn extended_end(expires_at: i64, seconds: u64, now: u64) -> int {
    let present = natural(expires_at) as int;
    let from = if now > i64::MAX {
        i64::MAX as int
    } else {
        now as int
    };
    let base = if present > from {
        present
    } else {
        from
    };
    if base + seconds > i64::MAX {
        i64::MAX as int
    } else {
        base + seconds
    }
}

/// A grant extended, and its new end.
pub open spec fn extended(
    s: StoreView,
    tenant: Seq<char>,
    id: Seq<char>,
    seconds: u64,
    now: u64,
) -> Result<(StoreView, Option<u64>), Seq<char>> {
    if any(s.jobs, ended_job(tenant, id)) {
        Err("delivery is no longer active; create a new job"@)
    } else {
        match first(s.grants, unrevoked(tenant, id)) {
            None => Ok((s, None)),
            Some(g) => {
                let end = extended_end(g.expires_at, seconds, now);
                Ok(
                    (
                        StoreView {
                            grants: updated(s.grants, unrevoked(tenant, id), ending(end as i64)),
                            ..s
                        },
                        Some(end as u64),
                    ),
                )
            },
        }
    }
}

/// A grant under the token `token` with the digest `hash`. Another grant's
/// digest is refused; a grant that a job issued keeps its token.
pub open spec fn rotated(
    s: StoreView,
    tenant: Seq<char>,
    id: Seq<char>,
    token: Seq<char>,
    hash: Seq<char>,
) -> Result<(StoreView, bool), Seq<char>> {
    if any(s.jobs, job_is(id)) || !any(s.grants, unrevoked(tenant, id)) {
        Ok((s, false))
    } else if any(s.grants, other_with(tenant, id, hash)) {
        Err("UNIQUE constraint failed: outbound_grants.token_hash"@)
    } else {
        Ok(
            (
                StoreView {
                    grants: updated(s.grants, unrevoked(tenant, id), retokened(token, hash)),
                    ..s
                },
                true,
            ),
        )
    }
}

/// A grant other than `id` of `tenant` under a token digest.
pub open spec fn other_with(tenant: Seq<char>, id: Seq<char>, hash: Seq<char>) -> spec_fn(
    GrantRowView,
) -> bool {
    |g: GrantRowView| !unrevoked(tenant, id)(g) && g.token_hash == hash
}

/// The token that a grant was shared under, if its digest is still the grant's.
/// A grant that a job issued has the job's token.
pub open spec fn shared_token(s: StoreView, tenant: Seq<char>, id: Seq<char>) -> Option<
    (Seq<char>, Seq<char>),
> {
    match first(s.grants, unrevoked(tenant, id)) {
        None => None,
        Some(g) => {
            let token = match first(s.jobs, job_in(tenant, id)) {
                Some(job) => job.token,
                None => g.share_token,
            };
            match token {
                Some(token) => Some((token, g.token_hash)),
                None => None,
            }
        },
    }
}

/// The usable grants of a tenant for one received file.
pub open spec fn usable_for_file(
    tenant: Seq<char>,
    link_id: Seq<char>,
    upload_id: Seq<char>,
    file_index: i64,
    now: i64,
) -> spec_fn(GrantRowView) -> bool {
    |g: GrantRowView|
        g.tenant == tenant && g.link_id == link_id && g.upload_id == upload_id && g.file_index
            == file_index && usable_at(g, now)
}

/// The usable grants of a tenant for files of one link.
pub open spec fn usable_for_link(tenant: Seq<char>, link_id: Seq<char>, now: i64) -> spec_fn(
    GrantRowView,
) -> bool {
    |g: GrantRowView| g.tenant == tenant && g.link_id == link_id && usable_at(g, now)
}

/// The usable grants of a tenant.
pub open spec fn usable_in(tenant: Seq<char>, now: i64) -> spec_fn(GrantRowView) -> bool {
    |g: GrantRowView| g.tenant == tenant && usable_at(g, now)
}

/// Whether a manifest names a library file.
pub open spec fn names_source(files: Seq<OutboundGrantFileView>, source: Seq<char>) -> bool {
    exists|i: int| 0 <= i < files.len() && (#[trigger] files[i]).source == source
}

/// Whether one of `grants`, read in order, names a library file; a manifest
/// that does not decode stops the search, unless it is too brief to name one.
pub open spec fn some_names(grants: Seq<GrantRowView>, source: Seq<char>) -> Result<
    bool,
    Seq<char>,
>
    decreases grants.len(),
{
    if grants.len() == 0 {
        Ok(false)
    } else if grants[0].files_error is Some && !grants[0].files_brief {
        Err(undecoded("0"@, grants[0].files_error->0))
    } else if grants[0].files_error is Some {
        some_names(grants.skip(1), source)
    } else if names_source(grants[0].files, source) {
        Ok(true)
    } else {
        some_names(grants.skip(1), source)
    }
}

/// The refusal of a file index that is none.
pub open spec fn not_an_index() -> Seq<char> {
    "Conversion error from type Integer at index: 1, outbound grant file index is outside usize range"@
}

/// The received file that a grant is for.
pub open spec fn file_key() -> spec_fn(GrantRowView) -> Result<(Seq<char>, usize), Seq<char>> {
    |g: GrantRowView|
        if is_size(g.file_index) {
            Ok((g.upload_id, g.file_index as usize))
        } else {
            Err(not_an_index())
        }
}

/// The open grants.
pub open spec fn open_grants(now: i64) -> spec_fn(GrantRowView) -> bool {
    |g: GrantRowView| open_at(g, now)
}

/// The files of open grants.
pub open spec fn open_files(grants: Seq<GrantRowView>, now: i64) -> spec_fn(GrantFileRowView) -> bool {
    |f: GrantFileRowView| any(grants, open_grant_is(f.grant_id, now))
}

/// The grant `id`, if it is open.
pub open spec fn open_grant_is(id: Seq<char>, now: i64) -> spec_fn(GrantRowView) -> bool {
    |g: GrantRowView| g.id == id && open_at(g, now)
}

/// The grant `id`, if it is usable.
pub open spec fn usable_grant_is(id: Seq<char>, now: i64) -> spec_fn(GrantRowView) -> bool {
    |g: GrantRowView| g.id == id && usable_at(g, now)
}

/// An object by suite, root and length limbs.
pub type ObjectKey = (Seq<char>, Seq<char>, i64, i64);

/// The object that a grant is for.
pub open spec fn grant_object() -> spec_fn(GrantRowView) -> ObjectKey {
    |g: GrantRowView| (g.suite, g.root, g.bytes_hi, g.bytes_lo)
}

/// The object that a file of a grant is.
pub open spec fn file_object() -> spec_fn(GrantFileRowView) -> ObjectKey {
    |f: GrantFileRowView| (f.suite, f.root, f.bytes_hi, f.bytes_lo)
}

/// Objects in order of suite, root and length.
pub open spec fn object_lt() -> spec_fn(ObjectKey, ObjectKey) -> bool {
    |a: ObjectKey, b: ObjectKey|
        if a.0 != b.0 {
            text_lt(a.0, b.0)
        } else if a.1 != b.1 {
            text_lt(a.1, b.1)
        } else if a.2 != b.2 {
            a.2 < b.2
        } else {
            a.3 < b.3
        }
}

/// An object with its length joined.
pub open spec fn whole_object() -> spec_fn(ObjectKey) -> (Seq<char>, Seq<char>, u64) {
    |k: ObjectKey| (k.0, k.1, joined(k.2, k.3))
}

/// The grants that one of `hashes` looks up.
pub open spec fn looked_up(tenant: Seq<char>, hashes: Seq<Seq<char>>) -> spec_fn(GrantRowView) -> bool {
    |g: GrantRowView| g.tenant == tenant && hashes.contains(g.token_hash)
}

/// The digests that look up a grant of a tenant.
pub open spec fn looks_up(grants: Seq<GrantRowView>, tenant: Seq<char>) -> spec_fn(
    Seq<char>,
) -> bool {
    |hash: Seq<char>| any(grants, grant_of_hash(tenant, hash))
}

/// The grant of a tenant under a digest.
pub open spec fn grant_of_hash(tenant: Seq<char>, hash: Seq<char>) -> spec_fn(GrantRowView) -> bool {
    |g: GrantRowView| g.tenant == tenant && g.token_hash == hash
}

/// The grants' counters.
pub open spec fn counters(grants: Seq<GrantRowView>) -> Seq<i64> {
    grants.map_values(|g: GrantRowView| g.downloads)
}

/// The manifest recorded for a grant.
pub open spec fn manifest_of(grant_id: Seq<char>) -> spec_fn(GrantManifestRowView) -> bool {
    |m: GrantManifestRowView| m.grant_id == grant_id
}

/// The manifests of usable grants.
pub open spec fn servable(grants: Seq<GrantRowView>, now: i64) -> spec_fn(
    GrantManifestRowView,
) -> bool {
    |m: GrantManifestRowView| any(grants, usable_grant_is(m.grant_id, now))
}

/// A manifest under another root.
pub open spec fn remanifested(root: Seq<char>, at: i64) -> spec_fn(
    GrantManifestRowView,
) -> GrantManifestRowView {
    |m: GrantManifestRowView| GrantManifestRowView { manifest_root: root, created_at: at, ..m }
}

// ---------------------------------------------------------------- operations
fn is_usable(g: &GrantRow, now: i64) -> (r: bool)
    ensures
        r == usable_at(g@, now),
{
    g.revoked_at.is_none() && g.expires_at > now && match g.max_downloads {
        Some(max) => g.downloads < max,
        None => true,
    }
}

fn is_unrevoked(g: &GrantRow, tenant: &str, id: &str) -> (r: bool)
    ensures
        r == unrevoked(tenant@, id@)(g@),
{
    same(g.tenant.as_str(), tenant) && same(g.id.as_str(), id) && g.revoked_at.is_none()
}

fn has_source(files: &Vec<OutboundGrantFile>, source: &str) -> (r: bool)
    ensures
        r == names_source(files.deep_view(), source@),
{
    let mut i: usize = 0;
    while i < files.len()
        invariant
            i <= files.len(),
            forall|k: int| 0 <= k < i ==> (#[trigger] files.deep_view()[k]).source != source@,
        decreases files.len() - i,
    {
        if same(files[i].source.as_str(), source) {
            assert(files.deep_view()[i as int].source == source@);
            return true;
        }
        i += 1;
    }
    false
}

impl Store {
    /// Revokes a grant; reports whether there was one to revoke.
    pub fn revoke_outbound_grant(&mut self, tenant: &str, id: &str, at: u64) -> (r: Result<
        bool,
        String,
    >)
        ensures
            final(self)@ == crate::finality::with_revoked(old(self)@, tenant@, id@, column(at)),
            outcome(r) == Ok::<bool, Seq<char>>(any(old(self)@.grants, unrevoked(tenant@, id@))),
    {
        let at: i64 = to_column(at);
        let hit = |g: &GrantRow| -> (b: bool)
            ensures
                b == unrevoked(tenant@, id@)(g@),
        {
            is_unrevoked(g, tenant, id)
        };
        let change = |g: &GrantRow| -> (r: GrantRow)
            ensures
                r@ == revoked(at)(g@),
        {
            let mut g = g.dup();
            g.revoked_at = Some(at);
            g
        };
        proof {
            lemma_filter_any(self@.grants, unrevoked(tenant@, id@));
        }
        let changed: usize = update_where(
            &mut self.grants,
            hit,
            change,
            Ghost(unrevoked(tenant@, id@)),
            Ghost(revoked(at)),
        );
        Ok(changed > 0)
    }

    /// Puts a grant under another token; reports whether there was one.
    pub fn rotate_outbound_grant_token(&mut self, tenant: &str, id: &str, bearer: &Bearer) -> (r: Result<
        bool,
        String,
    >)
        ensures
            follows(
                rotated(old(self)@, tenant@, id@, bearer.token@, bearer.hash@),
                old(self)@,
                final(self)@,
                r,
            ),
    {
        let named = |j: &JobRow| -> (b: bool)
            ensures
                b == job_is(id@)(j@),
        {
            same(j.id.as_str(), id)
        };
        if exists_where(&self.jobs, named, Ghost(job_is(id@))) {
            return Ok(false);
        }
        let hit = |g: &GrantRow| -> (b: bool)
            ensures
                b == unrevoked(tenant@, id@)(g@),
        {
            is_unrevoked(g, tenant, id)
        };
        let taken = |g: &GrantRow| -> (b: bool)
            ensures
                b == other_with(tenant@, id@, bearer.hash@)(g@),
        {
            !is_unrevoked(g, tenant, id) && same(g.token_hash.as_str(), bearer.hash.as_str())
        };
        let change = |g: &GrantRow| -> (r: GrantRow)
            ensures
                r@ == retokened(bearer.token@, bearer.hash@)(g@),
        {
            let mut g = g.dup();
            g.token_hash = bearer.hash.clone();
            g.share_token = Some(bearer.token.clone());
            g
        };
        if !exists_where(&self.grants, hit, Ghost(unrevoked(tenant@, id@))) {
            return Ok(false);
        }
        if exists_where(&self.grants, taken, Ghost(other_with(tenant@, id@, bearer.hash@))) {
            return Err("UNIQUE constraint failed: outbound_grants.token_hash".to_owned());
        }
        update_where(
            &mut self.grants,
            hit,
            change,
            Ghost(unrevoked(tenant@, id@)),
            Ghost(retokened(bearer.token@, bearer.hash@)),
        );
        Ok(true)
    }

    /// Extends a grant by `seconds` and returns its new end.
    pub fn extend_outbound_grant(&mut self, tenant: &str, id: &str, seconds: u64, now: u64) -> (r: Result<
        Option<u64>,
        String,
    >)
        ensures
            follows(
                extended(old(self)@, tenant@, id@, seconds, now),
                old(self)@,
                final(self)@,
                r,
            ),
    {
        let ended = |j: &JobRow| -> (b: bool)
            ensures
                b == ended_job(tenant@, id@)(j@),
        {
            same(j.id.as_str(), id) && same(j.tenant.as_str(), tenant) && (same(
                j.state.as_str(),
                "retiring",
            ) || same(j.state.as_str(), "retired") || same(j.state.as_str(), "suspended"))
        };
        if exists_where(&self.jobs, ended, Ghost(ended_job(tenant@, id@))) {
            return Err("delivery is no longer active; create a new job".to_owned());
        }
        let hit = |g: &GrantRow| -> (b: bool)
            ensures
                b == unrevoked(tenant@, id@)(g@),
        {
            is_unrevoked(g, tenant, id)
        };
        let found = match find(&self.grants, hit, Ghost(unrevoked(tenant@, id@))) {
            Some(found) => found,
            None => {
                return Ok(None);
            },
        };
        let present: u64 = from_column(self.grants[found].expires_at);
        let from: u64 = if now > i64::MAX as u64 {
            i64::MAX as u64
        } else {
            now
        };
        let base: u64 = if present > from {
            present
        } else {
            from
        };
        let sum: u64 = base.saturating_add(seconds);
        let end: u64 = if sum > i64::MAX as u64 {
            i64::MAX as u64
        } else {
            sum
        };
        let column_end: i64 = end as i64;
        let change = |g: &GrantRow| -> (r: GrantRow)
            ensures
                r@ == ending(column_end)(g@),
        {
            let mut g = g.dup();
            g.expires_at = column_end;
            g
        };
        update_where(
            &mut self.grants,
            hit,
            change,
            Ghost(unrevoked(tenant@, id@)),
            Ghost(ending(column_end)),
        );
        Ok(Some(end))
    }

    /// The token that a grant was shared under, where `digest` is that token's
    /// digest: a token that no longer looks up its grant is kept back.
    pub fn outbound_share_token(&self, tenant: &str, id: &str, digest: &str) -> (r: Result<
        Option<String>,
        String,
    >)
        ensures
            outcome(r) == Ok::<Option<Seq<char>>, Seq<char>>(
                crate::standing::token_told(self@, tenant@, id@, digest@),
            ),
    {
        match self.stored_share_token(tenant, id) {
            Some((token, hash)) => if same(hash.as_str(), digest) {
                Ok(Some(token))
            } else {
                Ok(None)
            },
            None => Ok(None),
        }
    }

    /// The token that a grant was shared under, and the digest that the grant is
    /// looked up by.
    pub fn stored_share_token(&self, tenant: &str, id: &str) -> (r: Option<(String, String)>)
        ensures
            r.deep_view() == shared_token(self@, tenant@, id@),
    {
        let hit = |g: &GrantRow| -> (b: bool)
            ensures
                b == unrevoked(tenant@, id@)(g@),
        {
            is_unrevoked(g, tenant, id)
        };
        let job = |j: &JobRow| -> (b: bool)
            ensures
                b == job_in(tenant@, id@)(j@),
        {
            same(j.id.as_str(), id) && same(j.tenant.as_str(), tenant)
        };
        let found = match find(&self.grants, hit, Ghost(unrevoked(tenant@, id@))) {
            Some(found) => found,
            None => {
                return None;
            },
        };
        let token = match find(&self.jobs, job, Ghost(job_in(tenant@, id@))) {
            Some(at) => dup_option(&self.jobs[at].token),
            None => dup_option(&self.grants[found].share_token),
        };
        match token {
            Some(token) => Some((token, self.grants[found].token_hash.clone())),
            None => None,
        }
    }

    /// Whether a tenant has a usable grant for one received file.
    pub fn has_active_outbound_grant(
        &self,
        tenant: &str,
        link_id: &str,
        upload_id: &str,
        file_index: usize,
        now: u64,
    ) -> (r: Result<bool, String>)
        ensures
            outcome(r) == Ok::<bool, Seq<char>>(
                any(
                    self@.grants,
                    usable_for_file(
                        tenant@,
                        link_id@,
                        upload_id@,
                        column(file_index as u64),
                        column(now),
                    ),
                ),
            ),
    {
        let at: i64 = to_column(now);
        let index: i64 = size_to_column(file_index);
        let hit = |g: &GrantRow| -> (b: bool)
            ensures
                b == usable_for_file(tenant@, link_id@, upload_id@, index, at)(g@),
        {
            same(g.tenant.as_str(), tenant) && same(g.link_id.as_str(), link_id) && same(
                g.upload_id.as_str(),
                upload_id,
            ) && g.file_index == index && is_usable(g, at)
        };
        Ok(
            exists_where(
                &self.grants,
                hit,
                Ghost(usable_for_file(tenant@, link_id@, upload_id@, index, at)),
            ),
        )
    }

    /// Whether a tenant has a usable grant that names a library file.
    pub fn has_active_library_grant(&self, tenant: &str, source: &str, now: u64) -> (r: Result<
        bool,
        String,
    >)
        ensures
            outcome(r) == some_names(
                self@.grants.filter(usable_in(tenant@, column(now))),
                source@,
            ),
    {
        let at: i64 = to_column(now);
        let hit = |g: &GrantRow| -> (b: bool)
            ensures
                b == usable_in(tenant@, at)(g@),
        {
            same(g.tenant.as_str(), tenant) && is_usable(g, at)
        };
        let rows = select(&self.grants, hit, Ghost(usable_in(tenant@, at)));
        let ghost all = rows.deep_view();
        let mut i: usize = 0;
        assert(all.skip(0) =~= all);
        while i < rows.len()
            invariant
                i <= rows.len(),
                all == rows.deep_view(),
                all == self@.grants.filter(usable_in(tenant@, column(now))),
                some_names(all, source@) == some_names(all.skip(i as int), source@),
            decreases rows.len() - i,
        {
            assert(all.skip(i as int).skip(1) =~= all.skip(i + 1));
            assert(all.skip(i as int)[0] == rows@[i as int]@);
            if let Some(error) = &rows[i].files_error {
                if rows[i].files_brief {
                    i += 1;
                    continue;
                }
                return Err(decode_error("0", error.as_str()));
            }
            if has_source(&rows[i].files, source) {
                return Ok(true);
            }
            i += 1;
        }
        Ok(false)
    }

    /// The received files of a link that a tenant's usable grants are for.
    pub fn active_outbound_file_keys(&self, tenant: &str, link_id: &str, now: u64) -> (r: Result<
        Vec<(String, usize)>,
        String,
    >)
        ensures
            outcome(r) == try_map(
                self@.grants.filter(usable_for_link(tenant@, link_id@, column(now))),
                file_key(),
            ),
    {
        let at: i64 = to_column(now);
        let hit = |g: &GrantRow| -> (b: bool)
            ensures
                b == usable_for_link(tenant@, link_id@, at)(g@),
        {
            same(g.tenant.as_str(), tenant) && same(g.link_id.as_str(), link_id) && is_usable(g, at)
        };
        let read = |g: &GrantRow| -> (r: Result<(String, usize), String>)
            ensures
                outcome(r) == file_key()(g@),
        {
            if holds_size(g.file_index) {
                Ok((g.upload_id.clone(), g.file_index as usize))
            } else {
                Err(
                    "Conversion error from type Integer at index: 1, outbound grant file index is outside usize range".to_owned(),
                )
            }
        };
        let rows = select(&self.grants, hit, Ghost(usable_for_link(tenant@, link_id@, at)));
        try_project(&rows, read, Ghost(file_key()))
    }

    /// Whether a tenant has a usable grant for a file of a link.
    pub fn link_has_active_outbound_grants(&self, tenant: &str, link_id: &str, now: u64) -> (r: Result<
        bool,
        String,
    >)
        ensures
            outcome(r) == Ok::<bool, Seq<char>>(
                any(self@.grants, usable_for_link(tenant@, link_id@, column(now))),
            ),
    {
        let at: i64 = to_column(now);
        let hit = |g: &GrantRow| -> (b: bool)
            ensures
                b == usable_for_link(tenant@, link_id@, at)(g@),
        {
            same(g.tenant.as_str(), tenant) && same(g.link_id.as_str(), link_id) && is_usable(g, at)
        };
        Ok(exists_where(&self.grants, hit, Ghost(usable_for_link(tenant@, link_id@, at))))
    }

    /// The objects that open grants of any tenant refer to, each once, in order
    /// of suite, root and length.
    pub fn active_outbound_object_keys(&self, now: u64) -> (r: Result<
        Vec<(String, String, u64)>,
        String,
    >)
        ensures
            outcome(r) == Ok::<Seq<(Seq<char>, Seq<char>, u64)>, Seq<char>>(
                crate::standing::objects_held(self@, column(now)),
            ),
    {
        let at: i64 = to_column(now);
        let grants = &self.grants;
        let open = |g: &GrantRow| -> (b: bool)
            ensures
                b == open_grants(at)(g@),
        {
            g.revoked_at.is_none() && g.expires_at > at
        };
        let open_file = |f: &GrantFileRow| -> (b: bool)
            ensures
                b == open_files(grants.deep_view(), at)(f@),
        {
            let owner = |g: &GrantRow| -> (b: bool)
                ensures
                    b == open_grant_is(f.grant_id@, at)(g@),
            {
                same(g.id.as_str(), f.grant_id.as_str()) && g.revoked_at.is_none() && g.expires_at
                    > at
            };
            exists_where(grants, owner, Ghost(open_grant_is(f.grant_id@, at)))
        };
        let object = |g: &GrantRow| -> (k: (String, String, i64, i64))
            ensures
                k.deep_view() == grant_object()(g@),
        {
            (g.suite.clone(), g.root.clone(), g.bytes_hi, g.bytes_lo)
        };
        let child = |f: &GrantFileRow| -> (k: (String, String, i64, i64))
            ensures
                k.deep_view() == file_object()(f@),
        {
            (f.suite.clone(), f.root.clone(), f.bytes_hi, f.bytes_lo)
        };
        let equal = |a: &(String, String, i64, i64), b: &(String, String, i64, i64)| -> (r: bool)
            ensures
                r == (a.deep_view() == b.deep_view()),
        {
            same(a.0.as_str(), b.0.as_str()) && same(a.1.as_str(), b.1.as_str()) && a.2 == b.2
                && a.3 == b.3
        };
        let before = |a: &(String, String, i64, i64), b: &(String, String, i64, i64)| -> (r: bool)
            ensures
                r == object_lt()(a.deep_view(), b.deep_view()),
        {
            if !same(a.0.as_str(), b.0.as_str()) {
                lt(a.0.as_str(), b.0.as_str())
            } else if !same(a.1.as_str(), b.1.as_str()) {
                lt(a.1.as_str(), b.1.as_str())
            } else if a.2 != b.2 {
                a.2 < b.2
            } else {
                a.3 < b.3
            }
        };
        let whole = |k: &(String, String, i64, i64)| -> (r: (String, String, u64))
            ensures
                r.deep_view() == whole_object()(k.deep_view()),
        {
            (k.0.clone(), k.1.clone(), combine_byte_sums(k.2, k.3))
        };
        let parents = select(grants, open, Ghost(open_grants(at)));
        let files = select(&self.grant_files, open_file, Ghost(open_files(grants.deep_view(), at)));
        let mut keys = project(&parents, object, Ghost(grant_object()));
        let more = project(&files, child, Ghost(file_object()));
        append_rows(&mut keys, &more);
        let keys = distinct_rows(&keys, equal);
        let keys = sort_rows(keys, before, Ghost(object_lt()));
        Ok(project(&keys, whole, Ghost(whole_object())))
    }

    /// Counts over a tenant's grants: those usable now, their downloads, and
    /// those that one of `active_hashes` looks up.
    pub fn outbound_summary(&self, tenant: &str, now: u64, active_hashes: &[String]) -> (r: Result<
        OutboundSummary,
        String,
    >)
        ensures
            outcome(r) == crate::standing::summary_of(
                self@,
                tenant@,
                column(now),
                texts(active_hashes@),
            ),
    {
        let at: i64 = to_column(now);
        let hashes = to_list(active_hashes);
        let usable = |g: &GrantRow| -> (b: bool)
            ensures
                b == usable_in(tenant@, at)(g@),
        {
            same(g.tenant.as_str(), tenant) && is_usable(g, at)
        };
        let active = |g: &GrantRow| -> (b: bool)
            ensures
                b == looked_up(tenant@, hashes.deep_view())(g@),
        {
            same(g.tenant.as_str(), tenant) && list_has(&hashes, g.token_hash.as_str())
        };
        let scope = |g: &GrantRow| -> (b: bool)
            ensures
                b == grant_in(tenant@)(g@),
        {
            same(g.tenant.as_str(), tenant)
        };
        let open: usize = count_where(&self.grants, usable, Ghost(usable_in(tenant@, at)));
        let busy: usize = count_where(
            &self.grants,
            active,
            Ghost(looked_up(tenant@, hashes.deep_view())),
        );
        let rows = select(&self.grants, scope, Ghost(grant_in(tenant@)));
        match sum_downloads(&rows) {
            Some(deliveries) => Ok(
                OutboundSummary {
                    open_grants: open as u64,
                    deliveries: from_column(deliveries),
                    active: busy as u64,
                },
            ),
            None => Err("integer overflow".to_owned()),
        }
    }

    /// How many different of `active_hashes` look up a grant of a tenant.
    pub fn outbound_active_count(&self, tenant: &str, active_hashes: &[String]) -> (r: Result<
        u64,
        String,
    >)
        ensures
            outcome(r) == Ok::<u64, Seq<char>>(
                count(distinct(texts(active_hashes@)), looks_up(self@.grants, tenant@)) as u64,
            ),
    {
        let grants = &self.grants;
        let equal = |a: &String, b: &String| -> (r: bool)
            ensures
                r == (a.deep_view() == b.deep_view()),
        {
            same(a.as_str(), b.as_str())
        };
        let known = |hash: &String| -> (b: bool)
            ensures
                b == looks_up(grants.deep_view(), tenant@)(hash@),
        {
            let hit = |g: &GrantRow| -> (b: bool)
                ensures
                    b == grant_of_hash(tenant@, hash@)(g@),
            {
                same(g.tenant.as_str(), tenant) && same(g.token_hash.as_str(), hash.as_str())
            };
            exists_where(grants, hit, Ghost(grant_of_hash(tenant@, hash@)))
        };
        let hashes = to_list(active_hashes);
        let hashes = distinct_rows(&hashes, equal);
        Ok(count_where(&hashes, known, Ghost(looks_up(grants.deep_view(), tenant@))) as u64)
    }

    /// The root of the manifest recorded for a grant.
    pub fn outbound_grant_manifest_root(&self, grant_id: &str) -> (r: Result<Option<String>, String>)
        ensures
            outcome(r) == Ok::<Option<Seq<char>>, Seq<char>>(
                crate::answers::root_told(self@, grant_id@),
            ),
    {
        let hit = |m: &GrantManifestRow| -> (b: bool)
            ensures
                b == manifest_of(grant_id@)(m@),
        {
            same(m.grant_id.as_str(), grant_id)
        };
        match find(&self.grant_manifests, hit, Ghost(manifest_of(grant_id@))) {
            Some(found) => Ok(Some(self.grant_manifests[found].manifest_root.clone())),
            None => Ok(None),
        }
    }

    /// Records the root of a grant's manifest, in place of an earlier one.
    pub fn put_outbound_grant_manifest(&mut self, grant_id: &str, manifest_root: &str, now: u64) -> (r: Result<
        (),
        String,
    >)
        ensures
            r is Ok,
            final(self)@ == crate::answers::with_manifest(old(self)@, grant_id@, manifest_root@, now),
    {
        let at: i64 = to_wrapped(now);
        let hit = |m: &GrantManifestRow| -> (b: bool)
            ensures
                b == manifest_of(grant_id@)(m@),
        {
            same(m.grant_id.as_str(), grant_id)
        };
        let change = |m: &GrantManifestRow| -> (r: GrantManifestRow)
            ensures
                r@ == remanifested(manifest_root@, at)(m@),
        {
            GrantManifestRow {
                grant_id: m.grant_id.clone(),
                manifest_root: manifest_root.to_owned(),
                created_at: at,
            }
        };
        if exists_where(&self.grant_manifests, hit, Ghost(manifest_of(grant_id@))) {
            update_where(
                &mut self.grant_manifests,
                hit,
                change,
                Ghost(manifest_of(grant_id@)),
                Ghost(remanifested(manifest_root@, at)),
            );
        } else {
            append_row(
                &mut self.grant_manifests,
                GrantManifestRow {
                    grant_id: grant_id.to_owned(),
                    manifest_root: manifest_root.to_owned(),
                    created_at: at,
                },
            );
        }
        Ok(())
    }

    /// The manifest roots of usable grants.
    pub fn servable_manifest_roots(&self, now: u64) -> (r: Result<Vec<String>, String>)
        ensures
            outcome(r) == Ok::<Seq<Seq<char>>, Seq<char>>(
                crate::answers::roots_served(self@, wrapped(now)),
            ),
    {
        let at: i64 = to_wrapped(now);
        let grants = &self.grants;
        let hit = |m: &GrantManifestRow| -> (b: bool)
            ensures
                b == servable(grants.deep_view(), at)(m@),
        {
            let owner = |g: &GrantRow| -> (b: bool)
                ensures
                    b == usable_grant_is(m.grant_id@, at)(g@),
            {
                same(g.id.as_str(), m.grant_id.as_str()) && is_usable(g, at)
            };
            exists_where(grants, owner, Ghost(usable_grant_is(m.grant_id@, at)))
        };
        let root = |m: &GrantManifestRow| -> (r: String)
            ensures
                r.deep_view() == manifest_root_of()(m@),
        {
            m.manifest_root.clone()
        };
        let rows = select(&self.grant_manifests, hit, Ghost(servable(grants.deep_view(), at)));
        Ok(project(&rows, root, Ghost(manifest_root_of())))
    }
}

/// The root of a recorded manifest.
pub open spec fn manifest_root_of() -> spec_fn(GrantManifestRowView) -> Seq<char> {
    |m: GrantManifestRowView| m.manifest_root
}

/// The sum of the counters, where no partial sum leaves the column's range.
fn sum_downloads(rows: &Vec<GrantRow>) -> (sum: Option<i64>)
    ensures
        sum == column_sum(counters(rows.deep_view())),
{
    let ghost all = counters(rows.deep_view());
    let mut sum: i64 = 0;
    let mut i: usize = 0;
    assert(all.take(0) =~= Seq::<i64>::empty());
    while i < rows.len()
        invariant
            i <= rows.len(),
            all == counters(rows.deep_view()),
            column_sum(all.take(i as int)) == Some(sum),
        decreases rows.len() - i,
    {
        proof {
            assert(all.take(i + 1).drop_last() =~= all.take(i as int));
            assert(all.take(i + 1).last() == rows@[i as int]@.downloads);
        }
        match sum.checked_add(rows[i].downloads) {
            Some(next) => {
                sum = next;
            },
            None => {
                proof {
                    lemma_sum_overflow(all, i + 1);
                }
                return None;
            },
        }
        i += 1;
    }
    assert(all.take(i as int) =~= all);
    Some(sum)
}

} // verus!
