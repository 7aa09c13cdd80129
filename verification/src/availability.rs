//! Which deliveries are still there: what may be fetched, and what is swept.
use vstd::prelude::*;

use crate::columns::{column, to_column, to_wrapped, wrapped};
use crate::downloads::grant_is;
use crate::grants::{grant_with, listed, map_outbound_grant_page};
use crate::lifecycle::{servable, usable_grant_is};
use crate::notifications::grant_at;
use crate::records::OutboundGrant;
use crate::rows::{
    DigestRow, DigestRowView, EvidenceRow, EvidenceRowView, GrantFileRow, GrantFileRowView,
    GrantManifestRow, GrantManifestRowView, GrantRow, GrantRowView, JobRow, JobRowView, TicketRow,
    TicketRowView,
};
use crate::store::{Store, StoreView};
use crate::table::{
    any, count, delete_where, exists_where, find, keep_where, outcome, project, select,
};
use crate::text::{all_ascii, ascii_fold, chars, folded, same, same_chars};

verus! {

// ------------------------------------------------------------ specifications
/// The grant of a built manifest.
pub open spec fn manifest_grant() -> spec_fn(GrantManifestRowView) -> Seq<char> {
    |m: GrantManifestRowView| m.grant_id
}

/// The job of a grant that has not retired.
pub open spec fn working_job(id: Seq<char>) -> spec_fn(JobRowView) -> bool {
    |j: JobRowView| j.id == id && j.state != "retired"@
}

/// A grant that is revoked and expired, and that no job needs.
pub open spec fn purgeable(jobs: Seq<JobRowView>, now: i64) -> spec_fn(GrantRowView) -> bool {
    |g: GrantRowView| g.revoked_at is Some && g.expires_at <= now && !any(jobs, working_job(g.id))
}

/// Every other grant.
pub open spec fn unpurgeable(jobs: Seq<JobRowView>, now: i64) -> spec_fn(GrantRowView) -> bool {
    |g: GrantRowView| !purgeable(jobs, now)(g)
}

/// The store after the sweep, and how many grants it removed.
pub open spec fn swept(s: StoreView, now: i64) -> (StoreView, nat) {
    let purged = count(s.grants, purgeable(s.jobs, now));
    let left = s.grants.filter(unpurgeable(s.jobs, now));
    if purged == 0 {
        (s, 0)
    } else {
        (
            StoreView {
                grants: left,
                grant_files: s.grant_files.filter(
                    |f: GrantFileRowView| any(left, grant_is(f.grant_id)),
                ),
                digests: s.digests.filter(|d: DigestRowView| any(left, grant_is(d.grant_id))),
                evidence: s.evidence.filter(|e: EvidenceRowView| any(left, grant_is(e.grant_id))),
                policy_cache: s.policy_cache.filter(|id: Seq<char>| any(left, grant_is(id))),
                grant_manifests: s.grant_manifests.filter(
                    |m: GrantManifestRowView| any(left, grant_is(m.grant_id)),
                ),
                tickets: s.tickets.filter(|t: TicketRowView| any(left, grant_is(t.grant_id))),
                ..s
            },
            purged,
        )
    }
}

/// A grant of a tenant that was not revoked.
pub open spec fn live_grant(id: Seq<char>, tenant: Seq<char>) -> spec_fn(GrantRowView) -> bool {
    |g: GrantRowView| g.id == id && g.tenant == tenant && g.revoked_at is None
}

/// The files of a tenant's grants that were not revoked.
pub open spec fn served_in(grants: Seq<GrantRowView>, tenant: Seq<char>) -> spec_fn(
    GrantFileRowView,
) -> bool {
    |f: GrantFileRowView| any(grants, live_grant(f.grant_id, tenant))
}

/// Files of a library path, ASCII letters taken without case.
pub open spec fn sourced_as(source: Seq<char>) -> spec_fn(GrantFileRowView) -> bool {
    |f: GrantFileRowView| ascii_fold(f.source) == ascii_fold(source)
}

/// Whether `fold` gives this for a path.
pub open spec fn folds<F: Fn(&str) -> String>(fold: F, path: Seq<char>, r: Seq<char>) -> bool {
    exists|p: &str, s: String| p@ == path && s@ == r && #[trigger] fold.ensures((p,), s)
}

// ---------------------------------------------------------------------- laws
/// The sweep leaves no row of a grant that it removed, and keeps the events.
pub proof fn sweeping_leaves_no_trace(s: StoreView, now: i64, id: Seq<char>)
    requires
        swept(s, now).1 > 0,
        !any(swept(s, now).0.grants, grant_is(id)),
    ensures
        ({
            let after = swept(s, now).0;
            &&& forall|i: int|
                0 <= i < after.grant_files.len() ==> (#[trigger] after.grant_files[i]).grant_id
                    != id
            &&& forall|i: int|
                0 <= i < after.tickets.len() ==> (#[trigger] after.tickets[i]).grant_id != id
            &&& forall|i: int|
                0 <= i < after.evidence.len() ==> (#[trigger] after.evidence[i]).grant_id != id
            &&& forall|i: int|
                0 <= i < after.digests.len() ==> (#[trigger] after.digests[i]).grant_id != id
            &&& after.events == s.events
        }),
{
    let left = s.grants.filter(unpurgeable(s.jobs, now));
    crate::table::lemma_filter_any_of(
        s.grant_files,
        |f: GrantFileRowView| any(left, grant_is(f.grant_id)),
    );
    crate::table::lemma_filter_any_of(
        s.tickets,
        |t: TicketRowView| any(left, grant_is(t.grant_id)),
    );
    crate::table::lemma_filter_any_of(
        s.evidence,
        |e: EvidenceRowView| any(left, grant_is(e.grant_id)),
    );
    crate::table::lemma_filter_any_of(
        s.digests,
        |d: DigestRowView| any(left, grant_is(d.grant_id)),
    );
}

// ---------------------------------------------------------------- operations
fn has_grant(grants: &Vec<GrantRow>, id: &str) -> (r: bool)
    ensures
        r == any(grants.deep_view(), grant_is(id@)),
{
    let hit = |g: &GrantRow| -> (b: bool)
        ensures
            b == grant_is(id@)(g@),
    {
        same(g.id.as_str(), id)
    };
    exists_where(grants, hit, Ghost(grant_is(id@)))
}

fn is_purgeable(jobs: &Vec<JobRow>, g: &GrantRow, now: i64) -> (r: bool)
    ensures
        r == purgeable(jobs.deep_view(), now)(g@),
{
    let id = g.id.as_str();
    let hit = |j: &JobRow| -> (b: bool)
        ensures
            b == working_job(id@)(j@),
    {
        same(j.id.as_str(), id) && !same(j.state.as_str(), "retired")
    };
    g.revoked_at.is_some() && g.expires_at <= now && !exists_where(
        jobs,
        hit,
        Ghost(working_job(id@)),
    )
}

fn only_ascii(s: &str) -> (r: bool)
    ensures
        r == all_ascii(s@),
{
    let v = chars(s);
    let mut i: usize = 0;
    while i < v.len()
        invariant
            i <= v.len(),
            v@ == s@,
            forall|k: int| 0 <= k < i ==> '\x7f' >= #[trigger] s@[k],
        decreases v.len() - i,
    {
        if v[i] > '\x7f' {
            assert(!('\x7f' >= s@[i as int]));
            return false;
        }
        i += 1;
    }
    true
}

impl Store {
    /// A tenant's grant as listed, with its number of files: its manifest only
    /// where it has at most `file_preview_limit` files.
    pub fn outbound_grant_preview(&self, tenant: &str, id: &str, file_preview_limit: usize) -> (r: Result<
        Option<(OutboundGrant, usize)>,
        String,
    >)
        ensures
            outcome(r) == crate::answers::preview_told(self@, tenant@, id@, file_preview_limit),
    {
        if file_preview_limit as u64 > i64::MAX as u64 {
            return Err("outbound grant file preview limit overflow".to_owned());
        }
        let hit = |g: &GrantRow| -> (b: bool)
            ensures
                b == grant_at(tenant@, id@)(g@),
        {
            same(g.tenant.as_str(), tenant) && same(g.id.as_str(), id)
        };
        match find(&self.grants, hit, Ghost(grant_at(tenant@, id@))) {
            Some(found) => match map_outbound_grant_page(
                &self.grant_files,
                &self.grants[found],
                file_preview_limit as i64,
            ) {
                Ok(grant) => Ok(Some(grant)),
                Err(error) => Err(error),
            },
            None => Ok(None),
        }
    }

    /// Whether the grant under a token still admits downloads: it is there, not
    /// revoked and not expired.
    pub fn outbound_grant_admits(&self, token_hash: &str, now: u64) -> (r: Result<bool, String>)
        ensures
            outcome(r) == Ok::<bool, Seq<char>>(
                crate::standing::admits(self@, token_hash@, wrapped(now)),
            ),
    {
        let hit = |g: &GrantRow| -> (b: bool)
            ensures
                b == grant_with(token_hash@)(g@),
        {
            same(g.token_hash.as_str(), token_hash)
        };
        match find(&self.grants, hit, Ghost(grant_with(token_hash@))) {
            Some(found) => {
                let g = &self.grants[found];
                Ok(g.revoked_at.is_none() && g.expires_at > to_wrapped(now))
            },
            None => Ok(false),
        }
    }

    /// Whether a grant is there and not revoked.
    pub fn outbound_grant_is_non_revoked(&self, grant_id: &str) -> (r: Result<bool, String>)
        ensures
            outcome(r) == Ok::<bool, Seq<char>>(crate::standing::is_live(self@, grant_id@)),
    {
        let hit = |g: &GrantRow| -> (b: bool)
            ensures
                b == (|g: GrantRowView| g.id == grant_id@ && g.revoked_at is None)(g@),
        {
            same(g.id.as_str(), grant_id) && g.revoked_at.is_none()
        };
        Ok(
            exists_where(
                &self.grants,
                hit,
                Ghost(|g: GrantRowView| g.id == grant_id@ && g.revoked_at is None),
            ),
        )
    }

    /// Whether a tenant has a grant at all, revoked or not.
    pub fn outbound_grant_exists(&self, tenant: &str, id: &str) -> (r: Result<bool, String>)
        ensures
            outcome(r) == Ok::<bool, Seq<char>>(any(self@.grants, grant_at(tenant@, id@))),
    {
        let hit = |g: &GrantRow| -> (b: bool)
            ensures
                b == grant_at(tenant@, id@)(g@),
        {
            same(g.tenant.as_str(), tenant) && same(g.id.as_str(), id)
        };
        Ok(exists_where(&self.grants, hit, Ghost(grant_at(tenant@, id@))))
    }

    /// The grants with a built manifest that may still be fetched.
    pub fn servable_grant_ids(&self, now: u64) -> (r: Result<Vec<String>, String>)
        ensures
            outcome(r) == Ok::<Seq<Seq<char>>, Seq<char>>(
                crate::answers::grants_served(self@, wrapped(now)),
            ),
    {
        let at: i64 = to_wrapped(now);
        let grants = &self.grants;
        let keep = |m: &GrantManifestRow| -> (b: bool)
            ensures
                b == servable(grants.deep_view(), at)(m@),
        {
            let id = m.grant_id.as_str();
            let hit = |g: &GrantRow| -> (b: bool)
                ensures
                    b == usable_grant_is(id@, at)(g@),
            {
                same(g.id.as_str(), id) && g.revoked_at.is_none() && g.expires_at > at
                    && match g.max_downloads {
                    Some(max) => g.downloads < max,
                    None => true,
                }
            };
            exists_where(grants, hit, Ghost(usable_grant_is(id@, at)))
        };
        let id_of = |m: &GrantManifestRow| -> (r: String)
            ensures
                r.deep_view() == manifest_grant()(m@),
        {
            m.grant_id.clone()
        };
        let rows = select(
            &self.grant_manifests,
            keep,
            Ghost(servable(grants.deep_view(), at)),
        );
        Ok(project(&rows, id_of, Ghost(manifest_grant())))
    }

    /// Whether a library file is served by a tenant's grant that was not revoked,
    /// expired or not: by its path, ASCII letters taken without case, or for a path that
    /// is not all ASCII by what `fold` makes of the paths.
    pub fn serves_library_file<F: Fn(&str) -> String>(
        &self,
        tenant: &str,
        source: &str,
        fold: &F,
    ) -> (r: Result<bool, String>)
        requires
            forall|p: &str| fold.requires((p,)),
        ensures
            ({
                let files = self@.grant_files.filter(served_in(self@.grants, tenant@));
                r matches Ok(served) && if any(files, sourced_as(source@)) {
                    served
                } else if all_ascii(source@) {
                    !served
                } else {
                    exists|wanted: Seq<char>|
                        (#[trigger] folds(*fold, source@, wanted)) && if served {
                            exists|i: int|
                                0 <= i < files.len() && folds(
                                    *fold,
                                    (#[trigger] files[i]).source,
                                    wanted,
                                )
                        } else {
                            forall|i: int|
                                0 <= i < files.len() ==> exists|other: Seq<char>|
                                    other != wanted && #[trigger] folds(
                                        *fold,
                                        (#[trigger] files[i]).source,
                                        other,
                                    )
                        }
                }
            }),
    {
        let grants = &self.grants;
        let keep = |f: &GrantFileRow| -> (b: bool)
            ensures
                b == served_in(grants.deep_view(), tenant@)(f@),
        {
            let id = f.grant_id.as_str();
            let hit = |g: &GrantRow| -> (b: bool)
                ensures
                    b == live_grant(id@, tenant@)(g@),
            {
                same(g.id.as_str(), id) && same(g.tenant.as_str(), tenant) && g.revoked_at.is_none()
            };
            exists_where(grants, hit, Ghost(live_grant(id@, tenant@)))
        };
        let files = select(
            &self.grant_files,
            keep,
            Ghost(served_in(grants.deep_view(), tenant@)),
        );
        let ghost all = files.deep_view();
        let path = folded(source);
        let spelled = |f: &GrantFileRow| -> (b: bool)
            ensures
                b == sourced_as(source@)(f@),
        {
            same_chars(&folded(f.source.as_str()), &path)
        };
        if exists_where(&files, spelled, Ghost(sourced_as(source@))) {
            return Ok(true);
        }
        if only_ascii(source) {
            return Ok(false);
        }
        let wanted = fold(source);
        assert(folds(*fold, source@, wanted@));
        let mut i: usize = 0;
        while i < files.len()
            invariant
                i <= files.len(),
                all == files.deep_view(),
                all == self@.grant_files.filter(served_in(self@.grants, tenant@)),
                !any(all, sourced_as(source@)),
                !all_ascii(source@),
                forall|p: &str| fold.requires((p,)),
                folds(*fold, source@, wanted@),
                forall|k: int|
                    0 <= k < i ==> exists|other: Seq<char>|
                        other != wanted@ && #[trigger] folds(
                            *fold,
                            (#[trigger] all[k]).source,
                            other,
                        ),
            decreases files.len() - i,
        {
            let path = files[i].source.as_str();
            let mine = fold(path);
            assert(all[i as int].source == path@);
            assert(folds(*fold, all[i as int].source, mine@));
            if same(mine.as_str(), wanted.as_str()) {
                return Ok(true);
            }
            i += 1;
        }
        Ok(false)
    }

    /// Removes the grants that are revoked and expired and that no job needs, with
    /// everything that belongs to them, and reports how many; the events stay.
    pub fn purge_expired_revoked_grants(&mut self, now: u64) -> (r: Result<u64, String>)
        ensures
            final(self)@ == swept(old(self)@, column(now)).0,
            r matches Ok(n) && n == swept(old(self)@, column(now)).1,
    {
        let at: i64 = to_column(now);
        let jobs = dup_jobs(&self.jobs);
        let ghost owners = jobs.deep_view();
        let gone = |g: &GrantRow| -> (b: bool)
            ensures
                b == purgeable(jobs.deep_view(), at)(g@),
        {
            is_purgeable(&jobs, g, at)
        };
        let purged: usize = delete_where(
            &mut self.grants,
            gone,
            Ghost(purgeable(owners, at)),
            Ghost(unpurgeable(owners, at)),
        );
        if purged == 0 {
            proof {
                lemma_none_gone(old(self)@.grants, purgeable(owners, at), unpurgeable(owners, at));
            }
            return Ok(0);
        }
        let grants = crate::table::dup_rows(&self.grants);
        let ghost left = grants.deep_view();
        let own_file = |f: &GrantFileRow| -> (b: bool)
            ensures
                b == (|f: GrantFileRowView| any(grants.deep_view(), grant_is(f.grant_id)))(f@),
        {
            has_grant(&grants, f.grant_id.as_str())
        };
        keep_where(
            &mut self.grant_files,
            own_file,
            Ghost(|f: GrantFileRowView| any(left, grant_is(f.grant_id))),
        );
        let own_digest = |d: &DigestRow| -> (b: bool)
            ensures
                b == (|d: DigestRowView| any(grants.deep_view(), grant_is(d.grant_id)))(d@),
        {
            has_grant(&grants, d.grant_id.as_str())
        };
        keep_where(
            &mut self.digests,
            own_digest,
            Ghost(|d: DigestRowView| any(left, grant_is(d.grant_id))),
        );
        let own_evidence = |e: &EvidenceRow| -> (b: bool)
            ensures
                b == (|e: EvidenceRowView| any(grants.deep_view(), grant_is(e.grant_id)))(e@),
        {
            has_grant(&grants, e.grant_id.as_str())
        };
        keep_where(
            &mut self.evidence,
            own_evidence,
            Ghost(|e: EvidenceRowView| any(left, grant_is(e.grant_id))),
        );
        let own_policy = |id: &String| -> (b: bool)
            ensures
                b == (|id: Seq<char>| any(grants.deep_view(), grant_is(id)))(id@),
        {
            has_grant(&grants, id.as_str())
        };
        keep_where(
            &mut self.policy_cache,
            own_policy,
            Ghost(|id: Seq<char>| any(left, grant_is(id))),
        );
        let own_manifest = |m: &GrantManifestRow| -> (b: bool)
            ensures
                b == (|m: GrantManifestRowView| any(grants.deep_view(), grant_is(m.grant_id)))(m@),
        {
            has_grant(&grants, m.grant_id.as_str())
        };
        keep_where(
            &mut self.grant_manifests,
            own_manifest,
            Ghost(|m: GrantManifestRowView| any(left, grant_is(m.grant_id))),
        );
        let own_ticket = |t: &TicketRow| -> (b: bool)
            ensures
                b == (|t: TicketRowView| any(grants.deep_view(), grant_is(t.grant_id)))(t@),
        {
            has_grant(&grants, t.grant_id.as_str())
        };
        keep_where(
            &mut self.tickets,
            own_ticket,
            Ghost(|t: TicketRowView| any(left, grant_is(t.grant_id))),
        );
        Ok(purged as u64)
    }
}

fn dup_jobs(jobs: &Vec<JobRow>) -> (r: Vec<JobRow>)
    ensures
        r.deep_view() == jobs.deep_view(),
{
    crate::table::dup_rows(jobs)
}

proof fn lemma_none_gone(
    grants: Seq<GrantRowView>,
    p: spec_fn(GrantRowView) -> bool,
    q: spec_fn(GrantRowView) -> bool,
)
    requires
        count(grants, p) == 0,
        forall|g: GrantRowView| q(g) == !#[trigger] p(g),
    ensures
        grants.filter(q) == grants,
    decreases grants.len(),
{
    reveal(Seq::filter);
    if grants.len() > 0 {
        lemma_none_gone(grants.drop_last(), p, q);
        assert(grants =~= grants.drop_last().push(grants.last()));
    } else {
        assert(grants.filter(q) =~= grants);
    }
}

} // verus!
