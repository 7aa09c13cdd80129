//! What has ended stays ended.
use vstd::prelude::*;

use crate::columns::{column, natural};
use crate::downloads::{downloaded, grant_fetched, grant_is};
use crate::grants::grant_with;
use crate::lifecycle::{extended, retokened, revoked, rotated, shared_token, unrevoked, usable_at};
use crate::links::{buried, buried_files, candidate, stored_at, tombstoned};
use crate::records::ObjectIdView;
use crate::rows::FileRowView;
use crate::store::StoreView;
use crate::table::{any, first, updated};
use crate::uniqueness::grants_unique;

verus! {

/// The store after a grant of a tenant was revoked.
pub open spec fn with_revoked(s: StoreView, tenant: Seq<char>, id: Seq<char>, at: i64) -> StoreView {
    StoreView { grants: updated(s.grants, unrevoked(tenant, id), revoked(at)), ..s }
}

/// A revoked grant stays closed: it cannot be downloaded from at any time, tells
/// no token, and can be neither rotated nor extended.
pub proof fn revocation_is_final(s: StoreView, tenant: Seq<char>, id: Seq<char>, at: i64)
    ensures
        ({
            let after = with_revoked(s, tenant, id, at);
            &&& forall|i: int, now: i64|
                0 <= i < after.grants.len() && (#[trigger] after.grants[i]).id == id
                    && after.grants[i].tenant == tenant ==> !(#[trigger] usable_at(
                    after.grants[i],
                    now,
                ))
            &&& shared_token(after, tenant, id) is None
            &&& forall|token: Seq<char>, hash: Seq<char>|
                (#[trigger] rotated(after, tenant, id, token, hash)) == Ok::<
                    (StoreView, bool),
                    Seq<char>,
                >((after, false))
            &&& forall|seconds: u64, now: u64|
                (#[trigger] extended(after, tenant, id, seconds, now)) matches Ok((same, end))
                    ==> same == after && end is None
        }),
{
    let after = with_revoked(s, tenant, id, at);
    let p = unrevoked(tenant, id);
    assert forall|i: int| 0 <= i < after.grants.len() implies !p(#[trigger] after.grants[i]) by {
        assert(after.grants[i] == if p(s.grants[i]) {
            revoked(at)(s.grants[i])
        } else {
            s.grants[i]
        });
    }
    crate::table::lemma_first_found(after.grants, p);
}

/// A rotated grant is found under its new token and no longer under the old one,
/// and tells the new one.
pub proof fn rotation_replaces_the_token(
    s: StoreView,
    tenant: Seq<char>,
    id: Seq<char>,
    token: Seq<char>,
    hash: Seq<char>,
)
    requires
        grants_unique(s.grants),
        rotated(s, tenant, id, token, hash) matches Ok((_, true)),
        crate::table::first(s.jobs, crate::lifecycle::job_in(tenant, id)) is None,
    ensures
        ({
            let before = first(s.grants, unrevoked(tenant, id))->0;
            let after = rotated(s, tenant, id, token, hash)->Ok_0.0;
            &&& first(after.grants, grant_with(hash)) == Some(retokened(token, hash)(before))
            &&& before.token_hash != hash ==> !any(after.grants, grant_with(before.token_hash))
            &&& shared_token(after, tenant, id) == Some((token, hash))
        }),
{
    let p = unrevoked(tenant, id);
    let after = rotated(s, tenant, id, token, hash)->Ok_0.0;
    let before = first(s.grants, p)->0;
    crate::table::lemma_first_found(s.grants, p);
    crate::table::lemma_first_updated(s.grants, p, retokened(token, hash));
    let k = choose|k: int| 0 <= k < s.grants.len() && s.grants[k] == before;
    let other = crate::lifecycle::other_with(tenant, id, hash);
    assert forall|j: int| 0 <= j < after.grants.len() && j != k implies after.grants[j]
        == s.grants[j] && (#[trigger] after.grants[j]).token_hash != hash && after.grants[j].token_hash
        != before.token_hash by {
        assert(s.grants[j].id != s.grants[k].id && s.grants[j].token_hash
            != s.grants[k].token_hash) by {
            if j < k {
                assert(s.grants[j].id != s.grants[k].id);
            } else {
                assert(s.grants[k].id != s.grants[j].id);
            }
        }
        assert(!p(s.grants[j]));
        assert(!other(s.grants[j]));
    }
    assert(grant_with(hash)(after.grants[k]));
    crate::table::lemma_first(after.grants, grant_with(hash), k);
    if before.token_hash != hash {
        assert forall|j: int| 0 <= j < after.grants.len() implies !grant_with(before.token_hash)(
            #[trigger] after.grants[j],
        ) by {
            if j != k {
                assert(after.grants[j].token_hash != before.token_hash);
            }
        }
    }
}

proof fn lemma_buried(
    files: Seq<FileRowView>,
    tenant: Seq<char>,
    link_id: Seq<char>,
    paths: Seq<Seq<char>>,
    n: int,
)
    requires
        0 <= n < paths.len(),
    ensures
        !any(buried_files(files, tenant, link_id, paths), stored_at(tenant, link_id, paths[n])),
    decreases paths.len(),
{
    let p = stored_at(tenant, link_id, paths[n]);
    let last = stored_at(tenant, link_id, paths.last());
    let before = buried_files(files, tenant, link_id, paths.drop_last());
    let after = buried_files(files, tenant, link_id, paths);
    if n < paths.len() - 1 {
        lemma_buried(files, tenant, link_id, paths.drop_last(), n);
        assert(paths.drop_last()[n] == paths[n]);
    }
    assert forall|i: int| 0 <= i < after.len() implies !p(#[trigger] after[i]) by {
        assert(after[i] == if last(before[i]) {
            tombstoned()(before[i])
        } else {
            before[i]
        });
        if n < paths.len() - 1 {
            assert(!p(before[i]));
        }
    }
}

/// A file marked as deleted is never taken for one that was delivered, whatever
/// object is asked for.
pub proof fn tombstones_are_no_candidates(
    s: StoreView,
    tenant: Seq<char>,
    link_id: Seq<char>,
    paths: Seq<Seq<char>>,
    suite: Seq<char>,
    object: ObjectIdView,
    after: Seq<char>,
    f: FileRowView,
)
    ensures
        buried(s, tenant, link_id, paths) matches Ok((left, true)) ==> left.files.contains(f)
            && candidate(tenant, link_id, suite, object, after)(f) ==> !paths.contains(f.stored_as),
{
    if let Ok((left, true)) = buried(s, tenant, link_id, paths) {
        if left.files.contains(f) && candidate(tenant, link_id, suite, object, after)(f)
            && paths.contains(f.stored_as) {
            let n = choose|n: int| 0 <= n < paths.len() && paths[n] == f.stored_as;
            lemma_buried(s.files, tenant, link_id, paths, n);
            let i = choose|i: int| 0 <= i < left.files.len() && left.files[i] == f;
            assert(stored_at(tenant, link_id, paths[n])(left.files[i]));
        }
    }
}

proof fn lemma_grant_after(
    s: StoreView,
    id: Seq<char>,
    indexes: Seq<usize>,
    at: u64,
    ticket: Option<Seq<char>>,
) -> (d: u64)
    requires
        downloaded(s, id, indexes, at, ticket) is Ok,
    ensures
        ({
            let after = downloaded(s, id, indexes, at, ticket)->Ok_0.0;
            let g = first(s.grants, grant_is(id))->0;
            &&& first(s.grants, grant_is(id)) is Some
            &&& first(after.grants, grant_is(id)) == Some(grant_fetched(d, column(at))(g))
            &&& downloaded(s, id, indexes, at, ticket)->Ok_0.1.completed_delivery ==> 0 < d
        }),
{
    let after = downloaded(s, id, indexes, at, ticket)->Ok_0.0;
    let g = first(s.grants, grant_is(id))->0;
    let own = after.grant_files.filter(crate::downloads::file_of(id));
    let d = if !any(s.grant_files, crate::downloads::file_of(id)) {
        (natural(g.downloads) + 1) as u64
    } else if indexes.len() == 0 {
        natural(g.downloads)
    } else {
        natural(crate::downloads::least(own))
    };
    assert(after.grants == updated(s.grants, grant_is(id), grant_fetched(d, column(at))));
    crate::table::lemma_first_updated(s.grants, grant_is(id), grant_fetched(d, column(at)));
    d
}

/// That a delivery was downloaded for the first time, and that it was completed,
/// is reported once.
pub proof fn transitions_are_reported_once(
    s: StoreView,
    id: Seq<char>,
    indexes: Seq<usize>,
    at: u64,
    ticket: Option<Seq<char>>,
    later_indexes: Seq<usize>,
    later: u64,
    later_ticket: Option<Seq<char>>,
)
    ensures
        downloaded(s, id, indexes, at, ticket) matches Ok((after, earlier)) ==> downloaded(
            after,
            id,
            later_indexes,
            later,
            later_ticket,
        ) matches Ok((_, again)) ==> !again.first_download && !(earlier.completed_delivery
            && again.completed_delivery),
{
    if let Ok((after, _)) = downloaded(s, id, indexes, at, ticket) {
        let d = lemma_grant_after(s, id, indexes, at, ticket);
    }
}

} // verus!
