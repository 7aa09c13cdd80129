//! Where a grant stands: until when it can be downloaded from, who is told its token, and
//! what is held for it.
use vstd::prelude::*;

use crate::availability::{
    live_grant, purgeable, served_in, sourced_as, swept, unpurgeable, working_job,
};
use crate::columns::natural;
use crate::downloads::grant_is;
use crate::finality::with_revoked;
use crate::grants::{column_sum, grant_in, grant_with};
use crate::lifecycle::{
    counters, ended_job, extended, file_key, file_object, grant_object, job_in, job_is, looked_up,
    looks_up, object_lt, open_files, open_grant_is, open_grants, other_with, retokened, revoked,
    rotated, servable, shared_token, some_names, unrevoked, usable_for_file, usable_for_link,
    usable_grant_is, usable_in, whole_object,
};
use crate::records::OutboundSummaryView;
use crate::rows::{GrantFileRowView, GrantManifestRowView, GrantRowView, JobRowView};
use crate::selection::{lemma_changed, lemma_counted, lemma_found, lemma_ordered, lemma_selected};
use crate::store::StoreView;
use crate::table::{any, count, distinct, first, sorted_by};
use crate::text::ascii_fold;

verus! {

/// Whether a grant is open at a time: not revoked, and its end has not come.
pub open spec fn stands(g: GrantRowView, now: i64) -> bool {
    g.revoked_at is None && now < g.expires_at
}

/// Whether a grant can be downloaded from at a time: it is open, and has downloads left.
pub open spec fn serves(g: GrantRowView, now: i64) -> bool {
    stands(g, now) && (g.max_downloads is None || g.downloads < g.max_downloads->0)
}

// --------------------------------------------------------------------- words
/// Whether the grant under a token digest is open at a time.
pub open spec fn admits(s: StoreView, token_hash: Seq<char>, now: i64) -> bool {
    match first(s.grants, grant_with(token_hash)) {
        Some(g) => g.revoked_at is None && g.expires_at > now,
        None => false,
    }
}

/// Whether there is a grant that was not revoked.
pub open spec fn is_live(s: StoreView, id: Seq<char>) -> bool {
    any(s.grants, |g: GrantRowView| g.id == id && g.revoked_at is None)
}

/// The token that is told of a grant to who knows its digest.
pub open spec fn token_told(s: StoreView, tenant: Seq<char>, id: Seq<char>, digest: Seq<char>) -> Option<
    Seq<char>,
> {
    match shared_token(s, tenant, id) {
        Some((token, hash)) if hash == digest => Some(token),
        _ => None,
    }
}

/// The objects that open grants hold.
pub open spec fn objects_held(s: StoreView, now: i64) -> Seq<(Seq<char>, Seq<char>, u64)> {
    sorted_by(
        distinct(
            s.grants.filter(open_grants(now)).map_values(grant_object()) + s.grant_files.filter(
                open_files(s.grants, now),
            ).map_values(file_object()),
        ),
        object_lt(),
    ).map_values(whole_object())
}

/// What is told of a tenant's grants in numbers.
pub open spec fn summary_of(
    s: StoreView,
    tenant: Seq<char>,
    now: i64,
    hashes: Seq<Seq<char>>,
) -> Result<OutboundSummaryView, Seq<char>> {
    match column_sum(counters(s.grants.filter(grant_in(tenant)))) {
        None => Err("integer overflow"@),
        Some(deliveries) => Ok(
            OutboundSummaryView {
                open_grants: count(s.grants, usable_in(tenant, now)) as u64,
                deliveries: natural(deliveries),
                active: count(s.grants, looked_up(tenant, hashes)) as u64,
            },
        ),
    }
}

// ---------------------------------------------------------------------- laws
/// A grant admits exactly while it is open: not revoked, and before its end.
pub proof fn grants_admit_while_they_are_open(s: StoreView, token_hash: Seq<char>, now: i64)
    requires
        forall|i: int, j: int|
            0 <= i < j < s.grants.len() ==> s.grants[i].token_hash != s.grants[j].token_hash,
    ensures
        admits(s, token_hash, now) <==> exists|g: GrantRowView| #[trigger]
            s.grants.contains(g) && g.token_hash == token_hash && stands(g, now),
        forall|id: Seq<char>| #[trigger]
            is_live(s, id) <==> exists|g: GrantRowView| #[trigger]
                s.grants.contains(g) && g.id == id && g.revoked_at is None,
{
    let p = grant_with(token_hash);
    lemma_found(s.grants, p);
    if exists|g: GrantRowView| #[trigger]
        s.grants.contains(g) && g.token_hash == token_hash && stands(g, now) {
        let g = choose|g: GrantRowView| #[trigger]
            s.grants.contains(g) && g.token_hash == token_hash && stands(g, now);
        let i = choose|i: int| 0 <= i < s.grants.len() && s.grants[i] == g;
        assert forall|j: int| 0 <= j < i implies !p(#[trigger] s.grants[j]) by {
            assert(s.grants[j].token_hash != s.grants[i].token_hash);
        }
        crate::table::lemma_first(s.grants, p, i);
    }
    assert forall|id: Seq<char>| #[trigger] is_live(s, id) <==> exists|g: GrantRowView| #[trigger]
        s.grants.contains(g) && g.id == id && g.revoked_at is None by {
        lemma_found(s.grants, |g: GrantRowView| g.id == id && g.revoked_at is None);
    }
}

/// Revoking marks the tenant's grant of that id with the time, unless it was revoked before,
/// and changes nothing else; it reports whether there was one.
pub proof fn revoking_marks_one_grant(s: StoreView, tenant: Seq<char>, id: Seq<char>, at: i64)
    ensures
        ({
            let after = with_revoked(s, tenant, id, at);
            &&& after == StoreView { grants: after.grants, ..s }
            &&& after.grants.len() == s.grants.len()
            &&& forall|i: int|
                0 <= i < s.grants.len() ==> #[trigger] after.grants[i] == if s.grants[i].tenant
                    == tenant && s.grants[i].id == id && s.grants[i].revoked_at is None {
                    GrantRowView { revoked_at: Some(at), ..s.grants[i] }
                } else {
                    s.grants[i]
                }
        }),
        any(s.grants, unrevoked(tenant, id)) <==> exists|g: GrantRowView| #[trigger]
            s.grants.contains(g) && g.tenant == tenant && g.id == id && g.revoked_at is None,
{
    lemma_changed(s.grants, unrevoked(tenant, id), revoked(at));
    lemma_found(s.grants, unrevoked(tenant, id));
}

/// Rotating gives the tenant's unrevoked grant of that id the new token and digest, and
/// changes nothing else. It does so exactly where there is such a grant and no job issued
/// it, and is refused where another grant has the digest.
pub proof fn rotating_replaces_one_token(
    s: StoreView,
    tenant: Seq<char>,
    id: Seq<char>,
    token: Seq<char>,
    hash: Seq<char>,
)
    ensures
        ({
            let there = exists|g: GrantRowView| #[trigger]
                s.grants.contains(g) && g.tenant == tenant && g.id == id && g.revoked_at is None;
            let job = exists|j: JobRowView| #[trigger] s.jobs.contains(j) && j.id == id;
            match rotated(s, tenant, id, token, hash) {
                Ok((after, false)) => after == s && (job || !there),
                Ok((after, true)) => {
                    &&& there && !job
                    &&& after == StoreView { grants: after.grants, ..s }
                    &&& after.grants.len() == s.grants.len()
                    &&& forall|i: int|
                        0 <= i < s.grants.len() ==> #[trigger] after.grants[i]
                            == if s.grants[i].tenant == tenant && s.grants[i].id == id
                            && s.grants[i].revoked_at is None {
                            GrantRowView {
                                token_hash: hash,
                                share_token: Some(token),
                                ..s.grants[i]
                            }
                        } else {
                            s.grants[i]
                        }
                    &&& forall|i: int|
                        0 <= i < s.grants.len() && (#[trigger] s.grants[i]).token_hash == hash
                            ==> s.grants[i].tenant == tenant && s.grants[i].id == id
                            && s.grants[i].revoked_at is None
                },
                Err(_) => there && !job && exists|g: GrantRowView| #[trigger]
                    s.grants.contains(g) && g.token_hash == hash && !(g.tenant == tenant && g.id
                        == id && g.revoked_at is None),
            }
        }),
{
    let p = unrevoked(tenant, id);
    lemma_changed(s.grants, p, retokened(token, hash));
    lemma_found(s.grants, p);
    lemma_found(s.jobs, job_is(id));
    lemma_found(s.grants, other_with(tenant, id, hash));
    if let Ok((_, true)) = rotated(s, tenant, id, token, hash) {
        assert forall|i: int|
            0 <= i < s.grants.len() && (#[trigger] s.grants[i]).token_hash
                == hash implies s.grants[i].tenant == tenant && s.grants[i].id == id
            && s.grants[i].revoked_at is None by {
            assert(!other_with(tenant, id, hash)(s.grants[i]));
        }
    }
}

/// Extending moves the end of the tenant's unrevoked grant of that id by the seconds, counted
/// from its end or from now, whichever is later, and at most to the last time there is; the
/// new end is told, and nothing else changes. A job that has ended refuses it.
pub proof fn extending_moves_the_end(
    s: StoreView,
    tenant: Seq<char>,
    id: Seq<char>,
    seconds: u64,
    now: u64,
)
    requires
        forall|i: int, j: int| 0 <= i < j < s.grants.len() ==> s.grants[i].id != s.grants[j].id,
        now <= i64::MAX,
    ensures
        ({
            let there = exists|g: GrantRowView| #[trigger]
                s.grants.contains(g) && g.tenant == tenant && g.id == id && g.revoked_at is None;
            match extended(s, tenant, id, seconds, now) {
                Err(_) => exists|j: JobRowView| #[trigger]
                    s.jobs.contains(j) && j.id == id && j.tenant == tenant && (j.state
                        == "retiring"@ || j.state == "retired"@ || j.state == "suspended"@),
                Ok((after, None)) => after == s && !there,
                Ok((after, Some(end))) => {
                    &&& there
                    &&& forall|j: JobRowView| #[trigger]
                        s.jobs.contains(j) && j.id == id && j.tenant == tenant ==> j.state
                            != "retiring"@ && j.state != "retired"@ && j.state != "suspended"@
                    &&& after == StoreView { grants: after.grants, ..s }
                    &&& after.grants.len() == s.grants.len()
                    &&& forall|i: int|
                        0 <= i < s.grants.len() ==> if s.grants[i].id == id {
                            let was = s.grants[i].expires_at;
                            let from = if was > now {
                                was as int
                            } else {
                                now as int
                            };
                            &&& end == (if from + seconds <= i64::MAX {
                                from + seconds
                            } else {
                                i64::MAX as int
                            })
                            &&& (#[trigger] after.grants[i]) == GrantRowView {
                                expires_at: end as i64,
                                ..s.grants[i]
                            }
                        } else {
                            after.grants[i] == s.grants[i]
                        }
                },
            }
        }),
{
    let p = unrevoked(tenant, id);
    lemma_found(s.grants, p);
    lemma_found(s.jobs, ended_job(tenant, id));
    if let Ok((after, Some(end))) = extended(s, tenant, id, seconds, now) {
        let g = first(s.grants, p)->0;
        let k = choose|k: int| 0 <= k < s.grants.len() && s.grants[k] == g;
        lemma_changed(s.grants, p, crate::lifecycle::ending(end as i64));
        assert forall|i: int| 0 <= i < s.grants.len() && (#[trigger] s.grants[i]).id == id implies i
            == k by {
            if i < k {
                assert(s.grants[i].id != s.grants[k].id);
            } else if k < i {
                assert(s.grants[k].id != s.grants[i].id);
            }
        }
        assert(p(s.grants[k]));
        assert(after.grants[k] == GrantRowView { expires_at: end as i64, ..s.grants[k] });
    }
}

/// A token is told exactly to who knows the digest that the grant stands under: it is that of
/// the job that issued the grant, or else the one the grant was shared under. A revoked grant
/// tells none.
pub proof fn tokens_are_told_to_their_digest(
    s: StoreView,
    tenant: Seq<char>,
    id: Seq<char>,
    digest: Seq<char>,
    g: GrantRowView,
)
    requires
        forall|i: int, j: int| 0 <= i < j < s.grants.len() ==> s.grants[i].id != s.grants[j].id,
        s.grants.contains(g) && g.id == id && g.tenant == tenant,
    ensures
        g.revoked_at is Some ==> token_told(s, tenant, id, digest) is None,
        token_told(s, tenant, id, digest) is Some ==> g.token_hash == digest,
        g.revoked_at is None && g.token_hash == digest && (forall|j: JobRowView| #[trigger]
            s.jobs.contains(j) ==> j.id != id) ==> token_told(s, tenant, id, digest)
            == g.share_token,
        forall|j: JobRowView| #[trigger]
            s.jobs.contains(j) && j.id == id && j.tenant == tenant && g.revoked_at is None
                && g.token_hash == digest && (forall|o: JobRowView| #[trigger]
                s.jobs.contains(o) && o.id == id ==> o == j) ==> token_told(s, tenant, id, digest)
                == j.token,
{
    let p = unrevoked(tenant, id);
    lemma_found(s.grants, p);
    lemma_found(s.jobs, job_in(tenant, id));
    let k = choose|k: int| 0 <= k < s.grants.len() && s.grants[k] == g;
    if let Some(f) = first(s.grants, p) {
        let i = choose|i: int| 0 <= i < s.grants.len() && s.grants[i] == f;
        if i < k {
            assert(s.grants[i].id != s.grants[k].id);
        } else if k < i {
            assert(s.grants[k].id != s.grants[i].id);
        }
        assert(f == g);
    }
}

/// A received file, a link, a tenant and a manifest are in use exactly while a grant of them
/// can be downloaded from: open, and with downloads left.
pub proof fn use_ends_with_the_grant(
    s: StoreView,
    tenant: Seq<char>,
    link_id: Seq<char>,
    upload_id: Seq<char>,
    file_index: i64,
    now: i64,
)
    ensures
        any(s.grants, usable_for_file(tenant, link_id, upload_id, file_index, now))
            <==> exists|g: GrantRowView| #[trigger]
            s.grants.contains(g) && g.tenant == tenant && g.link_id == link_id && g.upload_id
                == upload_id && g.file_index == file_index && serves(g, now),
        any(s.grants, usable_for_link(tenant, link_id, now)) <==> exists|g: GrantRowView| #[trigger]
            s.grants.contains(g) && g.tenant == tenant && g.link_id == link_id && serves(g, now),
        forall|g: GrantRowView| #[trigger]
            s.grants.filter(usable_for_link(tenant, link_id, now)).contains(g)
                <==> s.grants.contains(g) && g.tenant == tenant && g.link_id == link_id && serves(
                g,
                now,
            ),
        forall|g: GrantRowView|
            (#[trigger] file_key()(g)) matches Ok(key) ==> key.0 == g.upload_id && key.1
                == g.file_index,
        forall|m: GrantManifestRowView| #[trigger]
            s.grant_manifests.filter(servable(s.grants, now)).contains(m)
                <==> s.grant_manifests.contains(m) && exists|g: GrantRowView| #[trigger]
                s.grants.contains(g) && g.id == m.grant_id && serves(g, now),
{
    lemma_found(s.grants, usable_for_file(tenant, link_id, upload_id, file_index, now));
    lemma_found(s.grants, usable_for_link(tenant, link_id, now));
    lemma_selected(s.grants, usable_for_link(tenant, link_id, now));
    lemma_selected(s.grant_manifests, servable(s.grants, now));
    assert forall|m: GrantManifestRowView| #[trigger]
        s.grant_manifests.filter(servable(s.grants, now)).contains(m)
        <==> s.grant_manifests.contains(m) && exists|g: GrantRowView| #[trigger]
        s.grants.contains(g) && g.id == m.grant_id && serves(g, now) by {
        lemma_found(s.grants, usable_grant_is(m.grant_id, now));
    }
}

/// Whether a library file is named by a grant that can be downloaded from: so it is said
/// exactly if one of the tenant's grants that serve names it, as far as their manifests are
/// readable.
pub proof fn library_files_are_in_use_while_named(
    s: StoreView,
    tenant: Seq<char>,
    source: Seq<char>,
    now: i64,
)
    requires
        forall|g: GrantRowView| #[trigger] s.grants.contains(g) ==> g.files_error is None,
    ensures
        some_names(s.grants.filter(usable_in(tenant, now)), source) matches Ok(named) && (named
            <==> exists|g: GrantRowView, i: int| #[trigger]
            s.grants.contains(g) && g.tenant == tenant && serves(g, now) && 0 <= i < g.files.len()
                && (#[trigger] g.files[i]).source == source),
{
    let p = usable_in(tenant, now);
    lemma_selected(s.grants, p);
    let chosen = s.grants.filter(p);
    assert forall|k: int| 0 <= k < chosen.len() implies (#[trigger] chosen[k]).files_error is None by {
        assert(chosen.contains(chosen[k]));
    }
    lemma_names(chosen, source);
    if exists|g: GrantRowView, i: int| #[trigger]
        s.grants.contains(g) && g.tenant == tenant && serves(g, now) && 0 <= i < g.files.len()
            && (#[trigger] g.files[i]).source == source {
        let (g, i) = choose|g: GrantRowView, i: int| #[trigger]
            s.grants.contains(g) && g.tenant == tenant && serves(g, now) && 0 <= i < g.files.len()
                && (#[trigger] g.files[i]).source == source;
        assert(p(g));
        assert(chosen.contains(g));
        let k = choose|k: int| 0 <= k < chosen.len() && chosen[k] == g;
        assert(chosen[k].files[i].source == source);
    }
    if some_names(chosen, source) == Ok::<bool, Seq<char>>(true) {
        let (k, i) = choose|k: int, i: int|
            0 <= k < chosen.len() && 0 <= i < (#[trigger] chosen[k]).files.len() && (
            #[trigger] chosen[k].files[i]).source == source;
        let g = chosen[k];
        assert(chosen.contains(g));
        assert(s.grants.contains(g) && p(g));
        assert(g.files[i].source == source);
    }
}

proof fn lemma_names(grants: Seq<GrantRowView>, source: Seq<char>)
    requires
        forall|k: int| 0 <= k < grants.len() ==> (#[trigger] grants[k]).files_error is None,
    ensures
        some_names(grants, source) matches Ok(named) && (named <==> exists|k: int, i: int|
            0 <= k < grants.len() && 0 <= i < (#[trigger] grants[k]).files.len() && (
            #[trigger] grants[k].files[i]).source == source),
    decreases grants.len(),
{
    if grants.len() > 0 {
        let t = grants.skip(1);
        assert forall|k: int| 0 <= k < t.len() implies (#[trigger] t[k]).files_error is None by {
            assert(grants[k + 1].files_error is None);
        }
        assert(grants[0].files_error is None);
        lemma_names(t, source);
        if exists|k: int, i: int|
            0 <= k < t.len() && 0 <= i < (#[trigger] t[k]).files.len() && (
            #[trigger] t[k].files[i]).source == source {
            let (k, i) = choose|k: int, i: int|
                0 <= k < t.len() && 0 <= i < (#[trigger] t[k]).files.len() && (
                #[trigger] t[k].files[i]).source == source;
            assert(grants[k + 1].files[i].source == source);
        }
        if exists|k: int, i: int|
            0 <= k < grants.len() && 0 <= i < (#[trigger] grants[k]).files.len() && (
            #[trigger] grants[k].files[i]).source == source {
            let (k, i) = choose|k: int, i: int|
                0 <= k < grants.len() && 0 <= i < (#[trigger] grants[k]).files.len() && (
                #[trigger] grants[k].files[i]).source == source;
            if k > 0 {
                assert(t[k - 1].files[i].source == source);
            } else {
                assert(grants[0].files[i].source == source);
            }
        }
        if crate::lifecycle::names_source(grants[0].files, source) {
            let i = choose|i: int|
                0 <= i < grants[0].files.len() && (#[trigger] grants[0].files[i]).source == source;
            assert(grants[0].files[i].source == source);
        }
    }
}

/// The objects that are held are those of the open grants and of their files, each once.
pub proof fn held_objects_are_of_open_grants(s: StoreView, now: i64)
    requires
        forall|g: GrantRowView| #[trigger]
            s.grants.contains(g) ==> 0 <= g.bytes_hi < 0x1_0000_0000 && 0 <= g.bytes_lo
                < 0x1_0000_0000,
        forall|f: GrantFileRowView| #[trigger]
            s.grant_files.contains(f) ==> 0 <= f.bytes_hi < 0x1_0000_0000 && 0 <= f.bytes_lo
                < 0x1_0000_0000,
    ensures
        forall|g: GrantRowView| #[trigger]
            s.grants.contains(g) && stands(g, now) ==> objects_held(s, now).contains(
                (g.suite, g.root, (g.bytes_hi * 0x1_0000_0000 + g.bytes_lo) as u64),
            ),
        forall|f: GrantFileRowView, g: GrantRowView| #[trigger]
            s.grant_files.contains(f) && #[trigger] s.grants.contains(g) && g.id == f.grant_id
                && stands(g, now) ==> objects_held(s, now).contains(
                (f.suite, f.root, (f.bytes_hi * 0x1_0000_0000 + f.bytes_lo) as u64),
            ),
        forall|o: (Seq<char>, Seq<char>, u64)| #[trigger]
            objects_held(s, now).contains(o) ==> (exists|g: GrantRowView| #[trigger]
                s.grants.contains(g) && stands(g, now) && o == (
                    g.suite,
                    g.root,
                    (g.bytes_hi * 0x1_0000_0000 + g.bytes_lo) as u64,
                )) || (exists|f: GrantFileRowView, g: GrantRowView| #[trigger]
                s.grant_files.contains(f) && #[trigger] s.grants.contains(g) && g.id == f.grant_id
                    && stands(g, now) && o == (
                    f.suite,
                    f.root,
                    (f.bytes_hi * 0x1_0000_0000 + f.bytes_lo) as u64,
                )),
{
    let gs = s.grants.filter(open_grants(now));
    let fs = s.grant_files.filter(open_files(s.grants, now));
    let go = gs.map_values(grant_object());
    let fo = fs.map_values(file_object());
    let all = go + fo;
    let keys = sorted_by(distinct(all), object_lt());
    let held = objects_held(s, now);
    lemma_selected(s.grants, open_grants(now));
    lemma_selected(s.grant_files, open_files(s.grants, now));
    crate::table::lemma_distinct(all);
    lemma_ordered(distinct(all), object_lt());
    assert forall|k: (Seq<char>, Seq<char>, i64, i64)| #[trigger] all.contains(k) implies held.contains(
        whole_object()(k),
    ) by {
        assert(distinct(all).contains(k));
        assert(keys.contains(k));
        let i = choose|i: int| 0 <= i < keys.len() && keys[i] == k;
        assert(held[i] == whole_object()(k));
    }
    assert forall|g: GrantRowView| #[trigger] s.grants.contains(g) && stands(
        g,
        now,
    ) implies held.contains((g.suite, g.root, (g.bytes_hi * 0x1_0000_0000 + g.bytes_lo) as u64)) by {
        assert(gs.contains(g));
        let i = choose|i: int| 0 <= i < gs.len() && gs[i] == g;
        assert(all[i] == grant_object()(g));
        assert(all.contains(grant_object()(g)));
    }
    assert forall|f: GrantFileRowView, g: GrantRowView| #[trigger]
        s.grant_files.contains(f) && #[trigger] s.grants.contains(g) && g.id == f.grant_id
            && stands(g, now) implies held.contains(
        (f.suite, f.root, (f.bytes_hi * 0x1_0000_0000 + f.bytes_lo) as u64),
    ) by {
        lemma_found(s.grants, open_grant_is(f.grant_id, now));
        assert(open_grant_is(f.grant_id, now)(g));
        assert(fs.contains(f));
        let i = choose|i: int| 0 <= i < fs.len() && fs[i] == f;
        assert(all[go.len() + i] == file_object()(f));
        assert(all.contains(file_object()(f)));
    }
    assert forall|o: (Seq<char>, Seq<char>, u64)| #[trigger] held.contains(o) implies (exists|
        g: GrantRowView,
    | #[trigger]
        s.grants.contains(g) && stands(g, now) && o == (
            g.suite,
            g.root,
            (g.bytes_hi * 0x1_0000_0000 + g.bytes_lo) as u64,
        )) || (exists|f: GrantFileRowView, g: GrantRowView| #[trigger]
        s.grant_files.contains(f) && #[trigger] s.grants.contains(g) && g.id == f.grant_id
            && stands(g, now) && o == (
            f.suite,
            f.root,
            (f.bytes_hi * 0x1_0000_0000 + f.bytes_lo) as u64,
        )) by {
        let i = choose|i: int| 0 <= i < held.len() && held[i] == o;
        let k = keys[i];
        assert(keys.contains(k));
        assert(distinct(all).contains(k));
        assert(all.contains(k));
        let j = choose|j: int| 0 <= j < all.len() && all[j] == k;
        if j < go.len() {
            assert(gs.contains(gs[j]));
            assert(s.grants.contains(gs[j]) && stands(gs[j], now));
        } else {
            let f = fs[j - go.len()];
            assert(fs.contains(f));
            assert(s.grant_files.contains(f));
            lemma_found(s.grants, open_grant_is(f.grant_id, now));
            let g = choose|g: GrantRowView| #[trigger]
                s.grants.contains(g) && open_grant_is(f.grant_id, now)(g);
            assert(s.grant_files.contains(f) && s.grants.contains(g));
        }
    }
}

/// The numbers that are told of a tenant count its grants that can be downloaded from, add up
/// the downloads of all its grants, and count those whose digest is among the active ones.
pub proof fn summaries_count_the_tenants_grants(
    s: StoreView,
    tenant: Seq<char>,
    now: i64,
    hashes: Seq<Seq<char>>,
)
    requires
        s.grants.len() <= u64::MAX,
    ensures
        summary_of(s, tenant, now, hashes) matches Ok(told) ==> {
            &&& told.open_grants == s.grants.filter(
                |g: GrantRowView| g.tenant == tenant && serves(g, now),
            ).len()
            &&& told.active == s.grants.filter(
                |g: GrantRowView|
                    g.tenant == tenant && exists|i: int|
                        0 <= i < hashes.len() && #[trigger] hashes[i] == g.token_hash,
            ).len()
            &&& (forall|g: GrantRowView| #[trigger] s.grants.contains(g) ==> g.downloads >= 0)
                ==> told.deliveries == s.grants.filter(
                |g: GrantRowView| g.tenant == tenant,
            ).fold_left(0int, |sum: int, g: GrantRowView| sum + g.downloads)
        },
{
    let a = |g: GrantRowView| g.tenant == tenant && serves(g, now);
    let b = |g: GrantRowView|
        g.tenant == tenant && exists|i: int|
            0 <= i < hashes.len() && #[trigger] hashes[i] == g.token_hash;
    let c = |g: GrantRowView| g.tenant == tenant;
    lemma_counted(s.grants, usable_in(tenant, now), a);
    assert forall|g: GrantRowView| #[trigger] looked_up(tenant, hashes)(g) == b(g) by {
        if hashes.contains(g.token_hash) {
            let i = choose|i: int| 0 <= i < hashes.len() && hashes[i] == g.token_hash;
            assert(hashes[i] == g.token_hash);
        }
    }
    lemma_counted(s.grants, looked_up(tenant, hashes), b);
    lemma_counted(s.grants, grant_in(tenant), c);
    lemma_selected(s.grants, a);
    lemma_selected(s.grants, b);
    lemma_selected(s.grants, c);
    if let Ok(told) = summary_of(s, tenant, now, hashes) {
        if forall|g: GrantRowView| #[trigger] s.grants.contains(g) ==> g.downloads >= 0 {
            let own = s.grants.filter(c);
            assert forall|i: int| 0 <= i < own.len() implies (#[trigger] own[i]).downloads >= 0 by {
                assert(own.contains(own[i]));
            }
            lemma_sum(own);
        }
    }
}

proof fn lemma_sum(grants: Seq<GrantRowView>)
    requires
        forall|i: int| 0 <= i < grants.len() ==> (#[trigger] grants[i]).downloads >= 0,
    ensures
        column_sum(counters(grants)) matches Some(n) ==> n >= 0 && n == grants.fold_left(
            0int,
            |sum: int, g: GrantRowView| sum + g.downloads,
        ),
    decreases grants.len(),
{
    reveal_with_fuel(Seq::fold_left, 2);
    if grants.len() > 0 {
        let head = grants.drop_last();
        assert forall|i: int| 0 <= i < head.len() implies (#[trigger] head[i]).downloads >= 0 by {
            assert(grants[i].downloads >= 0);
        }
        lemma_sum(head);
        assert(counters(grants).drop_last() =~= counters(head));
        assert(grants[grants.len() - 1].downloads >= 0);
    }
}

/// The digests that are counted as active are those that look up a grant of the tenant, each
/// once.
pub proof fn active_digests_look_up_a_grant(s: StoreView, tenant: Seq<char>, hashes: Seq<Seq<char>>)
    ensures
        forall|h: Seq<char>| #[trigger]
            distinct(hashes).filter(looks_up(s.grants, tenant)).contains(h) <==> hashes.contains(h)
                && exists|g: GrantRowView| #[trigger]
                s.grants.contains(g) && g.tenant == tenant && g.token_hash == h,
        distinct(hashes).filter(looks_up(s.grants, tenant)).no_duplicates(),
{
    crate::table::lemma_distinct(hashes);
    let p = looks_up(s.grants, tenant);
    lemma_selected(distinct(hashes), p);
    assert forall|h: Seq<char>| #[trigger] p(h) <==> exists|g: GrantRowView| #[trigger]
        s.grants.contains(g) && g.tenant == tenant && g.token_hash == h by {
        lemma_found(s.grants, crate::lifecycle::grant_of_hash(tenant, h));
    }
    crate::uniqueness::lemma_filter_pairs(
        distinct(hashes),
        p,
        |a: Seq<char>, b: Seq<char>| a != b,
    );
    let f = distinct(hashes).filter(p);
    assert forall|i: int, j: int| 0 <= i < f.len() && 0 <= j < f.len() && i != j implies f[i]
        != f[j] by {
        if i < j {
            assert((|a: Seq<char>, b: Seq<char>| a != b)(f[i], f[j]));
        } else {
            assert((|a: Seq<char>, b: Seq<char>| a != b)(f[j], f[i]));
        }
    }
}

/// The sweep removes exactly the grants that are revoked and past their end and that no job
/// still works on, and tells how many they were.
pub proof fn the_sweep_takes_what_is_over(s: StoreView, now: i64)
    ensures
        ({
            let (after, n) = swept(s, now);
            &&& forall|g: GrantRowView| #[trigger]
                after.grants.contains(g) <==> s.grants.contains(g) && !(g.revoked_at is Some
                    && g.expires_at <= now && forall|j: JobRowView| #[trigger]
                    s.jobs.contains(j) && j.id == g.id ==> j.state == "retired"@)
            &&& n + after.grants.len() == s.grants.len()
            &&& after.links == s.links && after.uploads == s.uploads && after.files == s.files
                && after.events == s.events && after.jobs == s.jobs && after.tenants == s.tenants
                && after.tokens == s.tokens && after.quotas == s.quotas
            &&& n == 0 ==> after == s
            &&& forall|f: GrantFileRowView| #[trigger]
                s.grant_files.contains(f) && (exists|g: GrantRowView| #[trigger]
                    after.grants.contains(g) && g.id == f.grant_id) ==> after.grant_files.contains(
                    f,
                )
        }),
{
    let p = purgeable(s.jobs, now);
    let q = unpurgeable(s.jobs, now);
    lemma_selected(s.grants, q);
    lemma_halves(s.grants, p, q);
    assert forall|g: GrantRowView| #[trigger] p(g) <==> g.revoked_at is Some && g.expires_at <= now
        && forall|j: JobRowView| #[trigger] s.jobs.contains(j) && j.id == g.id ==> j.state
        == "retired"@ by {
        lemma_found(s.jobs, working_job(g.id));
    }
    let (after, n) = swept(s, now);
    if n == 0 {
        assert(s.grants.filter(q).len() == s.grants.len());
        crate::table::lemma_filter_any(s.grants, p);
        assert forall|g: GrantRowView| #[trigger] s.grants.contains(g) implies !p(g) by {
            let i = choose|i: int| 0 <= i < s.grants.len() && s.grants[i] == g;
            assert(!p(s.grants[i]));
        }
    } else {
        let left = s.grants.filter(q);
        let keep = |f: GrantFileRowView| any(left, grant_is(f.grant_id));
        lemma_selected(s.grant_files, keep);
        assert forall|f: GrantFileRowView| #[trigger] s.grant_files.contains(f) && (exists|
            g: GrantRowView,
        | #[trigger] after.grants.contains(g) && g.id == f.grant_id) implies after.grant_files.contains(
            f,
        ) by {
            lemma_found(left, grant_is(f.grant_id));
            let g = choose|g: GrantRowView| #[trigger]
                after.grants.contains(g) && g.id == f.grant_id;
            assert(grant_is(f.grant_id)(g));
            assert(keep(f));
            assert(s.grant_files.filter(keep).contains(f));
        }
    }
}

/// What satisfies a condition and what does not make up a table.
pub proof fn lemma_halves<V>(s: Seq<V>, p: spec_fn(V) -> bool, q: spec_fn(V) -> bool)
    requires
        forall|x: V| #[trigger] q(x) == !p(x),
    ensures
        s.filter(p).len() + s.filter(q).len() == s.len(),
    decreases s.len(),
{
    reveal(Seq::filter);
    if s.len() > 0 {
        lemma_halves(s.drop_last(), p, q);
        assert(q(s.last()) == !p(s.last()));
    }
}

/// The files that are served of a tenant are those of its grants that were not revoked; a
/// path is one of them in either case of ASCII letters.
pub proof fn unrevoked_grants_serve_their_files(
    s: StoreView,
    tenant: Seq<char>,
    source: Seq<char>,
)
    ensures
        forall|f: GrantFileRowView| #[trigger]
            s.grant_files.filter(served_in(s.grants, tenant)).contains(f)
                <==> s.grant_files.contains(f) && exists|g: GrantRowView| #[trigger]
                s.grants.contains(g) && g.tenant == tenant && g.id == f.grant_id && g.revoked_at
                    is None,
        forall|f: GrantFileRowView| #[trigger]
            sourced_as(source)(f) <==> ascii_fold(f.source) == ascii_fold(source),
{
    let p = served_in(s.grants, tenant);
    lemma_selected(s.grant_files, p);
    assert forall|f: GrantFileRowView| #[trigger] p(f) <==> exists|g: GrantRowView| #[trigger]
        s.grants.contains(g) && g.tenant == tenant && g.id == f.grant_id && g.revoked_at is None by {
        lemma_found(s.grants, live_grant(f.grant_id, tenant));
    }
}

} // verus!
