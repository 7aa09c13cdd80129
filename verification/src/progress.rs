//! Sessions in progress: when they are taken in and what they replace, how their files
//! progress, and what is loaded of them.
use vstd::prelude::*;

use crate::columns::{column, natural};
use crate::records::{PendingUploadPathView, PersistedUploadFileView, PersistedUploadSessionView};
use crate::rows::{SessionFileRowView, SessionRowView};
use crate::selection::{
    lemma_changed, lemma_counted, lemma_found, lemma_ordered, lemma_read, lemma_selected,
};
use crate::sessions::{
    Progress, admitted_session, checkpointed, completed_as, entry_of, lower_entry, older_session,
    other_session, pending_path, pending_session, progressed, session_asked, session_file_of_others,
    session_file_read, session_file_row, session_filled, session_of, sessions_loaded, unaffected,
    unpublished,
};
use crate::store::StoreView;
use crate::table::{any, count, first, sorted_by, try_map, updated};
use crate::usage::session_file_of;

verus! {

// ----------------------------------------------------------------- admission
/// Whether a session's row stands for the same upload as a session: under its id, or under
/// the key of its push.
pub open spec fn stands_for(row: SessionRowView, session: PersistedUploadSessionView) -> bool {
    row.id == session.id || (session.push_key is Some && row.push_key is Some && row.push_key->0
        == session.push_key->0)
}

/// A session is taken in exactly if neither it nor one in its place has become an upload and
/// its files have an entry each. It takes the place of those that stand for the same upload,
/// with its files in place of the files under its id; every other session stays.
pub proof fn sessions_are_taken_in(s: StoreView, session: PersistedUploadSessionView, now: u64)
    requires
        forall|i: int| 0 <= i < session.files.len() ==> (#[trigger] session.files[i]).entry
            <= i64::MAX,
    ensures
        admitted_session(s, session, now) is Ok <==> {
            &&& session.committed_upload_id is None
            &&& forall|r: SessionRowView| #[trigger]
                s.sessions.contains(r) && stands_for(r, session) ==> r.committed_upload_id is None
            &&& forall|i: int, j: int|
                0 <= i < j < session.files.len() ==> (#[trigger] session.files[i]).entry != (
                #[trigger] session.files[j]).entry
        },
        admitted_session(s, session, now) matches Ok((after, _)) ==> {
            &&& after == StoreView {
                sessions: after.sessions,
                session_files: after.session_files,
                ..s
            }
            &&& after.sessions.len() > 0 && taken_down(after.sessions.last(), session, now)
            &&& forall|r: SessionRowView| #[trigger]
                after.sessions.contains(r) <==> (s.sessions.contains(r) && !stands_for(r, session))
                    || r == after.sessions.last()
            &&& forall|f: SessionFileRowView| #[trigger]
                after.session_files.contains(f) && f.session_id != session.id
                    <==> s.session_files.contains(f) && f.session_id != session.id
            &&& after.session_files.filter(session_file_of(session.id)).len()
                == session.files.len()
            &&& forall|i: int|
                0 <= i < session.files.len() ==> after.session_files.contains(
                    session_file_row(session.id)(#[trigger] session.files[i]),
                )
        },
{
    let files = session.files;
    lemma_found(s.sessions, completed_as(session.id, session.push_key));
    if let Ok((after, _)) = admitted_session(s, session, now) {
        let kept = s.sessions.filter(unaffected(session.id, session.push_key));
        let row = crate::sessions::session_row(session, now);
        lemma_selected(s.sessions, unaffected(session.id, session.push_key));
        assert(after.sessions == kept.push(row));
        assert forall|r: SessionRowView| #[trigger] after.sessions.contains(r) <==> (
        s.sessions.contains(r) && !stands_for(r, session)) || r == after.sessions.last() by {
            if kept.contains(r) {
                let i = choose|i: int| 0 <= i < kept.len() && kept[i] == r;
                assert(after.sessions[i] == r);
            }
            if r == row {
                assert(after.sessions[kept.len() as int] == r);
            }
            if after.sessions.contains(r) && r != row {
                let i = choose|i: int| 0 <= i < after.sessions.len() && after.sessions[i] == r;
                assert(kept[i] == r);
            }
        }
        let stay = s.session_files.filter(session_file_of_others(session.id));
        let new = files.map_values(session_file_row(session.id));
        lemma_selected(s.session_files, session_file_of_others(session.id));
        assert(after.session_files == stay + new);
        assert forall|f: SessionFileRowView| #[trigger]
            after.session_files.contains(f) && f.session_id != session.id <==> s.session_files.contains(
            f,
        ) && f.session_id != session.id by {
            if after.session_files.contains(f) && f.session_id != session.id {
                let i = choose|i: int|
                    0 <= i < after.session_files.len() && after.session_files[i] == f;
                if i >= stay.len() {
                    assert(new[i - stay.len()] == f);
                }
                assert(stay[i] == f);
                assert(stay.contains(f));
            }
            if s.session_files.contains(f) && f.session_id != session.id {
                assert(stay.contains(f));
                let i = choose|i: int| 0 <= i < stay.len() && stay[i] == f;
                assert(after.session_files[i] == f);
            }
        }
        assert forall|i: int| 0 <= i < files.len() implies after.session_files.contains(
            session_file_row(session.id)(#[trigger] files[i]),
        ) by {
            assert(after.session_files[stay.len() + i] == new[i]);
        }
        lemma_found(stay, session_file_of(session.id));
        lemma_own_rows(stay, new, session_file_of(session.id));
    }
}

/// Whether a row tells a session that was taken in at a time.
pub open spec fn taken_down(
    row: SessionRowView,
    session: PersistedUploadSessionView,
    now: u64,
) -> bool {
    &&& row.id == session.id && row.link_id == session.link_id && row.tenant == session.tenant
    &&& row.dest_dir == session.dest_dir && row.dest_rel == session.dest_rel
    &&& row.push_key == session.push_key && row.committed_upload_id is None
    &&& now <= i64::MAX ==> row.created_at == now
    &&& session.started_at <= i64::MAX ==> row.started_at == session.started_at
    &&& session.package.length <= i64::MAX ==> row.package_length == session.package.length
    &&& session.max_total_bytes is Some <==> row.max_total_bytes is Some
    &&& session.max_total_bytes matches Some(n) ==> n <= i64::MAX ==> row.max_total_bytes == Some(
        n as i64,
    )
}

proof fn lemma_own_rows<V>(stay: Seq<V>, new: Seq<V>, p: spec_fn(V) -> bool)
    requires
        !any(stay, p),
        forall|i: int| 0 <= i < new.len() ==> p(#[trigger] new[i]),
    ensures
        (stay + new).filter(p).len() == new.len(),
    decreases new.len(),
{
    if new.len() > 0 {
        let head = new.drop_last();
        assert(stay + new =~= (stay + head).push(new.last()));
        assert(p(new[new.len() - 1]));
        assert forall|i: int| 0 <= i < head.len() implies p(#[trigger] head[i]) by {
            assert(p(new[i]));
        }
        crate::table::lemma_filter_push(stay + head, new.last(), p);
        lemma_own_rows(stay, head, p);
    } else {
        assert(stay + new =~= stay);
        crate::table::lemma_filter_any(stay, p);
    }
}

/// What is read of a session's file is what its row tells.
pub proof fn session_files_are_told(row: SessionFileRowView, f: PersistedUploadFileView)
    requires
        session_file_read()(row) == Ok::<PersistedUploadFileView, Seq<char>>(f),
    ensures
        f.display_path == row.display_path,
        f.staging_path == row.staging_path,
        f.journal_path == row.journal_path,
        f.published == row.published,
        f.receipt == row.receipt,
        row.prefix_bytes >= 0 ==> f.prefix_bytes == row.prefix_bytes,
        row.object_length >= 0 ==> f.object.length == row.object_length,
        row.components_error is None ==> f.stored_components == row.stored_components,
{
}

// --------------------------------------------------------------- checkpoints
/// Whether exactly one file of a session has an entry.
pub open spec fn alone(files: Seq<SessionFileRowView>, id: Seq<char>, entry: i64) -> bool {
    exists|i: int|
        0 <= i < files.len() && is_entry(#[trigger] files[i], id, entry) && forall|j: int|
            0 <= j < files.len() && is_entry(#[trigger] files[j], id, entry) ==> j == i
}

/// Whether a row is of an entry of a session.
pub open spec fn is_entry(f: SessionFileRowView, id: Seq<char>, entry: i64) -> bool {
    f.session_id == id && f.entry == entry
}

/// Whether a row is the only one that satisfies a condition.
pub open spec fn lone<V>(s: Seq<V>, p: spec_fn(V) -> bool, i: int) -> bool {
    0 <= i < s.len() && p(s[i]) && forall|j: int| 0 <= j < s.len() && p(#[trigger] s[j]) ==> j == i
}

proof fn lemma_lone<V>(s: Seq<V>, p: spec_fn(V) -> bool, i: int)
    requires
        lone(s, p, i),
    ensures
        count(s, p) == 1,
    decreases s.len(),
{
    let h = s.drop_last();
    let n = s.len() - 1;
    assert(h.push(s.last()) =~= s);
    crate::table::lemma_filter_push(h, s.last(), p);
    if i == n {
        crate::table::lemma_filter_any(h, p);
        assert(!any(h, p)) by {
            assert forall|j: int| 0 <= j < h.len() implies !p(#[trigger] h[j]) by {
                assert(s[j] == h[j]);
            }
        }
    } else {
        assert(!p(s[n]));
        assert(lone(h, p, i)) by {
            assert(p(h[i]));
            assert forall|j: int| 0 <= j < h.len() && p(#[trigger] h[j]) implies j == i by {
                assert(s[j] == h[j]);
            }
        }
        lemma_lone(h, p, i);
    }
}

proof fn lemma_single<V>(s: Seq<V>, p: spec_fn(V) -> bool) -> (i: int)
    requires
        count(s, p) == 1,
    ensures
        lone(s, p, i),
    decreases s.len(),
{
    if s.len() == 0 {
        crate::table::lemma_filter_len(s, p);
        0
    } else {
        let h = s.drop_last();
        let n = s.len() - 1;
        assert(h.push(s.last()) =~= s);
        crate::table::lemma_filter_push(h, s.last(), p);
        crate::table::lemma_filter_any(h, p);
        if p(s.last()) {
            assert forall|j: int| 0 <= j < s.len() && p(#[trigger] s[j]) implies j == n by {
                if j < n {
                    assert(p(h[j]));
                }
            }
            n
        } else {
            let i = lemma_single(h, p);
            assert(p(s[i])) by {
                assert(h[i] == s[i]);
            }
            assert forall|j: int| 0 <= j < s.len() && p(#[trigger] s[j]) implies j == i by {
                if j < n {
                    assert(h[j] == s[j]);
                }
            }
            i
        }
    }
}

/// Whether a checkpoint names the entry of a row.
pub open spec fn names(p: Progress, f: SessionFileRowView, id: Seq<char>) -> bool {
    is_entry(f, id, column(p.0 as u64))
}

/// Whether a row tells the progress of a checkpoint.
pub open spec fn tells(f: SessionFileRowView, p: Progress) -> bool {
    f.published == p.2 && f.receipt == p.3 && (p.1 <= i64::MAX ==> natural(f.prefix_bytes) == p.1)
}

/// Checkpoints are taken exactly if each names one file of the session. A file then has the
/// progress of the last checkpoint that names it; a file that none names stays as it was, and
/// so does everything else of a file.
pub proof fn checkpoints_are_taken(
    files: Seq<SessionFileRowView>,
    id: Seq<char>,
    progress: Seq<Progress>,
)
    ensures
        checkpointed(files, id, progress) is Ok <==> forall|k: int|
            0 <= k < progress.len() ==> alone(
                files,
                id,
                column((#[trigger] progress[k]).0 as u64),
            ),
        checkpointed(files, id, progress) matches Ok(after) ==> {
            &&& after.len() == files.len()
            &&& forall|i: int|
                0 <= i < files.len() ==> (#[trigger] after[i]) == (SessionFileRowView {
                    prefix_bytes: after[i].prefix_bytes,
                    published: after[i].published,
                    receipt: after[i].receipt,
                    ..files[i]
                })
            &&& forall|i: int|
                0 <= i < files.len() && (forall|k: int|
                    0 <= k < progress.len() ==> !names(#[trigger] progress[k], files[i], id))
                    ==> #[trigger] after[i] == files[i]
            &&& forall|i: int, k: int|
                0 <= i < files.len() && 0 <= k < progress.len() && names(
                    progress[k],
                    files[i],
                    id,
                ) && (forall|l: int|
                    k < l < progress.len() ==> !names(#[trigger] progress[l], files[i], id))
                    ==> tells(#[trigger] after[i], #[trigger] progress[k])
        },
    decreases progress.len(),
{
    if progress.len() > 0 {
        let head = progress.drop_last();
        let n = progress.len() - 1;
        let p = progress.last();
        checkpoints_are_taken(files, id, head);
        assert(progress[n] == p);
        assert forall|k: int| 0 <= k < n implies #[trigger] progress[k] == head[k] by {}
        if let Ok(mid) = checkpointed(files, id, head) {
            let hit = entry_of(id, column(p.0 as u64));
            let entry = column(p.0 as u64);
            lemma_alone_kept(mid, files, id, entry);
            assert((count(mid, hit) == 1) <==> alone(mid, id, entry)) by {
                if alone(mid, id, entry) {
                    let i = choose|i: int|
                        0 <= i < mid.len() && is_entry(#[trigger] mid[i], id, entry) && forall|
                            j: int,
                        |
                            0 <= j < mid.len() && is_entry(#[trigger] mid[j], id, entry) ==> j
                                == i;
                    assert forall|j: int| 0 <= j < mid.len() && hit(#[trigger] mid[j]) implies j
                        == i by {
                        assert(is_entry(mid[j], id, entry));
                    }
                    lemma_lone(mid, hit, i);
                }
                if count(mid, hit) == 1 {
                    let i = lemma_single(mid, hit);
                    assert(is_entry(mid[i], id, entry));
                    assert forall|j: int|
                        0 <= j < mid.len() && is_entry(#[trigger] mid[j], id, entry) implies j
                        == i by {
                        assert(hit(mid[j]));
                    }
                }
            }
            if count(mid, hit) == 1 {
                let step = progressed(column(p.1), p.2, p.3);
                lemma_changed(mid, hit, step);
                let after = updated(mid, hit, step);
                assert forall|k: int| 0 <= k < progress.len() implies alone(
                    files,
                    id,
                    column((#[trigger] progress[k]).0 as u64),
                ) by {
                    if k < n {
                        assert(head[k] == progress[k]);
                    }
                }
                assert forall|i: int|
                    0 <= i < files.len() && (forall|k: int|
                        0 <= k < progress.len() ==> !names(
                            #[trigger] progress[k],
                            files[i],
                            id,
                        )) implies #[trigger] after[i] == files[i] by {
                    assert forall|k: int| 0 <= k < head.len() implies !names(
                        #[trigger] head[k],
                        files[i],
                        id,
                    ) by {
                        assert(!names(progress[k], files[i], id));
                    }
                    assert(!names(progress[n], files[i], id));
                    assert(mid[i] == files[i]);
                }
                assert forall|i: int, k: int|
                    0 <= i < files.len() && 0 <= k < progress.len() && names(
                        progress[k],
                        files[i],
                        id,
                    ) && (forall|l: int|
                        k < l < progress.len() ==> !names(
                            #[trigger] progress[l],
                            files[i],
                            id,
                        )) implies tells(#[trigger] after[i], #[trigger] progress[k]) by {
                    assert(mid[i].session_id == files[i].session_id && mid[i].entry
                        == files[i].entry);
                    if k < n {
                        assert(!names(progress[n], files[i], id));
                        assert forall|l: int| k < l < head.len() implies !names(
                            #[trigger] head[l],
                            files[i],
                            id,
                        ) by {
                            assert(!names(progress[l], files[i], id));
                        }
                        assert(head[k] == progress[k]);
                        assert(tells(mid[i], head[k]));
                    }
                }
            } else {
                assert(!alone(files, id, column(progress[n].0 as u64)));
            }
        } else {
            let k = choose|k: int|
                0 <= k < head.len() && !alone(files, id, column((#[trigger] head[k]).0 as u64));
            assert(progress[k] == head[k]);
        }
    }
}

proof fn lemma_alone_kept(
    a: Seq<SessionFileRowView>,
    b: Seq<SessionFileRowView>,
    id: Seq<char>,
    entry: i64,
)
    requires
        a.len() == b.len(),
        forall|i: int|
            0 <= i < b.len() ==> (#[trigger] a[i]).session_id == b[i].session_id && a[i].entry
                == b[i].entry,
    ensures
        alone(a, id, entry) <==> alone(b, id, entry),
{
    if alone(a, id, entry) {
        let i = choose|i: int|
            0 <= i < a.len() && is_entry(#[trigger] a[i], id, entry) && forall|j: int|
                0 <= j < a.len() && is_entry(#[trigger] a[j], id, entry) ==> j == i;
        assert(is_entry(b[i], id, entry));
        assert forall|j: int| 0 <= j < b.len() && is_entry(#[trigger] b[j], id, entry) implies j
            == i by {
            assert(is_entry(a[j], id, entry));
        }
    }
    if alone(b, id, entry) {
        let i = choose|i: int|
            0 <= i < b.len() && is_entry(#[trigger] b[i], id, entry) && forall|j: int|
                0 <= j < b.len() && is_entry(#[trigger] b[j], id, entry) ==> j == i;
        assert(is_entry(a[i], id, entry));
        assert forall|j: int| 0 <= j < a.len() && is_entry(#[trigger] a[j], id, entry) implies j
            == i by {
            assert(is_entry(b[j], id, entry));
        }
    }
}

// -------------------------------------------------------------------- paths
/// The paths that a tenant's uploads in progress will publish to.
pub open spec fn paths_pending(s: StoreView, tenant: Seq<char>) -> Seq<PendingUploadPathView> {
    s.session_files.filter(unpublished(s.sessions, tenant)).map_values(
        pending_path(s.sessions, tenant),
    )
}

/// Whether a session of a tenant is in progress.
pub open spec fn runs(s: SessionRowView, tenant: Seq<char>) -> bool {
    s.tenant == tenant && s.committed_upload_id is None
}

/// Whether a file of a tenant's session in progress is not published yet.
pub open spec fn pends(s: StoreView, f: SessionFileRowView, tenant: Seq<char>) -> bool {
    !f.published && exists|r: SessionRowView| #[trigger]
        s.sessions.contains(r) && r.id == f.session_id && runs(r, tenant)
}

/// Every file that is not published yet of a tenant's sessions in progress has its path told,
/// under the destination of its session, and no other has.
pub proof fn pending_paths_are_told(s: StoreView, tenant: Seq<char>)
    ensures
        forall|p: PendingUploadPathView| #[trigger]
            paths_pending(s, tenant).contains(p) ==> exists|f: SessionFileRowView, r: SessionRowView|
             #[trigger]
                s.session_files.contains(f) && #[trigger] s.sessions.contains(r) && !f.published
                    && r.id == f.session_id && runs(r, tenant) && p.components
                    == f.stored_components && p.components_error == f.components_error
                    && p.destination == r.dest_rel,
        forall|f: SessionFileRowView| #[trigger]
            s.session_files.contains(f) && pends(s, f, tenant) ==> paths_pending(
                s,
                tenant,
            ).contains(pending_path(s.sessions, tenant)(f)),
        paths_pending(s, tenant).len() == s.session_files.filter(
            |f: SessionFileRowView| pends(s, f, tenant),
        ).len(),
{
    let open = unpublished(s.sessions, tenant);
    let rows = s.session_files.filter(open);
    let paths = paths_pending(s, tenant);
    lemma_selected(s.session_files, open);
    let raw = |f: SessionFileRowView| pends(s, f, tenant);
    assert forall|f: SessionFileRowView| #[trigger] open(f) == raw(f) by {
        lemma_found(s.sessions, pending_session(tenant, f.session_id));
    }
    lemma_counted(s.session_files, open, raw);
    assert forall|p: PendingUploadPathView| #[trigger] paths.contains(p) implies exists|
        f: SessionFileRowView,
        r: SessionRowView,
    | #[trigger]
        s.session_files.contains(f) && #[trigger] s.sessions.contains(r) && !f.published && r.id
            == f.session_id && runs(r, tenant) && p.components == f.stored_components
            && p.components_error == f.components_error && p.destination == r.dest_rel by {
        let i = choose|i: int| 0 <= i < paths.len() && paths[i] == p;
        let f = rows[i];
        assert(rows.contains(f));
        lemma_found(s.sessions, pending_session(tenant, f.session_id));
        let r = first(s.sessions, pending_session(tenant, f.session_id))->0;
        assert(s.session_files.contains(f) && s.sessions.contains(r));
    }
    assert forall|f: SessionFileRowView| #[trigger]
        s.session_files.contains(f) && pends(s, f, tenant) implies paths.contains(
        pending_path(s.sessions, tenant)(f),
    ) by {
        assert(raw(f) == open(f));
        assert(rows.contains(f));
        let i = choose|i: int| 0 <= i < rows.len() && rows[i] == f;
        assert(paths[i] == pending_path(s.sessions, tenant)(f));
    }
}

// ------------------------------------------------------------------- loading
/// Whether a session is asked for: those of a push, or those under a key.
pub open spec fn asked(r: SessionRowView, push_only: bool, key: Option<Seq<char>>) -> bool {
    (push_only ==> r.push_key is Some) && (key matches Some(k) ==> r.push_key is Some
        && r.push_key->0 == k)
}

/// Whether a session that was read tells its row.
pub open spec fn session_told(r: SessionRowView, p: PersistedUploadSessionView) -> bool {
    &&& p.id == r.id && p.link_id == r.link_id && p.tenant == r.tenant && p.push_key == r.push_key
    &&& p.dest_dir == r.dest_dir && p.dest_rel == r.dest_rel && p.committed_upload_id
        == r.committed_upload_id
    &&& p.started_at == natural(r.started_at) && p.package.length == natural(r.package_length)
    &&& p.max_total_bytes is Some <==> r.max_total_bytes is Some
    &&& p.max_total_bytes matches Some(n) ==> n == natural(r.max_total_bytes->0)
}

/// A session is read with all its files and no other's, lower entries first.
pub proof fn sessions_have_their_files(
    files: Seq<SessionFileRowView>,
    s: PersistedUploadSessionView,
    p: PersistedUploadSessionView,
)
    requires
        session_filled(files)(s) == Ok::<PersistedUploadSessionView, Seq<char>>(p),
    ensures
        p == (PersistedUploadSessionView { files: p.files, ..s }),
        p.files.len() == files.filter(|f: SessionFileRowView| f.session_id == s.id).len(),
        forall|x: PersistedUploadFileView| #[trigger]
            p.files.contains(x) ==> exists|f: SessionFileRowView| #[trigger]
                files.contains(f) && f.session_id == s.id && session_file_read()(f) == Ok::<
                    PersistedUploadFileView,
                    Seq<char>,
                >(x),
        forall|f: SessionFileRowView| #[trigger]
            files.contains(f) && f.session_id == s.id ==> session_file_read()(f) is Ok
                && p.files.contains(session_file_read()(f)->Ok_0),
{
    let own = session_file_of(s.id);
    let rows = files.filter(own);
    let all = sorted_by(rows, lower_entry());
    lemma_selected(files, own);
    lemma_ordered(rows, lower_entry());
    lemma_read(all, session_file_read());
    let raw = |f: SessionFileRowView| f.session_id == s.id;
    lemma_counted(files, own, raw);
    assert forall|x: PersistedUploadFileView| #[trigger] p.files.contains(x) implies exists|
        f: SessionFileRowView,
    | #[trigger]
        files.contains(f) && f.session_id == s.id && session_file_read()(f) == Ok::<
            PersistedUploadFileView,
            Seq<char>,
        >(x) by {
        let i = choose|i: int| 0 <= i < p.files.len() && p.files[i] == x;
        assert(all.contains(all[i]));
        assert(files.contains(all[i]));
    }
    assert forall|f: SessionFileRowView| #[trigger]
        files.contains(f) && f.session_id == s.id implies session_file_read()(f) is Ok
        && p.files.contains(session_file_read()(f)->Ok_0) by {
        assert(all.contains(f));
        let i = choose|i: int| 0 <= i < all.len() && all[i] == f;
        assert(session_file_read()(all[i]) == Ok::<PersistedUploadFileView, Seq<char>>(p.files[i]));
    }
}

/// Whether rows are those behind sessions that were read, oldest first.
pub open spec fn behind(
    s: StoreView,
    rows: Seq<SessionRowView>,
    list: Seq<PersistedUploadSessionView>,
) -> bool {
    &&& rows.len() == list.len()
    &&& forall|i: int|
        0 <= i < list.len() ==> session_told(#[trigger] rows[i], list[i]) && s.sessions.contains(
            rows[i],
        )
    &&& forall|i: int|
        0 < i < rows.len() ==> rows[i - 1].created_at <= (#[trigger] rows[i]).created_at
}

/// The sessions that are loaded are those asked for, all of them, oldest first.
pub proof fn sessions_are_loaded(s: StoreView, push_only: bool, key: Option<Seq<char>>)
    ensures
        sessions_loaded(s, push_only, key) matches Ok(list) ==> {
            &&& list.len() == s.sessions.filter(
                |r: SessionRowView| asked(r, push_only, key),
            ).len()
            &&& forall|p: PersistedUploadSessionView| #[trigger]
                list.contains(p) ==> exists|r: SessionRowView| #[trigger]
                    s.sessions.contains(r) && asked(r, push_only, key) && session_told(r, p)
            &&& forall|r: SessionRowView| #[trigger]
                s.sessions.contains(r) && asked(r, push_only, key) ==> exists|
                    p: PersistedUploadSessionView,
                | #[trigger] list.contains(p) && session_told(r, p)
            &&& exists|rows: Seq<SessionRowView>| behind(s, rows, list)
        },
{
    let own = session_asked(push_only, key);
    let rows = s.sessions.filter(own);
    let all = sorted_by(rows, older_session());
    let raw = |r: SessionRowView| asked(r, push_only, key);
    lemma_counted(s.sessions, own, raw);
    lemma_selected(s.sessions, own);
    lemma_ordered(rows, older_session());
    lemma_read(all, session_of());
    crate::table::lemma_sorted_ordered(rows, older_session());
    if let Ok(list) = sessions_loaded(s, push_only, key) {
        let bare = try_map(all, session_of())->Ok_0;
        let fill = session_filled(s.session_files);
        lemma_read(bare, fill);
        assert forall|i: int| 0 <= i < list.len() implies session_told(#[trigger] all[i], list[i])
            && s.sessions.contains(all[i]) && own(all[i]) by {
            assert(session_of()(all[i]) == Ok::<PersistedUploadSessionView, Seq<char>>(bare[i]));
            assert(fill(bare[i]) == Ok::<PersistedUploadSessionView, Seq<char>>(list[i]));
            assert(all.contains(all[i]));
        }
        assert(behind(s, all, list)) by {
            assert forall|i: int| 0 < i < all.len() implies all[i - 1].created_at <= (
            #[trigger] all[i]).created_at by {
                assert(!older_session()(all[i], all[i - 1]));
            }
        }
        assert forall|p: PersistedUploadSessionView| #[trigger] list.contains(p) implies exists|
            r: SessionRowView,
        | #[trigger] s.sessions.contains(r) && asked(r, push_only, key) && session_told(r, p) by {
            let i = choose|i: int| 0 <= i < list.len() && list[i] == p;
            assert(session_told(all[i], list[i]));
            assert(raw(all[i]));
        }
        assert forall|r: SessionRowView| #[trigger]
            s.sessions.contains(r) && asked(r, push_only, key) implies exists|
            p: PersistedUploadSessionView,
        | #[trigger] list.contains(p) && session_told(r, p) by {
            assert(raw(r) && own(r));
            assert(all.contains(r));
            let i = choose|i: int| 0 <= i < all.len() && all[i] == r;
            assert(session_told(all[i], list[i]));
            assert(list.contains(list[i]));
        }
    }
}

/// The store without a session.
pub open spec fn without_session(s: StoreView, id: Seq<char>) -> StoreView {
    StoreView {
        sessions: s.sessions.filter(other_session(id)),
        session_files: s.session_files.filter(session_file_of_others(id)),
        ..s
    }
}

/// A session that is deleted goes with its files, and nothing else does.
pub proof fn sessions_go_with_their_files(s: StoreView, id: Seq<char>)
    ensures
        forall|r: SessionRowView| #[trigger]
            without_session(s, id).sessions.contains(r) <==> s.sessions.contains(r) && r.id != id,
        forall|f: SessionFileRowView| #[trigger]
            without_session(s, id).session_files.contains(f) <==> s.session_files.contains(f)
                && f.session_id != id,
        without_session(s, id) == (StoreView {
            sessions: without_session(s, id).sessions,
            session_files: without_session(s, id).session_files,
            ..s
        }),
{
    lemma_selected(s.sessions, other_session(id));
    lemma_selected(s.session_files, session_file_of_others(id));
}

} // verus!
