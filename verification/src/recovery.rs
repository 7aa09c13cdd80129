//! What recording an upload does: a new one is there as it was received, a partial one that
//! is recovered keeps what it had and gains what came, and a session becomes its upload.
use vstd::prelude::*;

use crate::columns::column;
use crate::files::{lemma_place_found, put};
use crate::paging::{is_order, lemma_ascending_unique, lemma_sorted_ascending};
use crate::quota::{distinct_keys, same_key};
use crate::records::{FileRecordView, UploadRecordView};
use crate::rows::{FileRowView, LinkRowView, SessionRowView, UploadRowView};
use crate::selection::{lemma_changed, lemma_found, lemma_selected};
use crate::store::StoreView;
use crate::table::{any, first, sorted_by};
use crate::uploads::{
    UploadHooks, all_put, appended, committed, file_of_upload, header_row, link_is, loaded,
    lower_index, merged, not_place_from, path_index, record_row, record_rows, recovered, reheaded,
    session_for, uncommitted, upload_at, upload_is, upload_read, with_rewritten, with_upload,
};

verus! {

// ------------------------------------------------------------------- merging
/// The lengths of files, added up.
pub open spec fn lengths(files: Seq<FileRecordView>) -> int {
    files.fold_left(0int, |sum: int, f: FileRecordView| sum + f.bytes)
}

/// Whether two records tell the same file: length, suite and root agree.
pub open spec fn same_file(a: FileRecordView, b: FileRecordView) -> bool {
    a.stored_as == b.stored_as && a.bytes == b.bytes && a.suite == b.suite && a.root == b.root
}

/// Whether a file is among others, its receipt not forgotten.
pub open spec fn is_among(f: FileRecordView, files: Seq<FileRecordView>) -> bool {
    exists|i: int|
        0 <= i < files.len() && same_file(f, #[trigger] files[i]) && (f.receipt
            ==> files[i].receipt)
}

proof fn lemma_path_found(files: Seq<FileRecordView>, path: Seq<char>)
    ensures
        0 <= path_index(files, path) <= files.len(),
        path_index(files, path) < files.len() ==> files[path_index(files, path)].stored_as == path,
        forall|j: int|
            0 <= j < path_index(files, path) ==> (#[trigger] files[j]).stored_as != path,
    decreases files.len(),
{
    if files.len() > 0 && files[0].stored_as != path {
        let t = files.skip(1);
        lemma_path_found(t, path);
        assert forall|j: int| 0 <= j < path_index(files, path) implies (
        #[trigger] files[j]).stored_as != path by {
            if j > 0 {
                assert(t[j - 1].stored_as != path);
            }
        }
    }
}

/// A recovered upload has the files it had, in their places and as they were but for
/// receipts that were gained, and every file that came; and it has no others. It is refused
/// only where a file that came has the path of another and is not that file.
pub proof fn recovery_keeps_and_gains(known: Seq<FileRecordView>, more: Seq<FileRecordView>)
    ensures
        match merged(known, more) {
            Ok(files) => {
                &&& known.len() <= files.len() <= known.len() + more.len()
                &&& forall|i: int|
                    0 <= i < known.len() ==> {
                        &&& (#[trigger] files[i]) == FileRecordView {
                            receipt: files[i].receipt,
                            ..known[i]
                        }
                        &&& known[i].receipt ==> files[i].receipt
                    }
                &&& forall|j: int| 0 <= j < more.len() ==> is_among(#[trigger] more[j], files)
                &&& forall|i: int|
                    known.len() <= i < files.len() ==> exists|j: int|
                        0 <= j < more.len() && #[trigger] more[j] == (FileRecordView {
                            receipt: more[j].receipt,
                            ..#[trigger] files[i]
                        })
                &&& forall|i: int, j: int|
                    0 <= i < files.len() && known.len() <= j < files.len() && i < j
                        ==> files[i].stored_as != files[j].stored_as
            },
            Err(_) => exists|j: int| 0 <= j < more.len() && clashes(#[trigger] more[j], known, more),
        },
    decreases more.len(),
{
    if more.len() > 0 {
        let head = more.drop_last();
        let f = more.last();
        recovery_keeps_and_gains(known, head);
        match merged(known, head) {
            Err(_) => {
                let j = choose|j: int|
                    0 <= j < head.len() && clashes(#[trigger] head[j], known, head);
                assert(more[j] == head[j]);
                lemma_clash(head[j], known, head, more);
            },
            Ok(before) => {
                lemma_path_found(before, f.stored_as);
                let i = path_index(before, f.stored_as);
                match merged(known, more) {
                    Err(_) => {
                        assert(more[more.len() - 1] == f);
                        if i < known.len() {
                            assert(before[i].stored_as == known[i].stored_as);
                            assert(clashes(more[more.len() - 1], known, more));
                        } else {
                            let j = choose|j: int|
                                0 <= j < head.len() && #[trigger] head[j] == (FileRecordView {
                                    receipt: head[j].receipt,
                                    ..before[i]
                                });
                            assert(more[j] == head[j]);
                            assert(clashes(more[more.len() - 1], known, more));
                        }
                    },
                    Ok(files) => {
                        assert forall|j: int| 0 <= j < more.len() implies is_among(
                            #[trigger] more[j],
                            files,
                        ) by {
                            if j < head.len() {
                                assert(head[j] == more[j]);
                                assert(is_among(head[j], before));
                                let k = choose|k: int|
                                    0 <= k < before.len() && same_file(
                                        head[j],
                                        #[trigger] before[k],
                                    ) && (head[j].receipt ==> before[k].receipt);
                                assert(same_file(more[j], files[k]));
                            } else {
                                assert(same_file(f, files[i]));
                            }
                        }
                        assert forall|k: int| known.len() <= k < files.len() implies exists|j: int|
                            0 <= j < more.len() && #[trigger] more[j] == (FileRecordView {
                                receipt: more[j].receipt,
                                ..#[trigger] files[k]
                            }) by {
                            if k < before.len() {
                                let j = choose|j: int|
                                    0 <= j < head.len() && #[trigger] head[j] == (FileRecordView {
                                        receipt: head[j].receipt,
                                        ..before[k]
                                    });
                                assert(more[j] == head[j]);
                            } else {
                                assert(more[more.len() - 1] == files[k]);
                            }
                        }
                        assert forall|a: int, b: int|
                            0 <= a < files.len() && known.len() <= b < files.len() && a
                                < b implies files[a].stored_as != files[b].stored_as by {
                            if b < before.len() {
                                assert(before[a].stored_as != before[b].stored_as);
                            } else {
                                assert(before[a].stored_as != f.stored_as);
                            }
                        }
                    },
                }
            },
        }
    }
}

/// Whether a file that came has the path of another file, known or come, and is not that
/// file.
pub open spec fn clashes(
    f: FileRecordView,
    known: Seq<FileRecordView>,
    more: Seq<FileRecordView>,
) -> bool {
    ||| exists|i: int|
        0 <= i < known.len() && (#[trigger] known[i]).stored_as == f.stored_as && !same_file(
            known[i],
            f,
        )
    ||| exists|i: int|
        0 <= i < more.len() && (#[trigger] more[i]).stored_as == f.stored_as && !same_file(
            more[i],
            f,
        )
}

proof fn lemma_clash(
    f: FileRecordView,
    known: Seq<FileRecordView>,
    head: Seq<FileRecordView>,
    more: Seq<FileRecordView>,
)
    requires
        clashes(f, known, head),
        more.len() > 0,
        head == more.drop_last(),
    ensures
        clashes(f, known, more),
{
    if exists|i: int|
        0 <= i < head.len() && (#[trigger] head[i]).stored_as == f.stored_as && !same_file(
            head[i],
            f,
        ) {
        let i = choose|i: int|
            0 <= i < head.len() && (#[trigger] head[i]).stored_as == f.stored_as && !same_file(
                head[i],
                f,
            );
        assert(more[i] == head[i]);
    }
}

proof fn lemma_lengths(files: Seq<FileRecordView>)
    ensures
        crate::uploads::total_bytes(files) == lengths(files),
        lengths(files) >= 0,
    decreases files.len(),
{
    reveal_with_fuel(Seq::fold_left, 2);
    if files.len() > 0 {
        lemma_lengths(files.drop_last());
    }
}

/// A recovered upload is the one that was known, with the files merged and the time of the
/// recovery; its bytes are those of all its files, up to the greatest number.
pub proof fn recovered_uploads_count_all_their_files(
    known: UploadRecordView,
    more: UploadRecordView,
)
    ensures
        match recovered(known, more) {
            Ok(next) => {
                &&& known.partial && known.package_root == more.package_root
                &&& merged(known.files, more.files) == Ok::<Seq<FileRecordView>, Seq<char>>(
                    next.files,
                )
                &&& lengths(next.files) <= u64::MAX ==> next.total_bytes == lengths(next.files)
                &&& lengths(next.files) > u64::MAX ==> next.total_bytes == u64::MAX
                &&& next.completed_at == more.completed_at
                &&& next == UploadRecordView {
                    files: next.files,
                    total_bytes: next.total_bytes,
                    completed_at: next.completed_at,
                    ..known
                }
            },
            Err(_) => !known.partial || known.package_root != more.package_root || merged(
                known.files,
                more.files,
            ) is Err,
        },
{
    if let Ok(next) = recovered(known, more) {
        lemma_lengths(next.files);
    }
}

// ----------------------------------------------------------------- rewriting
proof fn lemma_put(files: Seq<FileRowView>, f: FileRowView)
    requires
        distinct_keys(files),
    ensures
        distinct_keys(put(files, f)),
        forall|x: FileRowView| #[trigger]
            put(files, f).contains(x) <==> x == f || (files.contains(x) && !same_key(x, f)),
{
    lemma_place_found(files, f);
    let i = crate::files::place_of(files, f);
    let after = put(files, f);
    assert forall|a: int, b: int| 0 <= a < b < after.len() implies !same_key(after[a], after[b]) by {
        if a < files.len() && b < files.len() {
            assert(!same_key(files[a], files[b]));
        }
        if i == files.len() && b == i {
            assert(!same_key(files[a], f));
        }
    }
    assert forall|x: FileRowView| #[trigger] after.contains(x) <==> x == f || (files.contains(x)
        && !same_key(x, f)) by {
        assert(after[i] == f);
        if files.contains(x) && !same_key(x, f) {
            let k = choose|k: int| 0 <= k < files.len() && files[k] == x;
            assert(after[k] == x);
        }
        if after.contains(x) && x != f {
            let k = choose|k: int| 0 <= k < after.len() && after[k] == x;
            assert(files[k] == x);
            if k < i {
                assert(!same_key(files[k], f));
            } else {
                assert(!same_key(files[i], files[k]));
            }
        }
    }
}

proof fn lemma_all_put(files: Seq<FileRowView>, rows: Seq<FileRowView>)
    requires
        distinct_keys(files),
        distinct_keys(rows),
    ensures
        distinct_keys(all_put(files, rows)),
        forall|x: FileRowView| #[trigger]
            all_put(files, rows).contains(x) <==> rows.contains(x) || (files.contains(x)
                && forall|k: int| 0 <= k < rows.len() ==> !same_key(x, #[trigger] rows[k])),
    decreases rows.len(),
{
    if rows.len() > 0 {
        let head = rows.drop_last();
        let f = rows.last();
        assert forall|i: int, j: int| 0 <= i < j < head.len() implies !same_key(head[i], head[j]) by {
            assert(!same_key(rows[i], rows[j]));
        }
        lemma_all_put(files, head);
        lemma_put(all_put(files, head), f);
        assert forall|x: FileRowView| #[trigger] all_put(files, rows).contains(x) <==> rows.contains(
            x,
        ) || (files.contains(x) && forall|k: int|
            0 <= k < rows.len() ==> !same_key(x, #[trigger] rows[k])) by {
            assert(rows[rows.len() - 1] == f);
            if head.contains(x) {
                let k = choose|k: int| 0 <= k < head.len() && head[k] == x;
                assert(rows[k] == x);
                assert(!same_key(rows[k], rows[rows.len() - 1]));
            }
            if rows.contains(x) && x != f {
                let k = choose|k: int| 0 <= k < rows.len() && rows[k] == x;
                assert(head[k] == x);
                assert(head.contains(x));
            }
            if files.contains(x) && all_put(files, head).contains(x) && !same_key(x, f)
                && !head.contains(x) {
                assert forall|k: int| 0 <= k < rows.len() implies !same_key(x, #[trigger] rows[k]) by {
                    if k < head.len() {
                        assert(rows[k] == head[k]);
                    }
                }
            }
            if files.contains(x) && (forall|k: int|
                0 <= k < rows.len() ==> !same_key(x, #[trigger] rows[k])) {
                assert forall|k: int| 0 <= k < head.len() implies !same_key(x, #[trigger] head[k]) by {
                    assert(head[k] == rows[k]);
                }
                assert(!same_key(x, rows[rows.len() - 1]));
            }
        }
    }
}

proof fn lemma_loaded_indexes(rows: Seq<FileRowView>, expected: i64)
    requires
        loaded(rows, expected) is Ok,
    ensures
        loaded(rows, expected)->Ok_0.len() == rows.len(),
        forall|i: int| 0 <= i < rows.len() ==> (#[trigger] rows[i]).file_index >= 0,
    decreases rows.len(),
{
    if rows.len() > 0 {
        lemma_loaded_indexes(rows.drop_last(), expected);
        assert forall|i: int| 0 <= i < rows.len() implies (#[trigger] rows[i]).file_index >= 0 by {
            if i < rows.len() - 1 {
                assert(rows.drop_last()[i].file_index >= 0);
            }
        }
    }
}

/// An upload that is rewritten is read back as it was written.
pub proof fn rewritten_uploads_read_back(
    s: StoreView,
    tenant: Seq<char>,
    link_id: Seq<char>,
    next: UploadRecordView,
)
    requires
        distinct_keys(s.files),
        next.files.len() <= i64::MAX,
        upload_read(s, tenant, link_id, next.id) matches Ok(Some(_)),
    ensures
        upload_read(with_rewritten(s, tenant, link_id, next), tenant, link_id, next.id) == Ok::<
            Option<UploadRecordView>,
            Seq<char>,
        >(Some(next)),
{
    let p = upload_is(tenant, link_id, next.id);
    let header = header_row(tenant, link_id, next);
    let after = with_rewritten(s, tenant, link_id, next);
    let rows = record_rows(tenant, link_id, next);
    let end = column(next.files.len() as u64);
    let own = file_of_upload(tenant, link_id, next.id);
    let u = first(s.uploads, p)->0;
    lemma_found(s.uploads, p);
    crate::table::lemma_first_updated(s.uploads, p, reheaded(header));
    let w = reheaded(header)(u);
    assert(first(after.uploads, p) == Some(w));
    // the records before
    let before = sorted_by(s.files.filter(own), lower_index());
    crate::selection::lemma_ordered(s.files.filter(own), lower_index());
    lemma_loaded_indexes(before, u.file_count);
    lemma_selected(s.files, own);
    assert forall|x: FileRowView| #[trigger] s.files.contains(x) && own(x) implies x.file_index
        >= 0 by {
        assert(s.files.filter(own).contains(x));
        assert(before.contains(x));
        let i = choose|i: int| 0 <= i < before.len() && before[i] == x;
        assert(before[i].file_index >= 0);
    }
    // the records since
    assert forall|i: int, j: int| 0 <= i < j < rows.len() implies !same_key(rows[i], rows[j]) by {
        assert(rows[i].file_index == i && rows[j].file_index == j);
    }
    let placed = all_put(s.files, rows);
    lemma_all_put(s.files, rows);
    let stay = not_place_from(link_id, next.id, end);
    lemma_selected(placed, stay);
    lemma_selected(after.files, own);
    assert forall|x: FileRowView| #[trigger] after.files.filter(own).contains(x) <==> rows.contains(
        x,
    ) by {
        if rows.contains(x) {
            let k = choose|k: int| 0 <= k < rows.len() && rows[k] == x;
            assert(x == record_row(tenant, link_id, next.id, k, next.files[k]));
            assert(placed.contains(x));
            assert(stay(x));
            assert(after.files.contains(x));
        }
        if after.files.contains(x) && own(x) && !rows.contains(x) {
            assert(placed.contains(x));
            assert(s.files.contains(x));
            assert(stay(x));
            assert(0 <= x.file_index < end);
            assert(same_key(x, rows[x.file_index as int]));
        }
    }
    // in order
    let lt = lower_index();
    let chosen = after.files.filter(own);
    assert(is_order(lt));
    let key = |a: FileRowView, b: FileRowView| !same_key(a, b);
    crate::uniqueness::lemma_filter_pairs(placed, stay, key);
    crate::uniqueness::lemma_filter_pairs(after.files, own, key);
    crate::table::lemma_filter_any_of(after.files, own);
    assert forall|i: int, j: int| 0 <= i < j < chosen.len() implies lt(
        #[trigger] chosen[i],
        #[trigger] chosen[j],
    ) || lt(chosen[j], chosen[i]) by {
        assert(key(chosen[i], chosen[j]));
        assert(own(chosen[i]) && own(chosen[j]));
    }
    lemma_sorted_ascending(chosen, lt);
    assert forall|i: int, j: int| 0 <= i < j < rows.len() implies lt(
        #[trigger] rows[i],
        #[trigger] rows[j],
    ) by {
        assert(rows[i].file_index == i && rows[j].file_index == j);
    }
    lemma_ascending_unique(sorted_by(chosen, lt), rows, lt);
    let n = next.files.len() as int;
    crate::readback::lemma_rows_loaded(tenant, link_id, next, n);
    assert(rows.take(n) =~= rows);
    assert(next.files.take(n) =~= next.files);
    assert(UploadRecordView { files: next.files, ..w.header } == next);
}

// ----------------------------------------------------------------- recording
/// Whether a tenant has a link whose events are readable, the first of its id.
pub open spec fn link_there(s: StoreView, tenant: Seq<char>, link_id: Seq<char>) -> bool {
    first(s.links, link_is(tenant, link_id)) matches Some(l) && l.events_error is None
}

/// Once a partial upload that a link has is recorded again, it is read back with the files it
/// had and those that came, and its bytes are those of all of them.
pub proof fn recoveries_are_read_back(
    s: StoreView,
    tenant: Seq<char>,
    link_id: Seq<char>,
    upload: UploadRecordView,
    hooks: UploadHooks,
    known: UploadRecordView,
)
    requires
        distinct_keys(s.files),
        known.files.len() + upload.files.len() <= i64::MAX,
        upload.partial,
        upload_read(s, tenant, link_id, upload.id) == Ok::<Option<UploadRecordView>, Seq<char>>(
            Some(known),
        ),
    ensures
        appended(s, tenant, link_id, upload, None, hooks) matches Ok((after, id)) ==> {
            &&& id == Some(upload.id)
            &&& upload_read(after, tenant, link_id, upload.id) matches Ok(Some(u)) && {
                &&& u.total_bytes == if lengths(u.files) <= u64::MAX {
                    lengths(u.files)
                } else {
                    u64::MAX as int
                }
                &&& forall|j: int|
                    0 <= j < upload.files.len() ==> is_among(#[trigger] upload.files[j], u.files)
                &&& known.files.len() <= u.files.len()
                &&& forall|i: int|
                    0 <= i < known.files.len() ==> same_file(
                        known.files[i],
                        #[trigger] u.files[i],
                    ) && known.files[i].path == u.files[i].path && known.files[i].deleted
                        == u.files[i].deleted && (known.files[i].receipt ==> u.files[i].receipt)
                &&& u.completed_at == upload.completed_at
                &&& u.partial && u.id == upload.id && u.package_root == upload.package_root
                &&& u.started_at == known.started_at
            }
            &&& after == StoreView {
                uploads: after.uploads,
                files: after.files,
                quotas: after.quotas,
                ..s
            }
        },
{
    lemma_found(s.uploads, upload_is(tenant, link_id, upload.id));
    if let Ok((after, id)) = appended(s, tenant, link_id, upload, None, hooks) {
        lemma_found(s.links, link_is(tenant, link_id));
        let next = recovered(known, upload)->Ok_0;
        recovered_uploads_count_all_their_files(known, upload);
        recovery_keeps_and_gains(known.files, upload.files);
        assert(known.id == upload.id);
        rewritten_uploads_read_back(s, tenant, link_id, next);
        assert forall|i: int| 0 <= i < known.files.len() implies same_file(
            known.files[i],
            #[trigger] next.files[i],
        ) && known.files[i].path == next.files[i].path && known.files[i].deleted
            == next.files[i].deleted && (known.files[i].receipt ==> next.files[i].receipt) by {}
    }
}

/// An upload that the link does not have is recorded as it was received: it is read back, and
/// all other uploads and files are as they were. A link that the tenant does not have records
/// nothing.
pub proof fn new_uploads_are_recorded(
    s: StoreView,
    tenant: Seq<char>,
    link_id: Seq<char>,
    upload: UploadRecordView,
    session: Option<Seq<char>>,
    hooks: UploadHooks,
)
    requires
        upload.files.len() <= i64::MAX,
        forall|u: UploadRowView| #[trigger]
            s.uploads.contains(u) ==> u.link_id != link_id || u.upload_id != upload.id,
        forall|f: FileRowView| #[trigger]
            s.files.contains(f) ==> f.link_id != link_id || f.upload_id != upload.id,
        session matches Some(id) ==> forall|x: SessionRowView| #[trigger]
            s.sessions.contains(x) && x.id == id ==> x.committed_upload_id is None,
    ensures
        appended(s, tenant, link_id, upload, session, hooks) matches Ok((after, id)) ==> {
            let there = exists|l: LinkRowView| #[trigger]
                s.links.contains(l) && l.tenant == tenant && l.id == link_id;
            &&& !there ==> id is None && after == s
            &&& there ==> {
                &&& id == Some(upload.id)
                &&& upload_read(after, tenant, link_id, upload.id) == Ok::<
                    Option<UploadRecordView>,
                    Seq<char>,
                >(Some(upload))
                &&& after.uploads.len() == s.uploads.len() + 1 && after.uploads.take(
                    s.uploads.len() as int,
                ) == s.uploads
                &&& after.files.len() == s.files.len() + upload.files.len() && after.files.take(
                    s.files.len() as int,
                ) == s.files
                &&& after == StoreView {
                    uploads: after.uploads,
                    files: after.files,
                    quotas: after.quotas,
                    sessions: after.sessions,
                    ..s
                }
                &&& session is None || upload.partial ==> after.sessions == s.sessions
            }
        },
        // without a session, an upload is refused only by what is unreadable or by the hooks
        session is None && hooks.queued is Ok && link_there(s, tenant, link_id) ==> appended(
            s,
            tenant,
            link_id,
            upload,
            session,
            hooks,
        ) is Ok,
{
    lemma_found(s.links, link_is(tenant, link_id));
    lemma_found(s.uploads, upload_is(tenant, link_id, upload.id));
    lemma_found(s.uploads, upload_at(link_id, upload.id));
    lemma_found(
        s.files,
        crate::uploads::place_below(link_id, upload.id, column(upload.files.len() as u64)),
    );
    lemma_found(s.files, file_of_upload(tenant, link_id, upload.id));
    if let Some(id) = session {
        lemma_found(s.sessions, session_for(id, tenant, link_id));
    }
    if let Ok((after, id)) = appended(s, tenant, link_id, upload, session, hooks) {
        if any(s.links, link_is(tenant, link_id)) {
            crate::readback::stored_uploads_read_back(s, tenant, link_id, upload);
            let stored = with_upload(s, tenant, link_id, upload);
            assert(stored.uploads.take(s.uploads.len() as int) =~= s.uploads);
            assert(stored.files.take(s.files.len() as int) =~= s.files);
            assert(upload_read(after, tenant, link_id, upload.id) == upload_read(
                stored,
                tenant,
                link_id,
                upload.id,
            ));
        }
    }
}

/// Recording a full upload once more changes nothing; under the same id another upload is
/// refused.
pub proof fn uploads_are_recorded_once(
    s: StoreView,
    tenant: Seq<char>,
    link_id: Seq<char>,
    upload: UploadRecordView,
    hooks: UploadHooks,
    known: UploadRecordView,
)
    requires
        !upload.partial,
        upload_read(s, tenant, link_id, upload.id) == Ok::<Option<UploadRecordView>, Seq<char>>(
            Some(known),
        ),
    ensures
        appended(s, tenant, link_id, upload, None, hooks) matches Ok((after, id)) ==> after == s
            && id == Some(upload.id) && known == upload,
        known == upload && hooks.queued is Ok && link_there(s, tenant, link_id) ==> appended(
            s,
            tenant,
            link_id,
            upload,
            None,
            hooks,
        ) is Ok,
{
    lemma_found(s.links, link_is(tenant, link_id));
}

/// A session becomes the full upload that is recorded from it: only that session changes, and
/// whatever is recorded from it later, it stays that upload and nothing changes.
pub proof fn sessions_become_their_upload(
    s: StoreView,
    tenant: Seq<char>,
    link_id: Seq<char>,
    upload: UploadRecordView,
    session: Seq<char>,
    hooks: UploadHooks,
    later: UploadRecordView,
    others: UploadHooks,
)
    requires
        !upload.partial,
    ensures
        (forall|x: SessionRowView| #[trigger]
            s.sessions.contains(x) ==> !(x.id == session && x.tenant == tenant && x.link_id
                == link_id)) ==> appended(s, tenant, link_id, upload, Some(session), hooks) is Err,
        appended(s, tenant, link_id, upload, Some(session), hooks) matches Ok((after, Some(id))) ==> {
            &&& after.sessions.len() == s.sessions.len()
            &&& forall|i: int|
                0 <= i < s.sessions.len() ==> (#[trigger] after.sessions[i]) == if after.uploads
                    != s.uploads && s.sessions[i].id == session
                    && s.sessions[i].committed_upload_id is None {
                    SessionRowView { committed_upload_id: Some(upload.id), ..s.sessions[i] }
                } else {
                    s.sessions[i]
                }
            &&& (forall|i: int, j: int|
                0 <= i < j < s.sessions.len() ==> s.sessions[i].id != s.sessions[j].id) ==> {
                &&& forall|i: int|
                    0 <= i < after.sessions.len() && (#[trigger] after.sessions[i]).id == session
                        ==> after.sessions[i].committed_upload_id == Some(id)
                &&& appended(after, tenant, link_id, later, Some(session), others) == Ok::<
                    (StoreView, Option<Seq<char>>),
                    Seq<char>,
                >((after, Some(id)))
            }
        },
{
    let mine = session_for(session, tenant, link_id);
    let fresh = uncommitted(session);
    lemma_found(s.sessions, mine);
    lemma_found(s.links, link_is(tenant, link_id));
    if let Ok((after, Some(id))) = appended(s, tenant, link_id, upload, Some(session), hooks) {
        lemma_changed(s.sessions, fresh, committed(upload.id));
        let row = first(s.sessions, mine)->0;
        if row.committed_upload_id is None {
            assert(after.uploads.len() == s.uploads.len() + 1);
        }
        if forall|i: int, j: int|
            0 <= i < j < s.sessions.len() ==> s.sessions[i].id != s.sessions[j].id {
            let k = choose|k: int| 0 <= k < s.sessions.len() && s.sessions[k] == row;
            assert forall|i: int|
                0 <= i < after.sessions.len() && (#[trigger] after.sessions[i]).id
                    == session implies after.sessions[i].committed_upload_id == Some(id) by {
                assert(s.sessions[i].id == session);
                if i < k {
                    assert(s.sessions[i].id != s.sessions[k].id);
                } else if k < i {
                    assert(s.sessions[k].id != s.sessions[i].id);
                }
            }
            lemma_found(after.sessions, mine);
            assert(mine(after.sessions[k]));
            assert(after.sessions.contains(after.sessions[k]));
            let found = first(after.sessions, mine)->0;
            let m = choose|m: int| 0 <= m < after.sessions.len() && after.sessions[m] == found;
            assert(after.sessions[m].committed_upload_id == Some(id));
        }
    }
}

} // verus!
