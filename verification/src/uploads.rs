//! Upload records: a header of each upload and the records of its files.
use vstd::prelude::*;

use crate::columns::{
    LIMB, column, decode_error, high, is_limb, low, size_to_column, split_bytes, undecoded,
};
use crate::decimal::{i64_text, signed_decimal};
use crate::files::{after_put, delete_files, file_bytes, insert_file, purged, put, put_file};
use crate::quota::{after_insert, weight};
use crate::records::{FileRecord, FileRecordView, LogEvent, UploadRecord, UploadRecordView};
use crate::rows::{
    FileRow, FileRowView, LinkRow, LinkRowView, QuotaRow, QuotaRowView, SessionRow, SessionRowView,
    UploadRow, UploadRowView,
};
use crate::store::{Store, StoreView, follows};
use crate::table::{
    Row, any, append_row, count, count_where, dup_option, dup_rows, exists_where, find, first,
    outcome, rows_equal, select, sort_rows, sorted_by, try_map, try_project, update_where, updated,
};
use crate::text::{same, same_option};
use crate::usage::capped;

verus! {

// ------------------------------------------------------------ specifications
/// The refusal of file records that do not fit their upload's header.
pub open spec fn mismatch() -> Seq<char> {
    "Conversion error from type Text at index: 0, upload file records do not match their header"@
}

/// The refusal of a column that holds no limb.
pub open spec fn no_limb(value: i64, index: Seq<char>) -> Seq<char> {
    "Integer "@ + signed_decimal(value as int) + " out of range at index "@ + index
}

/// The file that a record row stands for.
pub open spec fn record_of(f: FileRowView) -> Result<FileRecordView, Seq<char>> {
    if !is_limb(f.bytes_hi) {
        Err(no_limb(f.bytes_hi, "3"@))
    } else if !is_limb(f.bytes_lo) {
        Err(no_limb(f.bytes_lo, "4"@))
    } else {
        Ok(
            FileRecordView {
                path: f.path,
                stored_as: f.stored_as,
                bytes: weight(f),
                suite: f.suite,
                root: f.root,
                receipt: f.receipt,
                deleted: f.deleted,
            },
        )
    }
}

/// The files of an upload of `expected` files, as rows in order of their index
/// give them: without a gap, and none too many.
pub open spec fn loaded(rows: Seq<FileRowView>, expected: i64) -> Result<
    Seq<FileRecordView>,
    Seq<char>,
>
    decreases rows.len(),
{
    if rows.len() == 0 {
        Ok(Seq::empty())
    } else {
        match loaded(rows.drop_last(), expected) {
            Err(e) => Err(e),
            Ok(done) => {
                let f = rows.last();
                if f.file_index != column(done.len() as u64) || f.file_index >= expected {
                    Err(mismatch())
                } else {
                    match record_of(f) {
                        Err(e) => Err(e),
                        Ok(record) => Ok(done.push(record)),
                    }
                }
            },
        }
    }
}

/// The file rows of an upload.
pub open spec fn file_of_upload(
    tenant: Seq<char>,
    link_id: Seq<char>,
    upload_id: Seq<char>,
) -> spec_fn(FileRowView) -> bool {
    |f: FileRowView| f.tenant == tenant && f.link_id == link_id && f.upload_id == upload_id
}

/// Lower indexes first.
pub open spec fn lower_index() -> spec_fn(FileRowView, FileRowView) -> bool {
    |a: FileRowView, b: FileRowView| a.file_index < b.file_index
}

/// The upload that a header row stands for, with its files.
pub open spec fn hydrated(files: Seq<FileRowView>) -> spec_fn(UploadRowView) -> Result<
    UploadRecordView,
    Seq<char>,
> {
    |u: UploadRowView|
        if u.header_error is Some {
            Err(undecoded("0"@, u.header_error->0))
        } else if u.header.id != u.upload_id || u.header.files.len() > 0 {
            Err(mismatch())
        } else {
            match loaded(
                sorted_by(
                    files.filter(file_of_upload(u.tenant, u.link_id, u.upload_id)),
                    lower_index(),
                ),
                u.file_count,
            ) {
                Err(e) => Err(e),
                Ok(records) => if column(records.len() as u64) != u.file_count {
                    Err(mismatch())
                } else {
                    Ok(UploadRecordView { files: records, ..u.header })
                },
            }
        }
}

/// The uploads of a link.
pub open spec fn upload_of_link(link_id: Seq<char>) -> spec_fn(UploadRowView) -> bool {
    |u: UploadRowView| u.link_id == link_id
}

/// One upload of a tenant's link.
pub open spec fn upload_is(tenant: Seq<char>, link_id: Seq<char>, upload_id: Seq<char>) -> spec_fn(
    UploadRowView,
) -> bool {
    |u: UploadRowView| u.tenant == tenant && u.link_id == link_id && u.upload_id == upload_id
}

/// One upload of a link.
pub open spec fn upload_at(link_id: Seq<char>, upload_id: Seq<char>) -> spec_fn(UploadRowView) -> bool {
    |u: UploadRowView| u.link_id == link_id && u.upload_id == upload_id
}

/// The link `id` of a tenant.
pub open spec fn link_is(tenant: Seq<char>, id: Seq<char>) -> spec_fn(LinkRowView) -> bool {
    |l: LinkRowView| l.tenant == tenant && l.id == id
}

/// The uploads of a link, in order.
pub open spec fn uploads_of(s: StoreView, link_id: Seq<char>) -> Result<
    Seq<UploadRecordView>,
    Seq<char>,
> {
    try_map(s.uploads.filter(upload_of_link(link_id)), hydrated(s.files))
}

/// One upload of a tenant's link, if the tenant has that link.
pub open spec fn upload_read(
    s: StoreView,
    tenant: Seq<char>,
    link_id: Seq<char>,
    upload_id: Seq<char>,
) -> Result<Option<UploadRecordView>, Seq<char>> {
    if !any(s.links, link_is(tenant, link_id)) {
        Ok(None)
    } else {
        match first(s.uploads, upload_is(tenant, link_id, upload_id)) {
            None => Ok(None),
            Some(u) => match hydrated(s.files)(u) {
                Ok(upload) => Ok(Some(upload)),
                Err(e) => Err(e),
            },
        }
    }
}

/// The row of an upload's header.
pub open spec fn header_row(tenant: Seq<char>, link_id: Seq<char>, upload: UploadRecordView) -> UploadRowView {
    UploadRowView {
        link_id,
        tenant,
        upload_id: upload.id,
        header: UploadRecordView { files: Seq::empty(), ..upload },
        header_error: None,
        members: None,
        file_count: column(upload.files.len() as u64),
    }
}

/// The row of one file of an upload.
pub open spec fn record_row(
    tenant: Seq<char>,
    link_id: Seq<char>,
    upload_id: Seq<char>,
    index: int,
    record: FileRecordView,
) -> FileRowView {
    FileRowView {
        link_id,
        tenant,
        upload_id,
        file_index: column(index as u64),
        bytes_hi: high(record.bytes),
        bytes_lo: low(record.bytes),
        deleted: record.deleted,
        stored_as: record.stored_as,
        path: record.path,
        suite: record.suite,
        root: record.root,
        receipt: record.receipt,
    }
}

/// The rows of an upload's files.
pub open spec fn record_rows(tenant: Seq<char>, link_id: Seq<char>, upload: UploadRecordView) -> Seq<
    FileRowView,
> {
    Seq::new(
        upload.files.len(),
        |i: int| record_row(tenant, link_id, upload.id, i, upload.files[i]),
    )
}

/// The aggregates after `rows` were inserted one by one behind `files`.
pub open spec fn after_inserts(
    quotas: Seq<QuotaRowView>,
    files: Seq<FileRowView>,
    rows: Seq<FileRowView>,
) -> Seq<QuotaRowView>
    decreases rows.len(),
{
    if rows.len() == 0 {
        quotas
    } else {
        after_insert(after_inserts(quotas, files, rows.drop_last()), files + rows, rows.last())
    }
}

/// The records after `rows` were put at their places one by one.
pub open spec fn all_put(files: Seq<FileRowView>, rows: Seq<FileRowView>) -> Seq<FileRowView>
    decreases rows.len(),
{
    if rows.len() == 0 {
        files
    } else {
        put(all_put(files, rows.drop_last()), rows.last())
    }
}

/// The aggregates after `rows` were put at their places one by one.
pub open spec fn after_puts(
    quotas: Seq<QuotaRowView>,
    files: Seq<FileRowView>,
    rows: Seq<FileRowView>,
) -> Seq<QuotaRowView>
    decreases rows.len(),
{
    if rows.len() == 0 {
        quotas
    } else {
        after_put(
            after_puts(quotas, files, rows.drop_last()),
            all_put(files, rows.drop_last()),
            rows.last(),
        )
    }
}

/// Records of an upload that occupy a place below `end`.
pub open spec fn place_below(link_id: Seq<char>, upload_id: Seq<char>, end: i64) -> spec_fn(
    FileRowView,
) -> bool {
    |f: FileRowView| f.link_id == link_id && f.upload_id == upload_id && 0 <= f.file_index < end
}

/// Records of an upload from a place on.
pub open spec fn place_from(link_id: Seq<char>, upload_id: Seq<char>, end: i64) -> spec_fn(
    FileRowView,
) -> bool {
    |f: FileRowView| f.link_id == link_id && f.upload_id == upload_id && f.file_index >= end
}

/// Everything but an upload's records from a place on.
pub open spec fn not_place_from(link_id: Seq<char>, upload_id: Seq<char>, end: i64) -> spec_fn(
    FileRowView,
) -> bool {
    |f: FileRowView| !place_from(link_id, upload_id, end)(f)
}

/// The store with one more upload of a link.
pub open spec fn with_upload(
    s: StoreView,
    tenant: Seq<char>,
    link_id: Seq<char>,
    upload: UploadRecordView,
) -> StoreView {
    let rows = record_rows(tenant, link_id, upload);
    StoreView {
        uploads: s.uploads.push(header_row(tenant, link_id, upload)),
        files: s.files + rows,
        quotas: after_inserts(s.quotas, s.files, rows),
        ..s
    }
}

/// Why an upload cannot be added to a link: its header or one of its files is
/// there already.
pub open spec fn upload_refused(
    s: StoreView,
    link_id: Seq<char>,
    upload: UploadRecordView,
) -> Option<Seq<char>> {
    if any(s.uploads, upload_at(link_id, upload.id)) {
        Some("UNIQUE constraint failed: link_uploads.link_id, link_uploads.upload_id"@)
    } else if any(s.files, place_below(link_id, upload.id, column(upload.files.len() as u64))) {
        Some("UNIQUE constraint failed: files.link_id, files.upload_id, files.file_index"@)
    } else {
        None
    }
}

/// The position of the first file under a stored path, or the end.
pub open spec fn path_index(files: Seq<FileRecordView>, path: Seq<char>) -> int
    decreases files.len(),
{
    if files.len() == 0 || files[0].stored_as == path {
        0
    } else {
        1 + path_index(files.skip(1), path)
    }
}

/// A recovered upload's files: those known before, with the receipts since
/// written, then the new ones. A file known before must be the same file.
pub open spec fn merged(known: Seq<FileRecordView>, more: Seq<FileRecordView>) -> Result<
    Seq<FileRecordView>,
    Seq<char>,
>
    decreases more.len(),
{
    if more.len() == 0 {
        Ok(known)
    } else {
        match merged(known, more.drop_last()) {
            Err(e) => Err(e),
            Ok(files) => {
                let f = more.last();
                let i = path_index(files, f.stored_as);
                if i == files.len() {
                    Ok(files.push(f))
                } else if files[i].bytes != f.bytes || files[i].suite != f.suite || files[i].root
                    != f.root {
                    Err("recovered file identity changed"@)
                } else {
                    Ok(
                        files.update(
                            i,
                            FileRecordView { receipt: files[i].receipt || f.receipt, ..files[i] },
                        ),
                    )
                }
            },
        }
    }
}

/// The lengths of files together.
pub open spec fn total_bytes(files: Seq<FileRecordView>) -> int
    decreases files.len(),
{
    if files.len() == 0 {
        0
    } else {
        total_bytes(files.drop_last()) + files.last().bytes
    }
}

/// A partial upload with what was recovered of it since.
pub open spec fn recovered(known: UploadRecordView, more: UploadRecordView) -> Result<
    UploadRecordView,
    Seq<char>,
> {
    if !known.partial || known.package_root != more.package_root {
        Err("recovery upload identity changed"@)
    } else {
        match merged(known.files, more.files) {
            Err(e) => Err(e),
            Ok(files) => Ok(
                UploadRecordView {
                    files,
                    total_bytes: capped(total_bytes(files)),
                    completed_at: more.completed_at,
                    ..known
                },
            ),
        }
    }
}

/// Another header in place of an upload's.
pub open spec fn reheaded(row: UploadRowView) -> spec_fn(UploadRowView) -> UploadRowView {
    |u: UploadRowView|
        UploadRowView {
            header: row.header,
            header_error: row.header_error,
            members: row.members,
            file_count: row.file_count,
            ..u
        }
}

/// The store with an upload's header and files rewritten.
pub open spec fn with_rewritten(
    s: StoreView,
    tenant: Seq<char>,
    link_id: Seq<char>,
    upload: UploadRecordView,
) -> StoreView {
    let rows = record_rows(tenant, link_id, upload);
    let end = column(upload.files.len() as u64);
    let files = all_put(s.files, rows);
    StoreView {
        uploads: updated(
            s.uploads,
            upload_is(tenant, link_id, upload.id),
            reheaded(header_row(tenant, link_id, upload)),
        ),
        files: files.filter(not_place_from(link_id, upload.id, end)),
        quotas: purged(
            after_puts(s.quotas, s.files, rows),
            Seq::empty(),
            files,
            place_from(link_id, upload.id, end),
        ),
        ..s
    }
}

/// A session for a tenant's link.
pub open spec fn session_for(id: Seq<char>, tenant: Seq<char>, link_id: Seq<char>) -> spec_fn(
    SessionRowView,
) -> bool {
    |s: SessionRowView| s.id == id && s.tenant == tenant && s.link_id == link_id
}

/// A session that has not become an upload yet.
pub open spec fn uncommitted(id: Seq<char>) -> spec_fn(SessionRowView) -> bool {
    |s: SessionRowView| s.id == id && s.committed_upload_id is None
}

/// A session that has become an upload.
pub open spec fn committed(upload_id: Seq<char>) -> spec_fn(SessionRowView) -> SessionRowView {
    |s: SessionRowView| SessionRowView { committed_upload_id: Some(upload_id), ..s }
}

/// What the rest of the server says of an upload that is to be recorded.
pub struct UploadHooks {
    /// Whether the workflows that wait for the link's uploads were queued.
    pub queued: Result<(), String>,
    /// Whether the route that the upload's session came by was completed.
    pub routed: Result<(), String>,
}

/// An upload that the link does not have yet, recorded. The session that it
/// comes from, if there is one, has then become that upload.
pub open spec fn added(
    s: StoreView,
    tenant: Seq<char>,
    link_id: Seq<char>,
    upload: UploadRecordView,
    session: Option<Seq<char>>,
    hooks: UploadHooks,
) -> Result<(StoreView, Option<Seq<char>>), Seq<char>> {
    let after = with_upload(s, tenant, link_id, upload);
    if any(s.uploads, upload_at(link_id, upload.id)) {
        Err(upload_refused(s, link_id, upload)->0)
    } else if session is Some && hooks.routed is Err {
        Err(hooks.routed->Err_0@)
    } else if upload_refused(s, link_id, upload) is Some {
        Err(upload_refused(s, link_id, upload)->0)
    } else if hooks.queued is Err {
        Err(hooks.queued->Err_0@)
    } else if session is None || upload.partial {
        Ok((after, Some(upload.id)))
    } else if count(s.sessions, uncommitted(session->0)) == 1 {
        Ok(
            (
                StoreView {
                    sessions: updated(
                        s.sessions,
                        uncommitted(session->0),
                        committed(upload.id),
                    ),
                    ..after
                },
                Some(upload.id),
            ),
        )
    } else {
        Err("upload admission changed at completion"@)
    }
}

/// A partial upload that the link has already, recovered.
pub open spec fn recovery(
    s: StoreView,
    tenant: Seq<char>,
    link_id: Seq<char>,
    known: UploadRecordView,
    upload: UploadRecordView,
) -> Result<(StoreView, Option<Seq<char>>), Seq<char>> {
    match recovered(known, upload) {
        Err(e) => Err(e),
        Ok(next) => Ok((with_rewritten(s, tenant, link_id, next), Some(upload.id))),
    }
}

/// A full upload that the link has already, recorded once more.
pub open spec fn repeated(
    s: StoreView,
    known: UploadRecordView,
    upload: UploadRecordView,
    hooks: UploadHooks,
) -> Result<(StoreView, Option<Seq<char>>), Seq<char>> {
    if known != upload {
        Err("upload identity changed"@)
    } else if hooks.queued is Err {
        Err(hooks.queued->Err_0@)
    } else {
        Ok((s, Some(upload.id)))
    }
}

/// An upload recorded for a link that the tenant has.
pub open spec fn recorded(
    s: StoreView,
    tenant: Seq<char>,
    link_id: Seq<char>,
    upload: UploadRecordView,
    session: Option<Seq<char>>,
    hooks: UploadHooks,
) -> Result<(StoreView, Option<Seq<char>>), Seq<char>> {
    if upload.partial || session is None {
        match upload_read(s, tenant, link_id, upload.id) {
            Err(e) => Err(e),
            Ok(None) => added(s, tenant, link_id, upload, session, hooks),
            Ok(Some(known)) => if upload.partial {
                recovery(s, tenant, link_id, known, upload)
            } else {
                repeated(s, known, upload, hooks)
            },
        }
    } else {
        added(s, tenant, link_id, upload, session, hooks)
    }
}

/// An upload recorded. A session that has become an upload already keeps that
/// one; a link that the tenant does not have records nothing.
pub open spec fn appended(
    s: StoreView,
    tenant: Seq<char>,
    link_id: Seq<char>,
    upload: UploadRecordView,
    session: Option<Seq<char>>,
    hooks: UploadHooks,
) -> Result<(StoreView, Option<Seq<char>>), Seq<char>> {
    let admission = match session {
        Some(id) => first(s.sessions, session_for(id, tenant, link_id)),
        None => None,
    };
    if session is Some && admission is None {
        Err("upload admission is missing at completion"@)
    } else if admission is Some && (admission->0).committed_upload_id is Some {
        Ok((s, (admission->0).committed_upload_id))
    } else {
        match first(s.links, link_is(tenant, link_id)) {
            None => Ok((s, None)),
            Some(link) => if link.events_error is Some {
                Err(undecoded("0"@, link.events_error->0))
            } else {
                recorded(s, tenant, link_id, upload, session, hooks)
            },
        }
    }
}

/// What the rest of the server is to do for an upload that is to be recorded.
#[derive(Clone, Copy, Debug, PartialEq, Eq, Structural)]
pub struct UploadCalls {
    /// Whether the workflows that wait for the link's uploads are to be queued.
    pub queue: bool,
    /// Whether the route that the upload's session came by is to be completed.
    pub route: bool,
}

/// What is to be done for an upload that the link does not have yet.
pub open spec fn calls_to_add(
    s: StoreView,
    link_id: Seq<char>,
    upload: UploadRecordView,
    session: Option<Seq<char>>,
) -> Result<UploadCalls, Seq<char>> {
    match upload_refused(s, link_id, upload) {
        None => Ok(UploadCalls { queue: true, route: session is Some }),
        Some(e) => if session is Some && !any(s.uploads, upload_at(link_id, upload.id)) {
            Ok(UploadCalls { queue: false, route: true })
        } else {
            Err(e)
        },
    }
}

/// What is to be done for an upload: workflows are queued where it is added or
/// repeated, and a route is completed where it is added from a session. A refusal that
/// comes before all that is the upload's.
pub open spec fn calls_needed(
    s: StoreView,
    tenant: Seq<char>,
    link_id: Seq<char>,
    upload: UploadRecordView,
    session: Option<Seq<char>>,
) -> Result<UploadCalls, Seq<char>> {
    let nothing = UploadCalls { queue: false, route: false };
    let admission = match session {
        Some(id) => first(s.sessions, session_for(id, tenant, link_id)),
        None => None,
    };
    if session is Some && admission is None {
        Err("upload admission is missing at completion"@)
    } else if admission is Some && (admission->0).committed_upload_id is Some {
        Ok(nothing)
    } else {
        match first(s.links, link_is(tenant, link_id)) {
            None => Ok(nothing),
            Some(link) => if link.events_error is Some {
                Err(undecoded("0"@, link.events_error->0))
            } else if !upload.partial && session is Some {
                calls_to_add(s, link_id, upload, session)
            } else {
                match upload_read(s, tenant, link_id, upload.id) {
                    Err(e) => Err(e),
                    Ok(None) => calls_to_add(s, link_id, upload, session),
                    Ok(Some(known)) => if upload.partial {
                        match recovered(known, upload) {
                            Err(e) => Err(e),
                            Ok(_) => Ok(nothing),
                        }
                    } else if known != upload {
                        Err("upload identity changed"@)
                    } else {
                        Ok(UploadCalls { queue: true, route: false })
                    },
                }
            },
        }
    }
}

// ---------------------------------------------------------------------- laws
/// What is to be done for an upload is what recording it asks about: where nothing is
/// to be done, what came of it does not matter, and where something is, its failure
/// refuses the upload. An early refusal is the upload's whatever came of the rest.
pub proof fn recording_asks_for_its_calls(
    s: StoreView,
    tenant: Seq<char>,
    link_id: Seq<char>,
    upload: UploadRecordView,
    session: Option<Seq<char>>,
    hooks: UploadHooks,
    others: UploadHooks,
)
    ensures
        match calls_needed(s, tenant, link_id, upload, session) {
            Err(e) => appended(s, tenant, link_id, upload, session, hooks) == Err::<
                (StoreView, Option<Seq<char>>),
                Seq<char>,
            >(e),
            Ok(calls) => {
                &&& (calls.queue ==> hooks.queued == others.queued) && (calls.route
                    ==> hooks.routed == others.routed) ==> appended(
                    s,
                    tenant,
                    link_id,
                    upload,
                    session,
                    hooks,
                ) == appended(s, tenant, link_id, upload, session, others)
                &&& (calls.queue && hooks.queued is Err) || (calls.route && hooks.routed is Err)
                    ==> appended(s, tenant, link_id, upload, session, hooks) is Err
            },
        },
{
}

// -------------------------------------------------------------------- lemmas
proof fn lemma_loaded_refused(rows: Seq<FileRowView>, expected: i64, i: int)
    requires
        0 <= i <= rows.len(),
        loaded(rows.take(i), expected) is Err,
    ensures
        loaded(rows, expected) == loaded(rows.take(i), expected),
    decreases rows.len() - i,
{
    if i < rows.len() {
        assert(rows.take(i + 1).drop_last() =~= rows.take(i));
        lemma_loaded_refused(rows, expected, i + 1);
    } else {
        assert(rows.take(i) =~= rows);
    }
}

proof fn lemma_merged_refused(known: Seq<FileRecordView>, more: Seq<FileRecordView>, i: int)
    requires
        0 <= i <= more.len(),
        merged(known, more.take(i)) is Err,
    ensures
        merged(known, more) == merged(known, more.take(i)),
    decreases more.len() - i,
{
    if i < more.len() {
        assert(more.take(i + 1).drop_last() =~= more.take(i));
        lemma_merged_refused(known, more, i + 1);
    } else {
        assert(more.take(i) =~= more);
    }
}

proof fn lemma_path_index(files: Seq<FileRecordView>, path: Seq<char>, i: int)
    requires
        0 <= i <= files.len(),
        forall|j: int| 0 <= j < i ==> (#[trigger] files[j]).stored_as != path,
        i < files.len() ==> files[i].stored_as == path,
    ensures
        path_index(files, path) == i,
    decreases files.len(),
{
    if i > 0 {
        let t = files.skip(1);
        assert(files[0].stored_as != path);
        assert forall|j: int| 0 <= j < i - 1 implies (#[trigger] t[j]).stored_as != path by {
            assert(files[j + 1].stored_as != path);
        }
        lemma_path_index(t, path, i - 1);
    }
}

// ---------------------------------------------------------------- operations
fn mismatch_error() -> (e: String)
    ensures
        e@ == mismatch(),
{
    "Conversion error from type Text at index: 0, upload file records do not match their header".to_owned()
}

pub fn limb_error(value: i64, index: &str) -> (e: String)
    ensures
        e@ == no_limb(value, index@),
{
    "Integer ".to_owned().concat(i64_text(value).as_str()).concat(
        " out of range at index ",
    ).concat(index)
}

/// The file that a record row stands for.
pub fn row_to_upload_file(f: &FileRow) -> (r: Result<FileRecord, String>)
    ensures
        outcome(r) == record_of(f@),
{
    if f.bytes_hi < 0 || f.bytes_hi >= LIMB as i64 {
        return Err(limb_error(f.bytes_hi, "3"));
    }
    if f.bytes_lo < 0 || f.bytes_lo >= LIMB as i64 {
        return Err(limb_error(f.bytes_lo, "4"));
    }
    Ok(
        FileRecord {
            path: f.path.clone(),
            stored_as: f.stored_as.clone(),
            bytes: file_bytes(f),
            suite: f.suite.clone(),
            root: f.root.clone(),
            receipt: f.receipt,
            deleted: f.deleted,
        },
    )
}

fn load_files(rows: &Vec<FileRow>, expected: i64) -> (r: Result<Vec<FileRecord>, String>)
    ensures
        outcome(r) == loaded(rows.deep_view(), expected),
{
    let ghost all = rows.deep_view();
    let mut done: Vec<FileRecord> = Vec::new();
    let mut i: usize = 0;
    proof {
        assert(all.take(0) =~= Seq::<FileRowView>::empty());
        assert(done.deep_view() =~= Seq::<FileRecordView>::empty());
    }
    while i < rows.len()
        invariant
            i <= rows.len(),
            all == rows.deep_view(),
            loaded(all.take(i as int), expected) == Ok::<Seq<FileRecordView>, Seq<char>>(
                done.deep_view(),
            ),
        decreases rows.len() - i,
    {
        let index: i64 = size_to_column(done.len());
        proof {
            assert(all.take(i + 1).drop_last() =~= all.take(i as int));
            assert(all.take(i + 1).last() == rows@[i as int]@);
        }
        if rows[i].file_index != index || rows[i].file_index >= expected {
            proof {
                lemma_loaded_refused(all, expected, i + 1);
            }
            return Err(mismatch_error());
        }
        match row_to_upload_file(&rows[i]) {
            Ok(record) => {
                append_row(&mut done, record);
            },
            Err(error) => {
                proof {
                    lemma_loaded_refused(all, expected, i + 1);
                }
                return Err(error);
            },
        }
        i += 1;
    }
    assert(all.take(i as int) =~= all);
    Ok(done)
}

/// The upload that a header row stands for, with its files.
pub fn hydrate_upload(files: &Vec<FileRow>, u: &UploadRow) -> (r: Result<UploadRecord, String>)
    ensures
        outcome(r) == hydrated(files.deep_view())(u@),
{
    if let Some(error) = &u.header_error {
        return Err(decode_error("0", error.as_str()));
    }
    if !same(u.header.id.as_str(), u.upload_id.as_str()) || u.header.files.len() > 0 {
        return Err(mismatch_error());
    }
    let own = |f: &FileRow| -> (b: bool)
        ensures
            b == file_of_upload(u.tenant@, u.link_id@, u.upload_id@)(f@),
    {
        same(f.tenant.as_str(), u.tenant.as_str()) && same(f.link_id.as_str(), u.link_id.as_str())
            && same(f.upload_id.as_str(), u.upload_id.as_str())
    };
    let lower = |a: &FileRow, b: &FileRow| -> (r: bool)
        ensures
            r == lower_index()(a@, b@),
    {
        a.file_index < b.file_index
    };
    let rows = select(files, own, Ghost(file_of_upload(u.tenant@, u.link_id@, u.upload_id@)));
    let rows = sort_rows(rows, lower, Ghost(lower_index()));
    match load_files(&rows, u.file_count) {
        Ok(records) => {
            if size_to_column(records.len()) != u.file_count {
                return Err(mismatch_error());
            }
            let mut upload = u.header.dup();
            upload.files = records;
            Ok(upload)
        },
        Err(error) => Err(error),
    }
}

/// The row of an upload's header.
pub fn header_of(tenant: &str, link_id: &str, upload: &UploadRecord) -> (r: UploadRow)
    ensures
        r@ == header_row(tenant@, link_id@, upload@),
{
    let mut header = upload.dup();
    header.files = Vec::new();
    assert(header.files.deep_view() =~= Seq::<FileRecordView>::empty());
    UploadRow {
        link_id: link_id.to_owned(),
        tenant: tenant.to_owned(),
        upload_id: upload.id.clone(),
        header,
        header_error: None,
        members: None,
        file_count: size_to_column(upload.files.len()),
    }
}

pub fn record_at(
    tenant: &str,
    link_id: &str,
    upload_id: &str,
    index: usize,
    record: &FileRecord,
) -> (r: FileRow)
    ensures
        r@ == record_row(tenant@, link_id@, upload_id@, index as int, record@),
{
    let (hi, lo) = split_bytes(record.bytes);
    FileRow {
        link_id: link_id.to_owned(),
        tenant: tenant.to_owned(),
        upload_id: upload_id.to_owned(),
        file_index: size_to_column(index),
        bytes_hi: hi,
        bytes_lo: lo,
        deleted: record.deleted,
        stored_as: record.stored_as.clone(),
        path: record.path.clone(),
        suite: record.suite.clone(),
        root: record.root.clone(),
        receipt: record.receipt,
    }
}

/// Adds the records of an upload's files.
pub fn insert_upload_files(
    files: &mut Vec<FileRow>,
    quotas: &mut Vec<QuotaRow>,
    link_id: &str,
    tenant: &str,
    upload: &UploadRecord,
)
    ensures
        final(files).deep_view() == old(files).deep_view() + record_rows(
            tenant@,
            link_id@,
            upload@,
        ),
        final(quotas).deep_view() == after_inserts(
            old(quotas).deep_view(),
            old(files).deep_view(),
            record_rows(tenant@, link_id@, upload@),
        ),
{
    let ghost before = files.deep_view();
    let ghost was = quotas.deep_view();
    let ghost rows = record_rows(tenant@, link_id@, upload@);
    let mut i: usize = 0;
    proof {
        assert(rows.take(0) =~= Seq::<FileRowView>::empty());
        assert(before + rows.take(0) =~= before);
    }
    while i < upload.files.len()
        invariant
            i <= upload.files.len(),
            rows == record_rows(tenant@, link_id@, upload@),
            files.deep_view() == before + rows.take(i as int),
            quotas.deep_view() == after_inserts(was, before, rows.take(i as int)),
        decreases upload.files.len() - i,
    {
        let row = record_at(tenant, link_id, upload.id.as_str(), i, &upload.files[i]);
        proof {
            assert(row@ == rows[i as int]);
            assert(rows.take(i + 1).drop_last() =~= rows.take(i as int));
            assert(before + rows.take(i + 1) =~= (before + rows.take(i as int)).push(row@));
        }
        insert_file(files, quotas, row);
        i += 1;
    }
    assert(rows.take(i as int) =~= rows);
}

/// Rewrites the records of an upload's files, and drops those behind its end.
pub fn sync_upload_files(
    files: &mut Vec<FileRow>,
    quotas: &mut Vec<QuotaRow>,
    link_id: &str,
    tenant: &str,
    upload: &UploadRecord,
)
    ensures
        ({
            let rows = record_rows(tenant@, link_id@, upload@);
            let end = column(upload@.files.len() as u64);
            let after = all_put(old(files).deep_view(), rows);
            &&& final(files).deep_view() == after.filter(not_place_from(link_id@, upload@.id, end))
            &&& final(quotas).deep_view() == purged(
                after_puts(old(quotas).deep_view(), old(files).deep_view(), rows),
                Seq::empty(),
                after,
                place_from(link_id@, upload@.id, end),
            )
        }),
{
    let ghost before = files.deep_view();
    let ghost was = quotas.deep_view();
    let ghost rows = record_rows(tenant@, link_id@, upload@);
    let mut i: usize = 0;
    assert(rows.take(0) =~= Seq::<FileRowView>::empty());
    while i < upload.files.len()
        invariant
            i <= upload.files.len(),
            rows == record_rows(tenant@, link_id@, upload@),
            files.deep_view() == all_put(before, rows.take(i as int)),
            quotas.deep_view() == after_puts(was, before, rows.take(i as int)),
        decreases upload.files.len() - i,
    {
        let row = record_at(tenant, link_id, upload.id.as_str(), i, &upload.files[i]);
        proof {
            assert(row@ == rows[i as int]);
            assert(rows.take(i + 1).drop_last() =~= rows.take(i as int));
        }
        put_file(files, quotas, row);
        i += 1;
    }
    assert(rows.take(i as int) =~= rows);
    let end: i64 = size_to_column(upload.files.len());
    let upload_id = upload.id.as_str();
    let behind = |f: &FileRow| -> (b: bool)
        ensures
            b == place_from(link_id@, upload_id@, end)(f@),
    {
        same(f.link_id.as_str(), link_id) && same(f.upload_id.as_str(), upload_id) && f.file_index
            >= end
    };
    delete_files(
        files,
        quotas,
        behind,
        Ghost(place_from(link_id@, upload_id@, end)),
        Ghost(not_place_from(link_id@, upload_id@, end)),
    );
}

fn same_record(a: &FileRecord, b: &FileRecord) -> (r: bool)
    ensures
        r == (a@ == b@),
{
    same(a.path.as_str(), b.path.as_str()) && same(a.stored_as.as_str(), b.stored_as.as_str())
        && a.bytes == b.bytes && same(a.suite.as_str(), b.suite.as_str()) && same(
        a.root.as_str(),
        b.root.as_str(),
    ) && a.receipt == b.receipt && a.deleted == b.deleted
}

fn same_count(a: Option<u64>, b: Option<u64>) -> (r: bool)
    ensures
        r == (a == b),
{
    match (a, b) {
        (Some(x), Some(y)) => x == y,
        (None, None) => true,
        _ => false,
    }
}

fn same_log_event(a: &LogEvent, b: &LogEvent) -> (r: bool)
    ensures
        r == (a@ == b@),
{
    a.at == b.at && same(a.kind.as_str(), b.kind.as_str()) && same_option(&a.path, &b.path)
        && same_count(a.bytes, b.bytes) && same_count(a.secs, b.secs) && same_count(
        a.count,
        b.count,
    )
}

fn same_upload(a: &UploadRecord, b: &UploadRecord) -> (r: bool)
    ensures
        r == (a@ == b@),
{
    let record = |x: &FileRecord, y: &FileRecord| -> (r: bool)
        ensures
            r == (x.deep_view() == y.deep_view()),
    {
        same_record(x, y)
    };
    let event = |x: &LogEvent, y: &LogEvent| -> (r: bool)
        ensures
            r == (x.deep_view() == y.deep_view()),
    {
        same_log_event(x, y)
    };
    same(a.id.as_str(), b.id.as_str()) && a.started_at == b.started_at && a.completed_at
        == b.completed_at && a.replayed_chunks == b.replayed_chunks && a.rejected_chunks
        == b.rejected_chunks && same_option(&a.transport, &b.transport) && same(
        a.package_root.as_str(),
        b.package_root.as_str(),
    ) && a.total_bytes == b.total_bytes && rows_equal(&a.files, &b.files, record) && a.partial
        == b.partial && rows_equal(&a.log, &b.log, event)
}

fn merge_files(known: &Vec<FileRecord>, more: &Vec<FileRecord>) -> (r: Result<
    Vec<FileRecord>,
    String,
>)
    ensures
        outcome(r) == merged(known.deep_view(), more.deep_view()),
{
    let ghost old_ones = known.deep_view();
    let ghost all = more.deep_view();
    let mut files = dup_rows(known);
    let mut i: usize = 0;
    assert(all.take(0) =~= Seq::<FileRecordView>::empty());
    while i < more.len()
        invariant
            i <= more.len(),
            all == more.deep_view(),
            old_ones == known.deep_view(),
            merged(old_ones, all.take(i as int)) == Ok::<Seq<FileRecordView>, Seq<char>>(
                files.deep_view(),
            ),
        decreases more.len() - i,
    {
        let f = &more[i];
        let ghost so_far = files.deep_view();
        proof {
            assert(all.take(i + 1).drop_last() =~= all.take(i as int));
            assert(all.take(i + 1).last() == f@);
        }
        let mut j: usize = 0;
        while j < files.len()
            invariant
                j <= files.len(),
                so_far == files.deep_view(),
                forall|k: int| 0 <= k < j ==> (#[trigger] so_far[k]).stored_as != f@.stored_as,
            ensures
                j <= files.len(),
                j < files.len() ==> so_far[j as int].stored_as == f@.stored_as,
            decreases files.len() - j,
        {
            if same(files[j].stored_as.as_str(), f.stored_as.as_str()) {
                assert(so_far[j as int].stored_as == f@.stored_as);
                break;
            }
            assert(so_far[j as int].stored_as != f@.stored_as);
            j += 1;
        }
        proof {
            lemma_path_index(so_far, f@.stored_as, j as int);
        }
        if j == files.len() {
            append_row(&mut files, f.dup());
        } else {
            if files[j].bytes != f.bytes || !same(files[j].suite.as_str(), f.suite.as_str())
                || !same(files[j].root.as_str(), f.root.as_str()) {
                proof {
                    lemma_merged_refused(old_ones, all, i + 1);
                }
                return Err("recovered file identity changed".to_owned());
            }
            let mut record = files[j].dup();
            record.receipt = record.receipt || f.receipt;
            files.set(j, record);
            assert(files.deep_view() =~= so_far.update(j as int, record@));
        }
        i += 1;
    }
    assert(all.take(i as int) =~= all);
    Ok(files)
}

fn total_of(files: &Vec<FileRecord>) -> (total: u64)
    ensures
        total == capped(total_bytes(files.deep_view())),
{
    let ghost all = files.deep_view();
    let mut total: u64 = 0;
    let mut i: usize = 0;
    assert(all.take(0) =~= Seq::<FileRecordView>::empty());
    while i < files.len()
        invariant
            i <= files.len(),
            all == files.deep_view(),
            total_bytes(all.take(i as int)) >= 0,
            total == capped(total_bytes(all.take(i as int))),
        decreases files.len() - i,
    {
        proof {
            assert(all.take(i + 1).drop_last() =~= all.take(i as int));
            assert(all.take(i + 1).last() == files@[i as int]@);
        }
        total = total.saturating_add(files[i].bytes);
        i += 1;
    }
    assert(all.take(i as int) =~= all);
    total
}

fn recover(known: &UploadRecord, more: &UploadRecord) -> (r: Result<UploadRecord, String>)
    ensures
        outcome(r) == recovered(known@, more@),
{
    if !known.partial || !same(known.package_root.as_str(), more.package_root.as_str()) {
        return Err("recovery upload identity changed".to_owned());
    }
    match merge_files(&known.files, &more.files) {
        Ok(files) => {
            let mut next = known.dup();
            next.total_bytes = total_of(&files);
            next.files = files;
            next.completed_at = more.completed_at;
            Ok(next)
        },
        Err(error) => Err(error),
    }
}

impl Store {
    /// Whether a tenant has the link `id`.
    pub fn has_link(&self, tenant: &str, id: &str) -> (r: bool)
        ensures
            r == any(self@.links, link_is(tenant@, id@)),
    {
        let hit = |l: &LinkRow| -> (b: bool)
            ensures
                b == link_is(tenant@, id@)(l@),
        {
            same(l.tenant.as_str(), tenant) && same(l.id.as_str(), id)
        };
        exists_where(&self.links, hit, Ghost(link_is(tenant@, id@)))
    }

    /// The uploads of a link, in order.
    pub fn read_uploads(&self, link_id: &str) -> (r: Result<Vec<UploadRecord>, String>)
        ensures
            outcome(r) == uploads_of(self@, link_id@),
    {
        let files = &self.files;
        let own = |u: &UploadRow| -> (b: bool)
            ensures
                b == upload_of_link(link_id@)(u@),
        {
            same(u.link_id.as_str(), link_id)
        };
        let read = |u: &UploadRow| -> (r: Result<UploadRecord, String>)
            ensures
                outcome(r) == hydrated(files.deep_view())(u@),
        {
            hydrate_upload(files, u)
        };
        let rows = select(&self.uploads, own, Ghost(upload_of_link(link_id@)));
        try_project(&rows, read, Ghost(hydrated(files.deep_view())))
    }

    /// One upload of a tenant's link.
    pub fn link_upload(&self, tenant: &str, link_id: &str, upload_id: &str) -> (r: Result<
        Option<UploadRecord>,
        String,
    >)
        ensures
            outcome(r) == upload_read(self@, tenant@, link_id@, upload_id@),
    {
        if !self.has_link(tenant, link_id) {
            return Ok(None);
        }
        let hit = |u: &UploadRow| -> (b: bool)
            ensures
                b == upload_is(tenant@, link_id@, upload_id@)(u@),
        {
            same(u.tenant.as_str(), tenant) && same(u.link_id.as_str(), link_id) && same(
                u.upload_id.as_str(),
                upload_id,
            )
        };
        match find(&self.uploads, hit, Ghost(upload_is(tenant@, link_id@, upload_id@))) {
            Some(found) => match hydrate_upload(&self.files, &self.uploads[found]) {
                Ok(upload) => Ok(Some(upload)),
                Err(error) => Err(error),
            },
            None => Ok(None),
        }
    }

    /// Whether a link has an upload under this id already.
    pub fn has_upload(&self, link_id: &str, upload_id: &str) -> (r: bool)
        ensures
            r == any(self@.uploads, upload_at(link_id@, upload_id@)),
    {
        let hit = |u: &UploadRow| -> (b: bool)
            ensures
                b == upload_at(link_id@, upload_id@)(u@),
        {
            same(u.link_id.as_str(), link_id) && same(u.upload_id.as_str(), upload_id)
        };
        exists_where(&self.uploads, hit, Ghost(upload_at(link_id@, upload_id@)))
    }

    /// Why an upload cannot be added to a link.
    pub fn check_upload(&self, link_id: &str, upload: &UploadRecord) -> (r: Option<String>)
        ensures
            r.deep_view() == upload_refused(self@, link_id@, upload@),
    {
        let upload_id = upload.id.as_str();
        if self.has_upload(link_id, upload_id) {
            return Some(
                "UNIQUE constraint failed: link_uploads.link_id, link_uploads.upload_id".to_owned(),
            );
        }
        let end: i64 = size_to_column(upload.files.len());
        let taken = |f: &FileRow| -> (b: bool)
            ensures
                b == place_below(link_id@, upload_id@, end)(f@),
        {
            same(f.link_id.as_str(), link_id) && same(f.upload_id.as_str(), upload_id) && 0
                <= f.file_index && f.file_index < end
        };
        if exists_where(&self.files, taken, Ghost(place_below(link_id@, upload_id@, end))) {
            return Some(
                "UNIQUE constraint failed: files.link_id, files.upload_id, files.file_index".to_owned(),
            );
        }
        None
    }

    /// Adds an upload to a link.
    pub fn add_upload(&mut self, tenant: &str, link_id: &str, upload: &UploadRecord)
        ensures
            final(self)@ == with_upload(old(self)@, tenant@, link_id@, upload@),
    {
        append_row(&mut self.uploads, header_of(tenant, link_id, upload));
        insert_upload_files(&mut self.files, &mut self.quotas, link_id, tenant, upload);
    }

    /// Rewrites an upload's header and files.
    fn rewrite_upload(&mut self, tenant: &str, link_id: &str, upload: &UploadRecord)
        ensures
            final(self)@ == with_rewritten(old(self)@, tenant@, link_id@, upload@),
    {
        let row = header_of(tenant, link_id, upload);
        let hit = |u: &UploadRow| -> (b: bool)
            ensures
                b == upload_is(tenant@, link_id@, upload.id@)(u@),
        {
            same(u.tenant.as_str(), tenant) && same(u.link_id.as_str(), link_id) && same(
                u.upload_id.as_str(),
                upload.id.as_str(),
            )
        };
        let change = |u: &UploadRow| -> (r: UploadRow)
            ensures
                r@ == reheaded(row@)(u@),
        {
            UploadRow {
                link_id: u.link_id.clone(),
                tenant: u.tenant.clone(),
                upload_id: u.upload_id.clone(),
                header: row.header.dup(),
                header_error: dup_option(&row.header_error),
                members: dup_option(&row.members),
                file_count: row.file_count,
            }
        };
        update_where(
            &mut self.uploads,
            hit,
            change,
            Ghost(upload_is(tenant@, link_id@, upload.id@)),
            Ghost(reheaded(row@)),
        );
        sync_upload_files(&mut self.files, &mut self.quotas, link_id, tenant, upload);
    }

    /// Records an upload; reports whether the tenant has the link.
    pub fn append_upload(
        &mut self,
        tenant: &str,
        id: &str,
        upload: UploadRecord,
        hooks: &UploadHooks,
    ) -> (r: Result<bool, String>)
        ensures
            follows(
                match appended(old(self)@, tenant@, id@, upload@, None, *hooks) {
                    Err(e) => Err(e),
                    Ok((after, recorded)) => Ok((after, recorded is Some)),
                },
                old(self)@,
                final(self)@,
                r,
            ),
    {
        match self.append_upload_inner(tenant, id, upload, None, hooks) {
            Ok(recorded) => Ok(recorded.is_some()),
            Err(error) => Err(error),
        }
    }

    /// Records the upload that a session has become, and returns its id.
    pub fn append_upload_from_session(
        &mut self,
        tenant: &str,
        id: &str,
        upload: UploadRecord,
        session: &str,
        hooks: &UploadHooks,
    ) -> (r: Result<Option<String>, String>)
        ensures
            follows(
                appended(old(self)@, tenant@, id@, upload@, Some(session@), *hooks),
                old(self)@,
                final(self)@,
                r,
            ),
    {
        self.append_upload_inner(tenant, id, upload, Some(session), hooks)
    }

    /// Records an upload. A refusal changes nothing.
    pub fn append_upload_inner(
        &mut self,
        tenant: &str,
        id: &str,
        upload: UploadRecord,
        session: Option<&str>,
        hooks: &UploadHooks,
    ) -> (r: Result<Option<String>, String>)
        ensures
            follows(
                appended(old(self)@, tenant@, id@, upload@, session.deep_view(), *hooks),
                old(self)@,
                final(self)@,
                r,
            ),
    {
        if let Some(session) = session {
            let own = |s: &SessionRow| -> (b: bool)
                ensures
                    b == session_for(session@, tenant@, id@)(s@),
            {
                same(s.id.as_str(), session) && same(s.tenant.as_str(), tenant) && same(
                    s.link_id.as_str(),
                    id,
                )
            };
            match find(&self.sessions, own, Ghost(session_for(session@, tenant@, id@))) {
                Some(found) => {
                    if self.sessions[found].committed_upload_id.is_some() {
                        return Ok(dup_option(&self.sessions[found].committed_upload_id));
                    }
                },
                None => {
                    return Err("upload admission is missing at completion".to_owned());
                },
            }
        }
        let hit = |l: &LinkRow| -> (b: bool)
            ensures
                b == link_is(tenant@, id@)(l@),
        {
            same(l.tenant.as_str(), tenant) && same(l.id.as_str(), id)
        };
        match find(&self.links, hit, Ghost(link_is(tenant@, id@))) {
            Some(found) => {
                if let Some(error) = &self.links[found].events_error {
                    return Err(decode_error("0", error.as_str()));
                }
            },
            None => {
                return Ok(None);
            },
        }
        if upload.partial || session.is_none() {
            let known = match self.link_upload(tenant, id, upload.id.as_str()) {
                Ok(known) => known,
                Err(error) => {
                    return Err(error);
                },
            };
            if let Some(known) = known {
                if upload.partial {
                    return match recover(&known, &upload) {
                        Ok(next) => {
                            self.rewrite_upload(tenant, id, &next);
                            Ok(Some(upload.id))
                        },
                        Err(error) => Err(error),
                    };
                }
                if !same_upload(&known, &upload) {
                    return Err("upload identity changed".to_owned());
                }
                if let Err(error) = &hooks.queued {
                    return Err(error.clone());
                }
                return Ok(Some(upload.id));
            }
        }
        self.insert_upload(tenant, id, upload, session, hooks)
    }

    /// What the rest of the server is to do before an upload is recorded.
    pub fn upload_calls(
        &self,
        tenant: &str,
        id: &str,
        upload: &UploadRecord,
        session: Option<&str>,
    ) -> (r: Result<UploadCalls, String>)
        ensures
            match r {
                Ok(calls) => calls_needed(self@, tenant@, id@, upload@, session.deep_view()) == Ok::<
                    UploadCalls,
                    Seq<char>,
                >(calls),
                Err(e) => calls_needed(self@, tenant@, id@, upload@, session.deep_view()) == Err::<
                    UploadCalls,
                    Seq<char>,
                >(e@),
            },
    {
        if let Some(session) = session {
            let own = |s: &SessionRow| -> (b: bool)
                ensures
                    b == session_for(session@, tenant@, id@)(s@),
            {
                same(s.id.as_str(), session) && same(s.tenant.as_str(), tenant) && same(
                    s.link_id.as_str(),
                    id,
                )
            };
            match find(&self.sessions, own, Ghost(session_for(session@, tenant@, id@))) {
                Some(found) => {
                    if self.sessions[found].committed_upload_id.is_some() {
                        return Ok(UploadCalls { queue: false, route: false });
                    }
                },
                None => {
                    return Err("upload admission is missing at completion".to_owned());
                },
            }
        }
        let hit = |l: &LinkRow| -> (b: bool)
            ensures
                b == link_is(tenant@, id@)(l@),
        {
            same(l.tenant.as_str(), tenant) && same(l.id.as_str(), id)
        };
        match find(&self.links, hit, Ghost(link_is(tenant@, id@))) {
            Some(found) => {
                if let Some(error) = &self.links[found].events_error {
                    return Err(decode_error("0", error.as_str()));
                }
            },
            None => {
                return Ok(UploadCalls { queue: false, route: false });
            },
        }
        if upload.partial || session.is_none() {
            let known = match self.link_upload(tenant, id, upload.id.as_str()) {
                Ok(known) => known,
                Err(error) => {
                    return Err(error);
                },
            };
            if let Some(known) = known {
                if upload.partial {
                    return match recover(&known, upload) {
                        Ok(_) => Ok(UploadCalls { queue: false, route: false }),
                        Err(error) => Err(error),
                    };
                }
                if !same_upload(&known, upload) {
                    return Err("upload identity changed".to_owned());
                }
                return Ok(UploadCalls { queue: true, route: false });
            }
        }
        match self.check_upload(id, upload) {
            None => Ok(UploadCalls { queue: true, route: session.is_some() }),
            Some(error) => if session.is_some() && !self.has_upload(id, upload.id.as_str()) {
                Ok(UploadCalls { queue: false, route: true })
            } else {
                Err(error)
            },
        }
    }

    /// Records an upload that the link does not have yet.
    fn insert_upload(
        &mut self,
        tenant: &str,
        id: &str,
        upload: UploadRecord,
        session: Option<&str>,
        hooks: &UploadHooks,
    ) -> (r: Result<Option<String>, String>)
        ensures
            follows(
                added(old(self)@, tenant@, id@, upload@, session.deep_view(), *hooks),
                old(self)@,
                final(self)@,
                r,
            ),
    {
        let refused = self.check_upload(id, &upload);
        if self.has_upload(id, upload.id.as_str()) {
            if let Some(error) = refused {
                return Err(error);
            }
        }
        if session.is_some() {
            if let Err(error) = &hooks.routed {
                return Err(error.clone());
            }
        }
        if let Some(error) = self.check_upload(id, &upload) {
            return Err(error);
        }
        if let Err(error) = &hooks.queued {
            return Err(error.clone());
        }
        if let Some(session) = session {
            if !upload.partial {
                let upload_id = upload.id.as_str();
                let pending = |s: &SessionRow| -> (b: bool)
                    ensures
                        b == uncommitted(session@)(s@),
                {
                    same(s.id.as_str(), session) && s.committed_upload_id.is_none()
                };
                let commit = |s: &SessionRow| -> (r: SessionRow)
                    ensures
                        r@ == committed(upload_id@)(s@),
                {
                    let mut s = s.dup();
                    s.committed_upload_id = Some(upload_id.to_owned());
                    s
                };
                if count_where(&self.sessions, pending, Ghost(uncommitted(session@))) != 1 {
                    return Err("upload admission changed at completion".to_owned());
                }
                update_where(
                    &mut self.sessions,
                    pending,
                    commit,
                    Ghost(uncommitted(session@)),
                    Ghost(committed(upload_id@)),
                );
            }
        }
        self.add_upload(tenant, id, &upload);
        Ok(Some(upload.id))
    }
}

} // verus!
