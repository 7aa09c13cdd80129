//! What is written is read back.
use vstd::prelude::*;

use crate::automation::{token_is, token_of, token_row, with_token};
use crate::columns::{column, high, joined, low};
use crate::downloads::{file_at, grant_is, in_range};
use crate::grants::{full_of, grant_with, with_counters};
use crate::issue::{GrantChecks, file_rows_of, issued, job_override};
use crate::lifecycle::{manifest_of, remanifested};
use crate::links::{full_link, in_link, link_named, link_row, tenant_is, with_link, with_uploads};
use crate::records::{
    AutomationOperationView, AutomationTokenView, BrandingView, FileRecordView, LinkView,
    OutboundGrantFileView, OutboundGrantView, PersistedUploadFileView, PersistedUploadSessionView,
    TenantView, UploadRecordView,
};
use crate::rows::{
    BrandingRowView, FileRowView, GrantManifestRowView, MetaRowView, TenantRowView, UploadRowView,
};
use crate::sessions::{
    admitted_session, lower_entry, session_file_of_others, session_file_read, session_file_row,
    session_filled, session_of,
};
use crate::settings::{meta_is, meta_set};
use crate::store::StoreView;
use crate::table::{any, first, sorted_by, try_map, updated};
use crate::tenants::{branding_of, branding_read, branding_row, rebranded, tenant_of, tenant_row};
use crate::uploads::{
    file_of_upload, header_row, hydrated, loaded, lower_index, record_row, record_rows, upload_at,
    upload_of_link, upload_read, upload_refused, uploads_of, with_upload,
};
use crate::usage::session_file_of;

verus! {

/// Whether a number fits a column.
pub open spec fn fits(value: u64) -> bool {
    value <= i64::MAX
}

/// Whether a number fits a column, if there is one.
pub open spec fn optional_fits(value: Option<u64>) -> bool {
    value matches Some(n) ==> fits(n)
}

pub proof fn lemma_first_pushed<V>(s: Seq<V>, x: V, p: spec_fn(V) -> bool)
    requires
        !any(s, p),
        p(x),
    ensures
        first(s.push(x), p) == Some(x),
{
    let t = s.push(x);
    assert forall|j: int| 0 <= j < s.len() implies !p(#[trigger] t[j]) by {
        assert(t[j] == s[j]);
    }
    crate::table::lemma_first(t, p, s.len() as int);
}

proof fn lemma_limbs(bytes: u64)
    ensures
        joined(high(bytes), low(bytes)) == bytes,
{
    crate::columns::limbs_round_trip(bytes);
}

// -------------------------------------------------------------------- grants
/// Whether a file's counters fit their columns.
pub open spec fn file_fits(f: OutboundGrantFileView) -> bool {
    fits(f.downloads) && optional_fits(f.first_download_at) && optional_fits(f.last_download_at)
}

/// Whether a grant's numbers fit their columns.
pub open spec fn grant_fits(g: OutboundGrantView) -> bool {
    &&& fits(g.file_index as u64)
    &&& fits(g.created_at)
    &&& fits(g.expires_at)
    &&& optional_fits(g.revoked_at)
    &&& fits(g.downloads)
    &&& optional_fits(g.max_downloads)
    &&& optional_fits(g.first_download_at)
    &&& optional_fits(g.last_download_at)
    &&& g.files.len() <= i64::MAX
    &&& forall|i: int| 0 <= i < g.files.len() ==> file_fits(#[trigger] g.files[i])
}

/// An issued grant is read back as it was issued, with the notifications that
/// its job's override asks for, and is found under its token.
pub proof fn issued_grants_read_back(
    s: StoreView,
    g: OutboundGrantView,
    operation: Option<AutomationOperationView>,
    share: Option<(Seq<char>, Seq<char>)>,
    checks: GrantChecks,
    now: u64,
)
    requires
        grant_fits(g),
    ensures
        issued(s, g, operation, share, checks, now) matches Ok((after, _)) ==> {
            let policy = job_override(s, g.tenant, g.id)->Ok_0;
            let found = first(after.grants, grant_is(g.id));
            &&& found is Some
            &&& full_of(after.grant_files)(found->0) == Ok::<OutboundGrantView, Seq<char>>(
                OutboundGrantView {
                    notifications: if policy is Some {
                        policy
                    } else {
                        g.notifications
                    },
                    ..g
                },
            )
            &&& first(after.grants, grant_with(g.token_hash)) == found
        },
{
    if let Ok((after, _)) = issued(s, g, operation, share, checks, now) {
        let row = after.grants.last();
        let rows = file_rows_of(g.id, g.files);
        lemma_first_pushed(s.grants, row, grant_is(g.id));
        lemma_first_pushed(s.grants, row, grant_with(g.token_hash));
        lemma_limbs(g.bytes);
        let all = s.grant_files + rows;
        let counted = with_counters(all, g.id, g.files);
        assert forall|i: int| 0 <= i < g.files.len() implies counted[i] == #[trigger] g.files[i] by {
            let p = file_at(g.id, column(i as u64));
            let n = s.grant_files.len() as int;
            assert forall|j: int| 0 <= j < n + i implies !p(#[trigger] all[j]) by {
                if j < n {
                    assert(all[j] == s.grant_files[j]);
                    let q = in_range(g.id, column(g.files.len() as u64));
                    assert(!q(s.grant_files[j]));
                } else {
                    assert(all[j] == rows[j - n]);
                }
            }
            assert(all[n + i] == rows[i]);
            crate::table::lemma_first(all, p, n + i);
            assert(file_fits(g.files[i]));
        }
        assert(counted =~= g.files);
    }
}

// -------------------------------------------------------------------- tokens
/// Whether a token's numbers fit their columns.
pub open spec fn token_fits(t: AutomationTokenView) -> bool {
    &&& fits(t.created_at)
    &&& fits(t.expires_at)
    &&& optional_fits(t.revoked_at)
    &&& optional_fits(t.last_used_at)
}

/// An automation token is read back as it was inserted.
pub proof fn inserted_tokens_read_back(s: StoreView, t: AutomationTokenView)
    requires
        token_fits(t),
    ensures
        with_token(s, t) matches Ok((after, _)) ==> {
            let found = first(after.tokens, token_is(t.id));
            found is Some && token_of()(found->0) == Ok::<AutomationTokenView, Seq<char>>(t)
        },
{
    if let Ok((after, _)) = with_token(s, t) {
        lemma_first_pushed(s.tokens, token_row(t), token_is(t.id));
    }
}

// ------------------------------------------------------------------- tenants
/// A tenant is read back as it was inserted, under its new incarnation.
pub proof fn inserted_tenants_read_back(
    tenants: Seq<TenantRowView>,
    t: TenantView,
    incarnation: Seq<char>,
)
    requires
        fits(t.created_at),
        !any(tenants, tenant_is(t.key)),
    ensures
        ({
            let found = first(tenants.push(tenant_row(t, incarnation)), tenant_is(t.key));
            found is Some && tenant_of()(found->0) == Ok::<TenantView, Seq<char>>(
                TenantView { incarnation, ..t },
            )
        }),
{
    lemma_first_pushed(tenants, tenant_row(t, incarnation), tenant_is(t.key));
    crate::tenants::quota_round_trip(t.max_total_bytes, "3"@);
    crate::tenants::quota_round_trip(t.max_links, "4"@);
    crate::tenants::quota_round_trip(t.max_sessions, "5"@);
}

// ------------------------------------------------------------------ sessions
/// Whether a session's numbers fit their columns, its digests are of their
/// length, and its files stand in order of their entries.
pub open spec fn session_fits(s: PersistedUploadSessionView) -> bool {
    &&& fits(s.started_at)
    &&& optional_fits(s.max_total_bytes)
    &&& fits(s.package.length)
    &&& s.package.root.len() == 32
    &&& forall|i: int|
        0 <= i < s.files.len() ==> {
            &&& (#[trigger] s.files[i]).entry <= i64::MAX
            &&& fits(s.files[i].prefix_bytes)
            &&& fits(s.files[i].object.length)
            &&& s.files[i].object.root.len() == 32
            &&& s.files[i].incarnation.len() == 16
        }
    &&& forall|i: int, j: int|
        0 <= i < j < s.files.len() ==> (#[trigger] s.files[i]).entry <= (
        #[trigger] s.files[j]).entry
}

proof fn lemma_try_map_all<V, W>(
    s: Seq<V>,
    f: spec_fn(V) -> Result<W, Seq<char>>,
    r: Seq<W>,
)
    requires
        s.len() == r.len(),
        forall|i: int| 0 <= i < s.len() ==> f(#[trigger] s[i]) == Ok::<W, Seq<char>>(r[i]),
    ensures
        try_map(s, f) == Ok::<Seq<W>, Seq<char>>(r),
    decreases s.len(),
{
    if s.len() > 0 {
        let head = s.drop_last();
        assert forall|i: int| 0 <= i < head.len() implies f(#[trigger] head[i]) == Ok::<
            W,
            Seq<char>,
        >(r.drop_last()[i]) by {
            assert(head[i] == s[i]);
        }
        lemma_try_map_all(head, f, r.drop_last());
        assert(f(s[s.len() - 1]) == Ok::<W, Seq<char>>(r[s.len() - 1]));
        assert(r.drop_last().push(r.last()) =~= r);
    } else {
        assert(r =~= Seq::empty());
    }
}

/// An upload session is loaded as it was recorded, with its files.
pub proof fn recorded_sessions_read_back(
    s: StoreView,
    session: PersistedUploadSessionView,
    now: u64,
)
    requires
        session_fits(session),
    ensures
        admitted_session(s, session, now) matches Ok((after, _)) ==> {
            let row = after.sessions.last();
            &&& row.id == session.id
            &&& session_of()(row) matches Ok(bare) && session_filled(after.session_files)(bare)
                == Ok::<PersistedUploadSessionView, Seq<char>>(session)
        },
{
    if let Ok((after, _)) = admitted_session(s, session, now) {
        let p = session_file_of(session.id);
        let kept = s.session_files.filter(session_file_of_others(session.id));
        let rows = session.files.map_values(session_file_row(session.id));
        crate::table::lemma_filter_any_of(s.session_files, session_file_of_others(session.id));
        if any(kept, p) {
            let i = choose|i: int| 0 <= i < kept.len() && p(#[trigger] kept[i]);
            assert(session_file_of_others(session.id)(kept[i]));
        }
        Seq::filter_distributes_over_add(kept, rows, p);
        lemma_filter_none(kept, p);
        assert forall|i: int| 0 <= i < rows.len() implies p(#[trigger] rows[i]) by {
        }
        lemma_filter_whole(rows, p);
        assert((kept + rows).filter(p) =~= rows);
        assert forall|i: int, j: int| 0 <= i < j < rows.len() implies !lower_entry()(
            #[trigger] rows[j],
            #[trigger] rows[i],
        ) by {
            assert(session.files[i].entry <= session.files[j].entry);
        }
        lemma_sorted_already(rows, lower_entry());
        assert forall|i: int| 0 <= i < rows.len() implies session_file_read()(
            #[trigger] rows[i],
        ) == Ok::<PersistedUploadFileView, Seq<char>>(session.files[i]) by {
            assert(session.files[i].entry <= i64::MAX);
            crate::sessions::session_file_round_trip(session.id, session.files[i]);
        }
        lemma_try_map_all(rows, session_file_read(), session.files);
        crate::hexadecimal::hex_round_trip(session.package.root);
    }
}

// ------------------------------------------------------------------- uploads
proof fn lemma_sorted_already<V>(s: Seq<V>, lt: spec_fn(V, V) -> bool)
    requires
        forall|i: int, j: int| 0 <= i < j < s.len() ==> !lt(#[trigger] s[j], #[trigger] s[i]),
    ensures
        sorted_by(s, lt) == s,
    decreases s.len(),
{
    if s.len() > 0 {
        let head = s.drop_last();
        lemma_sorted_already(head, lt);
        if head.len() > 0 {
            assert(!lt(s[s.len() - 1], s[s.len() - 2]));
        }
        assert(head.push(s.last()) =~= s);
    } else {
        assert(s =~= Seq::empty());
    }
}

pub proof fn lemma_filter_none<V>(s: Seq<V>, p: spec_fn(V) -> bool)
    requires
        !any(s, p),
    ensures
        s.filter(p) == Seq::<V>::empty(),
{
    crate::table::lemma_filter_any_of(s, p);
    if s.filter(p).len() > 0 {
        assert(p(s.filter(p)[0]) && s.contains(s.filter(p)[0]));
        let k = choose|k: int| 0 <= k < s.len() && s[k] == s.filter(p)[0];
        assert(p(s[k]));
    }
    assert(s.filter(p) =~= Seq::empty());
}

proof fn lemma_filter_whole<V>(s: Seq<V>, p: spec_fn(V) -> bool)
    requires
        forall|i: int| 0 <= i < s.len() ==> p(#[trigger] s[i]),
    ensures
        s.filter(p) == s,
    decreases s.len(),
{
    reveal(Seq::filter);
    if s.len() > 0 {
        let head = s.drop_last();
        assert forall|i: int| 0 <= i < head.len() implies p(#[trigger] head[i]) by {
            assert(p(s[i]));
        }
        lemma_filter_whole(head, p);
        assert(p(s[s.len() - 1]));
        assert(head.push(s.last()) =~= s);
    } else {
        assert(s.filter(p) =~= s);
    }
}

pub proof fn lemma_rows_loaded(
    tenant: Seq<char>,
    link_id: Seq<char>,
    upload: UploadRecordView,
    k: int,
)
    requires
        upload.files.len() <= i64::MAX,
        0 <= k <= upload.files.len(),
    ensures
        loaded(
            record_rows(tenant, link_id, upload).take(k),
            column(upload.files.len() as u64),
        ) == Ok::<Seq<FileRecordView>, Seq<char>>(upload.files.take(k)),
    decreases k,
{
    let rows = record_rows(tenant, link_id, upload);
    if k > 0 {
        lemma_rows_loaded(tenant, link_id, upload, k - 1);
        assert(rows.take(k).drop_last() =~= rows.take(k - 1));
        let record = upload.files[k - 1];
        assert(rows.take(k).last() == record_row(tenant, link_id, upload.id, k - 1, record));
        lemma_limbs(record.bytes);
        assert(upload.files.take(k) =~= upload.files.take(k - 1).push(record));
    } else {
        assert(upload.files.take(0) =~= Seq::empty());
    }
}

proof fn lemma_own_rows(
    files: Seq<FileRowView>,
    tenant: Seq<char>,
    link_id: Seq<char>,
    upload: UploadRecordView,
)
    requires
        upload.files.len() <= i64::MAX,
        !any(files, file_of_upload(tenant, link_id, upload.id)),
    ensures
        ({
            let p = file_of_upload(tenant, link_id, upload.id);
            let rows = record_rows(tenant, link_id, upload);
            sorted_by((files + rows).filter(p), lower_index()) == rows
        }),
{
    let p = file_of_upload(tenant, link_id, upload.id);
    let rows = record_rows(tenant, link_id, upload);
    Seq::filter_distributes_over_add(files, rows, p);
    lemma_filter_none(files, p);
    assert forall|i: int| 0 <= i < rows.len() implies p(#[trigger] rows[i]) by {
        assert(rows[i] == record_row(tenant, link_id, upload.id, i, upload.files[i]));
    }
    lemma_filter_whole(rows, p);
    assert((files + rows).filter(p) =~= rows);
    assert forall|i: int, j: int| 0 <= i < j < rows.len() implies !lower_index()(
        #[trigger] rows[j],
        #[trigger] rows[i],
    ) by {
        assert(rows[i].file_index == i && rows[j].file_index == j);
    }
    lemma_sorted_already(rows, lower_index());
}

proof fn lemma_hydrates(
    files: Seq<FileRowView>,
    tenant: Seq<char>,
    link_id: Seq<char>,
    upload: UploadRecordView,
)
    requires
        upload.files.len() <= i64::MAX,
        !any(files, file_of_upload(tenant, link_id, upload.id)),
    ensures
        hydrated(files + record_rows(tenant, link_id, upload))(
            header_row(tenant, link_id, upload),
        ) == Ok::<UploadRecordView, Seq<char>>(upload),
{
    let rows = record_rows(tenant, link_id, upload);
    let header = header_row(tenant, link_id, upload);
    let n = upload.files.len() as int;
    lemma_own_rows(files, tenant, link_id, upload);
    lemma_rows_loaded(tenant, link_id, upload, n);
    assert(rows.take(n) =~= rows);
    assert(upload.files.take(n) =~= upload.files);
    assert(loaded(rows, header.file_count) == Ok::<Seq<FileRecordView>, Seq<char>>(upload.files));
    assert(UploadRecordView { files: upload.files, ..header.header } == upload);
}

proof fn lemma_hydrates_still(
    files: Seq<FileRowView>,
    tenant: Seq<char>,
    link_id: Seq<char>,
    upload: UploadRecordView,
    row: UploadRowView,
)
    requires
        row.link_id != link_id || row.upload_id != upload.id,
    ensures
        hydrated(files + record_rows(tenant, link_id, upload))(row) == hydrated(files)(row),
{
    let p = file_of_upload(row.tenant, row.link_id, row.upload_id);
    let rows = record_rows(tenant, link_id, upload);
    Seq::filter_distributes_over_add(files, rows, p);
    assert(!any(rows, p));
    lemma_filter_none(rows, p);
    assert((files + rows).filter(p) =~= files.filter(p));
}

/// An upload is read back as it was stored.
pub proof fn stored_uploads_read_back(
    s: StoreView,
    tenant: Seq<char>,
    link_id: Seq<char>,
    upload: UploadRecordView,
)
    requires
        upload.files.len() <= i64::MAX,
        any(s.links, crate::uploads::link_is(tenant, link_id)),
        upload_refused(s, link_id, upload) is None,
        !any(s.files, file_of_upload(tenant, link_id, upload.id)),
    ensures
        upload_read(with_upload(s, tenant, link_id, upload), tenant, link_id, upload.id) == Ok::<
            Option<UploadRecordView>,
            Seq<char>,
        >(Some(upload)),
{
    let header = header_row(tenant, link_id, upload);
    let p = crate::uploads::upload_is(tenant, link_id, upload.id);
    if any(s.uploads, p) {
        let i = choose|i: int| 0 <= i < s.uploads.len() && p(#[trigger] s.uploads[i]);
        assert(upload_at(link_id, upload.id)(s.uploads[i]));
    }
    lemma_first_pushed(s.uploads, header, p);
    lemma_hydrates(s.files, tenant, link_id, upload);
}

proof fn lemma_try_map_alike<V, W>(
    s: Seq<V>,
    f: spec_fn(V) -> Result<W, Seq<char>>,
    g: spec_fn(V) -> Result<W, Seq<char>>,
)
    requires
        forall|i: int| 0 <= i < s.len() ==> f(#[trigger] s[i]) == g(s[i]),
    ensures
        try_map(s, f) == try_map(s, g),
    decreases s.len(),
{
    if s.len() > 0 {
        let head = s.drop_last();
        assert forall|i: int| 0 <= i < head.len() implies f(#[trigger] head[i]) == g(head[i]) by {
            assert(head[i] == s[i]);
        }
        lemma_try_map_alike(head, f, g);
        assert(f(s[s.len() - 1]) == g(s[s.len() - 1]));
    }
}

/// Whether every file of a link belongs to one of its uploads.
pub open spec fn files_owned(s: StoreView, link_id: Seq<char>) -> bool {
    forall|i: int|
        0 <= i < s.files.len() && (#[trigger] s.files[i]).link_id == link_id ==> any(
            s.uploads,
            upload_at(link_id, s.files[i].upload_id),
        )
}

proof fn lemma_owner_pushed(uploads: Seq<UploadRowView>, row: UploadRowView, link_id: Seq<char>, id: Seq<char>)
    ensures
        any(uploads, upload_at(link_id, id)) ==> any(uploads.push(row), upload_at(link_id, id)),
        upload_at(link_id, id)(row) ==> any(uploads.push(row), upload_at(link_id, id)),
{
    let p = upload_at(link_id, id);
    if any(uploads, p) {
        let i = choose|i: int| 0 <= i < uploads.len() && p(#[trigger] uploads[i]);
        assert(uploads.push(row)[i] == uploads[i]);
    }
    assert(uploads.push(row)[uploads.len() as int] == row);
}

proof fn lemma_history(
    s: StoreView,
    tenant: Seq<char>,
    link_id: Seq<char>,
    uploads: Seq<UploadRecordView>,
)
    requires
        !any(s.files, in_link(link_id)),
        !any(s.uploads, upload_of_link(link_id)),
        forall|i: int| 0 <= i < uploads.len() ==> (#[trigger] uploads[i]).files.len() <= i64::MAX,
    ensures
        with_uploads(s, tenant, link_id, uploads) matches Ok(after) ==> uploads_of(after, link_id)
            == Ok::<Seq<UploadRecordView>, Seq<char>>(uploads) && files_owned(after, link_id)
            && after.links == s.links,
    decreases uploads.len(),
{
    let q = upload_of_link(link_id);
    if uploads.len() == 0 {
        lemma_filter_none(s.uploads, q);
        assert forall|i: int| 0 <= i < s.files.len() implies (#[trigger] s.files[i]).link_id
            != link_id by {
            assert(!in_link(link_id)(s.files[i]));
        }
        assert(uploads =~= Seq::empty());
    } else {
        let head = uploads.drop_last();
        let upload = uploads.last();
        lemma_history(s, tenant, link_id, head);
        if let Ok(before) = with_uploads(s, tenant, link_id, head) {
            if upload_refused(before, link_id, upload) is None {
                let after = with_upload(before, tenant, link_id, upload);
                let header = header_row(tenant, link_id, upload);
                let rows = record_rows(tenant, link_id, upload);
                let p = file_of_upload(tenant, link_id, upload.id);
                if any(before.files, p) {
                    let i = choose|i: int|
                        0 <= i < before.files.len() && p(#[trigger] before.files[i]);
                    assert(any(before.uploads, upload_at(link_id, upload.id)));
                }
                assert(uploads[uploads.len() - 1].files.len() <= i64::MAX);
                lemma_hydrates(before.files, tenant, link_id, upload);
                crate::table::lemma_filter_push(before.uploads, header, q);
                let known = before.uploads.filter(q);
                crate::table::lemma_filter_any_of(before.uploads, q);
                assert forall|i: int| 0 <= i < known.len() implies hydrated(before.files)(
                    #[trigger] known[i],
                ) == hydrated(after.files)(known[i]) by {
                    let k = choose|k: int|
                        0 <= k < before.uploads.len() && before.uploads[k] == known[i];
                    assert(!upload_at(link_id, upload.id)(before.uploads[k]));
                    assert(q(known[i]));
                    lemma_hydrates_still(before.files, tenant, link_id, upload, known[i]);
                }
                lemma_try_map_alike(known, hydrated(before.files), hydrated(after.files));
                assert(known.push(header).drop_last() =~= known);
                assert(head.push(upload) =~= uploads);
                assert forall|i: int|
                    0 <= i < after.files.len() && (#[trigger] after.files[i]).link_id
                        == link_id implies any(
                    after.uploads,
                    upload_at(link_id, after.files[i].upload_id),
                ) by {
                    lemma_owner_pushed(
                        before.uploads,
                        header,
                        link_id,
                        after.files[i].upload_id,
                    );
                    if i < before.files.len() {
                        assert(after.files[i] == before.files[i]);
                    } else {
                        assert(after.files[i] == rows[i - before.files.len()]);
                    }
                }
            }
        }
    }
}

/// Whether a link's numbers fit their columns.
pub open spec fn link_fits(l: LinkView) -> bool {
    &&& fits(l.created_at)
    &&& optional_fits(l.expires_at)
    &&& optional_fits(l.max_bytes)
    &&& forall|i: int| 0 <= i < l.uploads.len() ==> (#[trigger] l.uploads[i]).files.len() <= i64::MAX
}

/// A link is read back as it was inserted, with its history.
pub proof fn inserted_links_read_back(
    s: StoreView,
    l: LinkView,
    workflow: Option<Result<(), String>>,
)
    requires
        link_fits(l),
        !any(s.files, in_link(l.id)),
        !any(s.uploads, upload_of_link(l.id)),
    ensures
        with_link(s, l, workflow) matches Ok(after) ==> {
            let found = first(after.links, link_named(l.id));
            found is Some && full_link(after)(found->0) == Ok::<LinkView, Seq<char>>(l)
        },
{
    if let Ok(after) = with_link(s, l, workflow) {
        let row = link_row(l);
        let started = StoreView { links: s.links.push(row), ..s };
        lemma_history(started, l.tenant, l.id, l.uploads);
        lemma_first_pushed(s.links, row, link_named(l.id));
    }
}

// --------------------------------------------------------- single rows
pub proof fn lemma_first_put<V>(s: Seq<V>, p: spec_fn(V) -> bool, u: spec_fn(V) -> V, x: V)
    requires
        p(x),
        forall|y: V| #[trigger] p(y) ==> p(u(y)),
    ensures
        ({
            let found = first(
                if any(s, p) {
                    updated(s, p, u)
                } else {
                    s.push(x)
                },
                p,
            );
            found == Some(x) || (first(s, p) is Some && found == Some(u(first(s, p)->0)))
        }),
        !any(s, p) ==> first(s.push(x), p) == Some(x),
        any(s, p) ==> first(s, p) is Some && p(first(s, p)->0),
{
    crate::table::lemma_first_found(s, p);
    if any(s, p) {
        crate::table::lemma_first_updated(s, p, u);
    } else {
        lemma_first_pushed(s, x, p);
    }
}

/// A tenant's branding is read back as it was set.
pub proof fn set_branding_reads_back(rows: Seq<BrandingRowView>, b: BrandingView)
    requires
        fits(b.updated_at),
    ensures
        ({
            let after = if any(rows, branding_of(b.tenant)) {
                updated(rows, branding_of(b.tenant), rebranded(branding_row(b)))
            } else {
                rows.push(branding_row(b))
            };
            first(after, branding_of(b.tenant)) matches Some(row) && branding_read(row) == b
        }),
{
    lemma_first_put(rows, branding_of(b.tenant), rebranded(branding_row(b)), branding_row(b));
}

/// The digest of the administrator's password is read back as it was set.
pub proof fn set_passwords_read_back(rows: Seq<MetaRowView>, hash: Seq<char>)
    ensures
        ({
            let own = meta_is("admin_password_hash"@);
            let after = if any(rows, own) {
                updated(rows, own, meta_set(hash))
            } else {
                rows.push(MetaRowView { key: "admin_password_hash"@, value: hash })
            };
            first(after, own) matches Some(row) && row.value == hash
        }),
{
    lemma_first_put(
        rows,
        meta_is("admin_password_hash"@),
        meta_set(hash),
        MetaRowView { key: "admin_password_hash"@, value: hash },
    );
}

/// The manifest that was recorded for a grant is read back.
pub proof fn put_manifests_read_back(
    rows: Seq<GrantManifestRowView>,
    grant_id: Seq<char>,
    root: Seq<char>,
    at: i64,
)
    ensures
        ({
            let own = manifest_of(grant_id);
            let after = if any(rows, own) {
                updated(rows, own, remanifested(root, at))
            } else {
                rows.push(GrantManifestRowView { grant_id, manifest_root: root, created_at: at })
            };
            first(after, own) matches Some(row) && row.manifest_root == root
        }),
{
    lemma_first_put(
        rows,
        manifest_of(grant_id),
        remanifested(root, at),
        GrantManifestRowView { grant_id, manifest_root: root, created_at: at },
    );
}

} // verus!
