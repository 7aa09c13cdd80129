//! Links and their history: what is read of them, when they are taken in, and what changes or
//! leaves with them.
use vstd::prelude::*;

use crate::columns::{LIMB, undecoded};
use crate::grants::read_first;
use crate::links::{
    LinkRefusal, bare_link, buried, buried_files, endpoint_is, enrolled, full_link, link_named,
    link_row, not_endpoint_of, not_in_link, not_in_upload, not_incoming_route, not_invitation_to,
    not_link, not_upload_in, other_upload, policy_of, rewritten, route_named, stored_at, tenant_is,
    tombstoned, unrelated_rotation, with_link, with_uploads, without_link, without_upload,
};
use crate::records::{FileRecordView, LinkView, UploadRecordView};
use crate::rows::{
    FileRowView, LinkRowView, TenantRowView, TradeEndpointRowView, TradeInvitationRowView,
    TradeRouteRowView, UploadRowView,
};
use crate::selection::{
    lemma_changed, lemma_counted, lemma_found, lemma_ordered, lemma_read, lemma_selected,
};
use crate::store::StoreView;
use crate::table::{first, sorted_by, try_map};
use crate::uploads::{
    file_of_upload, hydrated, link_is, loaded, lower_index, place_below, record_of, record_rows,
    upload_at, upload_is, upload_of_link, upload_read, upload_refused, uploads_of, with_upload,
};
use crate::usage::link_in;

verus! {

// ------------------------------------------------------------------- reading
/// A tenant's links with their history.
pub open spec fn links_told(s: StoreView, tenant: Seq<char>) -> Result<Seq<LinkView>, Seq<char>> {
    try_map(s.links.filter(link_in(tenant)), full_link(s))
}

/// The links of all tenants with their history.
pub open spec fn all_links_told(s: StoreView) -> Result<Seq<LinkView>, Seq<char>> {
    try_map(s.links, full_link(s))
}

/// A link of a tenant without its history.
pub open spec fn policy_told(s: StoreView, tenant: Seq<char>, id: Seq<char>) -> Result<
    Option<LinkView>,
    Seq<char>,
> {
    read_first(first(s.links, link_is(tenant, id)), policy_of())
}

/// A link of a tenant with its history.
pub open spec fn link_told(s: StoreView, tenant: Seq<char>, id: Seq<char>) -> Result<
    Option<LinkView>,
    Seq<char>,
> {
    read_first(first(s.links, link_is(tenant, id)), full_link(s))
}

/// A link with its history, whosever it is.
pub open spec fn named_link_told(s: StoreView, id: Seq<char>) -> Result<Option<LinkView>, Seq<char>> {
    read_first(first(s.links, link_named(id)), full_link(s))
}

/// A link without history and events, whosever it is.
pub open spec fn bare_link_told(s: StoreView, id: Seq<char>) -> Result<Option<LinkView>, Seq<char>> {
    match first(s.links, link_named(id)) {
        None => Ok(None),
        Some(l) => match bare_link(l) {
            Ok(link) => Ok(Some(link)),
            Err(e) => Err(e),
        },
    }
}

/// The history of a link, whosever it is.
pub open spec fn history_told(s: StoreView, id: Seq<char>) -> Result<
    Option<Seq<UploadRecordView>>,
    Seq<char>,
> {
    match first(s.links, link_named(id)) {
        None => Ok(None),
        Some(l) => if l.events_error is Some {
            Err(undecoded("0"@, l.events_error->0))
        } else {
            match uploads_of(s, id) {
                Ok(uploads) => Ok(Some(uploads)),
                Err(e) => Err(e),
            }
        },
    }
}

/// Whether a number is what a column tells: none for none, and a number that is not below zero
/// for itself.
pub open spec fn number_told(column: Option<i64>, n: Option<u64>) -> bool {
    match column {
        None => n is None,
        Some(v) => v >= 0 ==> n == Some(v as u64),
    }
}

/// Whether the policy of a link is what its row tells.
pub open spec fn policy_tells(r: LinkRowView, l: LinkView) -> bool {
    &&& l.id == r.id && l.tenant == r.tenant && l.label == r.label && l.dest == r.dest
    &&& l.password_hash == r.password_hash && l.notifications == r.notifications
    &&& l.active == r.active && l.legal_hold == r.legal_hold
    &&& r.created_at >= 0 ==> l.created_at == r.created_at
    &&& number_told(r.expires_at, l.expires_at) && number_told(r.max_bytes, l.max_bytes)
}

/// A link that is read is the tenant's under that id, with the policy and the events of its
/// row and the history under its id; it is absent exactly if the tenant has no such link.
pub proof fn links_are_read(s: StoreView, tenant: Seq<char>, id: Seq<char>)
    ensures
        (link_told(s, tenant, id) matches Ok(None)) <==> !exists|r: LinkRowView| #[trigger]
            s.links.contains(r) && r.tenant == tenant && r.id == id,
        (policy_told(s, tenant, id) matches Ok(None)) <==> !exists|r: LinkRowView| #[trigger]
            s.links.contains(r) && r.tenant == tenant && r.id == id,
        link_told(s, tenant, id) matches Ok(Some(l)) ==> l.id == id && l.tenant == tenant
            && uploads_of(s, id) == Ok::<Seq<UploadRecordView>, Seq<char>>(l.uploads) && exists|
            r: LinkRowView,
        | #[trigger] s.links.contains(r) && policy_tells(r, l) && l.events == r.events,
        policy_told(s, tenant, id) matches Ok(Some(l)) ==> l.id == id && l.tenant == tenant
            && l.uploads.len() == 0 && exists|r: LinkRowView| #[trigger]
            s.links.contains(r) && policy_tells(r, l) && l.events == r.events,
        (forall|r: LinkRowView| #[trigger]
            s.links.contains(r) && r.tenant == tenant && r.id == id ==> r.events_error is None
                && r.notifications_error is None) ==> policy_told(s, tenant, id) is Ok && (
        uploads_of(s, id) is Ok ==> link_told(s, tenant, id) is Ok),
{
    lemma_found(s.links, link_is(tenant, id));
}

/// A link that is read by its id alone is the one under that id; it is absent exactly if there
/// is none.
pub proof fn links_are_read_by_their_id(s: StoreView, id: Seq<char>)
    ensures
        ({
            let there = exists|r: LinkRowView| #[trigger] s.links.contains(r) && r.id == id;
            &&& (named_link_told(s, id) matches Ok(None)) <==> !there
            &&& (bare_link_told(s, id) matches Ok(None)) <==> !there
            &&& (history_told(s, id) matches Ok(None)) <==> !there
        }),
        named_link_told(s, id) matches Ok(Some(l)) ==> l.id == id && uploads_of(s, id) == Ok::<
            Seq<UploadRecordView>,
            Seq<char>,
        >(l.uploads) && exists|r: LinkRowView| #[trigger]
            s.links.contains(r) && policy_tells(r, l) && l.events == r.events,
        bare_link_told(s, id) matches Ok(Some(l)) ==> l.id == id && l.uploads.len() == 0
            && l.events.len() == 0 && exists|r: LinkRowView| #[trigger]
            s.links.contains(r) && policy_tells(r, l),
        history_told(s, id) matches Ok(Some(uploads)) ==> uploads_of(s, id) == Ok::<
            Seq<UploadRecordView>,
            Seq<char>,
        >(uploads),
        (forall|r: LinkRowView| #[trigger]
            s.links.contains(r) && r.id == id ==> r.notifications_error is None) ==> bare_link_told(
            s,
            id,
        ) is Ok,
        (forall|r: LinkRowView| #[trigger]
            s.links.contains(r) && r.id == id ==> r.events_error is None) && uploads_of(s, id)
            is Ok ==> history_told(s, id) is Ok,
{
    lemma_found(s.links, link_named(id));
}

/// The links that are listed are the tenant's, all of them, in order of insertion.
pub proof fn links_are_listed(s: StoreView, tenant: Seq<char>)
    ensures
        links_told(s, tenant) matches Ok(list) ==> {
            let own = s.links.filter(|r: LinkRowView| r.tenant == tenant);
            &&& list.len() == own.len()
            &&& forall|i: int|
                0 <= i < list.len() ==> policy_tells(own[i], #[trigger] list[i]) && list[i].events
                    == own[i].events && uploads_of(s, own[i].id) == Ok::<
                    Seq<UploadRecordView>,
                    Seq<char>,
                >(list[i].uploads)
        },
        all_links_told(s) matches Ok(list) ==> {
            &&& list.len() == s.links.len()
            &&& forall|i: int|
                0 <= i < list.len() ==> policy_tells(s.links[i], #[trigger] list[i])
                    && list[i].events == s.links[i].events && uploads_of(s, s.links[i].id) == Ok::<
                    Seq<UploadRecordView>,
                    Seq<char>,
                >(list[i].uploads)
        },
{
    let raw = |r: LinkRowView| r.tenant == tenant;
    lemma_counted(s.links, link_in(tenant), raw);
    lemma_read(s.links.filter(link_in(tenant)), full_link(s));
    lemma_read(s.links, full_link(s));
}

// ------------------------------------------------------------------- history
/// What is read of a file's record is what its row tells, its length out of both limbs.
pub proof fn records_are_told(f: FileRowView)
    ensures
        record_of(f) is Ok <==> 0 <= f.bytes_hi < LIMB && 0 <= f.bytes_lo < LIMB,
        record_of(f) matches Ok(r) ==> r.path == f.path && r.stored_as == f.stored_as && r.suite
            == f.suite && r.root == f.root && r.receipt == f.receipt && r.deleted == f.deleted
            && r.bytes == f.bytes_hi * LIMB + f.bytes_lo,
{
}

/// Whether files are what rows tell, the row of each index at its place.
pub open spec fn files_tell(rows: Seq<FileRowView>, files: Seq<FileRecordView>) -> bool {
    &&& files.len() == rows.len()
    &&& forall|i: int|
        0 <= i < rows.len() ==> record_of(#[trigger] rows[i]) == Ok::<FileRecordView, Seq<char>>(
            files[i],
        )
    &&& forall|i: int| 0 <= i < rows.len() && i < i64::MAX ==> (#[trigger] rows[i]).file_index == i
}

proof fn lemma_loaded(rows: Seq<FileRowView>, expected: i64)
    ensures
        loaded(rows, expected) matches Ok(files) ==> files_tell(rows, files),
    decreases rows.len(),
{
    if rows.len() > 0 {
        let head = rows.drop_last();
        lemma_loaded(head, expected);
        if let Ok(files) = loaded(rows, expected) {
            let done = loaded(head, expected)->Ok_0;
            assert forall|i: int| 0 <= i < rows.len() implies record_of(#[trigger] rows[i]) == Ok::<
                FileRecordView,
                Seq<char>,
            >(files[i]) by {
                if i < head.len() {
                    assert(head[i] == rows[i]);
                }
            }
            assert forall|i: int| 0 <= i < rows.len() && i < i64::MAX implies (
            #[trigger] rows[i]).file_index == i by {
                if i < head.len() {
                    assert(head[i] == rows[i]);
                }
            }
        }
    }
}

/// An upload that is read has the header of its row and the files of all its rows, each at its
/// index, and no other's.
pub proof fn uploads_have_their_files(files: Seq<FileRowView>, u: UploadRowView)
    ensures
        hydrated(files)(u) matches Ok(up) ==> {
            let own = |f: FileRowView|
                f.tenant == u.tenant && f.link_id == u.link_id && f.upload_id == u.upload_id;
            &&& up == (UploadRecordView { files: up.files, ..u.header })
            &&& up.id == u.upload_id
            &&& up.files.len() == files.filter(own).len()
            &&& forall|f: FileRowView| #[trigger]
                files.contains(f) && own(f) && f.file_index < i64::MAX ==> 0 <= f.file_index
                    < up.files.len() && record_of(f) == Ok::<FileRecordView, Seq<char>>(
                    up.files[f.file_index as int],
                )
        },
{
    if let Ok(up) = hydrated(files)(u) {
        let mine = file_of_upload(u.tenant, u.link_id, u.upload_id);
        let own = |f: FileRowView|
            f.tenant == u.tenant && f.link_id == u.link_id && f.upload_id == u.upload_id;
        lemma_counted(files, mine, own);
        let rows = files.filter(mine);
        let all = sorted_by(rows, lower_index());
        lemma_selected(files, mine);
        lemma_ordered(rows, lower_index());
        lemma_loaded(all, u.file_count);
        lemma_late(all, u.file_count);
        assert forall|f: FileRowView| #[trigger]
            files.contains(f) && own(f) && f.file_index < i64::MAX implies 0 <= f.file_index
            < up.files.len() && record_of(f) == Ok::<FileRecordView, Seq<char>>(
            up.files[f.file_index as int],
        ) by {
            assert(mine(f));
            assert(rows.contains(f));
            assert(all.contains(f));
            let i = choose|i: int| 0 <= i < all.len() && all[i] == f;
            assert(record_of(all[i]) == Ok::<FileRecordView, Seq<char>>(up.files[i]));
        }
    }
}

proof fn lemma_late(rows: Seq<FileRowView>, expected: i64)
    requires
        loaded(rows, expected) is Ok,
    ensures
        rows.len() <= i64::MAX,
    decreases rows.len(),
{
    if rows.len() > 0 {
        lemma_loaded(rows.drop_last(), expected);
        lemma_late(rows.drop_last(), expected);
    }
}

/// The history of a link is of all the uploads under its id, in order of insertion; one upload
/// is read where the tenant has the link and the upload.
pub proof fn histories_are_read(
    s: StoreView,
    tenant: Seq<char>,
    id: Seq<char>,
    upload: Seq<char>,
)
    ensures
        uploads_of(s, id) matches Ok(list) ==> {
            let own = s.uploads.filter(|u: UploadRowView| u.link_id == id);
            &&& list.len() == own.len()
            &&& forall|i: int|
                0 <= i < list.len() ==> hydrated(s.files)(own[i]) == Ok::<
                    UploadRecordView,
                    Seq<char>,
                >(#[trigger] list[i])
        },
        (upload_read(s, tenant, id, upload) matches Ok(None)) <==> !((exists|r: LinkRowView|
         #[trigger]
            s.links.contains(r) && r.tenant == tenant && r.id == id) && exists|u: UploadRowView|
         #[trigger]
            s.uploads.contains(u) && u.tenant == tenant && u.link_id == id && u.upload_id
                == upload),
        upload_read(s, tenant, id, upload) matches Ok(Some(up)) ==> up.id == upload && exists|
            u: UploadRowView,
        | #[trigger]
            s.uploads.contains(u) && u.tenant == tenant && u.link_id == id && u.upload_id == upload
                && hydrated(s.files)(u) == Ok::<UploadRecordView, Seq<char>>(up),
{
    let raw = |u: UploadRowView| u.link_id == id;
    lemma_counted(s.uploads, upload_of_link(id), raw);
    lemma_read(s.uploads.filter(upload_of_link(id)), hydrated(s.files));
    lemma_found(s.links, link_is(tenant, id));
    lemma_found(s.uploads, upload_is(tenant, id, upload));
}

// --------------------------------------------------------------------- taking
/// Whether a row holds a link's policy and events.
pub open spec fn link_written(r: LinkRowView, l: LinkView) -> bool {
    &&& r.id == l.id && r.tenant == l.tenant && r.label == l.label && r.dest == l.dest
    &&& r.password_hash == l.password_hash && r.notifications == l.notifications && r.events
        == l.events
    &&& r.active == l.active && r.legal_hold == l.legal_hold
    &&& r.events_error is None && r.notifications_error is None
    &&& l.created_at <= i64::MAX ==> r.created_at == l.created_at
    &&& number_written(l.expires_at, r.expires_at) && number_written(l.max_bytes, r.max_bytes)
}

/// Whether a column holds a number, where it fits.
pub open spec fn number_written(n: Option<u64>, column: Option<i64>) -> bool {
    match n {
        None => column is None,
        Some(v) => v <= i64::MAX ==> column == Some(v as i64),
    }
}

proof fn lemma_frame(s: StoreView, tenant: Seq<char>, id: Seq<char>, uploads: Seq<UploadRecordView>)
    ensures
        with_uploads(s, tenant, id, uploads) matches Ok(after) ==> after == (StoreView {
            uploads: after.uploads,
            files: after.files,
            quotas: after.quotas,
            ..s
        }) && after.uploads.len() == s.uploads.len() + uploads.len(),
    decreases uploads.len(),
{
    if uploads.len() > 0 {
        lemma_frame(s, tenant, id, uploads.drop_last());
    }
}

/// A link is taken in exactly if its tenant is there, no link has its id, its history can be
/// recorded, and its workflow was set up. It comes behind the links that are there, and of
/// those nothing changes.
pub proof fn links_are_taken_in(s: StoreView, l: LinkView, workflow: Option<Result<(), String>>)
    ensures
        ({
            let homeless = l.tenant.len() > 0 && !exists|t: TenantRowView| #[trigger]
                s.tenants.contains(t) && t.key == l.tenant;
            let taken = exists|r: LinkRowView| #[trigger] s.links.contains(r) && r.id == l.id;
            let failed = workflow is Some && workflow->0 is Err;
            &&& (with_link(s, l, workflow) matches Err(LinkRefusal::NamedTenantGone)) <==> homeless
            &&& taken || failed ==> with_link(s, l, workflow) is Err
            &&& l.uploads.len() == 0 && !homeless && !taken && !failed ==> with_link(s, l, workflow)
                is Ok
        }),
        with_link(s, l, workflow) matches Ok(after) ==> {
            &&& after.links.len() == s.links.len() + 1
            &&& after.links.drop_last() == s.links
            &&& link_written(after.links.last(), l)
            &&& after.uploads.len() == s.uploads.len() + l.uploads.len()
            &&& after == (StoreView {
                links: after.links,
                uploads: after.uploads,
                files: after.files,
                quotas: after.quotas,
                ..s
            })
        },
{
    lemma_found(s.tenants, tenant_is(l.tenant));
    lemma_found(s.links, link_named(l.id));
    let begun = StoreView { links: s.links.push(link_row(l)), ..s };
    lemma_frame(begun, l.tenant, l.id, l.uploads);
    if let Ok(after) = with_link(s, l, workflow) {
        assert(after.links == s.links.push(link_row(l)));
        assert(after.links.drop_last() =~= s.links);
    }
}

/// Whether what a link has is of uploads among those given.
pub open spec fn history_is_of(s: StoreView, id: Seq<char>, uploads: Seq<UploadRecordView>) -> bool {
    &&& forall|u: UploadRowView| #[trigger]
        s.uploads.contains(u) && u.link_id == id ==> exists|i: int|
            0 <= i < uploads.len() && (#[trigger] uploads[i]).id == u.upload_id
    &&& forall|f: FileRowView| #[trigger]
        s.files.contains(f) && f.link_id == id ==> exists|i: int|
            0 <= i < uploads.len() && (#[trigger] uploads[i]).id == f.upload_id
}

/// A history of uploads with an id each is recorded whole under an id that has none yet.
pub proof fn histories_are_recorded(
    s: StoreView,
    tenant: Seq<char>,
    id: Seq<char>,
    uploads: Seq<UploadRecordView>,
)
    requires
        forall|u: UploadRowView| #[trigger] s.uploads.contains(u) ==> u.link_id != id,
        forall|f: FileRowView| #[trigger] s.files.contains(f) ==> f.link_id != id,
        forall|i: int, j: int|
            0 <= i < j < uploads.len() ==> (#[trigger] uploads[i]).id != (#[trigger] uploads[j]).id,
    ensures
        with_uploads(s, tenant, id, uploads) is Ok,
        history_is_of(with_uploads(s, tenant, id, uploads)->Ok_0, id, uploads),
    decreases uploads.len(),
{
    if uploads.len() > 0 {
        let head = uploads.drop_last();
        let last = uploads.last();
        let n = uploads.len() - 1;
        assert forall|i: int, j: int| 0 <= i < j < head.len() implies (#[trigger] head[i]).id != (
        #[trigger] head[j]).id by {
            assert(uploads[i].id != uploads[j].id);
        }
        histories_are_recorded(s, tenant, id, head);
        let mid = with_uploads(s, tenant, id, head)->Ok_0;
        lemma_found(mid.uploads, upload_at(id, last.id));
        let end = crate::columns::column(last.files.len() as u64);
        lemma_found(mid.files, place_below(id, last.id, end));
        assert forall|i: int| 0 <= i < head.len() implies (#[trigger] head[i]).id != last.id by {
            assert(uploads[i].id != uploads[n].id);
        }
        assert(upload_refused(mid, id, last) is None);
        let after = with_upload(mid, tenant, id, last);
        let rows = record_rows(tenant, id, last);
        assert(uploads[n] == last);
        assert forall|u: UploadRowView| #[trigger]
            after.uploads.contains(u) && u.link_id == id implies exists|i: int|
            0 <= i < uploads.len() && (#[trigger] uploads[i]).id == u.upload_id by {
            let k = choose|k: int| 0 <= k < after.uploads.len() && after.uploads[k] == u;
            if k < mid.uploads.len() {
                assert(mid.uploads[k] == u);
                assert(mid.uploads.contains(u));
                let i = choose|i: int| 0 <= i < head.len() && (#[trigger] head[i]).id == u.upload_id;
                assert(uploads[i].id == u.upload_id);
            } else {
                assert(uploads[n].id == u.upload_id);
            }
        }
        assert forall|f: FileRowView| #[trigger]
            after.files.contains(f) && f.link_id == id implies exists|i: int|
            0 <= i < uploads.len() && (#[trigger] uploads[i]).id == f.upload_id by {
            let k = choose|k: int| 0 <= k < after.files.len() && after.files[k] == f;
            if k < mid.files.len() {
                assert(mid.files[k] == f);
                assert(mid.files.contains(f));
                let i = choose|i: int| 0 <= i < head.len() && (#[trigger] head[i]).id == f.upload_id;
                assert(uploads[i].id == f.upload_id);
            } else {
                assert(rows[k - mid.files.len()] == f);
                assert(uploads[n].id == f.upload_id);
            }
        }
    }
}

/// A rewritten link holds what was given, in its place; no other link changes. A password is
/// refused where the link is a receiving endpoint, and nothing else is.
pub proof fn links_are_rewritten(s: StoreView, id: Seq<char>, l: LinkView)
    ensures
        rewritten(s, id, l) is Err <==> l.password_hash is Some && exists|e: TradeEndpointRowView|
         #[trigger]
            s.trade_endpoints.contains(e) && e.id == id,
        rewritten(s, id, l) matches Ok((after, done)) ==> {
            &&& done
            &&& after == (StoreView { links: after.links, ..s })
            &&& after.links.len() == s.links.len()
            &&& forall|i: int|
                0 <= i < s.links.len() && !(s.links[i].tenant == l.tenant && s.links[i].id == l.id)
                    ==> #[trigger] after.links[i] == s.links[i]
            &&& forall|i: int|
                0 <= i < s.links.len() && s.links[i].tenant == l.tenant && s.links[i].id == l.id
                    ==> link_written(#[trigger] after.links[i], l)
        },
{
    lemma_found(s.trade_endpoints, endpoint_is(id));
    lemma_changed(s.links, link_is(l.tenant, l.id), crate::links::becomes(link_row(l)));
}

// ------------------------------------------------------------------- removal
/// An upload is removed exactly if nothing waits for it and the tenant has the link and the
/// upload; its files go with it, and nothing else does.
pub proof fn uploads_are_removed(
    s: StoreView,
    tenant: Seq<char>,
    id: Seq<char>,
    upload: Seq<char>,
    pending: bool,
)
    ensures
        without_upload(s, tenant, id, upload, pending) is Err <==> pending,
        without_upload(s, tenant, id, upload, pending) matches Ok((after, gone)) ==> {
            &&& gone <==> (exists|r: LinkRowView| #[trigger]
                s.links.contains(r) && r.tenant == tenant && r.id == id) && exists|
                u: UploadRowView,
            | #[trigger]
                s.uploads.contains(u) && u.tenant == tenant && u.link_id == id && u.upload_id
                    == upload
            &&& !gone ==> after == s
            &&& after == (StoreView {
                uploads: after.uploads,
                files: after.files,
                quotas: after.quotas,
                ..s
            })
            &&& gone ==> forall|u: UploadRowView| #[trigger]
                after.uploads.contains(u) <==> s.uploads.contains(u) && !(u.tenant == tenant
                    && u.link_id == id && u.upload_id == upload)
            &&& gone ==> forall|f: FileRowView| #[trigger]
                after.files.contains(f) <==> s.files.contains(f) && !(f.tenant == tenant
                    && f.link_id == id && f.upload_id == upload)
        },
{
    lemma_found(s.links, link_is(tenant, id));
    lemma_found(s.uploads, upload_is(tenant, id, upload));
    lemma_selected(s.uploads, other_upload(tenant, id, upload));
    lemma_selected(s.files, not_in_upload(tenant, id, upload));
}

/// Whether a record is one of a link under one of some paths.
pub open spec fn meant(f: FileRowView, tenant: Seq<char>, id: Seq<char>, paths: Seq<Seq<char>>) -> bool {
    f.tenant == tenant && f.link_id == id && paths.contains(f.stored_as)
}

/// Whether a record is as it was but for being marked as deleted where it is meant.
pub open spec fn marked(
    after: FileRowView,
    was: FileRowView,
    tenant: Seq<char>,
    id: Seq<char>,
    paths: Seq<Seq<char>>,
) -> bool {
    after == (FileRowView { deleted: after.deleted, ..was }) && (after.deleted <==> was.deleted
        || meant(was, tenant, id, paths))
}

proof fn lemma_marked(files: Seq<FileRowView>, tenant: Seq<char>, id: Seq<char>, paths: Seq<Seq<char>>)
    ensures
        buried_files(files, tenant, id, paths).len() == files.len(),
        forall|i: int|
            0 <= i < files.len() ==> marked(
                #[trigger] buried_files(files, tenant, id, paths)[i],
                files[i],
                tenant,
                id,
                paths,
            ),
    decreases paths.len(),
{
    if paths.len() > 0 {
        let head = paths.drop_last();
        lemma_marked(files, tenant, id, head);
        let mid = buried_files(files, tenant, id, head);
        let after = buried_files(files, tenant, id, paths);
        lemma_changed(mid, stored_at(tenant, id, paths.last()), tombstoned());
        assert forall|i: int| 0 <= i < files.len() implies marked(
            #[trigger] after[i],
            files[i],
            tenant,
            id,
            paths,
        ) by {
            assert(marked(mid[i], files[i], tenant, id, head));
            let path = files[i].stored_as;
            assert(paths.contains(path) <==> head.contains(path) || path == paths.last()) by {
                if head.contains(path) {
                    let k = choose|k: int| 0 <= k < head.len() && head[k] == path;
                    assert(paths[k] == path);
                }
                if paths.contains(path) {
                    let k = choose|k: int| 0 <= k < paths.len() && paths[k] == path;
                    if k < head.len() {
                        assert(head[k] == path);
                    }
                }
                if path == paths.last() {
                    assert(paths[paths.len() - 1] == path);
                }
            }
        }
    }
}

/// Files are marked as deleted exactly where they are the link's and under one of the paths,
/// and nothing else of them changes; where the tenant has no such link nothing does.
pub proof fn files_are_marked_as_deleted(
    s: StoreView,
    tenant: Seq<char>,
    id: Seq<char>,
    paths: Seq<Seq<char>>,
)
    ensures
        (buried(s, tenant, id, paths) matches Ok((_, false))) <==> !exists|r: LinkRowView|
         #[trigger]
            s.links.contains(r) && r.tenant == tenant && r.id == id,
        buried(s, tenant, id, paths) matches Ok((after, done)) ==> {
            &&& !done ==> after == s
            &&& after == (StoreView { files: after.files, quotas: after.quotas, ..s })
            &&& after.files.len() == s.files.len()
            &&& done ==> forall|i: int|
                0 <= i < s.files.len() ==> marked(
                    #[trigger] after.files[i],
                    s.files[i],
                    tenant,
                    id,
                    paths,
                )
        },
        (forall|r: LinkRowView| #[trigger]
            s.links.contains(r) && r.tenant == tenant && r.id == id ==> r.events_error is None
                && r.notifications_error is None) ==> buried(s, tenant, id, paths) is Ok,
{
    lemma_found(s.links, link_is(tenant, id));
    lemma_marked(s.files, tenant, id, paths);
}

/// Whether a peer may still deliver to a link by a route.
pub open spec fn delivers(r: TradeRouteRowView, tenant: Seq<char>, id: Seq<char>) -> bool {
    r.tenant == tenant && r.endpoint == id && r.direction == "incoming"@ && (r.state matches Some(
        state,
    ) && state != "revoked"@)
}

/// A link is removed unless something waits for it or a peer may still deliver to it. With it
/// go its history, its files, its endpoint, its invitations, its incoming routes and their
/// rotations; nothing of another link does.
pub proof fn links_are_removed(s: StoreView, tenant: Seq<char>, id: Seq<char>, pending: bool)
    ensures
        without_link(s, tenant, id, pending) is Err <==> pending || exists|r: TradeRouteRowView|
         #[trigger]
            s.trade_routes.contains(r) && delivers(r, tenant, id),
        without_link(s, tenant, id, pending) matches Ok((after, gone)) ==> {
            &&& gone <==> exists|r: LinkRowView| #[trigger]
                s.links.contains(r) && r.tenant == tenant && r.id == id
            &&& forall|r: LinkRowView| #[trigger]
                after.links.contains(r) <==> s.links.contains(r) && !(r.tenant == tenant && r.id
                    == id)
            &&& forall|u: UploadRowView| #[trigger]
                after.uploads.contains(u) <==> s.uploads.contains(u) && !(u.tenant == tenant
                    && u.link_id == id)
            &&& gone ==> forall|f: FileRowView| #[trigger]
                after.files.contains(f) <==> s.files.contains(f) && f.link_id != id
            &&& !gone ==> after.files == s.files && after.quotas == s.quotas
            &&& forall|e: TradeEndpointRowView| #[trigger]
                after.trade_endpoints.contains(e) <==> s.trade_endpoints.contains(e) && !(e.tenant
                    == tenant && e.id == id)
            &&& forall|i: TradeInvitationRowView| #[trigger]
                after.trade_invitations.contains(i) <==> s.trade_invitations.contains(i) && !(
                i.tenant == tenant && i.endpoint == id)
            &&& forall|r: TradeRouteRowView| #[trigger]
                after.trade_routes.contains(r) <==> s.trade_routes.contains(r) && !(r.tenant
                    == tenant && r.endpoint == id && r.direction == "incoming"@)
            &&& forall|route: Seq<char>| #[trigger]
                after.trade_rotations.contains(route) <==> s.trade_rotations.contains(route)
                    && !exists|r: TradeRouteRowView| #[trigger]
                    s.trade_routes.contains(r) && r.tenant == tenant && r.endpoint == id && r.id
                        == route
            &&& after == (StoreView {
                links: after.links,
                uploads: after.uploads,
                files: after.files,
                quotas: after.quotas,
                trade_endpoints: after.trade_endpoints,
                trade_invitations: after.trade_invitations,
                trade_routes: after.trade_routes,
                trade_rotations: after.trade_rotations,
                ..s
            })
        },
{
    lemma_found(s.links, link_is(tenant, id));
    lemma_found(s.trade_routes, enrolled(tenant, id));
    lemma_selected(s.links, not_link(tenant, id));
    lemma_selected(s.uploads, not_upload_in(tenant, id));
    lemma_selected(s.files, not_in_link(id));
    lemma_selected(s.trade_endpoints, not_endpoint_of(tenant, id));
    lemma_selected(s.trade_invitations, not_invitation_to(tenant, id));
    lemma_selected(s.trade_routes, not_incoming_route(tenant, id));
    lemma_selected(s.trade_rotations, unrelated_rotation(s.trade_routes, tenant, id));
    assert forall|route: Seq<char>| #[trigger]
        unrelated_rotation(s.trade_routes, tenant, id)(route) <==> !exists|r: TradeRouteRowView|
     #[trigger]
        s.trade_routes.contains(r) && r.tenant == tenant && r.endpoint == id && r.id == route by {
        lemma_found(s.trade_routes, route_named(tenant, id, route));
    }
}

} // verus!
