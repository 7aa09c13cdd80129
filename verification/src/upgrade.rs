//! What becomes of a converted copy's rows: its uploads, its jobs with their
//! links, and its chains of events.
use vstd::prelude::*;

use crate::columns::{high, low, split_bytes};
use crate::decimal::{decimal, u64_text};
use crate::downloads::grant_is;
use crate::evidence::{chained, document_of, drafted, event_of, event_row, event_verifies, signs};
use crate::json::{
    json_object, json_string, member, object, object_with, parse_json, parsed_json, quoted,
    with_member,
};
use crate::lifecycle::job_is;
use crate::records::{
    DeliveryEvent, DeliveryEventView, FileRecordView, Rotation, RotationView, SourceFile,
    SourceFileView, SourceJob, SourceJobView, SourceLink, SourceLinkView, UploadRecord,
};
use crate::rows::{
    EventRow, EventRowView, FileRow, FileRowView, GrantRow, GrantRowView, JobRow, JobRowView,
    TicketRow, TicketRowView, UploadRow, UploadRowView,
};
use crate::store::{Store, StoreView, follows};
use crate::table::{
    Row, any, append_row, count, count_where, delete_where, dup_rows, exists_where, find, first,
    outcome, sort_rows, sorted_by, update_where, updated,
};
use crate::text::{lt, same, text_lt};
use crate::uploads::{header_of, header_row, record_at, record_rows};

verus! {

// ------------------------------------------------------------------- uploads
/// The files that stood at a position of a link.
pub open spec fn positioned(link_id: Seq<char>, upload: int) -> spec_fn(SourceFileView) -> bool {
    |f: SourceFileView| f.link_id == link_id && f.upload_index == upload
}

/// A file as it should have stood at its position.
pub open spec fn stood_as(
    link_id: Seq<char>,
    tenant: Seq<char>,
    upload: int,
    index: int,
    file: FileRecordView,
) -> spec_fn(SourceFileView) -> bool {
    |f: SourceFileView|
        f.link_id == link_id && f.upload_index == upload && f.file_index == index && f.tenant
            == tenant && f.bytes_hi == high(file.bytes) && f.bytes_lo == low(file.bytes)
            && f.deleted == file.deleted && f.stored_as == file.stored_as
}

/// Whether an upload of a link is one of its own, and its files are those that
/// stood at its position.
pub open spec fn source_upload_checked(files: Seq<SourceFileView>, link: SourceLinkView, k: int) -> Result<
    (),
    Seq<char>,
> {
    let upload = link.uploads[k];
    if upload.id.len() == 0 || (exists|j: int|
        0 <= j < k && (#[trigger] link.uploads[j]).id == upload.id) {
        Err("missing or duplicate source upload ID"@)
    } else if count(files, positioned(link.id, k)) != upload.files.len() {
        Err("source positional file count disagrees with uploads_json"@)
    } else if exists|i: int|
        0 <= i < upload.files.len() && !any(
            files,
            stood_as(link.id, link.tenant, k, i, #[trigger] upload.files[i]),
        ) {
        Err("source positional file identity disagrees with uploads_json"@)
    } else {
        Ok(())
    }
}

/// Whether the first `n` uploads of a link can be taken over.
pub open spec fn source_uploads_checked(files: Seq<SourceFileView>, link: SourceLinkView, n: int) -> Result<
    (),
    Seq<char>,
>
    decreases n,
{
    if n <= 0 {
        Ok(())
    } else {
        match source_uploads_checked(files, link, n - 1) {
            Err(e) => Err(e),
            Ok(_) => source_upload_checked(files, link, n - 1),
        }
    }
}

/// The files of the first `n` uploads of a link.
pub open spec fn link_files(link: SourceLinkView, n: int) -> Seq<FileRowView>
    decreases n,
{
    if n <= 0 {
        Seq::empty()
    } else {
        link_files(link, n - 1) + record_rows(link.tenant, link.id, link.uploads[n - 1])
    }
}

/// The headers of the first `n` uploads of a link.
pub open spec fn link_headers(link: SourceLinkView, n: int) -> Seq<UploadRowView>
    decreases n,
{
    if n <= 0 {
        Seq::empty()
    } else {
        link_headers(link, n - 1).push(header_row(link.tenant, link.id, link.uploads[n - 1]))
    }
}

/// The files and headers of all links, or why they cannot be taken over.
pub open spec fn taken_over(files: Seq<SourceFileView>, links: Seq<SourceLinkView>) -> Result<
    (Seq<FileRowView>, Seq<UploadRowView>),
    Seq<char>,
>
    decreases links.len(),
{
    if links.len() == 0 {
        Ok((Seq::empty(), Seq::empty()))
    } else {
        match taken_over(files, links.drop_last()) {
            Err(e) => Err(e),
            Ok((rows, headers)) => {
                let link = links.last();
                let n = link.uploads.len() as int;
                match link.refusal {
                    Some(e) => Err(e),
                    None => match source_uploads_checked(files, link, n) {
                        Err(e) => Err(e),
                        Ok(_) => Ok(
                            (rows + link_files(link, n), headers + link_headers(link, n)),
                        ),
                    },
                }
            },
        }
    }
}

/// The store with the uploads of a converted copy.
pub open spec fn uploads_normalized(
    s: StoreView,
    files: Seq<SourceFileView>,
    links: Seq<SourceLinkView>,
) -> Result<(StoreView, ()), Seq<char>> {
    match taken_over(files, links) {
        Err(e) => Err(e),
        Ok((rows, headers)) => if files.len() != rows.len() {
            Err("source file projection contains orphan rows"@)
        } else {
            Ok((StoreView { files: rows, uploads: headers, ..s }, ()))
        },
    }
}

proof fn lemma_source_refused(files: Seq<SourceFileView>, link: SourceLinkView, n: int, m: int)
    requires
        n <= m,
        source_uploads_checked(files, link, n) is Err,
    ensures
        source_uploads_checked(files, link, m) == source_uploads_checked(files, link, n),
    decreases m - n,
{
    if n < m {
        lemma_source_refused(files, link, n, m - 1);
    }
}

proof fn lemma_taken_refused(files: Seq<SourceFileView>, links: Seq<SourceLinkView>, n: int)
    requires
        0 <= n <= links.len(),
        taken_over(files, links.take(n)) is Err,
    ensures
        taken_over(files, links) == taken_over(files, links.take(n)),
    decreases links.len() - n,
{
    if n < links.len() {
        assert(links.take(n + 1).drop_last() =~= links.take(n));
        lemma_taken_refused(files, links, n + 1);
    } else {
        assert(links.take(n) =~= links);
    }
}

fn check_source_upload(files: &Vec<SourceFile>, link: &SourceLink, k: usize) -> (r: Result<
    (),
    String,
>)
    requires
        k < link.uploads.len(),
    ensures
        outcome(r) == source_upload_checked(files.deep_view(), link@, k as int),
{
    let upload = &link.uploads[k];
    let link_id = link.id.as_str();
    let tenant = link.tenant.as_str();
    let at: i128 = k as i128;
    let ghost uploads = link@.uploads;
    assert(uploads[k as int] == upload@);
    if upload.id.as_str().unicode_len() == 0 {
        return Err("missing or duplicate source upload ID".to_owned());
    }
    let mut j: usize = 0;
    while j < k
        invariant
            j <= k < link.uploads.len(),
            uploads == link@.uploads,
            uploads[k as int] == upload@,
            forall|i: int| 0 <= i < j ==> (#[trigger] uploads[i]).id != upload@.id,
        decreases k - j,
    {
        assert(uploads[j as int] == link.uploads@[j as int]@);
        if same(link.uploads[j].id.as_str(), upload.id.as_str()) {
            return Err("missing or duplicate source upload ID".to_owned());
        }
        j += 1;
    }
    let here = |f: &SourceFile| -> (b: bool)
        ensures
            b == positioned(link_id@, at as int)(f@),
    {
        same(f.link_id.as_str(), link_id) && f.upload_index as i128 == at
    };
    if count_where(files, here, Ghost(positioned(link_id@, at as int))) != upload.files.len() {
        return Err("source positional file count disagrees with uploads_json".to_owned());
    }
    let mut i: usize = 0;
    while i < upload.files.len()
        invariant
            i <= upload.files.len(),
            k < link.uploads.len(),
            at == k,
            link_id@ == link@.id,
            tenant@ == link@.tenant,
            uploads == link@.uploads,
            uploads[k as int] == upload@,
            upload@.id.len() > 0,
            forall|j: int| 0 <= j < k ==> (#[trigger] uploads[j]).id != upload@.id,
            count(files.deep_view(), positioned(link@.id, k as int)) == upload@.files.len(),
            forall|m: int|
                0 <= m < i ==> any(
                    files.deep_view(),
                    stood_as(link@.id, link@.tenant, k as int, m, #[trigger] upload@.files[m]),
                ),
        decreases upload.files.len() - i,
    {
        let file = &upload.files[i];
        let index: i128 = i as i128;
        let (hi, lo) = split_bytes(file.bytes);
        let stood = |f: &SourceFile| -> (b: bool)
            ensures
                b == stood_as(link_id@, tenant@, at as int, index as int, file@)(f@),
        {
            same(f.link_id.as_str(), link_id) && f.upload_index as i128 == at && f.file_index as i128 == index
                && same(f.tenant.as_str(), tenant) && f.bytes_hi == hi && f.bytes_lo == lo
                && f.deleted == file.deleted && same(
                f.stored_as.as_str(),
                file.stored_as.as_str(),
            )
        };
        assert(upload@.files[i as int] == file@);
        if !exists_where(
            files,
            stood,
            Ghost(stood_as(link_id@, tenant@, at as int, index as int, file@)),
        ) {
            return Err("source positional file identity disagrees with uploads_json".to_owned());
        }
        i += 1;
    }
    Ok(())
}

fn upload_rows(tenant: &str, link_id: &str, upload: &UploadRecord, rows: &mut Vec<FileRow>)
    ensures
        final(rows).deep_view() == old(rows).deep_view() + record_rows(
            tenant@,
            link_id@,
            upload@,
        ),
{
    let ghost before = rows.deep_view();
    let ghost more = record_rows(tenant@, link_id@, upload@);
    let mut i: usize = 0;
    assert(before + more.take(0) =~= before);
    while i < upload.files.len()
        invariant
            i <= upload.files.len(),
            more == record_rows(tenant@, link_id@, upload@),
            rows.deep_view() == before + more.take(i as int),
        decreases upload.files.len() - i,
    {
        append_row(rows, record_at(tenant, link_id, upload.id.as_str(), i, &upload.files[i]));
        assert(rows.deep_view() =~= before + more.take(i + 1));
        i += 1;
    }
    assert(more.take(i as int) =~= more);
}

fn take_link(
    files: &Vec<SourceFile>,
    link: &SourceLink,
    rows: &mut Vec<FileRow>,
    headers: &mut Vec<UploadRow>,
) -> (r: Result<(), String>)
    ensures
        ({
            let n = link@.uploads.len() as int;
            match source_uploads_checked(files.deep_view(), link@, n) {
                Ok(_) => r is Ok && final(rows).deep_view() == old(rows).deep_view()
                    + link_files(link@, n) && final(headers).deep_view()
                    == old(headers).deep_view() + link_headers(link@, n),
                Err(e) => r matches Err(error) && error@ == e,
            }
        }),
{
    let ghost had_rows = rows.deep_view();
    let ghost had_headers = headers.deep_view();
    let ghost uploads = link@.uploads;
    let mut k: usize = 0;
    proof {
        assert(had_rows + link_files(link@, 0) =~= had_rows);
        assert(had_headers + link_headers(link@, 0) =~= had_headers);
    }
    while k < link.uploads.len()
        invariant
            k <= link.uploads.len(),
            uploads == link@.uploads,
            source_uploads_checked(files.deep_view(), link@, k as int) == Ok::<(), Seq<char>>(
                (),
            ),
            rows.deep_view() == had_rows + link_files(link@, k as int),
            headers.deep_view() == had_headers + link_headers(link@, k as int),
        decreases link.uploads.len() - k,
    {
        let checked = check_source_upload(files, link, k);
        assert(uploads[k as int] == link.uploads@[k as int]@);
        if let Err(error) = checked {
            proof {
                lemma_source_refused(
                    files.deep_view(),
                    link@,
                    k + 1,
                    link@.uploads.len() as int,
                );
            }
            return Err(error);
        }
        let upload = &link.uploads[k];
        upload_rows(link.tenant.as_str(), link.id.as_str(), upload, rows);
        append_row(headers, header_of(link.tenant.as_str(), link.id.as_str(), upload));
        proof {
            assert(rows.deep_view() =~= had_rows + link_files(link@, k + 1));
            assert(headers.deep_view() =~= had_headers + link_headers(link@, k + 1));
        }
        k += 1;
    }
    Ok(())
}

impl Store {
    /// Takes over the uploads of a converted copy: `links` in their order, and
    /// `files` as they stood by position.
    pub fn normalize_uploads(&mut self, links: &Vec<SourceLink>, files: &Vec<SourceFile>) -> (r: Result<
        (),
        String,
    >)
        ensures
            follows(
                uploads_normalized(old(self)@, files.deep_view(), links.deep_view()),
                old(self)@,
                final(self)@,
                r,
            ),
    {
        let ghost all = links.deep_view();
        let ghost source = files.deep_view();
        let mut rows: Vec<FileRow> = Vec::new();
        let mut headers: Vec<UploadRow> = Vec::new();
        let mut i: usize = 0;
        proof {
            assert(all.take(0) =~= Seq::<SourceLinkView>::empty());
            assert(rows.deep_view() =~= Seq::<FileRowView>::empty());
            assert(headers.deep_view() =~= Seq::<UploadRowView>::empty());
        }
        while i < links.len()
            invariant
                i <= links.len(),
                all == links.deep_view(),
                source == files.deep_view(),
                self@ == old(self)@,
                taken_over(source, all.take(i as int)) == Ok::<
                    (Seq<FileRowView>, Seq<UploadRowView>),
                    Seq<char>,
                >((rows.deep_view(), headers.deep_view())),
            decreases links.len() - i,
        {
            let link = &links[i];
            proof {
                assert(all.take(i + 1).drop_last() =~= all.take(i as int));
                assert(all.take(i + 1).last() == link@);
            }
            if let Some(error) = &link.refusal {
                proof {
                    lemma_taken_refused(source, all, i + 1);
                }
                return Err(error.clone());
            }
            if let Err(error) = take_link(files, link, &mut rows, &mut headers) {
                proof {
                    lemma_taken_refused(source, all, i + 1);
                }
                return Err(error);
            }
            i += 1;
        }
        assert(all.take(i as int) =~= all);
        assert(rows.deep_view().len() == rows.len());
        assert(files.deep_view().len() == files.len());
        if files.len() != rows.len() {
            return Err("source file projection contains orphan rows".to_owned());
        }
        self.files = rows;
        self.uploads = headers;
        Ok(())
    }
}

// -------------------------------------------------------------------- events
/// By tenant and number.
pub open spec fn chain_order() -> spec_fn(EventRowView, EventRowView) -> bool {
    |a: EventRowView, b: EventRowView|
        text_lt(a.tenant, b.tenant) || (a.tenant == b.tenant && a.id < b.id)
}

/// Whether events are the chains of their tenants, all signed by an issuer;
/// `tenant` and `hash` are those of the event before them.
pub open spec fn chains_checked(
    rows: Seq<EventRowView>,
    issuer: Seq<char>,
    tenant: Seq<char>,
    hash: Seq<char>,
) -> Result<(), Seq<char>>
    decreases rows.len(),
{
    if rows.len() == 0 {
        Ok(())
    } else {
        match event_of(rows[0]) {
            Err(e) => Err(e),
            Ok(event) => {
                let before = if event.tenant == tenant {
                    hash
                } else {
                    Seq::empty()
                };
                if event.id == 0 || event.issuer != issuer || event.previous_hash != before
                    || !event_verifies(event) {
                    Err("delivery event chain or signing identity is invalid"@)
                } else {
                    chains_checked(rows.skip(1), issuer, event.tenant, event.hash)
                }
            },
        }
    }
}

fn check_link(row: &EventRow, issuer: &str, tenant: &str, hash: &str) -> (r: Result<
    DeliveryEvent,
    String,
>)
    ensures
        match r {
            Ok(event) => event_of(row@) == Ok::<DeliveryEventView, Seq<char>>(event@)
                && event@.id != 0 && event@.issuer == issuer@ && event@.previous_hash == (if event@.tenant
                == tenant@ {
                hash@
            } else {
                Seq::empty()
            }) && event_verifies(event@),
            Err(e) => match event_of(row@) {
                Err(x) => e@ == x,
                Ok(event) => e@ == "delivery event chain or signing identity is invalid"@ && !(event.id
                    != 0 && event.issuer == issuer@ && event.previous_hash == (if event.tenant
                    == tenant@ {
                    hash@
                } else {
                    Seq::empty()
                }) && event_verifies(event)),
            },
        },
{
    match event_row(row) {
        Err(error) => Err(error),
        Ok(event) => {
            let before = if same(event.tenant.as_str(), tenant) {
                hash
            } else {
                proof {
                    reveal_strlit("");
                    assert(""@ =~= Seq::empty());
                }
                ""
            };
            if event.id == 0 || !same(event.issuer.as_str(), issuer) || !same(
                event.previous_hash.as_str(),
                before,
            ) || !event.verify() {
                return Err("delivery event chain or signing identity is invalid".to_owned());
            }
            Ok(event)
        },
    }
}

/// Whether events are the chains of their tenants, all signed by an issuer.
pub fn verify_events(events: &Vec<EventRow>, issuer: &str) -> (r: Result<(), String>)
    ensures
                outcome(r) == crate::convert::events_checked(events.deep_view(), issuer@),
{
    let before = |a: &EventRow, b: &EventRow| -> (r: bool)
        ensures
            r == chain_order()(a@, b@),
    {
        lt(a.tenant.as_str(), b.tenant.as_str()) || (same(a.tenant.as_str(), b.tenant.as_str())
            && a.id < b.id)
    };
    let rows = sort_rows(dup_rows(events), before, Ghost(chain_order()));
    let ghost all = rows.deep_view();
    let mut tenant = "".to_owned();
    let mut hash = "".to_owned();
    let mut i: usize = 0;
    proof {
        reveal_strlit("");
        assert(""@ =~= Seq::empty());
        assert(all.skip(0) =~= all);
    }
    while i < rows.len()
        invariant
            i <= rows.len(),
            all == rows.deep_view(),
            chains_checked(
                sorted_by(events.deep_view(), chain_order()),
                issuer@,
                Seq::empty(),
                Seq::empty(),
            ) == chains_checked(all.skip(i as int), issuer@, tenant@, hash@),
        decreases rows.len() - i,
    {
        assert(all.skip(i as int)[0] == rows@[i as int].deep_view());
        assert(all.skip(i as int).skip(1) =~= all.skip(i + 1));
        match check_link(&rows[i], issuer, tenant.as_str(), hash.as_str()) {
            Err(error) => {
                return Err(error);
            },
            Ok(event) => {
                tenant = event.tenant;
                hash = event.hash;
            },
        }
        i += 1;
    }
    Ok(())
}

// ---------------------------------------------------------------------- jobs
/// Whether a job's document says what its row says.
pub open spec fn job_agrees(j: SourceJobView) -> bool {
    &&& j.document.id == j.id
    &&& j.document.tenant == j.tenant
    &&& j.document.actor == j.actor
    &&& j.document.operation_id == j.operation_id
    &&& j.document.project_id == j.project_id
    &&& j.document.state == j.state
}

/// Another grant under a digest.
pub open spec fn other_with(id: Seq<char>, hash: Seq<char>) -> spec_fn(GrantRowView) -> bool {
    |g: GrantRowView| g.id != id && g.token_hash == hash
}

/// A grant under another digest.
pub open spec fn looked_up_by(hash: Seq<char>) -> spec_fn(GrantRowView) -> GrantRowView {
    |g: GrantRowView| GrantRowView { token_hash: hash, ..g }
}

/// A capability of a grant that was not used up.
pub open spec fn pending_ticket(id: Seq<char>) -> spec_fn(TicketRowView) -> bool {
    |t: TicketRowView| t.grant_id == id && t.delivered_at is None
}

/// Every other capability.
pub open spec fn other_ticket(id: Seq<char>) -> spec_fn(TicketRowView) -> bool {
    |t: TicketRowView| !(t.grant_id == id && t.delivered_at is None)
}

/// A job under a token.
pub open spec fn tokened(token: Seq<char>) -> spec_fn(JobRowView) -> JobRowView {
    |j: JobRowView| JobRowView { token: Some(token), ..j }
}

/// What the chain says of a rotated link.
pub open spec fn rotation_payload(generation: u64) -> Seq<char> {
    json_object(
        seq![
            ("generation"@, decimal(generation as nat)),
            ("reason"@, json_string("offline_schema35_conversion"@)),
        ],
    )
}

/// Whether a job's link is rotated, or what is wrong with it.
pub open spec fn rotation_checked(s: StoreView, j: SourceJobView) -> Result<bool, Seq<char>> {
    match j.refusal {
        Some(e) => Err(e),
        None => if !job_agrees(j) {
            Err("workflow document disagrees with indexed authority"@)
        } else {
            match first(s.grants, grant_is(j.id)) {
                None => Ok(false),
                Some(g) => if g.tenant != j.tenant || g.token_hash != j.signed_hash {
                    Err("workflow grant does not match the source signing key and generation"@)
                } else if j.document.token_generation == u64::MAX {
                    Err("workflow token generation overflow"@)
                } else if any(s.grants, other_with(j.id, j.token_hash)) {
                    Err("UNIQUE constraint failed: outbound_grants.token_hash"@)
                } else {
                    Ok(true)
                },
            }
        },
    }
}

/// The store with a job's delivery under its new token.
pub open spec fn relinked(s: StoreView, j: SourceJobView) -> StoreView {
    StoreView {
        grants: updated(s.grants, grant_is(j.id), looked_up_by(j.token_hash)),
        tickets: s.tickets.filter(other_ticket(j.id)),
        ..s
    }
}

/// The next generation of a job's link.
pub open spec fn next_link(j: SourceJobView) -> u64 {
    (j.document.token_generation + 1) as u64
}

/// What the chain says of a job's rotated link.
pub open spec fn rotation_event(s: StoreView, j: SourceJobView, issuer: Seq<char>, now: u64) -> Result<
    DeliveryEventView,
    Seq<char>,
> {
    drafted(
        relinked(s, j),
        issuer,
        j.tenant,
        j.id,
        "delivery_link_rotated"@,
        rotation_payload(next_link(j)),
        now,
    )
}

/// The store with a job under its new token.
pub open spec fn with_token(s: StoreView, j: SourceJobView) -> StoreView {
    StoreView { jobs: updated(s.jobs, job_is(j.id), tokened(j.token)), ..s }
}

/// The store after a job was converted, and the generation of its rotated link;
/// `signature` is the one of the event that the rotation gives.
pub open spec fn job_converted(
    s: StoreView,
    j: SourceJobView,
    issuer: Seq<char>,
    now: u64,
    signature: Seq<char>,
) -> Result<(StoreView, Option<u64>), Seq<char>> {
    match rotation_checked(s, j) {
        Err(e) => Err(e),
        Ok(false) => Ok((with_token(s, j), None)),
        Ok(true) => match rotation_event(s, j, issuer, now) {
            Err(e) => Err(e),
            Ok(event) => Ok(
                (
                    with_token(chained(relinked(s, j), event, signature), j),
                    Some(next_link(j)),
                ),
            ),
        },
    }
}

/// The document that converting a job has signed, if its link is rotated.
pub open spec fn rotation_document(s: StoreView, j: SourceJobView, issuer: Seq<char>, now: u64) -> Option<
    Seq<char>,
> {
    if rotation_checked(s, j) == Ok::<bool, Seq<char>>(true) && rotation_event(
        s,
        j,
        issuer,
        now,
    ) is Ok {
        Some(document_of(rotation_event(s, j, issuer, now)->Ok_0))
    } else {
        None
    }
}

/// The store after jobs were converted one by one, and what became of each;
/// `signatures` are those of the events that rotations give.
pub open spec fn jobs_converted(
    s: StoreView,
    jobs: Seq<SourceJobView>,
    issuer: Seq<char>,
    now: u64,
    signatures: Seq<Seq<char>>,
) -> Result<(StoreView, Seq<RotationView>), Seq<char>>
    decreases jobs.len(),
{
    if jobs.len() == 0 {
        Ok((s, Seq::empty()))
    } else {
        match jobs_converted(s, jobs.drop_last(), issuer, now, signatures) {
            Err(e) => Err(e),
            Ok((before, done)) => {
                let j = jobs.last();
                match job_converted(before, j, issuer, now, signatures[jobs.len() - 1]) {
                    Err(e) => Err(e),
                    Ok((after, generation)) => Ok(
                        (
                            after,
                            done.push(RotationView { job_id: j.id, token: j.token, generation }),
                        ),
                    ),
                }
            },
        }
    }
}

/// Whether `sign` gave the signature of the event that converting the `k`-th job
/// gives, if it gives one.
pub open spec fn signed_at<F: Fn(&str) -> String>(
    s: StoreView,
    jobs: Seq<SourceJobView>,
    issuer: Seq<char>,
    now: u64,
    signatures: Seq<Seq<char>>,
    k: int,
    sign: F,
) -> bool {
    match jobs_converted(s, jobs.take(k), issuer, now, signatures) {
        Err(_) => true,
        Ok((before, _)) => match rotation_document(before, jobs[k], issuer, now) {
            Some(document) => signs(sign, document, signatures[k]),
            None => true,
        },
    }
}

proof fn lemma_signatures(
    s: StoreView,
    jobs: Seq<SourceJobView>,
    issuer: Seq<char>,
    now: u64,
    a: Seq<Seq<char>>,
    b: Seq<Seq<char>>,
)
    requires
        forall|k: int| 0 <= k < jobs.len() ==> #[trigger] a[k] == b[k],
    ensures
        jobs_converted(s, jobs, issuer, now, a) == jobs_converted(s, jobs, issuer, now, b),
    decreases jobs.len(),
{
    if jobs.len() > 0 {
        lemma_signatures(s, jobs.drop_last(), issuer, now, a, b);
        assert(a[jobs.len() - 1] == b[jobs.len() - 1]);
    }
}

proof fn lemma_conversion_refused(
    s: StoreView,
    jobs: Seq<SourceJobView>,
    issuer: Seq<char>,
    now: u64,
    signatures: Seq<Seq<char>>,
    n: int,
    m: int,
)
    requires
        0 <= n <= m <= jobs.len(),
        jobs_converted(s, jobs.take(n), issuer, now, signatures) is Err,
    ensures
        jobs_converted(s, jobs.take(m), issuer, now, signatures) == jobs_converted(
            s,
            jobs.take(n),
            issuer,
            now,
            signatures,
        ),
    decreases m - n,
{
    if n < m {
        assert(jobs.take(m).drop_last() =~= jobs.take(m - 1));
        lemma_conversion_refused(s, jobs, issuer, now, signatures, n, m - 1);
    }
}

impl Store {
    fn check_rotation(&self, j: &SourceJob) -> (r: Result<bool, String>)
        ensures
            outcome(r) == rotation_checked(self@, j@),
    {
        if let Some(error) = &j.refusal {
            return Err(error.clone());
        }
        let d = &j.document;
        if !same(d.id.as_str(), j.id.as_str()) || !same(d.tenant.as_str(), j.tenant.as_str())
            || !same(d.actor.as_str(), j.actor.as_str()) || !same(
            d.operation_id.as_str(),
            j.operation_id.as_str(),
        ) || !same(d.project_id.as_str(), j.project_id.as_str()) || !same(
            d.state.as_str(),
            j.state.as_str(),
        ) {
            return Err("workflow document disagrees with indexed authority".to_owned());
        }
        let id = j.id.as_str();
        let hash = j.token_hash.as_str();
        let own = |g: &GrantRow| -> (b: bool)
            ensures
                b == grant_is(id@)(g@),
        {
            same(g.id.as_str(), id)
        };
        let found: usize = match find(&self.grants, own, Ghost(grant_is(id@))) {
            Some(found) => found,
            None => return Ok(false),
        };
        if !same(self.grants[found].tenant.as_str(), j.tenant.as_str()) || !same(
            self.grants[found].token_hash.as_str(),
            j.signed_hash.as_str(),
        ) {
            return Err(
                "workflow grant does not match the source signing key and generation".to_owned(),
            );
        }
        if d.token_generation == u64::MAX {
            return Err("workflow token generation overflow".to_owned());
        }
        let other = |g: &GrantRow| -> (b: bool)
            ensures
                b == other_with(id@, hash@)(g@),
        {
            !same(g.id.as_str(), id) && same(g.token_hash.as_str(), hash)
        };
        if exists_where(&self.grants, other, Ghost(other_with(id@, hash@))) {
            return Err("UNIQUE constraint failed: outbound_grants.token_hash".to_owned());
        }
        Ok(true)
    }

    fn relink(&mut self, j: &SourceJob)
        ensures
            final(self)@ == relinked(old(self)@, j@),
    {
        let id = j.id.as_str();
        let hash = j.token_hash.as_str();
        let own = |g: &GrantRow| -> (b: bool)
            ensures
                b == grant_is(id@)(g@),
        {
            same(g.id.as_str(), id)
        };
        let change = |g: &GrantRow| -> (r: GrantRow)
            ensures
                r@ == looked_up_by(hash@)(g@),
        {
            let mut g = g.dup();
            g.token_hash = hash.to_owned();
            g
        };
        let pending = |t: &TicketRow| -> (b: bool)
            ensures
                b == pending_ticket(id@)(t@),
        {
            same(t.grant_id.as_str(), id) && t.delivered_at.is_none()
        };
        update_where(
            &mut self.grants,
            own,
            change,
            Ghost(grant_is(id@)),
            Ghost(looked_up_by(hash@)),
        );
        delete_where(
            &mut self.tickets,
            pending,
            Ghost(pending_ticket(id@)),
            Ghost(other_ticket(id@)),
        );
    }

    fn set_job_token(&mut self, j: &SourceJob)
        ensures
            final(self)@ == with_token(old(self)@, j@),
    {
        let id = j.id.as_str();
        let token = j.token.as_str();
        let own = |r: &JobRow| -> (b: bool)
            ensures
                b == job_is(id@)(r@),
        {
            same(r.id.as_str(), id)
        };
        let change = |r: &JobRow| -> (o: JobRow)
            ensures
                o@ == tokened(token@)(r@),
        {
            let mut r = r.dup();
            r.token = Some(token.to_owned());
            r
        };
        update_where(&mut self.jobs, own, change, Ghost(job_is(id@)), Ghost(tokened(token@)));
    }

    /// Converts a job: a link that the signing key gave is rotated to the job's
    /// new token, which the chain tells of, signed by `sign` for `issuer`.
    pub fn convert_job<F: Fn(&str) -> String>(
        &mut self,
        j: &SourceJob,
        issuer: &str,
        now: u64,
        sign: &F,
    ) -> (r: Result<Option<u64>, String>)
        requires
            forall|d: &str| sign.requires((d,)),
        ensures
            match rotation_document(old(self)@, j@, issuer@, now) {
                Some(document) => exists|signature: Seq<char>|
                    (#[trigger] signs(*sign, document, signature)) && follows(
                        job_converted(old(self)@, j@, issuer@, now, signature),
                        old(self)@,
                        final(self)@,
                        r,
                    ),
                None => follows(
                    job_converted(old(self)@, j@, issuer@, now, Seq::empty()),
                    old(self)@,
                    final(self)@,
                    r,
                ),
            },
    {
        let rotated = match self.check_rotation(j) {
            Ok(rotated) => rotated,
            Err(error) => return Err(error),
        };
        if !rotated {
            self.set_job_token(j);
            return Ok(None);
        }
        let generation: u64 = j.document.token_generation + 1;
        let mut members: Vec<(String, String)> = Vec::new();
        members.push(member("generation", u64_text(generation)));
        members.push(member("reason", quoted("offline_schema35_conversion")));
        assert(members.deep_view() =~= seq![
            ("generation"@, decimal(generation as nat)),
            ("reason"@, json_string("offline_schema35_conversion"@)),
        ]);
        let payload = object(&members);
        match self.draft_delivery_event(
            issuer,
            j.tenant.as_str(),
            j.id.as_str(),
            "delivery_link_rotated",
            payload.as_str(),
            now,
        ) {
            Err(error) => {
                Err(error)
            },
            Ok(draft) => {
                let document = draft.document();
                let text = document.as_str();
                let signature = sign(text);
                assert(sign.ensures((text,), signature));
                self.relink(j);
                self.append_delivery_event(&draft, signature.as_str());
                self.set_job_token(j);
                proof {
                    let document = rotation_document(old(self)@, j@, issuer@, now)->0;
                    assert(signs(*sign, document, signature@));
                }
                Ok(Some(generation))
            },
        }
    }

    /// Converts jobs one by one, and says what became of each; nothing is changed
    /// if one is refused.
    pub fn convert_jobs<F: Fn(&str) -> String>(
        &mut self,
        jobs: &Vec<SourceJob>,
        issuer: &str,
        now: u64,
        sign: &F,
    ) -> (r: Result<Vec<Rotation>, String>)
        requires
            forall|d: &str| sign.requires((d,)),
        ensures
            exists|signatures: Seq<Seq<char>>|
                follows(
                    #[trigger] jobs_converted(
                        old(self)@,
                        jobs.deep_view(),
                        issuer@,
                        now,
                        signatures,
                    ),
                    old(self)@,
                    final(self)@,
                    r,
                ) && forall|k: int|
                    0 <= k < jobs.len() ==> #[trigger] signed_at(
                        old(self)@,
                        jobs.deep_view(),
                        issuer@,
                        now,
                        signatures,
                        k,
                        *sign,
                    ),
    {
        let ghost s = self@;
        let ghost all = jobs.deep_view();
        let mut next = self.dup();
        let mut done: Vec<Rotation> = Vec::new();
        let mut i: usize = 0;
        let ghost mut signatures: Seq<Seq<char>> = Seq::empty();
        proof {
            assert(all.take(0) =~= Seq::<SourceJobView>::empty());
            assert(done.deep_view() =~= Seq::<RotationView>::empty());
        }
        while i < jobs.len()
            invariant
                i <= jobs.len(),
                all == jobs.deep_view(),
                s == old(self)@,
                self@ == old(self)@,
                signatures.len() == i,
                forall|d: &str| sign.requires((d,)),
                jobs_converted(s, all.take(i as int), issuer@, now, signatures) == Ok::<
                    (StoreView, Seq<RotationView>),
                    Seq<char>,
                >((next@, done.deep_view())),
                forall|k: int|
                    0 <= k < i ==> #[trigger] signed_at(
                        s,
                        all,
                        issuer@,
                        now,
                        signatures,
                        k,
                        *sign,
                    ),
            decreases jobs.len() - i,
        {
            let ghost before = next@;
            let j = &jobs[i];
            let result = next.convert_job(j, issuer, now, sign);
            let ghost had = signatures;
            proof {
                let signature = match rotation_document(before, j@, issuer@, now) {
                    Some(document) => choose|signature: Seq<char>|
                        (#[trigger] signs(*sign, document, signature)) && follows(
                            job_converted(before, j@, issuer@, now, signature),
                            before,
                            next@,
                            result,
                        ),
                    None => Seq::empty(),
                };
                signatures = had.push(signature);
                assert(all.take(i + 1).drop_last() =~= all.take(i as int));
                assert(all.take(i + 1).last() == j@);
                lemma_signatures(s, all.take(i as int), issuer@, now, had, signatures);
                assert forall|k: int| 0 <= k < i + 1 implies #[trigger] signed_at(
                    s,
                    all,
                    issuer@,
                    now,
                    signatures,
                    k,
                    *sign,
                ) by {
                    if k < i {
                        assert(signed_at(s, all, issuer@, now, had, k, *sign));
                        lemma_signatures(s, all.take(k), issuer@, now, had, signatures);
                        assert(signatures[k] == had[k]);
                    }
                }
            }
            match result {
                Ok(generation) => {
                    let ghost so_far = done.deep_view();
                    done.push(
                        Rotation { job_id: j.id.clone(), token: j.token.clone(), generation },
                    );
                    assert(done.deep_view() =~= so_far.push(
                        RotationView { job_id: j@.id, token: j@.token, generation },
                    ));
                },
                Err(error) => {
                    proof {
                        assert(jobs_converted(s, all.take(i + 1), issuer@, now, signatures) is Err);
                        lemma_conversion_refused(
                            s,
                            all,
                            issuer@,
                            now,
                            signatures,
                            i + 1,
                            all.len() as int,
                        );
                        assert(all.take(all.len() as int) =~= all);
                        assert forall|k: int| 0 <= k < jobs.len() implies #[trigger] signed_at(
                            s,
                            all,
                            issuer@,
                            now,
                            signatures,
                            k,
                            *sign,
                        ) by {
                            if k > i {
                                lemma_conversion_refused(
                                    s,
                                    all,
                                    issuer@,
                                    now,
                                    signatures,
                                    i + 1,
                                    k,
                                );
                            }
                        }
                    }
                    return Err(error);
                },
            }
            i += 1;
        }
        assert(all.take(i as int) =~= all);
        *self = next;
        Ok(done)
    }
}

/// How many links were rotated.
pub fn count_rotated(done: &Vec<Rotation>) -> (n: u64)
    ensures
        n == count(done.deep_view(), |r: RotationView| r.generation is Some),
{
    let rotated = |r: &Rotation| -> (b: bool)
        ensures
            b == (|r: RotationView| r.generation is Some)(r@),
    {
        r.generation.is_some()
    };
    count_where(done, rotated, Ghost(|r: RotationView| r.generation is Some)) as u64
}

/// A job's document after its conversion at time `now`: printed anew, and under the
/// generation of its rotated link, if it has one.
pub open spec fn document_after(document: Seq<char>, generation: Option<u64>, now: u64) -> Result<
    Seq<char>,
    Seq<char>,
> {
    match generation {
        None => parsed_json(document),
        Some(generation) => match object_with(document, "token_generation"@, generation) {
            None => Err("workflow document must be an object"@),
            Some(text) => match object_with(text, "updated_at"@, now) {
                None => Err("workflow document must be an object"@),
                Some(text) => Ok(text),
            },
        },
    }
}

/// A job's document after its conversion at time `now`.
pub fn converted_document(document: &str, generation: Option<u64>, now: u64) -> (r: Result<
    String,
    String,
>)
    ensures
        outcome(r) == document_after(document@, generation, now),
{
    match generation {
        None => parse_json(document),
        Some(generation) => match with_member(document, "token_generation", generation) {
            None => Err("workflow document must be an object".to_owned()),
            Some(text) => match with_member(text.as_str(), "updated_at", now) {
                None => Err("workflow document must be an object".to_owned()),
                Some(text) => Ok(text),
            },
        },
    }
}

} // verus!
