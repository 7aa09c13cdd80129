//! The conversion of a copy: which uploads are taken over, when the chains of events hold, what
//! becomes of jobs and their links, and what the artifact and the command line say.
use vstd::prelude::*;
use vstd::utf8::encode_utf8;

use crate::artifact::{
    committed_text, current, finished, lines_checked, link_works, prefix_hash, record_checked,
    replacement_line, replacement_lines, replacement_members,
};
use crate::columns::{high, low};
use crate::conversion::{
    begun, bounded, comma_joined, command_line, copy_checked, fields_checked, leftovers_checked,
    options, records_checked, selected, soundness, under, uploads_checked,
};
use crate::convert::{born_as, events_checked, every_tenant, reborn};
use crate::decimal::decimal;
use crate::downloads::grant_is;
use crate::evidence::{chained, event_of, event_verifies};
use crate::lifecycle::job_is;
use crate::json::json_string;
use crate::links::tenant_is;
use crate::records::{
    ArtifactRecordView, ConversionView, CurrentJobView, FileRecordView, ReplacementView,
    SourceFileView, SourceJobView, SourceLinkView,
};
use crate::rows::{
    EventRowView, FileRowView, GrantRowView, JobRowView, TenantRowView, TicketRowView,
    UploadRowView,
};
use crate::selection::{lemma_changed, lemma_counted, lemma_found, lemma_ordered, lemma_selected};
use crate::store::StoreView;
use crate::table::{any, first, sorted_by};
use crate::upgrade::{
    chain_order, chains_checked, job_converted, jobs_converted, link_files, link_headers,
    looked_up_by, other_ticket, other_with, positioned, relinked, rotation_checked,
    rotation_document, rotation_event, source_upload_checked, source_uploads_checked, stood_as,
    taken_over, tokened, uploads_normalized,
};
use crate::uploads::{header_row, record_row, record_rows};

verus! {

// --------------------------------------------------------------------- uploads
/// Whether a file stood at a place of its link as its record tells.
pub open spec fn stood(
    f: SourceFileView,
    link: SourceLinkView,
    upload: int,
    index: int,
    record: FileRecordView,
) -> bool {
    &&& f.link_id == link.id && f.tenant == link.tenant && f.upload_index == upload && f.file_index
        == index
    &&& f.stored_as == record.stored_as && f.deleted == record.deleted
    &&& f.bytes_hi == high(record.bytes) && f.bytes_lo == low(record.bytes)
}

/// Whether a file is there that stood at a place of a link.
pub open spec fn some_stood(
    files: Seq<SourceFileView>,
    link: SourceLinkView,
    upload: int,
    index: int,
    record: FileRecordView,
) -> bool {
    exists|f: SourceFileView| #[trigger]
        files.contains(f) && stood(f, link, upload, index, record)
}

/// Whether an upload of a link can be taken over: it has an id of its own, as many files stood
/// at its place as it has, and each of them stood as it is told.
pub open spec fn upload_stands(files: Seq<SourceFileView>, link: SourceLinkView, k: int) -> bool {
    let upload = link.uploads[k];
    &&& upload.id.len() > 0
    &&& forall|j: int| 0 <= j < k ==> (#[trigger] link.uploads[j]).id != upload.id
    &&& files.filter(
        |f: SourceFileView| f.link_id == link.id && f.upload_index == k,
    ).len() == upload.files.len()
    &&& forall|i: int|
        0 <= i < upload.files.len() ==> some_stood(files, link, k, i, #[trigger] upload.files[i])
}

/// How many files the uploads of links have.
pub open spec fn files_in(links: Seq<SourceLinkView>) -> nat
    decreases links.len(),
{
    if links.len() == 0 {
        0
    } else {
        files_in(links.drop_last()) + link_files(links.last(), links.last().uploads.len() as int).len()
    }
}

proof fn lemma_upload_stands(files: Seq<SourceFileView>, link: SourceLinkView, k: int)
    ensures
        source_upload_checked(files, link, k) is Ok <==> upload_stands(files, link, k),
{
    let upload = link.uploads[k];
    let raw = |f: SourceFileView| f.link_id == link.id && f.upload_index == k;
    lemma_counted(files, positioned(link.id, k), raw);
    assert forall|i: int| 0 <= i < upload.files.len() implies any(
        files,
        stood_as(link.id, link.tenant, k, i, #[trigger] upload.files[i]),
    ) == some_stood(files, link, k, i, upload.files[i]) by {
        lemma_found(files, stood_as(link.id, link.tenant, k, i, upload.files[i]));
        let p = stood_as(link.id, link.tenant, k, i, upload.files[i]);
        assert forall|f: SourceFileView| #[trigger] files.contains(f) implies (p(f) <==> stood(
            f,
            link,
            k,
            i,
            upload.files[i],
        )) by {}
    }
    if source_upload_checked(files, link, k) is Ok {
        assert forall|i: int| 0 <= i < upload.files.len() implies some_stood(
            files,
            link,
            k,
            i,
            #[trigger] upload.files[i],
        ) by {
            assert(any(files, stood_as(link.id, link.tenant, k, i, upload.files[i])));
        }
    }
    if upload_stands(files, link, k) {
        assert forall|i: int| 0 <= i < upload.files.len() implies any(
            files,
            stood_as(link.id, link.tenant, k, i, #[trigger] upload.files[i]),
        ) by {
            assert(some_stood(files, link, k, i, upload.files[i]));
        }
    }
}

proof fn lemma_uploads_stand(files: Seq<SourceFileView>, link: SourceLinkView, n: int)
    requires
        0 <= n <= link.uploads.len(),
    ensures
        source_uploads_checked(files, link, n) is Ok <==> forall|k: int|
            0 <= k < n ==> #[trigger] upload_stands(files, link, k),
    decreases n,
{
    if n > 0 {
        lemma_uploads_stand(files, link, n - 1);
        lemma_upload_stands(files, link, n - 1);
    }
}

/// Whether all of a link can be taken over.
pub open spec fn link_stands(files: Seq<SourceFileView>, link: SourceLinkView) -> bool {
    link.refusal is None && forall|k: int|
        0 <= k < link.uploads.len() ==> #[trigger] upload_stands(files, link, k)
}

proof fn lemma_taken_over(files: Seq<SourceFileView>, links: Seq<SourceLinkView>)
    ensures
        taken_over(files, links) is Ok <==> forall|i: int|
            0 <= i < links.len() ==> #[trigger] link_stands(files, links[i]),
        taken_over(files, links) matches Ok((rows, _)) ==> rows.len() == files_in(links),
    decreases links.len(),
{
    if links.len() > 0 {
        let head = links.drop_last();
        let n = links.len() - 1;
        lemma_taken_over(files, head);
        lemma_uploads_stand(files, links.last(), links.last().uploads.len() as int);
        assert(links[n] == links.last());
        if forall|i: int| 0 <= i < head.len() ==> #[trigger] link_stands(files, head[i]) {
            assert forall|i: int| 0 <= i < n implies #[trigger] link_stands(files, links[i]) by {
                assert(link_stands(files, head[i]));
            }
        }
        if forall|i: int| 0 <= i < links.len() ==> #[trigger] link_stands(files, links[i]) {
            assert forall|i: int| 0 <= i < head.len() implies #[trigger] link_stands(
                files,
                head[i],
            ) by {
                assert(link_stands(files, links[i]));
            }
            assert(link_stands(files, links[n]));
        }
    }
}

proof fn lemma_link_rows(link: SourceLinkView, n: int, k: int)
    requires
        0 <= k < n <= link.uploads.len(),
    ensures
        link_headers(link, n).len() == n,
        link_headers(link, n)[k] == header_row(link.tenant, link.id, link.uploads[k]),
        forall|i: int|
            0 <= i < link.uploads[k].files.len() ==> link_files(link, n).contains(
                record_row(
                    link.tenant,
                    link.id,
                    link.uploads[k].id,
                    i,
                    #[trigger] link.uploads[k].files[i],
                ),
            ),
    decreases n,
{
    let last = record_rows(link.tenant, link.id, link.uploads[n - 1]);
    let before = link_files(link, n - 1);
    if k < n - 1 {
        lemma_link_rows(link, n - 1, k);
        assert forall|i: int| 0 <= i < link.uploads[k].files.len() implies link_files(
            link,
            n,
        ).contains(
            record_row(
                link.tenant,
                link.id,
                link.uploads[k].id,
                i,
                #[trigger] link.uploads[k].files[i],
            ),
        ) by {
            let row = record_row(
                link.tenant,
                link.id,
                link.uploads[k].id,
                i,
                link.uploads[k].files[i],
            );
            let at = choose|at: int| 0 <= at < before.len() && before[at] == row;
            assert(link_files(link, n)[at] == row);
        }
    } else {
        lemma_header_count(link, n - 1);
        assert forall|i: int| 0 <= i < link.uploads[k].files.len() implies link_files(
            link,
            n,
        ).contains(
            record_row(
                link.tenant,
                link.id,
                link.uploads[k].id,
                i,
                #[trigger] link.uploads[k].files[i],
            ),
        ) by {
            assert(link_files(link, n)[before.len() + i] == last[i]);
        }
    }
}

proof fn lemma_header_count(link: SourceLinkView, n: int)
    requires
        0 <= n,
    ensures
        link_headers(link, n).len() == n,
    decreases n,
{
    if n > 0 {
        lemma_header_count(link, n - 1);
    }
}

proof fn lemma_all_rows(files: Seq<SourceFileView>, links: Seq<SourceLinkView>, l: int, k: int)
    requires
        taken_over(files, links) is Ok,
        0 <= l < links.len(),
        0 <= k < links[l].uploads.len(),
    ensures
        ({
            let (rows, headers) = taken_over(files, links)->Ok_0;
            let link = links[l];
            &&& headers.contains(header_row(link.tenant, link.id, link.uploads[k]))
            &&& forall|i: int|
                0 <= i < link.uploads[k].files.len() ==> rows.contains(
                    record_row(
                        link.tenant,
                        link.id,
                        link.uploads[k].id,
                        i,
                        #[trigger] link.uploads[k].files[i],
                    ),
                )
        }),
    decreases links.len(),
{
    let head = links.drop_last();
    let (before, named) = taken_over(files, head)->Ok_0;
    let last = links.last();
    let n = last.uploads.len() as int;
    let (rows, headers) = taken_over(files, links)->Ok_0;
    let link = links[l];
    let header = header_row(link.tenant, link.id, link.uploads[k]);
    assert(rows == before + link_files(last, n) && headers == named + link_headers(last, n));
    if l < head.len() {
        lemma_all_rows(files, head, l, k);
        assert(head[l] == link);
        let at = choose|at: int| 0 <= at < named.len() && named[at] == header;
        assert(headers[at] == header);
        assert forall|i: int| 0 <= i < link.uploads[k].files.len() implies rows.contains(
            record_row(
                link.tenant,
                link.id,
                link.uploads[k].id,
                i,
                #[trigger] link.uploads[k].files[i],
            ),
        ) by {
            let row = record_row(
                link.tenant,
                link.id,
                link.uploads[k].id,
                i,
                link.uploads[k].files[i],
            );
            assert(before.contains(row));
            let at = choose|at: int| 0 <= at < before.len() && before[at] == row;
            assert(rows[at] == row);
        }
    } else {
        lemma_link_rows(last, n, k);
        assert(headers[named.len() + k] == header);
        assert forall|i: int| 0 <= i < link.uploads[k].files.len() implies rows.contains(
            record_row(
                link.tenant,
                link.id,
                link.uploads[k].id,
                i,
                #[trigger] link.uploads[k].files[i],
            ),
        ) by {
            let row = record_row(
                link.tenant,
                link.id,
                link.uploads[k].id,
                i,
                link.uploads[k].files[i],
            );
            assert(link_files(last, n).contains(row));
            let own = link_files(last, n);
            let at = choose|at: int| 0 <= at < own.len() && own[at] == row;
            assert(rows[before.len() + at] == row);
        }
    }
}

/// The uploads of a copy are taken over exactly if every link can be and no file is left that
/// belongs to none of their uploads.
pub proof fn copies_are_taken_over_whole(
    s: StoreView,
    files: Seq<SourceFileView>,
    links: Seq<SourceLinkView>,
)
    ensures
        uploads_normalized(s, files, links) is Ok <==> (forall|i: int|
            0 <= i < links.len() ==> #[trigger] link_stands(files, links[i])) && files.len()
            == files_in(links),
        uploads_normalized(s, files, links) matches Ok((after, _)) ==> after.files.len()
            == files.len() && after == (StoreView {
            files: after.files,
            uploads: after.uploads,
            ..s
        }),
{
    lemma_taken_over(files, links);
}

/// Every upload of a copy that is taken over is there under its link and tenant, with each of
/// its files at its index.
pub proof fn taken_uploads_are_there(
    s: StoreView,
    files: Seq<SourceFileView>,
    links: Seq<SourceLinkView>,
    l: int,
    k: int,
    i: int,
)
    requires
        uploads_normalized(s, files, links) is Ok,
        0 <= l < links.len(),
        0 <= k < links[l].uploads.len(),
        0 <= i < links[l].uploads[k].files.len(),
        i <= i64::MAX,
    ensures
        ({
            let after = (uploads_normalized(s, files, links)->Ok_0).0;
            let link = links[l];
            let upload = link.uploads[k];
            let record = upload.files[i];
            &&& exists|u: UploadRowView| #[trigger]
                after.uploads.contains(u) && u.link_id == link.id && u.tenant == link.tenant
                    && u.upload_id == upload.id
            &&& exists|f: FileRowView| #[trigger]
                after.files.contains(f) && f.link_id == link.id && f.tenant == link.tenant
                    && f.upload_id == upload.id && f.file_index == i && f.stored_as
                    == record.stored_as && f.path == record.path && f.root == record.root
                    && f.deleted == record.deleted
        }),
{
    lemma_all_rows(files, links, l, k);
    let after = (uploads_normalized(s, files, links)->Ok_0).0;
    let link = links[l];
    let upload = link.uploads[k];
    assert(after.uploads.contains(header_row(link.tenant, link.id, upload)));
    assert(after.files.contains(
        record_row(link.tenant, link.id, upload.id, i, upload.files[i]),
    ));
}

// ---------------------------------------------------------------------- chains
/// Whether an event of a row is a valid one of an issuer that names the hash before it.
pub open spec fn holds_on(row: EventRowView, issuer: Seq<char>, before: Seq<char>) -> bool {
    event_of(row) matches Ok(e) && e.id != 0 && e.issuer == issuer && e.previous_hash == before
        && event_verifies(e)
}

/// The hash that a row has to name: that of the row before it, if that is of the same tenant.
pub open spec fn hash_before(rows: Seq<EventRowView>, i: int) -> Seq<char> {
    if i > 0 && rows[i - 1].tenant == rows[i].tenant {
        rows[i - 1].hash
    } else {
        Seq::empty()
    }
}

proof fn lemma_chains(
    rows: Seq<EventRowView>,
    issuer: Seq<char>,
    tenant: Seq<char>,
    hash: Seq<char>,
)
    ensures
        chains_checked(rows, issuer, tenant, hash) is Ok <==> forall|i: int|
            0 <= i < rows.len() ==> holds_on(
                #[trigger] rows[i],
                issuer,
                if i == 0 {
                    if rows[0].tenant == tenant {
                        hash
                    } else {
                        Seq::empty()
                    }
                } else {
                    hash_before(rows, i)
                },
            ),
    decreases rows.len(),
{
    if rows.len() > 0 {
        let tail = rows.skip(1);
        lemma_chains(tail, issuer, rows[0].tenant, rows[0].hash);
        let first_before = if rows[0].tenant == tenant {
            hash
        } else {
            Seq::empty()
        };
        if chains_checked(rows, issuer, tenant, hash) is Ok {
            assert forall|i: int| 0 <= i < rows.len() implies holds_on(
                #[trigger] rows[i],
                issuer,
                if i == 0 {
                    first_before
                } else {
                    hash_before(rows, i)
                },
            ) by {
                if i > 0 {
                    assert(tail[i - 1] == rows[i]);
                    if i > 1 {
                        assert(tail[i - 2] == rows[i - 1]);
                    }
                }
            }
        }
        if forall|i: int|
            0 <= i < rows.len() ==> holds_on(
                #[trigger] rows[i],
                issuer,
                if i == 0 {
                    first_before
                } else {
                    hash_before(rows, i)
                },
            ) {
            assert(holds_on(rows[0], issuer, first_before));
            assert forall|i: int| 0 <= i < tail.len() implies holds_on(
                #[trigger] tail[i],
                issuer,
                if i == 0 {
                    if tail[0].tenant == rows[0].tenant {
                        rows[0].hash
                    } else {
                        Seq::empty()
                    }
                } else {
                    hash_before(tail, i)
                },
            ) by {
                assert(tail[i] == rows[i + 1]);
                assert(holds_on(rows[i + 1], issuer, hash_before(rows, i + 1)));
                if i > 0 {
                    assert(tail[i - 1] == rows[i]);
                }
            }
        }
    }
}

/// The events of a store hold exactly if every one of them is valid, signed by the issuer, and
/// names the hash of the event before it in its tenant's chain, the first of each chain none.
pub proof fn chains_hold_event_by_event(events: Seq<EventRowView>, issuer: Seq<char>)
    ensures
        ({
            let rows = sorted_by(events, chain_order());
            &&& events_checked(events, issuer) is Ok <==> forall|i: int|
                0 <= i < rows.len() ==> holds_on(#[trigger] rows[i], issuer, hash_before(rows, i))
            &&& rows.len() == events.len()
            &&& forall|e: EventRowView| #[trigger] rows.contains(e) <==> events.contains(e)
        }),
{
    let rows = sorted_by(events, chain_order());
    lemma_ordered(events, chain_order());
    lemma_chains(rows, issuer, Seq::empty(), Seq::empty());
    if events_checked(events, issuer) is Ok {
        assert forall|i: int| 0 <= i < rows.len() implies holds_on(
            #[trigger] rows[i],
            issuer,
            hash_before(rows, i),
        ) by {}
    }
}

// ------------------------------------------------------------------------ jobs
/// Whether a job's document says what its row says, and its delivery is the one that the key
/// signed for.
pub open spec fn document_tells(j: SourceJobView) -> bool {
    let d = j.document;
    d.id == j.id && d.tenant == j.tenant && d.actor == j.actor && d.operation_id == j.operation_id
        && d.project_id == j.project_id && d.state == j.state
}

/// A job is refused if its document could not be read or says otherwise than its row. One
/// without a delivery is not rotated; one with a delivery is, if that is of its tenant and was
/// signed for, a further generation is left and its new digest is free.
pub proof fn rotations_are_checked(s: StoreView, j: SourceJobView, g: GrantRowView)
    ensures
        j.refusal is Some || !document_tells(j) ==> rotation_checked(s, j) is Err,
        j.refusal is None && document_tells(j) && (forall|o: GrantRowView| #[trigger]
            s.grants.contains(o) ==> o.id != j.id) ==> rotation_checked(s, j) == Ok::<
            bool,
            Seq<char>,
        >(false),
        j.refusal is None && document_tells(j) && s.grants.contains(g) && g.id == j.id && (forall|
            o: GrantRowView,
        | #[trigger] s.grants.contains(o) && o.id == j.id ==> o == g) ==> (rotation_checked(s, j)
            == Ok::<bool, Seq<char>>(true) <==> g.tenant == j.tenant && g.token_hash
            == j.signed_hash && j.document.token_generation < u64::MAX && forall|o: GrantRowView|
         #[trigger]
            s.grants.contains(o) && o.id != j.id ==> o.token_hash != j.token_hash)
            && rotation_checked(s, j) != Ok::<bool, Seq<char>>(false),
{
    lemma_found(s.grants, grant_is(j.id));
    lemma_found(s.grants, other_with(j.id, j.token_hash));
}

/// A converted job has its new token. If it has a delivery, that is looked up by the new
/// digest from then on, its capabilities that were not used up are void, and one event tells
/// of the next generation; nothing else changes.
pub proof fn jobs_are_converted(
    s: StoreView,
    j: SourceJobView,
    issuer: Seq<char>,
    now: u64,
    signature: Seq<char>,
)
    ensures
        rotation_checked(s, j) is Err ==> job_converted(s, j, issuer, now, signature) is Err,
        rotation_checked(s, j) == Ok::<bool, Seq<char>>(false) ==> job_converted(
            s,
            j,
            issuer,
            now,
            signature,
        ) is Ok,
        job_converted(s, j, issuer, now, signature) matches Ok((after, generation)) ==> {
            let rotated = exists|g: GrantRowView| #[trigger] s.grants.contains(g) && g.id == j.id;
            &&& generation == if rotated {
                Some((j.document.token_generation + 1) as u64)
            } else {
                None::<u64>
            }
            &&& rotated ==> j.document.token_generation < u64::MAX
            &&& after.grants.len() == s.grants.len() && after.jobs.len() == s.jobs.len()
            &&& forall|i: int|
                0 <= i < s.grants.len() && s.grants[i].id != j.id ==> #[trigger] after.grants[i]
                    == s.grants[i]
            &&& forall|i: int|
                0 <= i < s.grants.len() && s.grants[i].id == j.id ==> #[trigger] after.grants[i]
                    == (GrantRowView { token_hash: j.token_hash, ..s.grants[i] })
            &&& forall|i: int|
                0 <= i < s.jobs.len() && s.jobs[i].id != j.id ==> #[trigger] after.jobs[i]
                    == s.jobs[i]
            &&& forall|i: int|
                0 <= i < s.jobs.len() && s.jobs[i].id == j.id ==> #[trigger] after.jobs[i] == (
                JobRowView { token: Some(j.token), ..s.jobs[i] })
            &&& rotated ==> forall|t: TicketRowView| #[trigger]
                after.tickets.contains(t) <==> s.tickets.contains(t) && !(t.grant_id == j.id
                    && t.delivered_at is None)
            &&& !rotated ==> after.tickets == s.tickets && after.events == s.events
            &&& rotated ==> after.events.len() == s.events.len() + 1 && after.events.drop_last()
                == s.events && after.events.last().tenant == j.tenant
                && after.events.last().grant_id == j.id && after.events.last().kind
                == "delivery_link_rotated"@ && after.events.last().signature == signature
            &&& rotation_document(s, j, issuer, now) is Some <==> rotated
            &&& after == (StoreView {
                grants: after.grants,
                jobs: after.jobs,
                tickets: after.tickets,
                events: after.events,
                event_sequence: after.event_sequence,
                ..s
            })
        },
{
    lemma_found(s.grants, grant_is(j.id));
    lemma_changed(s.grants, grant_is(j.id), looked_up_by(j.token_hash));
    lemma_changed(s.jobs, job_is(j.id), tokened(j.token));
    lemma_selected(s.tickets, other_ticket(j.id));
    if let Ok((after, generation)) = job_converted(s, j, issuer, now, signature) {
        if generation is Some {
            let event = rotation_event(s, j, issuer, now)->Ok_0;
            assert(after.events == chained(relinked(s, j), event, signature).events);
            assert(after.events.drop_last() =~= s.events);
        } else {
            assert forall|i: int| 0 <= i < s.grants.len() implies s.grants[i].id != j.id by {
                assert(s.grants.contains(s.grants[i]));
            }
        }
    }
}

/// Jobs are converted one after the other: what is told is each job under its new token, in
/// their order, and one that is refused refuses them all.
pub proof fn jobs_are_converted_in_order(
    s: StoreView,
    jobs: Seq<SourceJobView>,
    issuer: Seq<char>,
    now: u64,
    signatures: Seq<Seq<char>>,
    k: int,
)
    requires
        0 <= k < jobs.len(),
    ensures
        jobs_converted(s, jobs, issuer, now, signatures) matches Ok((after, done)) ==> {
            &&& done.len() == jobs.len()
            &&& done[k].job_id == jobs[k].id && done[k].token == jobs[k].token
            &&& jobs_converted(s, jobs.take(k), issuer, now, signatures) matches Ok((before, _))
                && (job_converted(
                before,
                jobs[k],
                issuer,
                now,
                signatures[k],
            ) matches Ok((_, generation)) && generation == done[k].generation)
        },
    decreases jobs.len(),
{
    let head = jobs.drop_last();
    lemma_as_many_done(s, jobs, issuer, now, signatures);
    if let Ok((after, done)) = jobs_converted(s, jobs, issuer, now, signatures) {
        if k < head.len() {
            jobs_are_converted_in_order(s, head, issuer, now, signatures, k);
            assert(head.take(k) =~= jobs.take(k));
        } else {
            assert(jobs.take(k) =~= head);
        }
    }
}

proof fn lemma_as_many_done(
    s: StoreView,
    jobs: Seq<SourceJobView>,
    issuer: Seq<char>,
    now: u64,
    signatures: Seq<Seq<char>>,
)
    ensures
        jobs_converted(s, jobs, issuer, now, signatures) matches Ok((after, done)) ==> done.len()
            == jobs.len(),
    decreases jobs.len(),
{
    if jobs.len() > 0 {
        lemma_as_many_done(s, jobs.drop_last(), issuer, now, signatures);
    }
}

/// Whether an incarnation is the last that is given for a key, or none where none is given.
pub open spec fn last_given(
    given: Seq<(Seq<char>, Seq<char>)>,
    key: Seq<char>,
    incarnation: Seq<char>,
) -> bool {
    &&& (forall|i: int| 0 <= i < given.len() ==> (#[trigger] given[i]).0 != key)
        ==> incarnation.len() == 0
    &&& forall|i: int|
        0 <= i < given.len() && (#[trigger] given[i]).0 == key && (forall|j: int|
            i < j < given.len() ==> (#[trigger] given[j]).0 != key) ==> incarnation == given[i].1
}

/// Tenants of a copy get the incarnation that is given for their key, the last if several are;
/// nothing else of them changes.
pub proof fn tenants_get_their_incarnation(
    tenants: Seq<TenantRowView>,
    given: Seq<(Seq<char>, Seq<char>)>,
)
    ensures
        reborn(tenants, given).len() == tenants.len(),
        forall|i: int|
            0 <= i < tenants.len() ==> (#[trigger] reborn(tenants, given)[i]) == (TenantRowView {
                incarnation: reborn(tenants, given)[i].incarnation,
                ..tenants[i]
            }) && last_given(given, tenants[i].key, reborn(tenants, given)[i].incarnation),
    decreases given.len(),
{
    if given.len() == 0 {
        lemma_changed(tenants, every_tenant(), born_as(Seq::empty()));
    } else {
        let head = given.drop_last();
        let n = given.len() - 1;
        tenants_get_their_incarnation(tenants, head);
        let mid = reborn(tenants, head);
        lemma_changed(mid, tenant_is(given.last().0), born_as(given.last().1));
        let after = reborn(tenants, given);
        assert(given[n] == given.last());
        assert forall|i: int| 0 <= i < tenants.len() implies (#[trigger] after[i]) == (
        TenantRowView { incarnation: after[i].incarnation, ..tenants[i] }) && last_given(
            given,
            tenants[i].key,
            after[i].incarnation,
        ) by {
            let key = tenants[i].key;
            assert(mid[i].key == key);
            assert(last_given(head, key, mid[i].incarnation));
            if key == given.last().0 {
                assert forall|k: int|
                    0 <= k < given.len() && (#[trigger] given[k]).0 == key && (forall|j: int|
                        k < j < given.len() ==> (#[trigger] given[j]).0 != key) implies after[i].incarnation
                    == given[k].1 by {
                    if k < n {
                        assert(given[n].0 != key);
                    }
                }
            } else {
                assert(after[i] == mid[i]);
                if forall|k: int| 0 <= k < given.len() ==> (#[trigger] given[k]).0 != key {
                    assert forall|k: int| 0 <= k < head.len() implies (#[trigger] head[k]).0
                        != key by {
                        assert(given[k].0 != key);
                    }
                }
                assert forall|k: int|
                    0 <= k < given.len() && (#[trigger] given[k]).0 == key && (forall|j: int|
                        k < j < given.len() ==> (#[trigger] given[j]).0 != key) implies after[i].incarnation
                    == given[k].1 by {
                    assert(k < n);
                    assert(head[k] == given[k]);
                    assert forall|j: int| k < j < head.len() implies (#[trigger] head[j]).0
                        != key by {
                        assert(given[j].0 != key);
                    }
                }
            }
        }
    }
}

// -------------------------------------------------------------------- artifact
/// A line is written for a rotated link exactly if its token is the grant's; it tells the link
/// only while the link is released, not revoked and not expired.
pub proof fn replacements_tell_working_links(r: ReplacementView, public_url: Seq<char>, now: u64)
    requires
        now <= i64::MAX,
    ensures
        replacement_line(r, public_url, now) is Ok <==> r.refusal is None && r.token_digest
            == r.grant_hash,
        link_works(r, now) <==> r.released && r.revoked_at is None && now < r.expires_at,
        ({
            let m = replacement_members(r, public_url, now);
            &&& m[0] == ("generation"@, decimal(r.document.token_generation as nat))
            &&& m[1] == ("job_id"@, json_string(r.document.id))
            &&& m[4] == ("tenant"@, json_string(r.document.tenant))
            &&& m[5] == ("token_hash"@, json_string(r.grant_hash))
            &&& m[6].0 == "url"@
            &&& r.released && r.revoked_at is None && now < r.expires_at ==> m[6].1 == json_string(
                public_url + "/s/"@ + r.token,
            )
            &&& !r.released || r.revoked_at is Some || r.expires_at <= now ==> m[6].1 == "null"@
        }),
{
}

/// The lines for two lists of links are those for the one and then those for the other, and
/// one link without a line leaves none.
pub proof fn replacements_are_written_in_order(
    a: Seq<ReplacementView>,
    b: Seq<ReplacementView>,
    public_url: Seq<char>,
    now: u64,
)
    ensures
        match (replacement_lines(a, public_url, now), replacement_lines(b, public_url, now)) {
            (Ok(x), Ok(y)) => replacement_lines(a + b, public_url, now) == Ok::<
                Seq<char>,
                Seq<char>,
            >(x + y),
            _ => replacement_lines(a + b, public_url, now) is Err,
        },
    decreases b.len(),
{
    if b.len() == 0 {
        assert(a + b =~= a);
        if let Ok(x) = replacement_lines(a, public_url, now) {
            assert(x + Seq::<char>::empty() =~= x);
        }
    } else {
        let head = b.drop_last();
        replacements_are_written_in_order(a, head, public_url, now);
        assert((a + b).drop_last() =~= a + head);
        assert((a + b).last() == b.last());
        if let (Ok(x), Ok(y)) = (
            replacement_lines(a, public_url, now),
            replacement_lines(head, public_url, now),
        ) {
            if let Ok(line) = replacement_line(b.last(), public_url, now) {
                assert(x + y + line =~= x + (y + line));
            }
        }
    }
}

/// The digest of the first bytes of a file depends on those alone, and is refused exactly if
/// there are not as many.
pub proof fn digests_are_of_the_first_bytes(a: Seq<u8>, b: Seq<u8>, length: u64)
    ensures
        prefix_hash(a, length) is Err <==> a.len() < length,
        length <= a.len() && length <= b.len() && a.take(length as int) == b.take(length as int)
            ==> prefix_hash(a, length) == prefix_hash(b, length),
{
}

/// A record stands exactly if its job is there and the database says of the job what the
/// record says; a link that it tells is the one under the job's token.
pub proof fn records_are_checked(
    r: ArtifactRecordView,
    jobs: Seq<CurrentJobView>,
    public_url: Seq<char>,
    j: CurrentJobView,
)
    ensures
        r.job_id is None ==> record_checked(r, jobs, public_url) is Err,
        r.job_id matches Some(id) ==> (forall|o: CurrentJobView| #[trigger]
            jobs.contains(o) ==> o.id != id) ==> record_checked(r, jobs, public_url) is Err,
        r.job_id == Some(j.id) && jobs.contains(j) && (forall|o: CurrentJobView| #[trigger]
            jobs.contains(o) && o.id == j.id ==> o == j) ==> (record_checked(r, jobs, public_url)
            is Ok <==> {
            &&& j.refusal is None && j.grant_hash == j.token_digest
            &&& r.tenant == Some(json_string(j.tenant))
            &&& r.generation == Some(decimal(j.token_generation as nat))
            &&& r.token_hash == Some(json_string(j.grant_hash))
            &&& r.url is None || r.url == Some(public_url + "/s/"@ + j.token)
        }),
{
    if let Some(id) = r.job_id {
        lemma_found(jobs, current(id));
    }
}

proof fn lemma_lines_checked(
    lines: Seq<Result<ArtifactRecordView, Seq<char>>>,
    jobs: Seq<CurrentJobView>,
    public_url: Seq<char>,
)
    ensures
        lines_checked(lines, jobs, public_url) is Ok <==> forall|i: int|
            0 <= i < lines.len() ==> ((#[trigger] lines[i]) matches Ok(r) && record_checked(
                r,
                jobs,
                public_url,
            ) is Ok),
    decreases lines.len(),
{
    if lines.len() > 0 {
        let head = lines.drop_last();
        let n = lines.len() - 1;
        lemma_lines_checked(head, jobs, public_url);
        assert(lines[n] == lines.last());
        assert forall|i: int| 0 <= i < n implies #[trigger] lines[i] == head[i] by {}
        if lines_checked(lines, jobs, public_url) is Ok {
            assert forall|i: int| 0 <= i < lines.len() implies ((#[trigger] lines[i]) matches Ok(r)
                && record_checked(r, jobs, public_url) is Ok) by {
                if i < n {
                    assert(head[i] == lines[i]);
                }
            }
        }
        if forall|i: int|
            0 <= i < lines.len() ==> ((#[trigger] lines[i]) matches Ok(r) && record_checked(
                r,
                jobs,
                public_url,
            ) is Ok) {
            assert forall|i: int| 0 <= i < head.len() implies ((#[trigger] head[i]) matches Ok(r)
                && record_checked(r, jobs, public_url) is Ok) by {
                assert(lines[i] == head[i]);
            }
            assert(lines[n] is Ok);
        }
    }
}

/// An artifact is finished exactly if its digest is the one of the database, every line of it
/// stands, and there are as many as links were rotated.
pub proof fn artifacts_are_finished(
    hash: Result<Seq<char>, Seq<char>>,
    records: Seq<Result<ArtifactRecordView, Seq<char>>>,
    c: ConversionView,
    jobs: Seq<CurrentJobView>,
)
    ensures
        finished(hash, records, c, jobs) is Ok <==> hash == Ok::<Seq<char>, Seq<char>>(c.sha256)
            && records.len() == c.replacements && forall|i: int|
            0 <= i < records.len() ==> ((#[trigger] records[i]) matches Ok(r) && record_checked(
                r,
                jobs,
                c.public_url,
            ) is Ok),
        finished(hash, records, c, jobs) matches Ok(text) ==> text == committed_text(c),
{
    lemma_lines_checked(records, jobs, c.public_url);
}

// ----------------------------------------------------------------- command line
proof fn lemma_option_names()
    ensures
        "--data-copy"@ != "--public-url"@,
        "--help"@ != "--data-copy"@,
        "--help"@ != "--public-url"@,
{
    reveal_strlit("--data-copy");
    reveal_strlit("--public-url");
    reveal_strlit("--help");
    assert("--data-copy"@.len() == 11);
    assert("--public-url"@.len() == 12);
    assert("--help"@.len() == 6);
}

/// A command line asks for help if that is all it says. Else it asks for a conversion exactly
/// if it names a copy and an URL, each once and in either order, and nothing more.
pub proof fn command_lines_name_a_copy_and_an_url(
    args: Seq<Seq<char>>,
    data: Seq<char>,
    origin: Seq<char>,
)
    ensures
        (command_line(args) matches Ok(None)) <==> args == seq!["--help"@],
        command_line(args) == Ok::<Option<(Seq<char>, Seq<char>)>, Seq<char>>(
            Some((data, origin)),
        ) <==> args == seq!["--data-copy"@, data, "--public-url"@, origin] || args == seq![
            "--public-url"@,
            origin,
            "--data-copy"@,
            data,
        ],
{
    lemma_option_names();
    reveal_with_fuel(options, 4);
    if args == seq!["--help"@] {
        assert(args.len() == 1);
        assert(args != seq!["--data-copy"@, data, "--public-url"@, origin]) by {
            assert(seq!["--data-copy"@, data, "--public-url"@, origin].len() == 4);
        }
        assert(args != seq!["--public-url"@, origin, "--data-copy"@, data]) by {
            assert(seq!["--public-url"@, origin, "--data-copy"@, data].len() == 4);
        }
    } else {
        let one = seq!["--data-copy"@, data, "--public-url"@, origin];
        let two = seq!["--public-url"@, origin, "--data-copy"@, data];
        if args == one {
            assert(args[0] == "--data-copy"@ && args[1] == data && args[2] == "--public-url"@
                && args[3] == origin && args.len() == 4);
        }
        if args == two {
            assert(args[2] == "--data-copy"@ && args[3] == data && args[0] == "--public-url"@
                && args[1] == origin && args.len() == 4);
        }
        if options(args, 0, None, None) == Ok::<(Seq<char>, Seq<char>), Seq<char>>((data, origin)) {
            assert(args.len() == 4);
            assert(args =~= one || args =~= two);
        }
    }
}

/// A conversion begins under the origin it was given with nothing written and no link rotated;
/// it is refused exactly if there is no origin.
pub proof fn conversions_begin_with_nothing(
    id: Seq<char>,
    origin: Result<Seq<char>, Seq<char>>,
    issuer: Seq<char>,
    created_at: u64,
)
    ensures
        begun(id, origin, issuer, created_at) is Ok <==> origin is Ok,
        begun(id, origin, issuer, created_at) matches Ok(c) ==> c.id == id && c.issuer == issuer
            && c.created_at == created_at && origin == Ok::<Seq<char>, Seq<char>>(c.public_url)
            && c.bytes == 0 && c.replacements == 0 && c.sha256.len() == 0 && c.source < c.target,
{
}

/// A copy is admitted exactly if its directory is plain and nothing speaks against it, its
/// database is sound, no artifact is left over, and no session is in progress.
pub proof fn copies_are_admitted(
    plain: bool,
    marker: Option<Seq<char>>,
    artifact: bool,
    sessions: bool,
    check: Seq<char>,
    violated: bool,
)
    ensures
        copy_checked(plain, marker) is Ok <==> plain && marker is None,
        leftovers_checked(artifact, sessions) is Ok <==> !artifact && !sessions,
        soundness(check, violated) is Ok <==> check == "ok"@ && !violated,
{
}

/// A source document is taken exactly if it is text of no more than 64 MiB, and as it is.
pub proof fn documents_are_bounded(text: Option<Seq<char>>, column: nat)
    ensures
        bounded(text, column) is Ok <==> text is Some && encode_utf8(text->0).len() <= 67108864,
        bounded(text, column) matches Ok(t) ==> text == Some(t),
{
}

/// Records are as they should be exactly if each of them is.
pub proof fn records_are_checked_one_by_one(
    items: Seq<Seq<char>>,
    allowed: Seq<Seq<char>>,
    uploads: Seq<Seq<char>>,
)
    ensures
        records_checked(items, allowed) is Ok <==> forall|i: int|
            0 <= i < items.len() ==> #[trigger] fields_checked(
                crate::json::object_keys(items[i]),
                allowed,
            ) is Ok,
        uploads_checked(uploads) is Ok <==> forall|i: int|
            0 <= i < uploads.len() ==> crate::conversion::upload_checked(#[trigger] uploads[i])
                is Ok,
    decreases items.len() + uploads.len(),
{
    if items.len() > 0 {
        let head = items.drop_last();
        let n = items.len() - 1;
        records_are_checked_one_by_one(head, allowed, Seq::empty());
        assert(items[n] == items.last());
        assert forall|i: int| 0 <= i < n implies #[trigger] items[i] == head[i] by {}
        if records_checked(items, allowed) is Ok {
            assert forall|i: int| 0 <= i < items.len() implies #[trigger] fields_checked(
                crate::json::object_keys(items[i]),
                allowed,
            ) is Ok by {
                if i < n {
                    assert(fields_checked(crate::json::object_keys(head[i]), allowed) is Ok);
                }
            }
        }
        if forall|i: int|
            0 <= i < items.len() ==> #[trigger] fields_checked(
                crate::json::object_keys(items[i]),
                allowed,
            ) is Ok {
            assert forall|i: int| 0 <= i < head.len() implies #[trigger] fields_checked(
                crate::json::object_keys(head[i]),
                allowed,
            ) is Ok by {
                assert(fields_checked(crate::json::object_keys(items[i]), allowed) is Ok);
            }
            assert(fields_checked(crate::json::object_keys(items[n]), allowed) is Ok);
        }
    }
    if uploads.len() > 0 {
        let head = uploads.drop_last();
        let n = uploads.len() - 1;
        records_are_checked_one_by_one(Seq::empty(), allowed, head);
        assert(uploads[n] == uploads.last());
        assert forall|i: int| 0 <= i < n implies #[trigger] uploads[i] == head[i] by {}
        if uploads_checked(uploads) is Ok {
            assert forall|i: int| 0 <= i < uploads.len() implies crate::conversion::upload_checked(
                #[trigger] uploads[i],
            ) is Ok by {
                if i < n {
                    assert(crate::conversion::upload_checked(head[i]) is Ok);
                }
            }
        }
        if forall|i: int|
            0 <= i < uploads.len() ==> crate::conversion::upload_checked(#[trigger] uploads[i])
                is Ok {
            assert forall|i: int| 0 <= i < head.len() implies crate::conversion::upload_checked(
                #[trigger] head[i],
            ) is Ok by {
                assert(crate::conversion::upload_checked(uploads[i]) is Ok);
            }
        }
    }
}

/// A record is as it should be exactly if it is an object none of whose keys is unknown.
pub proof fn unknown_fields_are_refused(
    keys: Option<Seq<Seq<char>>>,
    allowed: Seq<Seq<char>>,
    strange: Seq<char>,
)
    ensures
        keys is None ==> fields_checked(keys, allowed) is Err,
        keys matches Some(k) ==> k.contains(strange) && !allowed.contains(strange)
            ==> fields_checked(keys, allowed) is Err,
        keys matches Some(k) ==> (forall|x: Seq<char>| #[trigger]
            k.contains(x) ==> allowed.contains(x)) ==> fields_checked(keys, allowed) is Ok,
{
    if let Some(k) = keys {
        if k.contains(strange) {
            let i = choose|i: int| 0 <= i < k.len() && k[i] == strange;
            assert(k[i] == strange);
        }
        if forall|x: Seq<char>| #[trigger] k.contains(x) ==> allowed.contains(x) {
            assert forall|i: int| 0 <= i < k.len() implies allowed.contains(#[trigger] k[i]) by {
                assert(k.contains(k[i]));
            }
        }
    }
}

/// What is selected for a column is the column itself unless something stands in for it.
pub proof fn columns_stand_for_themselves(
    backfill: Seq<(Seq<char>, Seq<char>)>,
    name: Seq<char>,
)
    ensures
        (forall|p: (Seq<char>, Seq<char>)| #[trigger] backfill.contains(p) ==> p.0 != name)
            ==> selected(backfill)(name) == name,
        (exists|p: (Seq<char>, Seq<char>)| #[trigger] backfill.contains(p) && p.0 == name)
            ==> backfill.contains((name, selected(backfill)(name))),
{
    lemma_found(backfill, under(name));
}

/// Lists that are joined by commas come apart by them: one more element is one more comma and
/// the element.
pub proof fn commas_stand_between(a: Seq<Seq<char>>, x: Seq<char>)
    ensures
        comma_joined(seq![x]) == x,
        a.len() > 0 ==> comma_joined(a.push(x)) == comma_joined(a) + ","@ + x,
{
    assert(a.push(x).drop_last() =~= a);
}

} // verus!
