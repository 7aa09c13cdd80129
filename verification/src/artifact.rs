//! The artifact of a conversion: a line for each link that was rotated.
use vstd::prelude::*;
use vstd::utf8::encode_utf8;

use crate::columns::{to_wrapped, wrapped};
use crate::decimal::{decimal, u64_text};
use crate::hexadecimal::{hex_encode, hex_text};
use crate::json::{
    json_object, json_string, member, member_of, object, object_member, parse_json, parsed_json,
    quoted, str_of, string_value,
};
use crate::records::{
    ArtifactRecord, ArtifactRecordView, Conversion, ConversionView, CurrentJob, CurrentJobView,
    Replacement, ReplacementView,
};
use crate::signatures::{digest, sha256};
use crate::sql::{pieces, split};
use crate::table::{find, first, outcome};
use crate::text::{same, same_option};

verus! {

// ------------------------------------------------------------ specifications
/// A link under a public URL.
pub open spec fn link_text(public_url: Seq<char>, token: Seq<char>) -> Seq<char> {
    public_url + "/s/"@ + token
}

/// Whether a rotated link can be used at `now`.
pub open spec fn link_works(r: ReplacementView, now: u64) -> bool {
    r.released && r.revoked_at is None && r.expires_at > wrapped(now)
}

/// What the line for a rotated link holds.
pub open spec fn replacement_members(r: ReplacementView, public_url: Seq<char>, now: u64) -> Seq<
    (Seq<char>, Seq<char>),
> {
    seq![
        ("generation"@, decimal(r.document.token_generation as nat)),
        ("job_id"@, json_string(r.document.id)),
        ("label"@, json_string(r.document.label)),
        ("state"@, json_string(r.document.state)),
        ("tenant"@, json_string(r.document.tenant)),
        ("token_hash"@, json_string(r.grant_hash)),
        (
            "url"@,
            if link_works(r, now) {
                json_string(link_text(public_url, r.token))
            } else {
                "null"@
            },
        ),
    ]
}

/// The line for a rotated link, or why there is none.
pub open spec fn replacement_line(r: ReplacementView, public_url: Seq<char>, now: u64) -> Result<
    Seq<char>,
    Seq<char>,
> {
    match r.refusal {
        Some(e) => Err(e),
        None => if r.token_digest != r.grant_hash {
            Err("converted workflow token does not match its grant"@)
        } else {
            Ok(json_object(replacement_members(r, public_url, now)) + "\n"@)
        },
    }
}

/// The lines for rotated links, or why the first is missing that is.
pub open spec fn replacement_lines(
    list: Seq<ReplacementView>,
    public_url: Seq<char>,
    now: u64,
) -> Result<Seq<char>, Seq<char>>
    decreases list.len(),
{
    if list.len() == 0 {
        Ok(Seq::empty())
    } else {
        match replacement_lines(list.drop_last(), public_url, now) {
            Err(e) => Err(e),
            Ok(before) => match replacement_line(list.last(), public_url, now) {
                Err(e) => Err(e),
                Ok(line) => Ok(before + line),
            },
        }
    }
}

/// The digest of the first bytes of a file.
pub open spec fn prefix_hash(content: Seq<u8>, length: u64) -> Result<Seq<char>, Seq<char>> {
    if content.len() < length {
        Err("conversion artifact is truncated"@)
    } else {
        Ok(hex_text(sha256(content.take(length as int))))
    }
}

/// The lines of a text.
pub open spec fn lines_of(text: Seq<char>) -> Seq<Seq<char>> {
    let parts = pieces(text, "\n"@);
    if parts.len() > 0 && parts.last().len() == 0 {
        parts.drop_last()
    } else {
        parts
    }
}

/// The string under a key.
pub open spec fn string_under(line: Seq<char>, key: Seq<char>) -> Option<Seq<char>> {
    match object_member(line, key) {
        Some(text) => string_value(text),
        None => None,
    }
}

/// What a line says of a rotated link.
pub open spec fn record_in(line: Seq<char>) -> Result<ArtifactRecordView, Seq<char>> {
    match parsed_json(line) {
        Err(e) => Err(e),
        Ok(_) => Ok(
            ArtifactRecordView {
                job_id: string_under(line, "job_id"@),
                tenant: object_member(line, "tenant"@),
                generation: object_member(line, "generation"@),
                token_hash: object_member(line, "token_hash"@),
                url: string_under(line, "url"@),
            },
        ),
    }
}

/// The job under an id.
pub open spec fn current(id: Seq<char>) -> spec_fn(CurrentJobView) -> bool {
    |j: CurrentJobView| j.id == id
}

/// Whether a record says what the database says of its job.
pub open spec fn record_agrees(r: ArtifactRecordView, j: CurrentJobView, public_url: Seq<char>) -> bool {
    &&& r.tenant == Some(json_string(j.tenant))
    &&& r.generation == Some(decimal(j.token_generation as nat))
    &&& r.token_hash == Some(json_string(j.grant_hash))
    &&& j.grant_hash == j.token_digest
    &&& r.url matches Some(url) ==> url == link_text(public_url, j.token)
}

/// Whether a record stands, or what is wrong with it.
pub open spec fn record_checked(
    r: ArtifactRecordView,
    jobs: Seq<CurrentJobView>,
    public_url: Seq<char>,
) -> Result<(), Seq<char>> {
    match r.job_id {
        None => Err("invalid replacement job"@),
        Some(id) => match first(jobs, current(id)) {
            None => Err("Query returned no rows"@),
            Some(j) => match j.refusal {
                Some(e) => Err(e),
                None => if record_agrees(r, j, public_url) {
                    Ok(())
                } else {
                    Err("replacement artifact disagrees with current workflow authority"@)
                },
            },
        },
    }
}

/// Whether all lines stand, or what is wrong with the first that does not.
pub open spec fn lines_checked(
    lines: Seq<Result<ArtifactRecordView, Seq<char>>>,
    jobs: Seq<CurrentJobView>,
    public_url: Seq<char>,
) -> Result<(), Seq<char>>
    decreases lines.len(),
{
    if lines.len() == 0 {
        Ok(())
    } else {
        match lines_checked(lines.drop_last(), jobs, public_url) {
            Err(e) => Err(e),
            Ok(_) => match lines.last() {
                Err(e) => Err(e),
                Ok(record) => record_checked(record, jobs, public_url),
            },
        }
    }
}

/// The last line of the artifact.
pub open spec fn committed_text(c: ConversionView) -> Seq<char> {
    json_object(
        seq![
            ("bytes"@, decimal(c.bytes as nat)),
            ("id"@, json_string(c.id)),
            ("sha256"@, json_string(c.sha256)),
            ("state"@, json_string("committed"@)),
        ],
    ) + "\n"@
}

/// What lines say of rotated links.
pub open spec fn records_in(lines: Seq<Seq<char>>) -> Seq<Result<ArtifactRecordView, Seq<char>>> {
    lines.map_values(|line: Seq<char>| record_in(line))
}

/// The last line of the artifact, if all before it stands: the digest of what was
/// written, and what its lines say.
pub open spec fn finished(
    hash: Result<Seq<char>, Seq<char>>,
    records: Seq<Result<ArtifactRecordView, Seq<char>>>,
    c: ConversionView,
    jobs: Seq<CurrentJobView>,
) -> Result<Seq<char>, Seq<char>> {
    match hash {
        Err(e) => Err(e),
        Ok(hash) => if hash != c.sha256 {
            Err("conversion artifact does not match the committed database"@)
        } else {
            match lines_checked(records, jobs, c.public_url) {
                Err(e) => Err(e),
                Ok(_) => if records.len() != c.replacements {
                    Err("conversion artifact replacement count is wrong"@)
                } else {
                    Ok(committed_text(c))
                },
            }
        },
    }
}

/// The lines of an artifact behind its first.
pub open spec fn record_lines(text: Seq<char>) -> Seq<Seq<char>> {
    let lines = lines_of(text);
    if lines.len() == 0 {
        lines
    } else {
        lines.skip(1)
    }
}

// ---------------------------------------------------------------- operations
fn link_to(public_url: &str, token: &str) -> (s: String)
    ensures
        s@ == link_text(public_url@, token@),
{
    public_url.to_owned().concat("/s/").concat(token)
}

/// The line for a rotated link.
pub fn write_replacement(r: &Replacement, public_url: &str, now: u64) -> (line: Result<String, String>)
    ensures
        outcome(line) == replacement_line(r@, public_url@, now),
{
    if let Some(error) = &r.refusal {
        return Err(error.clone());
    }
    if !same(r.token_digest.as_str(), r.grant_hash.as_str()) {
        return Err("converted workflow token does not match its grant".to_owned());
    }
    let works = r.released && r.revoked_at.is_none() && r.expires_at > to_wrapped(now);
    let url = if works {
        quoted(link_to(public_url, r.token.as_str()).as_str())
    } else {
        "null".to_owned()
    };
    let mut members: Vec<(String, String)> = Vec::new();
    members.push(member("generation", u64_text(r.document.token_generation)));
    members.push(member("job_id", quoted(r.document.id.as_str())));
    members.push(member("label", quoted(r.document.label.as_str())));
    members.push(member("state", quoted(r.document.state.as_str())));
    members.push(member("tenant", quoted(r.document.tenant.as_str())));
    members.push(member("token_hash", quoted(r.grant_hash.as_str())));
    members.push(member("url", url));
    assert(members.deep_view() =~= replacement_members(r@, public_url@, now));
    Ok(object(&members).concat("\n"))
}

proof fn lemma_lines_refused(
    list: Seq<ReplacementView>,
    public_url: Seq<char>,
    now: u64,
    n: int,
)
    requires
        0 <= n <= list.len(),
        replacement_lines(list.take(n), public_url, now) is Err,
    ensures
        replacement_lines(list, public_url, now) == replacement_lines(
            list.take(n),
            public_url,
            now,
        ),
    decreases list.len() - n,
{
    if n < list.len() {
        assert(list.take(n + 1).drop_last() =~= list.take(n));
        lemma_lines_refused(list, public_url, now, n + 1);
    } else {
        assert(list.take(n) =~= list);
    }
}

/// The lines for rotated links, the jobs in order of their ids.
pub fn write_replacements(list: &Vec<Replacement>, public_url: &str, now: u64) -> (r: Result<
    String,
    String,
>)
    ensures
        outcome(r) == replacement_lines(list.deep_view(), public_url@, now),
{
    let ghost all = list.deep_view();
    let mut s = "".to_owned();
    let mut i: usize = 0;
    proof {
        reveal_strlit("");
        assert(all.take(0) =~= Seq::<ReplacementView>::empty());
        assert(s@ =~= Seq::empty());
    }
    while i < list.len()
        invariant
            i <= list.len(),
            all == list.deep_view(),
            replacement_lines(all.take(i as int), public_url@, now) == Ok::<Seq<char>, Seq<char>>(
                s@,
            ),
        decreases list.len() - i,
    {
        proof {
            assert(all.take(i + 1).drop_last() =~= all.take(i as int));
            assert(all.take(i + 1).last() == all[i as int]);
        }
        match write_replacement(&list[i], public_url, now) {
            Ok(line) => {
                s.append(line.as_str());
            },
            Err(error) => {
                proof {
                    lemma_lines_refused(all, public_url@, now, i + 1);
                }
                return Err(error);
            },
        }
        i += 1;
    }
    assert(all.take(i as int) =~= all);
    Ok(s)
}

/// The digest of the first `length` bytes of a file.
pub fn hash_prefix(content: &[u8], length: u64) -> (r: Result<String, String>)
    ensures
        outcome(r) == prefix_hash(content@, length),
{
    if (content.len() as u64) < length {
        return Err("conversion artifact is truncated".to_owned());
    }
    let mut prefix: Vec<u8> = Vec::new();
    let end: usize = length as usize;
    let mut i: usize = 0;
    assert(prefix@ =~= content@.take(0));
    while i < end
        invariant
            i <= end <= content.len(),
            prefix@ == content@.take(i as int),
        decreases end - i,
    {
        prefix.push(content[i]);
        i += 1;
        assert(prefix@ =~= content@.take(i as int));
    }
    let bytes = digest(prefix.as_slice());
    Ok(hex_encode(bytes.as_slice()))
}

fn split_lines(text: &str) -> (r: Vec<String>)
    ensures
        r.deep_view() == lines_of(text@),
{
    proof {
        reveal_strlit("\n");
    }
    let mut lines = split(text, "\n");
    let ghost parts = lines.deep_view();
    assert(parts.len() == lines.len());
    if lines.len() > 0 && lines[lines.len() - 1].as_str().unicode_len() == 0 {
        assert(parts.last() == lines@[lines.len() - 1]@);
        lines.pop();
        assert(lines.deep_view() =~= parts.drop_last());
    }
    lines
}

fn string_at(line: &str, key: &str) -> (r: Option<String>)
    ensures
        r.deep_view() == string_under(line@, key@),
{
    match member_of(line, key) {
        Some(text) => str_of(text.as_str()),
        None => None,
    }
}

fn read_record(line: &str) -> (r: Result<ArtifactRecord, String>)
    ensures
        outcome(r) == record_in(line@),
{
    match parse_json(line) {
        Err(error) => Err(error),
        Ok(_) => Ok(
            ArtifactRecord {
                job_id: string_at(line, "job_id"),
                tenant: member_of(line, "tenant"),
                generation: member_of(line, "generation"),
                token_hash: member_of(line, "token_hash"),
                url: string_at(line, "url"),
            },
        ),
    }
}

/// Whether a record says what the database says of its job, or what is wrong.
pub fn check_record(record: &ArtifactRecord, jobs: &Vec<CurrentJob>, public_url: &str) -> (r: Result<
    (),
    String,
>)
    ensures
        outcome(r) == record_checked(record@, jobs.deep_view(), public_url@),
{
    let id = match &record.job_id {
        Some(id) => id.as_str(),
        None => return Err("invalid replacement job".to_owned()),
    };
    let hit = |j: &CurrentJob| -> (b: bool)
        ensures
            b == current(id@)(j@),
    {
        same(j.id.as_str(), id)
    };
    let job = match find(jobs, hit, Ghost(current(id@))) {
        Some(found) => &jobs[found],
        None => return Err("Query returned no rows".to_owned()),
    };
    if let Some(error) = &job.refusal {
        return Err(error.clone());
    }
    let link = link_to(public_url, job.token.as_str());
    let told = match &record.url {
        Some(url) => same(url.as_str(), link.as_str()),
        None => true,
    };
    if same_option(&record.tenant, &Some(quoted(job.tenant.as_str()))) && same_option(
        &record.generation,
        &Some(u64_text(job.token_generation)),
    ) && same_option(&record.token_hash, &Some(quoted(job.grant_hash.as_str()))) && same(
        job.grant_hash.as_str(),
        job.token_digest.as_str(),
    ) && told {
        Ok(())
    } else {
        Err("replacement artifact disagrees with current workflow authority".to_owned())
    }
}

proof fn lemma_records_refused(
    records: Seq<Result<ArtifactRecordView, Seq<char>>>,
    jobs: Seq<CurrentJobView>,
    public_url: Seq<char>,
    n: int,
)
    requires
        0 <= n <= records.len(),
        lines_checked(records.take(n), jobs, public_url) is Err,
    ensures
        lines_checked(records, jobs, public_url) == lines_checked(
            records.take(n),
            jobs,
            public_url,
        ),
    decreases records.len() - n,
{
    if n < records.len() {
        assert(records.take(n + 1).drop_last() =~= records.take(n));
        lemma_records_refused(records, jobs, public_url, n + 1);
    } else {
        assert(records.take(n) =~= records);
    }
}

/// What was read of lines.
pub open spec fn read_of(records: Seq<Result<ArtifactRecord, String>>) -> Seq<
    Result<ArtifactRecordView, Seq<char>>,
> {
    records.map_values(|r: Result<ArtifactRecord, String>| outcome(r))
}

fn check_records(
    records: &Vec<Result<ArtifactRecord, String>>,
    jobs: &Vec<CurrentJob>,
    public_url: &str,
) -> (r: Result<(), String>)
    ensures
        outcome(r) == lines_checked(read_of(records@), jobs.deep_view(), public_url@),
{
    let ghost all = read_of(records@);
    let mut i: usize = 0;
    assert(all.take(0) =~= Seq::<Result<ArtifactRecordView, Seq<char>>>::empty());
    while i < records.len()
        invariant
            i <= records.len(),
            all == read_of(records@),
            lines_checked(all.take(i as int), jobs.deep_view(), public_url@) == Ok::<
                (),
                Seq<char>,
            >(()),
        decreases records.len() - i,
    {
        proof {
            assert(all.take(i + 1).drop_last() =~= all.take(i as int));
            assert(all.take(i + 1).last() == outcome(records@[i as int]));
        }
        let checked = match &records[i] {
            Ok(record) => check_record(record, jobs, public_url),
            Err(error) => Err(error.clone()),
        };
        if let Err(error) = checked {
            proof {
                lemma_records_refused(all, jobs.deep_view(), public_url@, i + 1);
            }
            return Err(error);
        }
        i += 1;
    }
    assert(all.take(i as int) =~= all);
    Ok(())
}

/// The last line of the artifact, if all before it stands: `hash` is the digest of
/// what was written, `records` what its lines say.
pub fn finish_records(
    hash: Result<String, String>,
    records: &Vec<Result<ArtifactRecord, String>>,
    result: &Conversion,
    jobs: &Vec<CurrentJob>,
) -> (r: Result<String, String>)
    ensures
        outcome(r) == finished(outcome(hash), read_of(records@), result@, jobs.deep_view()),
{
    let hash = match hash {
        Ok(hash) => hash,
        Err(error) => return Err(error),
    };
    if !same(hash.as_str(), result.sha256.as_str()) {
        return Err("conversion artifact does not match the committed database".to_owned());
    }
    if let Err(error) = check_records(records, jobs, result.public_url.as_str()) {
        return Err(error);
    }
    assert(read_of(records@).len() == records.len());
    if records.len() as u64 != result.replacements {
        return Err("conversion artifact replacement count is wrong".to_owned());
    }
    let mut members: Vec<(String, String)> = Vec::new();
    members.push(member("bytes", u64_text(result.bytes)));
    members.push(member("id", quoted(result.id.as_str())));
    members.push(member("sha256", quoted(result.sha256.as_str())));
    members.push(member("state", quoted("committed")));
    let ghost c = result@;
    assert(members.deep_view() =~= seq![
        ("bytes"@, decimal(c.bytes as nat)),
        ("id"@, json_string(c.id)),
        ("sha256"@, json_string(c.sha256)),
        ("state"@, json_string("committed"@)),
    ]);
    Ok(object(&members).concat("\n"))
}

/// The last line of the artifact, if all before it stands: `text` is the artifact
/// up to the length that the conversion recorded.
pub fn finish_artifact(text: &str, result: &Conversion, jobs: &Vec<CurrentJob>) -> (r: Result<
    String,
    String,
>)
    ensures
        outcome(r) == finished(
            prefix_hash(encode_utf8(text@), result@.bytes),
            records_in(record_lines(text@)),
            result@,
            jobs.deep_view(),
        ),
{
    let hash = hash_prefix(text.as_bytes(), result.bytes);
    let lines = split_lines(text);
    let ghost all = lines.deep_view();
    let from: usize = if lines.len() == 0 {
        0
    } else {
        1
    };
    let mut records: Vec<Result<ArtifactRecord, String>> = Vec::new();
    let mut i: usize = from;
    while i < lines.len()
        invariant
            from <= i <= lines.len(),
            all == lines.deep_view(),
            records.len() == i - from,
            forall|k: int|
                0 <= k < i - from ==> outcome(#[trigger] records@[k]) == record_in(all[from + k]),
        decreases lines.len() - i,
    {
        records.push(read_record(lines[i].as_str()));
        i += 1;
    }
    assert(read_of(records@) =~= records_in(record_lines(text@))) by {
        assert(record_lines(text@).len() == records.len());
    }
    finish_records(hash, &records, result, jobs)
}

} // verus!
