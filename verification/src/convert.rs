//! A conversion as a whole: what becomes of the rows of a copy, and of the
//! artifact that tells of it.
use vstd::prelude::*;
use vstd::utf8::encode_utf8;

use crate::artifact::{
    committed_text, current, finished, hash_prefix, lines_checked, lines_of, link_text, link_works,
    prefix_hash, record_in, record_lines, records_in, replacement_lines, replacement_members,
    write_replacements,
};
use crate::conversion::{admit_leftovers, leftovers_checked, prepared_text};
use crate::decimal::{decimal, decimal_stands_for_its_number};
use crate::json::{
    json_object, json_string, objects_stand_on_one_line, one_line, strings_stand_on_one_line,
};
use crate::links::tenant_is;
use crate::records::{
    ArtifactRecordView, Conversion, ConversionView, CurrentJobView, Replacement, ReplacementView,
    Rotation, RotationView, SourceFile, SourceFileView, SourceJob, SourceJobView, SourceLink,
    SourceLinkView,
};
use crate::rows::{EventRowView, TenantRow, TenantRowView};
use crate::sql::{pieces_from, position};
use crate::store::{Store, StoreView, follows};
use crate::table::{Row, first, outcome, sorted_by, update_where, updated};
use crate::text::same;
use crate::upgrade::{
    chain_order, chains_checked, jobs_converted, signed_at, uploads_normalized, verify_events,
};
use crate::usage::{backfill_quota_usage, backfilled};

verus! {

// ------------------------------------------------------------ specifications
/// Whether the events of a store are the chains of their tenants, all signed by
/// an issuer.
pub open spec fn events_checked(events: Seq<EventRowView>, issuer: Seq<char>) -> Result<
    (),
    Seq<char>,
> {
    chains_checked(sorted_by(events, chain_order()), issuer, Seq::empty(), Seq::empty())
}

/// Every tenant.
pub open spec fn every_tenant() -> spec_fn(TenantRowView) -> bool {
    |t: TenantRowView| true
}

/// A tenant under an incarnation.
pub open spec fn born_as(incarnation: Seq<char>) -> spec_fn(TenantRowView) -> TenantRowView {
    |t: TenantRowView| TenantRowView { incarnation, ..t }
}

/// The tenants, each under the last incarnation that is given for its key.
pub open spec fn reborn(tenants: Seq<TenantRowView>, given: Seq<(Seq<char>, Seq<char>)>) -> Seq<
    TenantRowView,
>
    decreases given.len(),
{
    if given.len() == 0 {
        updated(tenants, every_tenant(), born_as(Seq::empty()))
    } else {
        updated(
            reborn(tenants, given.drop_last()),
            tenant_is(given.last().0),
            born_as(given.last().1),
        )
    }
}

/// A copy's rows before its jobs are converted: nothing is in progress, the chains
/// of events stand, tenants have their incarnations, uploads are taken over, and
/// the aggregates are counted.
pub open spec fn readied(
    s: StoreView,
    links: Seq<SourceLinkView>,
    files: Seq<SourceFileView>,
    incarnations: Seq<(Seq<char>, Seq<char>)>,
    issuer: Seq<char>,
) -> Result<StoreView, Seq<char>> {
    let tenants = reborn(s.tenants, incarnations);
    match leftovers_checked(false, s.sessions.len() > 0 || s.session_files.len() > 0) {
        Err(e) => Err(e),
        Ok(_) => match events_checked(s.events, issuer) {
            Err(e) => Err(e),
            Ok(_) => match uploads_normalized(StoreView { tenants, ..s }, files, links) {
                Err(e) => Err(e),
                Ok((taken, _)) => match backfilled(taken.files, taken.tenants) {
                    Err(e) => Err(e),
                    Ok(quotas) => Ok(StoreView { quotas, ..taken }),
                },
            },
        },
    }
}

/// A copy's rows after its jobs were converted: the chains of events still stand.
pub open spec fn completed(
    ready: StoreView,
    jobs: Seq<SourceJobView>,
    issuer: Seq<char>,
    now: u64,
    signatures: Seq<Seq<char>>,
) -> Result<(StoreView, Seq<RotationView>), Seq<char>> {
    match jobs_converted(ready, jobs, issuer, now, signatures) {
        Err(e) => Err(e),
        Ok((after, done)) => match events_checked(after.events, issuer) {
            Err(e) => Err(e),
            Ok(_) => Ok((after, done)),
        },
    }
}

/// The artifact of a conversion before it is committed.
pub open spec fn artifact_text(c: ConversionView, list: Seq<ReplacementView>) -> Result<
    Seq<char>,
    Seq<char>,
> {
    match replacement_lines(list, c.public_url, c.created_at) {
        Err(e) => Err(e),
        Ok(lines) => Ok(prepared_text(c) + "\n"@ + lines),
    }
}

/// A conversion that names the artifact that was written for it.
pub open spec fn sealed(c: ConversionView, text: Seq<char>) -> Result<ConversionView, Seq<char>> {
    let bytes = encode_utf8(text).len() as u64;
    match prefix_hash(encode_utf8(text), bytes) {
        Err(e) => Err(e),
        Ok(sha256) => Ok(ConversionView { bytes, sha256, ..c }),
    }
}

// ---------------------------------------------------------------------- laws
/// A converted copy has true accounts: whatever files it took over, its aggregates
/// are true of them.
pub proof fn converted_accounts_are_true(
    s: StoreView,
    links: Seq<SourceLinkView>,
    files: Seq<SourceFileView>,
    incarnations: Seq<(Seq<char>, Seq<char>)>,
    jobs: Seq<SourceJobView>,
    issuer: Seq<char>,
    now: u64,
    signatures: Seq<Seq<char>>,
)
    ensures
        readied(s, links, files, incarnations, issuer) matches Ok(ready) ==> completed(
            ready,
            jobs,
            issuer,
            now,
            signatures,
        ) matches Ok((after, _)) ==> crate::quota::sound(after.quotas, after.files),
{
    if let Ok(ready) = readied(s, links, files, incarnations, issuer) {
        crate::usage::backfilled_aggregates_are_true(ready.files, ready.tenants);
        lemma_jobs_spare(ready, jobs, issuer, now, signatures);
    }
}

/// Converting jobs leaves links, files and accounts as they were.
proof fn lemma_jobs_spare(
    s: StoreView,
    jobs: Seq<SourceJobView>,
    issuer: Seq<char>,
    now: u64,
    signatures: Seq<Seq<char>>,
)
    ensures
        jobs_converted(s, jobs, issuer, now, signatures) matches Ok((after, _)) ==> after.quotas
            == s.quotas && after.files == s.files && after.links == s.links && after.uploads
            == s.uploads && after.tenants == s.tenants,
    decreases jobs.len(),
{
    if jobs.len() > 0 {
        lemma_jobs_spare(s, jobs.drop_last(), issuer, now, signatures);
    }
}

/// An artifact that was written is the one that its conversion names: the digest of
/// what is read back is the digest that was recorded.
pub proof fn artifacts_match_their_conversion(c: ConversionView, text: Seq<char>)
    ensures
        sealed(c, text) matches Ok(done) ==> prefix_hash(encode_utf8(text), done.bytes) == Ok::<
            Seq<char>,
            Seq<char>,
        >(done.sha256),
{
}

/// Lines, each with its line break.
pub open spec fn joined_lines(lines: Seq<Seq<char>>) -> Seq<char>
    decreases lines.len(),
{
    if lines.len() == 0 {
        Seq::empty()
    } else {
        joined_lines(lines.drop_last()) + lines.last() + "\n"@
    }
}

proof fn lemma_joined_front(lines: Seq<Seq<char>>)
    requires
        lines.len() > 0,
    ensures
        joined_lines(lines) == lines[0] + "\n"@ + joined_lines(lines.skip(1)),
    decreases lines.len(),
{
    if lines.len() == 1 {
        assert(lines.drop_last() =~= Seq::<Seq<char>>::empty());
        assert(lines.skip(1) =~= Seq::<Seq<char>>::empty());
        assert(joined_lines(lines) =~= lines[0] + "\n"@ + joined_lines(lines.skip(1)));
    } else {
        lemma_joined_front(lines.drop_last());
        assert(lines.drop_last().skip(1) =~= lines.skip(1).drop_last());
        assert(joined_lines(lines) =~= lines[0] + "\n"@ + joined_lines(lines.skip(1)));
    }
}

proof fn lemma_line_end(s: Seq<char>, from: int, end: int)
    requires
        0 <= from <= end < s.len(),
        forall|k: int| from <= k < end ==> #[trigger] s[k] != '\n',
        s[end] == '\n',
    ensures
        position(s, "\n"@, from) == Some(end),
    decreases end - from,
{
    reveal_strlit("\n");
    let part = s.subrange(from, from + 1);
    if from < end {
        assert(part[0] == s[from]);
        lemma_line_end(s, from + 1, end);
    } else {
        assert(part =~= "\n"@);
    }
}

proof fn lemma_pieces(before: Seq<char>, lines: Seq<Seq<char>>)
    requires
        forall|i: int| 0 <= i < lines.len() ==> one_line(#[trigger] lines[i]),
    ensures
        pieces_from(before + joined_lines(lines), "\n"@, before.len() as int) == lines.push(
            Seq::empty(),
        ),
    decreases lines.len(),
{
    let s = before + joined_lines(lines);
    let from = before.len() as int;
    reveal_strlit("\n");
    if lines.len() == 0 {
        assert(s.skip(from) =~= Seq::empty());
        assert(pieces_from(s, "\n"@, from) =~= lines.push(Seq::empty()));
    } else {
        let rest = lines.skip(1);
        let line = lines[0];
        let next = before + line + "\n"@;
        lemma_joined_front(lines);
        assert(s =~= next + joined_lines(rest));
        assert(one_line(line));
        assert forall|k: int| from <= k < from + line.len() implies #[trigger] s[k] != '\n' by {
            assert(s[k] == line[k - from]);
        }
        lemma_line_end(s, from, from + line.len());
        assert forall|i: int| 0 <= i < rest.len() implies one_line(#[trigger] rest[i]) by {
            assert(rest[i] == lines[i + 1]);
        }
        lemma_pieces(next, rest);
        assert(s.subrange(from, from + line.len()) =~= line);
        assert(pieces_from(s, "\n"@, from) =~= lines.push(Seq::empty()));
    }
}

/// What the lines for rotated links hold.
pub open spec fn bodies(c: ConversionView, list: Seq<ReplacementView>) -> Seq<Seq<char>> {
    list.map_values(
        |r: ReplacementView| json_object(replacement_members(r, c.public_url, c.created_at)),
    )
}

proof fn lemma_lines_joined(c: ConversionView, list: Seq<ReplacementView>)
    ensures
        replacement_lines(list, c.public_url, c.created_at) matches Ok(text) ==> text
            == joined_lines(bodies(c, list)),
    decreases list.len(),
{
    if list.len() > 0 {
        lemma_lines_joined(c, list.drop_last());
        assert(bodies(c, list).drop_last() =~= bodies(c, list.drop_last()));
        if let Ok(text) = replacement_lines(list, c.public_url, c.created_at) {
            assert(text =~= joined_lines(bodies(c, list)));
        }
    }
}

proof fn lemma_bodies(c: ConversionView, list: Seq<ReplacementView>, i: int)
    requires
        0 <= i < list.len(),
    ensures
        one_line(bodies(c, list)[i]),
{
    let r = list[i];
    let members = replacement_members(r, c.public_url, c.created_at);
    decimal_stands_for_its_number(r.document.token_generation as nat);
    strings_stand_on_one_line(r.document.id);
    strings_stand_on_one_line(r.document.label);
    strings_stand_on_one_line(r.document.state);
    strings_stand_on_one_line(r.document.tenant);
    strings_stand_on_one_line(r.grant_hash);
    strings_stand_on_one_line(link_text(c.public_url, r.token));
    reveal_strlit("null");
    objects_stand_on_one_line(members);
}

/// An artifact is read line by line as it was written, whatever texts its lines
/// hold.
pub proof fn artifact_lines_read_back(c: ConversionView, list: Seq<ReplacementView>)
    ensures
        artifact_text(c, list) matches Ok(text) ==> record_lines(text) == bodies(c, list),
{
    if let Ok(text) = artifact_text(c, list) {
        let first_line = prepared_text(c);
        let lines = seq![first_line] + bodies(c, list);
        lemma_lines_joined(c, list);
        lemma_prepared(c);
        lemma_joined_front(lines);
        assert(lines.skip(1) =~= bodies(c, list));
        assert forall|i: int| 0 <= i < lines.len() implies one_line(#[trigger] lines[i]) by {
            if i > 0 {
                lemma_bodies(c, list, i - 1);
                assert(lines[i] == bodies(c, list)[i - 1]);
            }
        }
        lemma_pieces(Seq::empty(), lines);
        assert(Seq::<char>::empty() + joined_lines(lines) =~= text);
        assert(lines.push(Seq::empty()).drop_last() =~= lines);
        assert(lines_of(text) == lines);
    }
}

proof fn lemma_prepared(c: ConversionView)
    ensures
        one_line(prepared_text(c)),
{
    decimal_stands_for_its_number(c.created_at as nat);
    decimal_stands_for_its_number(c.replacements as nat);
    decimal_stands_for_its_number(c.source as nat);
    decimal_stands_for_its_number(c.target as nat);
    strings_stand_on_one_line(c.id);
    strings_stand_on_one_line(c.issuer);
    strings_stand_on_one_line(c.public_url);
    strings_stand_on_one_line("prepared"@);
    objects_stand_on_one_line(
        seq![
            ("created_at"@, decimal(c.created_at as nat)),
            ("id"@, json_string(c.id)),
            ("issuer"@, json_string(c.issuer)),
            ("public_url"@, json_string(c.public_url)),
            ("replacements"@, decimal(c.replacements as nat)),
            ("source"@, decimal(c.source as nat)),
            ("state"@, json_string("prepared"@)),
            ("target"@, decimal(c.target as nat)),
        ],
    );
}

/// What the line for a rotated link says when it is read.
pub open spec fn record_told(r: ReplacementView, c: ConversionView) -> ArtifactRecordView {
    ArtifactRecordView {
        job_id: Some(r.document.id),
        tenant: Some(json_string(r.document.tenant)),
        generation: Some(decimal(r.document.token_generation as nat)),
        token_hash: Some(json_string(r.grant_hash)),
        url: if link_works(r, c.created_at) {
            Some(link_text(c.public_url, r.token))
        } else {
            None
        },
    }
}

/// Whether a job still is as it was when its line was written.
pub open spec fn job_stands(j: CurrentJobView, r: ReplacementView) -> bool {
    &&& j.refusal is None
    &&& j.tenant == r.document.tenant
    &&& j.token_generation == r.document.token_generation
    &&& j.token == r.token
    &&& j.token_digest == r.token_digest
    &&& j.grant_hash == r.grant_hash
}

proof fn lemma_lines_stand(
    c: ConversionView,
    list: Seq<ReplacementView>,
    jobs: Seq<CurrentJobView>,
    n: int,
)
    requires
        0 <= n <= list.len(),
        replacement_lines(list, c.public_url, c.created_at) is Ok,
        forall|i: int|
            0 <= i < list.len() ==> record_in(#[trigger] bodies(c, list)[i]) == Ok::<
                ArtifactRecordView,
                Seq<char>,
            >(record_told(list[i], c)),
        forall|i: int|
            0 <= i < list.len() ==> (first(jobs, current((#[trigger] list[i]).document.id))
                matches Some(j) && job_stands(j, list[i])),
    ensures
        lines_checked(records_in(bodies(c, list)).take(n), jobs, c.public_url) is Ok,
    decreases n,
{
    if n > 0 {
        lemma_lines_stand(c, list, jobs, n - 1);
        let records = records_in(bodies(c, list));
        assert(records.take(n).drop_last() =~= records.take(n - 1));
        let r = list[n - 1];
        assert(record_in(bodies(c, list)[n - 1]) == Ok::<ArtifactRecordView, Seq<char>>(
            record_told(r, c),
        ));
        lemma_line_told(c, list, n - 1);
    }
}

proof fn lemma_line_told(c: ConversionView, list: Seq<ReplacementView>, i: int)
    requires
        0 <= i < list.len(),
        replacement_lines(list, c.public_url, c.created_at) is Ok,
    ensures
        list[i].refusal is None,
        list[i].token_digest == list[i].grant_hash,
    decreases list.len(),
{
    if i < list.len() - 1 {
        lemma_line_told(c, list.drop_last(), i);
    }
}

/// An artifact that was written is finished, if each of its lines is read as it was
/// written and the jobs are still as they were.
pub proof fn written_artifacts_finish(
    c: ConversionView,
    list: Seq<ReplacementView>,
    jobs: Seq<CurrentJobView>,
)
    requires
        c.replacements == list.len(),
        forall|i: int|
            0 <= i < list.len() ==> record_in(#[trigger] bodies(c, list)[i]) == Ok::<
                ArtifactRecordView,
                Seq<char>,
            >(record_told(list[i], c)),
        forall|i: int|
            0 <= i < list.len() ==> (first(jobs, current((#[trigger] list[i]).document.id))
                matches Some(j) && job_stands(j, list[i])),
    ensures
        artifact_text(c, list) matches Ok(text) ==> sealed(c, text) matches Ok(done) ==> finished(
            prefix_hash(encode_utf8(text), done.bytes),
            records_in(record_lines(text)),
            done,
            jobs,
        ) == Ok::<Seq<char>, Seq<char>>(committed_text(done)),
{
    if let Ok(text) = artifact_text(c, list) {
        artifact_lines_read_back(c, list);
        lemma_lines_stand(c, list, jobs, list.len() as int);
        let records = records_in(bodies(c, list));
        assert(records.take(list.len() as int) =~= records);
    }
}

// ---------------------------------------------------------------- operations
fn rebirth(tenants: &mut Vec<TenantRow>, given: &Vec<(String, String)>)
    ensures
        final(tenants).deep_view() == reborn(old(tenants).deep_view(), given.deep_view()),
{
    let ghost all = given.deep_view();
    let each = |t: &TenantRow| -> (b: bool)
        ensures
            b == every_tenant()(t@),
    {
        true
    };
    let clear = |t: &TenantRow| -> (r: TenantRow)
        ensures
            r@ == born_as(Seq::empty())(t@),
    {
        let mut t = t.dup();
        t.incarnation = String::new();
        t
    };
    update_where(tenants, each, clear, Ghost(every_tenant()), Ghost(born_as(Seq::empty())));
    let mut i: usize = 0;
    assert(all.take(0) =~= Seq::<(Seq<char>, Seq<char>)>::empty());
    while i < given.len()
        invariant
            i <= given.len(),
            all == given.deep_view(),
            tenants.deep_view() == reborn(old(tenants).deep_view(), all.take(i as int)),
        decreases given.len() - i,
    {
        let key = given[i].0.as_str();
        let incarnation = given[i].1.as_str();
        let own = |t: &TenantRow| -> (b: bool)
            ensures
                b == tenant_is(key@)(t@),
        {
            same(t.key.as_str(), key)
        };
        let name = |t: &TenantRow| -> (r: TenantRow)
            ensures
                r@ == born_as(incarnation@)(t@),
        {
            let mut t = t.dup();
            t.incarnation = incarnation.to_owned();
            t
        };
        proof {
            assert(all.take(i + 1).drop_last() =~= all.take(i as int));
            assert(all.take(i + 1).last() == (key@, incarnation@));
        }
        update_where(
            tenants,
            own,
            name,
            Ghost(tenant_is(key@)),
            Ghost(born_as(incarnation@)),
        );
        i += 1;
    }
    assert(all.take(i as int) =~= all);
}

impl Store {
    /// Readies a copy's rows for the conversion of its jobs: `links` and `files` are
    /// as the copy held them, `incarnations` gives one for each tenant by its key.
    pub fn ready_conversion(
        &mut self,
        links: &Vec<SourceLink>,
        files: &Vec<SourceFile>,
        incarnations: &Vec<(String, String)>,
        issuer: &str,
    ) -> (r: Result<(), String>)
        ensures
            match readied(
                old(self)@,
                links.deep_view(),
                files.deep_view(),
                incarnations.deep_view(),
                issuer@,
            ) {
                Ok(ready) => r is Ok && final(self)@ == ready,
                Err(e) => final(self)@ == old(self)@ && outcome(r) == Err::<(), Seq<char>>(e),
            },
    {
        let pending = self.sessions.len() > 0 || self.session_files.len() > 0;
        if let Err(error) = admit_leftovers(false, pending) {
            return Err(error);
        }
        if let Err(error) = verify_events(&self.events, issuer) {
            return Err(error);
        }
        let mut next = self.dup();
        rebirth(&mut next.tenants, incarnations);
        if let Err(error) = next.normalize_uploads(links, files) {
            return Err(error);
        }
        match backfill_quota_usage(&next.files, &next.tenants) {
            Err(error) => Err(error),
            Ok(quotas) => {
                next.quotas = quotas;
                *self = next;
                Ok(())
            },
        }
    }

    /// Converts a copy's rows: readies them, rotates the links of `jobs` to their
    /// new tokens, and says what became of each. Nothing is changed if any of it is
    /// refused.
    pub fn convert<F: Fn(&str) -> String>(
        &mut self,
        links: &Vec<SourceLink>,
        files: &Vec<SourceFile>,
        incarnations: &Vec<(String, String)>,
        jobs: &Vec<SourceJob>,
        issuer: &str,
        now: u64,
        sign: &F,
    ) -> (r: Result<Vec<Rotation>, String>)
        requires
            forall|d: &str| sign.requires((d,)),
        ensures
            match readied(
                old(self)@,
                links.deep_view(),
                files.deep_view(),
                incarnations.deep_view(),
                issuer@,
            ) {
                Err(e) => final(self)@ == old(self)@ && outcome(r) == Err::<
                    Seq<RotationView>,
                    Seq<char>,
                >(e),
                Ok(ready) => exists|signatures: Seq<Seq<char>>|
                    follows(
                        #[trigger] completed(ready, jobs.deep_view(), issuer@, now, signatures),
                        old(self)@,
                        final(self)@,
                        r,
                    ) && forall|k: int|
                        0 <= k < jobs.len() ==> #[trigger] signed_at(
                            ready,
                            jobs.deep_view(),
                            issuer@,
                            now,
                            signatures,
                            k,
                            *sign,
                        ),
            },
    {
        let mut next = self.dup();
        if let Err(error) = next.ready_conversion(links, files, incarnations, issuer) {
            return Err(error);
        }
        let ghost ready = next@;
        let converted = next.convert_jobs(jobs, issuer, now, sign);
        let ghost signatures = choose|signatures: Seq<Seq<char>>|
            follows(
                #[trigger] jobs_converted(ready, jobs.deep_view(), issuer@, now, signatures),
                ready,
                next@,
                converted,
            ) && forall|k: int|
                0 <= k < jobs.len() ==> #[trigger] signed_at(
                    ready,
                    jobs.deep_view(),
                    issuer@,
                    now,
                    signatures,
                    k,
                    *sign,
                );
        let ghost result = completed(ready, jobs.deep_view(), issuer@, now, signatures);
        match converted {
            Err(error) => {
                assert(follows(result, old(self)@, self@, Err::<Vec<Rotation>, String>(error)));
                Err(error)
            },
            Ok(done) => match verify_events(&next.events, issuer) {
                Err(error) => {
                    assert(follows(result, old(self)@, self@, Err::<Vec<Rotation>, String>(error)));
                    Err(error)
                },
                Ok(_) => {
                    *self = next;
                    assert(follows(result, old(self)@, self@, Ok::<Vec<Rotation>, String>(done)));
                    Ok(done)
                },
            },
        }
    }
}

/// The artifact of a conversion before it is committed, and the conversion that
/// names it.
pub fn write_artifact(result: Conversion, list: &Vec<Replacement>) -> (r: Result<
    (String, Conversion),
    String,
>)
    ensures
        match artifact_text(result@, list.deep_view()) {
            Err(e) => r matches Err(error) && error@ == e,
            Ok(text) => match sealed(result@, text) {
                Err(e) => r matches Err(error) && error@ == e,
                Ok(done) => r matches Ok((t, c)) && t@ == text && c@ == done,
            },
        },
{
    let lines = match write_replacements(list, result.public_url.as_str(), result.created_at) {
        Ok(lines) => lines,
        Err(error) => return Err(error),
    };
    let text = result.prepared().concat("\n").concat(lines.as_str());
    let content = text.as_str().as_bytes();
    let bytes: u64 = content.len() as u64;
    match hash_prefix(content, bytes) {
        Err(error) => Err(error),
        Ok(sha256) => {
            let done = Conversion { bytes, sha256, ..result };
            Ok((text, done))
        },
    }
}

} // verus!
