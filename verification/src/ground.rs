//! What everything else stands on: the order of texts, trimming and folding, splitting and
//! replacing, clamped numbers, what a link's times mean, and what is done about a database.
use vstd::prelude::*;

use crate::clauses::{Parts, part_step};
use crate::columns::{column, natural, optional, optional_column};
use crate::decimal::{decimal, decimal_round_trip, parsed};
use crate::quota::{live_in, quota_is};
use crate::records::Link;
use crate::rows::{FileRowView, QuotaRowView};
use crate::schema::{
    QuotaSchema, SchemaPlan, file_planned, identity_definition, planned, quotas_checked,
    schema_checked, session_definition, table_definition, trigger_definition,
};
use crate::selection::lemma_found;
use crate::settings::{kept_text, key_and_value};
use crate::sql::{pieces, pieces_from, position, replaced, replaced_from};
use crate::store::StoreView;
use crate::table::{any, first};
use crate::text::{
    ascii_fold, ascii_lower, contains, occurs_at, text_lt, trimmed, trimmed_back, trimmed_front,
    white_space,
};
use crate::usage::{aggregate, rebuilt, replaced_by, stored_files};

verus! {

// ----------------------------------------------------------------------- texts
/// Whether two texts agree up to a place.
pub open spec fn agree(a: Seq<char>, b: Seq<char>, k: int) -> bool {
    0 <= k <= a.len() && k <= b.len() && forall|i: int| 0 <= i < k ==> a[i] == #[trigger] b[i]
}

/// One text comes before another exactly if it is the other's beginning, or has the lower
/// character at the first place where they differ.
pub proof fn texts_are_ordered_by_their_first_difference(a: Seq<char>, b: Seq<char>, k: int)
    requires
        agree(a, b, k),
    ensures
        k == a.len() ==> (text_lt(a, b) <==> a.len() < b.len()),
        k == b.len() ==> !text_lt(a, b),
        k < a.len() && k < b.len() && a[k] != b[k] ==> (text_lt(a, b) <==> a[k] < b[k]),
    decreases k,
{
    if k > 0 {
        let x = a.skip(1);
        let y = b.skip(1);
        assert(a[0] == b[0]);
        assert forall|i: int| 0 <= i < k - 1 implies x[i] == #[trigger] y[i] by {
            assert(a[i + 1] == b[i + 1]);
        }
        texts_are_ordered_by_their_first_difference(x, y, k - 1);
    }
}

/// A trimmed text is what is left between white space: it neither begins nor ends with any,
/// and nothing else was taken off.
pub proof fn trimming_takes_white_space_off(s: Seq<char>) -> (ends: (int, int))
    ensures
        0 <= ends.0 <= ends.1 <= s.len(),
        trimmed(s) == s.subrange(ends.0, ends.1),
        forall|i: int| 0 <= i < ends.0 || ends.1 <= i < s.len() ==> white_space(#[trigger] s[i]),
        trimmed(s).len() > 0 ==> !white_space(trimmed(s)[0]) && !white_space(trimmed(s).last()),
{
    let from = lemma_front(s);
    let rest = trimmed_front(s);
    let to = lemma_back(rest);
    assert(rest.take(to) =~= s.subrange(from, from + to));
    assert forall|i: int| 0 <= i < from || from + to <= i < s.len() implies white_space(
        #[trigger] s[i],
    ) by {
        if i >= from {
            assert(rest[i - from] == s[i]);
        }
    }
    if to > 0 {
        assert(rest.take(to)[0] == rest[0]);
    }
    (from, from + to)
}

proof fn lemma_front(s: Seq<char>) -> (from: int)
    ensures
        0 <= from <= s.len(),
        trimmed_front(s) == s.skip(from),
        forall|i: int| 0 <= i < from ==> white_space(#[trigger] s[i]),
        trimmed_front(s).len() > 0 ==> !white_space(trimmed_front(s)[0]),
    decreases s.len(),
{
    if s.len() > 0 && white_space(s[0]) {
        let rest = s.skip(1);
        let from = lemma_front(rest);
        assert(rest.skip(from) =~= s.skip(from + 1));
        assert forall|i: int| 0 <= i < from + 1 implies white_space(#[trigger] s[i]) by {
            if i > 0 {
                assert(rest[i - 1] == s[i]);
            }
        }
        from + 1
    } else {
        assert(s.skip(0) =~= s);
        0
    }
}

proof fn lemma_back(s: Seq<char>) -> (to: int)
    ensures
        0 <= to <= s.len(),
        trimmed_back(s) == s.take(to),
        forall|i: int| to <= i < s.len() ==> white_space(#[trigger] s[i]),
        to > 0 ==> !white_space(s[to - 1]),
    decreases s.len(),
{
    if s.len() > 0 && white_space(s.last()) {
        let rest = s.drop_last();
        let to = lemma_back(rest);
        assert(rest.take(to) =~= s.take(to));
        assert forall|i: int| to <= i < s.len() implies white_space(#[trigger] s[i]) by {
            if i < rest.len() {
                assert(rest[i] == s[i]);
            }
        }
        to
    } else {
        assert(s.take(s.len() as int) =~= s);
        s.len() as int
    }
}

/// Folding changes upper case ASCII letters into their lower case and nothing else; a folded
/// text stays as it is.
pub proof fn folding_changes_upper_case_letters(s: Seq<char>)
    ensures
        ascii_fold(s).len() == s.len(),
        ascii_fold(ascii_fold(s)) == ascii_fold(s),
        forall|i: int|
            0 <= i < s.len() ==> {
                let c = #[trigger] s[i];
                let f = ascii_fold(s)[i];
                &&& 'A' <= c && c <= 'Z' ==> f as int == c as int + 32 && 'a' <= f && f <= 'z'
                &&& !('A' <= c && c <= 'Z') ==> f == c
            },
{
    assert forall|i: int| 0 <= i < s.len() implies {
        let c = #[trigger] s[i];
        let f = ascii_fold(s)[i];
        &&& 'A' <= c && c <= 'Z' ==> f as int == c as int + 32 && 'a' <= f && f <= 'z'
        &&& !('A' <= c && c <= 'Z') ==> f == c
    } by {
        lemma_lower(s[i]);
    }
    assert(ascii_fold(ascii_fold(s)) =~= ascii_fold(s)) by {
        assert forall|i: int| 0 <= i < s.len() implies ascii_fold(ascii_fold(s))[i] == ascii_fold(
            s,
        )[i] by {
            lemma_lower(s[i]);
        }
    }
}

proof fn lemma_lower(c: char)
    ensures
        'A' <= c && c <= 'Z' ==> ascii_lower(c) as int == c as int + 32 && 'a' <= ascii_lower(c)
            && ascii_lower(c) <= 'z',
        !('A' <= c && c <= 'Z') ==> ascii_lower(c) == c,
{
}

// -------------------------------------------------------------------- splitting
/// Texts with another between them.
pub open spec fn joined_by(parts: Seq<Seq<char>>, between: Seq<char>) -> Seq<char>
    decreases parts.len(),
{
    if parts.len() == 0 {
        Seq::empty()
    } else if parts.len() == 1 {
        parts[0]
    } else {
        parts[0] + between + joined_by(parts.skip(1), between)
    }
}

/// The first place of a mark from another place on is one where it stands, and it stands at
/// none before it.
pub proof fn marks_are_found_where_they_stand_first(s: Seq<char>, mark: Seq<char>, from: int)
    requires
        0 <= from,
    ensures
        match position(s, mark, from) {
            Some(i) => from <= i && occurs_at(s, mark, i) && forall|j: int|
                from <= j < i ==> !#[trigger] occurs_at(s, mark, j),
            None => forall|j: int| from <= j ==> !#[trigger] occurs_at(s, mark, j),
        },
    decreases s.len() - from + 1,
{
    if from + mark.len() > s.len() {
    } else if occurs_at(s, mark, from) {
    } else {
        marks_are_found_where_they_stand_first(s, mark, from + 1);
    }
}

proof fn lemma_split(s: Seq<char>, mark: Seq<char>, with: Seq<char>, from: int)
    requires
        mark.len() > 0,
        0 <= from <= s.len(),
    ensures
        pieces_from(s, mark, from).len() > 0,
        joined_by(pieces_from(s, mark, from), mark) == s.skip(from),
        joined_by(pieces_from(s, mark, from), with) == replaced_from(s, mark, with, from),
        forall|i: int|
            0 <= i < pieces_from(s, mark, from).len() ==> !contains(
                #[trigger] pieces_from(s, mark, from)[i],
                mark,
            ),
    decreases s.len() - from,
{
    marks_are_found_where_they_stand_first(s, mark, from);
    let parts = pieces_from(s, mark, from);
    match position(s, mark, from) {
        None => {
            assert(!contains(s.skip(from), mark)) by {
                if contains(s.skip(from), mark) {
                    let at = choose|at: int| #[trigger] occurs_at(s.skip(from), mark, at);
                    assert(s.skip(from).subrange(at, at + mark.len()) =~= s.subrange(
                        from + at,
                        from + at + mark.len(),
                    ));
                    assert(occurs_at(s, mark, from + at));
                }
            }
        },
        Some(i) => {
            let next = i + mark.len();
            let head = s.subrange(from, i);
            lemma_split(s, mark, with, next);
            let rest = pieces_from(s, mark, next);
            assert(parts == seq![head] + rest);
            assert(parts.skip(1) =~= rest);
            assert(head + mark + s.skip(next) =~= s.skip(from)) by {
                assert(s.subrange(i, next) == mark);
                assert forall|k: int| 0 <= k < s.len() - from implies (head + mark + s.skip(
                    next,
                ))[k] == s.skip(from)[k] by {
                    if i <= from + k < next {
                        assert(s.subrange(i, next)[from + k - i] == s[from + k]);
                    }
                }
            }
            assert(!contains(head, mark)) by {
                if contains(head, mark) {
                    let at = choose|at: int| #[trigger] occurs_at(head, mark, at);
                    assert(head.subrange(at, at + mark.len()) =~= s.subrange(
                        from + at,
                        from + at + mark.len(),
                    ));
                    assert(occurs_at(s, mark, from + at));
                }
            }
            assert forall|k: int| 0 <= k < parts.len() implies !contains(
                #[trigger] parts[k],
                mark,
            ) by {
                if k > 0 {
                    assert(parts[k] == rest[k - 1]);
                }
            }
        },
    }
}

/// The parts of a text hold no mark, and with the mark between them they are the text again;
/// with another text between them they are the text with each mark replaced.
pub proof fn parts_are_joined_again(s: Seq<char>, mark: Seq<char>, with: Seq<char>)
    requires
        mark.len() > 0,
    ensures
        joined_by(pieces(s, mark), mark) == s,
        joined_by(pieces(s, mark), with) == replaced(s, mark, with),
        forall|i: int|
            0 <= i < pieces(s, mark).len() ==> !contains(#[trigger] pieces(s, mark)[i], mark),
        !contains(s, mark) ==> replaced(s, mark, with) == s,
        replaced(s, mark, mark) == s,
{
    lemma_split(s, mark, with, 0);
    lemma_split(s, mark, mark, 0);
    assert(s.skip(0) =~= s);
    marks_are_found_where_they_stand_first(s, mark, 0);
}

/// A character in quotes is kept as it is and neither opens a bracket nor ends a clause; out of
/// quotes a comma ends a clause only within the outer brackets of a table, and white space is
/// passed over.
pub proof fn clauses_end_at_outer_commas(p: Parts, c: char, of_table: bool)
    ensures
        part_step(p, c, of_table).done.len() == p.done.len() + 1 <==> c == ',' && p.quote is None
            && p.depth == 1 && of_table,
        !(c == ',' && p.quote is None && p.depth == 1 && of_table) ==> part_step(p, c, of_table).done
            == p.done,
        p.quote is Some ==> part_step(p, c, of_table).clause == p.clause.push(c) && part_step(
            p,
            c,
            of_table,
        ).depth == p.depth,
        p.quote is None && c == '(' ==> part_step(p, c, of_table).depth == p.depth + 1,
        p.quote is None && c == ')' ==> part_step(p, c, of_table).depth == p.depth - 1,
        p.quote is None && (c == ' ' || c == '\n' || c == '\t') ==> part_step(p, c, of_table) == p,
{
}

// ---------------------------------------------------------------------- numbers
/// A number is kept in a column as far as it fits, and the greatest that fits beyond that;
/// what is kept never falls when the number grows.
pub proof fn columns_keep_what_fits(a: u64, b: u64)
    ensures
        a <= i64::MAX ==> natural(column(a)) == a && column(a) == a,
        a > i64::MAX ==> column(a) == i64::MAX,
        a <= b ==> column(a) <= column(b),
        a <= i64::MAX ==> optional(optional_column(Some(a))) == Some(a),
        optional(optional_column(None)) == None::<u64>,
{
}

// ------------------------------------------------------------------------ links
/// A link takes uploads while it is active and has not expired: once it does not, it does not
/// later either, and without an expiry time does not matter.
pub proof fn links_take_uploads_until_they_expire(l: Link, early: u64, late: u64)
    requires
        early <= late,
    ensures
        l.usable(late) ==> l.usable(early),
        !l.active ==> !l.usable(early),
        l.active && l.expires_at is None ==> l.usable(early),
        l.active ==> (l.expires_at matches Some(at) ==> l.usable(early) == (early < at)),
{
}

// --------------------------------------------------------------------- settings
/// A text is kept without the white space around it, and not at all where that is all of it.
pub proof fn blank_texts_are_not_kept(value: Option<Seq<char>>)
    ensures
        kept_text(value) is Some <==> value is Some && trimmed(value->0).len() > 0,
        kept_text(value) matches Some(t) ==> t == trimmed(value->0),
{
}

/// The settings that are told are all there are, each under its key.
pub open spec fn settings_told(s: StoreView) -> Seq<(Seq<char>, Seq<char>)> {
    s.settings.map_values(key_and_value())
}

/// The settings that are told are all there are, each under its key and with its value.
pub proof fn settings_are_told(s: StoreView)
    ensures
        settings_told(s).len() == s.settings.len(),
        forall|i: int|
            0 <= i < s.settings.len() ==> #[trigger] settings_told(s)[i] == (
                s.settings[i].key,
                s.settings[i].value,
            ),
{
}

// ----------------------------------------------------------------------- quotas
/// A tenant that is counted anew has the aggregate of its stored files, and how many they are
/// is told; no other tenant's aggregate changes.
pub proof fn counting_anew_changes_one_aggregate(
    quotas: Seq<QuotaRowView>,
    files: Seq<FileRowView>,
    tenant: Seq<char>,
    other: Seq<char>,
)
    ensures
        rebuilt(quotas, files, tenant) is Err <==> stored_files(files, live_in(tenant)) is Err,
        rebuilt(quotas, files, tenant) matches Ok((after, n)) ==> {
            let leading = stored_files(files, live_in(tenant))->Ok_0;
            &&& leading.len() <= u64::MAX ==> n == leading.len()
            &&& first(after, quota_is(tenant)) == Some(aggregate(tenant, leading))
            &&& other != tenant ==> first(after, quota_is(other)) == first(quotas, quota_is(other))
        },
{
    if let Ok((after, n)) = rebuilt(quotas, files, tenant) {
        let leading = stored_files(files, live_in(tenant))->Ok_0;
        let row = aggregate(tenant, leading);
        crate::readback::lemma_first_put(quotas, quota_is(tenant), replaced_by(row), row);
        if other != tenant {
            if any(quotas, quota_is(tenant)) {
                crate::alerts::lemma_other_first(
                    quotas,
                    quota_is(tenant),
                    replaced_by(row),
                    quota_is(other),
                );
            } else {
                crate::alerts::lemma_push_first(quotas, row, quota_is(other));
            }
        }
    }
}

// ----------------------------------------------------------------------- schema
/// The state of an older release is refused whatever else is there; a database's file is used
/// where it is, and created where it is not, unless a standby is to be promoted to it.
pub proof fn files_are_planned(legacy: bool, promotion: bool, there: bool)
    ensures
        legacy ==> file_planned(legacy, promotion, there) is Err,
        !legacy && there ==> (file_planned(legacy, promotion, there) matches Ok(p) && p is UseFile),
        !legacy && !there && promotion ==> file_planned(legacy, promotion, there) is Err,
        !legacy && !there && !promotion ==> (file_planned(legacy, promotion, there) matches Ok(p)
            && p is CreateFile),
{
}

/// An empty database is created; the versions from 41 to 43 are brought up, with share tokens
/// for the first of them and aggregates for the first two; any other version is checked, and
/// what is no version is refused.
pub proof fn databases_are_planned(version: u64, text: Seq<char>)
    ensures
        forall|v: Result<Seq<char>, Seq<char>>| (#[trigger] planned(true, v)) matches Ok(p) && p
            is Create,
        41 <= version <= 43 ==> (planned(
            false,
            Ok::<Seq<char>, Seq<char>>(decimal(version as nat)),
        ) matches Ok(SchemaPlan::Upgrade(u)) && u.stored == version && (u.share_tokens <==> version
            == 41) && (u.quotas <==> version < 43)),
        !(41 <= version <= 43) ==> (planned(
            false,
            Ok::<Seq<char>, Seq<char>>(decimal(version as nat)),
        ) matches Ok(p) && p is Check),
        parsed(text, u64::MAX as int) is None ==> planned(false, Ok::<Seq<char>, Seq<char>>(text))
            is Err,
{
    decimal_round_trip(version as nat, u64::MAX as int);
}

/// A database is one of a version exactly if it says so, has the reserved layout, and, from
/// version 43 on, keeps its aggregates as they should be.
pub proof fn databases_are_checked(
    version: Result<Option<Seq<char>>, Seq<char>>,
    layout: Result<Option<Seq<char>>, Seq<char>>,
    expected: u64,
    q: QuotaSchema,
)
    ensures
        schema_checked(version, layout, expected, q) is Ok <==> {
            &&& version matches Ok(Some(text)) && parsed(text, u64::MAX as int) == Some(
                expected as int,
            )
            &&& layout == Ok::<Option<Seq<char>>, Seq<char>>(Some("reserved-v1"@))
            &&& expected >= 43 ==> quotas_checked(q) is Ok
        },
{
}

/// Whether a definition is there and says the same as another but for how it is written.
pub open spec fn says(actual: Option<String>, expected: Option<Seq<char>>) -> bool {
    actual is Some && expected is Some && crate::sql::normalized(actual->0@)
        == crate::sql::normalized(expected->0)
}

/// Aggregates are kept as they should be exactly if the table, its columns, its indexes and
/// its triggers are there and each says what it should.
pub proof fn aggregates_are_checked(q: QuotaSchema)
    ensures
        quotas_checked(q) is Ok <==> {
            &&& q.columns.deep_view().contains("tenant"@) && q.columns.deep_view().contains(
                "bytes_hi"@,
            ) && q.columns.deep_view().contains("bytes_lo"@) && q.columns.deep_view().contains(
                "state"@,
            )
            &&& says(q.table, table_definition())
            &&& says(q.identity_index, identity_definition())
            &&& says(q.session_index, session_definition())
            &&& says(q.insert_trigger, Some(trigger_definition("tenant_quota_usage_insert"@)))
            &&& says(q.delete_trigger, Some(trigger_definition("tenant_quota_usage_delete"@)))
            &&& says(q.update_trigger, Some(trigger_definition("tenant_quota_usage_update"@)))
        },
{
    let columns = q.columns.deep_view();
    let wanted = seq!["tenant"@, "bytes_hi"@, "bytes_lo"@, "state"@];
    let p = |c: Seq<char>| !columns.contains(c);
    lemma_found(wanted, p);
    assert(wanted[0] == "tenant"@ && wanted[1] == "bytes_hi"@ && wanted[2] == "bytes_lo"@
        && wanted[3] == "state"@);
    assert(wanted.contains(wanted[0]) && wanted.contains(wanted[1]) && wanted.contains(wanted[2])
        && wanted.contains(wanted[3]));
    if first(wanted, p) is Some {
        let c = first(wanted, p)->0;
        let i = choose|i: int| 0 <= i < wanted.len() && wanted[i] == c;
        assert(i == 0 || i == 1 || i == 2 || i == 3);
    }
}

} // verus!
