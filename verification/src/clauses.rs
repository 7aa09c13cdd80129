//! Comparing the schemas of two databases: clause by clause, so that the order
//! of columns does not matter and anything unknown is refused.
use vstd::prelude::*;

use crate::records::{SchemaEntry, SchemaEntryView, SchemaObject, SchemaObjectView};
use crate::sql::{is_ascii_space, is_quote, normalize_schema_sql, normalized, position};
use crate::table::{
    any, append_row, dup_rows, find, first, outcome, rows_equal, sort_rows, sorted_by,
};
use crate::text::{
    ascii_fold, ascii_lower, ascii_lower_char, chars, is_white_space, lt, same, text_lt, text_of,
    text_order_is_total, text_order_is_transitive, white_space,
};

verus! {

// ------------------------------------------------------------ specifications
/// How far a definition has been taken apart.
pub struct Parts {
    pub done: Seq<Seq<char>>,
    pub clause: Seq<char>,
    /// How many brackets are open.
    pub depth: int,
    /// The quotation mark that is open.
    pub quote: Option<char>,
}

/// One character further: quoted text stands as it is, other text in lower case
/// without white space; a comma within the outer brackets of a table ends a
/// clause.
pub open spec fn part_step(p: Parts, c: char, of_table: bool) -> Parts {
    if p.quote is Some {
        Parts {
            clause: p.clause.push(c),
            quote: if p.quote == Some(c) {
                None
            } else {
                p.quote
            },
            ..p
        }
    } else if is_quote(c) {
        Parts { clause: p.clause.push(c), quote: Some(c), ..p }
    } else if c == '(' {
        Parts {
            depth: p.depth + 1,
            clause: if p.depth + 1 > 1 {
                p.clause.push(c)
            } else {
                p.clause
            },
            ..p
        }
    } else if c == ')' {
        Parts {
            depth: p.depth - 1,
            clause: if p.depth - 1 > 0 {
                p.clause.push(c)
            } else {
                p.clause
            },
            ..p
        }
    } else if c == ',' && p.depth == 1 && of_table {
        Parts { done: p.done.push(p.clause), clause: Seq::empty(), ..p }
    } else if !is_ascii_space(c) {
        Parts { clause: p.clause.push(ascii_lower(c)), ..p }
    } else {
        p
    }
}

/// A definition from its first bracket on, taken apart.
pub open spec fn parted(body: Seq<char>, of_table: bool) -> Parts
    decreases body.len(),
{
    if body.len() == 0 {
        Parts { done: Seq::empty(), clause: Seq::empty(), depth: 0, quote: None }
    } else {
        part_step(parted(body.drop_last(), of_table), body.last(), of_table)
    }
}

/// The clauses of a definition.
pub open spec fn clauses_of(body: Seq<char>, of_table: bool) -> Seq<Seq<char>> {
    let p = parted(body, of_table);
    p.done.push(p.clause)
}

/// Whether `s[i..j]` is a word of `s`: no white space in it, and nothing else
/// before or behind it.
pub open spec fn is_word(s: Seq<char>, i: int, j: int) -> bool {
    &&& 0 <= i < j <= s.len()
    &&& forall|k: int| i <= k < j ==> !white_space(#[trigger] s[k])
    &&& i > 0 ==> white_space(s[i - 1])
    &&& j < s.len() ==> white_space(s[j])
}

/// Whether a word occurs in a text, ASCII letters taken without case.
pub open spec fn has_word(s: Seq<char>, word: Seq<char>) -> bool {
    exists|i: int, j: int| #[trigger]
        is_word(s, i, j) && ascii_fold(s.subrange(i, j)) == word
}

/// What an index's table and uniqueness come down to.
pub open spec fn index_traits(table: Seq<char>, sql: Seq<char>) -> Seq<char> {
    "table="@ + table + ";unique="@ + if has_word(sql, "unique"@) {
        "true"@
    } else {
        "false"@
    }
}

/// By text.
pub open spec fn by_text() -> spec_fn(Seq<char>, Seq<char>) -> bool {
    |a: Seq<char>, b: Seq<char>| text_lt(a, b)
}

/// What an object comes down to, or why it is refused.
pub open spec fn entries_of(o: SchemaObjectView) -> Result<Seq<SchemaEntryView>, Seq<char>> {
    if o.kind == "trigger"@ {
        Ok(
            seq![
                SchemaEntryView { kind: o.kind, name: o.name, clauses: seq![normalized(o.sql)] },
            ],
        )
    } else if o.kind != "table"@ && o.kind != "index"@ {
        Err("unsupported schema object "@ + o.name)
    } else {
        match position(o.sql, seq!['('], 0) {
            None => Err("invalid schema definition"@),
            Some(i) => if o.kind == "table"@ {
                Ok(
                    seq![
                        SchemaEntryView {
                            kind: "columns"@,
                            name: o.name,
                            clauses: o.columns,
                        },
                        SchemaEntryView {
                            kind: o.kind,
                            name: o.name,
                            clauses: sorted_by(clauses_of(o.sql.skip(i), true), by_text()),
                        },
                    ],
                )
            } else {
                Ok(
                    seq![
                        SchemaEntryView {
                            kind: o.kind,
                            name: o.name,
                            clauses: clauses_of(o.sql.skip(i), false).push(
                                index_traits(o.table, o.sql),
                            ),
                        },
                    ],
                )
            },
        }
    }
}

/// What objects come down to, in their order, or why the first is refused that
/// is.
pub open spec fn all_entries(objects: Seq<SchemaObjectView>) -> Result<
    Seq<SchemaEntryView>,
    Seq<char>,
>
    decreases objects.len(),
{
    if objects.len() == 0 {
        Ok(Seq::empty())
    } else {
        match all_entries(objects.drop_last()) {
            Err(e) => Err(e),
            Ok(before) => match entries_of(objects.last()) {
                Err(e) => Err(e),
                Ok(more) => Ok(before + more),
            },
        }
    }
}

/// By kind and name.
pub open spec fn entry_before() -> spec_fn(SchemaEntryView, SchemaEntryView) -> bool {
    |a: SchemaEntryView, b: SchemaEntryView|
        text_lt(a.kind, b.kind) || (a.kind == b.kind && text_lt(a.name, b.name))
}

/// What a schema comes down to, by kind and name.
pub open spec fn schema_of(objects: Seq<SchemaObjectView>) -> Result<
    Seq<SchemaEntryView>,
    Seq<char>,
> {
    match all_entries(objects) {
        Ok(entries) => Ok(sorted_by(entries, entry_before())),
        Err(e) => Err(e),
    }
}

/// The entry under a kind and a name.
pub open spec fn entry_is(kind: Seq<char>, name: Seq<char>) -> spec_fn(SchemaEntryView) -> bool {
    |e: SchemaEntryView| e.kind == kind && e.name == name
}

/// What a schema holds under a kind and a name.
pub open spec fn held_in(entries: Seq<SchemaEntryView>, kind: Seq<char>, name: Seq<char>) -> Option<
    Seq<Seq<char>>,
> {
    match first(entries, entry_is(kind, name)) {
        Some(e) => Some(e.clauses),
        None => None,
    }
}

/// Whether two schemas differ at an entry's kind and name.
pub open spec fn differs(a: Seq<SchemaEntryView>, b: Seq<SchemaEntryView>) -> spec_fn(
    SchemaEntryView,
) -> bool {
    |e: SchemaEntryView| held_in(a, e.kind, e.name) != held_in(b, e.kind, e.name)
}

/// Whether two schemas are the same, or where they first differ.
pub open spec fn compared(actual: Seq<SchemaEntryView>, expected: Seq<SchemaEntryView>) -> Result<
    (),
    Seq<char>,
> {
    match first(actual + expected, differs(actual, expected)) {
        None => Ok(()),
        Some(e) => if e.kind == "trigger"@ {
            Err("unsupported schema object "@ + e.name)
        } else {
            Err("unsupported schema35/target definition for "@ + e.kind + " "@ + e.name)
        },
    }
}

/// Whether a database has the schema of another, or what is wrong.
pub open spec fn same_schema(actual: Seq<SchemaObjectView>, reference: Seq<SchemaObjectView>) -> Result<
    (),
    Seq<char>,
> {
    match schema_of(actual) {
        Err(e) => Err(e),
        Ok(a) => match schema_of(reference) {
            Err(e) => Err(e),
            Ok(b) => compared(a, b),
        },
    }
}

// ---------------------------------------------------------------------- laws
/// Schemas pass as the same only if each holds, under every kind and name, what
/// the other holds.
pub proof fn same_schemas_hold_the_same(
    actual: Seq<SchemaEntryView>,
    expected: Seq<SchemaEntryView>,
    kind: Seq<char>,
    name: Seq<char>,
)
    requires
        compared(actual, expected) is Ok,
    ensures
        held_in(actual, kind, name) == held_in(expected, kind, name),
{
    let all = actual + expected;
    let p = entry_is(kind, name);
    let d = differs(actual, expected);
    crate::table::lemma_first_found(all, d);
    crate::table::lemma_first_found(actual, p);
    crate::table::lemma_first_found(expected, p);
    if held_in(actual, kind, name) != held_in(expected, kind, name) {
        if first(actual, p) is Some {
            let i = choose|i: int| 0 <= i < actual.len() && p(#[trigger] actual[i]);
            assert(d(all[i]));
        } else {
            let i = choose|i: int| 0 <= i < expected.len() && p(#[trigger] expected[i]);
            assert(all[actual.len() + i] == expected[i]);
            assert(d(all[actual.len() + i]));
        }
    }
}

/// Text order, equal texts included.
pub open spec fn text_le() -> spec_fn(Seq<char>, Seq<char>) -> bool {
    |a: Seq<char>, b: Seq<char>| !text_lt(b, a)
}

proof fn lemma_text_le_is_total()
    ensures
        vstd::relations::total_ordering(text_le()),
{
    let le = text_le();
    assert forall|x: Seq<char>| #[trigger] le(x, x) by {
        text_order_is_total(x, x);
    }
    assert forall|x: Seq<char>, y: Seq<char>| #[trigger] le(x, y) && #[trigger] le(y, x) implies x
        == y by {
        text_order_is_total(x, y);
    }
    assert forall|x: Seq<char>, y: Seq<char>, z: Seq<char>| #[trigger]
        le(x, y) && #[trigger] le(y, z) implies le(x, z) by {
        lemma_text_le_joins(x, y, z);
    }
    assert forall|x: Seq<char>, y: Seq<char>| #[trigger] le(x, y) || #[trigger] le(y, x) by {
        text_order_is_total(x, y);
    }
}

proof fn lemma_text_le_joins(x: Seq<char>, y: Seq<char>, z: Seq<char>)
    requires
        !text_lt(y, x),
        !text_lt(z, y),
    ensures
        !text_lt(z, x),
{
    text_order_is_total(x, y);
    text_order_is_total(y, z);
    text_order_is_total(x, z);
    text_order_is_transitive(x, y, z);
    text_order_is_transitive(z, x, y);
}

proof fn lemma_sorted_texts(s: Seq<Seq<char>>)
    ensures
        vstd::relations::sorted_by(sorted_by(s, by_text()), text_le()),
{
    let r = sorted_by(s, by_text());
    assert forall|a: Seq<char>, b: Seq<char>| #[trigger] by_text()(a, b) implies !by_text()(
        b,
        a,
    ) by {
        text_order_is_total(a, b);
    }
    crate::table::lemma_sorted_ordered(s, by_text());
    assert forall|i: int, j: int| 0 <= i < j < r.len() implies #[trigger] text_le()(r[i], r[j]) by {
        lemma_neighbours(r, i, j);
    }
}

proof fn lemma_neighbours(r: Seq<Seq<char>>, i: int, j: int)
    requires
        0 <= i < j < r.len(),
        forall|k: int| 0 < k < r.len() ==> !by_text()(#[trigger] r[k], r[k - 1]),
    ensures
        !text_lt(r[j], r[i]),
    decreases j - i,
{
    assert(!by_text()(r[j], r[j - 1]));
    if i < j - 1 {
        lemma_neighbours(r, i, j - 1);
        lemma_text_le_joins(r[i], r[j - 1], r[j]);
    }
}

/// Tables are the same whatever the order in which their clauses were written.
pub proof fn clause_order_does_not_matter(a: Seq<Seq<char>>, b: Seq<Seq<char>>)
    requires
        a.to_multiset() == b.to_multiset(),
    ensures
        sorted_by(a, by_text()) == sorted_by(b, by_text()),
{
    lemma_text_le_is_total();
    lemma_sorted_texts(a);
    lemma_sorted_texts(b);
    crate::table::lemma_sorted_multiset(a, by_text());
    crate::table::lemma_sorted_multiset(b, by_text());
    vstd::seq_lib::lemma_sorted_unique(
        sorted_by(a, by_text()),
        sorted_by(b, by_text()),
        text_le(),
    );
}

/// A schema is the same as itself.
pub proof fn a_schema_is_its_own(objects: Seq<SchemaObjectView>)
    requires
        schema_of(objects) is Ok,
    ensures
        same_schema(objects, objects) == Ok::<(), Seq<char>>(()),
{
    let a = schema_of(objects)->Ok_0;
    crate::table::lemma_first_found(a + a, differs(a, a));
}

proof fn lemma_compared(a: Seq<SchemaEntryView>, b: Seq<SchemaEntryView>)
    ensures
        compared(a, b) is Ok <==> !any(a + b, differs(a, b)),
{
    crate::table::lemma_first_found(a + b, differs(a, b));
}

/// Whether two schemas pass as the same does not depend on which is held to which.
pub proof fn schemas_compare_both_ways(a: Seq<SchemaObjectView>, b: Seq<SchemaObjectView>)
    ensures
        same_schema(a, b) is Ok <==> same_schema(b, a) is Ok,
{
    if schema_of(a) is Ok && schema_of(b) is Ok {
        let x = schema_of(a)->Ok_0;
        let y = schema_of(b)->Ok_0;
        lemma_compared(x, y);
        lemma_compared(y, x);
        if any(x + y, differs(x, y)) {
            let i = choose|i: int| 0 <= i < (x + y).len() && differs(x, y)(#[trigger] (x + y)[i]);
            let k = if i < x.len() {
                y.len() + i
            } else {
                i - x.len()
            };
            assert((y + x)[k] == (x + y)[i]);
            assert(differs(y, x)((y + x)[k]));
        }
        if any(y + x, differs(y, x)) {
            let i = choose|i: int| 0 <= i < (y + x).len() && differs(y, x)(#[trigger] (y + x)[i]);
            let k = if i < y.len() {
                x.len() + i
            } else {
                i - y.len()
            };
            assert((x + y)[k] == (y + x)[i]);
            assert(differs(x, y)((x + y)[k]));
        }
    }
}

/// Whether no two objects have the same kind and name.
pub open spec fn objects_unique(objects: Seq<SchemaObjectView>) -> bool {
    forall|i: int, j: int|
        0 <= i < j < objects.len() ==> !((#[trigger] objects[i]).kind == (
        #[trigger] objects[j]).kind && objects[i].name == objects[j].name)
}

proof fn lemma_entry_origin(objects: Seq<SchemaObjectView>, e: SchemaEntryView) -> (r: (int, int))
    requires
        all_entries(objects) matches Ok(entries) && entries.contains(e),
    ensures
        0 <= r.0 < objects.len(),
        entries_of(objects[r.0]) matches Ok(own) && 0 <= r.1 < own.len() && own[r.1] == e,
    decreases objects.len(),
{
    let head = objects.drop_last();
    let before = all_entries(head)->Ok_0;
    let more = entries_of(objects.last())->Ok_0;
    let n = choose|n: int| 0 <= n < (before + more).len() && (before + more)[n] == e;
    if n < before.len() {
        assert(before[n] == e);
        assert(before.contains(e));
        let r = lemma_entry_origin(head, e);
        assert(head[r.0] == objects[r.0]);
        r
    } else {
        (objects.len() - 1, n - before.len())
    }
}

proof fn lemma_entry_there(objects: Seq<SchemaObjectView>, i: int, k: int)
    requires
        all_entries(objects) is Ok,
        0 <= i < objects.len(),
        entries_of(objects[i]) matches Ok(own) && 0 <= k < own.len(),
    ensures
        all_entries(objects)->Ok_0.contains(entries_of(objects[i])->Ok_0[k]),
    decreases objects.len(),
{
    let head = objects.drop_last();
    let before = all_entries(head)->Ok_0;
    let more = entries_of(objects.last())->Ok_0;
    let e = entries_of(objects[i])->Ok_0[k];
    if i < head.len() {
        assert(head[i] == objects[i]);
        lemma_entry_there(head, i, k);
        let n = choose|n: int| 0 <= n < before.len() && before[n] == e;
        assert((before + more)[n] == e);
    } else {
        assert((before + more)[before.len() + k] == e);
    }
}

/// What a schema holds under the kind and name of one of its objects' entries is that
/// entry's clauses.
proof fn lemma_held(objects: Seq<SchemaObjectView>, i: int, k: int)
    requires
        objects_unique(objects),
        schema_of(objects) is Ok,
        0 <= i < objects.len(),
        entries_of(objects[i]) matches Ok(own) && 0 <= k < own.len(),
    ensures
        ({
            let e = entries_of(objects[i])->Ok_0[k];
            held_in(schema_of(objects)->Ok_0, e.kind, e.name) == Some(e.clauses)
        }),
{
    reveal_strlit("columns");
    reveal_strlit("table");
    reveal_strlit("index");
    reveal_strlit("trigger");
    assert("columns"@[0] != "table"@[0]);
    assert("columns"@[0] != "index"@[0]);
    assert("columns"@[0] != "trigger"@[0]);
    let e = entries_of(objects[i])->Ok_0[k];
    let entries = all_entries(objects)->Ok_0;
    let sorted = schema_of(objects)->Ok_0;
    let p = entry_is(e.kind, e.name);
    lemma_entry_there(objects, i, k);
    crate::table::lemma_sorted_multiset(entries, entry_before());
    vstd::seq_lib::to_multiset_contains(entries, e);
    vstd::seq_lib::to_multiset_contains(sorted, e);
    assert(sorted.contains(e));
    let n = choose|n: int| 0 <= n < sorted.len() && sorted[n] == e;
    assert(p(sorted[n]));
    crate::table::lemma_first_found(sorted, p);
    let f = first(sorted, p)->0;
    assert(sorted.contains(f));
    vstd::seq_lib::to_multiset_contains(sorted, f);
    vstd::seq_lib::to_multiset_contains(entries, f);
    let r = lemma_entry_origin(objects, f);
    if r.0 < i {
        assert(!(objects[r.0].kind == objects[i].kind && objects[r.0].name == objects[i].name));
    } else if i < r.0 {
        assert(!(objects[i].kind == objects[r.0].kind && objects[i].name == objects[r.0].name));
    }
}

/// Of two schemas that pass as the same, each holds every object of the other with the
/// same clauses: nothing is missing, nothing is left over, and no definition differs.
pub proof fn every_object_is_matched(
    a: Seq<SchemaObjectView>,
    b: Seq<SchemaObjectView>,
    i: int,
    k: int,
)
    requires
        objects_unique(a),
        same_schema(a, b) is Ok,
        0 <= i < a.len(),
        entries_of(a[i]) matches Ok(own) && 0 <= k < own.len(),
    ensures
        ({
            let e = entries_of(a[i])->Ok_0[k];
            held_in(schema_of(b)->Ok_0, e.kind, e.name) == Some(e.clauses)
        }),
{
    let e = entries_of(a[i])->Ok_0[k];
    lemma_held(a, i, k);
    same_schemas_hold_the_same(schema_of(a)->Ok_0, schema_of(b)->Ok_0, e.kind, e.name);
}

/// A table with other columns, such as one of another declared type, is refused.
pub proof fn other_columns_are_refused(
    a: Seq<SchemaObjectView>,
    b: Seq<SchemaObjectView>,
    i: int,
    j: int,
)
    requires
        objects_unique(a),
        objects_unique(b),
        0 <= i < a.len(),
        0 <= j < b.len(),
        a[i].kind == "table"@,
        b[j].kind == "table"@,
        a[i].name == b[j].name,
        a[i].columns != b[j].columns,
    ensures
        same_schema(a, b) is Err,
{
    if same_schema(a, b) is Ok {
        lemma_refused_object(a, i);
        lemma_refused_object(b, j);
        lemma_table_entries(a[i]);
        lemma_table_entries(b[j]);
        every_object_is_matched(a, b, i, 0);
        lemma_held(b, j, 0);
    }
}

proof fn lemma_table_entries(o: SchemaObjectView)
    requires
        o.kind == "table"@,
        entries_of(o) is Ok,
    ensures
        entries_of(o)->Ok_0.len() == 2,
        entries_of(o)->Ok_0[0] == (SchemaEntryView {
            kind: "columns"@,
            name: o.name,
            clauses: o.columns,
        }),
{
    reveal_strlit("table");
    reveal_strlit("trigger");
    assert("table"@[1] != "trigger"@[1]);
}

proof fn lemma_refused_object(objects: Seq<SchemaObjectView>, i: int)
    requires
        all_entries(objects) is Ok,
        0 <= i < objects.len(),
    ensures
        entries_of(objects[i]) is Ok,
    decreases objects.len(),
{
    if i < objects.len() - 1 {
        lemma_refused_object(objects.drop_last(), i);
    }
}

/// An object that another schema has none of its kind and name for is refused, in
/// whichever of the two it stands.
pub proof fn an_extra_object_is_refused(
    a: Seq<SchemaObjectView>,
    b: Seq<SchemaObjectView>,
    i: int,
)
    requires
        objects_unique(a),
        0 <= i < a.len(),
        forall|j: int|
            0 <= j < b.len() ==> !((#[trigger] b[j]).kind == a[i].kind && b[j].name == a[i].name),
    ensures
        same_schema(a, b) is Err,
        same_schema(b, a) is Err,
{
    if same_schema(a, b) is Ok {
        reveal_strlit("columns");
        reveal_strlit("table");
        reveal_strlit("index");
        reveal_strlit("trigger");
        assert("columns"@[0] != "table"@[0]);
        assert("columns"@[0] != "index"@[0]);
        assert("columns"@[0] != "trigger"@[0]);
        lemma_refused_object(a, i);
        let k: int = entries_of(a[i])->Ok_0.len() - 1;
        let e = entries_of(a[i])->Ok_0[k];
        every_object_is_matched(a, b, i, k);
        let entries = all_entries(b)->Ok_0;
        let sorted = schema_of(b)->Ok_0;
        crate::table::lemma_first_found(sorted, entry_is(e.kind, e.name));
        let f = first(sorted, entry_is(e.kind, e.name))->0;
        crate::table::lemma_sorted_multiset(entries, entry_before());
        assert(sorted.contains(f));
        vstd::seq_lib::to_multiset_contains(sorted, f);
        vstd::seq_lib::to_multiset_contains(entries, f);
        let r = lemma_entry_origin(b, f);
        assert(b[r.0].kind == a[i].kind && b[r.0].name == a[i].name);
    }
    schemas_compare_both_ways(a, b);
}

proof fn lemma_entries_updated(objects: Seq<SchemaObjectView>, i: int, o: SchemaObjectView)
    requires
        0 <= i < objects.len(),
        entries_of(o) == entries_of(objects[i]),
    ensures
        all_entries(objects.update(i, o)) == all_entries(objects),
    decreases objects.len(),
{
    let other = objects.update(i, o);
    if i < objects.len() - 1 {
        lemma_entries_updated(objects.drop_last(), i, o);
        assert(other.drop_last() =~= objects.drop_last().update(i, o));
    } else {
        assert(other.drop_last() =~= objects.drop_last());
    }
}

/// A table whose clauses were written in another order passes as the same.
pub proof fn reordered_clauses_pass(objects: Seq<SchemaObjectView>, i: int, sql: Seq<char>)
    requires
        schema_of(objects) is Ok,
        0 <= i < objects.len(),
        objects[i].kind == "table"@,
        position(objects[i].sql, seq!['('], 0) is Some,
        position(sql, seq!['('], 0) is Some,
        clauses_of(
            objects[i].sql.skip(position(objects[i].sql, seq!['('], 0)->0),
            true,
        ).to_multiset() == clauses_of(
            sql.skip(position(sql, seq!['('], 0)->0),
            true,
        ).to_multiset(),
    ensures
        same_schema(objects, objects.update(i, SchemaObjectView { sql, ..objects[i] })) == Ok::<
            (),
            Seq<char>,
        >(()),
{
    reveal_strlit("table");
    reveal_strlit("trigger");
    assert("table"@[1] != "trigger"@[1]);
    let o = SchemaObjectView { sql, ..objects[i] };
    clause_order_does_not_matter(
        clauses_of(objects[i].sql.skip(position(objects[i].sql, seq!['('], 0)->0), true),
        clauses_of(sql.skip(position(sql, seq!['('], 0)->0), true),
    );
    lemma_entries_updated(objects, i, o);
    a_schema_is_its_own(objects);
}

// ---------------------------------------------------------------- operations
/// The clauses of a definition from its first bracket on.
pub fn split_clauses(body: &Vec<char>, of_table: bool) -> (r: Vec<String>)
    ensures
        r.deep_view() == clauses_of(body@, of_table),
{
    let mut done: Vec<String> = Vec::new();
    let mut clause: Vec<char> = Vec::new();
    let mut depth: i128 = 0;
    let mut quote: Option<char> = None;
    let mut i: usize = 0;
    proof {
        assert(body@.take(0) =~= Seq::<char>::empty());
        assert(done.deep_view() =~= Seq::empty());
        assert(clause@ =~= Seq::empty());
    }
    while i < body.len()
        invariant
            i <= body.len(),
            -i <= depth <= i,
            parted(body@.take(i as int), of_table) == (Parts {
                done: done.deep_view(),
                clause: clause@,
                depth: depth as int,
                quote,
            }),
        decreases body.len() - i,
    {
        let c: char = body[i];
        proof {
            assert(body@.take(i + 1).drop_last() =~= body@.take(i as int));
            assert(body@.take(i + 1).last() == c);
        }
        if let Some(open) = quote {
            clause.push(c);
            if c == open {
                quote = None;
            }
        } else if c == '\'' || c == '"' || c == '`' {
            quote = Some(c);
            clause.push(c);
        } else if c == '(' {
            depth = depth + 1;
            if depth > 1 {
                clause.push(c);
            }
        } else if c == ')' {
            depth = depth - 1;
            if depth > 0 {
                clause.push(c);
            }
        } else if c == ',' && depth == 1 && of_table {
            let ghost before = done.deep_view();
            let text = text_of(&clause, 0, clause.len());
            assert(clause@.subrange(0, clause.len() as int) =~= clause@);
            done.push(text);
            assert(done.deep_view() =~= before.push(clause@));
            clause = Vec::new();
            assert(clause@ =~= Seq::empty());
        } else if !(c == ' ' || c == '\t' || c == '\n' || c == '\x0c' || c == '\r') {
            clause.push(ascii_lower_char(c));
        }
        i += 1;
    }
    assert(body@.take(i as int) =~= body@);
    let ghost before = done.deep_view();
    let text = text_of(&clause, 0, clause.len());
    assert(clause@.subrange(0, clause.len() as int) =~= clause@);
    done.push(text);
    assert(done.deep_view() =~= before.push(clause@));
    done
}

fn word_end(s: &Vec<char>, from: usize) -> (end: usize)
    requires
        from < s.len(),
        !white_space(s@[from as int]),
    ensures
        from < end <= s.len(),
        forall|k: int| from <= k < end ==> !white_space(#[trigger] s@[k]),
        end < s.len() ==> white_space(s@[end as int]),
{
    let mut i: usize = from + 1;
    while i < s.len() && !is_white_space(s[i])
        invariant
            from < i <= s.len(),
            forall|k: int| from <= k < i ==> !white_space(#[trigger] s@[k]),
        ensures
            from < i <= s.len(),
            forall|k: int| from <= k < i ==> !white_space(#[trigger] s@[k]),
            i < s.len() ==> white_space(s@[i as int]),
        decreases s.len() - i,
    {
        i += 1;
    }
    i
}

/// Whether a word occurs in a text, ASCII letters taken without case.
pub fn mentions_word(text: &str, word: &str) -> (r: bool)
    ensures
        r == has_word(text@, word@),
{
    let s = chars(text);
    let mut i: usize = 0;
    while i < s.len()
        invariant
            i <= s.len(),
            s@ == text@,
            0 < i < s.len() ==> white_space(s@[i - 1]) || white_space(s@[i as int]),
            forall|a: int, b: int| #[trigger]
                is_word(s@, a, b) && a < i ==> ascii_fold(s@.subrange(a, b)) != word@,
        decreases s.len() - i,
    {
        if is_white_space(s[i]) {
            assert forall|a: int, b: int| #[trigger]
                is_word(s@, a, b) && a < i + 1 implies ascii_fold(s@.subrange(a, b)) != word@ by {
                if a == i {
                    assert(!white_space(s@[a]));
                }
            }
            i += 1;
        } else {
            let end: usize = word_end(&s, i);
            let mine = text_of(&s, i, end);
            let mine = crate::text::folded(mine.as_str());
            let mine = text_of(&mine, 0, mine.len());
            assert(mine@ =~= ascii_fold(s@.subrange(i as int, end as int)));
            assert(is_word(s@, i as int, end as int));
            if same(mine.as_str(), word) {
                return true;
            }
            assert forall|a: int, b: int| #[trigger]
                is_word(s@, a, b) && a < end implies ascii_fold(s@.subrange(a, b)) != word@ by {
                if a == i {
                    if b < end {
                        assert(!white_space(s@[b]));
                    } else if b > end {
                        assert(!white_space(s@[end as int]));
                    }
                } else if a > i {
                    assert(!white_space(s@[a - 1]));
                }
            }
            i = end;
        }
    }
    false
}

/// A definition from its first bracket on.
pub fn body_of(sql: &str) -> (r: Option<Vec<char>>)
    ensures
        match r {
            Some(body) => position(sql@, seq!['('], 0) matches Some(i) && body@ == sql@.skip(i),
            None => position(sql@, seq!['('], 0) is None,
        },
{
    let s = chars(sql);
    let mut i: usize = 0;
    while i < s.len()
        invariant
            i <= s.len(),
            s@ == sql@,
            position(sql@, seq!['('], 0) == position(sql@, seq!['('], i as int),
        decreases s.len() - i,
    {
        assert(s@.subrange(i as int, i + 1) =~= seq![s@[i as int]]);
        if s[i] == '(' {
            assert(crate::text::occurs_at(sql@, seq!['('], i as int));
            let mut body: Vec<char> = Vec::new();
            let mut k: usize = i;
            while k < s.len()
                invariant
                    i <= k <= s.len(),
                    body@ == s@.subrange(i as int, k as int),
                decreases s.len() - k,
            {
                body.push(s[k]);
                k += 1;
                assert(body@ =~= s@.subrange(i as int, k as int));
            }
            assert(body@ =~= sql@.skip(i as int));
            return Some(body);
        }
        assert(seq![s@[i as int]][0] != seq!['('][0]);
        assert(!crate::text::occurs_at(sql@, seq!['('], i as int));
        i += 1;
    }
    None
}

/// What an object comes down to, or why it is refused.
pub fn schema_entries(o: &SchemaObject) -> (r: Result<Vec<SchemaEntry>, String>)
    ensures
        outcome(r) == entries_of(o@),
{
    let mut entries: Vec<SchemaEntry> = Vec::new();
    if same(o.kind.as_str(), "trigger") {
        let mut clauses: Vec<String> = Vec::new();
        clauses.push(normalize_schema_sql(o.sql.as_str()));
        assert(clauses.deep_view() =~= seq![normalized(o.sql@)]);
        entries.push(SchemaEntry { kind: o.kind.clone(), name: o.name.clone(), clauses });
        assert(entries.deep_view() =~= entries_of(o@)->Ok_0);
        return Ok(entries);
    }
    let of_table = same(o.kind.as_str(), "table");
    if !of_table && !same(o.kind.as_str(), "index") {
        return Err("unsupported schema object ".to_owned().concat(o.name.as_str()));
    }
    let body = match body_of(o.sql.as_str()) {
        Some(body) => body,
        None => return Err("invalid schema definition".to_owned()),
    };
    let mut clauses = split_clauses(&body, of_table);
    if of_table {
        let before = |a: &String, b: &String| -> (r: bool)
            ensures
                r == by_text()(a@, b@),
        {
            lt(a.as_str(), b.as_str())
        };
        let clauses = sort_rows(clauses, before, Ghost(by_text()));
        entries.push(
            SchemaEntry {
                kind: "columns".to_owned(),
                name: o.name.clone(),
                clauses: dup_rows(&o.columns),
            },
        );
        entries.push(SchemaEntry { kind: o.kind.clone(), name: o.name.clone(), clauses });
        assert(entries.deep_view() =~= entries_of(o@)->Ok_0);
        return Ok(entries);
    }
    let traits = "table=".to_owned().concat(o.table.as_str()).concat(";unique=");
    let traits = if mentions_word(o.sql.as_str(), "unique") {
        traits.concat("true")
    } else {
        traits.concat("false")
    };
    append_row(&mut clauses, traits);
    entries.push(SchemaEntry { kind: o.kind.clone(), name: o.name.clone(), clauses });
    assert(entries.deep_view() =~= entries_of(o@)->Ok_0);
    Ok(entries)
}

proof fn lemma_entries_refused(objects: Seq<SchemaObjectView>, n: int)
    requires
        0 <= n <= objects.len(),
        all_entries(objects.take(n)) is Err,
    ensures
        all_entries(objects) == all_entries(objects.take(n)),
    decreases objects.len() - n,
{
    if n < objects.len() {
        assert(objects.take(n + 1).drop_last() =~= objects.take(n));
        lemma_entries_refused(objects, n + 1);
    } else {
        assert(objects.take(n) =~= objects);
    }
}

/// What a schema comes down to, by kind and name.
pub fn schema(objects: &Vec<SchemaObject>) -> (r: Result<Vec<SchemaEntry>, String>)
    ensures
        outcome(r) == schema_of(objects.deep_view()),
{
    let ghost all = objects.deep_view();
    let mut entries: Vec<SchemaEntry> = Vec::new();
    let mut i: usize = 0;
    proof {
        assert(all.take(0) =~= Seq::<SchemaObjectView>::empty());
        assert(entries.deep_view() =~= Seq::<SchemaEntryView>::empty());
    }
    while i < objects.len()
        invariant
            i <= objects.len(),
            all == objects.deep_view(),
            all_entries(all.take(i as int)) == Ok::<Seq<SchemaEntryView>, Seq<char>>(
                entries.deep_view(),
            ),
        decreases objects.len() - i,
    {
        proof {
            assert(all.take(i + 1).drop_last() =~= all.take(i as int));
            assert(all.take(i + 1).last() == all[i as int]);
        }
        match schema_entries(&objects[i]) {
            Ok(more) => {
                crate::table::append_rows(&mut entries, &more);
            },
            Err(error) => {
                proof {
                    lemma_entries_refused(all, i + 1);
                }
                return Err(error);
            },
        }
        i += 1;
    }
    assert(all.take(i as int) =~= all);
    let before = |a: &SchemaEntry, b: &SchemaEntry| -> (r: bool)
        ensures
            r == entry_before()(a@, b@),
    {
        lt(a.kind.as_str(), b.kind.as_str()) || (same(a.kind.as_str(), b.kind.as_str()) && lt(
            a.name.as_str(),
            b.name.as_str(),
        ))
    };
    Ok(sort_rows(entries, before, Ghost(entry_before())))
}

fn find_entry(entries: &Vec<SchemaEntry>, kind: &str, name: &str) -> (r: Option<Vec<String>>)
    ensures
        r.deep_view() == held_in(entries.deep_view(), kind@, name@),
{
    let hit = |e: &SchemaEntry| -> (b: bool)
        ensures
            b == entry_is(kind@, name@)(e@),
    {
        same(e.kind.as_str(), kind) && same(e.name.as_str(), name)
    };
    match find(entries, hit, Ghost(entry_is(kind@, name@))) {
        Some(found) => Some(dup_rows(&entries[found].clauses)),
        None => None,
    }
}

fn same_clauses(a: &Option<Vec<String>>, b: &Option<Vec<String>>) -> (r: bool)
    ensures
        r == (a.deep_view() == b.deep_view()),
{
    let equal = |x: &String, y: &String| -> (r: bool)
        ensures
            r == (x.deep_view() == y.deep_view()),
    {
        same(x.as_str(), y.as_str())
    };
    match (a, b) {
        (Some(a), Some(b)) => rows_equal(a, b, equal),
        (None, None) => true,
        _ => false,
    }
}

/// Whether a database has the schema of another, or what is wrong.
pub fn check_schema(actual: &Vec<SchemaObject>, reference: &Vec<SchemaObject>) -> (r: Result<
    (),
    String,
>)
    ensures
        outcome(r) == same_schema(actual.deep_view(), reference.deep_view()),
{
    let actual = match schema(actual) {
        Ok(actual) => actual,
        Err(error) => return Err(error),
    };
    let expected = match schema(reference) {
        Ok(expected) => expected,
        Err(error) => return Err(error),
    };
    let mut all = dup_rows(&actual);
    crate::table::append_rows(&mut all, &expected);
    let a = &actual;
    let b = &expected;
    let hit = |e: &SchemaEntry| -> (r: bool)
        ensures
            r == differs(a.deep_view(), b.deep_view())(e@),
    {
        let x = find_entry(a, e.kind.as_str(), e.name.as_str());
        let y = find_entry(b, e.kind.as_str(), e.name.as_str());
        !same_clauses(&x, &y)
    };
    match find(&all, hit, Ghost(differs(a.deep_view(), b.deep_view()))) {
        None => Ok(()),
        Some(found) => {
            let e = &all[found];
            if same(e.kind.as_str(), "trigger") {
                Err("unsupported schema object ".to_owned().concat(e.name.as_str()))
            } else {
                let start = "unsupported schema35/target definition for ".to_owned();
                Err(start.concat(e.kind.as_str()).concat(" ").concat(e.name.as_str()))
            }
        },
    }
}

} // verus!
