//! What selections, orders and pages of rows hold.
use vstd::prelude::*;

use crate::isolation::{lemma_as_many, lemma_items};
use crate::paging::lemma_filter_contains;
use crate::table::{
    any, first, lemma_first_found, lemma_sorted_multiset, page, sorted_by, try_map, updated,
};

verus! {

/// A selection holds the rows that satisfy its condition.
pub proof fn lemma_selected<V>(s: Seq<V>, p: spec_fn(V) -> bool)
    ensures
        forall|x: V| #[trigger] s.filter(p).contains(x) <==> s.contains(x) && p(x),
        s.filter(p).len() <= s.len(),
{
    assert forall|x: V| #[trigger] s.filter(p).contains(x) <==> s.contains(x) && p(x) by {
        lemma_filter_contains(s, p, x);
    }
    crate::table::lemma_filter_len(s, p);
}

/// An order holds the rows that are ordered.
pub proof fn lemma_ordered<V>(s: Seq<V>, before: spec_fn(V, V) -> bool)
    ensures
        forall|x: V| #[trigger] sorted_by(s, before).contains(x) <==> s.contains(x),
        sorted_by(s, before).len() == s.len(),
{
    lemma_sorted_multiset(s, before);
    assert forall|x: V| #[trigger] sorted_by(s, before).contains(x) <==> s.contains(x) by {
        vstd::seq_lib::to_multiset_contains(sorted_by(s, before), x);
        vstd::seq_lib::to_multiset_contains(s, x);
    }
}

/// A page holds rows of its table, all of them where they fit.
pub proof fn lemma_paged<V>(s: Seq<V>, offset: int, limit: int)
    requires
        0 <= offset,
        0 <= limit,
    ensures
        forall|x: V| #[trigger] page(s, offset, limit).contains(x) ==> s.contains(x),
        page(s, offset, limit).len() <= limit,
        offset == 0 && s.len() <= limit ==> page(s, offset, limit) == s,
        page(s, offset, limit).len() == if offset >= s.len() {
            0
        } else if limit >= s.len() - offset {
            s.len() - offset
        } else {
            limit
        },
        forall|i: int|
            0 <= i < page(s, offset, limit).len() ==> #[trigger] page(s, offset, limit)[i]
                == s[offset + i],
{
    let shown = page(s, offset, limit);
    assert forall|x: V| #[trigger] shown.contains(x) implies s.contains(x) by {
        let i = choose|i: int| 0 <= i < shown.len() && shown[i] == x;
        assert(s[offset + i] == x);
    }
    if offset == 0 && s.len() <= limit {
        assert(shown =~= s);
    }
}

/// What is read of rows is what each of them is read as.
pub proof fn lemma_read<V, W>(rows: Seq<V>, read: spec_fn(V) -> Result<W, Seq<char>>)
    ensures
        try_map(rows, read) matches Ok(items) ==> {
            &&& items.len() == rows.len()
            &&& forall|i: int|
                0 <= i < items.len() ==> read(rows[i]) == Ok::<W, Seq<char>>(#[trigger] items[i])
        },
        (forall|i: int| 0 <= i < rows.len() ==> read(#[trigger] rows[i]) is Ok) ==> try_map(
            rows,
            read,
        ) is Ok,
    decreases rows.len(),
{
    lemma_as_many(rows, read);
    if let Ok(items) = try_map(rows, read) {
        assert forall|i: int| 0 <= i < items.len() implies read(rows[i]) == Ok::<W, Seq<char>>(
            #[trigger] items[i],
        ) by {
            lemma_items(rows, read, i);
        }
    }
    if forall|i: int| 0 <= i < rows.len() ==> read(#[trigger] rows[i]) is Ok {
        if rows.len() > 0 {
            let head = rows.drop_last();
            assert forall|i: int| 0 <= i < head.len() implies read(#[trigger] head[i]) is Ok by {
                assert(read(rows[i]) is Ok);
            }
            lemma_read(head, read);
            assert(read(rows[rows.len() - 1]) is Ok);
        }
    }
}

/// What a page of selected rows in an order is read as comes from rows that satisfy the
/// condition, and where all fit, from every such row.
pub proof fn lemma_listed<V, W>(
    rows: Seq<V>,
    own: spec_fn(V) -> bool,
    before: spec_fn(V, V) -> bool,
    offset: int,
    limit: int,
    read: spec_fn(V) -> Result<W, Seq<char>>,
)
    requires
        0 <= offset,
        0 <= limit,
    ensures
        ({
            let all = sorted_by(rows.filter(own), before);
            try_map(page(all, offset, limit), read) matches Ok(items) ==> {
                &&& items.len() == page(all, offset, limit).len() <= limit
                &&& forall|i: int|
                    0 <= i < items.len() ==> read(all[offset + i]) == Ok::<W, Seq<char>>(
                        #[trigger] items[i],
                    )
                &&& forall|w: W| #[trigger]
                    items.contains(w) ==> exists|r: V| #[trigger]
                        rows.contains(r) && own(r) && read(r) == Ok::<W, Seq<char>>(w)
                &&& offset == 0 && all.len() <= limit ==> forall|r: V| #[trigger]
                    rows.contains(r) && own(r) ==> read(r) is Ok && items.contains(read(r)->Ok_0)
            }
        }),
{
    let chosen = rows.filter(own);
    let all = sorted_by(chosen, before);
    let shown = page(all, offset, limit);
    lemma_selected(rows, own);
    lemma_ordered(chosen, before);
    lemma_paged(all, offset, limit);
    lemma_read(shown, read);
    if let Ok(items) = try_map(shown, read) {
        assert forall|i: int| 0 <= i < items.len() implies read(all[offset + i]) == Ok::<
            W,
            Seq<char>,
        >(#[trigger] items[i]) by {
            assert(shown[i] == all[offset + i]);
        }
        assert forall|w: W| #[trigger] items.contains(w) implies exists|r: V| #[trigger]
            rows.contains(r) && own(r) && read(r) == Ok::<W, Seq<char>>(w) by {
            let i = choose|i: int| 0 <= i < items.len() && items[i] == w;
            let r = shown[i];
            assert(shown.contains(r));
            assert(all.contains(r));
            assert(chosen.contains(r));
            assert(rows.contains(r) && own(r));
        }
        if offset == 0 && all.len() <= limit {
            assert forall|r: V| #[trigger] rows.contains(r) && own(r) implies read(r) is Ok
                && items.contains(read(r)->Ok_0) by {
                assert(chosen.contains(r));
                assert(all.contains(r));
                let i = choose|i: int| 0 <= i < all.len() && all[i] == r;
                assert(shown[i] == r);
                assert(items[i] == read(r)->Ok_0);
            }
        }
    }
}

/// The first row that satisfies a condition is one that does, and there is none exactly
/// where no row does.
pub proof fn lemma_found<V>(s: Seq<V>, p: spec_fn(V) -> bool)
    ensures
        first(s, p) is None <==> !exists|r: V| #[trigger] s.contains(r) && p(r),
        first(s, p) matches Some(r) ==> s.contains(r) && p(r),
        any(s, p) <==> exists|r: V| #[trigger] s.contains(r) && p(r),
{
    lemma_first_found(s, p);
    if any(s, p) {
        let i = choose|i: int| 0 <= i < s.len() && p(#[trigger] s[i]);
        assert(s.contains(s[i]));
    }
    if exists|r: V| #[trigger] s.contains(r) && p(r) {
        let r = choose|r: V| #[trigger] s.contains(r) && p(r);
        let i = choose|i: int| 0 <= i < s.len() && s[i] == r;
        assert(p(s[i]));
    }
}

/// How many rows satisfy a condition does not depend on how it is put.
pub proof fn lemma_counted<V>(s: Seq<V>, p: spec_fn(V) -> bool, q: spec_fn(V) -> bool)
    requires
        forall|x: V| #[trigger] p(x) == q(x),
    ensures
        s.filter(p) == s.filter(q),
{
    crate::table::lemma_filter_agree(s, p, q);
}

/// A changed table holds its rows in place, changed or as they were.
pub proof fn lemma_changed<V>(s: Seq<V>, p: spec_fn(V) -> bool, u: spec_fn(V) -> V)
    ensures
        updated(s, p, u).len() == s.len(),
        forall|i: int|
            0 <= i < s.len() ==> #[trigger] updated(s, p, u)[i] == if p(s[i]) {
                u(s[i])
            } else {
                s[i]
            },
{
}

} // verus!
