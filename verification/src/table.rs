//! Queries over tables held as vectors of rows.
//!
//! Each operation is stated over the rows' views, so a query reads as the
//! selection, update or ordering it stands for.
use vstd::prelude::*;

verus! {

/// A record that can be stored in a table: it has a mathematical view and can
/// be read out as a value with the same view.
pub trait Row: Sized + DeepView {
    fn dup(&self) -> (r: Self)
        ensures
            r.deep_view() == self.deep_view(),
    ;
}

impl Row for String {
    fn dup(&self) -> (r: Self) {
        self.clone()
    }
}

impl<A: Row, B: Row> Row for (A, B) {
    fn dup(&self) -> (r: Self) {
        (self.0.dup(), self.1.dup())
    }
}

impl<A: Row, B: Row, C: Row> Row for (A, B, C) {
    fn dup(&self) -> (r: Self) {
        (self.0.dup(), self.1.dup(), self.2.dup())
    }
}

impl<A: Row, B: Row, C: Row, D: Row> Row for (A, B, C, D) {
    fn dup(&self) -> (r: Self) {
        (self.0.dup(), self.1.dup(), self.2.dup(), self.3.dup())
    }
}

impl Row for i64 {
    fn dup(&self) -> (r: Self) {
        *self
    }
}

impl Row for u64 {
    fn dup(&self) -> (r: Self) {
        *self
    }
}

impl Row for bool {
    fn dup(&self) -> (r: Self) {
        *self
    }
}

impl Row for usize {
    fn dup(&self) -> (r: Self) {
        *self
    }
}

// ------------------------------------------------------------ specifications
/// `s` with `u` applied to the rows that satisfy `p`.
pub open spec fn updated<V>(s: Seq<V>, p: spec_fn(V) -> bool, u: spec_fn(V) -> V) -> Seq<V> {
    s.map_values(|r: V| if p(r) { u(r) } else { r })
}

/// Whether some row satisfies `p`.
pub open spec fn any<V>(s: Seq<V>, p: spec_fn(V) -> bool) -> bool {
    exists|i: int| 0 <= i < s.len() && p(#[trigger] s[i])
}

/// How many rows satisfy `p`.
pub open spec fn count<V>(s: Seq<V>, p: spec_fn(V) -> bool) -> nat {
    s.filter(p).len()
}

/// The first row that satisfies `p`.
pub open spec fn first<V>(s: Seq<V>, p: spec_fn(V) -> bool) -> Option<V>
    decreases s.len(),
{
    if s.len() == 0 {
        None
    } else if p(s[0]) {
        Some(s[0])
    } else {
        first(s.skip(1), p)
    }
}

/// `s`, which `lt` orders, with `x` placed behind every row it does not precede.
pub open spec fn insert_by<V>(s: Seq<V>, x: V, lt: spec_fn(V, V) -> bool) -> Seq<V>
    decreases s.len(),
{
    if s.len() == 0 || !lt(x, s.last()) {
        s.push(x)
    } else {
        insert_by(s.drop_last(), x, lt).push(s.last())
    }
}

/// The rows of `s` ordered by `lt`; rows that `lt` leaves level keep their order.
pub open spec fn sorted_by<V>(s: Seq<V>, lt: spec_fn(V, V) -> bool) -> Seq<V>
    decreases s.len(),
{
    if s.len() == 0 {
        Seq::empty()
    } else {
        insert_by(sorted_by(s.drop_last(), lt), s.last(), lt)
    }
}

/// At most `limit` rows of `s`, from the `offset`-th on.
pub open spec fn page<V>(s: Seq<V>, offset: int, limit: int) -> Seq<V> {
    if offset >= s.len() {
        Seq::empty()
    } else if limit >= s.len() - offset {
        s.skip(offset)
    } else {
        s.subrange(offset, offset + limit)
    }
}

/// What `f` makes of each row, or what it says of the first row it refuses.
pub open spec fn try_map<V, W>(
    s: Seq<V>,
    f: spec_fn(V) -> Result<W, Seq<char>>,
) -> Result<Seq<W>, Seq<char>>
    decreases s.len(),
{
    if s.len() == 0 {
        Ok(Seq::empty())
    } else {
        match try_map(s.drop_last(), f) {
            Err(e) => Err(e),
            Ok(done) => match f(s.last()) {
                Err(e) => Err(e),
                Ok(w) => Ok(done.push(w)),
            },
        }
    }
}

/// The rows of `s` without repetition, each where it first occurs.
pub open spec fn distinct<V>(s: Seq<V>) -> Seq<V>
    decreases s.len(),
{
    if s.len() == 0 {
        Seq::empty()
    } else if distinct(s.drop_last()).contains(s.last()) {
        distinct(s.drop_last())
    } else {
        distinct(s.drop_last()).push(s.last())
    }
}

/// The greatest of some row ids, or 0.
pub open spec fn greatest(ids: Seq<i64>) -> i64
    decreases ids.len(),
{
    if ids.len() == 0 {
        0
    } else if ids.last() > greatest(ids.drop_last()) {
        ids.last()
    } else {
        greatest(ids.drop_last())
    }
}

/// The id that a new row gets: one more than any other, where there is one.
pub open spec fn next_id(ids: Seq<i64>) -> Option<i64> {
    if greatest(ids) == i64::MAX {
        None
    } else {
        Some((greatest(ids) + 1) as i64)
    }
}

/// The contents of a result whose error is a text.
pub open spec fn outcome<T: DeepView>(r: Result<T, String>) -> Result<T::V, Seq<char>> {
    match r {
        Ok(value) => Ok(value.deep_view()),
        Err(e) => Err(e@),
    }
}

// -------------------------------------------------------------------- lemmas
pub proof fn lemma_greatest(ids: Seq<i64>)
    ensures
        greatest(ids) >= 0,
        forall|i: int| 0 <= i < ids.len() ==> #[trigger] ids[i] <= greatest(ids),
    decreases ids.len(),
{
    if ids.len() > 0 {
        lemma_greatest(ids.drop_last());
        assert forall|i: int| 0 <= i < ids.len() implies #[trigger] ids[i] <= greatest(ids) by {
            if i < ids.len() - 1 {
                assert(ids.drop_last()[i] <= greatest(ids.drop_last()));
            }
        }
    }
}

/// Once a row is refused, so is every longer table.
pub proof fn lemma_try_map_refused<V, W>(
    s: Seq<V>,
    f: spec_fn(V) -> Result<W, Seq<char>>,
    i: int,
)
    requires
        0 <= i <= s.len(),
        try_map(s.take(i), f) is Err,
    ensures
        try_map(s, f) == try_map(s.take(i), f),
    decreases s.len() - i,
{
    if i < s.len() {
        assert(s.take(i + 1).drop_last() =~= s.take(i));
        lemma_try_map_refused(s, f, i + 1);
    } else {
        assert(s.take(i) =~= s);
    }
}

/// `distinct` keeps each row once.
pub proof fn lemma_distinct<V>(s: Seq<V>)
    ensures
        distinct(s).no_duplicates(),
        forall|x: V| #[trigger] distinct(s).contains(x) <==> s.contains(x),
    decreases s.len(),
{
    if s.len() > 0 {
        let h = s.drop_last();
        lemma_distinct(h);
        let d = distinct(h);
        assert forall|x: V| #[trigger] distinct(s).contains(x) <==> s.contains(x) by {
            if s.contains(x) {
                let i = choose|i: int| 0 <= i < s.len() && s[i] == x;
                if i < h.len() {
                    assert(h[i] == x);
                    assert(d.contains(x));
                    let j = choose|j: int| 0 <= j < d.len() && d[j] == x;
                    assert(distinct(s)[j] == x);
                } else if !d.contains(x) {
                    assert(distinct(s)[d.len() as int] == x);
                }
            }
            if distinct(s).contains(x) {
                let j = choose|j: int| 0 <= j < distinct(s).len() && distinct(s)[j] == x;
                if j < d.len() {
                    assert(d[j] == x);
                    assert(d.contains(x));
                    assert(h.contains(x));
                    let i = choose|i: int| 0 <= i < h.len() && h[i] == x;
                    assert(s[i] == x);
                } else {
                    assert(s[s.len() - 1] == x);
                }
            }
        }
    }
}

pub proof fn lemma_filter_push<V>(s: Seq<V>, x: V, p: spec_fn(V) -> bool)
    ensures
        s.push(x).filter(p) == if p(x) {
            s.filter(p).push(x)
        } else {
            s.filter(p)
        },
{
    reveal(Seq::filter);
    assert(s.push(x).drop_last() =~= s);
}

pub proof fn lemma_filter_take<V>(s: Seq<V>, i: int, p: spec_fn(V) -> bool)
    requires
        0 <= i < s.len(),
    ensures
        s.take(i + 1).filter(p) == if p(s[i]) {
            s.take(i).filter(p).push(s[i])
        } else {
            s.take(i).filter(p)
        },
{
    assert(s.take(i + 1) =~= s.take(i).push(s[i]));
    lemma_filter_push(s.take(i), s[i], p);
}

pub proof fn lemma_filter_len<V>(s: Seq<V>, p: spec_fn(V) -> bool)
    ensures
        s.filter(p).len() <= s.len(),
    decreases s.len(),
{
    reveal(Seq::filter);
    if s.len() > 0 {
        lemma_filter_len(s.drop_last(), p);
    }
}

/// Conditions that agree on the rows select the same rows.
pub proof fn lemma_filter_agree<V>(s: Seq<V>, p: spec_fn(V) -> bool, q: spec_fn(V) -> bool)
    requires
        forall|i: int| 0 <= i < s.len() ==> p(#[trigger] s[i]) == q(s[i]),
    ensures
        s.filter(p) == s.filter(q),
    decreases s.len(),
{
    reveal(Seq::filter);
    if s.len() > 0 {
        let h = s.drop_last();
        assert forall|i: int| 0 <= i < h.len() implies p(#[trigger] h[i]) == q(h[i]) by {
            assert(p(s[i]) == q(s[i]));
        }
        lemma_filter_agree(h, p, q);
        assert(p(s[s.len() - 1]) == q(s[s.len() - 1]));
    }
}

/// Taking out a row that does not satisfy a condition leaves its selection.
pub proof fn lemma_filter_without<V>(s: Seq<V>, i: int, p: spec_fn(V) -> bool)
    requires
        0 <= i < s.len(),
        !p(s[i]),
    ensures
        s.remove(i).filter(p) == s.filter(p),
    decreases s.len(),
{
    reveal(Seq::filter);
    if i == s.len() - 1 {
        assert(s.remove(i) =~= s.drop_last());
    } else {
        let h = s.drop_last();
        lemma_filter_without(h, i, p);
        assert(s.remove(i).drop_last() =~= h.remove(i));
        assert(s.remove(i).last() == s.last());
    }
}

/// What a selection holds is in the table and satisfies the condition.
pub proof fn lemma_filter_any_of<V>(s: Seq<V>, p: spec_fn(V) -> bool)
    ensures
        forall|i: int| 0 <= i < s.filter(p).len() ==> p(#[trigger] s.filter(p)[i]) && s.contains(
            s.filter(p)[i],
        ),
    decreases s.len(),
{
    reveal(Seq::filter);
    if s.len() > 0 {
        let h = s.drop_last();
        lemma_filter_any_of(h, p);
        assert forall|i: int| 0 <= i < s.filter(p).len() implies p(#[trigger] s.filter(p)[i])
            && s.contains(s.filter(p)[i]) by {
            let f = h.filter(p);
            if i < f.len() {
                assert(p(f[i]) && h.contains(f[i]));
                let k = choose|k: int| 0 <= k < h.len() && h[k] == f[i];
                assert(s[k] == f[i]);
            } else {
                assert(s[s.len() - 1] == s.last());
            }
        }
    }
}

/// A selection is empty exactly when no row satisfies it.
pub proof fn lemma_filter_any<V>(s: Seq<V>, p: spec_fn(V) -> bool)
    ensures
        (s.filter(p).len() > 0) == any(s, p),
    decreases s.len(),
{
    reveal(Seq::filter);
    if s.len() > 0 {
        let h = s.drop_last();
        lemma_filter_any(h, p);
        if p(s.last()) {
            assert(p(s[s.len() - 1]));
        } else if any(h, p) {
            let i = choose|i: int| 0 <= i < h.len() && p(#[trigger] h[i]);
            assert(p(s[i]));
        } else {
            assert forall|i: int| 0 <= i < s.len() implies !p(#[trigger] s[i]) by {
                if i < h.len() {
                    assert(!p(h[i]));
                }
            }
        }
    }
}

/// The first match is at the smallest index that matches.
pub proof fn lemma_first<V>(s: Seq<V>, p: spec_fn(V) -> bool, i: int)
    requires
        0 <= i <= s.len(),
        forall|j: int| 0 <= j < i ==> !p(#[trigger] s[j]),
    ensures
        i < s.len() && p(s[i]) ==> first(s, p) == Some(s[i]),
        i == s.len() ==> first(s, p) is None,
    decreases s.len(),
{
    if s.len() > 0 && i > 0 {
        assert(!p(s[0]));
        let t = s.skip(1);
        assert forall|j: int| 0 <= j < i - 1 implies !p(#[trigger] t[j]) by {
            assert(!p(s[j + 1]));
        }
        lemma_first(t, p, i - 1);
        if i < s.len() {
            assert(t[i - 1] == s[i]);
        }
    }
}

/// What `first` finds is a row of the table that satisfies the condition.
pub proof fn lemma_first_found<V>(s: Seq<V>, p: spec_fn(V) -> bool)
    ensures
        (first(s, p) is Some) == any(s, p),
        first(s, p) matches Some(r) ==> p(r) && s.contains(r),
    decreases s.len(),
{
    if s.len() > 0 {
        if p(s[0]) {
            assert(s.contains(s[0]));
        } else {
            let t = s.skip(1);
            lemma_first_found(t, p);
            if any(t, p) {
                let j = choose|j: int| 0 <= j < t.len() && p(#[trigger] t[j]);
                assert(p(s[j + 1]));
                let r = first(t, p)->0;
                let k = choose|k: int| 0 <= k < t.len() && t[k] == r;
                assert(s[k + 1] == r);
            } else {
                assert forall|j: int| 0 <= j < s.len() implies !p(#[trigger] s[j]) by {
                    if j > 0 {
                        assert(t[j - 1] == s[j]);
                    }
                }
            }
        }
    }
}

/// The first row that satisfies `p` is still the first after each such row was
/// changed to another.
pub proof fn lemma_first_updated<V>(s: Seq<V>, p: spec_fn(V) -> bool, u: spec_fn(V) -> V)
    requires
        forall|x: V| #[trigger] p(x) ==> p(u(x)),
    ensures
        first(updated(s, p, u), p) == match first(s, p) {
            Some(x) => Some(u(x)),
            None => None,
        },
    decreases s.len(),
{
    if s.len() > 0 {
        assert(updated(s, p, u).skip(1) =~= updated(s.skip(1), p, u));
        if !p(s[0]) {
            lemma_first_updated(s.skip(1), p, u);
        }
    }
}

/// Placing a row means inserting it at the first position, from the end, that
/// it does not precede.
pub proof fn lemma_insert_by<V>(s: Seq<V>, x: V, lt: spec_fn(V, V) -> bool, pos: int)
    requires
        0 <= pos <= s.len(),
        forall|k: int| pos <= k < s.len() ==> lt(x, #[trigger] s[k]),
        pos > 0 ==> !lt(x, s[pos - 1]),
    ensures
        insert_by(s, x, lt) == s.insert(pos, x),
    decreases s.len(),
{
    if pos == s.len() {
        assert(s.insert(pos, x) =~= s.push(x));
    } else {
        assert(lt(x, s[s.len() - 1]));
        let h = s.drop_last();
        assert forall|k: int| pos <= k < h.len() implies lt(x, #[trigger] h[k]) by {
            assert(lt(x, s[k]));
        }
        lemma_insert_by(h, x, lt, pos);
        assert(s.insert(pos, x) =~= h.insert(pos, x).push(s.last()));
    }
}

/// Ordering keeps every row, each as often as it occurred.
pub proof fn lemma_sorted_multiset<V>(s: Seq<V>, lt: spec_fn(V, V) -> bool)
    ensures
        sorted_by(s, lt).to_multiset() =~= s.to_multiset(),
        sorted_by(s, lt).len() == s.len(),
    decreases s.len(),
{
    broadcast use vstd::seq_lib::group_to_multiset_ensures;
    if s.len() > 0 {
        lemma_sorted_multiset(s.drop_last(), lt);
        lemma_insert_multiset(sorted_by(s.drop_last(), lt), s.last(), lt);
        assert(s =~= s.drop_last().push(s.last()));
    } else {
        assert(s =~= Seq::empty());
    }
}

proof fn lemma_insert_multiset<V>(s: Seq<V>, x: V, lt: spec_fn(V, V) -> bool)
    ensures
        insert_by(s, x, lt).to_multiset() =~= s.to_multiset().insert(x),
        insert_by(s, x, lt).len() == s.len() + 1,
    decreases s.len(),
{
    broadcast use vstd::seq_lib::group_to_multiset_ensures;
    if s.len() > 0 && lt(x, s.last()) {
        lemma_insert_multiset(s.drop_last(), x, lt);
        assert(s =~= s.drop_last().push(s.last()));
    }
}

/// Neighbours come out in order: no row precedes the one before it, provided
/// that `lt` never holds both ways.
pub proof fn lemma_sorted_ordered<V>(s: Seq<V>, lt: spec_fn(V, V) -> bool)
    requires
        forall|a: V, b: V| #[trigger] lt(a, b) ==> !lt(b, a),
    ensures
        forall|i: int|
            #![trigger sorted_by(s, lt)[i]]
            0 < i < sorted_by(s, lt).len() ==> !lt(sorted_by(s, lt)[i], sorted_by(s, lt)[i - 1]),
    decreases s.len(),
{
    if s.len() > 0 {
        lemma_sorted_ordered(s.drop_last(), lt);
        lemma_insert_ordered(sorted_by(s.drop_last(), lt), s.last(), lt);
    }
}

proof fn lemma_insert_ordered<V>(s: Seq<V>, x: V, lt: spec_fn(V, V) -> bool)
    requires
        forall|a: V, b: V| #[trigger] lt(a, b) ==> !lt(b, a),
        forall|i: int| #![trigger s[i]] 0 < i < s.len() ==> !lt(s[i], s[i - 1]),
    ensures
        forall|i: int|
            #![trigger insert_by(s, x, lt)[i]]
            0 < i < insert_by(s, x, lt).len() ==> !lt(
                insert_by(s, x, lt)[i],
                insert_by(s, x, lt)[i - 1],
            ),
        insert_by(s, x, lt).len() > 0,
        s.len() == 0 || !lt(x, s.last()) ==> insert_by(s, x, lt).last() == x,
        s.len() > 0 && lt(x, s.last()) ==> insert_by(s, x, lt).last() == s.last(),
    decreases s.len(),
{
    if s.len() > 0 && lt(x, s.last()) {
        let h = s.drop_last();
        assert forall|i: int| #![trigger h[i]] 0 < i < h.len() implies !lt(h[i], h[i - 1]) by {
            assert(!lt(s[i], s[i - 1]));
        }
        lemma_insert_ordered(h, x, lt);
        let t = insert_by(h, x, lt);
        if h.len() > 0 {
            assert(!lt(s[s.len() - 1], s[s.len() - 2]));
            assert(h.last() == s[s.len() - 2]);
        }
        assert(!lt(s.last(), t.last()));
        assert forall|i: int|
            #![trigger insert_by(s, x, lt)[i]]
            0 < i < insert_by(s, x, lt).len() implies !lt(
            insert_by(s, x, lt)[i],
            insert_by(s, x, lt)[i - 1],
        ) by {
            if i < t.len() {
                assert(!lt(t[i], t[i - 1]));
            } else {
                assert(insert_by(s, x, lt)[i - 1] == t.last());
            }
        }
    }
}

// ---------------------------------------------------------------- operations
/// A copy of every row.
pub fn dup_rows<T: Row>(rows: &Vec<T>) -> (out: Vec<T>)
    ensures
        out.deep_view() == rows.deep_view(),
{
    let mut out: Vec<T> = Vec::new();
    let mut i: usize = 0;
    while i < rows.len()
        invariant
            i <= rows.len(),
            out.len() == i,
            forall|k: int| 0 <= k < i ==> (#[trigger] out@[k]).deep_view() == rows@[k].deep_view(),
        decreases rows.len() - i,
    {
        out.push(rows[i].dup());
        i += 1;
    }
    assert(out.deep_view() =~= rows.deep_view());
    out
}

/// A copy of an optional record.
pub fn dup_option<T: Row>(value: &Option<T>) -> (out: Option<T>)
    ensures
        out.deep_view() == value.deep_view(),
{
    match value {
        Some(value) => Some(value.dup()),
        None => None,
    }
}

/// The rows that satisfy `keep`, in table order.
pub fn select<T: Row, F: Fn(&T) -> bool>(
    rows: &Vec<T>,
    keep: F,
    Ghost(p): Ghost<spec_fn(T::V) -> bool>,
) -> (out: Vec<T>)
    requires
        forall|r: &T| keep.requires((r,)),
        forall|r: &T, b: bool| keep.ensures((r,), b) ==> b == p(r.deep_view()),
    ensures
        out.deep_view() == rows.deep_view().filter(p),
{
    let mut out: Vec<T> = Vec::new();
    let mut i: usize = 0;
    let ghost all = rows.deep_view();
    proof {
        reveal(Seq::filter);
        assert(all.take(0) =~= Seq::<T::V>::empty());
        assert(out.deep_view() =~= Seq::<T::V>::empty());
    }
    while i < rows.len()
        invariant
            i <= rows.len(),
            all == rows.deep_view(),
            forall|r: &T| keep.requires((r,)),
            forall|r: &T, b: bool| keep.ensures((r,), b) ==> b == p(r.deep_view()),
            out.deep_view() == all.take(i as int).filter(p),
        decreases rows.len() - i,
    {
        proof {
            lemma_filter_take(all, i as int, p);
        }
        if keep(&rows[i]) {
            let ghost before = out.deep_view();
            out.push(rows[i].dup());
            assert(out.deep_view() =~= before.push(all[i as int]));
        }
        i += 1;
    }
    assert(all.take(i as int) =~= all);
    out
}

/// The first row that satisfies `keep`.
pub fn find<T: Row, F: Fn(&T) -> bool>(
    rows: &Vec<T>,
    keep: F,
    Ghost(p): Ghost<spec_fn(T::V) -> bool>,
) -> (found: Option<usize>)
    requires
        forall|r: &T| keep.requires((r,)),
        forall|r: &T, b: bool| keep.ensures((r,), b) ==> b == p(r.deep_view()),
    ensures
        match found {
            Some(i) => i < rows.len() && p(rows@[i as int].deep_view()) && first(
                rows.deep_view(),
                p,
            ) == Some(rows@[i as int].deep_view()) && any(rows.deep_view(), p),
            None => first(rows.deep_view(), p) is None && !any(rows.deep_view(), p),
        },
{
    let mut i: usize = 0;
    let ghost all = rows.deep_view();
    while i < rows.len()
        invariant
            i <= rows.len(),
            all == rows.deep_view(),
            forall|r: &T| keep.requires((r,)),
            forall|r: &T, b: bool| keep.ensures((r,), b) ==> b == p(r.deep_view()),
            forall|j: int| 0 <= j < i ==> !p(#[trigger] all[j]),
        decreases rows.len() - i,
    {
        if keep(&rows[i]) {
            proof {
                assert(all[i as int] == rows@[i as int].deep_view());
                lemma_first(all, p, i as int);
            }
            return Some(i);
        }
        assert(!p(all[i as int]));
        i += 1;
    }
    proof {
        lemma_first(all, p, i as int);
    }
    None
}

/// Whether some row satisfies `keep`.
pub fn exists_where<T: Row, F: Fn(&T) -> bool>(
    rows: &Vec<T>,
    keep: F,
    Ghost(p): Ghost<spec_fn(T::V) -> bool>,
) -> (r: bool)
    requires
        forall|r: &T| keep.requires((r,)),
        forall|r: &T, b: bool| keep.ensures((r,), b) ==> b == p(r.deep_view()),
    ensures
        r == any(rows.deep_view(), p),
{
    find(rows, keep, Ghost(p)).is_some()
}

/// How many rows satisfy `keep`.
pub fn count_where<T: Row, F: Fn(&T) -> bool>(
    rows: &Vec<T>,
    keep: F,
    Ghost(p): Ghost<spec_fn(T::V) -> bool>,
) -> (n: usize)
    requires
        forall|r: &T| keep.requires((r,)),
        forall|r: &T, b: bool| keep.ensures((r,), b) ==> b == p(r.deep_view()),
    ensures
        n == count(rows.deep_view(), p),
        n <= rows.len(),
{
    let mut n: usize = 0;
    let mut i: usize = 0;
    let ghost all = rows.deep_view();
    proof {
        reveal(Seq::filter);
        assert(all.take(0) =~= Seq::<T::V>::empty());
    }
    while i < rows.len()
        invariant
            i <= rows.len(),
            all == rows.deep_view(),
            n <= i,
            n == all.take(i as int).filter(p).len(),
            forall|r: &T| keep.requires((r,)),
            forall|r: &T, b: bool| keep.ensures((r,), b) ==> b == p(r.deep_view()),
        decreases rows.len() - i,
    {
        proof {
            lemma_filter_take(all, i as int, p);
        }
        if keep(&rows[i]) {
            n += 1;
        }
        i += 1;
    }
    assert(all.take(i as int) =~= all);
    n
}

/// Replaces each row that satisfies `hit` by what `change` makes of it, and
/// reports how many there were.
pub fn update_where<T: Row, F: Fn(&T) -> bool, G: Fn(&T) -> T>(
    rows: &mut Vec<T>,
    hit: F,
    change: G,
    Ghost(p): Ghost<spec_fn(T::V) -> bool>,
    Ghost(u): Ghost<spec_fn(T::V) -> T::V>,
) -> (n: usize)
    requires
        forall|r: &T| hit.requires((r,)),
        forall|r: &T, b: bool| hit.ensures((r,), b) ==> b == p(r.deep_view()),
        forall|r: &T| change.requires((r,)),
        forall|r: &T, c: T| change.ensures((r,), c) ==> c.deep_view() == u(r.deep_view()),
    ensures
        final(rows).deep_view() == updated(old(rows).deep_view(), p, u),
        n == count(old(rows).deep_view(), p),
        n <= old(rows).len(),
        final(rows).len() == old(rows).len(),
{
    let mut n: usize = 0;
    let mut i: usize = 0;
    let ghost all = rows.deep_view();
    proof {
        reveal(Seq::filter);
        assert(all.take(0) =~= Seq::<T::V>::empty());
    }
    while i < rows.len()
        invariant
            i <= rows.len(),
            rows.len() == all.len(),
            n <= i,
            n == all.take(i as int).filter(p).len(),
            forall|k: int|
                0 <= k < i ==> (#[trigger] rows@[k]).deep_view() == if p(all[k]) {
                    u(all[k])
                } else {
                    all[k]
                },
            forall|k: int| i <= k < all.len() ==> (#[trigger] rows@[k]).deep_view() == all[k],
            forall|r: &T| hit.requires((r,)),
            forall|r: &T, b: bool| hit.ensures((r,), b) ==> b == p(r.deep_view()),
            forall|r: &T| change.requires((r,)),
            forall|r: &T, c: T| change.ensures((r,), c) ==> c.deep_view() == u(r.deep_view()),
        decreases rows.len() - i,
    {
        proof {
            lemma_filter_take(all, i as int, p);
        }
        if hit(&rows[i]) {
            let row = change(&rows[i]);
            rows.set(i, row);
            n += 1;
        }
        i += 1;
    }
    proof {
        assert(all.take(i as int) =~= all);
        assert(rows.deep_view() =~= updated(all, p, u));
    }
    n
}

/// Removes the rows that satisfy `gone` and reports how many there were.
pub fn delete_where<T: Row, F: Fn(&T) -> bool>(
    rows: &mut Vec<T>,
    gone: F,
    Ghost(p): Ghost<spec_fn(T::V) -> bool>,
    Ghost(q): Ghost<spec_fn(T::V) -> bool>,
) -> (n: usize)
    requires
        forall|r: &T| gone.requires((r,)),
        forall|r: &T, b: bool| gone.ensures((r,), b) ==> b == p(r.deep_view()),
        forall|r: T::V| #[trigger] q(r) == !p(r),
    ensures
        final(rows).deep_view() == old(rows).deep_view().filter(q),
        n == count(old(rows).deep_view(), p),
        n <= old(rows).len(),
        final(rows).len() + n == old(rows).len(),
{
    let mut n: usize = 0;
    let mut i: usize = 0;
    let ghost all = rows.deep_view();
    let ghost size = rows.len();
    let ghost mut seen: int = 0;
    proof {
        reveal(Seq::filter);
        assert(all.take(0) =~= Seq::<T::V>::empty());
        assert(all.skip(0) =~= all);
    }
    while i < rows.len()
        invariant
            i <= rows.len(),
            0 <= seen <= all.len(),
            all.len() == size,
            rows.len() - i == all.len() - seen,
            seen == n + i,
            rows.deep_view().take(i as int) =~= all.take(seen).filter(q),
            rows.deep_view().skip(i as int) =~= all.skip(seen),
            n == all.take(seen).filter(p).len(),
            forall|r: T::V| #[trigger] q(r) == !p(r),
            forall|r: &T| gone.requires((r,)),
            forall|r: &T, b: bool| gone.ensures((r,), b) ==> b == p(r.deep_view()),
        decreases rows.len() - i,
    {
        let ghost before = rows.deep_view();
        proof {
            lemma_filter_take(all, seen, p);
            lemma_filter_take(all, seen, q);
            assert(before.skip(i as int)[0] == all.skip(seen)[0]);
            assert(before[i as int] == all[seen]);
            assert(q(all[seen]) == !p(all[seen]));
        }
        if gone(&rows[i]) {
            rows.remove(i);
            n += 1;
            assert(rows.deep_view() =~= before.remove(i as int));
            assert(rows.deep_view().take(i as int) =~= before.take(i as int));
            assert(rows.deep_view().skip(i as int) =~= before.skip(i as int).skip(1));
        } else {
            i += 1;
            assert(before.take(i as int) =~= before.take(i - 1).push(before[i - 1]));
            assert(before.skip(i as int) =~= before.skip(i - 1).skip(1));
        }
        proof {
            assert(all.skip(seen + 1) =~= all.skip(seen).skip(1));
            seen = seen + 1;
        }
    }
    proof {
        assert(all.take(seen) =~= all);
        assert(rows.deep_view().take(i as int) =~= rows.deep_view());
    }
    n
}

/// Keeps the rows that satisfy `keep` and no others.
pub fn keep_where<T: Row, F: Fn(&T) -> bool>(
    rows: &mut Vec<T>,
    keep: F,
    Ghost(p): Ghost<spec_fn(T::V) -> bool>,
)
    requires
        forall|r: &T| keep.requires((r,)),
        forall|r: &T, b: bool| keep.ensures((r,), b) ==> b == p(r.deep_view()),
    ensures
        final(rows).deep_view() == old(rows).deep_view().filter(p),
{
    let kept = select(rows, keep, Ghost(p));
    *rows = kept;
}

/// The rows ordered by `before`; level rows keep their order.
pub fn sort_rows<T: Row, F: Fn(&T, &T) -> bool>(
    rows: Vec<T>,
    before: F,
    Ghost(lt): Ghost<spec_fn(T::V, T::V) -> bool>,
) -> (out: Vec<T>)
    requires
        forall|a: &T, b: &T| before.requires((a, b)),
        forall|a: &T, b: &T, r: bool|
            before.ensures((a, b), r) ==> r == lt(a.deep_view(), b.deep_view()),
    ensures
        out.deep_view() == sorted_by(rows.deep_view(), lt),
{
    let mut out: Vec<T> = Vec::new();
    let ghost all = rows.deep_view();
    let mut i: usize = 0;
    proof {
        assert(all.take(0) =~= Seq::<T::V>::empty());
        assert(out.deep_view() =~= Seq::<T::V>::empty());
    }
    while i < rows.len()
        invariant
            i <= rows.len(),
            all == rows.deep_view(),
            out.deep_view() == sorted_by(all.take(i as int), lt),
            forall|a: &T, b: &T| before.requires((a, b)),
            forall|a: &T, b: &T, r: bool|
                before.ensures((a, b), r) ==> r == lt(a.deep_view(), b.deep_view()),
        decreases rows.len() - i,
    {
        let row = rows[i].dup();
        let mut pos: usize = out.len();
        let ghost x = all[i as int];
        let ghost so_far = out.deep_view();
        while pos > 0 && before(&row, &out[pos - 1])
            invariant
                pos <= out.len(),
                row.deep_view() == x,
                so_far == out.deep_view(),
                forall|k: int| pos <= k < so_far.len() ==> lt(x, #[trigger] so_far[k]),
                forall|a: &T, b: &T| before.requires((a, b)),
                forall|a: &T, b: &T, r: bool|
                    before.ensures((a, b), r) ==> r == lt(a.deep_view(), b.deep_view()),
            ensures
                pos <= out.len(),
                row.deep_view() == x,
                so_far == out.deep_view(),
                forall|k: int| pos <= k < so_far.len() ==> lt(x, #[trigger] so_far[k]),
                pos > 0 ==> !lt(x, so_far[pos - 1]),
            decreases pos,
        {
            assert(so_far[pos - 1] == out@[pos - 1].deep_view());
            pos -= 1;
        }
        out.insert(pos, row);
        proof {
            lemma_insert_by(so_far, x, lt, pos as int);
            assert(out.deep_view() =~= so_far.insert(pos as int, x));
            assert(all.take(i + 1).drop_last() =~= all.take(i as int));
            assert(all.take(i + 1).last() == x);
        }
        i += 1;
    }
    assert(all.take(i as int) =~= all);
    out
}

/// At most `limit` rows, from the `offset`-th on.
pub fn page_rows<T: Row>(rows: &Vec<T>, offset: usize, limit: usize) -> (out: Vec<T>)
    ensures
        out.deep_view() == page(rows.deep_view(), offset as int, limit as int),
{
    let mut out: Vec<T> = Vec::new();
    let ghost all = rows.deep_view();
    let mut i: usize = offset;
    assert(out.deep_view() =~= Seq::<T::V>::empty());
    if offset >= rows.len() {
        return out;
    }
    let end: usize = if limit >= rows.len() - offset {
        rows.len()
    } else {
        offset + limit
    };
    while i < end
        invariant
            offset <= i <= end <= rows.len(),
            all == rows.deep_view(),
            out.len() == i - offset,
            forall|k: int|
                0 <= k < i - offset ==> (#[trigger] out@[k]).deep_view() == all[offset + k],
        decreases end - i,
    {
        out.push(rows[i].dup());
        i += 1;
    }
    assert(out.deep_view() =~= page(all, offset as int, limit as int));
    out
}

/// At most `limit` rows from the front.
pub fn limit_rows<T: Row>(rows: &Vec<T>, limit: i64) -> (out: Vec<T>)
    requires
        limit >= 0,
    ensures
        out.deep_view() == page(rows.deep_view(), 0, limit as int),
{
    let fits: usize = if limit as u64 >= rows.len() as u64 {
        rows.len()
    } else {
        limit as usize
    };
    assert(page(rows.deep_view(), 0, fits as int) =~= page(rows.deep_view(), 0, limit as int));
    page_rows(rows, 0, fits)
}

/// The id that a new row gets.
pub fn allot_id(ids: &Vec<i64>) -> (id: Option<i64>)
    ensures
        id == next_id(ids@),
{
    let mut top: i64 = 0;
    let mut i: usize = 0;
    assert(ids@.take(0) =~= Seq::<i64>::empty());
    while i < ids.len()
        invariant
            i <= ids.len(),
            top == greatest(ids@.take(i as int)),
        decreases ids.len() - i,
    {
        assert(ids@.take(i + 1).drop_last() =~= ids@.take(i as int));
        if ids[i] > top {
            top = ids[i];
        }
        i += 1;
    }
    assert(ids@.take(i as int) =~= ids@);
    if top == i64::MAX {
        None
    } else {
        Some(top + 1)
    }
}

/// Puts a row at the end of a table.
pub fn append_row<T: Row>(rows: &mut Vec<T>, row: T)
    ensures
        final(rows).deep_view() == old(rows).deep_view().push(row.deep_view()),
        final(rows).len() == old(rows).len() + 1,
{
    let ghost before = rows.deep_view();
    rows.push(row);
    assert(rows.deep_view() =~= before.push(row.deep_view()));
}

/// Puts further rows at the end of a table.
pub fn append_rows<T: Row>(rows: &mut Vec<T>, more: &Vec<T>)
    ensures
        final(rows).deep_view() == old(rows).deep_view() + more.deep_view(),
{
    let ghost before = rows.deep_view();
    let mut i: usize = 0;
    assert(more.deep_view().take(0) =~= Seq::<T::V>::empty());
    assert(before + Seq::<T::V>::empty() =~= before);
    while i < more.len()
        invariant
            i <= more.len(),
            rows.deep_view() == before + more.deep_view().take(i as int),
        decreases more.len() - i,
    {
        append_row(rows, more[i].dup());
        i += 1;
        assert(before + more.deep_view().take(i as int) =~= (before + more.deep_view().take(
            i - 1,
        )).push(more.deep_view()[i - 1]));
    }
    assert(more.deep_view().take(i as int) =~= more.deep_view());
}

/// Whether two tables hold the same rows in the same order.
pub fn rows_equal<T: Row, F: Fn(&T, &T) -> bool>(a: &Vec<T>, b: &Vec<T>, equal: F) -> (r: bool)
    requires
        forall|x: &T, y: &T| equal.requires((x, y)),
        forall|x: &T, y: &T, r: bool|
            equal.ensures((x, y), r) ==> r == (x.deep_view() == y.deep_view()),
    ensures
        r == (a.deep_view() == b.deep_view()),
{
    if a.len() != b.len() {
        assert(a.deep_view().len() != b.deep_view().len());
        return false;
    }
    let mut i: usize = 0;
    while i < a.len()
        invariant
            i <= a.len(),
            a.len() == b.len(),
            forall|k: int| 0 <= k < i ==> #[trigger] a.deep_view()[k] == b.deep_view()[k],
            forall|x: &T, y: &T| equal.requires((x, y)),
            forall|x: &T, y: &T, r: bool|
                equal.ensures((x, y), r) ==> r == (x.deep_view() == y.deep_view()),
        decreases a.len() - i,
    {
        if !equal(&a[i], &b[i]) {
            assert(a.deep_view()[i as int] != b.deep_view()[i as int]);
            return false;
        }
        i += 1;
    }
    assert(a.deep_view() =~= b.deep_view());
    true
}

/// The rows in opposite order.
pub fn reversed<T: Row>(rows: &Vec<T>) -> (out: Vec<T>)
    ensures
        out.deep_view() == rows.deep_view().reverse(),
{
    let mut out: Vec<T> = Vec::new();
    let ghost all = rows.deep_view();
    let mut i: usize = rows.len();
    while i > 0
        invariant
            i <= rows.len(),
            all == rows.deep_view(),
            out.len() == rows.len() - i,
            forall|k: int|
                0 <= k < out.len() ==> (#[trigger] out@[k]).deep_view() == all[all.len() - 1 - k],
        decreases i,
    {
        i -= 1;
        out.push(rows[i].dup());
    }
    assert(out.deep_view() =~= all.reverse());
    out
}

/// One value per row.
pub fn project<T: Row, U: Row, F: Fn(&T) -> U>(
    rows: &Vec<T>,
    pick: F,
    Ghost(f): Ghost<spec_fn(T::V) -> U::V>,
) -> (out: Vec<U>)
    requires
        forall|r: &T| pick.requires((r,)),
        forall|r: &T, u: U| pick.ensures((r,), u) ==> u.deep_view() == f(r.deep_view()),
    ensures
        out.deep_view() == rows.deep_view().map_values(f),
{
    let mut out: Vec<U> = Vec::new();
    let ghost all = rows.deep_view();
    let mut i: usize = 0;
    while i < rows.len()
        invariant
            i <= rows.len(),
            all == rows.deep_view(),
            out.len() == i,
            forall|k: int| 0 <= k < i ==> (#[trigger] out@[k]).deep_view() == f(all[k]),
            forall|r: &T| pick.requires((r,)),
            forall|r: &T, u: U| pick.ensures((r,), u) ==> u.deep_view() == f(r.deep_view()),
        decreases rows.len() - i,
    {
        let value = pick(&rows[i]);
        out.push(value);
        i += 1;
    }
    assert(out.deep_view() =~= all.map_values(f));
    out
}

/// One value per row, or what `pick` says of the first row it refuses.
pub fn try_project<T: Row, U: Row, F: Fn(&T) -> Result<U, String>>(
    rows: &Vec<T>,
    pick: F,
    Ghost(f): Ghost<spec_fn(T::V) -> Result<U::V, Seq<char>>>,
) -> (out: Result<Vec<U>, String>)
    requires
        forall|r: &T| pick.requires((r,)),
        forall|r: &T, u: Result<U, String>|
            pick.ensures((r,), u) ==> outcome(u) == f(r.deep_view()),
    ensures
        outcome(out) == try_map(rows.deep_view(), f),
{
    let mut out: Vec<U> = Vec::new();
    let ghost all = rows.deep_view();
    let mut i: usize = 0;
    proof {
        assert(all.take(0) =~= Seq::<T::V>::empty());
        assert(out.deep_view() =~= Seq::<U::V>::empty());
    }
    while i < rows.len()
        invariant
            i <= rows.len(),
            all == rows.deep_view(),
            try_map(all.take(i as int), f) == Ok::<Seq<U::V>, Seq<char>>(out.deep_view()),
            forall|r: &T| pick.requires((r,)),
            forall|r: &T, u: Result<U, String>|
                pick.ensures((r,), u) ==> outcome(u) == f(r.deep_view()),
        decreases rows.len() - i,
    {
        let value = pick(&rows[i]);
        proof {
            assert(all.take(i + 1).drop_last() =~= all.take(i as int));
            assert(all.take(i + 1).last() == all[i as int]);
        }
        match value {
            Ok(value) => {
                let ghost before = out.deep_view();
                out.push(value);
                assert(out.deep_view() =~= before.push(value.deep_view()));
            },
            Err(error) => {
                proof {
                    lemma_try_map_refused(all, f, i + 1);
                }
                return Err(error);
            },
        }
        i += 1;
    }
    assert(all.take(i as int) =~= all);
    Ok(out)
}

/// The rows without repetition, each where it first occurs.
pub fn distinct_rows<T: Row, F: Fn(&T, &T) -> bool>(rows: &Vec<T>, equal: F) -> (out: Vec<T>)
    requires
        forall|a: &T, b: &T| equal.requires((a, b)),
        forall|a: &T, b: &T, r: bool|
            equal.ensures((a, b), r) ==> r == (a.deep_view() == b.deep_view()),
    ensures
        out.deep_view() == distinct(rows.deep_view()),
{
    let mut out: Vec<T> = Vec::new();
    let ghost all = rows.deep_view();
    let mut i: usize = 0;
    proof {
        assert(all.take(0) =~= Seq::<T::V>::empty());
        assert(out.deep_view() =~= Seq::<T::V>::empty());
    }
    while i < rows.len()
        invariant
            i <= rows.len(),
            all == rows.deep_view(),
            out.deep_view() == distinct(all.take(i as int)),
            forall|a: &T, b: &T| equal.requires((a, b)),
            forall|a: &T, b: &T, r: bool|
                equal.ensures((a, b), r) ==> r == (a.deep_view() == b.deep_view()),
        decreases rows.len() - i,
    {
        let mut seen = false;
        let mut j: usize = 0;
        let ghost x = all[i as int];
        while j < out.len()
            invariant
                i < rows.len(),
                j <= out.len(),
                all == rows.deep_view(),
                x == all[i as int],
                seen == exists|k: int| 0 <= k < j && #[trigger] out.deep_view()[k] == x,
                forall|a: &T, b: &T| equal.requires((a, b)),
                forall|a: &T, b: &T, r: bool|
                    equal.ensures((a, b), r) ==> r == (a.deep_view() == b.deep_view()),
            decreases out.len() - j,
        {
            if equal(&out[j], &rows[i]) {
                assert(out.deep_view()[j as int] == x);
                seen = true;
            }
            j += 1;
        }
        proof {
            assert(all.take(i + 1).drop_last() =~= all.take(i as int));
            assert(seen == out.deep_view().contains(x));
        }
        if !seen {
            let ghost before = out.deep_view();
            out.push(rows[i].dup());
            assert(out.deep_view() =~= before.push(x));
        }
        i += 1;
    }
    assert(all.take(i as int) =~= all);
    out
}

} // verus!
