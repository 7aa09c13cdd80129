//! Pages taken one after the other give everything that there is, each once.
use vstd::prelude::*;

use crate::columns::natural;
use crate::isolation::{lemma_as_many, lemma_items};
use crate::links::{
    behind, cut, link_behind, links_listed, listed_link, newer_link, one_more, page_shown,
    pages_go_on_behind_their_cursor, policy_of, search_refused,
};
use crate::records::{LinkCursorView, LinkView};
use crate::rows::LinkRowView;
use crate::store::StoreView;
use crate::table::{
    any, insert_by, lemma_filter_any_of, lemma_try_map_refused, page, sorted_by, try_map,
};
use crate::text::{text_order_is_total, text_order_is_transitive};
use crate::uniqueness::links_unique;

verus! {

// -------------------------------------------------------------------- orders
/// Whether an order never holds both ways and goes on from one row to the next.
pub open spec fn is_order<V>(lt: spec_fn(V, V) -> bool) -> bool {
    &&& forall|a: V, b: V| #[trigger] lt(a, b) ==> !lt(b, a)
    &&& forall|a: V, b: V, c: V| #[trigger] lt(a, b) && #[trigger] lt(b, c) ==> lt(a, c)
}

/// Whether rows are in an order, each before all that follow.
pub open spec fn ascending<V>(s: Seq<V>, lt: spec_fn(V, V) -> bool) -> bool {
    forall|i: int, j: int| 0 <= i < j < s.len() ==> lt(#[trigger] s[i], #[trigger] s[j])
}

/// Whether of any two rows one comes before the other.
pub open spec fn comparable<V>(s: Seq<V>, lt: spec_fn(V, V) -> bool) -> bool {
    forall|i: int, j: int|
        0 <= i < j < s.len() ==> lt(#[trigger] s[i], #[trigger] s[j]) || lt(s[j], s[i])
}

proof fn lemma_insert_ascending<V>(s: Seq<V>, x: V, lt: spec_fn(V, V) -> bool)
    requires
        is_order(lt),
        ascending(s, lt),
        forall|i: int| 0 <= i < s.len() ==> lt(#[trigger] s[i], x) || lt(x, s[i]),
    ensures
        ascending(insert_by(s, x, lt), lt),
        forall|y: V| #[trigger] insert_by(s, x, lt).contains(y) <==> s.contains(y) || y == x,
    decreases s.len(),
{
    let t = insert_by(s, x, lt);
    if s.len() == 0 || !lt(x, s.last()) {
        assert forall|i: int, j: int| 0 <= i < j < t.len() implies lt(
            #[trigger] t[i],
            #[trigger] t[j],
        ) by {
            if j == s.len() {
                assert(lt(s[s.len() - 1], x));
                if i < s.len() - 1 {
                    assert(lt(s[i], s[s.len() - 1]));
                }
            }
        }
        assert forall|y: V| #[trigger] t.contains(y) <==> s.contains(y) || y == x by {
            assert(t[s.len() as int] == x);
            if s.contains(y) {
                let i = choose|i: int| 0 <= i < s.len() && s[i] == y;
                assert(t[i] == y);
            }
        }
    } else {
        let h = s.drop_last();
        let m = insert_by(h, x, lt);
        assert forall|i: int| 0 <= i < h.len() implies lt(#[trigger] h[i], x) || lt(x, h[i]) by {
            assert(h[i] == s[i]);
        }
        lemma_insert_ascending(h, x, lt);
        assert forall|i: int, j: int| 0 <= i < j < t.len() implies lt(
            #[trigger] t[i],
            #[trigger] t[j],
        ) by {
            if j == m.len() {
                assert(m.contains(m[i]));
                if m[i] != x {
                    let k = choose|k: int| 0 <= k < h.len() && h[k] == m[i];
                    assert(lt(s[k], s[s.len() - 1]));
                }
            } else {
                assert(lt(m[i], m[j]));
            }
        }
        assert forall|y: V| #[trigger] t.contains(y) <==> s.contains(y) || y == x by {
            assert(t[m.len() as int] == s.last());
            if m.contains(y) {
                let i = choose|i: int| 0 <= i < m.len() && m[i] == y;
                assert(t[i] == y);
                if h.contains(y) {
                    let k = choose|k: int| 0 <= k < h.len() && h[k] == y;
                    assert(s[k] == y);
                }
            }
            if s.contains(y) && y != s.last() {
                let k = choose|k: int| 0 <= k < s.len() && s[k] == y;
                assert(h[k] == y);
                assert(h.contains(y));
            }
            assert(s[s.len() - 1] == s.last());
            assert(m.contains(x));
        }
    }
}

/// Ordering rows of which one always comes before the other puts each before all that
/// follow, and keeps what there is.
pub proof fn lemma_sorted_ascending<V>(s: Seq<V>, lt: spec_fn(V, V) -> bool)
    requires
        is_order(lt),
        comparable(s, lt),
    ensures
        ascending(sorted_by(s, lt), lt),
        forall|y: V| #[trigger] sorted_by(s, lt).contains(y) <==> s.contains(y),
    decreases s.len(),
{
    if s.len() > 0 {
        let h = s.drop_last();
        let x = s.last();
        assert forall|i: int, j: int| 0 <= i < j < h.len() implies lt(
            #[trigger] h[i],
            #[trigger] h[j],
        ) || lt(h[j], h[i]) by {
            assert(lt(s[i], s[j]) || lt(s[j], s[i]));
        }
        lemma_sorted_ascending(h, lt);
        let t = sorted_by(h, lt);
        assert forall|i: int| 0 <= i < t.len() implies lt(#[trigger] t[i], x) || lt(x, t[i]) by {
            assert(t.contains(t[i]));
            let k = choose|k: int| 0 <= k < h.len() && h[k] == t[i];
            assert(lt(s[k], s[s.len() - 1]) || lt(s[s.len() - 1], s[k]));
        }
        lemma_insert_ascending(t, x, lt);
        assert forall|y: V| #[trigger] sorted_by(s, lt).contains(y) <==> s.contains(y) by {
            if h.contains(y) {
                let k = choose|k: int| 0 <= k < h.len() && h[k] == y;
                assert(s[k] == y);
            }
            if s.contains(y) && y != x {
                let k = choose|k: int| 0 <= k < s.len() && s[k] == y;
                assert(h[k] == y);
                assert(h.contains(y));
            }
            assert(s[s.len() - 1] == x);
        }
    }
}

/// Rows in an order are told by what they hold.
pub proof fn lemma_ascending_unique<V>(a: Seq<V>, b: Seq<V>, lt: spec_fn(V, V) -> bool)
    requires
        is_order(lt),
        ascending(a, lt),
        ascending(b, lt),
        forall|y: V| #[trigger] a.contains(y) <==> b.contains(y),
    ensures
        a == b,
    decreases a.len(),
{
    if a.len() == 0 {
        if b.len() > 0 {
            assert(b.contains(b[0]));
            assert(a.contains(b[0]));
        }
        assert(a =~= b);
    } else {
        assert(a.contains(a[a.len() - 1]));
        assert(b.contains(a.last()));
        let j = choose|j: int| 0 <= j < b.len() && b[j] == a.last();
        assert(b.contains(b[b.len() - 1]));
        assert(a.contains(b.last()));
        let i = choose|i: int| 0 <= i < a.len() && a[i] == b.last();
        if j < b.len() - 1 {
            assert(lt(b[j], b[b.len() - 1]));
            if i < a.len() - 1 {
                assert(lt(a[i], a[a.len() - 1]));
            }
        }
        let x = a.drop_last();
        let y = b.drop_last();
        assert forall|v: V| #[trigger] x.contains(v) <==> y.contains(v) by {
            if x.contains(v) {
                let k = choose|k: int| 0 <= k < x.len() && x[k] == v;
                assert(lt(a[k], a[a.len() - 1]));
                assert(a.contains(a[k]));
                assert(b.contains(v));
                let n = choose|n: int| 0 <= n < b.len() && b[n] == v;
                assert(y[n] == v);
            }
            if y.contains(v) {
                let k = choose|k: int| 0 <= k < y.len() && y[k] == v;
                assert(lt(b[k], b[b.len() - 1]));
                assert(b.contains(b[k]));
                assert(a.contains(v));
                let n = choose|n: int| 0 <= n < a.len() && a[n] == v;
                assert(x[n] == v);
            }
        }
        lemma_ascending_unique(x, y, lt);
        assert(a =~= x.push(a.last()));
        assert(b =~= y.push(b.last()));
    }
}

/// The rows behind a row, ordered, are what follows it in the order of all.
pub proof fn lemma_rest<V>(
    rows: Seq<V>,
    p: spec_fn(V) -> bool,
    q: spec_fn(V) -> bool,
    lt: spec_fn(V, V) -> bool,
    k: int,
)
    requires
        is_order(lt),
        comparable(rows, lt),
        0 < k <= sorted_by(rows.filter(p), lt).len(),
        forall|x: V|
            #![trigger q(x)]
            q(x) <==> p(x) && lt(sorted_by(rows.filter(p), lt)[k - 1], x),
    ensures
        sorted_by(rows.filter(q), lt) == sorted_by(rows.filter(p), lt).skip(k),
{
    let all = sorted_by(rows.filter(p), lt);
    let rest = all.skip(k);
    let found = sorted_by(rows.filter(q), lt);
    lemma_filter_comparable(rows, p, lt);
    lemma_filter_comparable(rows, q, lt);
    lemma_sorted_ascending(rows.filter(p), lt);
    lemma_sorted_ascending(rows.filter(q), lt);
    assert forall|x: V| #[trigger] rest.contains(x) <==> found.contains(x) by {
        lemma_filter_contains(rows, p, x);
        lemma_filter_contains(rows, q, x);
        if rest.contains(x) {
            let i = choose|i: int| 0 <= i < rest.len() && rest[i] == x;
            assert(all[k + i] == x);
            assert(all.contains(x));
            assert(lt(all[k - 1], all[k + i]));
            assert(q(x));
        }
        if found.contains(x) {
            assert(q(x));
            assert(all.contains(x));
            let i = choose|i: int| 0 <= i < all.len() && all[i] == x;
            if i < k - 1 {
                assert(lt(all[i], all[k - 1]));
            }
            assert(rest[i - k] == x);
        }
    }
    assert forall|i: int, j: int| 0 <= i < j < rest.len() implies lt(
        #[trigger] rest[i],
        #[trigger] rest[j],
    ) by {
        assert(lt(all[k + i], all[k + j]));
    }
    lemma_ascending_unique(found, rest, lt);
}

/// What a selection holds is what satisfies its condition.
pub proof fn lemma_filter_contains<V>(s: Seq<V>, p: spec_fn(V) -> bool, x: V)
    ensures
        s.filter(p).contains(x) <==> s.contains(x) && p(x),
    decreases s.len(),
{
    lemma_filter_any_of(s, p);
    if s.filter(p).contains(x) {
        let i = choose|i: int| 0 <= i < s.filter(p).len() && s.filter(p)[i] == x;
        assert(p(s.filter(p)[i]));
    }
    if s.len() > 0 {
        let h = s.drop_last();
        lemma_filter_contains(h, p, x);
        assert(s =~= h.push(s.last()));
        crate::table::lemma_filter_push(h, s.last(), p);
        if s.contains(x) && p(x) {
            let k = choose|k: int| 0 <= k < s.len() && s[k] == x;
            if k < h.len() {
                assert(h[k] == x);
                assert(h.contains(x));
                let i = choose|i: int| 0 <= i < h.filter(p).len() && h.filter(p)[i] == x;
                assert(s.filter(p)[i] == x);
            } else {
                assert(s.filter(p)[h.filter(p).len() as int] == x);
            }
        }
    }
}

/// Of any two rows of a selection one comes before the other, if that holds of all rows.
pub proof fn lemma_filter_comparable<V>(s: Seq<V>, p: spec_fn(V) -> bool, lt: spec_fn(V, V) -> bool)
    requires
        comparable(s, lt),
    ensures
        comparable(s.filter(p), lt),
{
    crate::uniqueness::lemma_filter_pairs(s, p, |a: V, b: V| lt(a, b) || lt(b, a));
    let kept = s.filter(p);
    assert forall|i: int, j: int| 0 <= i < j < kept.len() implies lt(
        #[trigger] kept[i],
        #[trigger] kept[j],
    ) || lt(kept[j], kept[i]) by {
        assert((|a: V, b: V| lt(a, b) || lt(b, a))(kept[i], kept[j]));
    }
}

/// What is read of rows is what is read of the first of them and then of the others.
proof fn lemma_read_on<V, W>(s: Seq<V>, f: spec_fn(V) -> Result<W, Seq<char>>, m: int)
    requires
        0 <= m <= s.len(),
        try_map(s.take(m), f) is Ok,
    ensures
        try_map(s, f) == match try_map(s.skip(m), f) {
            Err(e) => Err(e),
            Ok(rest) => Ok(try_map(s.take(m), f)->Ok_0 + rest),
        },
    decreases s.len() - m,
{
    if m < s.len() {
        let h = s.drop_last();
        assert(h.take(m) =~= s.take(m));
        assert(s.skip(m).drop_last() =~= h.skip(m));
        assert(s.skip(m).last() == s.last());
        lemma_read_on(h, f, m);
        if let Ok(done) = try_map(h.skip(m), f) {
            if let Ok(w) = f(s.last()) {
                assert(try_map(s.take(m), f)->Ok_0 + done.push(w) =~= (try_map(
                    s.take(m),
                    f,
                )->Ok_0 + done).push(w));
            }
        }
    } else {
        assert(s.take(m) =~= s);
        assert(s.skip(m) =~= Seq::<V>::empty());
        assert(try_map(s.take(m), f)->Ok_0 + Seq::<W>::empty() =~= try_map(s.take(m), f)->Ok_0);
    }
}

// --------------------------------------------------------------------- links
proof fn lemma_newer_is_order()
    ensures
        is_order(newer_link()),
{
    let lt = newer_link();
    assert forall|a: LinkRowView, b: LinkRowView| #[trigger] lt(a, b) implies !lt(b, a) by {
        text_order_is_total(a.id, b.id);
    }
    assert forall|a: LinkRowView, b: LinkRowView, c: LinkRowView| #[trigger]
        lt(a, b) && #[trigger] lt(b, c) implies lt(a, c) by {
        text_order_is_transitive(c.id, b.id, a.id);
    }
}

/// The cursor behind a link.
pub open spec fn cursor_at(l: LinkRowView) -> LinkCursorView {
    LinkCursorView { created_at: natural(l.created_at), id: l.id }
}

/// The links of the pages that are taken one after the other from a cursor on, up to
/// `more` pages behind the first.
pub open spec fn walked(
    s: StoreView,
    tenant: Seq<char>,
    cursor: Option<LinkCursorView>,
    word: Seq<char>,
    status: Seq<char>,
    now: i64,
    routable: bool,
    limit: u64,
    more: nat,
) -> Result<Seq<LinkView>, Seq<char>>
    decreases more,
{
    match page_shown(s, tenant, cursor, word, status, now, routable, limit) {
        Err(e) => Err(e),
        Ok(shown) => if shown.next_cursor is None || more == 0 {
            Ok(shown.links)
        } else {
            match walked(
                s,
                tenant,
                shown.next_cursor,
                word,
                status,
                now,
                routable,
                limit,
                (more - 1) as nat,
            ) {
                Err(e) => Err(e),
                Ok(rest) => Ok(shown.links + rest),
            }
        },
    }
}

/// Whether links can be paged: each has an id of its own and a time that a cursor holds,
/// and they can be counted.
pub open spec fn pageable(links: Seq<LinkRowView>) -> bool {
    &&& links_unique(links)
    &&& forall|i: int| 0 <= i < links.len() ==> (#[trigger] links[i]).created_at >= 0
    &&& links.len() < i64::MAX
    &&& links.len() < usize::MAX
}

proof fn lemma_rows_behind(
    s: StoreView,
    tenant: Seq<char>,
    word: Seq<char>,
    status: Seq<char>,
    now: i64,
    routable: bool,
    k: int,
)
    requires
        pageable(s.links),
        0 < k <= links_listed(s, tenant, None, word, status, now, routable).len(),
    ensures
        ({
            let all = links_listed(s, tenant, None, word, status, now, routable);
            links_listed(s, tenant, Some(cursor_at(all[k - 1])), word, status, now, routable)
                == all.skip(k)
        }),
{
    let all = links_listed(s, tenant, None, word, status, now, routable);
    let last = all[k - 1];
    let p = listed_link(s, tenant, None, word, status, now, routable);
    let q = listed_link(s, tenant, Some(cursor_at(last)), word, status, now, routable);
    lemma_newer_is_order();
    lemma_links_comparable(s.links);
    lemma_listed_from(s, tenant, word, status, now, routable, k - 1);
    assert forall|x: LinkRowView| #![trigger q(x)] q(x) <==> p(x) && newer_link()(last, x) by {
        pages_go_on_behind_their_cursor(last, x);
    }
    lemma_rest(s.links, p, q, newer_link(), k);
}

proof fn lemma_links_comparable(links: Seq<LinkRowView>)
    requires
        links_unique(links),
    ensures
        comparable(links, newer_link()),
{
    assert forall|i: int, j: int| 0 <= i < j < links.len() implies newer_link()(
        #[trigger] links[i],
        #[trigger] links[j],
    ) || newer_link()(links[j], links[i]) by {
        text_order_is_total(links[i].id, links[j].id);
    }
}

proof fn lemma_listed_from(
    s: StoreView,
    tenant: Seq<char>,
    word: Seq<char>,
    status: Seq<char>,
    now: i64,
    routable: bool,
    i: int,
)
    requires
        pageable(s.links),
        0 <= i < links_listed(s, tenant, None, word, status, now, routable).len(),
    ensures
        links_listed(s, tenant, None, word, status, now, routable)[i].created_at >= 0,
        links_listed(s, tenant, None, word, status, now, routable).len() <= s.links.len(),
{
    let p = listed_link(s, tenant, None, word, status, now, routable);
    let all = links_listed(s, tenant, None, word, status, now, routable);
    let rows = s.links.filter(p);
    crate::table::lemma_sorted_multiset(rows, newer_link());
    crate::table::lemma_filter_len(s.links, p);
    assert(all.contains(all[i]));
    vstd::seq_lib::to_multiset_contains(all, all[i]);
    vstd::seq_lib::to_multiset_contains(rows, all[i]);
    lemma_filter_contains(s.links, p, all[i]);
    let k = choose|k: int| 0 <= k < s.links.len() && s.links[k] == all[i];
    assert(s.links[k].created_at >= 0);
}

proof fn lemma_not_refused(
    s: StoreView,
    tenant: Seq<char>,
    cursor: Option<LinkCursorView>,
    word: Seq<char>,
)
    requires
        !search_refused(s, tenant, None, word),
    ensures
        !search_refused(s, tenant, cursor, word),
{
    assert forall|i: int|
        0 <= i < s.links.len() && link_behind(tenant, cursor)(#[trigger] s.links[i]) implies any(
        s.links,
        link_behind(tenant, None),
    ) by {
        assert(link_behind(tenant, None)(s.links[i]));
    }
}

proof fn lemma_walk(
    s: StoreView,
    tenant: Seq<char>,
    word: Seq<char>,
    status: Seq<char>,
    now: i64,
    routable: bool,
    limit: u64,
    k: int,
    more: nat,
)
    requires
        pageable(s.links),
        !search_refused(s, tenant, None, word),
        limit >= 1,
        0 <= k <= links_listed(s, tenant, None, word, status, now, routable).len(),
        more + k >= links_listed(s, tenant, None, word, status, now, routable).len(),
    ensures
        ({
            let all = links_listed(s, tenant, None, word, status, now, routable);
            let cursor = if k == 0 {
                None
            } else {
                Some(cursor_at(all[k - 1]))
            };
            walked(s, tenant, cursor, word, status, now, routable, limit, more) == try_map(
                all.skip(k),
                policy_of(),
            )
        }),
    decreases more,
{
    let all = links_listed(s, tenant, None, word, status, now, routable);
    let cursor = if k == 0 {
        None
    } else {
        Some(cursor_at(all[k - 1]))
    };
    let rows = all.skip(k);
    lemma_not_refused(s, tenant, cursor, word);
    if k > 0 {
        lemma_rows_behind(s, tenant, word, status, now, routable, k);
    } else {
        assert(rows =~= all);
    }
    if all.len() > 0 {
        lemma_listed_from(s, tenant, word, status, now, routable, 0);
    }
    let n = one_more(limit);
    if rows.len() <= limit {
        assert(page(rows, 0, n) =~= rows);
        lemma_as_many(rows, policy_of());
    } else {
        assert(n == limit + 1);
        assert(page(rows, 0, n) =~= rows.take(n));
        lemma_as_many(rows.take(n), policy_of());
        match try_map(rows.take(n), policy_of()) {
            Err(_) => {
                lemma_try_map_refused(rows, policy_of(), n);
            },
            Ok(links) => {
                let m = limit as int;
                assert(rows.take(n).drop_last() =~= rows.take(m));
                lemma_as_many(rows.take(m), policy_of());
                assert(links.take(m) =~= try_map(rows.take(m), policy_of())->Ok_0);
                lemma_items(rows.take(n), policy_of(), m - 1);
                assert(rows.take(n)[m - 1] == all[k + m - 1]);
                assert(links.take(m).last() == links[m - 1]);
                assert(cut(links, limit).next_cursor == Some(cursor_at(all[k + m - 1])));
                lemma_walk(
                    s,
                    tenant,
                    word,
                    status,
                    now,
                    routable,
                    limit,
                    k + m,
                    (more - 1) as nat,
                );
                assert(rows.skip(m) =~= all.skip(k + m));
                lemma_read_on(rows, policy_of(), m);
            },
        }
    }
}

/// The pages of a tenant's links, taken one after the other by their cursors, together
/// are the links that are to be listed, each once and newest first.
pub proof fn pages_together_are_all_links(
    s: StoreView,
    tenant: Seq<char>,
    word: Seq<char>,
    status: Seq<char>,
    now: i64,
    routable: bool,
    limit: u64,
)
    requires
        pageable(s.links),
        !search_refused(s, tenant, None, word),
        limit >= 1,
    ensures
        walked(s, tenant, None, word, status, now, routable, limit, s.links.len()) == try_map(
            links_listed(s, tenant, None, word, status, now, routable),
            policy_of(),
        ),
        ascending(links_listed(s, tenant, None, word, status, now, routable), newer_link()),
        forall|l: LinkRowView| #[trigger]
            links_listed(s, tenant, None, word, status, now, routable).contains(l)
                <==> s.links.contains(l) && listed_link(
                s,
                tenant,
                None,
                word,
                status,
                now,
                routable,
            )(l),
{
    let p = listed_link(s, tenant, None, word, status, now, routable);
    let all = links_listed(s, tenant, None, word, status, now, routable);
    lemma_newer_is_order();
    lemma_links_comparable(s.links);
    lemma_filter_comparable(s.links, p, newer_link());
    lemma_sorted_ascending(s.links.filter(p), newer_link());
    assert forall|l: LinkRowView| #[trigger] all.contains(l) <==> s.links.contains(l) && p(l) by {
        lemma_filter_contains(s.links, p, l);
    }
    if all.len() > 0 {
        lemma_listed_from(s, tenant, word, status, now, routable, 0);
    }
    assert(all.skip(0) =~= all);
    lemma_walk(s, tenant, word, status, now, routable, limit, 0, s.links.len());
}

/// A page holds at most as many links as were asked for, and tells where to go on
/// exactly where links follow it.
pub proof fn pages_tell_where_to_go_on(
    s: StoreView,
    tenant: Seq<char>,
    cursor: Option<LinkCursorView>,
    word: Seq<char>,
    status: Seq<char>,
    now: i64,
    routable: bool,
    limit: u64,
)
    requires
        pageable(s.links),
        limit >= 1,
    ensures
        page_shown(s, tenant, cursor, word, status, now, routable, limit) matches Ok(shown) ==> {
            &&& shown.links.len() <= limit
            &&& shown.next_cursor is None <==> links_listed(
                s,
                tenant,
                cursor,
                word,
                status,
                now,
                routable,
            ).len() <= limit
        },
{
    let p = listed_link(s, tenant, cursor, word, status, now, routable);
    let rows = links_listed(s, tenant, cursor, word, status, now, routable);
    crate::table::lemma_sorted_multiset(s.links.filter(p), newer_link());
    crate::table::lemma_filter_len(s.links, p);
    lemma_as_many(page(rows, 0, one_more(limit)), policy_of());
}

} // verus!
