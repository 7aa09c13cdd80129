//! What recording a download does: each fetched file is counted once more, the grant is
//! marked, and no more is given out than the grant allows.
use vstd::prelude::*;

use crate::columns::{column, natural};
use crate::downloads::{
    below, counted, delivered, downloaded, fetchable, fetchable_at, fetched, fetched_each,
    fetching_all_touches_only_its_grant, fetching_each_touches_only_its_grant, file_of,
    grant_fetched, grant_is, index_set, index_set_is_ascending, least, limit_of, names_all,
    ticket_for,
};
use crate::rows::{GrantFileRowView, GrantRowView, TicketRowView};
use crate::selection::{lemma_changed, lemma_found, lemma_selected};
use crate::store::StoreView;
use crate::table::{any, count, first};

verus! {

/// Whether a row is another after one more download at a time: the counter is one higher,
/// unless it is at its end, and the first and the last download are told.
pub open spec fn once_more(a: GrantFileRowView, b: GrantFileRowView, at: i64) -> bool {
    &&& b.downloads == if a.downloads < i64::MAX {
        a.downloads + 1
    } else {
        i64::MAX as int
    }
    &&& b.last_download_at == Some(at)
    &&& b.first_download_at == if a.first_download_at is None {
        Some(at)
    } else {
        a.first_download_at
    }
    &&& b == GrantFileRowView {
        downloads: b.downloads,
        first_download_at: b.first_download_at,
        last_download_at: b.last_download_at,
        ..a
    }
}

/// Whether a file may be fetched once more under a limit; a limit below zero is none.
pub open spec fn has_left(f: GrantFileRowView, g: GrantRowView) -> bool {
    g.max_downloads is Some && g.max_downloads->0 >= 0 ==> f.downloads < g.max_downloads->0
}

/// Whether grants and their files are told apart by their ids and numbers, and a grant's
/// files are numbered up to how many they are.
pub open spec fn numbered(s: StoreView, g: GrantRowView) -> bool {
    &&& forall|i: int, j: int|
        0 <= i < j < s.grants.len() ==> s.grants[i].id != s.grants[j].id
    &&& forall|i: int, j: int|
        0 <= i < j < s.grant_files.len() ==> s.grant_files[i].grant_id != s.grant_files[j].grant_id
            || s.grant_files[i].file_index != s.grant_files[j].file_index
    &&& forall|i: int|
        0 <= i < s.grant_files.len() && (#[trigger] s.grant_files[i]).grant_id == g.id ==> 0
            <= s.grant_files[i].file_index < g.file_count
    &&& 0 <= g.file_count <= usize::MAX
}

/// Whether a file is one of those that were asked for.
pub open spec fn is_asked(f: GrantFileRowView, id: Seq<char>, indexes: Seq<usize>) -> bool {
    f.grant_id == id && exists|j: int| 0 <= j < indexes.len() && #[trigger] indexes[j] == f.file_index
}

/// Whether a file's row is another after a download: counted once more if it was asked for,
/// which it may be only under the limit, and else as it was.
pub open spec fn file_after(
    a: GrantFileRowView,
    b: GrantFileRowView,
    g: GrantRowView,
    indexes: Seq<usize>,
    at: i64,
) -> bool {
    if is_asked(a, g.id, indexes) {
        has_left(a, g) && once_more(a, b, at)
    } else {
        b == a
    }
}

proof fn lemma_each(
    files: Seq<GrantFileRowView>,
    id: Seq<char>,
    indexes: Seq<usize>,
    at: i64,
    limit: Option<i64>,
)
    requires
        forall|i: int, j: int| 0 <= i < j < indexes.len() ==> indexes[i] < indexes[j],
        forall|i: int| 0 <= i < indexes.len() ==> #[trigger] indexes[i] <= i64::MAX,
    ensures
        match fetched_each(files, id, indexes, at, limit) {
            Ok(after) => {
                &&& after.len() == files.len()
                &&& forall|k: int|
                    0 <= k < files.len() ==> #[trigger] after[k] == if is_asked(
                        files[k],
                        id,
                        indexes,
                    ) && below(files[k].downloads, limit) {
                        fetched(at)(files[k])
                    } else {
                        files[k]
                    }
                &&& forall|j: int|
                    0 <= j < indexes.len() ==> exists|k: int|
                        0 <= k < files.len() && (#[trigger] files[k]).grant_id == id
                            && files[k].file_index == #[trigger] indexes[j] && below(
                            files[k].downloads,
                            limit,
                        )
            },
            Err(_) => exists|j: int|
                0 <= j < indexes.len() && unfetchable(files, id, #[trigger] indexes[j], limit),
        },
    decreases indexes.len(),
{
    if indexes.len() > 0 {
        let head = indexes.drop_last();
        let x = indexes.last();
        let n = indexes.len() - 1;
        assert forall|i: int, j: int| 0 <= i < j < head.len() implies head[i] < head[j] by {
            assert(indexes[i] < indexes[j]);
        }
        assert forall|i: int| 0 <= i < head.len() implies #[trigger] head[i] <= i64::MAX by {
            assert(indexes[i] <= i64::MAX);
        }
        lemma_each(files, id, head, at, limit);
        assert(indexes[n] == x);
        match fetched_each(files, id, head, at, limit) {
            Err(_) => {
                let j = choose|j: int|
                    0 <= j < head.len() && unfetchable(files, id, #[trigger] head[j], limit);
                assert(indexes[j] == head[j]);
            },
            Ok(done) => {
                let p = fetchable_at(id, column(x as u64), limit);
                lemma_changed(done, p, fetched(at));
                assert forall|k: int| 0 <= k < files.len() && p(#[trigger] done[k]) implies done[k]
                    == files[k] by {
                    if is_asked(files[k], id, head) {
                        let j = choose|j: int|
                            0 <= j < head.len() && #[trigger] head[j] == files[k].file_index;
                        assert(indexes[j] < indexes[n]);
                    }
                }
                if !any(done, p) {
                    assert forall|k: int|
                        0 <= k < files.len() && (#[trigger] files[k]).grant_id == id
                            && files[k].file_index == x implies !below(
                        files[k].downloads,
                        limit,
                    ) by {
                        if is_asked(files[k], id, head) {
                            let j = choose|j: int|
                                0 <= j < head.len() && #[trigger] head[j] == files[k].file_index;
                            assert(indexes[j] < indexes[n]);
                        }
                        assert(done[k] == files[k]);
                        assert(!p(done[k]));
                    }
                    assert(unfetchable(files, id, indexes[n], limit));
                } else {
                    let after = fetched_each(files, id, indexes, at, limit)->Ok_0;
                    assert forall|k: int| 0 <= k < files.len() implies #[trigger] after[k]
                        == if is_asked(files[k], id, indexes) && below(files[k].downloads, limit) {
                        fetched(at)(files[k])
                    } else {
                        files[k]
                    } by {
                        if is_asked(files[k], id, head) {
                            let j = choose|j: int|
                                0 <= j < head.len() && #[trigger] head[j] == files[k].file_index;
                            assert(indexes[j] == files[k].file_index);
                            assert(indexes[j] < indexes[n]);
                        } else if is_asked(files[k], id, indexes) {
                            let j = choose|j: int|
                                0 <= j < indexes.len() && #[trigger] indexes[j]
                                    == files[k].file_index;
                            if j < n {
                                assert(head[j] == files[k].file_index);
                            }
                        } else {
                            assert(files[k].grant_id == id ==> files[k].file_index != x);
                        }
                        assert(done[k] == done[k]);
                    }
                    assert forall|j: int| 0 <= j < indexes.len() implies exists|k: int|
                        0 <= k < files.len() && (#[trigger] files[k]).grant_id == id
                            && files[k].file_index == #[trigger] indexes[j] && below(
                            files[k].downloads,
                            limit,
                        ) by {
                        if j < n {
                            assert(head[j] == indexes[j]);
                        } else {
                            let k = choose|k: int| 0 <= k < done.len() && p(#[trigger] done[k]);
                            assert(done[k] == files[k]);
                        }
                    }
                }
            },
        }
    }
}

/// Whether no file of a grant at an index may be fetched.
pub open spec fn unfetchable(
    files: Seq<GrantFileRowView>,
    id: Seq<char>,
    index: usize,
    limit: Option<i64>,
) -> bool {
    forall|k: int|
        0 <= k < files.len() && (#[trigger] files[k]).grant_id == id && files[k].file_index == index
            ==> !below(files[k].downloads, limit)
}

proof fn lemma_same_set(indexes: Seq<usize>, f: GrantFileRowView, id: Seq<char>)
    ensures
        is_asked(f, id, index_set(indexes)) == is_asked(f, id, indexes),
{
    index_set_is_ascending(indexes);
    let set = index_set(indexes);
    if is_asked(f, id, indexes) {
        let j = choose|j: int| 0 <= j < indexes.len() && #[trigger] indexes[j] == f.file_index;
        assert(indexes.contains(indexes[j]));
        assert(set.contains(indexes[j]));
        let k = choose|k: int| 0 <= k < set.len() && set[k] == indexes[j];
        assert(set[k] == f.file_index);
    }
    if is_asked(f, id, set) {
        let j = choose|j: int| 0 <= j < set.len() && #[trigger] set[j] == f.file_index;
        assert(set.contains(set[j]));
        assert(indexes.contains(set[j]));
        let k = choose|k: int| 0 <= k < indexes.len() && indexes[k] == set[j];
        assert(indexes[k] == f.file_index);
    }
}

/// A recorded download counts each file that was asked for once more and no other, tells the
/// grant's first and last download, marks the ticket as delivered if one was given, and
/// changes nothing else. It is the grant's first exactly if there was none before, and
/// completes the delivery exactly if the grant's counter leaves zero.
pub proof fn downloads_count_what_was_fetched(
    s: StoreView,
    n: int,
    indexes: Seq<usize>,
    at: u64,
    ticket: Option<Seq<char>>,
)
    requires
        0 <= n < s.grants.len(),
        numbered(s, s.grants[n]),
        forall|i: int| 0 <= i < indexes.len() ==> #[trigger] indexes[i] <= i64::MAX,
        s.grants[n].downloads >= 0,
    ensures
        downloaded(s, s.grants[n].id, indexes, at, ticket) matches Ok((after, result)) ==> {
            let g = s.grants[n];
            let filed = exists|k: int|
                0 <= k < s.grant_files.len() && (#[trigger] s.grant_files[k]).grant_id == g.id;
            &&& g.max_downloads is Some && g.max_downloads->0 >= 0 ==> g.downloads
                < g.max_downloads->0
            &&& after == StoreView {
                grants: after.grants,
                grant_files: after.grant_files,
                tickets: after.tickets,
                ..s
            }
            &&& after.grant_files.len() == s.grant_files.len()
            &&& forall|k: int|
                0 <= k < s.grant_files.len() ==> file_after(s.grant_files[k], #[trigger] after.grant_files[k], g, indexes, column(at))
            &&& after.grants.len() == s.grants.len()
            &&& forall|k: int|
                0 <= k < s.grants.len() && k != n ==> #[trigger] after.grants[k] == s.grants[k]
            &&& after.grants[n] == GrantRowView {
                downloads: after.grants[n].downloads,
                first_download_at: after.grants[n].first_download_at,
                last_download_at: Some(column(at)),
                ..g
            }
            &&& after.grants[n].first_download_at == if g.first_download_at is None {
                Some(column(at))
            } else {
                g.first_download_at
            }
            &&& result.first_download <==> g.first_download_at is None
            &&& filed ==> (result.completed_delivery <==> g.downloads == 0
                && after.grants[n].downloads > 0)
            &&& !filed ==> (result.completed_delivery <==> g.first_download_at is None)
            &&& !filed && g.downloads < i64::MAX ==> after.grants[n].downloads == g.downloads + 1
            &&& filed && indexes.len() == 0 ==> after.grants[n].downloads == g.downloads
            &&& ticket is None ==> after.tickets == s.tickets
            &&& ticket matches Some(token) ==> after.tickets.len() == s.tickets.len() && (exists|
                t: TicketRowView,
            | #[trigger] s.tickets.contains(t) && t.token_id == token && t.grant_id == g.id)
                && forall|k: int|
                0 <= k < s.tickets.len() ==> #[trigger] after.tickets[k] == if s.tickets[k].token_id
                    == token && s.tickets[k].grant_id == g.id && s.tickets[k].delivered_at is None {
                    TicketRowView { delivered_at: Some(column(at)), ..s.tickets[k] }
                } else {
                    s.tickets[k]
                }
        },
{
    let g = s.grants[n];
    let id = g.id;
    let own = grant_is(id);
    lemma_the_grant(s, n);
    if let Ok((after, result)) = downloaded(s, id, indexes, at, ticket) {
        lemma_found(s.grant_files, file_of(id));
        let limit = limit_of(g);
        lemma_files_fetched(s, n, indexes, at);
        if let Some(token) = ticket {
            let p = ticket_for(token, id);
            lemma_changed(s.tickets, p, delivered(column(at)));
            crate::table::lemma_filter_any(s.tickets, p);
            lemma_found(s.tickets, p);
        }
        let filed = any(s.grant_files, file_of(id));
        if filed {
            let k = choose|k: int| 0 <= k < s.grant_files.len() && file_of(id)(#[trigger] s.grant_files[k]);
            assert(s.grant_files[k].grant_id == id);
        } else {
            assert forall|k: int| 0 <= k < s.grant_files.len() implies (
            #[trigger] s.grant_files[k]).grant_id != id by {
                assert(!file_of(id)(s.grant_files[k]));
            }
        }
        let total = if !filed {
            (natural(g.downloads) + 1) as u64
        } else if indexes.len() == 0 {
            natural(g.downloads)
        } else {
            natural(crate::downloads::least(after.grant_files.filter(file_of(id))))
        };
        lemma_changed(s.grants, own, grant_fetched(total, column(at)));
        assert forall|k: int| 0 <= k < s.grants.len() && k != n implies !own(
            #[trigger] s.grants[k],
        ) by {
            if k < n {
                assert(s.grants[k].id != s.grants[n].id);
            } else {
                assert(s.grants[n].id != s.grants[k].id);
            }
        }
        assert(own(s.grants[n]));
        assert(after.grants[n] == grant_fetched(total, column(at))(g));
    }
}

proof fn lemma_the_grant(s: StoreView, n: int)
    requires
        0 <= n < s.grants.len(),
        numbered(s, s.grants[n]),
    ensures
        first(s.grants, grant_is(s.grants[n].id)) == Some(s.grants[n]),
{
    let own = grant_is(s.grants[n].id);
    assert forall|j: int| 0 <= j < n implies !own(#[trigger] s.grants[j]) by {
        assert(s.grants[j].id != s.grants[n].id);
    }
    crate::table::lemma_first(s.grants, own, n);
}

proof fn lemma_files_fetched(s: StoreView, n: int, indexes: Seq<usize>, at: u64)
    requires
        0 <= n < s.grants.len(),
        numbered(s, s.grants[n]),
        forall|i: int| 0 <= i < indexes.len() ==> #[trigger] indexes[i] <= i64::MAX,
    ensures
        counted(s, s.grants[n].id, indexes, at) matches Ok((after, _)) ==> {
            let g = s.grants[n];
            &&& after.grant_files.len() == s.grant_files.len()
            &&& forall|k: int|
                0 <= k < s.grant_files.len() ==> file_after(s.grant_files[k], #[trigger] after.grant_files[k], g, indexes, column(at))
        },
{
    let g = s.grants[n];
    let id = g.id;
    let files = s.grant_files;
    lemma_the_grant(s, n);
    if let Ok((after, _)) = counted(s, id, indexes, at) {
        let limit = limit_of(g);
        let file_count = g.file_count as usize;
        if any(files, file_of(id)) {
            if names_all(indexes, file_count) {
                lemma_changed(files, fetchable(id, limit), fetched(column(at)));
                lemma_whole_grant(s, n, limit);
                assert forall|k: int| 0 <= k < files.len() implies file_after(files[k], #[trigger] after.grant_files[k], g, indexes, column(at)) by {
                    if files[k].grant_id == id {
                        assert(indexes[files[k].file_index as int] == files[k].file_index);
                        assert(fetchable(id, limit)(files[k]));
                    }
                }
            } else {
                let set = index_set(indexes);
                index_set_is_ascending(indexes);
                assert forall|i: int| 0 <= i < set.len() implies #[trigger] set[i] <= i64::MAX by {
                    assert(set.contains(set[i]));
                    let k = choose|k: int| 0 <= k < indexes.len() && indexes[k] == set[i];
                    assert(indexes[k] <= i64::MAX);
                }
                lemma_each(files, id, set, column(at), limit);
                assert forall|k: int| 0 <= k < files.len() implies file_after(files[k], #[trigger] after.grant_files[k], g, indexes, column(at)) by {
                    lemma_same_set(indexes, files[k], id);
                    if is_asked(files[k], id, set) {
                        let j = choose|j: int|
                            0 <= j < set.len() && #[trigger] set[j] == files[k].file_index;
                        let m = choose|m: int|
                            0 <= m < files.len() && (#[trigger] files[m]).grant_id == id
                                && files[m].file_index == set[j] && below(
                                files[m].downloads,
                                limit,
                            );
                        if m < k {
                            assert(files[m].file_index != files[k].file_index);
                        } else if k < m {
                            assert(files[k].file_index != files[m].file_index);
                        }
                        assert(below(files[k].downloads, limit));
                    }
                }
            }
        } else {
            assert forall|k: int| 0 <= k < files.len() implies !is_asked(
                #[trigger] files[k],
                id,
                indexes,
            ) by {
                assert(!file_of(id)(files[k]));
            }
        }
    }
}

/// Where as many of a grant's files may be fetched as there are, all of them may.
proof fn lemma_whole_grant(s: StoreView, n: int, limit: Option<i64>)
    requires
        0 <= n < s.grants.len(),
        numbered(s, s.grants[n]),
        count(s.grant_files, fetchable(s.grants[n].id, limit)) == s.grants[n].file_count,
    ensures
        forall|k: int|
            0 <= k < s.grant_files.len() && (#[trigger] s.grant_files[k]).grant_id
                == s.grants[n].id ==> below(s.grant_files[k].downloads, limit),
{
    let id = s.grants[n].id;
    let files = s.grant_files;
    let p = fetchable(id, limit);
    let f = files.filter(p);
    let end = s.grants[n].file_count as int;
    crate::table::lemma_filter_any_of(files, p);
    crate::uniqueness::lemma_filter_pairs(
        files,
        p,
        |a: GrantFileRowView, b: GrantFileRowView|
            a.grant_id != b.grant_id || a.file_index != b.file_index,
    );
    let marks = f.map_values(|x: GrantFileRowView| x.file_index as int);
    assert(marks.no_duplicates()) by {
        assert forall|i: int, j: int| 0 <= i < marks.len() && 0 <= j < marks.len() && i
            != j implies marks[i] != marks[j] by {
            let (a, b) = if i < j {
                (i, j)
            } else {
                (j, i)
            };
            assert(p(f[a]) && p(f[b]));
            assert((|a: GrantFileRowView, b: GrantFileRowView|
                a.grant_id != b.grant_id || a.file_index != b.file_index)(f[a], f[b]));
        }
    }
    let all = vstd::set_lib::set_int_range(0, end);
    vstd::set_lib::lemma_int_range(0, end);
    marks.unique_seq_to_set();
    assert(marks.to_set().subset_of(all)) by {
        assert forall|x: int| #[trigger] marks.to_set().contains(x) implies all.contains(x) by {
            let i = choose|i: int| 0 <= i < marks.len() && marks[i] == x;
            assert(p(f[i]) && files.contains(f[i]));
            let k = choose|k: int| 0 <= k < files.len() && files[k] == f[i];
            assert(files[k].grant_id == id);
        }
    }
    vstd::set_lib::lemma_subset_equality(marks.to_set(), all);
    assert forall|k: int|
        0 <= k < files.len() && (#[trigger] files[k]).grant_id == id implies below(
        files[k].downloads,
        limit,
    ) by {
        let x = files[k].file_index as int;
        assert(all.contains(x));
        assert(marks.to_set().contains(x));
        let i = choose|i: int| 0 <= i < marks.len() && marks[i] == x;
        assert(p(f[i]) && files.contains(f[i]));
        let m = choose|m: int| 0 <= m < files.len() && files[m] == f[i];
        if m < k {
            assert(files[m].file_index != files[k].file_index || files[m].grant_id
                != files[k].grant_id);
        } else if k < m {
            assert(files[k].file_index != files[m].file_index || files[k].grant_id
                != files[m].grant_id);
        }
    }
}

/// A download is recorded whenever it may be: the grant is under its limit, every file that
/// was asked for is one of the grant's and under the limit too, and the ticket, if there is
/// one, is the grant's.
pub proof fn downloads_are_recorded_while_there_is_room(
    s: StoreView,
    n: int,
    indexes: Seq<usize>,
    at: u64,
    ticket: Option<Seq<char>>,
)
    requires
        0 <= n < s.grants.len(),
        numbered(s, s.grants[n]),
        forall|i: int| 0 <= i < indexes.len() ==> #[trigger] indexes[i] <= i64::MAX,
        s.grants[n].downloads >= 0,
        s.grants[n].max_downloads is Some && s.grants[n].max_downloads->0 >= 0
            ==> s.grants[n].downloads < s.grants[n].max_downloads->0,
        // every file asked for is there and under the limit
        forall|i: int|
            0 <= i < indexes.len() ==> exists|k: int|
                0 <= k < s.grant_files.len() && (#[trigger] s.grant_files[k]).grant_id
                    == s.grants[n].id && s.grant_files[k].file_index == #[trigger] indexes[i]
                    && has_left(s.grant_files[k], s.grants[n]),
        exists|k: int|
            0 <= k < s.grant_files.len() && (#[trigger] s.grant_files[k]).grant_id
                == s.grants[n].id,
        ticket matches Some(token) ==> s.tickets.filter(
            |t: TicketRowView| t.token_id == token && t.grant_id == s.grants[n].id,
        ).len() == 1,
    ensures
        downloaded(s, s.grants[n].id, indexes, at, ticket) is Ok,
{
    let g = s.grants[n];
    let id = g.id;
    let files = s.grant_files;
    let limit = limit_of(g);
    let file_count = g.file_count as usize;
    lemma_the_grant(s, n);
    let w = choose|k: int| 0 <= k < files.len() && (#[trigger] files[k]).grant_id == id;
    assert(file_of(id)(files[w]));
    if let Some(token) = ticket {
        let raw = |t: TicketRowView| t.token_id == token && t.grant_id == s.grants[n].id;
        crate::selection::lemma_counted(s.tickets, ticket_for(token, id), raw);
    }
    if names_all(indexes, file_count) {
        lemma_all_there(s, n, indexes, limit);
    } else {
        let set = index_set(indexes);
        index_set_is_ascending(indexes);
        assert forall|i: int| 0 <= i < set.len() implies #[trigger] set[i] <= i64::MAX by {
            assert(set.contains(set[i]));
            let k = choose|k: int| 0 <= k < indexes.len() && indexes[k] == set[i];
            assert(indexes[k] <= i64::MAX);
        }
        lemma_each(files, id, set, column(at), limit);
        if fetched_each(files, id, set, column(at), limit) is Err {
            let j = choose|j: int|
                0 <= j < set.len() && unfetchable(files, id, #[trigger] set[j], limit);
            assert(set.contains(set[j]));
            let i = choose|i: int| 0 <= i < indexes.len() && indexes[i] == set[j];
            assert(indexes[i] == set[j]);
            let k = choose|k: int|
                0 <= k < files.len() && (#[trigger] files[k]).grant_id == id
                    && files[k].file_index == indexes[i] && has_left(files[k], g);
            assert(below(files[k].downloads, limit));
        }
    }
}

proof fn lemma_all_there(s: StoreView, n: int, indexes: Seq<usize>, limit: Option<i64>)
    requires
        0 <= n < s.grants.len(),
        numbered(s, s.grants[n]),
        limit == limit_of(s.grants[n]),
        names_all(indexes, s.grants[n].file_count as usize),
        forall|i: int|
            0 <= i < indexes.len() ==> exists|k: int|
                0 <= k < s.grant_files.len() && (#[trigger] s.grant_files[k]).grant_id
                    == s.grants[n].id && s.grant_files[k].file_index == #[trigger] indexes[i]
                    && has_left(s.grant_files[k], s.grants[n]),
    ensures
        count(s.grant_files, fetchable(s.grants[n].id, limit)) == s.grants[n].file_count,
{
    let g = s.grants[n];
    let id = g.id;
    let files = s.grant_files;
    let p = fetchable(id, limit);
    let f = files.filter(p);
    let end = g.file_count as int;
    crate::table::lemma_filter_any_of(files, p);
    lemma_selected(files, p);
    crate::uniqueness::lemma_filter_pairs(
        files,
        p,
        |a: GrantFileRowView, b: GrantFileRowView|
            a.grant_id != b.grant_id || a.file_index != b.file_index,
    );
    let marks = f.map_values(|x: GrantFileRowView| x.file_index as int);
    assert(marks.no_duplicates()) by {
        assert forall|i: int, j: int| 0 <= i < marks.len() && 0 <= j < marks.len() && i
            != j implies marks[i] != marks[j] by {
            let (a, b) = if i < j {
                (i, j)
            } else {
                (j, i)
            };
            assert(p(f[a]) && p(f[b]));
            assert((|a: GrantFileRowView, b: GrantFileRowView|
                a.grant_id != b.grant_id || a.file_index != b.file_index)(f[a], f[b]));
        }
    }
    let all = vstd::set_lib::set_int_range(0, end);
    vstd::set_lib::lemma_int_range(0, end);
    marks.unique_seq_to_set();
    assert(marks.to_set() =~= all) by {
        assert forall|x: int| #[trigger] marks.to_set().contains(x) implies all.contains(x) by {
            let i = choose|i: int| 0 <= i < marks.len() && marks[i] == x;
            assert(p(f[i]) && files.contains(f[i]));
            let k = choose|k: int| 0 <= k < files.len() && files[k] == f[i];
            assert(files[k].grant_id == id);
        }
        assert forall|x: int| #[trigger] all.contains(x) implies marks.to_set().contains(x) by {
            assert(indexes[x] == x);
            let k = choose|k: int|
                0 <= k < files.len() && (#[trigger] files[k]).grant_id == id
                    && files[k].file_index == indexes[x] && has_left(files[k], g);
            assert(p(files[k]));
            assert(files.contains(files[k]));
            assert(f.contains(files[k]));
            let i = choose|i: int| 0 <= i < f.len() && f[i] == files[k];
            assert(marks[i] == x);
        }
    }
}

proof fn lemma_least(files: Seq<GrantFileRowView>)
    requires
        files.len() > 0,
    ensures
        forall|i: int| 0 <= i < files.len() ==> least(files) <= (#[trigger] files[i]).downloads,
        exists|i: int| 0 <= i < files.len() && least(files) == (#[trigger] files[i]).downloads,
    decreases files.len(),
{
    if files.len() == 1 {
        assert(files[0].downloads == least(files));
    } else {
        let head = files.drop_last();
        let n = files.len() - 1;
        lemma_least(head);
        assert(files[n] == files.last());
        assert forall|i: int| 0 <= i < files.len() implies least(files) <= (
        #[trigger] files[i]).downloads by {
            if i < n {
                assert(head[i] == files[i]);
            }
        }
        if files.last().downloads < least(head) {
            assert(files[n].downloads == least(files));
        } else {
            let i = choose|i: int|
                0 <= i < head.len() && least(head) == (#[trigger] head[i]).downloads;
            assert(files[i].downloads == least(files));
        }
    }
}

/// A package counts as fetched as often as the file of it that was fetched least: no file of
/// the grant has been fetched less often than the grant says, and one as often.
pub proof fn packages_count_their_least_fetched_file(
    s: StoreView,
    id: Seq<char>,
    indexes: Seq<usize>,
    at: u64,
    i: int,
)
    requires
        indexes.len() > 0,
        0 <= i < s.grants.len(),
        s.grants[i].id == id,
        exists|f: GrantFileRowView| #[trigger] s.grant_files.contains(f) && f.grant_id == id,
    ensures
        counted(s, id, indexes, at) matches Ok((after, _)) ==> {
            let own = after.grant_files.filter(|f: GrantFileRowView| f.grant_id == id);
            &&& own.len() > 0
            &&& (forall|k: int| 0 <= k < own.len() ==> (#[trigger] own[k]).downloads >= 0) ==> {
                &&& forall|k: int|
                    0 <= k < own.len() ==> after.grants[i].downloads <= (
                    #[trigger] own[k]).downloads
                &&& exists|k: int|
                    0 <= k < own.len() && after.grants[i].downloads == (#[trigger] own[k]).downloads
            }
        },
{
    crate::selection::lemma_found(s.grant_files, file_of(id));
    crate::selection::lemma_found(s.grants, grant_is(id));
    assert(s.grants.contains(s.grants[i]));
    if let Ok((after, _)) = counted(s, id, indexes, at) {
        let raw = |f: GrantFileRowView| f.grant_id == id;
        crate::selection::lemma_counted(after.grant_files, file_of(id), raw);
        let own = after.grant_files.filter(file_of(id));
        let g = first(s.grants, grant_is(id))->0;
        let n = g.file_count as usize;
        if names_all(indexes, n) {
            fetching_all_touches_only_its_grant(s.grant_files, id, n, column(at), limit_of(g));
        } else {
            fetching_each_touches_only_its_grant(
                s.grant_files,
                id,
                index_set(indexes),
                column(at),
                limit_of(g),
            );
        }
        let f = choose|f: GrantFileRowView| #[trigger]
            s.grant_files.contains(f) && f.grant_id == id;
        let k = choose|k: int| 0 <= k < s.grant_files.len() && s.grant_files[k] == f;
        assert(after.grant_files[k].grant_id == id);
        assert(file_of(id)(after.grant_files[k]));
        crate::table::lemma_filter_any(after.grant_files, file_of(id));
        lemma_least(own);
    }
}

} // verus!
