//! Recording downloads against an outbound grant.
//!
//! A grant of several files counts each file's downloads in a row of its own;
//! the grant's counter is the smallest of them. A grant of a single received
//! file has no such rows and counts for itself.
use vstd::prelude::*;

use crate::columns::{column, from_column, natural, size_to_column, to_column};
use crate::kinds::OutboundDownloadResult;
use crate::rows::{GrantFileRow, GrantFileRowView, GrantRow, GrantRowView, TicketRow, TicketRowView};
use crate::store::{Store, StoreView, follows};
use crate::table::{
    Row, any, count, count_where, dup_rows, exists_where, find, first, lemma_filter_any, select,
    update_where, updated,
};
use crate::text::same;

verus! {

/// The refusal of a download beyond the grant's limit.
pub const OUTBOUND_DOWNLOAD_LIMIT_REACHED: &'static str = "outbound download limit reached";

// ------------------------------------------------------------ specifications
/// The grant `id`.
pub open spec fn grant_is(id: Seq<char>) -> spec_fn(GrantRowView) -> bool {
    |g: GrantRowView| g.id == id
}

/// The files of grant `id`.
pub open spec fn file_of(id: Seq<char>) -> spec_fn(GrantFileRowView) -> bool {
    |f: GrantFileRowView| f.grant_id == id
}

/// The file of grant `id` at an index.
pub open spec fn file_at(id: Seq<char>, index: i64) -> spec_fn(GrantFileRowView) -> bool {
    |f: GrantFileRowView| f.grant_id == id && f.file_index == index
}

/// Whether a counter leaves room under a limit.
pub open spec fn below(downloads: i64, limit: Option<i64>) -> bool {
    match limit {
        Some(limit) => downloads < limit,
        None => true,
    }
}

/// The files of grant `id` that may be downloaded again.
pub open spec fn fetchable(id: Seq<char>, limit: Option<i64>) -> spec_fn(GrantFileRowView) -> bool {
    |f: GrantFileRowView| f.grant_id == id && below(f.downloads, limit)
}

/// The file of grant `id` at an index, if it may be downloaded again.
pub open spec fn fetchable_at(
    id: Seq<char>,
    index: i64,
    limit: Option<i64>,
) -> spec_fn(GrantFileRowView) -> bool {
    |f: GrantFileRowView| f.grant_id == id && f.file_index == index && below(f.downloads, limit)
}

/// The files of grant `id` that have used up a limit.
pub open spec fn spent(id: Seq<char>, limit: Option<i64>) -> spec_fn(GrantFileRowView) -> bool {
    |f: GrantFileRowView| f.grant_id == id && !below(f.downloads, limit)
}

/// The files of grant `id` at an index under `end`.
pub open spec fn in_range(id: Seq<char>, end: i64) -> spec_fn(GrantFileRowView) -> bool {
    |f: GrantFileRowView| f.grant_id == id && 0 <= f.file_index < end
}

/// A file with one more download, at time `at`; the counter stays at its end.
pub open spec fn fetched(at: i64) -> spec_fn(GrantFileRowView) -> GrantFileRowView {
    |f: GrantFileRowView|
        GrantFileRowView {
            downloads: if f.downloads == i64::MAX {
                f.downloads
            } else {
                (f.downloads + 1) as i64
            },
            first_download_at: match f.first_download_at {
                Some(first) => Some(first),
                None => Some(at),
            },
            last_download_at: Some(at),
            ..f
        }
}

/// `s`, which is ascending, with `x` at its place unless it is there already.
pub open spec fn insert_index(s: Seq<usize>, x: usize) -> Seq<usize>
    decreases s.len(),
{
    if s.len() == 0 || s.last() < x {
        s.push(x)
    } else if s.last() == x {
        s
    } else {
        insert_index(s.drop_last(), x).push(s.last())
    }
}

/// The indexes that occur in `s`, ascending and each once.
pub open spec fn index_set(s: Seq<usize>) -> Seq<usize>
    decreases s.len(),
{
    if s.len() == 0 {
        Seq::empty()
    } else {
        insert_index(index_set(s.drop_last()), s.last())
    }
}

/// The files after one download of each of `indexes`, or why one of them is
/// refused: it has used up the limit, or the grant has no such file.
pub open spec fn fetched_each(
    files: Seq<GrantFileRowView>,
    id: Seq<char>,
    indexes: Seq<usize>,
    at: i64,
    limit: Option<i64>,
) -> Result<Seq<GrantFileRowView>, Seq<char>>
    decreases indexes.len(),
{
    if indexes.len() == 0 {
        Ok(files)
    } else {
        match fetched_each(files, id, indexes.drop_last(), at, limit) {
            Err(e) => Err(e),
            Ok(done) => {
                let index = column(indexes.last() as u64);
                if any(done, fetchable_at(id, index, limit)) {
                    Ok(updated(done, fetchable_at(id, index, limit), fetched(at)))
                } else if any(done, file_at(id, index)) {
                    Err(OUTBOUND_DOWNLOAD_LIMIT_REACHED@)
                } else {
                    Err("outbound file index out of range"@)
                }
            },
        }
    }
}

/// The files after one download of the whole grant, or why it is refused.
pub open spec fn fetched_all(
    files: Seq<GrantFileRowView>,
    id: Seq<char>,
    file_count: usize,
    at: i64,
    limit: Option<i64>,
) -> Result<Seq<GrantFileRowView>, Seq<char>> {
    let expected = column(file_count as u64);
    if count(files, fetchable(id, limit)) == file_count {
        Ok(updated(files, fetchable(id, limit), fetched(at)))
    } else if count(files, file_of(id)) == expected && count(files, in_range(id, expected))
        == expected && any(files, spent(id, limit)) {
        Err(OUTBOUND_DOWNLOAD_LIMIT_REACHED@)
    } else {
        Err("outbound file index out of range"@)
    }
}

/// Whether `indexes` names every file of a grant in order.
pub open spec fn names_all(indexes: Seq<usize>, file_count: usize) -> bool {
    file_count > 0 && indexes.len() == file_count && forall|i: int|
        0 <= i < indexes.len() ==> #[trigger] indexes[i] == i
}

/// The smallest counter.
pub open spec fn least(files: Seq<GrantFileRowView>) -> i64
    decreases files.len(),
{
    if files.len() <= 1 {
        files[0].downloads
    } else {
        let rest = least(files.drop_last());
        if files.last().downloads < rest {
            files.last().downloads
        } else {
            rest
        }
    }
}

/// A grant whose counter is `downloads` after a download at time `at`.
pub open spec fn grant_fetched(downloads: u64, at: i64) -> spec_fn(GrantRowView) -> GrantRowView {
    |g: GrantRowView|
        GrantRowView {
            downloads: column(downloads),
            first_download_at: match g.first_download_at {
                Some(first) => Some(first),
                None => Some(at),
            },
            last_download_at: Some(at),
            ..g
        }
}

/// The limit of a grant, where it has one.
pub open spec fn limit_of(g: GrantRowView) -> Option<i64> {
    match g.max_downloads {
        Some(max) if max >= 0 => Some(max),
        _ => None,
    }
}

/// One download of `indexes` counted: the store afterwards and what changed.
pub open spec fn counted(
    s: StoreView,
    id: Seq<char>,
    indexes: Seq<usize>,
    at: u64,
) -> Result<(StoreView, OutboundDownloadResult), Seq<char>> {
    match first(s.grants, grant_is(id)) {
        None => Err("outbound grant not found"@),
        Some(g) => {
            let downloads = natural(g.downloads);
            let limit = limit_of(g);
            let first_download = g.first_download_at is None;
            if !(0 <= g.file_count <= usize::MAX) {
                Err("outbound grant file count out of range"@)
            } else if limit is Some && downloads >= limit->0 {
                Err(OUTBOUND_DOWNLOAD_LIMIT_REACHED@)
            } else if any(s.grant_files, file_of(id)) {
                let file_count = g.file_count as usize;
                let files = if names_all(indexes, file_count) {
                    fetched_all(s.grant_files, id, file_count, column(at), limit)
                } else {
                    fetched_each(s.grant_files, id, index_set(indexes), column(at), limit)
                };
                match files {
                    Err(e) => Err(e),
                    Ok(files) => {
                        let total = if indexes.len() == 0 {
                            downloads
                        } else {
                            natural(least(files.filter(file_of(id))))
                        };
                        Ok(
                            (
                                StoreView {
                                    grant_files: files,
                                    grants: updated(
                                        s.grants,
                                        grant_is(id),
                                        grant_fetched(total, column(at)),
                                    ),
                                    ..s
                                },
                                OutboundDownloadResult {
                                    first_download,
                                    completed_delivery: downloads == 0 && total > 0,
                                },
                            ),
                        )
                    },
                }
            } else if g.files_error is Some {
                Err("parse outbound grant files: "@ + g.files_error->0)
            } else if g.files.len() > 0 {
                Err("outbound grant files are not normalized"@)
            } else if exists|i: int| 0 <= i < indexes.len() && #[trigger] indexes[i] != 0 {
                Err("outbound file index out of range"@)
            } else {
                Ok(
                    (
                        StoreView {
                            grants: updated(
                                s.grants,
                                grant_is(id),
                                grant_fetched((downloads + 1) as u64, column(at)),
                            ),
                            ..s
                        },
                        OutboundDownloadResult { first_download, completed_delivery: first_download },
                    ),
                )
            }
        },
    }
}

/// The ticket `token` of grant `id`.
pub open spec fn ticket_for(token: Seq<char>, id: Seq<char>) -> spec_fn(TicketRowView) -> bool {
    |t: TicketRowView| t.token_id == token && t.grant_id == id
}

/// A ticket delivered at time `at`, unless it was delivered before.
pub open spec fn delivered(at: i64) -> spec_fn(TicketRowView) -> TicketRowView {
    |t: TicketRowView|
        TicketRowView {
            delivered_at: match t.delivered_at {
                Some(before) => Some(before),
                None => Some(at),
            },
            ..t
        }
}

/// One download recorded, together with the ticket it was fetched under.
pub open spec fn downloaded(
    s: StoreView,
    id: Seq<char>,
    indexes: Seq<usize>,
    at: u64,
    ticket: Option<Seq<char>>,
) -> Result<(StoreView, OutboundDownloadResult), Seq<char>> {
    match counted(s, id, indexes, at) {
        Err(e) => Err(e),
        Ok((after, result)) => match ticket {
            None => Ok((after, result)),
            Some(token) => if count(after.tickets, ticket_for(token, id)) == 1 {
                Ok(
                    (
                        StoreView {
                            tickets: updated(
                                after.tickets,
                                ticket_for(token, id),
                                delivered(column(at)),
                            ),
                            ..after
                        },
                        result,
                    ),
                )
            } else {
                Err("fetch completion ticket does not match its grant"@)
            },
        },
    }
}

// -------------------------------------------------------------------- lemmas
proof fn lemma_insert_index(s: Seq<usize>, x: usize, pos: int)
    requires
        0 <= pos <= s.len(),
        forall|k: int| pos <= k < s.len() ==> x < #[trigger] s[k],
        pos > 0 ==> s[pos - 1] <= x,
    ensures
        pos > 0 && s[pos - 1] == x ==> insert_index(s, x) == s,
        pos == 0 || s[pos - 1] < x ==> insert_index(s, x) == s.insert(pos, x),
    decreases s.len(),
{
    if pos == s.len() {
        assert(s.insert(pos, x) =~= s.push(x));
    } else {
        assert(x < s[s.len() - 1]);
        let h = s.drop_last();
        assert forall|k: int| pos <= k < h.len() implies x < #[trigger] h[k] by {
            assert(x < s[k]);
        }
        lemma_insert_index(h, x, pos);
        assert(s =~= h.push(s.last()));
        assert(s.insert(pos, x) =~= h.insert(pos, x).push(s.last()));
    }
}

/// A refusal at a prefix is a refusal of the whole.
proof fn lemma_each_refused(
    files: Seq<GrantFileRowView>,
    id: Seq<char>,
    indexes: Seq<usize>,
    at: i64,
    limit: Option<i64>,
    i: int,
)
    requires
        0 <= i <= indexes.len(),
        fetched_each(files, id, indexes.take(i), at, limit) is Err,
    ensures
        fetched_each(files, id, indexes, at, limit) == fetched_each(
            files,
            id,
            indexes.take(i),
            at,
            limit,
        ),
    decreases indexes.len() - i,
{
    if i < indexes.len() {
        assert(indexes.take(i + 1).drop_last() =~= indexes.take(i));
        lemma_each_refused(files, id, indexes, at, limit, i + 1);
    } else {
        assert(indexes.take(i) =~= indexes);
    }
}

/// What a download may do to the files: only files of its grant change, they
/// keep their identity, a counter grows by at most one and only under the
/// limit, and the time of the first download is kept once set.
pub open spec fn fetch_step(
    before: Seq<GrantFileRowView>,
    after: Seq<GrantFileRowView>,
    id: Seq<char>,
) -> bool {
    &&& after.len() == before.len()
    &&& forall|i: int|
        0 <= i < before.len() ==> {
            &&& (#[trigger] after[i]).grant_id == before[i].grant_id
            &&& after[i].file_index == before[i].file_index
            &&& before[i].grant_id != id ==> after[i] == before[i]
            &&& after[i].downloads >= before[i].downloads
            &&& before[i].first_download_at is Some ==> after[i].first_download_at
                == before[i].first_download_at
        }
}

/// Whether the counters of a grant and of its files keep within its limit.
pub open spec fn within_limit(s: StoreView, id: Seq<char>) -> bool {
    match first(s.grants, grant_is(id)) {
        None => true,
        Some(g) => match limit_of(g) {
            None => true,
            Some(max) => natural(g.downloads) <= max && forall|i: int|
                0 <= i < s.grant_files.len() && (#[trigger] s.grant_files[i]).grant_id == id
                    ==> s.grant_files[i].downloads <= max,
        },
    }
}

proof fn lemma_each_within(
    files: Seq<GrantFileRowView>,
    id: Seq<char>,
    indexes: Seq<usize>,
    at: i64,
    max: i64,
)
    requires
        forall|i: int|
            0 <= i < files.len() && (#[trigger] files[i]).grant_id == id ==> files[i].downloads
                <= max,
    ensures
        fetched_each(files, id, indexes, at, Some(max)) matches Ok(done) ==> forall|i: int|
            0 <= i < done.len() && (#[trigger] done[i]).grant_id == id ==> done[i].downloads <= max,
    decreases indexes.len(),
{
    if indexes.len() > 0 {
        lemma_each_within(files, id, indexes.drop_last(), at, max);
    }
}

proof fn lemma_least_within(files: Seq<GrantFileRowView>, max: i64)
    requires
        files.len() > 0,
        forall|i: int| 0 <= i < files.len() ==> (#[trigger] files[i]).downloads <= max,
    ensures
        least(files) <= max,
    decreases files.len(),
{
    if files.len() > 1 {
        let head = files.drop_last();
        assert forall|i: int| 0 <= i < head.len() implies (#[trigger] head[i]).downloads <= max by {
            assert(head[i] == files[i]);
        }
        lemma_least_within(head, max);
    } else {
        assert(files[0].downloads <= max);
    }
}

proof fn lemma_any_stays(
    before: Seq<GrantFileRowView>,
    after: Seq<GrantFileRowView>,
    id: Seq<char>,
)
    requires
        fetch_step(before, after, id),
        any(before, file_of(id)),
    ensures
        after.filter(file_of(id)).len() > 0,
{
    let i = choose|i: int| 0 <= i < before.len() && file_of(id)(#[trigger] before[i]);
    assert(file_of(id)(after[i]));
    assert(any(after, file_of(id)));
    crate::table::lemma_filter_any(after, file_of(id));
}

/// No download takes a grant or one of its files over the limit.
pub proof fn downloads_keep_the_limit(
    s: StoreView,
    id: Seq<char>,
    indexes: Seq<usize>,
    at: u64,
    ticket: Option<Seq<char>>,
)
    requires
        within_limit(s, id),
    ensures
        downloaded(s, id, indexes, at, ticket) matches Ok((after, _)) ==> within_limit(after, id),
{
    if let Ok((after, _)) = downloaded(s, id, indexes, at, ticket) {
        let g = first(s.grants, grant_is(id))->0;
        if let Some(max) = limit_of(g) {
            let file_count = g.file_count as usize;
            if any(s.grant_files, file_of(id)) {
                if names_all(indexes, file_count) {
                    fetching_all_touches_only_its_grant(
                        s.grant_files,
                        id,
                        file_count,
                        column(at),
                        limit_of(g),
                    );
                } else {
                    fetching_each_touches_only_its_grant(
                        s.grant_files,
                        id,
                        index_set(indexes),
                        column(at),
                        limit_of(g),
                    );
                    lemma_each_within(s.grant_files, id, index_set(indexes), column(at), max);
                }
                let files = after.grant_files;
                lemma_any_stays(s.grant_files, files, id);
                crate::table::lemma_filter_any_of(files, file_of(id));
                let own = files.filter(file_of(id));
                assert forall|i: int| 0 <= i < own.len() implies (#[trigger] own[i]).downloads
                    <= max by {
                    assert(file_of(id)(own[i]));
                    let k = choose|k: int| 0 <= k < files.len() && files[k] == own[i];
                    assert(files[k].grant_id == id);
                }
                lemma_least_within(own, max);
                let d = if indexes.len() == 0 {
                    natural(g.downloads)
                } else {
                    natural(least(own))
                };
                crate::table::lemma_first_updated(
                    s.grants,
                    grant_is(id),
                    grant_fetched(d, column(at)),
                );
            } else {
                crate::table::lemma_first_updated(
                    s.grants,
                    grant_is(id),
                    grant_fetched((natural(g.downloads) + 1) as u64, column(at)),
                );
            }
        } else {
            lemma_first_grant(s, after, id, at, g);
        }
    }
}

proof fn lemma_first_grant(
    s: StoreView,
    after: StoreView,
    id: Seq<char>,
    at: u64,
    g: GrantRowView,
)
    requires
        first(s.grants, grant_is(id)) == Some(g),
        exists|d: u64|
            after.grants == #[trigger] updated(
                s.grants,
                grant_is(id),
                grant_fetched(d, column(at)),
            ),
    ensures
        first(after.grants, grant_is(id)) matches Some(h) && h.max_downloads == g.max_downloads,
{
    let d = choose|d: u64|
        after.grants == #[trigger] updated(s.grants, grant_is(id), grant_fetched(d, column(at)));
    crate::table::lemma_first_updated(s.grants, grant_is(id), grant_fetched(d, column(at)));
}

/// Downloads of single files change nothing but those files' counters.
pub proof fn fetching_each_touches_only_its_grant(
    files: Seq<GrantFileRowView>,
    id: Seq<char>,
    indexes: Seq<usize>,
    at: i64,
    limit: Option<i64>,
)
    ensures
        fetched_each(files, id, indexes, at, limit) matches Ok(after) ==> fetch_step(
            files,
            after,
            id,
        ),
    decreases indexes.len(),
{
    if indexes.len() > 0 {
        fetching_each_touches_only_its_grant(files, id, indexes.drop_last(), at, limit);
    }
}

/// A download of a whole grant changes nothing but that grant's counters.
pub proof fn fetching_all_touches_only_its_grant(
    files: Seq<GrantFileRowView>,
    id: Seq<char>,
    file_count: usize,
    at: i64,
    limit: Option<i64>,
)
    ensures
        fetched_all(files, id, file_count, at, limit) matches Ok(after) ==> fetch_step(
            files,
            after,
            id,
        ),
{
}

/// The indexes of a download are taken in ascending order, each once.
pub proof fn index_set_is_ascending(s: Seq<usize>)
    ensures
        forall|i: int, j: int| 0 <= i < j < index_set(s).len() ==> index_set(s)[i] < index_set(s)[j],
        forall|x: usize| #[trigger] index_set(s).contains(x) <==> s.contains(x),
    decreases s.len(),
{
    if s.len() > 0 {
        let h = index_set(s.drop_last());
        index_set_is_ascending(s.drop_last());
        lemma_insert_ascending(h, s.last());
        assert forall|x: usize| #[trigger] index_set(s).contains(x) <==> s.contains(x) by {
            assert(index_set(s).contains(x) <==> h.contains(x) || x == s.last());
            assert(s =~= s.drop_last().push(s.last()));
            if s.contains(x) && x != s.last() {
                let i = choose|i: int| 0 <= i < s.len() && s[i] == x;
                assert(s.drop_last()[i] == x);
                assert(s.drop_last().contains(x));
            }
            if h.contains(x) {
                assert(s.drop_last().contains(x));
                let i = choose|i: int| 0 <= i < s.drop_last().len() && s.drop_last()[i] == x;
                assert(s[i] == x);
            }
            assert(s[s.len() - 1] == s.last());
        }
    }
}

proof fn lemma_insert_ascending(s: Seq<usize>, x: usize)
    requires
        forall|i: int, j: int| 0 <= i < j < s.len() ==> s[i] < s[j],
    ensures
        forall|i: int, j: int|
            0 <= i < j < insert_index(s, x).len() ==> insert_index(s, x)[i] < insert_index(s, x)[j],
        forall|y: usize| #[trigger] insert_index(s, x).contains(y) <==> s.contains(y) || y == x,
    decreases s.len(),
{
    if s.len() == 0 || s.last() < x {
        let t = s.push(x);
        assert forall|y: usize| #[trigger] t.contains(y) <==> s.contains(y) || y == x by {
            assert(t[s.len() as int] == x);
            if s.contains(y) {
                let i = choose|i: int| 0 <= i < s.len() && s[i] == y;
                assert(t[i] == y);
            }
        }
    } else if s.last() == x {
        assert(s[s.len() - 1] == x);
    } else {
        let h = s.drop_last();
        let m = insert_index(h, x);
        let t = m.push(s.last());
        lemma_insert_ascending(h, x);
        assert forall|i: int, j: int| 0 <= i < j < t.len() implies t[i] < t[j] by {
            if j == m.len() {
                assert(m.contains(m[i]));
                assert(h.contains(m[i]) || m[i] == x);
                if h.contains(m[i]) {
                    let k = choose|k: int| 0 <= k < h.len() && h[k] == m[i];
                    assert(s[k] < s[s.len() - 1]);
                }
            }
        }
        assert forall|y: usize| #[trigger] t.contains(y) <==> s.contains(y) || y == x by {
            assert(t[m.len() as int] == s.last());
            assert(s[s.len() - 1] == s.last());
            if s.contains(y) && y != s.last() {
                let i = choose|i: int| 0 <= i < s.len() && s[i] == y;
                assert(h[i] == y);
                assert(h.contains(y));
            }
            if m.contains(y) {
                let i = choose|i: int| 0 <= i < m.len() && m[i] == y;
                assert(t[i] == y);
                if h.contains(y) {
                    let k = choose|k: int| 0 <= k < h.len() && h[k] == y;
                    assert(s[k] == y);
                }
            } else if x == y {
                assert(m.contains(x));
            }
        }
    }
}

// ---------------------------------------------------------------- operations
/// The indexes that occur, ascending and each once.
fn sorted_indexes(indexes: &[usize]) -> (out: Vec<usize>)
    ensures
        out@ == index_set(indexes@),
{
    let mut out: Vec<usize> = Vec::new();
    let mut i: usize = 0;
    assert(indexes@.take(0) =~= Seq::<usize>::empty());
    while i < indexes.len()
        invariant
            i <= indexes.len(),
            out@ == index_set(indexes@.take(i as int)),
        decreases indexes.len() - i,
    {
        let x: usize = indexes[i];
        let mut pos: usize = out.len();
        while pos > 0 && out[pos - 1] > x
            invariant
                pos <= out.len(),
                forall|k: int| pos <= k < out.len() ==> x < #[trigger] out@[k],
            decreases pos,
        {
            pos -= 1;
        }
        proof {
            lemma_insert_index(out@, x, pos as int);
            assert(indexes@.take(i + 1).drop_last() =~= indexes@.take(i as int));
        }
        if pos == 0 || out[pos - 1] != x {
            out.insert(pos, x);
        }
        i += 1;
    }
    assert(indexes@.take(i as int) =~= indexes@);
    out
}

fn is_full_range(indexes: &[usize], file_count: usize) -> (r: bool)
    ensures
        r == names_all(indexes@, file_count),
{
    if file_count == 0 || indexes.len() != file_count {
        return false;
    }
    let mut i: usize = 0;
    while i < indexes.len()
        invariant
            i <= indexes.len(),
            forall|k: int| 0 <= k < i ==> #[trigger] indexes@[k] == k,
        decreases indexes.len() - i,
    {
        if indexes[i] != i {
            return false;
        }
        i += 1;
    }
    true
}

fn is_below(downloads: i64, limit: Option<i64>) -> (r: bool)
    ensures
        r == below(downloads, limit),
{
    match limit {
        Some(limit) => downloads < limit,
        None => true,
    }
}

fn count_fetch(file: &GrantFileRow, at: i64) -> (r: GrantFileRow)
    ensures
        r@ == fetched(at)(file@),
{
    let mut r = file.dup();
    if r.downloads != i64::MAX {
        r.downloads = r.downloads + 1;
    }
    if r.first_download_at.is_none() {
        r.first_download_at = Some(at);
    }
    r.last_download_at = Some(at);
    r
}

fn fetch_all(
    files: &mut Vec<GrantFileRow>,
    id: &str,
    file_count: usize,
    at: i64,
    limit: Option<i64>,
) -> (r: Result<(), String>)
    ensures
        match fetched_all(old(files).deep_view(), id@, file_count, at, limit) {
            Ok(after) => r is Ok && final(files).deep_view() == after,
            Err(e) => r matches Err(error) && error@ == e,
        },
{
    let expected: i64 = size_to_column(file_count);
    let own = |f: &GrantFileRow| -> (b: bool)
        ensures
            b == file_of(id@)(f@),
    {
        same(f.grant_id.as_str(), id)
    };
    let ranged = |f: &GrantFileRow| -> (b: bool)
        ensures
            b == in_range(id@, expected)(f@),
    {
        same(f.grant_id.as_str(), id) && 0 <= f.file_index && f.file_index < expected
    };
    let exhausted = |f: &GrantFileRow| -> (b: bool)
        ensures
            b == spent(id@, limit)(f@),
    {
        same(f.grant_id.as_str(), id) && !is_below(f.downloads, limit)
    };
    let open = |f: &GrantFileRow| -> (b: bool)
        ensures
            b == fetchable(id@, limit)(f@),
    {
        same(f.grant_id.as_str(), id) && is_below(f.downloads, limit)
    };
    let fetch = |f: &GrantFileRow| -> (r: GrantFileRow)
        ensures
            r@ == fetched(at)(f@),
    {
        count_fetch(f, at)
    };
    let rows: usize = count_where(files, own, Ghost(file_of(id@)));
    let in_order: usize = count_where(files, ranged, Ghost(in_range(id@, expected)));
    let refused = exists_where(files, exhausted, Ghost(spent(id@, limit)));
    let changed: usize = update_where(
        files,
        open,
        fetch,
        Ghost(fetchable(id@, limit)),
        Ghost(fetched(at)),
    );
    if changed == file_count {
        return Ok(());
    }
    if rows as u64 == expected as u64 && in_order as u64 == expected as u64 && refused {
        return Err(OUTBOUND_DOWNLOAD_LIMIT_REACHED.to_owned());
    }
    Err("outbound file index out of range".to_owned())
}

fn fetch_each(
    files: &mut Vec<GrantFileRow>,
    id: &str,
    indexes: &Vec<usize>,
    at: i64,
    limit: Option<i64>,
) -> (r: Result<(), String>)
    ensures
        match fetched_each(old(files).deep_view(), id@, indexes@, at, limit) {
            Ok(after) => r is Ok && final(files).deep_view() == after,
            Err(e) => r matches Err(error) && error@ == e,
        },
{
    let ghost before = files.deep_view();
    let mut i: usize = 0;
    assert(indexes@.take(0) =~= Seq::<usize>::empty());
    while i < indexes.len()
        invariant
            i <= indexes.len(),
            before == old(files).deep_view(),
            fetched_each(before, id@, indexes@.take(i as int), at, limit) == Ok::<
                Seq<GrantFileRowView>,
                Seq<char>,
            >(files.deep_view()),
        decreases indexes.len() - i,
    {
        let index: i64 = size_to_column(indexes[i]);
        proof {
            assert(indexes@.take(i + 1).drop_last() =~= indexes@.take(i as int));
        }
        let here = |f: &GrantFileRow| -> (b: bool)
            ensures
                b == file_at(id@, index)(f@),
        {
            same(f.grant_id.as_str(), id) && f.file_index == index
        };
        let open = |f: &GrantFileRow| -> (b: bool)
            ensures
                b == fetchable_at(id@, index, limit)(f@),
        {
            same(f.grant_id.as_str(), id) && f.file_index == index && is_below(f.downloads, limit)
        };
        let fetch = |f: &GrantFileRow| -> (r: GrantFileRow)
            ensures
                r@ == fetched(at)(f@),
        {
            count_fetch(f, at)
        };
        let exists = exists_where(files, here, Ghost(file_at(id@, index)));
        proof {
            lemma_filter_any(files.deep_view(), fetchable_at(id@, index, limit));
        }
        let changed: usize = update_where(
            files,
            open,
            fetch,
            Ghost(fetchable_at(id@, index, limit)),
            Ghost(fetched(at)),
        );
        if changed == 0 {
            proof {
                lemma_each_refused(before, id@, indexes@, at, limit, i + 1);
            }
            if exists {
                return Err(OUTBOUND_DOWNLOAD_LIMIT_REACHED.to_owned());
            }
            return Err("outbound file index out of range".to_owned());
        }
        i += 1;
    }
    assert(indexes@.take(i as int) =~= indexes@);
    Ok(())
}

fn least_downloads(files: &Vec<GrantFileRow>) -> (r: i64)
    requires
        files.len() > 0,
    ensures
        r == least(files.deep_view()),
{
    let ghost all = files.deep_view();
    let mut r: i64 = files[0].downloads;
    let mut i: usize = 1;
    while i < files.len()
        invariant
            1 <= i <= files.len(),
            all == files.deep_view(),
            r == least(all.take(i as int)),
        decreases files.len() - i,
    {
        proof {
            assert(all.take(i + 1).drop_last() =~= all.take(i as int));
            assert(all.take(i + 1).last() == all[i as int]);
        }
        if files[i].downloads < r {
            r = files[i].downloads;
        }
        i += 1;
    }
    assert(all.take(i as int) =~= all);
    r
}

fn some_nonzero(indexes: &[usize]) -> (r: bool)
    ensures
        r == exists|i: int| 0 <= i < indexes@.len() && #[trigger] indexes@[i] != 0,
{
    let mut i: usize = 0;
    while i < indexes.len()
        invariant
            i <= indexes.len(),
            forall|k: int| 0 <= k < i ==> #[trigger] indexes@[k] == 0,
        decreases indexes.len() - i,
    {
        if indexes[i] != 0 {
            return true;
        }
        i += 1;
    }
    false
}

fn count_grant_fetch(grant: &GrantRow, downloads: u64, at: i64) -> (r: GrantRow)
    ensures
        r@ == grant_fetched(downloads, at)(grant@),
{
    let mut r = grant.dup();
    r.downloads = to_column(downloads);
    if r.first_download_at.is_none() {
        r.first_download_at = Some(at);
    }
    r.last_download_at = Some(at);
    r
}

fn deliver(ticket: &TicketRow, at: i64) -> (r: TicketRow)
    ensures
        r@ == delivered(at)(ticket@),
{
    let mut r = ticket.dup();
    if r.delivered_at.is_none() {
        r.delivered_at = Some(at);
    }
    r
}

impl Store {
    /// Records one download of the files at `indexes`.
    pub fn record_outbound_download(&mut self, id: &str, indexes: &[usize], at: u64) -> (r: Result<
        OutboundDownloadResult,
        String,
    >)
        ensures
            follows(downloaded(old(self)@, id@, indexes@, at, None), old(self)@, final(self)@, r),
    {
        self.record_download(id, indexes, at, None)
    }

    /// Records one download of the files at `indexes`, fetched under the ticket
    /// `token`, and closes that ticket.
    pub fn record_fetch_download(
        &mut self,
        id: &str,
        indexes: &[usize],
        at: u64,
        token: &str,
    ) -> (r: Result<OutboundDownloadResult, String>)
        ensures
            follows(
                downloaded(old(self)@, id@, indexes@, at, Some(token@)),
                old(self)@,
                final(self)@,
                r,
            ),
    {
        self.record_download(id, indexes, at, Some(token))
    }

    /// Records one download. A refusal changes nothing.
    pub fn record_download(
        &mut self,
        id: &str,
        indexes: &[usize],
        at: u64,
        ticket: Option<&str>,
    ) -> (r: Result<OutboundDownloadResult, String>)
        ensures
            follows(
                downloaded(old(self)@, id@, indexes@, at, ticket.deep_view()),
                old(self)@,
                final(self)@,
                r,
            ),
    {
        if let Some(token) = ticket {
            let theirs = |t: &TicketRow| -> (b: bool)
                ensures
                    b == ticket_for(token@, id@)(t@),
            {
                same(t.token_id.as_str(), token) && same(t.grant_id.as_str(), id)
            };
            let matching: usize = count_where(&self.tickets, theirs, Ghost(ticket_for(token@, id@)));
            if matching != 1 {
                return match count_download(&self.grants, &self.grant_files, id, indexes, at) {
                    Ok(_) => Err("fetch completion ticket does not match its grant".to_owned()),
                    Err(error) => Err(error),
                };
            }
        }
        let (grants, files, result) = match count_download(
            &self.grants,
            &self.grant_files,
            id,
            indexes,
            at,
        ) {
            Ok(counted) => counted,
            Err(error) => {
                return Err(error);
            },
        };
        self.grants = grants;
        self.grant_files = files;
        if let Some(token) = ticket {
            let at: i64 = to_column(at);
            let theirs = |t: &TicketRow| -> (b: bool)
                ensures
                    b == ticket_for(token@, id@)(t@),
            {
                same(t.token_id.as_str(), token) && same(t.grant_id.as_str(), id)
            };
            let close = |t: &TicketRow| -> (r: TicketRow)
                ensures
                    r@ == delivered(at)(t@),
            {
                deliver(t, at)
            };
            update_where(
                &mut self.tickets,
                theirs,
                close,
                Ghost(ticket_for(token@, id@)),
                Ghost(delivered(at)),
            );
        }
        Ok(result)
    }
}

/// The grants and files after one download of `indexes`, and what it changed.
fn count_download(
    grants: &Vec<GrantRow>,
    grant_files: &Vec<GrantFileRow>,
    id: &str,
    indexes: &[usize],
    at: u64,
) -> (r: Result<(Vec<GrantRow>, Vec<GrantFileRow>, OutboundDownloadResult), String>)
    ensures
        forall|s: StoreView|
            s.grants == grants.deep_view() && s.grant_files == grant_files.deep_view()
                ==> match #[trigger] counted(s, id@, indexes@, at) {
                Ok((after, result)) => r matches Ok((g, f, x)) && x == result && after
                    == (StoreView { grants: g.deep_view(), grant_files: f.deep_view(), ..s }),
                Err(e) => r matches Err(error) && error@ == e,
            },
{
    let named = |g: &GrantRow| -> (b: bool)
        ensures
            b == grant_is(id@)(g@),
    {
        same(g.id.as_str(), id)
    };
    let found = match find(grants, named, Ghost(grant_is(id@))) {
        Some(found) => found,
        None => {
            return Err("outbound grant not found".to_owned());
        },
    };
    let grant = &grants[found];
    if grant.file_count < 0 || grant.file_count as u64 > usize::MAX as u64 {
        return Err("outbound grant file count out of range".to_owned());
    }
    let file_count: usize = grant.file_count as usize;
    let downloads: u64 = from_column(grant.downloads);
    let limit: Option<i64> = match grant.max_downloads {
        Some(max) => if max >= 0 {
            Some(max)
        } else {
            None
        },
        None => None,
    };
    let first_download = grant.first_download_at.is_none();
    if let Some(limit) = limit {
        if downloads >= limit as u64 {
            return Err(OUTBOUND_DOWNLOAD_LIMIT_REACHED.to_owned());
        }
    }
    let at: i64 = to_column(at);
    let own = |f: &GrantFileRow| -> (b: bool)
        ensures
            b == file_of(id@)(f@),
    {
        same(f.grant_id.as_str(), id)
    };
    let normalized = exists_where(grant_files, own, Ghost(file_of(id@)));
    let mut files = dup_rows(grant_files);
    let mut rows = dup_rows(grants);
    if normalized {
        let fetched = if is_full_range(indexes, file_count) {
            fetch_all(&mut files, id, file_count, at, limit)
        } else {
            let unique = sorted_indexes(indexes);
            fetch_each(&mut files, id, &unique, at, limit)
        };
        if let Err(error) = fetched {
            return Err(error);
        }
        let total: u64 = if indexes.len() == 0 {
            downloads
        } else {
            let own = |f: &GrantFileRow| -> (b: bool)
                ensures
                    b == file_of(id@)(f@),
            {
                same(f.grant_id.as_str(), id)
            };
            let children = select(&files, own, Ghost(file_of(id@)));
            proof {
                let was = grant_files.deep_view();
                fetching_each_touches_only_its_grant(was, id@, index_set(indexes@), at, limit);
                fetching_all_touches_only_its_grant(was, id@, file_count, at, limit);
                let i = choose|i: int| 0 <= i < was.len() && file_of(id@)(#[trigger] was[i]);
                assert(file_of(id@)(files.deep_view()[i]));
                lemma_filter_any(files.deep_view(), file_of(id@));
            }
            from_column(least_downloads(&children))
        };
        let named = |g: &GrantRow| -> (b: bool)
            ensures
                b == grant_is(id@)(g@),
        {
            same(g.id.as_str(), id)
        };
        let fetch = |g: &GrantRow| -> (r: GrantRow)
            ensures
                r@ == grant_fetched(total, at)(g@),
        {
            count_grant_fetch(g, total, at)
        };
        update_where(&mut rows, named, fetch, Ghost(grant_is(id@)), Ghost(grant_fetched(total, at)));
        return Ok(
            (
                rows,
                files,
                OutboundDownloadResult {
                    first_download,
                    completed_delivery: downloads == 0 && total > 0,
                },
            ),
        );
    }
    if let Some(error) = &grant.files_error {
        return Err("parse outbound grant files: ".to_owned().concat(error.as_str()));
    }
    if grant.files.len() > 0 {
        return Err("outbound grant files are not normalized".to_owned());
    }
    if some_nonzero(indexes) {
        return Err("outbound file index out of range".to_owned());
    }
    let total: u64 = downloads + 1;
    let named = |g: &GrantRow| -> (b: bool)
        ensures
            b == grant_is(id@)(g@),
    {
        same(g.id.as_str(), id)
    };
    let fetch = |g: &GrantRow| -> (r: GrantRow)
        ensures
            r@ == grant_fetched(total, at)(g@),
    {
        count_grant_fetch(g, total, at)
    };
    update_where(&mut rows, named, fetch, Ghost(grant_is(id@)), Ghost(grant_fetched(total, at)));
    Ok(
        (
            rows,
            files,
            OutboundDownloadResult { first_download, completed_delivery: first_download },
        ),
    )
}

} // verus!
