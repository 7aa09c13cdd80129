//! A grant of several files was downloaded as often as the file of it that was
//! downloaded the least.
use vstd::prelude::*;

use crate::columns::{column, natural};
use crate::downloads::{
    downloaded, downloads_keep_the_limit, file_of, grant_fetched, grant_is, index_set, least,
    within_limit,
};
use crate::issue::{GrantChecks, file_rows_of, issued};
use crate::records::{AutomationOperationView, OutboundGrantView};
use crate::rows::GrantFileRowView;
use crate::store::StoreView;
use crate::table::{any, first};

verus! {

/// Whether the counter of a grant is the least of its files' counters, if it counts its
/// files.
pub open spec fn counter_agrees(s: StoreView, id: Seq<char>) -> bool {
    match first(s.grants, grant_is(id)) {
        None => true,
        Some(g) => any(s.grant_files, file_of(id)) ==> natural(g.downloads) == natural(
            least(s.grant_files.filter(file_of(id))),
        ),
    }
}

/// One download: what is fetched, when, and under which ticket.
pub type Fetch = (Seq<usize>, u64, Option<Seq<char>>);

/// The store after downloads of a grant one by one; one that is refused changes nothing.
pub open spec fn after_fetches(s: StoreView, id: Seq<char>, fetches: Seq<Fetch>) -> StoreView
    decreases fetches.len(),
{
    if fetches.len() == 0 {
        s
    } else {
        let before = after_fetches(s, id, fetches.drop_last());
        let (indexes, at, ticket) = fetches.last();
        match downloaded(before, id, indexes, at, ticket) {
            Ok((after, _)) => after,
            Err(_) => before,
        }
    }
}

/// Every download keeps a grant's counter the least of its files' counters.
pub proof fn downloads_keep_the_counter(
    s: StoreView,
    id: Seq<char>,
    indexes: Seq<usize>,
    at: u64,
    ticket: Option<Seq<char>>,
)
    requires
        counter_agrees(s, id),
    ensures
        downloaded(s, id, indexes, at, ticket) matches Ok((after, _)) ==> counter_agrees(after, id),
{
    if let Ok((after, _)) = downloaded(s, id, indexes, at, ticket) {
        let g = first(s.grants, grant_is(id))->0;
        let own = after.grant_files.filter(file_of(id));
        let d = if !any(s.grant_files, file_of(id)) {
            (natural(g.downloads) + 1) as u64
        } else if indexes.len() == 0 {
            natural(g.downloads)
        } else {
            natural(least(own))
        };
        crate::table::lemma_first_updated(s.grants, grant_is(id), grant_fetched(d, column(at)));
        if any(s.grant_files, file_of(id)) && indexes.len() == 0 {
            assert(index_set(indexes).len() == 0);
            assert(after.grant_files == s.grant_files);
        }
    }
}

/// Any downloads of a grant, refused or not, keep its counter the least of its files'
/// counters, and every counter within the grant's limit.
pub proof fn counters_stay_true(s: StoreView, id: Seq<char>, fetches: Seq<Fetch>)
    requires
        counter_agrees(s, id),
        within_limit(s, id),
    ensures
        counter_agrees(after_fetches(s, id, fetches), id),
        within_limit(after_fetches(s, id, fetches), id),
    decreases fetches.len(),
{
    if fetches.len() > 0 {
        counters_stay_true(s, id, fetches.drop_last());
        let before = after_fetches(s, id, fetches.drop_last());
        let (indexes, at, ticket) = fetches.last();
        downloads_keep_the_counter(before, id, indexes, at, ticket);
        downloads_keep_the_limit(before, id, indexes, at, ticket);
    }
}

proof fn lemma_least_zero(files: Seq<GrantFileRowView>)
    requires
        files.len() > 0,
        forall|i: int| 0 <= i < files.len() ==> (#[trigger] files[i]).downloads == 0,
    ensures
        least(files) == 0,
    decreases files.len(),
{
    assert(files[0].downloads == 0);
    if files.len() > 1 {
        let h = files.drop_last();
        assert forall|i: int| 0 <= i < h.len() implies (#[trigger] h[i]).downloads == 0 by {
            assert(h[i] == files[i]);
        }
        lemma_least_zero(h);
        assert(files[files.len() - 1].downloads == 0);
    }
}

/// A grant of files that was issued with its counters at zero has, after any downloads,
/// the least of its files' counters as its own, and none is above its limit.
pub proof fn issued_counters_stay_true(
    s: StoreView,
    g: OutboundGrantView,
    operation: Option<AutomationOperationView>,
    share: Option<(Seq<char>, Seq<char>)>,
    checks: GrantChecks,
    now: u64,
    fetches: Seq<Fetch>,
)
    requires
        g.downloads == 0,
        g.files.len() > 0,
        forall|i: int| 0 <= i < g.files.len() ==> (#[trigger] g.files[i]).downloads == 0,
        !any(s.grant_files, file_of(g.id)),
    ensures
        issued(s, g, operation, share, checks, now) matches Ok((after, _)) ==> counter_agrees(
            after_fetches(after, g.id, fetches),
            g.id,
        ) && within_limit(after_fetches(after, g.id, fetches), g.id),
{
    if let Ok((after, _)) = issued(s, g, operation, share, checks, now) {
        let n = s.grants.len() as int;
        let own = grant_is(g.id);
        assert forall|j: int| 0 <= j < n implies !own(#[trigger] after.grants[j]) by {
            assert(after.grants[j] == s.grants[j]);
        }
        crate::table::lemma_first(after.grants, own, n);
        let files = after.grant_files;
        let rows = file_rows_of(g.id, g.files);
        assert forall|i: int|
            0 <= i < files.len() && (#[trigger] files[i]).grant_id == g.id implies files[i].downloads
            == 0 by {
            if i < s.grant_files.len() {
                assert(files[i] == s.grant_files[i]);
                assert(!file_of(g.id)(s.grant_files[i]));
            } else {
                assert(files[i] == rows[i - s.grant_files.len()]);
                assert(g.files[i - s.grant_files.len()].downloads == 0);
            }
        }
        assert(files[s.grant_files.len() as int] == rows[0]);
        assert(file_of(g.id)(files[s.grant_files.len() as int]));
        crate::table::lemma_filter_any(files, file_of(g.id));
        crate::table::lemma_filter_any_of(files, file_of(g.id));
        let theirs = files.filter(file_of(g.id));
        assert forall|i: int| 0 <= i < theirs.len() implies (#[trigger] theirs[i]).downloads
            == 0 by {
            assert(file_of(g.id)(theirs[i]));
            let k = choose|k: int| 0 <= k < files.len() && files[k] == theirs[i];
            assert(files[k].grant_id == g.id);
        }
        lemma_least_zero(theirs);
        counters_stay_true(after, g.id, fetches);
    }
}

} // verus!
