//! The file records and the usage aggregates that are kept beside them.
//!
//! Every change of a record goes through this module, so that the aggregates
//! follow it.
use vstd::prelude::*;

use crate::columns::{LIMB, combine_byte_sums, split_bytes};
use crate::quota::{
    QUOTA_DIRTY, QUOTA_EXACT, QUOTA_SATURATED, after_delete, after_insert, after_update,
    clean_quota, counts_alike, dirty_quota, distinct_keys, ensured, exact_quota, excess, heaviest,
    live_but, lowered, quota_is, raised, rival_but, same_key, same_object, sound, weight,
    with_share, without_share,
};
use crate::rows::{FileRow, FileRowView, QuotaRow, QuotaRowView};
use crate::table::{Row, append_row, exists_where, first, select, update_where, updated};
use crate::text::same;

verus! {

// ------------------------------------------------------------ specifications
/// The aggregates after the records in `rest` that satisfy `gone` were deleted
/// one by one, `kept` being the records before them that stay.
pub open spec fn purged(
    quotas: Seq<QuotaRowView>,
    kept: Seq<FileRowView>,
    rest: Seq<FileRowView>,
    gone: spec_fn(FileRowView) -> bool,
) -> Seq<QuotaRowView>
    decreases rest.len(),
{
    if rest.len() == 0 {
        quotas
    } else if gone(rest[0]) {
        purged(
            after_delete(quotas, kept + rest.skip(1), rest[0]),
            kept,
            rest.skip(1),
            gone,
        )
    } else {
        purged(quotas, kept.push(rest[0]), rest.skip(1), gone)
    }
}

/// The aggregates after the records in `rest` that satisfy `hit` were changed
/// one by one, `done` being the records before them.
pub open spec fn revised(
    quotas: Seq<QuotaRowView>,
    done: Seq<FileRowView>,
    rest: Seq<FileRowView>,
    hit: spec_fn(FileRowView) -> bool,
    change: spec_fn(FileRowView) -> FileRowView,
) -> Seq<QuotaRowView>
    decreases rest.len(),
{
    if rest.len() == 0 {
        quotas
    } else if hit(rest[0]) {
        let now = change(rest[0]);
        revised(
            after_update(quotas, done.push(now) + rest.skip(1), rest[0], now),
            done.push(now),
            rest.skip(1),
            hit,
            change,
        )
    } else {
        revised(quotas, done.push(rest[0]), rest.skip(1), hit, change)
    }
}

/// The position of the record at the place of `f`, or the end.
pub open spec fn place_of(files: Seq<FileRowView>, f: FileRowView) -> int
    decreases files.len(),
{
    if files.len() == 0 || same_key(files[0], f) {
        0
    } else {
        1 + place_of(files.skip(1), f)
    }
}

/// The records with `f` at its place.
pub open spec fn put(files: Seq<FileRowView>, f: FileRowView) -> Seq<FileRowView> {
    let i = place_of(files, f);
    if i < files.len() {
        files.update(i, f)
    } else {
        files.push(f)
    }
}

/// The aggregates after `f` was put at its place.
pub open spec fn after_put(quotas: Seq<QuotaRowView>, files: Seq<FileRowView>, f: FileRowView) -> Seq<
    QuotaRowView,
> {
    let i = place_of(files, f);
    if i < files.len() {
        after_update(quotas, put(files, f), files[i], f)
    } else {
        after_insert(quotas, put(files, f), f)
    }
}

// -------------------------------------------------------------------- lemmas
proof fn lemma_place(files: Seq<FileRowView>, f: FileRowView, i: int)
    requires
        0 <= i <= files.len(),
        forall|j: int| 0 <= j < i ==> !same_key(#[trigger] files[j], f),
        i < files.len() ==> same_key(files[i], f),
    ensures
        place_of(files, f) == i,
    decreases files.len(),
{
    if i > 0 {
        let t = files.skip(1);
        assert(!same_key(files[0], f));
        assert forall|j: int| 0 <= j < i - 1 implies !same_key(#[trigger] t[j], f) by {
            assert(!same_key(files[j + 1], f));
        }
        lemma_place(t, f, i - 1);
    }
}

pub proof fn lemma_place_found(files: Seq<FileRowView>, f: FileRowView)
    ensures
        0 <= place_of(files, f) <= files.len(),
        place_of(files, f) < files.len() ==> same_key(files[place_of(files, f)], f),
        forall|j: int| 0 <= j < place_of(files, f) ==> !same_key(#[trigger] files[j], f),
    decreases files.len(),
{
    if files.len() > 0 && !same_key(files[0], f) {
        let t = files.skip(1);
        lemma_place_found(t, f);
        assert forall|j: int| 0 <= j < place_of(files, f) implies !same_key(
            #[trigger] files[j],
            f,
        ) by {
            if j > 0 {
                assert(!same_key(t[j - 1], f));
            }
        }
    }
}

// ---------------------------------------------------------------------- laws
/// Deleting records one by one keeps the aggregates true.
pub proof fn purging_keeps_aggregates_true(
    quotas: Seq<QuotaRowView>,
    kept: Seq<FileRowView>,
    rest: Seq<FileRowView>,
    gone: spec_fn(FileRowView) -> bool,
    stays: spec_fn(FileRowView) -> bool,
)
    requires
        distinct_keys(kept + rest),
        sound(quotas, kept + rest),
        forall|f: FileRowView| #[trigger] stays(f) == !gone(f),
    ensures
        sound(purged(quotas, kept, rest, gone), kept + rest.filter(stays)),
        distinct_keys(kept + rest.filter(stays)),
    decreases rest.len(),
{
    if rest.len() == 0 {
        reveal(Seq::filter);
        assert(rest.filter(stays) =~= rest);
    } else {
        let all = kept + rest;
        let f = rest[0];
        let tail = rest.skip(1);
        let i = kept.len() as int;
        lemma_filter_head(rest, stays);
        assert(stays(f) == !gone(f));
        if gone(f) {
            assert(all.remove(i) =~= kept + tail);
            assert(all[i] == f);
            crate::quota::deletion_keeps_aggregates_true(quotas, all, i);
            assert forall|a: int, b: int| 0 <= a < b < (kept + tail).len() implies !same_key(
                (kept + tail)[a],
                (kept + tail)[b],
            ) by {
                let x = if a < i {
                    a
                } else {
                    a + 1
                };
                let y = if b < i {
                    b
                } else {
                    b + 1
                };
                assert(!same_key(all[x], all[y]));
            }
            purging_keeps_aggregates_true(
                after_delete(quotas, kept + tail, f),
                kept,
                tail,
                gone,
                stays,
            );
        } else {
            assert(kept.push(f) + tail =~= all);
            purging_keeps_aggregates_true(quotas, kept.push(f), tail, gone, stays);
            assert(kept.push(f) + tail.filter(stays) =~= kept + rest.filter(stays));
        }
    }
}

/// A selection begins with the first row if that is selected.
pub proof fn lemma_filter_head<V>(s: Seq<V>, p: spec_fn(V) -> bool)
    requires
        s.len() > 0,
    ensures
        s.filter(p) == if p(s[0]) {
            seq![s[0]] + s.skip(1).filter(p)
        } else {
            s.skip(1).filter(p)
        },
    decreases s.len(),
{
    reveal(Seq::filter);
    if s.len() == 1 {
        assert(s.drop_last() =~= Seq::<V>::empty());
        assert(s.skip(1) =~= Seq::<V>::empty());
        assert(s.drop_last().filter(p) =~= Seq::<V>::empty());
        assert(s.skip(1).filter(p) =~= Seq::<V>::empty());
        assert(s.filter(p) =~= if p(s[0]) {
            seq![s[0]] + s.skip(1).filter(p)
        } else {
            s.skip(1).filter(p)
        });
    } else {
        let h = s.drop_last();
        lemma_filter_head(h, p);
        assert(s.skip(1).drop_last() =~= h.skip(1));
        assert(s.skip(1).last() == s.last());
        assert(s.filter(p) =~= if p(s[0]) {
            seq![s[0]] + s.skip(1).filter(p)
        } else {
            s.skip(1).filter(p)
        });
    }
}

/// Changing records one by one, each in its place, keeps the aggregates true.
pub proof fn revising_keeps_aggregates_true(
    quotas: Seq<QuotaRowView>,
    done: Seq<FileRowView>,
    rest: Seq<FileRowView>,
    hit: spec_fn(FileRowView) -> bool,
    change: spec_fn(FileRowView) -> FileRowView,
)
    requires
        distinct_keys(done + rest),
        sound(quotas, done + rest),
        forall|f: FileRowView| same_key(#[trigger] change(f), f),
    ensures
        sound(
            revised(quotas, done, rest, hit, change),
            done + updated(rest, hit, change),
        ),
        distinct_keys(done + updated(rest, hit, change)),
    decreases rest.len(),
{
    if rest.len() == 0 {
        assert(updated(rest, hit, change) =~= rest);
    } else {
        let all = done + rest;
        let f = rest[0];
        let tail = rest.skip(1);
        let i = done.len() as int;
        let n = if hit(f) {
            change(f)
        } else {
            f
        };
        assert(same_key(change(f), f));
        let next = done.push(n) + tail;
        assert(next =~= all.update(i, n));
        assert(all[i] == f);
        assert forall|a: int, b: int| 0 <= a < b < next.len() implies !same_key(next[a], next[b]) by {
            assert(!same_key(all[a], all[b]));
        }
        if hit(f) {
            crate::quota::change_keeps_aggregates_true(quotas, all, i, n);
            revising_keeps_aggregates_true(
                after_update(quotas, next, f, n),
                done.push(n),
                tail,
                hit,
                change,
            );
        } else {
            assert(next =~= all);
            revising_keeps_aggregates_true(quotas, done.push(n), tail, hit, change);
        }
        assert(done + updated(rest, hit, change) =~= done.push(n) + updated(tail, hit, change));
    }
}

/// Putting a record at its place keeps the aggregates true.
pub proof fn putting_keeps_aggregates_true(
    quotas: Seq<QuotaRowView>,
    files: Seq<FileRowView>,
    f: FileRowView,
)
    requires
        distinct_keys(files),
        sound(quotas, files),
    ensures
        sound(after_put(quotas, files, f), put(files, f)),
        distinct_keys(put(files, f)),
{
    lemma_place_found(files, f);
    let i = place_of(files, f);
    let after = put(files, f);
    assert forall|a: int, b: int| 0 <= a < b < after.len() implies !same_key(after[a], after[b]) by {
        if a < files.len() && b < files.len() {
            assert(!same_key(files[a], files[b]));
        }
        if i == files.len() && b == i {
            assert(!same_key(files[a], f));
        }
    }
    if i < files.len() {
        crate::quota::change_keeps_aggregates_true(quotas, files, i, f);
    } else {
        crate::quota::insertion_keeps_aggregates_true(quotas, files, f);
    }
}

// ---------------------------------------------------------------- operations
fn at_same_key(a: &FileRow, b: &FileRow) -> (r: bool)
    ensures
        r == same_key(a@, b@),
{
    same(a.link_id.as_str(), b.link_id.as_str()) && same(
        a.upload_id.as_str(),
        b.upload_id.as_str(),
    ) && a.file_index == b.file_index
}

/// Whether two records are of the same stored file.
pub fn is_same_object(a: &FileRow, b: &FileRow) -> (r: bool)
    ensures
        r == same_object(a@, b@),
{
    let a_bare = a.stored_as.as_str().unicode_len() == 0;
    let b_bare = b.stored_as.as_str().unicode_len() == 0;
    same(a.tenant.as_str(), b.tenant.as_str()) && a_bare == b_bare && if !a_bare {
        same(a.stored_as.as_str(), b.stored_as.as_str())
    } else {
        at_same_key(a, b)
    }
}

/// The length of a file record.
pub fn file_bytes(f: &FileRow) -> (bytes: u64)
    ensures
        bytes == weight(f@),
{
    combine_byte_sums(f.bytes_hi, f.bytes_lo)
}

fn greatest_length(files: &Vec<FileRow>) -> (r: u64)
    ensures
        r == heaviest(files.deep_view()),
{
    let ghost all = files.deep_view();
    let mut r: u64 = 0;
    let mut i: usize = 0;
    assert(all.take(0) =~= Seq::<FileRowView>::empty());
    while i < files.len()
        invariant
            i <= files.len(),
            all == files.deep_view(),
            r == heaviest(all.take(i as int)),
        decreases files.len() - i,
    {
        proof {
            assert(all.take(i + 1).drop_last() =~= all.take(i as int));
            assert(all.take(i + 1).last() == files@[i as int]@);
        }
        let bytes: u64 = file_bytes(&files[i]);
        if bytes > r {
            r = bytes;
        }
        i += 1;
    }
    assert(all.take(i as int) =~= all);
    r
}

/// What `f` exceeds its rivals by, other than the record at the place `except`.
fn own_share(files: &Vec<FileRow>, f: &FileRow, except: &FileRow) -> (r: u64)
    ensures
        r == excess(weight(f@), heaviest(files.deep_view().filter(rival_but(f@, except@)))),
{
    let rival = |c: &FileRow| -> (b: bool)
        ensures
            b == rival_but(f@, except@)(c@),
    {
        !c.deleted && is_same_object(c, f) && !at_same_key(c, except)
    };
    let rivals = select(files, rival, Ghost(rival_but(f@, except@)));
    let most: u64 = greatest_length(&rivals);
    let own: u64 = file_bytes(f);
    if own > most {
        own - most
    } else {
        0
    }
}

fn ensure_quota(
    quotas: &mut Vec<QuotaRow>,
    files: &Vec<FileRow>,
    tenant: &str,
    except: &FileRow,
)
    ensures
        final(quotas).deep_view() == ensured(
            old(quotas).deep_view(),
            files.deep_view(),
            tenant@,
            except@,
        ),
{
    let own = |q: &QuotaRow| -> (b: bool)
        ensures
            b == quota_is(tenant@)(q@),
    {
        same(q.tenant.as_str(), tenant)
    };
    if exists_where(quotas, own, Ghost(quota_is(tenant@))) {
        return;
    }
    let live = |c: &FileRow| -> (b: bool)
        ensures
            b == live_but(tenant@, except@)(c@),
    {
        same(c.tenant.as_str(), tenant) && !c.deleted && !at_same_key(c, except)
    };
    let dirty = exists_where(files, live, Ghost(live_but(tenant@, except@)));
    append_row(
        quotas,
        QuotaRow {
            tenant: tenant.to_owned(),
            bytes_hi: 0,
            bytes_lo: 0,
            state: if dirty {
                QUOTA_DIRTY
            } else {
                QUOTA_EXACT
            },
        },
    );
}

fn raise(q: &QuotaRow, delta: u64) -> (r: QuotaRow)
    ensures
        r@ == raised(delta as int)(q@),
{
    let total: u128 = combine_byte_sums(q.bytes_hi, q.bytes_lo) as u128 + delta as u128;
    let upper: u128 = total / LIMB as u128;
    let lower: u128 = total % LIMB as u128;
    QuotaRow {
        tenant: q.tenant.clone(),
        bytes_hi: if upper < LIMB as u128 {
            upper as i64
        } else {
            (LIMB - 1) as i64
        },
        bytes_lo: lower as i64,
        state: if total >= u64::MAX as u128 {
            QUOTA_SATURATED
        } else {
            QUOTA_EXACT
        },
    }
}

fn lower(q: &QuotaRow, delta: u64) -> (r: QuotaRow)
    ensures
        r@ == lowered(delta as int)(q@),
{
    let value: u64 = combine_byte_sums(q.bytes_hi, q.bytes_lo);
    let (hi, lo) = if value < delta {
        (q.bytes_hi, q.bytes_lo)
    } else {
        split_bytes(value - delta)
    };
    QuotaRow {
        tenant: q.tenant.clone(),
        bytes_hi: hi,
        bytes_lo: lo,
        state: if q.state == QUOTA_SATURATED && delta > 0 {
            QUOTA_DIRTY
        } else if q.state == QUOTA_EXACT && value < delta {
            QUOTA_DIRTY
        } else {
            q.state
        },
    }
}

fn add_share(quotas: &mut Vec<QuotaRow>, files: &Vec<FileRow>, f: &FileRow)
    ensures
        final(quotas).deep_view() == with_share(old(quotas).deep_view(), files.deep_view(), f@),
{
    let delta: u64 = own_share(files, f, f);
    let hit = |q: &QuotaRow| -> (b: bool)
        ensures
            b == exact_quota(f.tenant@)(q@),
    {
        same(q.tenant.as_str(), f.tenant.as_str()) && q.state == QUOTA_EXACT
    };
    let change = |q: &QuotaRow| -> (r: QuotaRow)
        ensures
            r@ == raised(delta as int)(q@),
    {
        raise(q, delta)
    };
    update_where(quotas, hit, change, Ghost(exact_quota(f.tenant@)), Ghost(raised(delta as int)));
}

fn take_share(quotas: &mut Vec<QuotaRow>, files: &Vec<FileRow>, f: &FileRow, except: &FileRow)
    ensures
        final(quotas).deep_view() == without_share(
            old(quotas).deep_view(),
            files.deep_view(),
            f@,
            except@,
        ),
{
    let delta: u64 = own_share(files, f, except);
    let hit = |q: &QuotaRow| -> (b: bool)
        ensures
            b == clean_quota(f.tenant@)(q@),
    {
        same(q.tenant.as_str(), f.tenant.as_str()) && (q.state == QUOTA_EXACT || q.state
            == QUOTA_SATURATED)
    };
    let change = |q: &QuotaRow| -> (r: QuotaRow)
        ensures
            r@ == lowered(delta as int)(q@),
    {
        lower(q, delta)
    };
    update_where(quotas, hit, change, Ghost(clean_quota(f.tenant@)), Ghost(lowered(delta as int)));
}

fn on_insert(quotas: &mut Vec<QuotaRow>, files: &Vec<FileRow>, f: &FileRow)
    ensures
        final(quotas).deep_view() == after_insert(old(quotas).deep_view(), files.deep_view(), f@),
{
    if !f.deleted {
        ensure_quota(quotas, files, f.tenant.as_str(), f);
        add_share(quotas, files, f);
    }
}

fn on_delete(quotas: &mut Vec<QuotaRow>, files: &Vec<FileRow>, f: &FileRow)
    ensures
        final(quotas).deep_view() == after_delete(old(quotas).deep_view(), files.deep_view(), f@),
{
    let dirty = |q: &QuotaRow| -> (b: bool)
        ensures
            b == dirty_quota(f.tenant@)(q@),
    {
        same(q.tenant.as_str(), f.tenant.as_str()) && q.state == QUOTA_DIRTY
    };
    if !f.deleted && !exists_where(quotas, dirty, Ghost(dirty_quota(f.tenant@))) {
        ensure_quota(quotas, files, f.tenant.as_str(), f);
        take_share(quotas, files, f, f);
    }
}

fn is_counted_alike(a: &FileRow, b: &FileRow) -> (r: bool)
    ensures
        r == counts_alike(a@, b@),
{
    same(a.tenant.as_str(), b.tenant.as_str()) && at_same_key(a, b) && a.bytes_hi == b.bytes_hi
        && a.bytes_lo == b.bytes_lo && a.deleted == b.deleted && same(
        a.stored_as.as_str(),
        b.stored_as.as_str(),
    )
}

fn on_update(quotas: &mut Vec<QuotaRow>, files: &Vec<FileRow>, was: &FileRow, now: &FileRow)
    ensures
        final(quotas).deep_view() == after_update(
            old(quotas).deep_view(),
            files.deep_view(),
            was@,
            now@,
        ),
{
    if is_counted_alike(was, now) {
        return;
    }
    ensure_quota(quotas, files, was.tenant.as_str(), now);
    ensure_quota(quotas, files, now.tenant.as_str(), now);
    if !was.deleted {
        take_share(quotas, files, was, now);
    }
    if !now.deleted {
        add_share(quotas, files, now);
    }
}

/// Inserts a record.
pub fn insert_file(files: &mut Vec<FileRow>, quotas: &mut Vec<QuotaRow>, f: FileRow)
    ensures
        final(files).deep_view() == old(files).deep_view().push(f@),
        final(quotas).deep_view() == after_insert(
            old(quotas).deep_view(),
            old(files).deep_view().push(f@),
            f@,
        ),
{
    let row = f.dup();
    append_row(files, f);
    on_insert(quotas, files, &row);
}

/// Puts a record at its place: over the record that is there, or at the end.
pub fn put_file(files: &mut Vec<FileRow>, quotas: &mut Vec<QuotaRow>, f: FileRow)
    ensures
        final(files).deep_view() == put(old(files).deep_view(), f@),
        final(quotas).deep_view() == after_put(old(quotas).deep_view(), old(files).deep_view(), f@),
{
    let ghost before = files.deep_view();
    let mut i: usize = 0;
    while i < files.len()
        invariant
            i <= files.len(),
            before == files.deep_view(),
            forall|j: int| 0 <= j < i ==> !same_key(#[trigger] before[j], f@),
        ensures
            i <= files.len(),
            i < files.len() ==> same_key(before[i as int], f@),
        decreases files.len() - i,
    {
        if at_same_key(&files[i], &f) {
            assert(same_key(before[i as int], f@));
            break;
        }
        assert(!same_key(before[i as int], f@));
        i += 1;
    }
    proof {
        lemma_place(before, f@, i as int);
    }
    let row = f.dup();
    if i < files.len() {
        let was = files[i].dup();
        files.set(i, f);
        assert(files.deep_view() =~= before.update(i as int, f@));
        on_update(quotas, files, &was, &row);
    } else {
        append_row(files, f);
        on_insert(quotas, files, &row);
    }
}

/// Deletes the records that satisfy `gone`, one by one.
pub fn delete_files<F: Fn(&FileRow) -> bool>(
    files: &mut Vec<FileRow>,
    quotas: &mut Vec<QuotaRow>,
    gone: F,
    Ghost(p): Ghost<spec_fn(FileRowView) -> bool>,
    Ghost(q): Ghost<spec_fn(FileRowView) -> bool>,
)
    requires
        forall|r: &FileRow| gone.requires((r,)),
        forall|r: &FileRow, b: bool| gone.ensures((r,), b) ==> b == p(r@),
        forall|r: FileRowView| #[trigger] q(r) == !p(r),
    ensures
        final(files).deep_view() == old(files).deep_view().filter(q),
        final(quotas).deep_view() == purged(
            old(quotas).deep_view(),
            Seq::empty(),
            old(files).deep_view(),
            p,
        ),
{
    let ghost all = files.deep_view();
    let ghost was = quotas.deep_view();
    let ghost mut seen: int = 0;
    let mut i: usize = 0;
    proof {
        reveal(Seq::filter);
        assert(all.skip(0) =~= all);
        assert(files.deep_view().take(0) =~= Seq::<FileRowView>::empty());
        assert(all.take(0) =~= Seq::<FileRowView>::empty());
        assert(files.deep_view().skip(0) =~= all);
    }
    while i < files.len()
        invariant
            i <= files.len(),
            0 <= seen <= all.len(),
            files.len() - i == all.len() - seen,
            files.deep_view().skip(i as int) =~= all.skip(seen),
            files.deep_view().take(i as int) =~= all.take(seen).filter(q),
            purged(was, Seq::empty(), all, p) == purged(
                quotas.deep_view(),
                files.deep_view().take(i as int),
                all.skip(seen),
                p,
            ),
            forall|r: &FileRow| gone.requires((r,)),
            forall|r: &FileRow, b: bool| gone.ensures((r,), b) ==> b == p(r@),
            forall|r: FileRowView| #[trigger] q(r) == !p(r),
        decreases files.len() - i,
    {
        let ghost before = files.deep_view();
        proof {
            crate::table::lemma_filter_take(all, seen, q);
            assert(before.skip(i as int)[0] == all.skip(seen)[0]);
            assert(q(all[seen]) == !p(all[seen]));
            assert(all.skip(seen).skip(1) =~= all.skip(seen + 1));
            assert(before.skip(i as int).skip(1) =~= all.skip(seen + 1));
        }
        if gone(&files[i]) {
            let f = files.remove(i);
            proof {
                assert(files.deep_view() =~= before.remove(i as int));
                assert(files.deep_view() =~= before.take(i as int) + all.skip(seen).skip(1)) by {
                    let tail = all.skip(seen).skip(1);
                    assert forall|k: int| 0 <= k < tail.len() implies tail[k] == before[i + 1 + k] by {
                        assert(before.skip(i as int)[k + 1] == all.skip(seen)[k + 1]);
                    }
                }
                assert(files.deep_view().take(i as int) =~= before.take(i as int));
                assert(files.deep_view().skip(i as int) =~= before.skip(i as int).skip(1));
            }
            on_delete(quotas, files, &f);
        } else {
            i += 1;
            proof {
                assert(before.take(i as int) =~= before.take(i - 1).push(before[i - 1]));
                assert(before.skip(i as int) =~= before.skip(i - 1).skip(1));
            }
        }
        proof {
            seen = seen + 1;
        }
    }
    proof {
        assert(all.take(seen) =~= all);
        assert(files.deep_view().take(i as int) =~= files.deep_view());
        assert(all.skip(seen).len() == 0);
    }
}

/// Changes the records that satisfy `hit`, one by one.
pub fn change_files<F: Fn(&FileRow) -> bool, G: Fn(&FileRow) -> FileRow>(
    files: &mut Vec<FileRow>,
    quotas: &mut Vec<QuotaRow>,
    hit: F,
    change: G,
    Ghost(p): Ghost<spec_fn(FileRowView) -> bool>,
    Ghost(u): Ghost<spec_fn(FileRowView) -> FileRowView>,
)
    requires
        forall|r: &FileRow| hit.requires((r,)),
        forall|r: &FileRow, b: bool| hit.ensures((r,), b) ==> b == p(r@),
        forall|r: &FileRow| change.requires((r,)),
        forall|r: &FileRow, c: FileRow| change.ensures((r,), c) ==> c@ == u(r@),
    ensures
        final(files).deep_view() == updated(old(files).deep_view(), p, u),
        final(quotas).deep_view() == revised(
            old(quotas).deep_view(),
            Seq::empty(),
            old(files).deep_view(),
            p,
            u,
        ),
{
    let ghost all = files.deep_view();
    let ghost was = quotas.deep_view();
    let mut i: usize = 0;
    proof {
        assert(all.skip(0) =~= all);
        assert(files.deep_view().take(0) =~= Seq::<FileRowView>::empty());
    }
    while i < files.len()
        invariant
            i <= files.len(),
            files.len() == all.len(),
            files.deep_view().skip(i as int) =~= all.skip(i as int),
            files.deep_view().take(i as int) =~= updated(all, p, u).take(i as int),
            revised(was, Seq::empty(), all, p, u) == revised(
                quotas.deep_view(),
                files.deep_view().take(i as int),
                all.skip(i as int),
                p,
                u,
            ),
            forall|r: &FileRow| hit.requires((r,)),
            forall|r: &FileRow, b: bool| hit.ensures((r,), b) ==> b == p(r@),
            forall|r: &FileRow| change.requires((r,)),
            forall|r: &FileRow, c: FileRow| change.ensures((r,), c) ==> c@ == u(r@),
        decreases files.len() - i,
    {
        let ghost before = files.deep_view();
        proof {
            assert(before.skip(i as int)[0] == all.skip(i as int)[0]);
            assert(all.skip(i as int).skip(1) =~= all.skip(i + 1));
            assert(before.skip(i as int).skip(1) =~= before.skip(i + 1));
        }
        if hit(&files[i]) {
            let now = change(&files[i]);
            let row = now.dup();
            let old_row = files[i].dup();
            files.set(i, now);
            proof {
                let after = files.deep_view();
                assert(after =~= before.update(i as int, row@));
                assert(after =~= before.take(i as int).push(row@) + all.skip(i as int).skip(1)) by {
                    assert forall|k: int| i < k < after.len() implies after[k] == all.skip(
                        i as int,
                    ).skip(1)[k - i - 1] by {
                        assert(before.skip(i as int)[k - i] == all.skip(i as int)[k - i]);
                    }
                }
                assert(after.take(i + 1) =~= before.take(i as int).push(row@));
                assert(after.skip(i + 1) =~= before.skip(i + 1));
            }
            on_update(quotas, files, &old_row, &row);
        } else {
            proof {
                assert(before.take(i + 1) =~= before.take(i as int).push(before[i as int]));
            }
        }
        i += 1;
        proof {
            assert(updated(all, p, u).take(i as int) =~= updated(all, p, u).take(i - 1).push(
                updated(all, p, u)[i - 1],
            ));
        }
    }
    proof {
        assert(files.deep_view().take(i as int) =~= files.deep_view());
        assert(updated(all, p, u).take(i as int) =~= updated(all, p, u));
        assert(all.skip(i as int).len() == 0);
    }
}

} // verus!
