//! The received bytes of each tenant.
//!
//! A tenant's usage is kept as an aggregate beside the file records. Records of
//! the same stored file count once, with the greatest length among them. Every
//! insertion, deletion and change of a file record adjusts the aggregate by the
//! difference it makes; where the difference can no longer be told, the
//! aggregate is marked dirty and counted anew when it is next asked for.
use vstd::prelude::*;

use crate::columns::{LIMB, high, is_limb, joined, low};
use crate::rows::{FileRowView, QuotaRowView};
use crate::table::{any, lemma_filter_agree, lemma_filter_push, lemma_filter_without, updated};
use crate::text::same;

verus! {

// ------------------------------------------------------------ specifications
/// The aggregate is exact.
pub const QUOTA_EXACT: i64 = 0;

/// The usage is the greatest length or more.
pub const QUOTA_SATURATED: i64 = 1;

/// The usage has to be counted anew.
pub const QUOTA_DIRTY: i64 = 2;

/// The length of a file record.
pub open spec fn weight(f: FileRowView) -> u64 {
    joined(f.bytes_hi, f.bytes_lo)
}

/// Whether two records of a tenant are of the same stored file. A record
/// without a stored path stands for itself.
pub open spec fn same_object(a: FileRowView, b: FileRowView) -> bool {
    a.tenant == b.tenant && (a.stored_as.len() == 0) == (b.stored_as.len() == 0) && if a.stored_as.len()
        > 0 {
        a.stored_as == b.stored_as
    } else {
        same_key(a, b)
    }
}

/// Whether two records stand at the same place.
pub open spec fn same_key(a: FileRowView, b: FileRowView) -> bool {
    a.link_id == b.link_id && a.upload_id == b.upload_id && a.file_index == b.file_index
}

/// Whether a record is of a file that `tenant` still stores.
pub open spec fn live_in(tenant: Seq<char>) -> spec_fn(FileRowView) -> bool {
    |f: FileRowView| f.tenant == tenant && !f.deleted
}

/// Live records of the same stored file.
pub open spec fn rival_of(f: FileRowView) -> spec_fn(FileRowView) -> bool {
    |c: FileRowView| !c.deleted && same_object(c, f)
}

/// Live records of the same stored file, other than the record at a place.
pub open spec fn rival_but(f: FileRowView, except: FileRowView) -> spec_fn(FileRowView) -> bool {
    |c: FileRowView| !c.deleted && same_object(c, f) && !same_key(c, except)
}

/// The tenant's live records, other than the record at a place.
pub open spec fn live_but(tenant: Seq<char>, except: FileRowView) -> spec_fn(FileRowView) -> bool {
    |c: FileRowView| c.tenant == tenant && !c.deleted && !same_key(c, except)
}

/// The greatest length among records, or 0.
pub open spec fn heaviest(s: Seq<FileRowView>) -> u64
    decreases s.len(),
{
    if s.len() == 0 {
        0
    } else if weight(s.last()) > heaviest(s.drop_last()) {
        weight(s.last())
    } else {
        heaviest(s.drop_last())
    }
}

/// By how much a length exceeds another.
pub open spec fn excess(a: u64, b: u64) -> int {
    if a > b {
        a - b
    } else {
        0
    }
}

/// The bytes that `tenant` stores: each record adds what it exceeds the records
/// of the same stored file by.
pub open spec fn usage(files: Seq<FileRowView>, tenant: Seq<char>) -> int
    decreases files.len(),
{
    if files.len() == 0 {
        0
    } else {
        usage(files.drop_last(), tenant) + share(files.drop_last(), files.last(), tenant)
    }
}

/// What one more record adds to the bytes that `tenant` stores.
pub open spec fn share(files: Seq<FileRowView>, f: FileRowView, tenant: Seq<char>) -> int {
    if live_in(tenant)(f) {
        excess(weight(f), heaviest(files.filter(rival_of(f))))
    } else {
        0
    }
}

/// The aggregate of a tenant.
pub open spec fn quota_is(tenant: Seq<char>) -> spec_fn(QuotaRowView) -> bool {
    |q: QuotaRowView| q.tenant == tenant
}

/// The exact aggregate of a tenant.
pub open spec fn exact_quota(tenant: Seq<char>) -> spec_fn(QuotaRowView) -> bool {
    |q: QuotaRowView| q.tenant == tenant && q.state == QUOTA_EXACT
}

/// The aggregate of a tenant, unless it is dirty.
pub open spec fn clean_quota(tenant: Seq<char>) -> spec_fn(QuotaRowView) -> bool {
    |q: QuotaRowView|
        q.tenant == tenant && (q.state == QUOTA_EXACT || q.state == QUOTA_SATURATED)
}

/// The dirty aggregate of a tenant.
pub open spec fn dirty_quota(tenant: Seq<char>) -> spec_fn(QuotaRowView) -> bool {
    |q: QuotaRowView| q.tenant == tenant && q.state == QUOTA_DIRTY
}

/// The bytes that an aggregate holds.
pub open spec fn held(q: QuotaRowView) -> u64 {
    joined(q.bytes_hi, q.bytes_lo)
}

/// An aggregate with `delta` bytes more.
pub open spec fn raised(delta: int) -> spec_fn(QuotaRowView) -> QuotaRowView {
    |q: QuotaRowView|
        {
            let total = held(q) + delta;
            QuotaRowView {
                bytes_hi: if total / (LIMB as int) < LIMB {
                    (total / (LIMB as int)) as i64
                } else {
                    (LIMB - 1) as i64
                },
                bytes_lo: (total % (LIMB as int)) as i64,
                state: if total >= u64::MAX {
                    QUOTA_SATURATED
                } else {
                    QUOTA_EXACT
                },
                ..q
            }
        }
}

/// An aggregate with `delta` bytes less. One that holds less than that, or that
/// is saturated and loses bytes, becomes dirty.
pub open spec fn lowered(delta: int) -> spec_fn(QuotaRowView) -> QuotaRowView {
    |q: QuotaRowView|
        QuotaRowView {
            bytes_hi: if held(q) < delta {
                q.bytes_hi
            } else {
                high((held(q) - delta) as u64)
            },
            bytes_lo: if held(q) < delta {
                q.bytes_lo
            } else {
                low((held(q) - delta) as u64)
            },
            state: if q.state == QUOTA_SATURATED && delta > 0 {
                QUOTA_DIRTY
            } else if q.state == QUOTA_EXACT && held(q) < delta {
                QUOTA_DIRTY
            } else {
                q.state
            },
            ..q
        }
}

/// The aggregates with one for `tenant`: a new one is empty, and dirty where
/// the tenant has live records besides the one at a place.
pub open spec fn ensured(
    quotas: Seq<QuotaRowView>,
    files: Seq<FileRowView>,
    tenant: Seq<char>,
    except: FileRowView,
) -> Seq<QuotaRowView> {
    if any(quotas, quota_is(tenant)) {
        quotas
    } else {
        quotas.push(
            QuotaRowView {
                tenant,
                bytes_hi: 0,
                bytes_lo: 0,
                state: if any(files, live_but(tenant, except)) {
                    QUOTA_DIRTY
                } else {
                    QUOTA_EXACT
                },
            },
        )
    }
}

/// The aggregates with what `f` adds to the other records in `files`.
pub open spec fn with_share(
    quotas: Seq<QuotaRowView>,
    files: Seq<FileRowView>,
    f: FileRowView,
) -> Seq<QuotaRowView> {
    updated(
        quotas,
        exact_quota(f.tenant),
        raised(excess(weight(f), heaviest(files.filter(rival_but(f, f))))),
    )
}

/// The aggregates without what `f` added to the records in `files` other than
/// that at a place.
pub open spec fn without_share(
    quotas: Seq<QuotaRowView>,
    files: Seq<FileRowView>,
    f: FileRowView,
    except: FileRowView,
) -> Seq<QuotaRowView> {
    updated(
        quotas,
        clean_quota(f.tenant),
        lowered(excess(weight(f), heaviest(files.filter(rival_but(f, except))))),
    )
}

/// The aggregates after `f` was inserted, `files` being the records with it.
pub open spec fn after_insert(
    quotas: Seq<QuotaRowView>,
    files: Seq<FileRowView>,
    f: FileRowView,
) -> Seq<QuotaRowView> {
    if f.deleted {
        quotas
    } else {
        with_share(ensured(quotas, files, f.tenant, f), files, f)
    }
}

/// The aggregates after `f` was deleted, `files` being the records without it.
pub open spec fn after_delete(
    quotas: Seq<QuotaRowView>,
    files: Seq<FileRowView>,
    f: FileRowView,
) -> Seq<QuotaRowView> {
    if f.deleted || any(quotas, dirty_quota(f.tenant)) {
        quotas
    } else {
        without_share(ensured(quotas, files, f.tenant, f), files, f, f)
    }
}

/// Whether a change of a record bears on the usage.
pub open spec fn counts_alike(a: FileRowView, b: FileRowView) -> bool {
    a.tenant == b.tenant && same_key(a, b) && a.bytes_hi == b.bytes_hi && a.bytes_lo == b.bytes_lo
        && a.deleted == b.deleted && a.stored_as == b.stored_as
}

/// The aggregates after `was` became `now`, `files` being the records since.
pub open spec fn after_update(
    quotas: Seq<QuotaRowView>,
    files: Seq<FileRowView>,
    was: FileRowView,
    now: FileRowView,
) -> Seq<QuotaRowView> {
    if counts_alike(was, now) {
        quotas
    } else {
        let quotas = ensured(
            ensured(quotas, files, was.tenant, now),
            files,
            now.tenant,
            now,
        );
        let quotas = if was.deleted {
            quotas
        } else {
            without_share(quotas, files, was, now)
        };
        if now.deleted {
            quotas
        } else {
            with_share(quotas, files, now)
        }
    }
}

// ----------------------------------------------------------------- soundness
/// Whether no two records stand at the same place.
pub open spec fn distinct_keys(files: Seq<FileRowView>) -> bool {
    forall|i: int, j: int| 0 <= i < j < files.len() ==> !same_key(files[i], files[j])
}

/// Whether an aggregate is true of the records.
pub open spec fn true_of(q: QuotaRowView, files: Seq<FileRowView>) -> bool {
    &&& is_limb(q.bytes_hi)
    &&& is_limb(q.bytes_lo)
    &&& q.state == QUOTA_EXACT || q.state == QUOTA_SATURATED || q.state == QUOTA_DIRTY
    &&& q.state == QUOTA_EXACT ==> held(q) == usage(files, q.tenant) && held(q) < u64::MAX
    &&& q.state == QUOTA_SATURATED ==> usage(files, q.tenant) >= u64::MAX
}

/// Whether the aggregates are true of the records: each is, there is at most
/// one for a tenant, and a tenant without one stores nothing.
pub open spec fn sound(quotas: Seq<QuotaRowView>, files: Seq<FileRowView>) -> bool {
    &&& forall|i: int| 0 <= i < quotas.len() ==> true_of(#[trigger] quotas[i], files)
    &&& forall|i: int, j: int|
        0 <= i < j < quotas.len() ==> quotas[i].tenant != quotas[j].tenant
    &&& forall|t: Seq<char>| !any(quotas, quota_is(t)) ==> !#[trigger] any(files, live_in(t))
}

// -------------------------------------------------------------------- lemmas
proof fn lemma_heaviest_push(s: Seq<FileRowView>, f: FileRowView)
    ensures
        heaviest(s.push(f)) == if weight(f) > heaviest(s) {
            weight(f)
        } else {
            heaviest(s)
        },
{
    assert(s.push(f).drop_last() =~= s);
}

proof fn lemma_heaviest_remove(s: Seq<FileRowView>, i: int)
    requires
        0 <= i < s.len(),
    ensures
        heaviest(s) == if weight(s[i]) > heaviest(s.remove(i)) {
            weight(s[i])
        } else {
            heaviest(s.remove(i))
        },
    decreases s.len(),
{
    if i == s.len() - 1 {
        assert(s.remove(i) =~= s.drop_last());
    } else {
        let h = s.drop_last();
        lemma_heaviest_remove(h, i);
        assert(s.remove(i).drop_last() =~= h.remove(i));
    }
}

/// Of a selection, one record more is one record more to compare with.
pub proof fn lemma_rivals_remove(s: Seq<FileRowView>, i: int, p: spec_fn(FileRowView) -> bool)
    requires
        0 <= i < s.len(),
    ensures
        heaviest(s.filter(p)) == if p(s[i]) && weight(s[i]) > heaviest(s.remove(i).filter(p)) {
            weight(s[i])
        } else {
            heaviest(s.remove(i).filter(p))
        },
    decreases s.len(),
{
    let last = s.last();
    let h = s.drop_last();
    assert(s =~= h.push(last));
    lemma_filter_push(h, last, p);
    if i == s.len() - 1 {
        assert(s.remove(i) =~= h);
        lemma_heaviest_push(h.filter(p), last);
    } else {
        lemma_rivals_remove(h, i, p);
        assert(s.remove(i) =~= h.remove(i).push(last));
        lemma_filter_push(h.remove(i), last, p);
        lemma_heaviest_push(h.filter(p), last);
        lemma_heaviest_push(h.remove(i).filter(p), last);
    }
}

/// Usage does not depend on the order of the records: any record adds what it
/// exceeds the others by.
pub proof fn usage_is_order_free(files: Seq<FileRowView>, i: int, tenant: Seq<char>)
    requires
        0 <= i < files.len(),
    ensures
        usage(files, tenant) == usage(files.remove(i), tenant) + share(
            files.remove(i),
            files[i],
            tenant,
        ),
    decreases files.len(),
{
    let x = files.last();
    let h = files.drop_last();
    if i == files.len() - 1 {
        assert(files.remove(i) =~= h);
    } else {
        let y = files[i];
        let r = h.remove(i);
        usage_is_order_free(h, i, tenant);
        assert(files.remove(i) =~= r.push(x));
        assert(files.remove(i).drop_last() =~= r);
        lemma_filter_push(r, x, rival_of(y));
        lemma_heaviest_push(r.filter(rival_of(y)), x);
        lemma_rivals_remove(h, i, rival_of(x));
        if live_in(tenant)(x) && live_in(tenant)(y) && same_object(x, y) {
            lemma_filter_agree(r, rival_of(x), rival_of(y));
        }
    }
}

pub proof fn lemma_usage_natural(files: Seq<FileRowView>, tenant: Seq<char>)
    ensures
        usage(files, tenant) >= 0,
    decreases files.len(),
{
    if files.len() > 0 {
        lemma_usage_natural(files.drop_last(), tenant);
    }
}

/// A tenant without live records stores nothing.
pub proof fn lemma_no_usage(files: Seq<FileRowView>, tenant: Seq<char>)
    requires
        !any(files, live_in(tenant)),
    ensures
        usage(files, tenant) == 0,
    decreases files.len(),
{
    if files.len() > 0 {
        let h = files.drop_last();
        assert(!live_in(tenant)(files[files.len() - 1]));
        assert forall|i: int| 0 <= i < h.len() implies !live_in(tenant)(#[trigger] h[i]) by {
            assert(!live_in(tenant)(files[i]));
        }
        lemma_no_usage(h, tenant);
    }
}

/// Among records at different places, leaving out the place of the record at
/// `i` leaves out that record alone.
proof fn lemma_rivals_but(files: Seq<FileRowView>, i: int, f: FileRowView)
    requires
        0 <= i < files.len(),
        distinct_keys(files),
    ensures
        files.filter(rival_but(f, files[i])) == files.remove(i).filter(rival_of(f)),
{
    lemma_filter_without(files, i, rival_but(f, files[i]));
    let r = files.remove(i);
    assert forall|k: int| 0 <= k < r.len() implies rival_but(f, files[i])(#[trigger] r[k])
        == rival_of(f)(r[k]) by {
        if k < i {
            assert(!same_key(files[k], files[i]));
        } else {
            assert(!same_key(files[i], files[k + 1]));
        }
    }
    lemma_filter_agree(r, rival_but(f, files[i]), rival_of(f));
}

proof fn lemma_live_remove(files: Seq<FileRowView>, i: int, t: Seq<char>)
    requires
        0 <= i < files.len(),
    ensures
        any(files, live_in(t)) == (live_in(t)(files[i]) || any(files.remove(i), live_in(t))),
{
    let r = files.remove(i);
    if any(files, live_in(t)) {
        let k = choose|k: int| 0 <= k < files.len() && live_in(t)(#[trigger] files[k]);
        if k < i {
            assert(live_in(t)(r[k]));
        } else if k > i {
            assert(live_in(t)(r[k - 1]));
        }
    }
    if any(r, live_in(t)) {
        let k = choose|k: int| 0 <= k < r.len() && live_in(t)(#[trigger] r[k]);
        if k < i {
            assert(live_in(t)(files[k]));
        } else {
            assert(live_in(t)(files[k + 1]));
        }
    }
    if live_in(t)(files[i]) {
        assert(any(files, live_in(t)));
    }
}

/// An aggregate for a tenant that has none yet.
proof fn lemma_ensured_sound(
    quotas: Seq<QuotaRowView>,
    base: Seq<FileRowView>,
    files: Seq<FileRowView>,
    i: int,
    tenant: Seq<char>,
)
    requires
        0 <= i < files.len(),
        distinct_keys(files),
        base == files.remove(i),
        sound(quotas, base),
    ensures
        sound(ensured(quotas, files, tenant, files[i]), base),
        any(ensured(quotas, files, tenant, files[i]), quota_is(tenant)),
        forall|t: Seq<char>|
            any(quotas, quota_is(t)) ==> #[trigger] any(
                ensured(quotas, files, tenant, files[i]),
                quota_is(t),
            ),
{
    let after = ensured(quotas, files, tenant, files[i]);
    if !any(quotas, quota_is(tenant)) {
        assert(!any(base, live_in(tenant)));
        assert(!any(files, live_but(tenant, files[i]))) by {
            if any(files, live_but(tenant, files[i])) {
                let k = choose|k: int|
                    0 <= k < files.len() && live_but(tenant, files[i])(#[trigger] files[k]);
                if k < i {
                    assert(live_in(tenant)(base[k]));
                } else if k > i {
                    assert(live_in(tenant)(base[k - 1]));
                }
            }
        }
        lemma_no_usage(base, tenant);
        let q = after.last();
        assert(after[quotas.len() as int] == q);
        assert(held(q) == 0);
        assert(quota_is(tenant)(after[quotas.len() as int]));
        assert forall|t: Seq<char>| any(quotas, quota_is(t)) implies #[trigger] any(
            after,
            quota_is(t),
        ) by {
            let k = choose|k: int| 0 <= k < quotas.len() && quota_is(t)(#[trigger] quotas[k]);
            assert(quota_is(t)(after[k]));
        }
        assert forall|a: int, b: int| 0 <= a < b < after.len() implies after[a].tenant
            != after[b].tenant by {
            if b == quotas.len() {
                assert(!quota_is(tenant)(quotas[a]));
            }
        }
        assert forall|k: int| 0 <= k < after.len() implies true_of(#[trigger] after[k], base) by {
            if k < quotas.len() {
                assert(true_of(quotas[k], base));
            }
        }
        assert forall|t: Seq<char>| !any(after, quota_is(t)) implies !#[trigger] any(
            base,
            live_in(t),
        ) by {
            if any(quotas, quota_is(t)) {
                assert(any(after, quota_is(t)));
            }
        }
    }
}

/// Adding a live record's share to aggregates that are true of the other
/// records makes them true of all.
proof fn lemma_with_share_sound(quotas: Seq<QuotaRowView>, files: Seq<FileRowView>, i: int)
    requires
        0 <= i < files.len(),
        distinct_keys(files),
        !files[i].deleted,
        sound(quotas, files.remove(i)),
        any(quotas, quota_is(files[i].tenant)),
    ensures
        sound(with_share(quotas, files, files[i]), files),
{
    let f = files[i];
    let base = files.remove(i);
    let after = with_share(quotas, files, f);
    lemma_rivals_but(files, i, f);
    let delta = excess(weight(f), heaviest(base.filter(rival_of(f))));
    assert forall|k: int| 0 <= k < after.len() implies true_of(#[trigger] after[k], files) by {
        let q = quotas[k];
        assert(true_of(q, base));
        usage_is_order_free(files, i, q.tenant);
        if exact_quota(f.tenant)(q) {
            let total = held(q) + delta;
            if total < u64::MAX {
                assert(total / (LIMB as int) < LIMB) by (nonlinear_arith)
                    requires
                        0 <= total < u64::MAX,
                        LIMB == 4_294_967_296,
                ;
                assert(LIMB as int * (total / (LIMB as int)) + total % (LIMB as int) == total)
                    by (nonlinear_arith)
                    requires
                        LIMB == 4_294_967_296,
                ;
            }
        }
    }
    assert forall|t: Seq<char>| !any(after, quota_is(t)) implies !#[trigger] any(
        files,
        live_in(t),
    ) by {
        lemma_live_remove(files, i, t);
        if any(quotas, quota_is(t)) {
            let k = choose|k: int| 0 <= k < quotas.len() && quota_is(t)(#[trigger] quotas[k]);
            assert(quota_is(t)(after[k]));
        }
    }
}

/// Taking a live record's share from aggregates that are true of all records
/// makes them true of the others.
proof fn lemma_without_share_sound(
    quotas: Seq<QuotaRowView>,
    files: Seq<FileRowView>,
    i: int,
    delta: int,
)
    requires
        0 <= i < files.len(),
        !files[i].deleted,
        sound(quotas, files),
        delta == excess(
            weight(files[i]),
            heaviest(files.remove(i).filter(rival_of(files[i]))),
        ),
    ensures
        sound(
            updated(quotas, clean_quota(files[i].tenant), lowered(delta)),
            files.remove(i),
        ),
{
    let f = files[i];
    let base = files.remove(i);
    let after = updated(quotas, clean_quota(f.tenant), lowered(delta));
    assert forall|k: int| 0 <= k < after.len() implies true_of(#[trigger] after[k], base) by {
        let q = quotas[k];
        assert(true_of(q, files));
        usage_is_order_free(files, i, q.tenant);
        lemma_usage_natural(base, q.tenant);
    }
    assert forall|t: Seq<char>| !any(after, quota_is(t)) implies !#[trigger] any(
        base,
        live_in(t),
    ) by {
        lemma_live_remove(files, i, t);
        if any(quotas, quota_is(t)) {
            let k = choose|k: int| 0 <= k < quotas.len() && quota_is(t)(#[trigger] quotas[k]);
            assert(quota_is(t)(after[k]));
        }
    }
}

/// What does not count for usage does not bear on soundness.
proof fn lemma_sound_without_dead(quotas: Seq<QuotaRowView>, files: Seq<FileRowView>, i: int)
    requires
        0 <= i < files.len(),
        files[i].deleted,
    ensures
        sound(quotas, files) == sound(quotas, files.remove(i)),
{
    let base = files.remove(i);
    assert forall|q: QuotaRowView| #[trigger] true_of(q, files) == true_of(q, base) by {
        usage_is_order_free(files, i, q.tenant);
    }
    assert forall|t: Seq<char>| #[trigger] any(files, live_in(t)) == any(base, live_in(t)) by {
        lemma_live_remove(files, i, t);
    }
    if sound(quotas, base) {
        assert forall|t: Seq<char>| !any(quotas, quota_is(t)) implies !#[trigger] any(
            files,
            live_in(t),
        ) by {
            assert(!any(base, live_in(t)));
        }
    }
    if sound(quotas, files) {
        assert forall|t: Seq<char>| !any(quotas, quota_is(t)) implies !#[trigger] any(
            base,
            live_in(t),
        ) by {
            assert(!any(files, live_in(t)));
        }
    }
}

// ---------------------------------------------------------------------- laws
/// Inserting a record at a new place keeps the aggregates true.
pub proof fn insertion_keeps_aggregates_true(
    quotas: Seq<QuotaRowView>,
    files: Seq<FileRowView>,
    f: FileRowView,
)
    requires
        distinct_keys(files.push(f)),
        sound(quotas, files),
    ensures
        sound(after_insert(quotas, files.push(f), f), files.push(f)),
{
    let all = files.push(f);
    let i = files.len() as int;
    assert(all.remove(i) =~= files);
    assert(all[i] == f);
    if f.deleted {
        lemma_sound_without_dead(quotas, all, i);
    } else {
        lemma_ensured_sound(quotas, files, all, i, f.tenant);
        lemma_with_share_sound(ensured(quotas, all, f.tenant, f), all, i);
    }
}

/// Deleting a record keeps the aggregates true.
pub proof fn deletion_keeps_aggregates_true(
    quotas: Seq<QuotaRowView>,
    files: Seq<FileRowView>,
    i: int,
)
    requires
        0 <= i < files.len(),
        distinct_keys(files),
        sound(quotas, files),
    ensures
        sound(after_delete(quotas, files.remove(i), files[i]), files.remove(i)),
{
    let f = files[i];
    let base = files.remove(i);
    if f.deleted {
        lemma_sound_without_dead(quotas, files, i);
    } else {
        assert(live_in(f.tenant)(files[i]));
        assert(any(files, live_in(f.tenant)));
        assert(any(quotas, quota_is(f.tenant)));
        if any(quotas, dirty_quota(f.tenant)) {
            let d = choose|k: int|
                0 <= k < quotas.len() && dirty_quota(f.tenant)(#[trigger] quotas[k]);
            assert forall|k: int| 0 <= k < quotas.len() implies true_of(
                #[trigger] quotas[k],
                base,
            ) by {
                assert(true_of(quotas[k], files));
                usage_is_order_free(files, i, quotas[k].tenant);
                if quotas[k].tenant == f.tenant && k != d {
                    if k < d {
                        assert(quotas[k].tenant != quotas[d].tenant);
                    } else {
                        assert(quotas[d].tenant != quotas[k].tenant);
                    }
                }
            }
            assert forall|t: Seq<char>| !any(quotas, quota_is(t)) implies !#[trigger] any(
                base,
                live_in(t),
            ) by {
                lemma_live_remove(files, i, t);
                assert(!any(files, live_in(t)));
            }
        } else {
            let p = rival_but(f, f);
            assert forall|k: int| 0 <= k < base.len() implies p(#[trigger] base[k])
                == rival_of(f)(base[k]) by {
                if k < i {
                    assert(!same_key(files[k], files[i]));
                } else {
                    assert(!same_key(files[i], files[k + 1]));
                }
            }
            lemma_filter_agree(base, p, rival_of(f));
            lemma_without_share_sound(
                quotas,
                files,
                i,
                excess(weight(f), heaviest(base.filter(rival_of(f)))),
            );
        }
    }
}

/// Changing a record, be it its place, its tenant, its path or whether it is
/// deleted, keeps the aggregates true.
pub proof fn change_keeps_aggregates_true(
    quotas: Seq<QuotaRowView>,
    files: Seq<FileRowView>,
    i: int,
    now: FileRowView,
)
    requires
        0 <= i < files.len(),
        distinct_keys(files),
        distinct_keys(files.update(i, now)),
        sound(quotas, files),
    ensures
        sound(
            after_update(quotas, files.update(i, now), files[i], now),
            files.update(i, now),
        ),
{
    let was = files[i];
    let all = files.update(i, now);
    let base = files.remove(i);
    assert(all.remove(i) =~= base);
    if counts_alike(was, now) {
        assert forall|t: Seq<char>| usage(all, t) == #[trigger] usage(files, t) by {
            usage_is_order_free(files, i, t);
            usage_is_order_free(all, i, t);
            lemma_filter_agree(base, rival_of(was), rival_of(now));
        }
        assert forall|k: int| 0 <= k < quotas.len() implies true_of(#[trigger] quotas[k], all) by {
            assert(true_of(quotas[k], files));
            assert(usage(all, quotas[k].tenant) == usage(files, quotas[k].tenant));
        }
        assert forall|t: Seq<char>| !any(quotas, quota_is(t)) implies !#[trigger] any(
            all,
            live_in(t),
        ) by {
            lemma_live_remove(files, i, t);
            lemma_live_remove(all, i, t);
            assert(!any(files, live_in(t)));
        }
    } else {
        let q1 = ensured(quotas, all, was.tenant, now);
        let q2 = ensured(q1, all, now.tenant, now);
        // What is missing is missing of the other records too.
        let reduced = if was.deleted {
            quotas
        } else {
            updated(
                quotas,
                clean_quota(was.tenant),
                lowered(excess(weight(was), heaviest(base.filter(rival_of(was))))),
            )
        };
        lemma_rivals_but(all, i, was);
        if was.deleted {
            lemma_sound_without_dead(quotas, files, i);
        } else {
            lemma_without_share_sound(
                quotas,
                files,
                i,
                excess(weight(was), heaviest(base.filter(rival_of(was)))),
            );
            assert(live_in(was.tenant)(files[i]));
            assert(any(files, live_in(was.tenant)));
        }
        // Lowering what is there and adding what is not commute.
        let r1 = ensured(reduced, all, was.tenant, now);
        let r2 = ensured(r1, all, now.tenant, now);
        lemma_ensured_sound(reduced, base, all, i, was.tenant);
        lemma_ensured_sound(r1, base, all, i, now.tenant);
        let lowered_q2 = if was.deleted {
            q2
        } else {
            without_share(q2, all, was, now)
        };
        if !was.deleted {
            let p = clean_quota(was.tenant);
            let u = lowered(excess(weight(was), heaviest(base.filter(rival_of(was)))));
            lemma_any_updated(quotas, p, u, was.tenant);
            lemma_any_updated(quotas, p, u, now.tenant);
            assert(q1 == quotas);
            if any(quotas, quota_is(now.tenant)) {
                assert(lowered_q2 =~= r2);
            } else {
                assert(now.tenant != was.tenant);
                assert(lowered_q2 =~= r2);
            }
        }
        assert(sound(lowered_q2, base));
        if now.deleted {
            lemma_sound_without_dead(lowered_q2, all, i);
        } else {
            lemma_with_share_sound(lowered_q2, all, i);
        }
    }
}

proof fn lemma_any_updated(
    quotas: Seq<QuotaRowView>,
    p: spec_fn(QuotaRowView) -> bool,
    u: spec_fn(QuotaRowView) -> QuotaRowView,
    t: Seq<char>,
)
    requires
        forall|q: QuotaRowView| (#[trigger] u(q)).tenant == q.tenant,
    ensures
        any(updated(quotas, p, u), quota_is(t)) == any(quotas, quota_is(t)),
{
    let after = updated(quotas, p, u);
    if any(after, quota_is(t)) {
        let k = choose|k: int| 0 <= k < after.len() && quota_is(t)(#[trigger] after[k]);
        assert(quota_is(t)(quotas[k]));
    }
    if any(quotas, quota_is(t)) {
        let k = choose|k: int| 0 <= k < quotas.len() && quota_is(t)(#[trigger] quotas[k]);
        assert(quota_is(t)(after[k]));
    }
}

} // verus!
