//! Asking for a tenant's usage, and counting it anew from the file records.
use vstd::prelude::*;

use crate::columns::{
    LIMB, combine_byte_sums, from_column, high, is_limb, low, natural, split_bytes,
};
use crate::files::{file_bytes, is_same_object};
use crate::quota::{
    QUOTA_DIRTY, QUOTA_EXACT, QUOTA_SATURATED, heaviest, held, live_in, quota_is, rival_of,
    same_object, sound, true_of, usage, usage_is_order_free, weight,
};
use crate::records::{RetainedReservation, RetainedReservationView, TenantUsage, TenantUsageView};
use crate::rows::{
    FileRow, FileRowView, LinkRow, LinkRowView, QuotaRow, QuotaRowView, SessionFileRow,
    SessionFileRowView, SessionRow, SessionRowView, TenantRow, TenantRowView,
};
use crate::store::{Store, StoreView, follows};
use crate::table::{
    Row, any, append_row, append_rows, count, count_where, distinct, distinct_rows, dup_option,
    dup_rows, exists_where, find, first, insert_by, lemma_filter_any_of, lemma_filter_push, outcome,
    project, select, sort_rows, sorted_by, try_map, try_project, update_where, updated,
};
use crate::text::{lt, same, text_lt, text_order_is_total, text_order_is_transitive};

verus! {

// ------------------------------------------------------------ specifications
/// Whether a record comes before another of a different stored file: by tenant,
/// records with a stored path before those without, then by path or place.
pub open spec fn object_before(a: FileRowView, b: FileRowView) -> bool {
    if a.tenant != b.tenant {
        text_lt(a.tenant, b.tenant)
    } else if (a.stored_as.len() == 0) != (b.stored_as.len() == 0) {
        a.stored_as.len() > 0
    } else if a.stored_as.len() > 0 {
        text_lt(a.stored_as, b.stored_as)
    } else if a.link_id != b.link_id {
        text_lt(a.link_id, b.link_id)
    } else if a.upload_id != b.upload_id {
        text_lt(a.upload_id, b.upload_id)
    } else {
        a.file_index < b.file_index
    }
}

/// The order in which records are counted: those of a stored file together, the
/// longest first.
pub open spec fn counting_order() -> spec_fn(FileRowView, FileRowView) -> bool {
    |a: FileRowView, b: FileRowView|
        if !same_object(a, b) {
            object_before(a, b)
        } else if a.bytes_hi != b.bytes_hi {
            a.bytes_hi > b.bytes_hi
        } else {
            a.bytes_lo > b.bytes_lo
        }
}

/// The first record of each stored file, in records that are in counting order.
pub open spec fn leaders(s: Seq<FileRowView>) -> Seq<FileRowView>
    decreases s.len(),
{
    if s.len() == 0 {
        Seq::empty()
    } else if s.len() > 1 && same_object(s[s.len() - 2], s.last()) {
        leaders(s.drop_last())
    } else {
        leaders(s.drop_last()).push(s.last())
    }
}

/// A record whose length columns do not hold limbs.
pub open spec fn misshapen() -> spec_fn(FileRowView) -> bool {
    |f: FileRowView| !is_limb(f.bytes_hi) || !is_limb(f.bytes_lo)
}

/// Live records, of whatever tenant.
pub open spec fn live() -> spec_fn(FileRowView) -> bool {
    |f: FileRowView| !f.deleted
}

/// The refusal of a record whose length columns do not hold limbs.
pub open spec fn bad_limbs() -> Seq<char> {
    "Conversion error from type Integer at index: 5, file byte limbs are outside the u32 range"@
}

/// One record for each stored file among those selected, in counting order.
pub open spec fn stored_files(files: Seq<FileRowView>, scope: spec_fn(FileRowView) -> bool) -> Result<
    Seq<FileRowView>,
    Seq<char>,
> {
    if any(files.filter(scope), misshapen()) {
        Err(bad_limbs())
    } else {
        Ok(leaders(sorted_by(files.filter(scope), counting_order())))
    }
}

/// The lengths of records together.
pub open spec fn total_weight(s: Seq<FileRowView>) -> int
    decreases s.len(),
{
    if s.len() == 0 {
        0
    } else {
        total_weight(s.drop_last()) + weight(s.last())
    }
}

/// A sum of lengths, or the greatest length.
pub open spec fn capped(sum: int) -> u64 {
    if sum >= u64::MAX {
        u64::MAX
    } else {
        sum as u64
    }
}

/// The aggregate over records of one tenant.
pub open spec fn aggregate(tenant: Seq<char>, leading: Seq<FileRowView>) -> QuotaRowView {
    let bytes = capped(total_weight(leading));
    QuotaRowView {
        tenant,
        bytes_hi: high(bytes),
        bytes_lo: low(bytes),
        state: if bytes == u64::MAX {
            QUOTA_SATURATED
        } else {
            QUOTA_EXACT
        },
    }
}

/// Another aggregate in place of whatever there was.
pub open spec fn replaced_by(row: QuotaRowView) -> spec_fn(QuotaRowView) -> QuotaRowView {
    |q: QuotaRowView| row
}

/// The aggregates with a tenant's counted anew, and how many files it stores.
pub open spec fn rebuilt(
    quotas: Seq<QuotaRowView>,
    files: Seq<FileRowView>,
    tenant: Seq<char>,
) -> Result<(Seq<QuotaRowView>, u64), Seq<char>> {
    match stored_files(files, live_in(tenant)) {
        Err(e) => Err(e),
        Ok(leading) => Ok(
            (
                if any(quotas, quota_is(tenant)) {
                    updated(quotas, quota_is(tenant), replaced_by(aggregate(tenant, leading)))
                } else {
                    quotas.push(aggregate(tenant, leading))
                },
                leading.len() as u64,
            ),
        ),
    }
}

/// The bytes that an aggregate tells.
pub open spec fn told(q: QuotaRowView) -> u64 {
    if q.state == QUOTA_SATURATED {
        u64::MAX
    } else {
        held(q)
    }
}

/// The bytes that a tenant stores, counted anew where the aggregate is dirty.
pub open spec fn received(s: StoreView, tenant: Seq<char>) -> Result<(StoreView, u64), Seq<char>> {
    match first(s.quotas, quota_is(tenant)) {
        None => if any(s.files, live_in(tenant)) {
            Err("tenant quota aggregate is missing for live files; refusing admission"@)
        } else {
            Ok((s, 0))
        },
        Some(q) => if !is_limb(q.bytes_hi) || !is_limb(q.bytes_lo) || !(0 <= q.state <= 2) {
            Err("tenant quota aggregate is invalid; refusing admission"@)
        } else if q.state == QUOTA_DIRTY {
            match rebuilt(s.quotas, s.files, tenant) {
                Err(e) => Err(e),
                Ok((quotas, _)) => Ok(
                    (
                        StoreView { quotas, ..s },
                        capped(
                            total_weight(
                                leaders(
                                    sorted_by(s.files.filter(live_in(tenant)), counting_order()),
                                ),
                            ),
                        ),
                    ),
                ),
            }
        } else {
            Ok((s, told(q)))
        },
    }
}

/// Sessions of a tenant that have not become an upload yet.
pub open spec fn open_session(tenant: Seq<char>, files: Seq<SessionFileRowView>) -> spec_fn(
    SessionRowView,
) -> bool {
    |s: SessionRowView|
        s.tenant == tenant && s.committed_upload_id is None && any(files, session_file_of(s.id))
}

/// The files of a session.
pub open spec fn session_file_of(id: Seq<char>) -> spec_fn(SessionFileRowView) -> bool {
    |f: SessionFileRowView| f.session_id == id
}

/// What a session holds against its tenant's quota.
pub open spec fn reservation_of() -> spec_fn(SessionRowView) -> RetainedReservationView {
    |s: SessionRowView|
        RetainedReservationView {
            id: s.id,
            push_key: s.push_key,
            bytes: natural(s.package_length),
        }
}

/// The key of a tenant's row.
pub open spec fn tenant_key() -> spec_fn(TenantRowView) -> Seq<char> {
    |t: TenantRowView| t.key
}

/// The tenant of a link.
pub open spec fn link_tenant() -> spec_fn(LinkRowView) -> Seq<char> {
    |l: LinkRowView| l.tenant
}

/// Texts in order.
pub open spec fn text_order() -> spec_fn(Seq<char>, Seq<char>) -> bool {
    |a: Seq<char>, b: Seq<char>| text_lt(a, b)
}

/// The namespaces in use: the default one, the tenants and the links' owners.
pub open spec fn namespaces(s: StoreView) -> Seq<Seq<char>> {
    sorted_by(
        distinct(
            seq![Seq::<char>::empty()] + s.tenants.map_values(tenant_key()) + s.links.map_values(
                link_tenant(),
            ),
        ),
        text_order(),
    )
}

/// The aggregates with a clean one for `tenant`.
pub open spec fn settled(
    quotas: Seq<QuotaRowView>,
    files: Seq<FileRowView>,
    tenant: Seq<char>,
) -> Result<Seq<QuotaRowView>, Seq<char>> {
    match first(quotas, quota_is(tenant)) {
        Some(q) => if q.state == QUOTA_DIRTY {
            match rebuilt(quotas, files, tenant) {
                Err(e) => Err(e),
                Ok((quotas, _)) => Ok(quotas),
            }
        } else if q.state == QUOTA_EXACT || q.state == QUOTA_SATURATED {
            Ok(quotas)
        } else {
            Err("Query is not read-only"@)
        },
        None => if any(files, live_in(tenant)) {
            Err("Query is not read-only"@)
        } else {
            Ok(
                quotas.push(
                    QuotaRowView { tenant, bytes_hi: 0, bytes_lo: 0, state: QUOTA_EXACT },
                ),
            )
        },
    }
}

/// The aggregates with a clean one for each of `tenants`, taken in order.
pub open spec fn settled_all(
    quotas: Seq<QuotaRowView>,
    files: Seq<FileRowView>,
    tenants: Seq<Seq<char>>,
) -> Result<Seq<QuotaRowView>, Seq<char>>
    decreases tenants.len(),
{
    if tenants.len() == 0 {
        Ok(quotas)
    } else {
        match settled_all(quotas, files, tenants.drop_last()) {
            Err(e) => Err(e),
            Ok(quotas) => settled(quotas, files, tenants.last()),
        }
    }
}

/// The links of a tenant.
pub open spec fn link_in(tenant: Seq<char>) -> spec_fn(LinkRowView) -> bool {
    |l: LinkRowView| l.tenant == tenant
}

/// What a namespace uses.
pub open spec fn usage_of(quotas: Seq<QuotaRowView>, links: Seq<LinkRowView>) -> spec_fn(
    Seq<char>,
) -> Result<TenantUsageView, Seq<char>> {
    |t: Seq<char>|
        match first(quotas, quota_is(t)) {
            None => Err("Query is not read-only"@),
            Some(q) => if q.state != QUOTA_SATURATED && (!is_limb(q.bytes_hi) || !is_limb(
                q.bytes_lo,
            )) {
                Err("Query is not read-only"@)
            } else {
                Ok(
                    TenantUsageView {
                        tenant: t,
                        links: count(links, link_in(t)) as u64,
                        received_bytes: told(q),
                    },
                )
            },
        }
}

/// What every namespace uses, all aggregates clean afterwards.
pub open spec fn usages(s: StoreView) -> Result<(StoreView, Seq<TenantUsageView>), Seq<char>> {
    match settled_all(s.quotas, s.files, namespaces(s)) {
        Err(e) => Err(e),
        Ok(quotas) => match try_map(namespaces(s), usage_of(quotas, s.links)) {
            Err(e) => Err(e),
            Ok(usages) => Ok((StoreView { quotas, ..s }, usages)),
        },
    }
}

/// Records of a tenant.
pub open spec fn file_in(tenant: Seq<char>) -> spec_fn(FileRowView) -> bool {
    |f: FileRowView| f.tenant == tenant
}

/// The tenant of a record.
pub open spec fn file_tenant() -> spec_fn(FileRowView) -> Seq<char> {
    |f: FileRowView| f.tenant
}

/// An empty aggregate.
pub open spec fn empty_aggregate(tenant: Seq<char>) -> QuotaRowView {
    QuotaRowView { tenant, bytes_hi: 0, bytes_lo: 0, state: QUOTA_EXACT }
}

/// The aggregates with an empty one for each of `tenants` that has none.
pub open spec fn with_empty(quotas: Seq<QuotaRowView>, tenants: Seq<Seq<char>>) -> Seq<QuotaRowView>
    decreases tenants.len(),
{
    if tenants.len() == 0 {
        quotas
    } else {
        let quotas = with_empty(quotas, tenants.drop_last());
        if any(quotas, quota_is(tenants.last())) {
            quotas
        } else {
            quotas.push(empty_aggregate(tenants.last()))
        }
    }
}

/// The aggregate of a tenant over the stored files of all.
pub open spec fn aggregate_among(leading: Seq<FileRowView>) -> spec_fn(Seq<char>) -> QuotaRowView {
    |t: Seq<char>| aggregate(t, leading.filter(file_in(t)))
}

/// The aggregates counted from the records alone: one for each tenant that
/// stores a file, and empty ones for the other tenants and the default one.
pub open spec fn backfilled(files: Seq<FileRowView>, tenants: Seq<TenantRowView>) -> Result<
    Seq<QuotaRowView>,
    Seq<char>,
> {
    match stored_files(files, live()) {
        Err(e) => Err(e),
        Ok(leading) => Ok(
            with_empty(
                distinct(leading.map_values(file_tenant())).map_values(aggregate_among(leading)),
                tenants.map_values(tenant_key()).push(Seq::empty()),
            ),
        ),
    }
}

// -------------------------------------------------------------------- lemmas
proof fn lemma_texts(a: Seq<char>, b: Seq<char>, c: Seq<char>)
    ensures
        text_lt(a, b) && text_lt(b, c) ==> text_lt(a, c),
        text_lt(a, b) ==> !text_lt(b, a),
        text_lt(b, c) ==> !text_lt(c, b),
        text_lt(a, c) ==> !text_lt(c, a),
        a != b ==> text_lt(a, b) || text_lt(b, a),
        b != c ==> text_lt(b, c) || text_lt(c, b),
        a != c ==> text_lt(a, c) || text_lt(c, a),
        text_lt(c, b) && text_lt(b, a) ==> text_lt(c, a),
        text_lt(c, a) && text_lt(a, b) ==> text_lt(c, b),
        text_lt(b, c) && text_lt(c, a) ==> text_lt(b, a),
        text_lt(a, c) && text_lt(c, b) ==> text_lt(a, b),
        text_lt(b, a) && text_lt(a, c) ==> text_lt(b, c),
{
    text_order_is_total(a, b);
    text_order_is_total(b, c);
    text_order_is_total(a, c);
    text_order_is_total(b, a);
    text_order_is_total(c, b);
    text_order_is_total(c, a);
    text_order_is_transitive(a, b, c);
    text_order_is_transitive(c, b, a);
    text_order_is_transitive(c, a, b);
    text_order_is_transitive(b, c, a);
    text_order_is_transitive(a, c, b);
    text_order_is_transitive(b, a, c);
}

/// The counting order does not go round in circles.
proof fn lemma_counting_transitive(a: FileRowView, b: FileRowView, c: FileRowView)
    ensures
        !counting_order()(b, a) && !counting_order()(c, b) ==> !counting_order()(c, a),
        !same_object(a, b) ==> object_before(a, b) || object_before(b, a),
        object_before(a, b) ==> !object_before(b, a),
        counting_order()(a, b) ==> !counting_order()(b, a),
{
    lemma_texts(a.tenant, b.tenant, c.tenant);
    lemma_texts(a.stored_as, b.stored_as, c.stored_as);
    lemma_texts(a.link_id, b.link_id, c.link_id);
    lemma_texts(a.upload_id, b.upload_id, c.upload_id);
    text_order_is_total(a.tenant, a.tenant);
}

/// Of two records of the same stored file, both stand alike to a third.
pub proof fn lemma_alike(a: FileRowView, b: FileRowView, c: FileRowView)
    requires
        same_object(a, b),
    ensures
        same_object(a, c) == same_object(b, c),
        object_before(a, c) == object_before(b, c),
        object_before(c, a) == object_before(c, b),
{
}

/// Whether records are in counting order.
pub open spec fn in_order(s: Seq<FileRowView>) -> bool {
    forall|i: int, j: int| 0 <= i < j < s.len() ==> !counting_order()(s[j], s[i])
}

pub proof fn lemma_sorted_in_order(s: Seq<FileRowView>)
    ensures
        in_order(sorted_by(s, counting_order())),
{
    let order = counting_order();
    let t = sorted_by(s, order);
    assert forall|a: FileRowView, b: FileRowView| #[trigger] order(a, b) implies !order(b, a) by {
        lemma_counting_transitive(a, b, b);
    }
    crate::table::lemma_sorted_ordered(s, order);
    assert forall|i: int, j: int| 0 <= i < j < t.len() implies !order(t[j], t[i]) by {
        lemma_chain(t, i, j);
    }
}

proof fn lemma_chain(t: Seq<FileRowView>, i: int, j: int)
    requires
        0 <= i < j < t.len(),
        forall|k: int|
            #![trigger t[k]]
            0 < k < t.len() ==> !counting_order()(t[k], t[k - 1]),
    ensures
        !counting_order()(t[j], t[i]),
    decreases j - i,
{
    assert(!counting_order()(t[j], t[j - 1]));
    if i < j - 1 {
        lemma_chain(t, i, j - 1);
        lemma_counting_transitive(t[i], t[j - 1], t[j]);
    }
}

/// In counting order, a record that does not continue its neighbour's stored
/// file is the first of its own.
pub proof fn lemma_first_of_object(s: Seq<FileRowView>, n: int, k: int)
    requires
        in_order(s),
        0 <= k < n < s.len(),
        !same_object(s[n - 1], s[n]),
    ensures
        !same_object(s[k], s[n]),
{
    if same_object(s[k], s[n]) {
        if k < n - 1 {
            let a = s[k];
            let b = s[n - 1];
            let c = s[n];
            lemma_alike(a, c, b);
            lemma_counting_transitive(a, b, c);
            lemma_counting_transitive(c, b, a);
            assert(!counting_order()(b, a));
            assert(!counting_order()(c, b));
        }
    }
}

pub proof fn lemma_heaviest_bound(s: Seq<FileRowView>, i: int)
    requires
        0 <= i < s.len(),
    ensures
        heaviest(s) >= weight(s[i]),
    decreases s.len(),
{
    if i < s.len() - 1 {
        lemma_heaviest_bound(s.drop_last(), i);
    }
}

pub proof fn lemma_heaviest_selected(s: Seq<FileRowView>, p: spec_fn(FileRowView) -> bool, i: int)
    requires
        0 <= i < s.len(),
        p(s[i]),
    ensures
        heaviest(s.filter(p)) >= weight(s[i]),
    decreases s.len(),
{
    let h = s.drop_last();
    assert(s =~= h.push(s.last()));
    lemma_filter_push(h, s.last(), p);
    if i == s.len() - 1 {
        let f = s.filter(p);
        assert(f[f.len() - 1] == s.last());
        lemma_heaviest_bound(f, f.len() - 1);
    } else {
        lemma_heaviest_selected(h, p, i);
        if p(s.last()) {
            assert(h.filter(p).push(s.last()).drop_last() =~= h.filter(p));
        }
    }
}

pub proof fn lemma_nothing_selected(s: Seq<FileRowView>, p: spec_fn(FileRowView) -> bool)
    requires
        forall|i: int| 0 <= i < s.len() ==> !p(#[trigger] s[i]),
    ensures
        s.filter(p) == Seq::<FileRowView>::empty(),
    decreases s.len(),
{
    reveal(Seq::filter);
    if s.len() > 0 {
        let h = s.drop_last();
        assert forall|i: int| 0 <= i < h.len() implies !p(#[trigger] h[i]) by {
            assert(!p(s[i]));
        }
        lemma_nothing_selected(h, p);
        assert(!p(s[s.len() - 1]));
    }
}

/// In counting order, the first records of the stored files make up the usage.
proof fn lemma_leaders_usage(s: Seq<FileRowView>, tenant: Seq<char>, n: int)
    requires
        in_order(s),
        0 <= n <= s.len(),
        forall|i: int|
            0 <= i < s.len() ==> live_in(tenant)(#[trigger] s[i]) && !misshapen()(s[i]),
    ensures
        usage(s.take(n), tenant) == total_weight(leaders(s.take(n))),
    decreases n,
{
    let t = s.take(n);
    if n > 0 {
        lemma_leaders_usage(s, tenant, n - 1);
        assert(t.drop_last() =~= s.take(n - 1));
        let f = t.last();
        let h = s.take(n - 1);
        assert(live_in(tenant)(s[n - 1]));
        if n > 1 && same_object(t[n - 2], f) {
            let g = s[n - 2];
            assert(live_in(tenant)(g) && !misshapen()(g));
            assert(!misshapen()(s[n - 1]));
            assert(rival_of(f)(h[n - 2]));
            lemma_heaviest_selected(h, rival_of(f), n - 2);
            assert(!counting_order()(s[n - 1], s[n - 2]));
            assert(weight(g) >= weight(f)) by {
                assert(same_object(g, f));
                lemma_alike(g, f, f);
            }
        } else {
            assert forall|i: int| 0 <= i < h.len() implies !rival_of(f)(#[trigger] h[i]) by {
                if n > 1 {
                    lemma_first_of_object(s, n - 1, i);
                }
            }
            lemma_nothing_selected(h, rival_of(f));
            assert(leaders(t) == leaders(h).push(f));
            assert(leaders(h).push(f).drop_last() =~= leaders(h));
        }
    } else {
        assert(t =~= Seq::<FileRowView>::empty());
    }
}

/// In counting order, a tenant's records among the first of the stored files make
/// up its usage.
proof fn lemma_leaders_usage_among(s: Seq<FileRowView>, tenant: Seq<char>, n: int)
    requires
        in_order(s),
        0 <= n <= s.len(),
        forall|i: int| 0 <= i < s.len() ==> live()(#[trigger] s[i]) && !misshapen()(s[i]),
    ensures
        total_weight(leaders(s.take(n)).filter(file_in(tenant))) == usage(s.take(n), tenant),
    decreases n,
{
    let t = s.take(n);
    let p = file_in(tenant);
    if n > 0 {
        lemma_leaders_usage_among(s, tenant, n - 1);
        assert(t.drop_last() =~= s.take(n - 1));
        let f = t.last();
        let h = s.take(n - 1);
        assert(live()(s[n - 1]) && !misshapen()(s[n - 1]));
        lemma_filter_push(leaders(h), f, p);
        if n > 1 && same_object(t[n - 2], f) {
            let g = s[n - 2];
            assert(live()(g) && !misshapen()(g));
            if p(f) {
                assert(rival_of(f)(h[n - 2]));
                lemma_heaviest_selected(h, rival_of(f), n - 2);
                assert(!counting_order()(s[n - 1], s[n - 2]));
                assert(weight(g) >= weight(f)) by {
                    assert(same_object(g, f));
                    lemma_alike(g, f, f);
                }
            }
        } else {
            assert forall|i: int| 0 <= i < h.len() implies !rival_of(f)(#[trigger] h[i]) by {
                if n > 1 {
                    lemma_first_of_object(s, n - 1, i);
                }
            }
            lemma_nothing_selected(h, rival_of(f));
            assert(leaders(t) == leaders(h).push(f));
            if p(f) {
                assert(leaders(h).filter(p).push(f).drop_last() =~= leaders(h).filter(p));
            }
        }
    } else {
        reveal(Seq::filter);
        assert(t =~= Seq::<FileRowView>::empty());
        assert(leaders(t).filter(p) =~= Seq::<FileRowView>::empty());
    }
}

/// Every stored file has a first record.
proof fn lemma_leader_of(s: Seq<FileRowView>, i: int) -> (k: int)
    requires
        0 <= i < s.len(),
    ensures
        0 <= k < leaders(s).len(),
        leaders(s)[k].tenant == s[i].tenant,
    decreases s.len(),
{
    let h = s.drop_last();
    if i < h.len() {
        let k = lemma_leader_of(h, i);
        assert(h[i] == s[i]);
        assert(leaders(s)[k] == leaders(h)[k]);
        k
    } else if s.len() > 1 && same_object(s[s.len() - 2], s.last()) {
        assert(h[s.len() - 2] == s[s.len() - 2]);
        lemma_leader_of(h, s.len() - 2)
    } else {
        leaders(h).len() as int
    }
}

/// Empty aggregates for tenants without one keep the aggregates true.
proof fn lemma_empty_sound(
    quotas: Seq<QuotaRowView>,
    files: Seq<FileRowView>,
    tenants: Seq<Seq<char>>,
)
    requires
        sound(quotas, files),
    ensures
        sound(with_empty(quotas, tenants), files),
    decreases tenants.len(),
{
    if tenants.len() > 0 {
        lemma_empty_sound(quotas, files, tenants.drop_last());
        let before = with_empty(quotas, tenants.drop_last());
        let tenant = tenants.last();
        if !any(before, quota_is(tenant)) {
            let row = empty_aggregate(tenant);
            let after = before.push(row);
            crate::quota::lemma_no_usage(files, tenant);
            assert(true_of(row, files));
            assert forall|i: int, j: int| 0 <= i < j < after.len() implies after[i].tenant
                != after[j].tenant by {
                if j == before.len() {
                    assert(!quota_is(tenant)(before[i]));
                }
            }
            assert forall|t: Seq<char>| !any(after, quota_is(t)) implies !#[trigger] any(
                files,
                live_in(t),
            ) by {
                if any(before, quota_is(t)) {
                    let k = choose|k: int| 0 <= k < before.len() && quota_is(t)(#[trigger] before[k]);
                    assert(quota_is(t)(after[k]));
                }
            }
        }
    }
}

proof fn lemma_insert_position(s: Seq<FileRowView>, x: FileRowView) -> (pos: int)
    ensures
        0 <= pos <= s.len(),
        insert_by(s, x, counting_order()) == s.insert(pos, x),
    decreases s.len(),
{
    if s.len() == 0 || !counting_order()(x, s.last()) {
        assert(s.insert(s.len() as int, x) =~= s.push(x));
        s.len() as int
    } else {
        let pos = lemma_insert_position(s.drop_last(), x);
        assert(s.insert(pos, x) =~= s.drop_last().insert(pos, x).push(s.last()));
        pos
    }
}

/// Ordering records changes neither the usage nor what is heaviest among them.
proof fn lemma_sorting_keeps_usage(s: Seq<FileRowView>, tenant: Seq<char>)
    ensures
        usage(sorted_by(s, counting_order()), tenant) == usage(s, tenant),
        forall|p: spec_fn(FileRowView) -> bool|
            #![trigger s.filter(p)]
            heaviest(sorted_by(s, counting_order()).filter(p)) == heaviest(s.filter(p)),
    decreases s.len(),
{
    if s.len() > 0 {
        let h = s.drop_last();
        let x = s.last();
        let t = sorted_by(h, counting_order());
        lemma_sorting_keeps_usage(h, tenant);
        let pos = lemma_insert_position(t, x);
        let all = t.insert(pos, x);
        assert(all.remove(pos) =~= t);
        assert(all[pos] == x);
        usage_is_order_free(all, pos, tenant);
        assert(h.filter(rival_of(x)) == h.filter(rival_of(x)));
        assert forall|p: spec_fn(FileRowView) -> bool| #![trigger s.filter(p)] heaviest(
            all.filter(p),
        ) == heaviest(s.filter(p)) by {
            crate::quota::lemma_rivals_remove(all, pos, p);
            assert(s.remove(s.len() - 1) =~= h);
            crate::quota::lemma_rivals_remove(s, s.len() - 1, p);
            assert(h.filter(p) == h.filter(p));
        }
    }
}

/// Only live records bear on a tenant's usage.
proof fn lemma_usage_of_live(files: Seq<FileRowView>, tenant: Seq<char>)
    ensures
        usage(files.filter(live_in(tenant)), tenant) == usage(files, tenant),
        forall|f: FileRowView|
            live_in(tenant)(f) ==> files.filter(live_in(tenant)).filter(#[trigger] rival_of(f))
                == files.filter(rival_of(f)),
    decreases files.len(),
{
    let p = live_in(tenant);
    if files.len() > 0 {
        let h = files.drop_last();
        let x = files.last();
        assert(files =~= h.push(x));
        lemma_usage_of_live(h, tenant);
        lemma_filter_push(h, x, p);
        if p(x) {
            assert(h.filter(p).push(x).drop_last() =~= h.filter(p));
        }
        assert forall|f: FileRowView| p(f) implies files.filter(p).filter(#[trigger] rival_of(f))
            == files.filter(rival_of(f)) by {
            lemma_filter_push(h, x, rival_of(f));
            if p(x) {
                lemma_filter_push(h.filter(p), x, rival_of(f));
            }
        }
    } else {
        reveal(Seq::filter);
        assert(files.filter(p) =~= files);
    }
}

// ---------------------------------------------------------------------- laws
/// Counting the stored files of a tenant gives its usage.
pub proof fn counting_gives_the_usage(files: Seq<FileRowView>, tenant: Seq<char>)
    requires
        stored_files(files, live_in(tenant)) is Ok,
    ensures
        total_weight(stored_files(files, live_in(tenant))->Ok_0) == usage(files, tenant),
{
    let live = files.filter(live_in(tenant));
    let s = sorted_by(live, counting_order());
    lemma_usage_of_live(files, tenant);
    lemma_sorting_keeps_usage(live, tenant);
    lemma_sorted_in_order(live);
    lemma_filter_any_of(files, live_in(tenant));
    crate::table::lemma_sorted_multiset(live, counting_order());
    assert forall|i: int| 0 <= i < s.len() implies live_in(tenant)(#[trigger] s[i])
        && !misshapen()(s[i]) by {
        vstd::seq_lib::to_multiset_contains(s, s[i]);
        assert(s.contains(s[i]));
        assert(s.to_multiset().count(s[i]) > 0);
        vstd::seq_lib::to_multiset_contains(live, s[i]);
        let k = choose|k: int| 0 <= k < live.len() && live[k] == s[i];
        assert(live_in(tenant)(live[k]));
        assert(!misshapen()(live[k]));
    }
    lemma_leaders_usage(s, tenant, s.len() as int);
    assert(s.take(s.len() as int) =~= s);
}

/// Aggregates counted from the records alone are true of them.
pub proof fn backfilled_aggregates_are_true(files: Seq<FileRowView>, tenants: Seq<TenantRowView>)
    ensures
        backfilled(files, tenants) matches Ok(quotas) ==> sound(quotas, files),
{
    if stored_files(files, live()) is Ok {
        let all = files.filter(live());
        let s = sorted_by(all, counting_order());
        let leading = leaders(s);
        let owners = leading.map_values(file_tenant());
        let keys = distinct(owners);
        let counted = keys.map_values(aggregate_among(leading));
        lemma_sorted_in_order(all);
        lemma_filter_any_of(files, live());
        crate::table::lemma_sorted_multiset(all, counting_order());
        crate::table::lemma_distinct(owners);
        assert forall|i: int| 0 <= i < s.len() implies live()(#[trigger] s[i]) && !misshapen()(
            s[i],
        ) by {
            vstd::seq_lib::to_multiset_contains(s, s[i]);
            assert(s.contains(s[i]));
            vstd::seq_lib::to_multiset_contains(all, s[i]);
            let k = choose|k: int| 0 <= k < all.len() && all[k] == s[i];
            assert(live()(all[k]) && !misshapen()(all[k]));
        }
        assert forall|t: Seq<char>| #[trigger] total_weight(leading.filter(file_in(t))) == usage(
            files,
            t,
        ) by {
            lemma_leaders_usage_among(s, t, s.len() as int);
            assert(s.take(s.len() as int) =~= s);
            lemma_sorting_keeps_usage(all, t);
            lemma_usage_of_live(all, t);
            lemma_usage_of_live(files, t);
            crate::accounting::lemma_filter_twice(files, live(), live_in(t));
        }
        assert forall|i: int| 0 <= i < counted.len() implies true_of(#[trigger] counted[i], files) by {
            let t = keys[i];
            crate::quota::lemma_usage_natural(files, t);
            crate::columns::limbs_round_trip(capped(total_weight(leading.filter(file_in(t)))));
        }
        assert forall|i: int, j: int| 0 <= i < j < counted.len() implies counted[i].tenant
            != counted[j].tenant by {
            assert(keys[i] != keys[j]);
        }
        assert forall|t: Seq<char>| !any(counted, quota_is(t)) implies !#[trigger] any(
            files,
            live_in(t),
        ) by {
            if any(files, live_in(t)) {
                let i = choose|i: int| 0 <= i < files.len() && live_in(t)(#[trigger] files[i]);
                crate::accounting::lemma_filter_twice(files, live(), live_in(t));
                crate::table::lemma_filter_any(files, live_in(t));
                let x = files.filter(live_in(t))[0];
                lemma_filter_any_of(files, live_in(t));
                lemma_filter_any_of(all, live_in(t));
                assert(all.contains(all.filter(live_in(t))[0]));
                vstd::seq_lib::to_multiset_contains(all, x);
                vstd::seq_lib::to_multiset_contains(s, x);
                let n = choose|n: int| 0 <= n < s.len() && s[n] == x;
                let k = lemma_leader_of(s, n);
                assert(owners[k] == t);
                assert(owners.contains(t));
                assert(keys.contains(t));
                let m = choose|m: int| 0 <= m < keys.len() && keys[m] == t;
                assert(quota_is(t)(counted[m]));
            }
        }
        lemma_empty_sound(counted, files, tenants.map_values(tenant_key()).push(Seq::empty()));
    }
}

/// As long as the aggregates are true of the records, a tenant is told the
/// bytes it stores: the sum over its stored files, each counted once, or the
/// greatest length where the sum exceeds it.
pub proof fn tenants_are_told_their_usage(s: StoreView, tenant: Seq<char>)
    requires
        sound(s.quotas, s.files),
        received(s, tenant) is Ok,
    ensures
        received(s, tenant)->Ok_0.1 == capped(usage(s.files, tenant)),
{
    crate::table::lemma_first_found(s.quotas, quota_is(tenant));
    match first(s.quotas, quota_is(tenant)) {
        None => {
            assert(!any(s.quotas, quota_is(tenant)));
            crate::quota::lemma_no_usage(s.files, tenant);
        },
        Some(q) => {
            let k = choose|k: int| 0 <= k < s.quotas.len() && s.quotas[k] == q;
            assert(true_of(s.quotas[k], s.files));
            if q.state == QUOTA_DIRTY {
                counting_gives_the_usage(s.files, tenant);
            }
        },
    }
}

/// Asking for the usage keeps the aggregates true.
pub proof fn asking_keeps_aggregates_true(s: StoreView, tenant: Seq<char>)
    requires
        sound(s.quotas, s.files),
        received(s, tenant) is Ok,
    ensures
        sound(received(s, tenant)->Ok_0.0.quotas, s.files),
{
    crate::table::lemma_first_found(s.quotas, quota_is(tenant));
    if first(s.quotas, quota_is(tenant)) is Some && received(s, tenant)->Ok_0.0.quotas != s.quotas {
        let leading = stored_files(s.files, live_in(tenant))->Ok_0;
        counting_gives_the_usage(s.files, tenant);
        crate::quota::lemma_usage_natural(s.files, tenant);
        let row = aggregate(tenant, leading);
        let after = updated(s.quotas, quota_is(tenant), replaced_by(row));
        crate::columns::limbs_round_trip(capped(total_weight(leading)));
        assert(true_of(row, s.files));
        assert forall|k: int| 0 <= k < after.len() implies true_of(#[trigger] after[k], s.files) by {
            assert(true_of(s.quotas[k], s.files));
        }
        assert forall|t: Seq<char>| !any(after, quota_is(t)) implies !#[trigger] any(
            s.files,
            live_in(t),
        ) by {
            if any(s.quotas, quota_is(t)) {
                let k = choose|k: int|
                    0 <= k < s.quotas.len() && quota_is(t)(#[trigger] s.quotas[k]);
                assert(quota_is(t)(after[k]));
            }
        }
    }
}

/// A clean aggregate of a tenant.
spec fn clean_for(tenant: Seq<char>) -> spec_fn(QuotaRowView) -> bool {
    |q: QuotaRowView| q.tenant == tenant && q.state != QUOTA_DIRTY
}

proof fn lemma_settled(quotas: Seq<QuotaRowView>, s: StoreView, tenant: Seq<char>)
    requires
        sound(quotas, s.files),
        settled(quotas, s.files, tenant) is Ok,
    ensures
        sound(settled(quotas, s.files, tenant)->Ok_0, s.files),
        any(settled(quotas, s.files, tenant)->Ok_0, clean_for(tenant)),
        forall|t: Seq<char>|
            any(quotas, #[trigger] clean_for(t)) ==> any(
                settled(quotas, s.files, tenant)->Ok_0,
                clean_for(t),
            ),
{
    let after = settled(quotas, s.files, tenant)->Ok_0;
    crate::table::lemma_first_found(quotas, quota_is(tenant));
    match first(quotas, quota_is(tenant)) {
        None => {
            lemma_empty_sound(quotas, s.files, seq![tenant]);
            assert(seq![tenant].drop_last() =~= Seq::<Seq<char>>::empty());
            assert(seq![tenant].last() == tenant);
            assert(with_empty(quotas, seq![tenant].drop_last()) == quotas);
            assert(after == with_empty(quotas, seq![tenant]));
            assert(clean_for(tenant)(after[quotas.len() as int]));
        },
        Some(q) => {
            let k = choose|k: int| 0 <= k < quotas.len() && quotas[k] == q;
            assert(true_of(quotas[k], s.files));
            if q.state == QUOTA_DIRTY {
                asking_keeps_aggregates_true(StoreView { quotas, ..s }, tenant);
            }
            assert(clean_for(tenant)(after[k]));
        },
    }
    assert forall|t: Seq<char>| any(quotas, #[trigger] clean_for(t)) implies any(
        after,
        clean_for(t),
    ) by {
        let k = choose|k: int| 0 <= k < quotas.len() && clean_for(t)(#[trigger] quotas[k]);
        if t != tenant {
            assert(clean_for(t)(after[k]));
        }
    }
}

proof fn lemma_all_settled(s: StoreView, tenants: Seq<Seq<char>>)
    requires
        sound(s.quotas, s.files),
        settled_all(s.quotas, s.files, tenants) is Ok,
    ensures
        sound(settled_all(s.quotas, s.files, tenants)->Ok_0, s.files),
        forall|i: int|
            0 <= i < tenants.len() ==> any(
                settled_all(s.quotas, s.files, tenants)->Ok_0,
                clean_for(#[trigger] tenants[i]),
            ),
    decreases tenants.len(),
{
    if tenants.len() > 0 {
        let head = tenants.drop_last();
        lemma_all_settled(s, head);
        let before = settled_all(s.quotas, s.files, head)->Ok_0;
        lemma_settled(before, s, tenants.last());
        assert forall|i: int| 0 <= i < tenants.len() implies any(
            settled_all(s.quotas, s.files, tenants)->Ok_0,
            clean_for(#[trigger] tenants[i]),
        ) by {
            if i < head.len() {
                assert(any(before, clean_for(head[i])));
            }
        }
    }
}

/// Reporting what every namespace uses keeps the aggregates true.
pub proof fn reporting_keeps_aggregates_true(s: StoreView)
    requires
        sound(s.quotas, s.files),
    ensures
        usages(s) matches Ok((after, _)) ==> sound(after.quotas, after.files),
{
    if usages(s) is Ok {
        lemma_all_settled(s, namespaces(s));
    }
}

/// What is reported of a namespace is what it stores, and what admission is told.
pub proof fn reports_agree_with_admission(s: StoreView, i: int)
    requires
        sound(s.quotas, s.files),
        usages(s) matches Ok((_, list)) && 0 <= i < list.len(),
    ensures
        usages(s)->Ok_0.1[i].received_bytes == capped(
            usage(s.files, usages(s)->Ok_0.1[i].tenant),
        ),
        received(s, usages(s)->Ok_0.1[i].tenant) matches Ok((_, bytes)) ==> bytes
            == usages(s)->Ok_0.1[i].received_bytes,
{
    let quotas = usages(s)->Ok_0.0.quotas;
    let list = usages(s)->Ok_0.1;
    let names = namespaces(s);
    lemma_all_settled(s, names);
    crate::isolation::lemma_items(names, usage_of(quotas, s.links), i);
    let tenant = names[i];
    crate::table::lemma_first_found(quotas, quota_is(tenant));
    let q = first(quotas, quota_is(tenant))->0;
    let k = choose|k: int| 0 <= k < quotas.len() && quotas[k] == q;
    assert(any(quotas, clean_for(names[i])));
    let c = choose|c: int| 0 <= c < quotas.len() && clean_for(tenant)(#[trigger] quotas[c]);
    assert(k == c) by {
        if k < c {
            assert(quotas[k].tenant != quotas[c].tenant);
        } else if c < k {
            assert(quotas[c].tenant != quotas[k].tenant);
        }
    }
    assert(true_of(quotas[k], s.files));
    if received(s, tenant) is Ok {
        tenants_are_told_their_usage(s, tenant);
    }
}

// ---------------------------------------------------------------- operations
fn is_before(a: &FileRow, b: &FileRow) -> (r: bool)
    ensures
        r == counting_order()(a@, b@),
{
    let a_bare = a.stored_as.as_str().unicode_len() == 0;
    let b_bare = b.stored_as.as_str().unicode_len() == 0;
    if is_same_object(a, b) {
        if a.bytes_hi != b.bytes_hi {
            a.bytes_hi > b.bytes_hi
        } else {
            a.bytes_lo > b.bytes_lo
        }
    } else if !same(a.tenant.as_str(), b.tenant.as_str()) {
        lt(a.tenant.as_str(), b.tenant.as_str())
    } else if a_bare != b_bare {
        !a_bare
    } else if !a_bare {
        lt(a.stored_as.as_str(), b.stored_as.as_str())
    } else if !same(a.link_id.as_str(), b.link_id.as_str()) {
        lt(a.link_id.as_str(), b.link_id.as_str())
    } else if !same(a.upload_id.as_str(), b.upload_id.as_str()) {
        lt(a.upload_id.as_str(), b.upload_id.as_str())
    } else {
        a.file_index < b.file_index
    }
}

fn first_of_each(rows: &Vec<FileRow>) -> (out: Vec<FileRow>)
    ensures
        out.deep_view() == leaders(rows.deep_view()),
{
    let ghost all = rows.deep_view();
    let mut out: Vec<FileRow> = Vec::new();
    let mut i: usize = 0;
    assert(all.take(0) =~= Seq::<FileRowView>::empty());
    assert(out.deep_view() =~= Seq::<FileRowView>::empty());
    while i < rows.len()
        invariant
            i <= rows.len(),
            all == rows.deep_view(),
            out.deep_view() == leaders(all.take(i as int)),
        decreases rows.len() - i,
    {
        proof {
            assert(all.take(i + 1).drop_last() =~= all.take(i as int));
            assert(all.take(i + 1).last() == rows@[i as int]@);
            if i > 0 {
                assert(all.take(i + 1)[i - 1] == rows@[i - 1]@);
            }
        }
        if i == 0 || !is_same_object(&rows[i - 1], &rows[i]) {
            append_row(&mut out, rows[i].dup());
        }
        i += 1;
    }
    assert(all.take(i as int) =~= all);
    out
}

fn is_misshapen(f: &FileRow) -> (r: bool)
    ensures
        r == misshapen()(f@),
{
    f.bytes_hi < 0 || f.bytes_hi >= LIMB as i64 || f.bytes_lo < 0 || f.bytes_lo >= LIMB as i64
}

/// One record for each stored file, of one tenant or of all.
pub fn walk_quota_files(files: &Vec<FileRow>, tenant: Option<&str>) -> (r: Result<
    Vec<FileRow>,
    String,
>)
    ensures
        outcome(r) == stored_files(
            files.deep_view(),
            match tenant {
                Some(tenant) => live_in(tenant@),
                None => live(),
            },
        ),
{
    let rows = match tenant {
        Some(tenant) => {
            let scope = |f: &FileRow| -> (b: bool)
                ensures
                    b == live_in(tenant@)(f@),
            {
                same(f.tenant.as_str(), tenant) && !f.deleted
            };
            select(files, scope, Ghost(live_in(tenant@)))
        },
        None => {
            let scope = |f: &FileRow| -> (b: bool)
                ensures
                    b == live()(f@),
            {
                !f.deleted
            };
            select(files, scope, Ghost(live()))
        },
    };
    let bad = |f: &FileRow| -> (b: bool)
        ensures
            b == misshapen()(f@),
    {
        is_misshapen(f)
    };
    if exists_where(&rows, bad, Ghost(misshapen())) {
        return Err(
            "Conversion error from type Integer at index: 5, file byte limbs are outside the u32 range".to_owned(),
        );
    }
    let before = |a: &FileRow, b: &FileRow| -> (r: bool)
        ensures
            r == counting_order()(a@, b@),
    {
        is_before(a, b)
    };
    let rows = sort_rows(rows, before, Ghost(counting_order()));
    Ok(first_of_each(&rows))
}

/// The lengths of records together, or the greatest length.
fn capped_total(rows: &Vec<FileRow>) -> (total: u64)
    ensures
        total == capped(total_weight(rows.deep_view())),
{
    let ghost all = rows.deep_view();
    let mut total: u64 = 0;
    let mut i: usize = 0;
    assert(all.take(0) =~= Seq::<FileRowView>::empty());
    while i < rows.len()
        invariant
            i <= rows.len(),
            all == rows.deep_view(),
            total_weight(all.take(i as int)) >= 0,
            total == capped(total_weight(all.take(i as int))),
        decreases rows.len() - i,
    {
        proof {
            assert(all.take(i + 1).drop_last() =~= all.take(i as int));
            assert(all.take(i + 1).last() == rows@[i as int]@);
        }
        total = total.saturating_add(file_bytes(&rows[i]));
        i += 1;
    }
    assert(all.take(i as int) =~= all);
    total
}

fn aggregate_row(tenant: &str, leading: &Vec<FileRow>) -> (row: QuotaRow)
    ensures
        row@ == aggregate(tenant@, leading.deep_view()),
{
    let bytes: u64 = capped_total(leading);
    let (hi, lo) = split_bytes(bytes);
    QuotaRow {
        tenant: tenant.to_owned(),
        bytes_hi: hi,
        bytes_lo: lo,
        state: if bytes == u64::MAX {
            QUOTA_SATURATED
        } else {
            QUOTA_EXACT
        },
    }
}

/// Counts a tenant's aggregate anew; reports how many files the tenant stores.
pub fn rebuild_tenant_quota(quotas: &mut Vec<QuotaRow>, files: &Vec<FileRow>, tenant: &str) -> (r: Result<
    u64,
    String,
>)
    ensures
        match rebuilt(old(quotas).deep_view(), files.deep_view(), tenant@) {
            Ok((after, n)) => final(quotas).deep_view() == after && outcome(r) == Ok::<
                u64,
                Seq<char>,
            >(n),
            Err(e) => final(quotas).deep_view() == old(quotas).deep_view() && outcome(r) == Err::<
                u64,
                Seq<char>,
            >(e),
        },
{
    let leading = match walk_quota_files(files, Some(tenant)) {
        Ok(leading) => leading,
        Err(error) => {
            return Err(error);
        },
    };
    let row = aggregate_row(tenant, &leading);
    let own = |q: &QuotaRow| -> (b: bool)
        ensures
            b == quota_is(tenant@)(q@),
    {
        same(q.tenant.as_str(), tenant)
    };
    let change = |q: &QuotaRow| -> (r: QuotaRow)
        ensures
            r@ == replaced_by(row@)(q@),
    {
        row.dup()
    };
    if exists_where(quotas, own, Ghost(quota_is(tenant@))) {
        update_where(quotas, own, change, Ghost(quota_is(tenant@)), Ghost(replaced_by(row@)));
    } else {
        append_row(quotas, row.dup());
    }
    Ok(leading.len() as u64)
}

/// The aggregates counted from the records alone.
pub fn backfill_quota_usage(files: &Vec<FileRow>, tenants: &Vec<TenantRow>) -> (r: Result<
    Vec<QuotaRow>,
    String,
>)
    ensures
        outcome(r) == backfilled(files.deep_view(), tenants.deep_view()),
{
    let leading = match walk_quota_files(files, None) {
        Ok(leading) => leading,
        Err(error) => {
            return Err(error);
        },
    };
    let owner = |f: &FileRow| -> (r: String)
        ensures
            r.deep_view() == file_tenant()(f@),
    {
        f.tenant.clone()
    };
    let equal = |a: &String, b: &String| -> (r: bool)
        ensures
            r == (a.deep_view() == b.deep_view()),
    {
        same(a.as_str(), b.as_str())
    };
    let total = |t: &String| -> (r: QuotaRow)
        ensures
            r@ == aggregate_among(leading.deep_view())(t@),
    {
        let own = |f: &FileRow| -> (b: bool)
            ensures
                b == file_in(t@)(f@),
        {
            same(f.tenant.as_str(), t.as_str())
        };
        let rows = select(&leading, own, Ghost(file_in(t@)));
        aggregate_row(t.as_str(), &rows)
    };
    let key = |t: &TenantRow| -> (r: String)
        ensures
            r.deep_view() == tenant_key()(t@),
    {
        t.key.clone()
    };
    let owners = project(&leading, owner, Ghost(file_tenant()));
    let owners = distinct_rows(&owners, equal);
    let mut quotas = project(&owners, total, Ghost(aggregate_among(leading.deep_view())));
    let mut keys = project(tenants, key, Ghost(tenant_key()));
    append_row(&mut keys, String::new());
    add_empty(&mut quotas, &keys);
    Ok(quotas)
}

fn add_empty(quotas: &mut Vec<QuotaRow>, tenants: &Vec<String>)
    ensures
        final(quotas).deep_view() == with_empty(old(quotas).deep_view(), tenants.deep_view()),
{
    let ghost before = quotas.deep_view();
    let ghost all = tenants.deep_view();
    let mut i: usize = 0;
    assert(all.take(0) =~= Seq::<Seq<char>>::empty());
    while i < tenants.len()
        invariant
            i <= tenants.len(),
            all == tenants.deep_view(),
            quotas.deep_view() == with_empty(before, all.take(i as int)),
        decreases tenants.len() - i,
    {
        let tenant = tenants[i].as_str();
        proof {
            assert(all.take(i + 1).drop_last() =~= all.take(i as int));
            assert(all.take(i + 1).last() == tenant@);
        }
        let own = |q: &QuotaRow| -> (b: bool)
            ensures
                b == quota_is(tenant@)(q@),
        {
            same(q.tenant.as_str(), tenant)
        };
        if !exists_where(quotas, own, Ghost(quota_is(tenant@))) {
            append_row(
                quotas,
                QuotaRow {
                    tenant: tenant.to_owned(),
                    bytes_hi: 0,
                    bytes_lo: 0,
                    state: QUOTA_EXACT,
                },
            );
        }
        i += 1;
    }
    assert(all.take(i as int) =~= all);
}

impl Store {
    /// The bytes received and not deleted across a tenant's links.
    pub fn tenant_received_bytes(&mut self, tenant: &str) -> (r: Result<u64, String>)
        ensures
            follows(received(old(self)@, tenant@), old(self)@, final(self)@, r),
    {
        let own = |q: &QuotaRow| -> (b: bool)
            ensures
                b == quota_is(tenant@)(q@),
        {
            same(q.tenant.as_str(), tenant)
        };
        let found = match find(&self.quotas, own, Ghost(quota_is(tenant@))) {
            Some(found) => found,
            None => {
                let stored = |f: &FileRow| -> (b: bool)
                    ensures
                        b == live_in(tenant@)(f@),
                {
                    same(f.tenant.as_str(), tenant) && !f.deleted
                };
                if exists_where(&self.files, stored, Ghost(live_in(tenant@))) {
                    return Err(
                        "tenant quota aggregate is missing for live files; refusing admission".to_owned(),
                    );
                }
                return Ok(0);
            },
        };
        let hi: i64 = self.quotas[found].bytes_hi;
        let lo: i64 = self.quotas[found].bytes_lo;
        let state: i64 = self.quotas[found].state;
        if hi < 0 || hi >= LIMB as i64 || lo < 0 || lo >= LIMB as i64 || state < 0 || state > 2 {
            return Err("tenant quota aggregate is invalid; refusing admission".to_owned());
        }
        if state == QUOTA_DIRTY {
            let leading = match walk_quota_files(&self.files, Some(tenant)) {
                Ok(leading) => leading,
                Err(error) => {
                    return Err(error);
                },
            };
            let bytes: u64 = capped_total(&leading);
            return match rebuild_tenant_quota(&mut self.quotas, &self.files, tenant) {
                Ok(_) => Ok(bytes),
                Err(error) => Err(error),
            };
        }
        if state == QUOTA_SATURATED {
            Ok(u64::MAX)
        } else {
            Ok(combine_byte_sums(hi, lo))
        }
    }

    /// How many files a tenant stores, and their bytes; a stored file counts
    /// once however many records refer to it.
    pub fn tenant_stored(&self, tenant: &str) -> (r: Result<(u64, u64), String>)
        ensures
            outcome(r) == match stored_files(self@.files, live_in(tenant@)) {
                Err(e) => Err(e),
                Ok(leading) => Ok((leading.len() as u64, capped(total_weight(leading)))),
            },
    {
        match walk_quota_files(&self.files, Some(tenant)) {
            Ok(leading) => Ok((leading.len() as u64, capped_total(&leading))),
            Err(error) => Err(error),
        }
    }

    /// Path and length of each file that a tenant stores.
    pub fn tenant_live_files(&self, tenant: &str) -> (r: Result<Vec<(String, u64)>, String>)
        ensures
            outcome(r) == crate::answers::live_files_told(self@, tenant@),
    {
        let pick = |f: &FileRow| -> (r: (String, u64))
            ensures
                r.deep_view() == path_and_length()(f@),
        {
            (f.stored_as.clone(), file_bytes(f))
        };
        match walk_quota_files(&self.files, Some(tenant)) {
            Ok(leading) => Ok(project(&leading, pick, Ghost(path_and_length()))),
            Err(error) => Err(error),
        }
    }

    /// What a tenant has received, and what its sessions in progress hold
    /// against its quota.
    pub fn tenant_admission_usage(&mut self, tenant: &str) -> (r: Result<
        (u64, Vec<RetainedReservation>),
        String,
    >)
        ensures
            follows(
                match received(old(self)@, tenant@) {
                    Err(e) => Err(e),
                    Ok((after, bytes)) => Ok(
                        (
                            after,
                            (
                                bytes,
                                crate::admission::reserved(old(self)@, tenant@),
                            ),
                        ),
                    ),
                },
                old(self)@,
                final(self)@,
                r,
            ),
    {
        let bytes = match self.tenant_received_bytes(tenant) {
            Ok(bytes) => bytes,
            Err(error) => {
                return Err(error);
            },
        };
        let parts = &self.session_files;
        let open = |s: &SessionRow| -> (b: bool)
            ensures
                b == open_session(tenant@, parts.deep_view())(s@),
        {
            let id = s.id.as_str();
            let part = |f: &SessionFileRow| -> (b: bool)
                ensures
                    b == session_file_of(id@)(f@),
            {
                same(f.session_id.as_str(), id)
            };
            same(s.tenant.as_str(), tenant) && s.committed_upload_id.is_none() && exists_where(
                parts,
                part,
                Ghost(session_file_of(id@)),
            )
        };
        let reserve = |s: &SessionRow| -> (r: RetainedReservation)
            ensures
                r@ == reservation_of()(s@),
        {
            RetainedReservation {
                id: s.id.clone(),
                push_key: dup_option(&s.push_key),
                bytes: from_column(s.package_length),
            }
        };
        let rows = select(&self.sessions, open, Ghost(open_session(tenant@, parts.deep_view())));
        Ok((bytes, project(&rows, reserve, Ghost(reservation_of()))))
    }

    /// The namespaces in use, in order.
    fn namespace_list(&self) -> (r: Vec<String>)
        ensures
            r.deep_view() == namespaces(self@),
    {
        let key = |t: &TenantRow| -> (r: String)
            ensures
                r.deep_view() == tenant_key()(t@),
        {
            t.key.clone()
        };
        let owner = |l: &LinkRow| -> (r: String)
            ensures
                r.deep_view() == link_tenant()(l@),
        {
            l.tenant.clone()
        };
        let equal = |a: &String, b: &String| -> (r: bool)
            ensures
                r == (a.deep_view() == b.deep_view()),
        {
            same(a.as_str(), b.as_str())
        };
        let before = |a: &String, b: &String| -> (r: bool)
            ensures
                r == text_order()(a.deep_view(), b.deep_view()),
        {
            lt(a.as_str(), b.as_str())
        };
        let mut names: Vec<String> = Vec::new();
        names.push(String::new());
        assert(names.deep_view() =~= seq![Seq::<char>::empty()]);
        let keys = project(&self.tenants, key, Ghost(tenant_key()));
        let owners = project(&self.links, owner, Ghost(link_tenant()));
        append_rows(&mut names, &keys);
        append_rows(&mut names, &owners);
        let names = distinct_rows(&names, equal);
        sort_rows(names, before, Ghost(text_order()))
    }

    /// Links and received bytes of every namespace, from the same aggregates
    /// that admission goes by.
    pub fn tenant_usage(&mut self) -> (r: Result<Vec<TenantUsage>, String>)
        ensures
            follows(usages(old(self)@), old(self)@, final(self)@, r),
    {
        let names = self.namespace_list();
        let quotas = match settle_all(&self.quotas, &self.files, &names) {
            Ok(quotas) => quotas,
            Err(error) => {
                return Err(error);
            },
        };
        let links = &self.links;
        let report = |t: &String| -> (r: Result<TenantUsage, String>)
            ensures
                outcome(r) == usage_of(quotas.deep_view(), links.deep_view())(t@),
        {
            report_usage(&quotas, links, t.as_str())
        };
        match try_project(
            &names,
            report,
            Ghost(usage_of(quotas.deep_view(), links.deep_view())),
        ) {
            Ok(usages) => {
                self.quotas = quotas;
                Ok(usages)
            },
            Err(error) => Err(error),
        }
    }
}

/// Path and length of a stored file.
pub open spec fn path_and_length() -> spec_fn(FileRowView) -> (Seq<char>, u64) {
    |f: FileRowView| (f.stored_as, weight(f))
}

fn settle(quotas: &mut Vec<QuotaRow>, files: &Vec<FileRow>, tenant: &str) -> (r: Result<(), String>)
    ensures
        match settled(old(quotas).deep_view(), files.deep_view(), tenant@) {
            Ok(after) => r is Ok && final(quotas).deep_view() == after,
            Err(e) => outcome(r) == Err::<(), Seq<char>>(e),
        },
{
    let own = |q: &QuotaRow| -> (b: bool)
        ensures
            b == quota_is(tenant@)(q@),
    {
        same(q.tenant.as_str(), tenant)
    };
    match find(quotas, own, Ghost(quota_is(tenant@))) {
        Some(found) => {
            let state: i64 = quotas[found].state;
            if state == QUOTA_DIRTY {
                match rebuild_tenant_quota(quotas, files, tenant) {
                    Ok(_) => Ok(()),
                    Err(error) => Err(error),
                }
            } else if state == QUOTA_EXACT || state == QUOTA_SATURATED {
                Ok(())
            } else {
                Err("Query is not read-only".to_owned())
            }
        },
        None => {
            let stored = |f: &FileRow| -> (b: bool)
                ensures
                    b == live_in(tenant@)(f@),
            {
                same(f.tenant.as_str(), tenant) && !f.deleted
            };
            if exists_where(files, stored, Ghost(live_in(tenant@))) {
                return Err("Query is not read-only".to_owned());
            }
            append_row(
                quotas,
                QuotaRow {
                    tenant: tenant.to_owned(),
                    bytes_hi: 0,
                    bytes_lo: 0,
                    state: QUOTA_EXACT,
                },
            );
            Ok(())
        },
    }
}

proof fn lemma_settle_refused(
    quotas: Seq<QuotaRowView>,
    files: Seq<FileRowView>,
    tenants: Seq<Seq<char>>,
    i: int,
)
    requires
        0 <= i <= tenants.len(),
        settled_all(quotas, files, tenants.take(i)) is Err,
    ensures
        settled_all(quotas, files, tenants) == settled_all(quotas, files, tenants.take(i)),
    decreases tenants.len() - i,
{
    if i < tenants.len() {
        assert(tenants.take(i + 1).drop_last() =~= tenants.take(i));
        lemma_settle_refused(quotas, files, tenants, i + 1);
    } else {
        assert(tenants.take(i) =~= tenants);
    }
}

fn settle_all(quotas: &Vec<QuotaRow>, files: &Vec<FileRow>, tenants: &Vec<String>) -> (r: Result<
    Vec<QuotaRow>,
    String,
>)
    ensures
        outcome(r) == settled_all(quotas.deep_view(), files.deep_view(), tenants.deep_view()),
{
    let ghost all = tenants.deep_view();
    let mut rows = dup_rows(quotas);
    let mut i: usize = 0;
    assert(all.take(0) =~= Seq::<Seq<char>>::empty());
    while i < tenants.len()
        invariant
            i <= tenants.len(),
            all == tenants.deep_view(),
            settled_all(quotas.deep_view(), files.deep_view(), all.take(i as int)) == Ok::<
                Seq<QuotaRowView>,
                Seq<char>,
            >(rows.deep_view()),
        decreases tenants.len() - i,
    {
        proof {
            assert(all.take(i + 1).drop_last() =~= all.take(i as int));
            assert(all.take(i + 1).last() == tenants@[i as int]@);
        }
        if let Err(error) = settle(&mut rows, files, tenants[i].as_str()) {
            proof {
                lemma_settle_refused(quotas.deep_view(), files.deep_view(), all, i + 1);
            }
            return Err(error);
        }
        i += 1;
    }
    assert(all.take(i as int) =~= all);
    Ok(rows)
}

fn report_usage(quotas: &Vec<QuotaRow>, links: &Vec<LinkRow>, tenant: &str) -> (r: Result<
    TenantUsage,
    String,
>)
    ensures
        outcome(r) == usage_of(quotas.deep_view(), links.deep_view())(tenant@),
{
    let own = |q: &QuotaRow| -> (b: bool)
        ensures
            b == quota_is(tenant@)(q@),
    {
        same(q.tenant.as_str(), tenant)
    };
    let found = match find(quotas, own, Ghost(quota_is(tenant@))) {
        Some(found) => found,
        None => {
            return Err("Query is not read-only".to_owned());
        },
    };
    let q = &quotas[found];
    if q.state != QUOTA_SATURATED && (q.bytes_hi < 0 || q.bytes_hi >= LIMB as i64 || q.bytes_lo < 0
        || q.bytes_lo >= LIMB as i64) {
        return Err("Query is not read-only".to_owned());
    }
    let theirs = |l: &LinkRow| -> (b: bool)
        ensures
            b == link_in(tenant@)(l@),
    {
        same(l.tenant.as_str(), tenant)
    };
    let n: usize = count_where(links, theirs, Ghost(link_in(tenant@)));
    Ok(
        TenantUsage {
            tenant: tenant.to_owned(),
            links: n as u64,
            received_bytes: if q.state == QUOTA_SATURATED {
                u64::MAX
            } else {
                combine_byte_sums(q.bytes_hi, q.bytes_lo)
            },
        },
    )
}

} // verus!
