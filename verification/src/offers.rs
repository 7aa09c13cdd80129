//! Grants as they are read: what a grant and its files tell, which are listed and in what
//! order, and what is found under a token.
use vstd::prelude::*;

use crate::columns::LIMB;
use crate::downloads::{file_at, file_of, grant_is};
use crate::grants::{
    base_of, column_sum, file_from, file_lookup, files_page, full_of, grant_in, grant_with,
    indexed_file, is_single, limbs, listed, lower_file, older_grant, read_first, with_counters,
};
use crate::records::{OutboundGrantFileView, OutboundGrantView};
use crate::rows::{GrantFileRowView, GrantRowView};
use crate::selection::{
    lemma_counted, lemma_found, lemma_ordered, lemma_paged, lemma_read, lemma_selected,
};
use crate::store::StoreView;
use crate::table::{count, first, page, sorted_by, try_map};
use crate::upkeep::number_told;

verus! {

// -------------------------------------------------------------- named results
/// A tenant's grants with their files.
pub open spec fn grants_told(s: StoreView, tenant: Seq<char>) -> Result<
    Seq<OutboundGrantView>,
    Seq<char>,
> {
    try_map(
        sorted_by(s.grants.filter(grant_in(tenant)), older_grant()),
        full_of(s.grant_files),
    )
}

/// One page of a tenant's grants, and how many the tenant has.
pub open spec fn grants_paged(
    s: StoreView,
    tenant: Seq<char>,
    limit: usize,
    offset: usize,
    preview: usize,
) -> Result<(Seq<(OutboundGrantView, usize)>, u64), Seq<char>> {
    if limit > i64::MAX {
        Err("outbound grant limit overflow"@)
    } else if offset > i64::MAX {
        Err("outbound grant offset overflow"@)
    } else if preview > i64::MAX {
        Err("outbound grant file preview limit overflow"@)
    } else {
        match try_map(
            page(
                sorted_by(s.grants.filter(grant_in(tenant)), older_grant()).reverse(),
                offset as int,
                limit as int,
            ),
            listed(s.grant_files, preview as i64),
        ) {
            Err(e) => Err(e),
            Ok(grants) => Ok((grants, count(s.grants, grant_in(tenant)) as u64)),
        }
    }
}

/// The grant under a token.
pub open spec fn grant_by_token(s: StoreView, token_hash: Seq<char>) -> Result<
    Option<OutboundGrantView>,
    Seq<char>,
> {
    read_first(first(s.grants, grant_with(token_hash)), full_of(s.grant_files))
}

/// The grant under an id.
pub open spec fn grant_by_id(s: StoreView, id: Seq<char>) -> Result<
    Option<OutboundGrantView>,
    Seq<char>,
> {
    read_first(first(s.grants, grant_is(id)), full_of(s.grant_files))
}

// -------------------------------------------------------------------- telling
/// Whether a grant, but for its files, is what its row tells.
pub open spec fn grant_tells(r: GrantRowView, g: OutboundGrantView) -> bool {
    &&& g.id == r.id && g.token_hash == r.token_hash && g.password_hash == r.password_hash
    &&& g.tenant == r.tenant && g.link_id == r.link_id && g.upload_id == r.upload_id
    &&& g.package_root == r.package_root && g.name == r.name && g.suite == r.suite && g.root
        == r.root && g.label == r.label && g.notifications == r.notifications
    &&& r.created_at >= 0 ==> g.created_at == r.created_at
    &&& r.expires_at >= 0 ==> g.expires_at == r.expires_at
    &&& r.downloads >= 0 ==> g.downloads == r.downloads
    &&& 0 <= r.file_index <= usize::MAX ==> g.file_index == r.file_index
    &&& bytes_told(r.bytes_hi, r.bytes_lo, g.bytes)
    &&& number_told(r.revoked_at, g.revoked_at) && number_told(r.max_downloads, g.max_downloads)
    &&& number_told(r.first_download_at, g.first_download_at) && number_told(
        r.last_download_at,
        g.last_download_at,
    )
}

/// Whether a length is what two limbs tell.
pub open spec fn bytes_told(hi: i64, lo: i64, bytes: u64) -> bool {
    0 <= hi < LIMB && 0 <= lo < LIMB ==> bytes == hi * LIMB + lo
}

/// Whether the counters of a file are those of its row.
pub open spec fn counters_tell(r: GrantFileRowView, f: OutboundGrantFileView) -> bool {
    (r.downloads >= 0 ==> f.downloads == r.downloads) && number_told(
        r.first_download_at,
        f.first_download_at,
    ) && number_told(r.last_download_at, f.last_download_at)
}

/// Whether a file of a grant is what its row tells.
pub open spec fn grant_file_tells(r: GrantFileRowView, f: OutboundGrantFileView) -> bool {
    f.source == r.source && f.name == r.name && f.suite == r.suite && f.root == r.root
        && f.receipt_b64 == r.receipt_b64 && bytes_told(r.bytes_hi, r.bytes_lo, f.bytes)
        && counters_tell(r, f)
}

/// Whether a file of a manifest has the counters of the row at its index, if there is one.
pub open spec fn file_counted(
    rows: Seq<GrantFileRowView>,
    id: Seq<char>,
    index: int,
    was: OutboundGrantFileView,
    f: OutboundGrantFileView,
) -> bool {
    &&& f == (OutboundGrantFileView {
        downloads: f.downloads,
        first_download_at: f.first_download_at,
        last_download_at: f.last_download_at,
        ..was
    })
    &&& (forall|r: GrantFileRowView| #[trigger]
        rows.contains(r) && r.grant_id == id ==> r.file_index != index) ==> f == was
    &&& (exists|r: GrantFileRowView| #[trigger]
        rows.contains(r) && r.grant_id == id && r.file_index == index) ==> exists|
        r: GrantFileRowView,
    | #[trigger]
        rows.contains(r) && r.grant_id == id && r.file_index == index && counters_tell(r, f)
}

/// Whether a grant has the files of its row, with the counters that are kept of them.
pub open spec fn grant_files_tell(
    rows: Seq<GrantFileRowView>,
    r: GrantRowView,
    g: OutboundGrantView,
) -> bool {
    &&& g.files.len() == r.files.len()
    &&& forall|i: int|
        0 <= i < g.files.len() && i < i64::MAX ==> file_counted(
            rows,
            r.id,
            i,
            r.files[i],
            #[trigger] g.files[i],
        )
}

pub proof fn lemma_counters(rows: Seq<GrantFileRowView>, id: Seq<char>, files: Seq<OutboundGrantFileView>)
    ensures
        with_counters(rows, id, files).len() == files.len(),
        forall|i: int|
            0 <= i < files.len() && i < i64::MAX ==> file_counted(
                rows,
                id,
                i,
                files[i],
                #[trigger] with_counters(rows, id, files)[i],
            ),
{
    assert forall|i: int| 0 <= i < files.len() && i < i64::MAX implies file_counted(
        rows,
        id,
        i,
        files[i],
        #[trigger] with_counters(rows, id, files)[i],
    ) by {
        lemma_found(rows, file_at(id, i as i64));
        assert(crate::columns::column(i as u64) == i);
    }
}

/// A grant that is read tells its row, and its files tell theirs; it is refused exactly if
/// something of the row cannot be decoded.
pub proof fn grants_tell_their_rows(rows: Seq<GrantFileRowView>, r: GrantRowView)
    ensures
        full_of(rows)(r) is Ok <==> r.notifications_error is None && r.files_error is None,
        full_of(rows)(r) matches Ok(g) ==> grant_tells(r, g) && grant_files_tell(rows, r, g),
        base_of(r) is Ok <==> r.notifications_error is None,
        base_of(r) matches Ok(g) ==> grant_tells(r, g) && g.files.len() == 0,
{
    lemma_counters(rows, r.id, r.files);
}

// -------------------------------------------------------------------- listing
/// Whether rows are those behind the grants that were read, in their order.
pub open spec fn grants_behind(
    s: StoreView,
    tenant: Seq<char>,
    rows: Seq<GrantRowView>,
    list: Seq<OutboundGrantView>,
) -> bool {
    &&& rows.len() == list.len()
    &&& forall|i: int|
        0 <= i < rows.len() ==> s.grants.contains(#[trigger] rows[i]) && rows[i].tenant == tenant
            && grant_tells(rows[i], list[i]) && grant_files_tell(s.grant_files, rows[i], list[i])
    &&& forall|i: int|
        0 < i < rows.len() ==> rows[i - 1].created_at <= (#[trigger] rows[i]).created_at
}

/// The grants that are listed are the tenant's, all of them, oldest first.
pub proof fn grants_are_listed(s: StoreView, tenant: Seq<char>)
    ensures
        grants_told(s, tenant) matches Ok(list) ==> {
            &&& list.len() == s.grants.filter(|r: GrantRowView| r.tenant == tenant).len()
            &&& exists|rows: Seq<GrantRowView>| grants_behind(s, tenant, rows, list)
            &&& forall|r: GrantRowView| #[trigger]
                s.grants.contains(r) && r.tenant == tenant ==> exists|g: OutboundGrantView|
                 #[trigger]
                    list.contains(g) && grant_tells(r, g)
        },
        (forall|r: GrantRowView| #[trigger]
            s.grants.contains(r) && r.tenant == tenant ==> r.notifications_error is None
                && r.files_error is None) ==> grants_told(s, tenant) is Ok,
{
    let raw = |r: GrantRowView| r.tenant == tenant;
    let own = s.grants.filter(grant_in(tenant));
    let all = sorted_by(own, older_grant());
    let read = full_of(s.grant_files);
    lemma_counted(s.grants, grant_in(tenant), raw);
    lemma_selected(s.grants, grant_in(tenant));
    lemma_ordered(own, older_grant());
    crate::table::lemma_sorted_ordered(own, older_grant());
    lemma_read(all, read);
    assert forall|i: int| 0 <= i < all.len() implies s.grants.contains(#[trigger] all[i])
        && all[i].tenant == tenant by {
        assert(all.contains(all[i]));
    }
    if let Ok(list) = grants_told(s, tenant) {
        assert(grants_behind(s, tenant, all, list)) by {
            assert forall|i: int| 0 <= i < all.len() implies s.grants.contains(#[trigger] all[i])
                && all[i].tenant == tenant && grant_tells(all[i], list[i]) && grant_files_tell(
                s.grant_files,
                all[i],
                list[i],
            ) by {
                grants_tell_their_rows(s.grant_files, all[i]);
                assert(read(all[i]) == Ok::<OutboundGrantView, Seq<char>>(list[i]));
            }
            assert forall|i: int| 0 < i < all.len() implies all[i - 1].created_at <= (
            #[trigger] all[i]).created_at by {
                assert(!older_grant()(all[i], all[i - 1]));
            }
        }
        assert forall|r: GrantRowView| #[trigger]
            s.grants.contains(r) && r.tenant == tenant implies exists|g: OutboundGrantView|
         #[trigger]
            list.contains(g) && grant_tells(r, g) by {
            assert(all.contains(r));
            let i = choose|i: int| 0 <= i < all.len() && all[i] == r;
            grants_tell_their_rows(s.grant_files, all[i]);
            assert(read(all[i]) == Ok::<OutboundGrantView, Seq<char>>(list[i]));
            assert(list.contains(list[i]));
        }
    }
    if forall|r: GrantRowView| #[trigger]
        s.grants.contains(r) && r.tenant == tenant ==> r.notifications_error is None
            && r.files_error is None {
        assert forall|i: int| 0 <= i < all.len() implies read(#[trigger] all[i]) is Ok by {
            assert(s.grants.contains(all[i]));
        }
    }
}

/// Whether a grant on a page is what its row tells, with its number of files, and with the
/// files themselves where there are no more than are previewed.
pub open spec fn preview_tells(
    rows: Seq<GrantFileRowView>,
    r: GrantRowView,
    preview: usize,
    shown: (OutboundGrantView, usize),
) -> bool {
    &&& grant_tells(r, shown.0) && shown.1 == r.file_count
    &&& r.file_count <= preview ==> grant_files_tell(rows, r, shown.0)
    &&& r.file_count > preview ==> shown.0.files.len() == 0
}

/// Whether rows are those behind a page, newest first.
pub open spec fn page_behind(
    s: StoreView,
    tenant: Seq<char>,
    preview: usize,
    rows: Seq<GrantRowView>,
    list: Seq<(OutboundGrantView, usize)>,
) -> bool {
    &&& rows.len() == list.len()
    &&& forall|i: int|
        0 <= i < rows.len() ==> s.grants.contains(#[trigger] rows[i]) && rows[i].tenant == tenant
            && preview_tells(s.grant_files, rows[i], preview, list[i])
    &&& forall|i: int|
        0 < i < rows.len() ==> rows[i - 1].created_at >= (#[trigger] rows[i]).created_at
}

/// A page of grants holds the tenant's, newest first, as many as were asked for as far as
/// there are; how many there are in all is told. Where all fit on it, none is left out.
pub proof fn grants_are_paged(
    s: StoreView,
    tenant: Seq<char>,
    limit: usize,
    offset: usize,
    preview: usize,
)
    requires
        s.grants.len() <= u64::MAX,
    ensures
        limit > i64::MAX || offset > i64::MAX || preview > i64::MAX ==> grants_paged(
            s,
            tenant,
            limit,
            offset,
            preview,
        ) is Err,
        grants_paged(s, tenant, limit, offset, preview) matches Ok((list, total)) ==> {
            let all = s.grants.filter(|r: GrantRowView| r.tenant == tenant).len();
            &&& total == all
            &&& list.len() == if offset >= all {
                0
            } else if limit >= all - offset {
                all - offset
            } else {
                limit as int
            }
            &&& exists|rows: Seq<GrantRowView>| page_behind(s, tenant, preview, rows, list)
            &&& offset == 0 && all <= limit ==> forall|r: GrantRowView| #[trigger]
                s.grants.contains(r) && r.tenant == tenant ==> exists|
                    x: (OutboundGrantView, usize),
                | #[trigger] list.contains(x) && preview_tells(s.grant_files, r, preview, x)
        },
        limit <= i64::MAX && offset <= i64::MAX && preview <= i64::MAX && (forall|r: GrantRowView|
         #[trigger]
            s.grants.contains(r) && r.tenant == tenant ==> r.notifications_error is None
                && r.files_error is None && 0 <= r.file_count <= usize::MAX) ==> grants_paged(
            s,
            tenant,
            limit,
            offset,
            preview,
        ) is Ok,
{
    let raw = |r: GrantRowView| r.tenant == tenant;
    let own = s.grants.filter(grant_in(tenant));
    let sorted = sorted_by(own, older_grant());
    let all = sorted.reverse();
    lemma_counted(s.grants, grant_in(tenant), raw);
    lemma_selected(s.grants, grant_in(tenant));
    lemma_ordered(own, older_grant());
    crate::table::lemma_sorted_ordered(own, older_grant());
    let n = all.len() as int;
    assert forall|i: int| 0 <= i < n implies #[trigger] all[i] == sorted[n - 1 - i]
        && s.grants.contains(all[i]) && all[i].tenant == tenant by {
        assert(sorted.contains(sorted[n - 1 - i]));
    }
    if limit <= i64::MAX && offset <= i64::MAX && preview <= i64::MAX {
        let rows = page(all, offset as int, limit as int);
        let read = listed(s.grant_files, preview as i64);
        lemma_paged(all, offset as int, limit as int);
        lemma_read(rows, read);
        assert forall|i: int| 0 <= i < rows.len() implies s.grants.contains(#[trigger] rows[i])
            && rows[i].tenant == tenant by {
            assert(rows[i] == all[offset + i]);
        }
        if let Ok((list, total)) = grants_paged(s, tenant, limit, offset, preview) {
            assert forall|i: int| 0 <= i < rows.len() implies preview_tells(
                s.grant_files,
                #[trigger] rows[i],
                preview,
                list[i],
            ) by {
                lemma_counters(s.grant_files, rows[i].id, rows[i].files);
                assert(read(rows[i]) == Ok::<(OutboundGrantView, usize), Seq<char>>(list[i]));
            }
            assert(page_behind(s, tenant, preview, rows, list)) by {
                assert forall|i: int| 0 < i < rows.len() implies rows[i - 1].created_at >= (
                #[trigger] rows[i]).created_at by {
                    assert(rows[i] == all[offset + i]);
                    assert(rows[i - 1] == all[offset + i - 1]);
                    let k = n - 1 - (offset + i);
                    assert(!older_grant()(sorted[k + 1], sorted[k]));
                }
            }
            if offset == 0 && n <= limit {
                assert forall|r: GrantRowView| #[trigger]
                    s.grants.contains(r) && r.tenant == tenant implies exists|
                    x: (OutboundGrantView, usize),
                | #[trigger] list.contains(x) && preview_tells(s.grant_files, r, preview, x) by {
                    assert(sorted.contains(r));
                    let k = choose|k: int| 0 <= k < sorted.len() && sorted[k] == r;
                    let i = n - 1 - k;
                    assert(all[i] == r);
                    assert(rows[i] == r);
                    assert(list.contains(list[i]));
                }
            }
        }
        if forall|r: GrantRowView| #[trigger]
            s.grants.contains(r) && r.tenant == tenant ==> r.notifications_error is None
                && r.files_error is None && 0 <= r.file_count <= usize::MAX {
            assert forall|i: int| 0 <= i < rows.len() implies read(#[trigger] rows[i]) is Ok by {
                assert(s.grants.contains(rows[i]));
            }
        }
    }
}

/// A grant is found under its token and under its id, and absent exactly if none has it.
pub proof fn grants_are_found(s: StoreView, token_hash: Seq<char>, id: Seq<char>)
    ensures
        (grant_by_token(s, token_hash) matches Ok(None)) <==> !exists|r: GrantRowView| #[trigger]
            s.grants.contains(r) && r.token_hash == token_hash,
        grant_by_token(s, token_hash) matches Ok(Some(g)) ==> g.token_hash == token_hash && exists|
            r: GrantRowView,
        | #[trigger]
            s.grants.contains(r) && grant_tells(r, g) && grant_files_tell(s.grant_files, r, g),
        (forall|r: GrantRowView| #[trigger]
            s.grants.contains(r) && r.token_hash == token_hash ==> r.notifications_error is None
                && r.files_error is None) ==> grant_by_token(s, token_hash) is Ok,
        (grant_by_id(s, id) matches Ok(None)) <==> !exists|r: GrantRowView| #[trigger]
            s.grants.contains(r) && r.id == id,
        grant_by_id(s, id) matches Ok(Some(g)) ==> g.id == id && exists|r: GrantRowView| #[trigger]
            s.grants.contains(r) && grant_tells(r, g) && grant_files_tell(s.grant_files, r, g),
        (forall|r: GrantRowView| #[trigger]
            s.grants.contains(r) && r.id == id ==> r.notifications_error is None && r.files_error
                is None) ==> grant_by_id(s, id) is Ok,
{
    lemma_found(s.grants, grant_with(token_hash));
    lemma_found(s.grants, grant_is(id));
    if let Some(r) = first(s.grants, grant_with(token_hash)) {
        grants_tell_their_rows(s.grant_files, r);
    }
    if let Some(r) = first(s.grants, grant_is(id)) {
        grants_tell_their_rows(s.grant_files, r);
    }
}

// ---------------------------------------------------------------------- files
/// Whether a grant stands for a single received file: it says it has one, and none is told.
pub open spec fn stands_alone(rows: Seq<GrantFileRowView>, r: GrantRowView) -> bool {
    r.file_count == 1 && r.files_error is None && r.files.len() == 0 && forall|f: GrantFileRowView|
     #[trigger]
        rows.contains(f) ==> f.grant_id != r.id
}

/// The file that is found under a token and an index is the one of that grant at that index;
/// a grant of a single received file has none of its own. A grant `r` that alone is under the
/// token is found with its file, and nothing is beyond its number of files.
pub proof fn files_are_found(s: StoreView, token_hash: Seq<char>, index: usize, r: GrantRowView)
    requires
        index < i64::MAX,
        s.grants.contains(r),
        r.token_hash == token_hash,
        forall|o: GrantRowView| #[trigger]
            s.grants.contains(o) && o.token_hash == token_hash ==> o == r,
    ensures
        file_lookup(s, token_hash, index) is Err <==> r.file_count > usize::MAX
            || r.notifications_error is Some,
        file_lookup(s, token_hash, index) matches Ok(Some((g, f))) ==> {
            &&& index < r.file_count && grant_tells(r, g) && g.files.len() == 0
            &&& f matches Some(f) ==> exists|x: GrantFileRowView| #[trigger]
                s.grant_files.contains(x) && x.grant_id == r.id && x.file_index == index
                    && grant_file_tells(x, f)
            &&& f is None ==> index == 0 && stands_alone(s.grant_files, r)
        },
        file_lookup(s, token_hash, index) is Ok && index < r.file_count && (exists|
            x: GrantFileRowView,
        | #[trigger] s.grant_files.contains(x) && x.grant_id == r.id && x.file_index == index)
            ==> (file_lookup(s, token_hash, index) matches Ok(Some((_, Some(_))))),
        file_lookup(s, token_hash, index) is Ok && index == 0 && stands_alone(s.grant_files, r)
            ==> (file_lookup(s, token_hash, index) matches Ok(Some((_, None)))),
{
    lemma_found(s.grants, grant_with(token_hash));
    assert(first(s.grants, grant_with(token_hash)) == Some(r));
    lemma_found(s.grant_files, file_at(r.id, index as i64));
    lemma_found(s.grant_files, file_of(r.id));
    assert(crate::columns::column(index as u64) == index);
}

/// Nothing is found under a token that no grant has.
pub proof fn unknown_tokens_find_nothing(
    s: StoreView,
    token_hash: Seq<char>,
    index: usize,
    offset: usize,
    limit: usize,
)
    requires
        forall|o: GrantRowView| #[trigger] s.grants.contains(o) ==> o.token_hash != token_hash,
    ensures
        file_lookup(s, token_hash, index) matches Ok(None),
        offset <= i64::MAX && limit <= i64::MAX ==> (files_page(s, token_hash, offset, limit)
            matches Ok(None)),
{
    lemma_found(s.grants, grant_with(token_hash));
}

/// The upper or the lower limbs of files, added up.
pub open spec fn added(rows: Seq<GrantFileRowView>, upper: bool) -> int
    decreases rows.len(),
{
    if rows.len() == 0 {
        0
    } else {
        added(rows.drop_last(), upper) + if upper {
            rows.last().bytes_hi as int
        } else {
            rows.last().bytes_lo as int
        }
    }
}

proof fn lemma_added(rows: Seq<GrantFileRowView>, upper: bool)
    ensures
        column_sum(limbs(rows, upper)) matches Some(sum) ==> sum == added(rows, upper),
        (forall|i: int|
            0 <= i < rows.len() ==> (#[trigger] rows[i]).bytes_hi >= 0 && rows[i].bytes_lo >= 0)
            ==> added(rows, upper) >= 0 && (added(rows, upper) <= i64::MAX ==> column_sum(
            limbs(rows, upper),
        ) is Some),
    decreases rows.len(),
{
    if rows.len() > 0 {
        let head = rows.drop_last();
        assert(limbs(rows, upper).drop_last() =~= limbs(head, upper));
        lemma_added(head, upper);
        if forall|i: int|
            0 <= i < rows.len() ==> (#[trigger] rows[i]).bytes_hi >= 0 && rows[i].bytes_lo >= 0 {
            assert forall|i: int| 0 <= i < head.len() implies (#[trigger] head[i]).bytes_hi >= 0
                && head[i].bytes_lo >= 0 by {
                assert(rows[i].bytes_hi >= 0);
            }
            assert(rows[rows.len() - 1].bytes_hi >= 0);
        }
    }
}

/// Whether rows are those behind a page of a grant's files, lower indexes first.
pub open spec fn files_behind(
    s: StoreView,
    id: Seq<char>,
    offset: usize,
    rows: Seq<GrantFileRowView>,
    list: Seq<(usize, OutboundGrantFileView)>,
) -> bool {
    &&& rows.len() == list.len()
    &&& forall|i: int|
        0 <= i < rows.len() ==> s.grant_files.contains(#[trigger] rows[i]) && rows[i].grant_id == id
            && rows[i].file_index == list[i].0 && list[i].0 >= offset && grant_file_tells(
            rows[i],
            list[i].1,
        )
    &&& forall|i: int|
        0 < i < rows.len() ==> rows[i - 1].file_index <= (#[trigger] rows[i]).file_index
}

/// A page of the files under a token holds those of the grant from an index on, lower indexes
/// first, as many as were asked for as far as there are; a grant of a single received file
/// stands for it. The grant's number of files is told, and what its files take in all.
pub proof fn files_are_paged(
    s: StoreView,
    token_hash: Seq<char>,
    offset: usize,
    limit: usize,
    r: GrantRowView,
)
    requires
        s.grants.contains(r),
        r.token_hash == token_hash,
        forall|o: GrantRowView| #[trigger]
            s.grants.contains(o) && o.token_hash == token_hash ==> o == r,
    ensures
        offset > i64::MAX || limit > i64::MAX ==> files_page(s, token_hash, offset, limit) is Err,
        files_page(s, token_hash, offset, limit) matches Ok(p) ==> p is Some,
        files_page(s, token_hash, offset, limit) matches Ok(Some(p)) ==> {
            let own = s.grant_files.filter(|f: GrantFileRowView| f.grant_id == r.id);
            let rest = s.grant_files.filter(
                |f: GrantFileRowView| f.grant_id == r.id && f.file_index >= offset,
            ).len();
            let hi = added(own, true);
            let lo = added(own, false);
            &&& grant_tells(r, p.grant) && (0 <= r.file_count ==> p.file_count == r.file_count)
            &&& offset == 0 && stands_alone(s.grant_files, r) ==> p.files.len() == 1
                && p.files[0].0 == 0 && p.files[0].1.name == p.grant.name && p.files[0].1.root
                == p.grant.root && p.files[0].1.bytes == p.grant.bytes && p.files[0].1.downloads
                == p.grant.downloads
            &&& !(offset == 0 && stands_alone(s.grant_files, r)) ==> {
                &&& p.files.len() == if rest <= limit {
                    rest as int
                } else {
                    limit as int
                }
                &&& exists|rows: Seq<GrantFileRowView>|
                    files_behind(s, r.id, offset, rows, p.files)
            }
            &&& hi == 0 && lo == 0 ==> p.total_bytes == p.grant.bytes
            &&& hi >= 0 && lo >= 0 && 0 < hi * LIMB + lo <= u64::MAX ==> p.total_bytes == hi * LIMB
                + lo
        },
        offset <= i64::MAX && limit <= i64::MAX && r.file_count <= usize::MAX
            && r.notifications_error is None && (forall|f: GrantFileRowView| #[trigger]
            s.grant_files.contains(f) && f.grant_id == r.id ==> 0 <= f.file_index <= usize::MAX
                && f.bytes_hi >= 0 && f.bytes_lo >= 0) && added(
            s.grant_files.filter(|f: GrantFileRowView| f.grant_id == r.id),
            true,
        ) <= i64::MAX && added(
            s.grant_files.filter(|f: GrantFileRowView| f.grant_id == r.id),
            false,
        ) <= i64::MAX ==> files_page(s, token_hash, offset, limit) is Ok,
{
    lemma_found(s.grants, grant_with(token_hash));
    assert(first(s.grants, grant_with(token_hash)) == Some(r));
    lemma_found(s.grant_files, file_of(r.id));
    assert(is_single(s.grant_files, r) == stands_alone(s.grant_files, r));
    let own_raw = |f: GrantFileRowView| f.grant_id == r.id;
    lemma_counted(s.grant_files, file_of(r.id), own_raw);
    let own = s.grant_files.filter(file_of(r.id));
    lemma_selected(s.grant_files, file_of(r.id));
    lemma_added(own, true);
    lemma_added(own, false);
    if offset <= i64::MAX && limit <= i64::MAX {
        let from = file_from(r.id, offset as i64);
        let from_raw = |f: GrantFileRowView| f.grant_id == r.id && f.file_index >= offset;
        lemma_counted(s.grant_files, from, from_raw);
        lemma_selected(s.grant_files, from);
        let rest = s.grant_files.filter(from);
        let all = sorted_by(rest, lower_file());
        lemma_ordered(rest, lower_file());
        crate::table::lemma_sorted_ordered(rest, lower_file());
        let rows = page(all, 0, limit as int);
        lemma_paged(all, 0, limit as int);
        lemma_read(rows, indexed_file());
        assert forall|i: int| 0 <= i < rows.len() implies s.grant_files.contains(
            #[trigger] rows[i],
        ) && rows[i].grant_id == r.id && rows[i].file_index >= offset by {
            assert(rows[i] == all[0 + i]);
            assert(all.contains(all[i]));
            assert(rest.contains(all[i]));
        }
        if stands_alone(s.grant_files, r) && rows.len() > 0 {
            assert(s.grant_files.contains(rows[0]));
        }
        if let Ok(Some(p)) = files_page(s, token_hash, offset, limit) {
            if !(offset == 0 && stands_alone(s.grant_files, r)) {
                assert(files_behind(s, r.id, offset, rows, p.files)) by {
                    assert forall|i: int| 0 <= i < rows.len() implies s.grant_files.contains(
                        #[trigger] rows[i],
                    ) && rows[i].grant_id == r.id && rows[i].file_index == p.files[i].0
                        && p.files[i].0 >= offset && grant_file_tells(rows[i], p.files[i].1) by {
                        assert(indexed_file()(rows[i]) == Ok::<
                            (usize, OutboundGrantFileView),
                            Seq<char>,
                        >(p.files[i]));
                    }
                    assert forall|i: int| 0 < i < rows.len() implies rows[i - 1].file_index <= (
                    #[trigger] rows[i]).file_index by {
                        assert(rows[i] == all[0 + i]);
                        assert(rows[i - 1] == all[0 + (i - 1)]);
                        assert(!lower_file()(all[i], all[i - 1]));
                    }
                }
            }
        }
        if forall|f: GrantFileRowView| #[trigger]
            s.grant_files.contains(f) && f.grant_id == r.id ==> 0 <= f.file_index <= usize::MAX
                && f.bytes_hi >= 0 && f.bytes_lo >= 0 {
            assert forall|i: int| 0 <= i < own.len() implies (#[trigger] own[i]).bytes_hi >= 0
                && own[i].bytes_lo >= 0 by {
                assert(own.contains(own[i]));
            }
            assert forall|i: int| 0 <= i < rows.len() implies indexed_file()(
                #[trigger] rows[i],
            ) is Ok by {
                assert(s.grant_files.contains(rows[i]));
            }
        }
    }
}

} // verus!
