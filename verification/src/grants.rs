//! Outbound grants: reading, paging and looking up download links.
use vstd::prelude::*;

use crate::columns::{
    column, combine_byte_sums, decode_error, from_column, from_optional_column, holds_size,
    index_of, is_size, joined, natural, optional, size_to_column, to_index, undecoded,
};
use crate::downloads::{file_at, file_of, grant_is};
use crate::records::{
    OutboundGrant, OutboundGrantFile, OutboundGrantFileView, OutboundGrantFilesPage,
    OutboundGrantFilesPageView, OutboundGrantView,
};
use crate::rows::{GrantFileRow, GrantFileRowView, GrantRow, GrantRowView};
use crate::store::{Store, StoreView};
use crate::table::{
    Row, any, dup_option, exists_where, find, first, outcome, page, page_rows, reversed, select,
    sort_rows, sorted_by, try_map, try_project,
};
use crate::text::same;

verus! {

// ------------------------------------------------------------ specifications
/// The grants of a tenant.
pub open spec fn grant_in(tenant: Seq<char>) -> spec_fn(GrantRowView) -> bool {
    |g: GrantRowView| g.tenant == tenant
}

/// The grant looked up by its token.
pub open spec fn grant_with(token_hash: Seq<char>) -> spec_fn(GrantRowView) -> bool {
    |g: GrantRowView| g.token_hash == token_hash
}

/// Older grants first.
pub open spec fn older_grant() -> spec_fn(GrantRowView, GrantRowView) -> bool {
    |a: GrantRowView, b: GrantRowView| a.created_at < b.created_at
}

/// The grant that a row stands for, with `files` as its manifest.
pub open spec fn grant_of(g: GrantRowView, files: Seq<OutboundGrantFileView>) -> OutboundGrantView {
    OutboundGrantView {
        id: g.id,
        token_hash: g.token_hash,
        password_hash: g.password_hash,
        tenant: g.tenant,
        link_id: g.link_id,
        upload_id: g.upload_id,
        package_root: g.package_root,
        name: g.name,
        suite: g.suite,
        root: g.root,
        file_index: index_of(g.file_index),
        bytes: joined(g.bytes_hi, g.bytes_lo),
        label: g.label,
        created_at: natural(g.created_at),
        expires_at: natural(g.expires_at),
        revoked_at: optional(g.revoked_at),
        downloads: natural(g.downloads),
        max_downloads: optional(g.max_downloads),
        notifications: g.notifications,
        first_download_at: optional(g.first_download_at),
        last_download_at: optional(g.last_download_at),
        files,
    }
}

/// The grant that a row stands for, without its manifest.
pub open spec fn base_of(g: GrantRowView) -> Result<OutboundGrantView, Seq<char>> {
    match g.notifications_error {
        Some(e) => Err(undecoded("0"@, e)),
        None => Ok(grant_of(g, Seq::empty())),
    }
}

/// The file that a row stands for.
pub open spec fn grant_file_of(f: GrantFileRowView) -> OutboundGrantFileView {
    OutboundGrantFileView {
        source: f.source,
        name: f.name,
        suite: f.suite,
        root: f.root,
        bytes: joined(f.bytes_hi, f.bytes_lo),
        receipt_b64: f.receipt_b64,
        downloads: natural(f.downloads),
        first_download_at: optional(f.first_download_at),
        last_download_at: optional(f.last_download_at),
    }
}

/// A manifest with the counters that the file rows of grant `id` hold.
pub open spec fn with_counters(
    rows: Seq<GrantFileRowView>,
    id: Seq<char>,
    files: Seq<OutboundGrantFileView>,
) -> Seq<OutboundGrantFileView> {
    Seq::new(
        files.len(),
        |i: int|
            match first(rows, file_at(id, column(i as u64))) {
                Some(f) => OutboundGrantFileView {
                    downloads: natural(f.downloads),
                    first_download_at: optional(f.first_download_at),
                    last_download_at: optional(f.last_download_at),
                    ..files[i]
                },
                None => files[i],
            },
    )
}

/// The grant that a row stands for, with its manifest and its files' counters.
pub open spec fn full_of(rows: Seq<GrantFileRowView>) -> spec_fn(GrantRowView) -> Result<
    OutboundGrantView,
    Seq<char>,
> {
    |g: GrantRowView|
        match base_of(g) {
            Err(e) => Err(e),
            Ok(_) => match g.files_error {
                Some(e) => Err(undecoded("20"@, e)),
                None => Ok(grant_of(g, with_counters(rows, g.id, g.files))),
            },
        }
}

/// The refusal of a column that holds no size.
pub open spec fn not_a_size() -> Seq<char> {
    "Conversion error from type Integer at index: 0, out of range integral type conversion attempted"@
}

/// A grant as listed: its manifest only where it has at most `preview` files,
/// and its number of files.
pub open spec fn listed(rows: Seq<GrantFileRowView>, preview: i64) -> spec_fn(GrantRowView) -> Result<
    (OutboundGrantView, usize),
    Seq<char>,
> {
    |g: GrantRowView|
        match base_of(g) {
            Err(e) => Err(e),
            Ok(base) => if g.file_count <= preview && g.files_error is Some {
                Err(undecoded("20"@, g.files_error->0))
            } else if !is_size(g.file_count) {
                Err(not_a_size())
            } else if g.file_count <= preview {
                Ok((grant_of(g, with_counters(rows, g.id, g.files)), g.file_count as usize))
            } else {
                Ok((base, g.file_count as usize))
            },
        }
}

/// What `f` makes of a row, if there is one.
pub open spec fn read_first<V, W>(
    found: Option<V>,
    f: spec_fn(V) -> Result<W, Seq<char>>,
) -> Result<Option<W>, Seq<char>> {
    match found {
        None => Ok(None),
        Some(v) => match f(v) {
            Ok(w) => Ok(Some(w)),
            Err(e) => Err(e),
        },
    }
}

/// The file at an index, as far as the grant under a token has one. A grant of
/// a single received file has index 0 and no file row.
pub open spec fn file_lookup(
    s: StoreView,
    token_hash: Seq<char>,
    index: usize,
) -> Result<Option<(OutboundGrantView, Option<OutboundGrantFileView>)>, Seq<char>> {
    match first(s.grants, grant_with(token_hash)) {
        None => Ok(None),
        Some(g) => if g.file_count > usize::MAX {
            Err(not_a_size())
        } else {
            match base_of(g) {
                Err(e) => Err(e),
                Ok(grant) => if index >= g.file_count {
                    Ok(None)
                } else {
                    match first(s.grant_files, file_at(g.id, column(index as u64))) {
                        Some(f) => Ok(Some((grant, Some(grant_file_of(f))))),
                        None => if is_single(s.grant_files, g) {
                            Ok(Some((grant, None)))
                        } else {
                            Ok(None)
                        },
                    }
                },
            }
        },
    }
}

/// Whether a grant stands for a single received file.
pub open spec fn is_single(rows: Seq<GrantFileRowView>, g: GrantRowView) -> bool {
    g.file_count == 1 && !any(rows, file_of(g.id)) && g.files_error is None && g.files.len() == 0
}

/// The files of grant `id` from an index on.
pub open spec fn file_from(id: Seq<char>, offset: i64) -> spec_fn(GrantFileRowView) -> bool {
    |f: GrantFileRowView| f.grant_id == id && f.file_index >= offset
}

/// Lower indexes first.
pub open spec fn lower_file() -> spec_fn(GrantFileRowView, GrantFileRowView) -> bool {
    |a: GrantFileRowView, b: GrantFileRowView| a.file_index < b.file_index
}

/// A file row with its index.
pub open spec fn indexed_file() -> spec_fn(GrantFileRowView) -> Result<
    (usize, OutboundGrantFileView),
    Seq<char>,
> {
    |f: GrantFileRowView|
        if is_size(f.file_index) {
            Ok((f.file_index as usize, grant_file_of(f)))
        } else {
            Err(not_a_size())
        }
}

/// The sum of a column, where no partial sum leaves the column's range.
pub open spec fn column_sum(values: Seq<i64>) -> Option<i64>
    decreases values.len(),
{
    if values.len() == 0 {
        Some(0)
    } else {
        match column_sum(values.drop_last()) {
            None => None,
            Some(sum) => if i64::MIN <= sum + values.last() <= i64::MAX {
                Some((sum + values.last()) as i64)
            } else {
                None
            },
        }
    }
}

/// The upper or the lower byte limbs of files.
pub open spec fn limbs(rows: Seq<GrantFileRowView>, upper: bool) -> Seq<i64> {
    rows.map_values(
        |f: GrantFileRowView|
            if upper {
                f.bytes_hi
            } else {
                f.bytes_lo
            },
    )
}

/// The file of a grant that stands for a single received file.
pub open spec fn single_file(g: OutboundGrantView) -> OutboundGrantFileView {
    OutboundGrantFileView {
        source: Seq::empty(),
        name: g.name,
        suite: g.suite,
        root: g.root,
        bytes: g.bytes,
        receipt_b64: Seq::empty(),
        downloads: g.downloads,
        first_download_at: g.first_download_at,
        last_download_at: g.last_download_at,
    }
}

/// A page of the files of the grant under a token.
pub open spec fn files_page(
    s: StoreView,
    token_hash: Seq<char>,
    offset: usize,
    limit: usize,
) -> Result<Option<OutboundGrantFilesPageView>, Seq<char>> {
    if offset > i64::MAX {
        Err("outbound file offset overflow"@)
    } else if limit > i64::MAX {
        Err("outbound file limit overflow"@)
    } else {
        match first(s.grants, grant_with(token_hash)) {
            None => Ok(None),
            Some(g) => if g.file_count > usize::MAX {
                Err(not_a_size())
            } else {
                match base_of(g) {
                    Err(e) => Err(e),
                    Ok(grant) => {
                        let rows = page(
                            sorted_by(
                                s.grant_files.filter(file_from(g.id, offset as i64)),
                                lower_file(),
                            ),
                            0,
                            limit as int,
                        );
                        match try_map(rows, indexed_file()) {
                            Err(e) => Err(e),
                            Ok(rows) => {
                                let files = if rows.len() == 0 && offset == 0 && is_single(
                                    s.grant_files,
                                    g,
                                ) {
                                    seq![(0usize, single_file(grant))]
                                } else {
                                    rows
                                };
                                match (
                                    column_sum(limbs(s.grant_files.filter(file_of(g.id)), true)),
                                    column_sum(limbs(s.grant_files.filter(file_of(g.id)), false)),
                                ) {
                                    (Some(hi), Some(lo)) => {
                                        let total = joined(hi, lo);
                                        Ok(
                                            Some(
                                                OutboundGrantFilesPageView {
                                                    grant,
                                                    file_count: index_of(g.file_count),
                                                    total_bytes: if total == 0 {
                                                        grant.bytes
                                                    } else {
                                                        total
                                                    },
                                                    files,
                                                },
                                            ),
                                        )
                                    },
                                    _ => Err("integer overflow"@),
                                }
                            },
                        }
                    },
                }
            },
        }
    }
}

// ---------------------------------------------------------------- operations
/// The grant that a row stands for, with `files` as its manifest.
fn map_grant(g: &GrantRow, files: Vec<OutboundGrantFile>) -> (r: OutboundGrant)
    ensures
        r@ == grant_of(g@, files.deep_view()),
{
    OutboundGrant {
        id: g.id.clone(),
        token_hash: g.token_hash.clone(),
        password_hash: dup_option(&g.password_hash),
        tenant: g.tenant.clone(),
        link_id: g.link_id.clone(),
        upload_id: g.upload_id.clone(),
        package_root: g.package_root.clone(),
        name: g.name.clone(),
        suite: g.suite.clone(),
        root: g.root.clone(),
        file_index: to_index(g.file_index),
        bytes: combine_byte_sums(g.bytes_hi, g.bytes_lo),
        label: g.label.clone(),
        created_at: from_column(g.created_at),
        expires_at: from_column(g.expires_at),
        revoked_at: from_optional_column(g.revoked_at),
        downloads: from_column(g.downloads),
        max_downloads: from_optional_column(g.max_downloads),
        notifications: dup_option(&g.notifications),
        first_download_at: from_optional_column(g.first_download_at),
        last_download_at: from_optional_column(g.last_download_at),
        files,
    }
}

/// The grant that a row stands for, without its manifest.
pub fn map_outbound_grant_base(g: &GrantRow) -> (r: Result<OutboundGrant, String>)
    ensures
        outcome(r) == base_of(g@),
{
    if let Some(error) = &g.notifications_error {
        return Err(decode_error("0", error.as_str()));
    }
    let files: Vec<OutboundGrantFile> = Vec::new();
    assert(files.deep_view() =~= Seq::<OutboundGrantFileView>::empty());
    Ok(map_grant(g, files))
}

/// The file that a row stands for.
pub fn map_outbound_grant_file(f: &GrantFileRow) -> (r: OutboundGrantFile)
    ensures
        r@ == grant_file_of(f@),
{
    OutboundGrantFile {
        source: f.source.clone(),
        name: f.name.clone(),
        suite: f.suite.clone(),
        root: f.root.clone(),
        bytes: combine_byte_sums(f.bytes_hi, f.bytes_lo),
        receipt_b64: f.receipt_b64.clone(),
        downloads: from_column(f.downloads),
        first_download_at: from_optional_column(f.first_download_at),
        last_download_at: from_optional_column(f.last_download_at),
    }
}

/// A manifest with the counters that the file rows of grant `id` hold.
pub fn overlay_outbound_file_counters(
    rows: &Vec<GrantFileRow>,
    id: &str,
    files: &Vec<OutboundGrantFile>,
) -> (out: Vec<OutboundGrantFile>)
    ensures
        out.deep_view() == with_counters(rows.deep_view(), id@, files.deep_view()),
{
    let mut out: Vec<OutboundGrantFile> = Vec::new();
    let mut i: usize = 0;
    while i < files.len()
        invariant
            i <= files.len(),
            out.len() == i,
            forall|k: int|
                0 <= k < i ==> (#[trigger] out@[k])@ == with_counters(
                    rows.deep_view(),
                    id@,
                    files.deep_view(),
                )[k],
        decreases files.len() - i,
    {
        let mut file = files[i].dup();
        let index: i64 = size_to_column(i);
        let here = |f: &GrantFileRow| -> (b: bool)
            ensures
                b == file_at(id@, index)(f@),
        {
            same(f.grant_id.as_str(), id) && f.file_index == index
        };
        if let Some(found) = find(rows, here, Ghost(file_at(id@, index))) {
            file.downloads = from_column(rows[found].downloads);
            file.first_download_at = from_optional_column(rows[found].first_download_at);
            file.last_download_at = from_optional_column(rows[found].last_download_at);
        }
        out.push(file);
        i += 1;
    }
    assert(out.deep_view() =~= with_counters(rows.deep_view(), id@, files.deep_view()));
    out
}

/// The grant that a row stands for, with its manifest and its files' counters.
pub fn map_outbound_grant(rows: &Vec<GrantFileRow>, g: &GrantRow) -> (r: Result<
    OutboundGrant,
    String,
>)
    ensures
        outcome(r) == full_of(rows.deep_view())(g@),
{
    if let Some(error) = &g.notifications_error {
        return Err(decode_error("0", error.as_str()));
    }
    if let Some(error) = &g.files_error {
        return Err(decode_error("20", error.as_str()));
    }
    let files = overlay_outbound_file_counters(rows, g.id.as_str(), &g.files);
    Ok(map_grant(g, files))
}

fn size_error() -> (e: String)
    ensures
        e@ == not_a_size(),
{
    "Conversion error from type Integer at index: 0, out of range integral type conversion attempted".to_owned()
}

/// A grant as listed, and its number of files.
pub fn map_outbound_grant_page(rows: &Vec<GrantFileRow>, g: &GrantRow, preview: i64) -> (r: Result<
    (OutboundGrant, usize),
    String,
>)
    ensures
        outcome(r) == listed(rows.deep_view(), preview)(g@),
{
    if let Some(error) = &g.notifications_error {
        return Err(decode_error("0", error.as_str()));
    }
    if g.file_count <= preview {
        if let Some(error) = &g.files_error {
            return Err(decode_error("20", error.as_str()));
        }
    }
    if !holds_size(g.file_count) {
        return Err(size_error());
    }
    let files = if g.file_count <= preview {
        overlay_outbound_file_counters(rows, g.id.as_str(), &g.files)
    } else {
        Vec::new()
    };
    assert(g.file_count > preview ==> files.deep_view() =~= Seq::<OutboundGrantFileView>::empty());
    Ok((map_grant(g, files), g.file_count as usize))
}

/// The sum of a column, where no partial sum leaves the column's range.
fn sum_columns(rows: &Vec<GrantFileRow>, upper: bool) -> (sum: Option<i64>)
    ensures
        sum == column_sum(limbs(rows.deep_view(), upper)),
{
    let ghost all = limbs(rows.deep_view(), upper);
    let mut sum: i64 = 0;
    let mut i: usize = 0;
    assert(all.take(0) =~= Seq::<i64>::empty());
    while i < rows.len()
        invariant
            i <= rows.len(),
            all == limbs(rows.deep_view(), upper),
            column_sum(all.take(i as int)) == Some(sum),
        decreases rows.len() - i,
    {
        let value: i64 = if upper {
            rows[i].bytes_hi
        } else {
            rows[i].bytes_lo
        };
        proof {
            assert(all.take(i + 1).drop_last() =~= all.take(i as int));
            assert(all.take(i + 1).last() == value);
        }
        match sum.checked_add(value) {
            Some(next) => {
                sum = next;
            },
            None => {
                proof {
                    lemma_sum_overflow(all, i + 1);
                }
                return None;
            },
        }
        i += 1;
    }
    assert(all.take(i as int) =~= all);
    Some(sum)
}

pub proof fn lemma_sum_overflow(values: Seq<i64>, i: int)
    requires
        0 <= i <= values.len(),
        column_sum(values.take(i)) is None,
    ensures
        column_sum(values) is None,
    decreases values.len() - i,
{
    if i < values.len() {
        assert(values.take(i + 1).drop_last() =~= values.take(i));
        lemma_sum_overflow(values, i + 1);
    } else {
        assert(values.take(i) =~= values);
    }
}

impl Store {
    /// A tenant's grants, oldest first.
    pub fn outbound_grants(&self, tenant: &str) -> (r: Result<Vec<OutboundGrant>, String>)
        ensures
            outcome(r) == crate::offers::grants_told(self@, tenant@),
    {
        let scope = |g: &GrantRow| -> (b: bool)
            ensures
                b == grant_in(tenant@)(g@),
        {
            same(g.tenant.as_str(), tenant)
        };
        let older = |a: &GrantRow, b: &GrantRow| -> (r: bool)
            ensures
                r == older_grant()(a@, b@),
        {
            a.created_at < b.created_at
        };
        let children = &self.grant_files;
        let read = |g: &GrantRow| -> (r: Result<OutboundGrant, String>)
            ensures
                outcome(r) == full_of(children.deep_view())(g@),
        {
            map_outbound_grant(children, g)
        };
        let rows = select(&self.grants, scope, Ghost(grant_in(tenant@)));
        let rows = sort_rows(rows, older, Ghost(older_grant()));
        try_project(&rows, read, Ghost(full_of(children.deep_view())))
    }

    /// One page of a tenant's grants, newest first, each with its number of
    /// files, and how many grants the tenant has.
    pub fn outbound_grants_page(
        &self,
        tenant: &str,
        limit: usize,
        offset: usize,
        file_preview_limit: usize,
    ) -> (r: Result<(Vec<(OutboundGrant, usize)>, u64), String>)
        ensures
            outcome(r) == crate::offers::grants_paged(self@, tenant@, limit, offset, file_preview_limit),
    {
        if limit as u64 > i64::MAX as u64 {
            return Err("outbound grant limit overflow".to_owned());
        }
        if offset as u64 > i64::MAX as u64 {
            return Err("outbound grant offset overflow".to_owned());
        }
        if file_preview_limit as u64 > i64::MAX as u64 {
            return Err("outbound grant file preview limit overflow".to_owned());
        }
        let preview: i64 = file_preview_limit as i64;
        let scope = |g: &GrantRow| -> (b: bool)
            ensures
                b == grant_in(tenant@)(g@),
        {
            same(g.tenant.as_str(), tenant)
        };
        let older = |a: &GrantRow, b: &GrantRow| -> (r: bool)
            ensures
                r == older_grant()(a@, b@),
        {
            a.created_at < b.created_at
        };
        let children = &self.grant_files;
        let read = |g: &GrantRow| -> (r: Result<(OutboundGrant, usize), String>)
            ensures
                outcome(r) == listed(children.deep_view(), preview)(g@),
        {
            map_outbound_grant_page(children, g, preview)
        };
        let rows = select(&self.grants, scope, Ghost(grant_in(tenant@)));
        let total: u64 = rows.len() as u64;
        let rows = sort_rows(rows, older, Ghost(older_grant()));
        let rows = reversed(&rows);
        let rows = page_rows(&rows, offset, limit);
        match try_project(&rows, read, Ghost(listed(children.deep_view(), preview))) {
            Ok(grants) => Ok((grants, total)),
            Err(error) => Err(error),
        }
    }

    /// The grant looked up by its token.
    pub fn outbound_grant_by_token_hash(&self, token_hash: &str) -> (r: Result<
        Option<OutboundGrant>,
        String,
    >)
        ensures
            outcome(r) == crate::offers::grant_by_token(self@, token_hash@),
    {
        let named = |g: &GrantRow| -> (b: bool)
            ensures
                b == grant_with(token_hash@)(g@),
        {
            same(g.token_hash.as_str(), token_hash)
        };
        match find(&self.grants, named, Ghost(grant_with(token_hash@))) {
            Some(found) => match map_outbound_grant(&self.grant_files, &self.grants[found]) {
                Ok(grant) => Ok(Some(grant)),
                Err(error) => Err(error),
            },
            None => Ok(None),
        }
    }

    /// The grant `id`.
    pub fn outbound_grant_by_id(&self, id: &str) -> (r: Result<Option<OutboundGrant>, String>)
        ensures
            outcome(r) == crate::offers::grant_by_id(self@, id@),
    {
        let named = |g: &GrantRow| -> (b: bool)
            ensures
                b == grant_is(id@)(g@),
        {
            same(g.id.as_str(), id)
        };
        match find(&self.grants, named, Ghost(grant_is(id@))) {
            Some(found) => match map_outbound_grant(&self.grant_files, &self.grants[found]) {
                Ok(grant) => Ok(Some(grant)),
                Err(error) => Err(error),
            },
            None => Ok(None),
        }
    }

    /// One file of the grant under a token, without reading the manifest.
    pub fn outbound_grant_file_by_token_hash(&self, token_hash: &str, index: usize) -> (r: Result<
        Option<(OutboundGrant, Option<OutboundGrantFile>)>,
        String,
    >)
        ensures
            outcome(r) == file_lookup(self@, token_hash@, index),
    {
        let named = |g: &GrantRow| -> (b: bool)
            ensures
                b == grant_with(token_hash@)(g@),
        {
            same(g.token_hash.as_str(), token_hash)
        };
        let found = match find(&self.grants, named, Ghost(grant_with(token_hash@))) {
            Some(found) => found,
            None => {
                return Ok(None);
            },
        };
        let row = &self.grants[found];
        if row.file_count > 0 && row.file_count as u64 > usize::MAX as u64 {
            return Err(size_error());
        }
        let grant = match map_outbound_grant_base(row) {
            Ok(grant) => grant,
            Err(error) => {
                return Err(error);
            },
        };
        if row.file_count <= 0 || index as u64 >= row.file_count as u64 {
            return Ok(None);
        }
        let at: i64 = size_to_column(index);
        let id = row.id.as_str();
        let here = |f: &GrantFileRow| -> (b: bool)
            ensures
                b == file_at(id@, at)(f@),
        {
            same(f.grant_id.as_str(), id) && f.file_index == at
        };
        match find(&self.grant_files, here, Ghost(file_at(id@, at))) {
            Some(at) => Ok(Some((grant, Some(map_outbound_grant_file(&self.grant_files[at]))))),
            None => if self.stands_for_single_file(row) {
                Ok(Some((grant, None)))
            } else {
                Ok(None)
            },
        }
    }

    /// Whether a grant stands for a single received file.
    fn stands_for_single_file(&self, row: &GrantRow) -> (r: bool)
        ensures
            r == is_single(self@.grant_files, row@),
    {
        let id = row.id.as_str();
        let own = |f: &GrantFileRow| -> (b: bool)
            ensures
                b == file_of(id@)(f@),
        {
            same(f.grant_id.as_str(), id)
        };
        row.file_count == 1 && !exists_where(&self.grant_files, own, Ghost(file_of(id@)))
            && row.files_error.is_none() && row.files.len() == 0
    }

    /// One page of the files of the grant under a token.
    pub fn outbound_grant_files_page_by_token_hash(
        &self,
        token_hash: &str,
        offset: usize,
        limit: usize,
    ) -> (r: Result<Option<OutboundGrantFilesPage>, String>)
        ensures
            outcome(r) == files_page(self@, token_hash@, offset, limit),
    {
        if offset as u64 > i64::MAX as u64 {
            return Err("outbound file offset overflow".to_owned());
        }
        if limit as u64 > i64::MAX as u64 {
            return Err("outbound file limit overflow".to_owned());
        }
        let named = |g: &GrantRow| -> (b: bool)
            ensures
                b == grant_with(token_hash@)(g@),
        {
            same(g.token_hash.as_str(), token_hash)
        };
        let found = match find(&self.grants, named, Ghost(grant_with(token_hash@))) {
            Some(found) => found,
            None => {
                return Ok(None);
            },
        };
        let row = &self.grants[found];
        if row.file_count > 0 && row.file_count as u64 > usize::MAX as u64 {
            return Err(size_error());
        }
        let grant = match map_outbound_grant_base(row) {
            Ok(grant) => grant,
            Err(error) => {
                return Err(error);
            },
        };
        let id = row.id.as_str();
        let start: i64 = offset as i64;
        let from = |f: &GrantFileRow| -> (b: bool)
            ensures
                b == file_from(id@, start)(f@),
        {
            same(f.grant_id.as_str(), id) && f.file_index >= start
        };
        let lower = |a: &GrantFileRow, b: &GrantFileRow| -> (r: bool)
            ensures
                r == lower_file()(a@, b@),
        {
            a.file_index < b.file_index
        };
        let own = |f: &GrantFileRow| -> (b: bool)
            ensures
                b == file_of(id@)(f@),
        {
            same(f.grant_id.as_str(), id)
        };
        let read = |f: &GrantFileRow| -> (r: Result<(usize, OutboundGrantFile), String>)
            ensures
                outcome(r) == indexed_file()(f@),
        {
            if holds_size(f.file_index) {
                Ok((f.file_index as usize, map_outbound_grant_file(f)))
            } else {
                Err(size_error())
            }
        };
        let rows = select(&self.grant_files, from, Ghost(file_from(id@, start)));
        let rows = sort_rows(rows, lower, Ghost(lower_file()));
        let rows = page_rows(&rows, 0, limit);
        let mut files = match try_project(&rows, read, Ghost(indexed_file())) {
            Ok(files) => files,
            Err(error) => {
                return Err(error);
            },
        };
        if files.len() == 0 && offset == 0 && self.stands_for_single_file(row) {
            let single = OutboundGrantFile {
                source: String::new(),
                name: grant.name.clone(),
                suite: grant.suite.clone(),
                root: grant.root.clone(),
                bytes: grant.bytes,
                receipt_b64: String::new(),
                downloads: grant.downloads,
                first_download_at: grant.first_download_at,
                last_download_at: grant.last_download_at,
            };
            proof {
                assert(single@.source =~= Seq::<char>::empty());
                assert(single@.receipt_b64 =~= Seq::<char>::empty());
            }
            files.push((0, single));
            assert(files.deep_view() =~= seq![(0usize, single_file(grant@))]);
        }
        let own_rows = select(&self.grant_files, own, Ghost(file_of(id@)));
        match (sum_columns(&own_rows, true), sum_columns(&own_rows, false)) {
            (Some(hi), Some(lo)) => {
                let total: u64 = combine_byte_sums(hi, lo);
                let total_bytes: u64 = if total == 0 {
                    grant.bytes
                } else {
                    total
                };
                Ok(
                    Some(
                        OutboundGrantFilesPage {
                            grant,
                            file_count: to_index(row.file_count),
                            total_bytes,
                            files,
                        },
                    ),
                )
            },
            _ => Err("integer overflow".to_owned()),
        }
    }
}

} // verus!
