//! Searching a tenant's links, grants and received files.
use vstd::prelude::*;

use crate::columns::{
    LIMB, column, from_column, from_optional_column, is_limb, natural, optional, to_column,
};
use crate::files::file_bytes;
use crate::grants::grant_in;
use crate::isolation::{lemma_as_many, lemma_items};
use crate::like::{
    anywhere, anywhere_pattern, complexity, complexity_error, escape_like, escaped, is_like,
    is_too_complex, like, too_complex,
};
use crate::quota::weight;
use crate::records::{
    SearchDownload, SearchDownloadView, SearchFile, SearchFileView, SearchRequest,
    SearchRequestView, SearchResults, SearchResultsView,
};
use crate::rows::{
    FileRow, FileRowView, GrantRow, GrantRowView, LinkRow, LinkRowView, UploadRow, UploadRowView,
};
use crate::store::{Store, StoreView};
use crate::table::{
    Row, any, append_row, exists_where, find, first, lemma_sorted_ordered, outcome, page, page_rows,
    project, select, sort_rows, sorted_by, try_map, try_project,
};
use crate::text::{
    ascii_fold, chars, folded, lowercase, lt, same, text_lt, text_order_is_total, to_lowercase,
};
use crate::uploads::{link_is, no_limb, upload_at};
use crate::usage::{capped, link_in};

verus! {

// ------------------------------------------------------------ specifications
/// The pattern that a query searches by.
pub open spec fn needle(query: Seq<char>) -> Seq<char> {
    anywhere(escaped(lowercase(query)))
}

/// A tenant's links that a pattern finds, by label, destination or id.
pub open spec fn request_found(tenant: Seq<char>, pattern: Seq<char>) -> spec_fn(LinkRowView) -> bool {
    |l: LinkRowView|
        l.tenant == tenant && (like(ascii_fold(l.label), pattern) || like(
            ascii_fold(l.dest),
            pattern,
        ) || like(l.id, pattern))
}

/// Newer links first.
pub open spec fn newer_request() -> spec_fn(LinkRowView, LinkRowView) -> bool {
    |a: LinkRowView, b: LinkRowView| a.created_at > b.created_at
}

/// A link as a search shows it.
pub open spec fn request_shown() -> spec_fn(LinkRowView) -> SearchRequestView {
    |l: LinkRowView|
        SearchRequestView {
            id: l.id,
            label: l.label,
            dest: l.dest,
            active: l.active,
            expires_at: optional(l.expires_at),
            created_at: natural(l.created_at),
        }
}

/// A tenant's grants that a pattern finds, by label or name.
pub open spec fn download_found(tenant: Seq<char>, pattern: Seq<char>) -> spec_fn(GrantRowView) -> bool {
    |g: GrantRowView|
        g.tenant == tenant && (like(ascii_fold(g.label), pattern) || like(
            ascii_fold(g.name),
            pattern,
        ))
}

/// Newer grants first.
pub open spec fn newer_download() -> spec_fn(GrantRowView, GrantRowView) -> bool {
    |a: GrantRowView, b: GrantRowView| a.created_at > b.created_at
}

/// A grant as a search shows it.
pub open spec fn download_shown() -> spec_fn(GrantRowView) -> SearchDownloadView {
    |g: GrantRowView|
        SearchDownloadView {
            id: g.id,
            label: g.label,
            name: g.name,
            created_at: natural(g.created_at),
            revoked: g.revoked_at is Some,
        }
}

/// Live records of a tenant's links that a pattern finds by path.
pub open spec fn file_found(s: StoreView, tenant: Seq<char>, pattern: Seq<char>) -> spec_fn(
    FileRowView,
) -> bool {
    |f: FileRowView|
        !f.deleted && like(ascii_fold(f.path), pattern) && any(
            s.uploads,
            upload_at(f.link_id, f.upload_id),
        ) && any(s.links, link_is(tenant, f.link_id))
}

/// A record with its upload and its link.
pub open spec fn in_context(s: StoreView, tenant: Seq<char>) -> spec_fn(FileRowView) -> (
    FileRowView,
    UploadRowView,
    LinkRowView,
) {
    |f: FileRowView|
        (
            f,
            first(s.uploads, upload_at(f.link_id, f.upload_id))->0,
            first(s.links, link_is(tenant, f.link_id))->0,
        )
}

/// When an upload was completed, as its header tells it.
pub enum Completion {
    /// It is not told.
    Untold,
    /// At a time that a column can hold.
    At(int),
    /// At a real time: the integer next to it, whether it is below (-1), is (0) or is
    /// above (1) that integer, and what real times there are ordered by.
    Real(int, int, int),
    /// It is told in words.
    Text(Seq<char>),
}

/// When an upload was completed, be its header a record or other JSON.
pub open spec fn completion(u: UploadRowView) -> Completion {
    if u.header_error is None {
        if u.header.completed_at <= i64::MAX {
            Completion::At(u.header.completed_at as int)
        } else {
            Completion::Real(i64::MAX as int, 1, real_order(u.header.completed_at))
        }
    } else {
        match u.members {
            None => Completion::Untold,
            Some(m) => match (m.completed_at, m.completed_part, m.completed_text) {
                (Some(n), _, _) => Completion::At(n as int),
                (None, Some(n), _) => Completion::Real(
                    n as int,
                    m.completed_rest as int,
                    m.completed_order as int,
                ),
                (None, None, Some(t)) => Completion::Text(t),
                (None, None, None) => Completion::Untold,
            },
        }
    }
}

/// Where a time stands among others: integers stand at themselves, real times next to
/// theirs.
pub open spec fn place(c: Completion) -> (int, int, int) {
    match c {
        Completion::At(n) => (n, 0, 0),
        Completion::Real(n, rest, order) => (n, rest, order),
        _ => (0, 0, 0),
    }
}

/// Whether a place comes after another.
pub open spec fn is_greater(a: (int, int, int), b: (int, int, int)) -> bool {
    a.0 > b.0 || (a.0 == b.0 && (a.1 > b.1 || (a.1 == b.1 && a.2 > b.2)))
}

/// What a time beyond the greatest integer of a column is ordered by among real times:
/// the bits of the double that is next to it, the even one of two.
pub open spec fn real_order(n: u64) -> int {
    let over = n - 0x8000_0000_0000_0000;
    let down = over / 2048;
    let rest = over % 2048;
    0x43e0_0000_0000_0000 + if rest > 1024 || (rest == 1024 && down % 2 == 1) {
        down + 1
    } else {
        down
    }
}

/// Whether a completion comes after another: words after numbers, and both after
/// what is not told.
pub open spec fn comes_after(a: Completion, b: Completion) -> bool {
    match a {
        Completion::Untold => false,
        Completion::At(_) | Completion::Real(_, _, _) => match b {
            Completion::Untold => true,
            Completion::At(_) | Completion::Real(_, _, _) => is_greater(place(a), place(b)),
            Completion::Text(_) => false,
        },
        Completion::Text(s) => match b {
            Completion::Text(t) => text_lt(t, s),
            _ => true,
        },
    }
}

/// Whether an upload's header is no JSON.
pub open spec fn is_malformed(u: UploadRowView) -> bool {
    u.header_error is Some && u.members is None
}

/// A record whose upload's header is no JSON.
pub open spec fn headless() -> spec_fn((FileRowView, UploadRowView, LinkRowView)) -> bool {
    |x: (FileRowView, UploadRowView, LinkRowView)| is_malformed(x.1)
}

/// Records of later uploads first.
pub open spec fn later_upload() -> spec_fn(
    (FileRowView, UploadRowView, LinkRowView),
    (FileRowView, UploadRowView, LinkRowView),
) -> bool {
    |a: (FileRowView, UploadRowView, LinkRowView), b: (FileRowView, UploadRowView, LinkRowView)|
        comes_after(completion(a.1), completion(b.1))
}

/// The refusal of a completion that is no integer.
pub open spec fn not_a_time(found: Seq<char>) -> Seq<char> {
    "Invalid column type "@ + found
        + " at index: 6, name: json_extract(upload.document, '$.completed_at')"@
}

/// A record as a search shows it.
pub open spec fn file_shown() -> spec_fn((FileRowView, UploadRowView, LinkRowView)) -> Result<
    SearchFileView,
    Seq<char>,
> {
    |x: (FileRowView, UploadRowView, LinkRowView)|
        if !is_limb(x.0.bytes_hi) {
            Err(no_limb(x.0.bytes_hi, "4"@))
        } else if !is_limb(x.0.bytes_lo) {
            Err(no_limb(x.0.bytes_lo, "5"@))
        } else {
            match completion(x.1) {
                Completion::Untold => Err(not_a_time("Null"@)),
                Completion::Real(_, _, _) => Err(not_a_time("Real"@)),
                Completion::Text(_) => Err(not_a_time("Text"@)),
                Completion::At(n) => Ok(
                    SearchFileView {
                        link_id: x.2.id,
                        link_label: x.2.label,
                        upload_id: x.1.upload_id,
                        path: x.0.path,
                        bytes: weight(x.0),
                        completed_at: natural(n as i64),
                    },
                ),
            }
        }
}

/// The received files that a search finds, those of later uploads first.
pub open spec fn files_found(
    s: StoreView,
    tenant: Seq<char>,
    pattern: Seq<char>,
    limit: int,
) -> Result<Seq<SearchFileView>, Seq<char>> {
    let rows = s.files.filter(file_found(s, tenant, pattern)).map_values(in_context(s, tenant));
    match first(rows, headless()) {
        Some(_) if limit > 0 => Err("malformed JSON"@),
        _ => try_map(page(sorted_by(rows, later_upload()), 0, limit), file_shown()),
    }
}

/// The limit of a search as a number of rows.
pub open spec fn row_limit(limit: u64) -> int {
    if limit > i64::MAX {
        i64::MAX as int
    } else {
        limit as int
    }
}

/// Whether a search is refused: its pattern takes too many bytes, and there is a link or
/// a grant to hold it against.
pub open spec fn is_refused(s: StoreView, tenant: Seq<char>, query: Seq<char>, limit: u64) -> bool {
    limit > 0 && too_complex(needle(query)) && (any(s.links, link_in(tenant)) || any(
        s.grants,
        grant_in(tenant),
    ))
}

/// What a search finds.
pub open spec fn found(s: StoreView, tenant: Seq<char>, query: Seq<char>, limit: u64) -> Result<
    SearchResultsView,
    Seq<char>,
> {
    match files_found(s, tenant, needle(query), row_limit(limit)) {
        _ if is_refused(s, tenant, query, limit) => Err(complexity()),
        Err(e) => Err(e),
        Ok(files) => Ok(
            SearchResultsView {
                requests: page(
                    sorted_by(
                        s.links.filter(request_found(tenant, needle(query))),
                        newer_request(),
                    ),
                    0,
                    row_limit(limit),
                ).map_values(request_shown()),
                downloads: page(
                    sorted_by(
                        s.grants.filter(download_found(tenant, needle(query))),
                        newer_download(),
                    ),
                    0,
                    row_limit(limit),
                ).map_values(download_shown()),
                files,
            },
        ),
    }
}

/// Uploads of a tenant's links.
pub open spec fn upload_of_tenant(links: Seq<LinkRowView>, tenant: Seq<char>) -> spec_fn(
    UploadRowView,
) -> bool {
    |u: UploadRowView| any(links, link_is(tenant, u.link_id))
}

/// Whether an upload was completed in full at a time or later.
pub open spec fn completed_since(u: UploadRowView, since: i64) -> bool {
    (match completion(u) {
        Completion::Untold => false,
        Completion::At(n) => n >= since,
        Completion::Real(n, rest, _) => n > since || (n == since && rest >= 0),
        Completion::Text(_) => true,
    }) && !(match u.members {
        Some(m) if u.header_error is Some => m.partial,
        _ => u.header.partial,
    })
}

/// The bytes of an upload, none where its header does not tell them.
pub open spec fn bytes_told(u: UploadRowView) -> Result<u64, Seq<char>> {
    match u.members {
        Some(m) if u.header_error is Some => match m.total_error {
            Some(e) => Err(e),
            None => match m.total_bytes {
                Some(n) => Ok(n),
                None => Ok(0),
            },
        },
        _ => Ok(u.header.total_bytes),
    }
}

/// Number and bytes of the full uploads since a time, or why one cannot be counted.
pub open spec fn tallied(s: Seq<UploadRowView>, since: i64) -> Result<(nat, int), Seq<char>>
    decreases s.len(),
{
    if s.len() == 0 {
        Ok((0, 0))
    } else {
        match tallied(s.drop_last(), since) {
            Err(e) => Err(e),
            Ok((n, bytes)) => if is_malformed(s.last()) {
                Err("malformed JSON"@)
            } else if !completed_since(s.last(), since) {
                Ok((n, bytes))
            } else {
                match bytes_told(s.last()) {
                    Err(e) => Err(e),
                    Ok(more) => Ok((n + 1, bytes + more)),
                }
            },
        }
    }
}

/// Number and bytes of a tenant's full uploads since a time.
pub open spec fn uploads_counted(s: StoreView, tenant: Seq<char>, since: u64) -> Result<
    (u64, u64),
    Seq<char>,
> {
    match tallied(s.uploads.filter(upload_of_tenant(s.links, tenant)), column(since)) {
        Err(e) => Err(e),
        Ok((n, bytes)) => Ok((n as u64, capped(bytes))),
    }
}

// ---------------------------------------------------------------------- laws
proof fn lemma_files_ordered(
    files: Seq<(FileRowView, UploadRowView, LinkRowView)>,
    limit: int,
)
    requires
        limit >= 0,
    ensures
        try_map(page(sorted_by(files, later_upload()), 0, limit), file_shown()) matches Ok(shown)
            ==> shown.len() <= limit && forall|i: int|
            0 <= i < shown.len() - 1 ==> (#[trigger] shown[i]).completed_at >= shown[i
                + 1].completed_at,
{
    assert forall|a: (FileRowView, UploadRowView, LinkRowView), b: (
        FileRowView,
        UploadRowView,
        LinkRowView,
    )| #[trigger] later_upload()(a, b) implies !later_upload()(b, a) by {
        if let (Completion::Text(x), Completion::Text(y)) = (completion(a.1), completion(b.1)) {
            text_order_is_total(x, y);
        }
    }
    lemma_sorted_ordered(files, later_upload());
    let sorted = sorted_by(files, later_upload());
    let rows = page(sorted, 0, limit);
    lemma_as_many(rows, file_shown());
    if let Ok(shown) = try_map(rows, file_shown()) {
        assert forall|i: int| 0 <= i < shown.len() - 1 implies (#[trigger] shown[i]).completed_at
            >= shown[i + 1].completed_at by {
            lemma_items(rows, file_shown(), i);
            lemma_items(rows, file_shown(), i + 1);
            assert(rows[i] == sorted[i]);
            assert(rows[i + 1] == sorted[i + 1]);
            assert(!later_upload()(sorted[i + 1], sorted[i]));
        }
    }
}

/// A search finds at most as many of each kind as it was asked for, the newest first.
pub proof fn searches_are_capped_and_newest_first(
    s: StoreView,
    tenant: Seq<char>,
    query: Seq<char>,
    limit: u64,
)
    ensures
        found(s, tenant, query, limit) matches Ok(r) ==> {
            &&& r.requests.len() <= limit
            &&& r.downloads.len() <= limit
            &&& r.files.len() <= limit
            &&& forall|i: int|
                0 <= i < r.requests.len() - 1 ==> (#[trigger] r.requests[i]).created_at
                    >= r.requests[i + 1].created_at
            &&& forall|i: int|
                0 <= i < r.downloads.len() - 1 ==> (#[trigger] r.downloads[i]).created_at
                    >= r.downloads[i + 1].created_at
            &&& forall|i: int|
                0 <= i < r.files.len() - 1 ==> (#[trigger] r.files[i]).completed_at
                    >= r.files[i + 1].completed_at
        },
{
    if let Ok(r) = found(s, tenant, query, limit) {
        let links = s.links.filter(request_found(tenant, needle(query)));
        let grants = s.grants.filter(download_found(tenant, needle(query)));
        let files = s.files.filter(file_found(s, tenant, needle(query))).map_values(
            in_context(s, tenant),
        );
        lemma_sorted_ordered(links, newer_request());
        lemma_sorted_ordered(grants, newer_download());
        lemma_files_ordered(files, row_limit(limit));
        let asked = page(sorted_by(links, newer_request()), 0, row_limit(limit));
        assert forall|i: int| 0 <= i < r.requests.len() - 1 implies (
        #[trigger] r.requests[i]).created_at >= r.requests[i + 1].created_at by {
            assert(asked[i] == sorted_by(links, newer_request())[i]);
            assert(asked[i + 1] == sorted_by(links, newer_request())[i + 1]);
        }
        let issued = page(sorted_by(grants, newer_download()), 0, row_limit(limit));
        assert forall|i: int| 0 <= i < r.downloads.len() - 1 implies (
        #[trigger] r.downloads[i]).created_at >= r.downloads[i + 1].created_at by {
            assert(issued[i] == sorted_by(grants, newer_download())[i]);
            assert(issued[i + 1] == sorted_by(grants, newer_download())[i + 1]);
        }
    }
}

// ---------------------------------------------------------------- operations
fn limit_rows(limit: u64) -> (r: usize)
    ensures
        r == row_limit(limit) || (row_limit(limit) > usize::MAX && r == usize::MAX),
{
    let n: u64 = if limit > i64::MAX as u64 {
        i64::MAX as u64
    } else {
        limit
    };
    if n > usize::MAX as u64 {
        usize::MAX
    } else {
        n as usize
    }
}

/// The first rows of a table.
fn top<T: Row>(rows: &Vec<T>, limit: u64) -> (out: Vec<T>)
    ensures
        out.deep_view() == page(rows.deep_view(), 0, row_limit(limit)),
{
    let n: usize = limit_rows(limit);
    assert(rows.deep_view().len() == rows.len() <= usize::MAX);
    page_rows(rows, 0, n)
}

impl Store {
    /// Searches a tenant's links, grants and received files; each group holds at
    /// most `limit` rows, the newest first.
    pub fn search(&self, tenant: &str, query: &str, limit: u64) -> (r: Result<SearchResults, String>)
        ensures
            outcome(r) == found(self@, tenant@, query@, limit),
    {
        let word = to_lowercase(query);
        let word = escape_like(word.as_str());
        let pattern = anywhere_pattern(word.as_str());
        if limit > 0 && is_too_complex(word.as_str()) {
            let own_link = |l: &LinkRow| -> (b: bool)
                ensures
                    b == link_in(tenant@)(l@),
            {
                same(l.tenant.as_str(), tenant)
            };
            let own_grant = |g: &GrantRow| -> (b: bool)
                ensures
                    b == grant_in(tenant@)(g@),
            {
                same(g.tenant.as_str(), tenant)
            };
            if exists_where(&self.links, own_link, Ghost(link_in(tenant@))) || exists_where(
                &self.grants,
                own_grant,
                Ghost(grant_in(tenant@)),
            ) {
                return Err(complexity_error());
            }
        }
        let files = match self.search_files(tenant, &pattern, limit) {
            Ok(files) => files,
            Err(error) => {
                return Err(error);
            },
        };
        let request = |l: &LinkRow| -> (b: bool)
            ensures
                b == request_found(tenant@, pattern@)(l@),
        {
            same(l.tenant.as_str(), tenant) && (is_like(&folded(l.label.as_str()), &pattern)
                || is_like(&folded(l.dest.as_str()), &pattern) || is_like(
                &chars(l.id.as_str()),
                &pattern,
            ))
        };
        let newer_l = |a: &LinkRow, b: &LinkRow| -> (r: bool)
            ensures
                r == newer_request()(a@, b@),
        {
            a.created_at > b.created_at
        };
        let show_l = |l: &LinkRow| -> (r: SearchRequest)
            ensures
                r@ == request_shown()(l@),
        {
            SearchRequest {
                id: l.id.clone(),
                label: l.label.clone(),
                dest: l.dest.clone(),
                active: l.active,
                expires_at: from_optional_column(l.expires_at),
                created_at: from_column(l.created_at),
            }
        };
        let download = |g: &GrantRow| -> (b: bool)
            ensures
                b == download_found(tenant@, pattern@)(g@),
        {
            same(g.tenant.as_str(), tenant) && (is_like(&folded(g.label.as_str()), &pattern)
                || is_like(&folded(g.name.as_str()), &pattern))
        };
        let newer_g = |a: &GrantRow, b: &GrantRow| -> (r: bool)
            ensures
                r == newer_download()(a@, b@),
        {
            a.created_at > b.created_at
        };
        let show_g = |g: &GrantRow| -> (r: SearchDownload)
            ensures
                r@ == download_shown()(g@),
        {
            SearchDownload {
                id: g.id.clone(),
                label: g.label.clone(),
                name: g.name.clone(),
                created_at: from_column(g.created_at),
                revoked: g.revoked_at.is_some(),
            }
        };
        let links = select(&self.links, request, Ghost(request_found(tenant@, pattern@)));
        let links = sort_rows(links, newer_l, Ghost(newer_request()));
        let links = top(&links, limit);
        let grants = select(&self.grants, download, Ghost(download_found(tenant@, pattern@)));
        let grants = sort_rows(grants, newer_g, Ghost(newer_download()));
        let grants = top(&grants, limit);
        Ok(
            SearchResults {
                requests: project(&links, show_l, Ghost(request_shown())),
                downloads: project(&grants, show_g, Ghost(download_shown())),
                files,
            },
        )
    }

    /// A record with its upload and its link, if a pattern finds it.
    fn file_in_context(&self, f: &FileRow, tenant: &str, pattern: &Vec<char>) -> (r: Option<
        (FileRow, UploadRow, LinkRow),
    >)
        ensures
            match r {
                Some(x) => file_found(self@, tenant@, pattern@)(f@) && x.deep_view() == in_context(
                    self@,
                    tenant@,
                )(f@),
                None => !file_found(self@, tenant@, pattern@)(f@),
            },
    {
        if f.deleted || !is_like(&folded(f.path.as_str()), pattern) {
            return None;
        }
        let link_id = f.link_id.as_str();
        let upload_id = f.upload_id.as_str();
        let upload = |u: &UploadRow| -> (b: bool)
            ensures
                b == upload_at(link_id@, upload_id@)(u@),
        {
            same(u.link_id.as_str(), link_id) && same(u.upload_id.as_str(), upload_id)
        };
        let link = |l: &LinkRow| -> (b: bool)
            ensures
                b == link_is(tenant@, link_id@)(l@),
        {
            same(l.tenant.as_str(), tenant) && same(l.id.as_str(), link_id)
        };
        match (
            find(&self.uploads, upload, Ghost(upload_at(link_id@, upload_id@))),
            find(&self.links, link, Ghost(link_is(tenant@, link_id@))),
        ) {
            (Some(u), Some(l)) => Some((f.dup(), self.uploads[u].dup(), self.links[l].dup())),
            _ => None,
        }
    }

    fn search_files(&self, tenant: &str, pattern: &Vec<char>, limit: u64) -> (r: Result<
        Vec<SearchFile>,
        String,
    >)
        ensures
            outcome(r) == files_found(self@, tenant@, pattern@, row_limit(limit)),
    {
        let ghost all = self@.files;
        let ghost p = file_found(self@, tenant@, pattern@);
        let ghost c = in_context(self@, tenant@);
        let mut rows: Vec<(FileRow, UploadRow, LinkRow)> = Vec::new();
        let mut i: usize = 0;
        proof {
            reveal(Seq::filter);
            assert(all.take(0) =~= Seq::<FileRowView>::empty());
            assert(rows.deep_view() =~= all.take(0).filter(p).map_values(c));
        }
        while i < self.files.len()
            invariant
                i <= self.files.len(),
                all == self@.files,
                p == file_found(self@, tenant@, pattern@),
                c == in_context(self@, tenant@),
                rows.deep_view() == all.take(i as int).filter(p).map_values(c),
            decreases self.files.len() - i,
        {
            proof {
                crate::table::lemma_filter_take(all, i as int, p);
            }
            let ghost so_far = all.take(i as int).filter(p);
            if let Some(row) = self.file_in_context(&self.files[i], tenant, pattern) {
                append_row(&mut rows, row);
                assert(rows.deep_view() =~= so_far.push(all[i as int]).map_values(c));
            }
            i += 1;
        }
        assert(all.take(i as int) =~= all);
        let broken = |x: &(FileRow, UploadRow, LinkRow)| -> (b: bool)
            ensures
                b == headless()(x.deep_view()),
        {
            x.1.header_error.is_some() && x.1.members.is_none()
        };
        if limit > 0 && find(&rows, broken, Ghost(headless())).is_some() {
            return Err("malformed JSON".to_owned());
        }
        let later = |a: &(FileRow, UploadRow, LinkRow), b: &(FileRow, UploadRow, LinkRow)| -> (r: bool)
            ensures
                r == later_upload()(a.deep_view(), b.deep_view()),
        {
            is_later(&a.1, &b.1)
        };
        let show = |x: &(FileRow, UploadRow, LinkRow)| -> (r: Result<SearchFile, String>)
            ensures
                outcome(r) == file_shown()(x.deep_view()),
        {
            show_file(x)
        };
        let rows = sort_rows(rows, later, Ghost(later_upload()));
        let rows = top(&rows, limit);
        try_project(&rows, show, Ghost(file_shown()))
    }

    /// Number and bytes of a tenant's full uploads completed since a time.
    pub fn uploads_since(&self, tenant: &str, since: u64) -> (r: Result<(u64, u64), String>)
        ensures
            outcome(r) == uploads_counted(self@, tenant@, since),
    {
        let at: i64 = to_column(since);
        let links = &self.links;
        let theirs = |u: &UploadRow| -> (b: bool)
            ensures
                b == upload_of_tenant(links.deep_view(), tenant@)(u@),
        {
            self.has_link(tenant, u.link_id.as_str())
        };
        let rows = select(
            &self.uploads,
            theirs,
            Ghost(upload_of_tenant(links.deep_view(), tenant@)),
        );
        let ghost all = rows.deep_view();
        let mut number: u64 = 0;
        let mut total: u64 = 0;
        let mut i: usize = 0;
        let ghost mut bytes: int = 0;
        assert(all.take(0) =~= Seq::<UploadRowView>::empty());
        while i < rows.len()
            invariant
                i <= rows.len(),
                all == rows.deep_view(),
                all == self@.uploads.filter(upload_of_tenant(self@.links, tenant@)),
                at == column(since),
                number <= i,
                bytes >= 0,
                total == capped(bytes),
                tallied(all.take(i as int), at) == Ok::<(nat, int), Seq<char>>(
                    (number as nat, bytes),
                ),
            ensures
                i == rows.len(),
            decreases rows.len() - i,
        {
            proof {
                assert(all.take(i + 1).drop_last() =~= all.take(i as int));
                assert(all.take(i + 1).last() == rows@[i as int]@);
                if tallied(all.take(i + 1), at) is Err {
                    lemma_tally_refused(all, at, i + 1);
                }
            }
            let u = &rows[i];
            if u.header_error.is_some() && u.members.is_none() {
                return Err("malformed JSON".to_owned());
            }
            if is_completed_since(u, at) {
                match told_bytes(u) {
                    Err(error) => {
                        return Err(error);
                    },
                    Ok(more) => {
                        number = number + 1;
                        total = total.saturating_add(more);
                        proof {
                            bytes = bytes + more;
                        }
                    },
                }
            }
            i += 1;
        }
        assert(all.take(i as int) =~= all);
        Ok((number, total))
    }
}

proof fn lemma_tally_refused(s: Seq<UploadRowView>, since: i64, n: int)
    requires
        0 <= n <= s.len(),
        tallied(s.take(n), since) is Err,
    ensures
        tallied(s, since) == tallied(s.take(n), since),
    decreases s.len() - n,
{
    if n < s.len() {
        assert(s.take(n + 1).drop_last() =~= s.take(n));
        lemma_tally_refused(s, since, n + 1);
    } else {
        assert(s.take(n) =~= s);
    }
}

fn order_of(n: u64) -> (r: i128)
    requires
        n > i64::MAX,
    ensures
        r == real_order(n),
{
    let over: u64 = n - 0x8000_0000_0000_0000;
    let down: u64 = over / 2048;
    let rest: u64 = over % 2048;
    let even: u64 = if rest > 1024 || (rest == 1024 && down % 2 == 1) {
        down + 1
    } else {
        down
    };
    0x43e0_0000_0000_0000 + even as i128
}

/// When an upload was completed: where a number tells it, its place and whether it is an
/// integer of a column, and where words do, those.
fn completed_when(u: &UploadRow) -> (r: (Option<((i128, i128, i128), bool)>, Option<&str>))
    ensures
        match completion(u@) {
            Completion::Untold => r.0 is None && r.1 is None,
            Completion::At(n) => told_at(r.0, completion(u@), true) && r.1 is None && i64::MIN <= n
                <= i64::MAX,
            Completion::Real(_, _, _) => told_at(r.0, completion(u@), false) && r.1 is None,
            Completion::Text(t) => r.0 is None && r.1 is Some && r.1->0@ == t,
        },
{
    if u.header_error.is_none() {
        let at: u64 = u.header.completed_at;
        return if at <= i64::MAX as u64 {
            (Some(((at as i128, 0, 0), true)), None)
        } else {
            (Some(((i64::MAX as i128, 1, order_of(at)), false)), None)
        };
    }
    match &u.members {
        None => (None, None),
        Some(m) => {
            assert(u@.members == Some(m@));
            if let Some(n) = m.completed_at {
                (Some(((n as i128, 0, 0), true)), None)
            } else if let Some(n) = m.completed_part {
                (
                    Some(
                        (
                            (n as i128, m.completed_rest as i128, m.completed_order as i128),
                            false,
                        ),
                    ),
                    None,
                )
            } else {
                match &m.completed_text {
                    Some(text) => (None, Some(text.as_str())),
                    None => (None, None),
                }
            }
        },
    }
}

/// Whether the place of a completion is told, and whether it is an integer's.
spec fn told_at(told: Option<((i128, i128, i128), bool)>, c: Completion, whole: bool) -> bool {
    match told {
        Some(((n, rest, order), kind)) => kind == whole && place(c) == (
            n as int,
            rest as int,
            order as int,
        ),
        None => false,
    }
}

fn is_later(a: &UploadRow, b: &UploadRow) -> (r: bool)
    ensures
        r == comes_after(completion(a@), completion(b@)),
{
    match (completed_when(a), completed_when(b)) {
        ((Some((x, _)), _), (Some((y, _)), _)) => {
            x.0 > y.0 || (x.0 == y.0 && (x.1 > y.1 || (x.1 == y.1 && x.2 > y.2)))
        },
        ((Some(_), _), (None, words)) => words.is_none(),
        ((None, Some(_)), (Some(_), _)) => true,
        ((None, Some(s)), (None, Some(t))) => lt(t, s),
        ((None, Some(_)), (None, None)) => true,
        ((None, None), _) => false,
    }
}

fn is_completed_since(u: &UploadRow, since: i64) -> (r: bool)
    ensures
        r == completed_since(u@, since),
{
    let partial = match &u.members {
        Some(m) => {
            assert(u@.members == Some(m@));
            if u.header_error.is_some() {
                m.partial
            } else {
                u.header.partial
            }
        },
        None => u.header.partial,
    };
    match completed_when(u) {
        (Some(n), _) => {
            let at = n.0;
            (at.0 > since as i128 || (at.0 == since as i128 && at.1 >= 0)) && !partial
        },
        (None, words) => words.is_some() && !partial,
    }
}

fn told_bytes(u: &UploadRow) -> (r: Result<u64, String>)
    ensures
        outcome(r) == bytes_told(u@),
{
    if u.header_error.is_none() {
        return Ok(u.header.total_bytes);
    }
    match &u.members {
        None => Ok(u.header.total_bytes),
        Some(m) => {
            assert(u@.members == Some(m@));
            match &m.total_error {
                Some(error) => Err(error.clone()),
                None => match m.total_bytes {
                    Some(n) => Ok(n),
                    None => Ok(0),
                },
            }
        },
    }
}

fn no_time(found: &str) -> (e: String)
    ensures
        e@ == not_a_time(found@),
{
    "Invalid column type ".to_owned().concat(found).concat(
        " at index: 6, name: json_extract(upload.document, '$.completed_at')",
    )
}

fn show_file(x: &(FileRow, UploadRow, LinkRow)) -> (r: Result<SearchFile, String>)
    ensures
        outcome(r) == file_shown()(x.deep_view()),
{
    let f = &x.0;
    if f.bytes_hi < 0 || f.bytes_hi >= LIMB as i64 {
        return Err(crate::uploads::limb_error(f.bytes_hi, "4"));
    }
    if f.bytes_lo < 0 || f.bytes_lo >= LIMB as i64 {
        return Err(crate::uploads::limb_error(f.bytes_lo, "5"));
    }
    let at: i64 = match completed_when(&x.1) {
        (Some((at, whole)), _) => if whole {
            at.0 as i64
        } else {
            return Err(no_time("Real"));
        },
        (None, Some(_)) => return Err(no_time("Text")),
        (None, None) => return Err(no_time("Null")),
    };
    Ok(
        SearchFile {
            link_id: x.2.id.clone(),
            link_label: x.2.label.clone(),
            upload_id: x.1.upload_id.clone(),
            path: f.path.clone(),
            bytes: file_bytes(f),
            completed_at: from_column(at),
        },
    )
}

} // verus!
