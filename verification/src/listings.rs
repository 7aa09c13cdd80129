//! Pages of links and searches show what was asked for, and all of it.
use vstd::prelude::*;

use crate::columns::{column, optional};
use crate::like::{escaped, like, read_text, search_is_literal};
use crate::links::{
    by_id, by_path, candidate, endpoint_is, inbound_to, link_after, links_listed, listed_link,
    newer_link, one_more, page_shown, path_and_receipt, policy_of, tenant_and_id,
};
use crate::records::{
    LinkCursorView, LinkView, ObjectIdView, SearchDownloadView, SearchFileView, SearchRequestView,
};
use crate::rows::{
    FileRowView, GrantRowView, InboundRouteRowView, LinkRowView, TradeEndpointRowView,
    UploadRowView,
};
use crate::search::{
    download_found, download_shown, file_found, file_shown, files_found, found, in_context,
    later_upload, needle, newer_download, newer_request, request_found, request_shown, tallied,
    upload_of_tenant, uploads_counted,
};
use crate::selection::{
    lemma_found, lemma_listed, lemma_ordered, lemma_paged, lemma_read, lemma_selected,
};
use crate::store::StoreView;
use crate::table::{first, page, sorted_by, try_map};
use crate::text::{ascii_fold, contains, lowercase, text_lt};
use crate::uploads::{link_is, upload_at, upload_of_link};

verus! {

/// Whether a text holds a word, in either case of ASCII letters, both as they are read.
pub open spec fn holds(text: Seq<char>, word: Seq<char>) -> bool {
    contains(ascii_fold(read_text(ascii_fold(text))), ascii_fold(read_text(word)))
}

/// Whether a link takes uploads at a time: it is active and has not expired.
pub open spec fn takes_uploads(l: LinkRowView, now: i64) -> bool {
    l.active && (l.expires_at is None || now < l.expires_at->0)
}

/// Whether a link is one of those that a page was asked for.
pub open spec fn asked_for(
    s: StoreView,
    tenant: Seq<char>,
    cursor: Option<LinkCursorView>,
    word: Seq<char>,
    status: Seq<char>,
    now: i64,
    routable: bool,
    l: LinkRowView,
) -> bool {
    &&& l.tenant == tenant
    &&& status != "all"@ ==> (if takes_uploads(l, now) {
        status == "open"@
    } else {
        status == "closed"@
    })
    &&& word.len() > 0 ==> holds(l.label, word) || holds(l.dest, word) || l.id == escaped(word)
    &&& cursor matches Some(c) ==> l.created_at < column(c.created_at) || (l.created_at == column(
        c.created_at,
    ) && text_lt(l.id, c.id))
    &&& routable ==> {
        &&& takes_uploads(l, now) && l.password_hash is None
        &&& forall|u: UploadRowView| #[trigger] s.uploads.contains(u) ==> u.link_id != l.id
        &&& forall|e: TradeEndpointRowView| #[trigger]
            s.trade_endpoints.contains(e) ==> e.id != l.id
        &&& forall|r: InboundRouteRowView| #[trigger]
            s.inbound_routes.contains(r) ==> r.link_id != l.id
    }
}

proof fn lemma_escaped_length(s: Seq<char>)
    ensures
        escaped(s).len() >= s.len(),
        s.len() == 0 ==> escaped(s).len() == 0,
    decreases s.len(),
{
    if s.len() > 0 {
        lemma_escaped_length(s.drop_last());
    }
}

proof fn lemma_asked_for(
    s: StoreView,
    tenant: Seq<char>,
    cursor: Option<LinkCursorView>,
    word: Seq<char>,
    status: Seq<char>,
    now: i64,
    routable: bool,
    l: LinkRowView,
)
    requires
        forall|i: int| 0 <= i < word.len() ==> #[trigger] word[i] != '\0',
    ensures
        listed_link(s, tenant, cursor, escaped(word), status, now, routable)(l) == asked_for(
            s,
            tenant,
            cursor,
            word,
            status,
            now,
            routable,
            l,
        ),
{
    lemma_escaped_length(word);
    search_is_literal(ascii_fold(l.label), word);
    search_is_literal(ascii_fold(l.dest), word);
    lemma_found(s.uploads, upload_of_link(l.id));
    lemma_found(s.trade_endpoints, endpoint_is(l.id));
    lemma_found(s.inbound_routes, inbound_to(l.id));
    reveal_strlit("all");
    reveal_strlit("open");
    reveal_strlit("closed");
    assert("open"@ != "closed"@) by {
        assert("open"@.len() == 4 && "closed"@.len() == 6);
    }
}

/// A page of a tenant's links shows only links that were asked for: of the tenant, behind
/// the cursor, with the word in their label or destination or as their id, taking uploads
/// at the time where open ones were asked for and not where closed ones were, and free for
/// a route where that was asked for. Each is shown as it is recorded, newer ones first. A
/// page that says that nothing follows it shows every such link.
pub proof fn pages_show_the_links_asked_for(
    s: StoreView,
    tenant: Seq<char>,
    cursor: Option<LinkCursorView>,
    word: Seq<char>,
    status: Seq<char>,
    now: u64,
    routable: bool,
    limit: u64,
)
    requires
        forall|i: int| 0 <= i < word.len() ==> #[trigger] word[i] != '\0',
        1 <= limit < i64::MAX,
        limit < usize::MAX,
    ensures
        page_shown(s, tenant, cursor, escaped(word), status, column(now), routable, limit)
            matches Ok(shown) ==> {
            &&& shown.links.len() <= limit
            &&& forall|l: LinkView| #[trigger]
                shown.links.contains(l) ==> exists|r: LinkRowView| #[trigger]
                    s.links.contains(r) && asked_for(
                        s,
                        tenant,
                        cursor,
                        word,
                        status,
                        column(now),
                        routable,
                        r,
                    ) && shown_as(r, l)
            &&& forall|l: LinkView| #[trigger]
                shown.links.contains(l) && status == "open"@ ==> l.active && (l.expires_at is Some
                    ==> now < l.expires_at->0)
            &&& forall|i: int|
                0 <= i < shown.links.len() - 1 ==> (#[trigger] shown.links[i]).created_at
                    >= shown.links[i + 1].created_at
            &&& shown.next_cursor is None ==> forall|r: LinkRowView| #[trigger]
                s.links.contains(r) && asked_for(
                    s,
                    tenant,
                    cursor,
                    word,
                    status,
                    column(now),
                    routable,
                    r,
                ) ==> exists|l: LinkView| #[trigger] shown.links.contains(l) && shown_as(r, l)
        },
{
    let at = column(now);
    let own = listed_link(s, tenant, cursor, escaped(word), status, at, routable);
    let all = links_listed(s, tenant, cursor, escaped(word), status, at, routable);
    let rows = page(all, 0, one_more(limit));
    lemma_listed(s.links, own, newer_link(), 0, one_more(limit), policy_of());
    lemma_paged(all, 0, one_more(limit));
    assert forall|a: LinkRowView, b: LinkRowView| #[trigger] newer_link()(a, b) implies !newer_link()(
        b,
        a,
    ) by {
        crate::text::text_order_is_total(a.id, b.id);
    }
    crate::table::lemma_sorted_ordered(s.links.filter(own), newer_link());
    if let Ok(shown) = page_shown(s, tenant, cursor, escaped(word), status, at, routable, limit) {
        let items = try_map(rows, policy_of())->Ok_0;
        assert forall|l: LinkView| #[trigger] shown.links.contains(l) implies items.contains(l) by {
            let i = choose|i: int| 0 <= i < shown.links.len() && shown.links[i] == l;
            assert(items[i] == l);
        }
        assert forall|l: LinkView| #[trigger] shown.links.contains(l) implies exists|r: LinkRowView|
         #[trigger]
            s.links.contains(r) && asked_for(s, tenant, cursor, word, status, at, routable, r)
                && shown_as(r, l) by {
            let r = choose|r: LinkRowView| #[trigger]
                s.links.contains(r) && own(r) && policy_of()(r) == Ok::<LinkView, Seq<char>>(l);
            lemma_asked_for(s, tenant, cursor, word, status, at, routable, r);
        }
        assert forall|l: LinkView| #[trigger]
            shown.links.contains(l) && status == "open"@ implies l.active && (l.expires_at is Some
            ==> now < l.expires_at->0) by {
            let r = choose|r: LinkRowView| #[trigger]
                s.links.contains(r) && asked_for(s, tenant, cursor, word, status, at, routable, r)
                    && shown_as(r, l);
            reveal_strlit("all");
            reveal_strlit("open");
            reveal_strlit("closed");
            assert("open"@.len() == 4 && "closed"@.len() == 6 && "all"@.len() == 3);
        }
        assert forall|i: int| 0 <= i < shown.links.len() - 1 implies (
        #[trigger] shown.links[i]).created_at >= shown.links[i + 1].created_at by {
            assert(shown.links[i] == items[i] && shown.links[i + 1] == items[i + 1]);
            assert(all[0 + i] == all[i] && all[0 + (i + 1)] == all[i + 1]);
            assert(!newer_link()(all[i + 1], all[i]));
        }
        if shown.next_cursor is None {
            assert(items.len() <= limit);
            assert(all.len() <= one_more(limit));
            assert forall|r: LinkRowView| #[trigger]
                s.links.contains(r) && asked_for(
                    s,
                    tenant,
                    cursor,
                    word,
                    status,
                    at,
                    routable,
                    r,
                ) implies exists|l: LinkView| #[trigger] shown.links.contains(l) && shown_as(r, l) by {
                lemma_asked_for(s, tenant, cursor, word, status, at, routable, r);
                assert(items.contains(policy_of()(r)->Ok_0));
                assert(shown.links == items);
                assert(shown.links.contains(policy_of()(r)->Ok_0));
            }
        }
    }
}

/// Whether a link is what a row records of it, without its history.
pub open spec fn shown_as(r: LinkRowView, l: LinkView) -> bool {
    &&& l.id == r.id && l.tenant == r.tenant && l.label == r.label && l.dest == r.dest
    &&& l.password_hash == r.password_hash && l.notifications == r.notifications
    &&& l.active == r.active && l.legal_hold == r.legal_hold && l.events == r.events
    &&& l.uploads.len() == 0
    &&& r.created_at >= 0 ==> l.created_at == r.created_at
    &&& r.created_at < 0 ==> l.created_at == 0
    &&& l.expires_at is Some <==> r.expires_at is Some && r.expires_at->0 >= 0
    &&& l.expires_at is Some ==> l.expires_at->0 == r.expires_at->0
    &&& l.max_bytes is Some <==> r.max_bytes is Some && r.max_bytes->0 >= 0
    &&& l.max_bytes is Some ==> l.max_bytes->0 == r.max_bytes->0
}

/// No link that takes uploads at a time is on a page of closed ones.
pub proof fn closed_pages_show_no_open_link(
    s: StoreView,
    tenant: Seq<char>,
    cursor: Option<LinkCursorView>,
    word: Seq<char>,
    now: u64,
    routable: bool,
    limit: u64,
)
    requires
        forall|i: int| 0 <= i < word.len() ==> #[trigger] word[i] != '\0',
        1 <= limit < i64::MAX,
        limit < usize::MAX,
        now <= i64::MAX,
        forall|r: LinkRowView| #[trigger]
            s.links.contains(r) ==> r.expires_at is None || r.expires_at->0 >= 0,
    ensures
        page_shown(s, tenant, cursor, escaped(word), "closed"@, column(now), routable, limit)
            matches Ok(shown) ==> forall|l: LinkView| #[trigger]
            shown.links.contains(l) ==> !(l.active && (l.expires_at is None || now
                < l.expires_at->0)),
{
    pages_show_the_links_asked_for(s, tenant, cursor, word, "closed"@, now, routable, limit);
    reveal_strlit("all");
    reveal_strlit("open");
    reveal_strlit("closed");
    assert("open"@.len() == 4 && "closed"@.len() == 6 && "all"@.len() == 3);
}

// -------------------------------------------------------------------- search
proof fn lemma_sought(text: Seq<char>, query: Seq<char>)
    requires
        forall|i: int| 0 <= i < lowercase(query).len() ==> #[trigger] lowercase(query)[i] != '\0',
    ensures
        like(text, needle(query)) == contains(
            ascii_fold(read_text(text)),
            ascii_fold(read_text(lowercase(query))),
        ),
{
    search_is_literal(text, lowercase(query));
}

/// Whether a record is of a live file of a tenant's link whose path holds a word.
pub open spec fn file_sought(s: StoreView, tenant: Seq<char>, word: Seq<char>, f: FileRowView) -> bool {
    &&& !f.deleted
    &&& holds(f.path, word)
    &&& exists|u: UploadRowView| #[trigger]
        s.uploads.contains(u) && u.link_id == f.link_id && u.upload_id == f.upload_id
    &&& exists|l: LinkRowView| #[trigger]
        s.links.contains(l) && l.tenant == tenant && l.id == f.link_id
}

/// Whether a link shown is one of the tenant that holds the word, as it is recorded.
pub open spec fn request_told(
    s: StoreView,
    tenant: Seq<char>,
    word: Seq<char>,
    x: SearchRequestView,
) -> bool {
    exists|l: LinkRowView| #[trigger]
        s.links.contains(l) && l.tenant == tenant && link_sought(l, word) && x.id == l.id && x.label
            == l.label && x.dest == l.dest && x.active == l.active && x.expires_at == optional(
            l.expires_at,
        )
}

/// Whether a download shown is one of the tenant that holds the word, as it is recorded.
pub open spec fn download_told(
    s: StoreView,
    tenant: Seq<char>,
    word: Seq<char>,
    x: SearchDownloadView,
) -> bool {
    exists|g: GrantRowView| #[trigger]
        s.grants.contains(g) && g.tenant == tenant && (holds(g.label, word) || holds(g.name, word))
            && x.id == g.id && x.label == g.label && x.name == g.name && (x.revoked
            <==> g.revoked_at is Some)
}

/// Whether a file shown is one of the tenant that holds the word, as it is recorded.
pub open spec fn file_told(
    s: StoreView,
    tenant: Seq<char>,
    word: Seq<char>,
    x: SearchFileView,
) -> bool {
    exists|f: FileRowView| #[trigger]
        s.files.contains(f) && file_sought(s, tenant, word, f) && x.path == f.path && x.link_id
            == f.link_id && x.upload_id == f.upload_id && x.bytes == f.bytes_hi * 0x1_0000_0000
            + f.bytes_lo
}

/// A search finds links, downloads and received files of the tenant alone that hold the
/// word: links in label, destination or id, downloads in label or name, files that are not
/// deleted in their path. Where the limit leaves room it finds all of them.
pub proof fn searches_find_what_holds_the_word(
    s: StoreView,
    tenant: Seq<char>,
    query: Seq<char>,
    limit: u64,
)
    requires
        forall|i: int| 0 <= i < lowercase(query).len() ==> #[trigger] lowercase(query)[i] != '\0',
        limit <= i64::MAX,
    ensures
        found(s, tenant, query, limit) matches Ok(r) ==> {
            let word = lowercase(query);
            &&& forall|i: int|
                0 <= i < r.requests.len() ==> request_told(s, tenant, word, #[trigger] r.requests[i])
            &&& forall|i: int|
                0 <= i < r.downloads.len() ==> download_told(s, tenant, word, #[trigger] r.downloads[i])
            &&& forall|i: int|
                0 <= i < r.files.len() ==> file_told(s, tenant, word, #[trigger] r.files[i])
            &&& r.requests.len() < limit ==> forall|l: LinkRowView| #[trigger]
                s.links.contains(l) && l.tenant == tenant && link_sought(l, word) ==> exists|i: int|
                    0 <= i < r.requests.len() && (#[trigger] r.requests[i]).id == l.id
            &&& r.downloads.len() < limit ==> forall|g: GrantRowView| #[trigger]
                s.grants.contains(g) && g.tenant == tenant && (holds(g.label, word) || holds(
                    g.name,
                    word,
                )) ==> exists|i: int|
                    0 <= i < r.downloads.len() && (#[trigger] r.downloads[i]).id == g.id
            &&& r.files.len() < limit ==> forall|f: FileRowView| #[trigger]
                s.files.contains(f) && file_sought(s, tenant, word, f) ==> exists|i: int|
                    0 <= i < r.files.len() && (#[trigger] r.files[i]).path == f.path
                        && r.files[i].link_id == f.link_id && r.files[i].upload_id == f.upload_id
        },
{
    if let Ok(r) = found(s, tenant, query, limit) {
        let word = lowercase(query);
        let pattern = needle(query);
        let n = limit as int;
        // links
        let lp = request_found(tenant, pattern);
        let ls = sorted_by(s.links.filter(lp), newer_request());
        lemma_selected(s.links, lp);
        lemma_ordered(s.links.filter(lp), newer_request());
        lemma_paged(ls, 0, n);
        assert forall|l: LinkRowView| #[trigger] lp(l) <==> l.tenant == tenant && link_sought(
            l,
            word,
        ) by {
            lemma_sought(ascii_fold(l.label), query);
            lemma_sought(ascii_fold(l.dest), query);
            lemma_sought(l.id, query);
        }
        assert forall|i: int| 0 <= i < r.requests.len() implies request_told(s, tenant, word, #[trigger] r.requests[i]) by {
            let l = page(ls, 0, n)[i];
            assert(r.requests[i] == request_shown()(l));
            assert(page(ls, 0, n).contains(l));
            assert(ls.contains(l));
            assert(s.links.filter(lp).contains(l));
            assert(lp(l));
        }
        if r.requests.len() < limit {
            assert forall|l: LinkRowView| #[trigger]
                s.links.contains(l) && l.tenant == tenant && link_sought(
                    l,
                    word,
                ) implies exists|i: int|
                0 <= i < r.requests.len() && (#[trigger] r.requests[i]).id == l.id by {
                assert(lp(l));
                assert(s.links.filter(lp).contains(l));
                assert(ls.contains(l));
                let i = choose|i: int| 0 <= i < ls.len() && ls[i] == l;
                assert(page(ls, 0, n)[i] == ls[0 + i]);
                assert(r.requests[i].id == l.id);
            }
        }
        // grants
        let gp = download_found(tenant, pattern);
        let gs = sorted_by(s.grants.filter(gp), newer_download());
        lemma_selected(s.grants, gp);
        lemma_ordered(s.grants.filter(gp), newer_download());
        lemma_paged(gs, 0, n);
        assert forall|g: GrantRowView| #[trigger] gp(g) <==> g.tenant == tenant && (holds(
            g.label,
            word,
        ) || holds(g.name, word)) by {
            lemma_sought(ascii_fold(g.label), query);
            lemma_sought(ascii_fold(g.name), query);
        }
        assert forall|i: int| 0 <= i < r.downloads.len() implies download_told(s, tenant, word, #[trigger] r.downloads[i]) by {
            let g = page(gs, 0, n)[i];
            assert(r.downloads[i] == download_shown()(g));
            assert(page(gs, 0, n).contains(g));
            assert(gs.contains(g));
            assert(s.grants.filter(gp).contains(g));
            assert(gp(g));
        }
        if r.downloads.len() < limit {
            assert forall|g: GrantRowView| #[trigger]
                s.grants.contains(g) && g.tenant == tenant && (holds(g.label, word) || holds(
                    g.name,
                    word,
                )) implies exists|i: int|
                0 <= i < r.downloads.len() && (#[trigger] r.downloads[i]).id == g.id by {
                assert(gp(g));
                assert(s.grants.filter(gp).contains(g));
                assert(gs.contains(g));
                let i = choose|i: int| 0 <= i < gs.len() && gs[i] == g;
                assert(page(gs, 0, n)[i] == gs[0 + i]);
                assert(r.downloads[i].id == g.id);
            }
        }
        lemma_files_sought(s, tenant, query, n);
        assert(r.files == files_found(s, tenant, pattern, n)->Ok_0);
    }
}

/// Whether a link holds a word in its label, destination or id.
pub open spec fn link_sought(l: LinkRowView, word: Seq<char>) -> bool {
    holds(l.label, word) || holds(l.dest, word) || contains(
        ascii_fold(read_text(l.id)),
        ascii_fold(read_text(word)),
    )
}

proof fn lemma_files_sought(s: StoreView, tenant: Seq<char>, query: Seq<char>, limit: int)
    requires
        forall|i: int| 0 <= i < lowercase(query).len() ==> #[trigger] lowercase(query)[i] != '\0',
        0 <= limit,
    ensures
        files_found(s, tenant, needle(query), limit) matches Ok(files) ==> {
            let word = lowercase(query);
            &&& forall|i: int|
                0 <= i < files.len() ==> file_told(s, tenant, word, #[trigger] files[i])
            &&& files.len() < limit ==> forall|f: FileRowView| #[trigger]
                s.files.contains(f) && file_sought(s, tenant, word, f) ==> exists|i: int|
                    0 <= i < files.len() && (#[trigger] files[i]).path == f.path
                        && files[i].link_id == f.link_id && files[i].upload_id == f.upload_id
        },
{
    if let Ok(files) = files_found(s, tenant, needle(query), limit) {
        let word = lowercase(query);
        let p = file_found(s, tenant, needle(query));
        let chosen = s.files.filter(p);
        let rows = chosen.map_values(in_context(s, tenant));
        let all = sorted_by(rows, later_upload());
        let shown = page(all, 0, limit);
        lemma_selected(s.files, p);
        lemma_ordered(rows, later_upload());
        lemma_paged(all, 0, limit);
        lemma_read(shown, file_shown());
        assert forall|f: FileRowView| #[trigger] p(f) <==> file_sought(s, tenant, word, f) by {
            lemma_sought(ascii_fold(f.path), query);
            lemma_found(s.uploads, upload_at(f.link_id, f.upload_id));
            lemma_found(s.links, link_is(tenant, f.link_id));
        }
        assert forall|i: int| 0 <= i < files.len() implies file_told(s, tenant, word, #[trigger] files[i]) by {
            let x = shown[i];
            assert(file_shown()(x) == Ok::<SearchFileView, Seq<char>>(files[i]));
            assert(shown.contains(x));
            assert(all.contains(x));
            assert(rows.contains(x));
            let k = choose|k: int| 0 <= k < rows.len() && rows[k] == x;
            let f = chosen[k];
            assert(chosen.contains(f));
            assert(p(f));
            assert(x == in_context(s, tenant)(f));
            lemma_found(s.uploads, upload_at(f.link_id, f.upload_id));
            lemma_found(s.links, link_is(tenant, f.link_id));
        }
        if files.len() < limit {
            assert forall|f: FileRowView| #[trigger]
                s.files.contains(f) && file_sought(s, tenant, word, f) implies exists|i: int|
                0 <= i < files.len() && (#[trigger] files[i]).path == f.path && files[i].link_id
                    == f.link_id && files[i].upload_id == f.upload_id by {
                assert(p(f));
                assert(chosen.contains(f));
                let k = choose|k: int| 0 <= k < chosen.len() && chosen[k] == f;
                assert(rows[k] == in_context(s, tenant)(f));
                assert(rows.contains(rows[k]));
                assert(all.contains(rows[k]));
                let i = choose|i: int| 0 <= i < all.len() && all[i] == rows[k];
                assert(shown[i] == all[0 + i]);
                lemma_found(s.uploads, upload_at(f.link_id, f.upload_id));
                lemma_found(s.links, link_is(tenant, f.link_id));
                assert(file_shown()(shown[i]) == Ok::<SearchFileView, Seq<char>>(files[i]));
                assert(files[i].path == f.path);
            }
        }
    }
}

// ------------------------------------------------------------ uploads counted
/// Whether a header is one of a full upload that was completed at a time or later.
pub open spec fn full_since(u: UploadRowView, since: u64) -> bool {
    !u.header.partial && since <= u.header.completed_at
}

/// One more upload of a tenant counts exactly if it is full and was completed at the time
/// or later, with its bytes; an upload of another tenant's link does not count.
pub proof fn full_uploads_since_a_time_are_counted(
    uploads: Seq<UploadRowView>,
    u: UploadRowView,
    since: u64,
)
    requires
        u.header_error is None,
        since <= i64::MAX,
        tallied(uploads, column(since)) is Ok,
    ensures
        tallied(uploads.push(u), column(since)) matches Ok((n, bytes)) && {
            let before = tallied(uploads, column(since))->Ok_0;
            &&& full_since(u, since) ==> n == before.0 + 1 && bytes == before.1
                + u.header.total_bytes
            &&& !full_since(u, since) ==> (n, bytes) == before
        },
        tallied(Seq::empty(), column(since)) == Ok::<(nat, int), Seq<char>>((0, 0)),
{
    assert(uploads.push(u).drop_last() =~= uploads);
}

/// What is counted of a tenant's uploads is what its links' uploads are counted as, the
/// bytes up to the greatest number.
pub proof fn uploads_are_counted_for_their_tenant(s: StoreView, tenant: Seq<char>, since: u64)
    ensures
        uploads_counted(s, tenant, since) matches Ok((n, bytes)) ==> {
            let own = s.uploads.filter(
                |u: UploadRowView|
                    exists|l: LinkRowView| #[trigger]
                        s.links.contains(l) && l.tenant == tenant && l.id == u.link_id,
            );
            tallied(own, column(since)) matches Ok((m, sum)) && (n == m as u64) && (sum
                <= u64::MAX ==> bytes == sum) && (sum > u64::MAX ==> bytes == u64::MAX)
        },
{
    let own = |u: UploadRowView|
        exists|l: LinkRowView| #[trigger]
            s.links.contains(l) && l.tenant == tenant && l.id == u.link_id;
    assert forall|u: UploadRowView| #[trigger] upload_of_tenant(s.links, tenant)(u) == own(u) by {
        lemma_found(s.links, link_is(tenant, u.link_id));
    }
    crate::selection::lemma_counted(s.uploads, upload_of_tenant(s.links, tenant), own);
    lemma_tally_natural(s.uploads.filter(own), column(since));
}

proof fn lemma_tally_natural(uploads: Seq<UploadRowView>, since: i64)
    ensures
        tallied(uploads, since) matches Ok((_, bytes)) ==> bytes >= 0,
    decreases uploads.len(),
{
    if uploads.len() > 0 {
        lemma_tally_natural(uploads.drop_last(), since);
    }
}

// ------------------------------------------------------------ candidates
/// The records that a delivered object may be are the tenant's live records of that link
/// with the object's suite, root and length, behind the path, in order of their path.
pub proof fn candidates_are_the_object(
    s: StoreView,
    tenant: Seq<char>,
    link_id: Seq<char>,
    suite: Seq<char>,
    object: ObjectIdView,
    after: Seq<char>,
    f: FileRowView,
)
    ensures
        candidate(tenant, link_id, suite, object, after)(f) <==> {
            &&& !f.deleted && f.tenant == tenant && f.link_id == link_id
            &&& f.suite == suite && f.root == crate::hexadecimal::hex_text(object.root)
            &&& f.bytes_hi * 0x1_0000_0000 + f.bytes_lo == object.length && 0 <= f.bytes_lo
                < 0x1_0000_0000
            &&& text_lt(after, f.stored_as)
        },
        path_and_receipt()(f) == (f.stored_as, f.receipt),
        forall|g: FileRowView| #[trigger]
            by_path()(f, g) <==> text_lt(f.stored_as, g.stored_as),
{
    crate::columns::limbs_round_trip(object.length);
}

/// The links that retention walks are those behind the id, each with its tenant.
pub proof fn retention_walks_all_links(after: Option<Seq<char>>, l: LinkRowView)
    ensures
        link_after(after)(l) <==> (after is Some ==> text_lt(after->0, l.id)),
        tenant_and_id()(l) == (l.tenant, l.id),
        forall|m: LinkRowView| #[trigger] by_id()(l, m) <==> text_lt(l.id, m.id),
{
}

} // verus!
