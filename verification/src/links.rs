//! Request links.
use vstd::prelude::*;

use crate::columns::{
    column, decode_error, from_column, from_optional_column, high, low, natural, optional,
    optional_column, split_bytes, to_column, to_optional_column, undecoded,
};
use crate::files::{change_files, delete_files, purged, revised};
use crate::hexadecimal::{hex_encode, hex_text};
use crate::kinds::InsertLinkError;
use crate::like::{
    anywhere, anywhere_pattern, complexity, complexity_error, escape_like, escaped, is_like,
    is_too_complex, like, too_complex,
};
use crate::records::{
    Link, LinkCursor, LinkCursorView, LinkPage, LinkPageView, LinkView, ObjectId, ObjectIdView,
    UploadRecord, UploadRecordView,
};
use crate::rows::{
    FileRow, FileRowView, InboundRouteRow, InboundRouteRowView, LinkRow, LinkRowView, QuotaRowView,
    TenantRow, TenantRowView, TradeEndpointRow, TradeEndpointRowView, TradeInvitationRow,
    TradeInvitationRowView, TradeRouteRow, TradeRouteRowView, UploadRow, UploadRowView,
};
use crate::store::{Store, StoreView, follows};
use crate::table::{
    Row, any, append_row, count, delete_where, dup_option, dup_rows, exists_where, find, first,
    outcome, page, page_rows, project, select, sort_rows, sorted_by, try_map, try_project,
    update_where, updated,
};
use crate::text::{ascii_fold, folded, lowercase, lt, same, text_lt, texts, to_lowercase};
use crate::uploads::{link_is, upload_is, upload_of_link, upload_refused, uploads_of, with_upload};
use crate::usage::link_in;

verus! {

/// How many delivered candidates are looked at in one go.
pub const DELIVERED_CANDIDATE_PAGE: usize = 128;

// ------------------------------------------------------------ specifications
/// The link that a row stands for, with `uploads` as its history.
pub open spec fn link_of(l: LinkRowView, uploads: Seq<UploadRecordView>) -> LinkView {
    LinkView {
        id: l.id,
        label: l.label,
        tenant: l.tenant,
        dest: l.dest,
        password_hash: l.password_hash,
        created_at: natural(l.created_at),
        expires_at: optional(l.expires_at),
        max_bytes: optional(l.max_bytes),
        active: l.active,
        legal_hold: l.legal_hold,
        notifications: l.notifications,
        uploads,
        events: l.events,
    }
}

/// The link that a row stands for, without its history.
pub open spec fn policy_of() -> spec_fn(LinkRowView) -> Result<LinkView, Seq<char>> {
    |l: LinkRowView|
        if l.notifications_error is Some {
            Err(undecoded("11"@, l.notifications_error->0))
        } else if l.events_error is Some {
            Err(undecoded("10"@, l.events_error->0))
        } else {
            Ok(link_of(l, Seq::empty()))
        }
}

/// The link that a row stands for, with its history.
pub open spec fn full_link(s: StoreView) -> spec_fn(LinkRowView) -> Result<LinkView, Seq<char>> {
    |l: LinkRowView|
        match policy_of()(l) {
            Err(e) => Err(e),
            Ok(_) => match uploads_of(s, l.id) {
                Err(e) => Err(e),
                Ok(uploads) => Ok(link_of(l, uploads)),
            },
        }
}

/// The link that a row stands for, without history and events.
pub open spec fn bare_link(l: LinkRowView) -> Result<LinkView, Seq<char>> {
    if l.notifications_error is Some {
        Err(undecoded("11"@, l.notifications_error->0))
    } else {
        Ok(LinkView { events: Seq::empty(), ..link_of(l, Seq::empty()) })
    }
}

/// The link `id`, of whatever tenant.
pub open spec fn link_named(id: Seq<char>) -> spec_fn(LinkRowView) -> bool {
    |l: LinkRowView| l.id == id
}

/// The row of a link.
pub open spec fn link_row(l: LinkView) -> LinkRowView {
    LinkRowView {
        id: l.id,
        tenant: l.tenant,
        label: l.label,
        dest: l.dest,
        password_hash: l.password_hash,
        created_at: column(l.created_at),
        expires_at: optional_column(l.expires_at),
        max_bytes: optional_column(l.max_bytes),
        active: l.active,
        legal_hold: l.legal_hold,
        events: l.events,
        notifications: l.notifications,
        events_error: None,
        notifications_error: None,
    }
}

/// A row in place of another.
pub open spec fn becomes(row: LinkRowView) -> spec_fn(LinkRowView) -> LinkRowView {
    |l: LinkRowView| row
}

/// A tenant by its key.
pub open spec fn tenant_is(key: Seq<char>) -> spec_fn(TenantRowView) -> bool {
    |t: TenantRowView| t.key == key
}

/// The store with `uploads` added to a link one by one, or why one is refused.
pub open spec fn with_uploads(
    s: StoreView,
    tenant: Seq<char>,
    link_id: Seq<char>,
    uploads: Seq<UploadRecordView>,
) -> Result<StoreView, Seq<char>>
    decreases uploads.len(),
{
    if uploads.len() == 0 {
        Ok(s)
    } else {
        match with_uploads(s, tenant, link_id, uploads.drop_last()) {
            Err(e) => Err(e),
            Ok(after) => match upload_refused(after, link_id, uploads.last()) {
                Some(e) => Err(e),
                None => Ok(with_upload(after, tenant, link_id, uploads.last())),
            },
        }
    }
}

/// Why a link is not inserted, as a value.
pub enum LinkRefusal {
    NamedTenantGone,
    Store(Seq<char>),
}

/// A link inserted with its history; `workflow` is what came of setting up the
/// workflow that receives its uploads, if there is one.
pub open spec fn with_link(s: StoreView, l: LinkView, workflow: Option<Result<(), String>>) -> Result<
    StoreView,
    LinkRefusal,
> {
    if l.tenant.len() > 0 && !any(s.tenants, tenant_is(l.tenant)) {
        Err(LinkRefusal::NamedTenantGone)
    } else if any(s.links, link_named(l.id)) {
        Err(LinkRefusal::Store("UNIQUE constraint failed: links.id"@))
    } else {
        match with_uploads(
            StoreView { links: s.links.push(link_row(l)), ..s },
            l.tenant,
            l.id,
            l.uploads,
        ) {
            Err(e) => Err(LinkRefusal::Store(e)),
            Ok(after) => match workflow {
                Some(Err(e)) => Err(LinkRefusal::Store(e@)),
                _ => Ok(after),
            },
        }
    }
}

/// The value of a refusal.
pub open spec fn refusal_of(e: InsertLinkError) -> LinkRefusal {
    match e {
        InsertLinkError::NamedTenantGone => LinkRefusal::NamedTenantGone,
        InsertLinkError::Store(text) => LinkRefusal::Store(text@),
    }
}

/// A receiving endpoint of a trade route.
pub open spec fn endpoint_is(id: Seq<char>) -> spec_fn(TradeEndpointRowView) -> bool {
    |e: TradeEndpointRowView| e.id == id
}

/// The store with a link's policy and events rewritten.
pub open spec fn rewritten(s: StoreView, id: Seq<char>, link: LinkView) -> Result<
    (StoreView, bool),
    Seq<char>,
> {
    if link.password_hash is Some && any(s.trade_endpoints, endpoint_is(id)) {
        Err(
            "paired receiving endpoints use route credentials; manage permissions in Trade routes"@,
        )
    } else {
        Ok(
            (
                StoreView {
                    links: updated(
                        s.links,
                        link_is(link.tenant, link.id),
                        becomes(link_row(link)),
                    ),
                    ..s
                },
                true,
            ),
        )
    }
}

/// Uploads other than one of a tenant's link.
pub open spec fn other_upload(tenant: Seq<char>, link_id: Seq<char>, upload_id: Seq<char>) -> spec_fn(
    UploadRowView,
) -> bool {
    |u: UploadRowView| !upload_is(tenant, link_id, upload_id)(u)
}

/// Records of files of one upload.
pub open spec fn in_upload(tenant: Seq<char>, link_id: Seq<char>, upload_id: Seq<char>) -> spec_fn(
    FileRowView,
) -> bool {
    |f: FileRowView| f.tenant == tenant && f.link_id == link_id && f.upload_id == upload_id
}

/// Records of files of other uploads.
pub open spec fn not_in_upload(tenant: Seq<char>, link_id: Seq<char>, upload_id: Seq<char>) -> spec_fn(
    FileRowView,
) -> bool {
    |f: FileRowView| !in_upload(tenant, link_id, upload_id)(f)
}

/// An upload removed, unless workflows still need it.
pub open spec fn without_upload(
    s: StoreView,
    tenant: Seq<char>,
    link_id: Seq<char>,
    upload_id: Seq<char>,
    pending: bool,
) -> Result<(StoreView, bool), Seq<char>> {
    if pending {
        Err(
            "incoming workflows still use this history; wait for their deliveries to be archived before deleting it"@,
        )
    } else if !any(s.links, link_is(tenant, link_id)) || !any(
        s.uploads,
        upload_is(tenant, link_id, upload_id),
    ) {
        Ok((s, false))
    } else {
        Ok(
            (
                StoreView {
                    uploads: s.uploads.filter(other_upload(tenant, link_id, upload_id)),
                    files: s.files.filter(not_in_upload(tenant, link_id, upload_id)),
                    quotas: purged(
                        s.quotas,
                        Seq::empty(),
                        s.files,
                        in_upload(tenant, link_id, upload_id),
                    ),
                    ..s
                },
                true,
            ),
        )
    }
}

/// Live records of a link under a stored path.
pub open spec fn stored_at(tenant: Seq<char>, link_id: Seq<char>, path: Seq<char>) -> spec_fn(
    FileRowView,
) -> bool {
    |f: FileRowView|
        f.tenant == tenant && f.link_id == link_id && f.stored_as == path && !f.deleted
}

/// A record marked as deleted.
pub open spec fn tombstoned() -> spec_fn(FileRowView) -> FileRowView {
    |f: FileRowView| FileRowView { deleted: true, ..f }
}

/// The records after the files under `paths` were marked as deleted.
pub open spec fn buried_files(
    files: Seq<FileRowView>,
    tenant: Seq<char>,
    link_id: Seq<char>,
    paths: Seq<Seq<char>>,
) -> Seq<FileRowView>
    decreases paths.len(),
{
    if paths.len() == 0 {
        files
    } else {
        updated(
            buried_files(files, tenant, link_id, paths.drop_last()),
            stored_at(tenant, link_id, paths.last()),
            tombstoned(),
        )
    }
}

/// The aggregates after the files under `paths` were marked as deleted.
pub open spec fn buried_quotas(
    quotas: Seq<QuotaRowView>,
    files: Seq<FileRowView>,
    tenant: Seq<char>,
    link_id: Seq<char>,
    paths: Seq<Seq<char>>,
) -> Seq<QuotaRowView>
    decreases paths.len(),
{
    if paths.len() == 0 {
        quotas
    } else {
        revised(
            buried_quotas(quotas, files, tenant, link_id, paths.drop_last()),
            Seq::empty(),
            buried_files(files, tenant, link_id, paths.drop_last()),
            stored_at(tenant, link_id, paths.last()),
            tombstoned(),
        )
    }
}

/// Files of a link marked as deleted.
pub open spec fn buried(
    s: StoreView,
    tenant: Seq<char>,
    link_id: Seq<char>,
    paths: Seq<Seq<char>>,
) -> Result<(StoreView, bool), Seq<char>> {
    match first(s.links, link_is(tenant, link_id)) {
        None => Ok((s, false)),
        Some(l) => match policy_of()(l) {
            Err(e) => Err(e),
            Ok(_) => Ok(
                (
                    StoreView {
                        files: buried_files(s.files, tenant, link_id, paths),
                        quotas: buried_quotas(s.quotas, s.files, tenant, link_id, paths),
                        ..s
                    },
                    true,
                ),
            ),
        },
    }
}

/// Incoming routes of a tenant's link that peers may still deliver by.
pub open spec fn enrolled(tenant: Seq<char>, id: Seq<char>) -> spec_fn(TradeRouteRowView) -> bool {
    |r: TradeRouteRowView|
        r.tenant == tenant && r.endpoint == id && r.direction == "incoming"@ && r.state is Some
            && r.state->0 != "revoked"@
}

/// The route `id` of a tenant's link.
pub open spec fn route_named(tenant: Seq<char>, endpoint: Seq<char>, id: Seq<char>) -> spec_fn(
    TradeRouteRowView,
) -> bool {
    |r: TradeRouteRowView| r.tenant == tenant && r.endpoint == endpoint && r.id == id
}

/// Rotations of routes other than those of a tenant's link.
pub open spec fn unrelated_rotation(
    routes: Seq<TradeRouteRowView>,
    tenant: Seq<char>,
    endpoint: Seq<char>,
) -> spec_fn(Seq<char>) -> bool {
    |route: Seq<char>| !any(routes, route_named(tenant, endpoint, route))
}

/// Rotations of routes of a tenant's link.
pub open spec fn related_rotation(
    routes: Seq<TradeRouteRowView>,
    tenant: Seq<char>,
    endpoint: Seq<char>,
) -> spec_fn(Seq<char>) -> bool {
    |route: Seq<char>| any(routes, route_named(tenant, endpoint, route))
}

/// Incoming routes of a tenant's link.
pub open spec fn incoming_route(tenant: Seq<char>, id: Seq<char>) -> spec_fn(TradeRouteRowView) -> bool {
    |r: TradeRouteRowView| r.tenant == tenant && r.endpoint == id && r.direction == "incoming"@
}

/// Other routes.
pub open spec fn not_incoming_route(tenant: Seq<char>, id: Seq<char>) -> spec_fn(
    TradeRouteRowView,
) -> bool {
    |r: TradeRouteRowView| !incoming_route(tenant, id)(r)
}

/// Invitations to a tenant's link.
pub open spec fn invitation_to(tenant: Seq<char>, id: Seq<char>) -> spec_fn(
    TradeInvitationRowView,
) -> bool {
    |i: TradeInvitationRowView| i.tenant == tenant && i.endpoint == id
}

/// Other invitations.
pub open spec fn not_invitation_to(tenant: Seq<char>, id: Seq<char>) -> spec_fn(
    TradeInvitationRowView,
) -> bool {
    |i: TradeInvitationRowView| !invitation_to(tenant, id)(i)
}

/// The endpoint of a tenant's link.
pub open spec fn endpoint_of(tenant: Seq<char>, id: Seq<char>) -> spec_fn(TradeEndpointRowView) -> bool {
    |e: TradeEndpointRowView| e.tenant == tenant && e.id == id
}

/// Other endpoints.
pub open spec fn not_endpoint_of(tenant: Seq<char>, id: Seq<char>) -> spec_fn(
    TradeEndpointRowView,
) -> bool {
    |e: TradeEndpointRowView| !endpoint_of(tenant, id)(e)
}

/// Records of files of a link.
pub open spec fn in_link(id: Seq<char>) -> spec_fn(FileRowView) -> bool {
    |f: FileRowView| f.link_id == id
}

/// Records of files of other links.
pub open spec fn not_in_link(id: Seq<char>) -> spec_fn(FileRowView) -> bool {
    |f: FileRowView| f.link_id != id
}

/// Uploads of a tenant's link.
pub open spec fn upload_in(tenant: Seq<char>, link_id: Seq<char>) -> spec_fn(UploadRowView) -> bool {
    |u: UploadRowView| u.tenant == tenant && u.link_id == link_id
}

/// Other uploads.
pub open spec fn not_upload_in(tenant: Seq<char>, link_id: Seq<char>) -> spec_fn(UploadRowView) -> bool {
    |u: UploadRowView| !upload_in(tenant, link_id)(u)
}

/// Other links.
pub open spec fn not_link(tenant: Seq<char>, id: Seq<char>) -> spec_fn(LinkRowView) -> bool {
    |l: LinkRowView| !link_is(tenant, id)(l)
}

/// A link removed with its history and its revoked trade routes.
pub open spec fn without_link(s: StoreView, tenant: Seq<char>, id: Seq<char>, pending: bool) -> Result<
    (StoreView, bool),
    Seq<char>,
> {
    if pending {
        Err(
            "incoming workflows still use this request; wait for their deliveries to be archived before deleting it"@,
        )
    } else if any(s.trade_routes, enrolled(tenant, id)) {
        Err(
            "trade routes still deliver to this request; revoke them under Trade routes before deleting it"@,
        )
    } else {
        let there = any(s.links, link_is(tenant, id));
        Ok(
            (
                StoreView {
                    trade_rotations: s.trade_rotations.filter(
                        unrelated_rotation(s.trade_routes, tenant, id),
                    ),
                    trade_routes: s.trade_routes.filter(not_incoming_route(tenant, id)),
                    trade_invitations: s.trade_invitations.filter(not_invitation_to(tenant, id)),
                    trade_endpoints: s.trade_endpoints.filter(not_endpoint_of(tenant, id)),
                    files: if there {
                        s.files.filter(not_in_link(id))
                    } else {
                        s.files
                    },
                    quotas: if there {
                        purged(s.quotas, Seq::empty(), s.files, in_link(id))
                    } else {
                        s.quotas
                    },
                    uploads: s.uploads.filter(not_upload_in(tenant, id)),
                    links: s.links.filter(not_link(tenant, id)),
                    ..s
                },
                there,
            ),
        )
    }
}

/// Whether a link takes uploads at `now`.
pub open spec fn is_open(l: LinkRowView, now: i64) -> bool {
    l.active && match l.expires_at {
        Some(at) => at > now,
        None => true,
    }
}

/// Whether a link has the asked status: any, open or closed.
pub open spec fn has_status(l: LinkRowView, status: Seq<char>, now: i64) -> bool {
    status == "all"@ || (status == "open"@ && is_open(l, now)) || (status == "closed"@ && !is_open(
        l,
        now,
    ))
}

/// Inbound routes to a link.
pub open spec fn inbound_to(id: Seq<char>) -> spec_fn(InboundRouteRowView) -> bool {
    |r: InboundRouteRowView| r.link_id == id
}

/// Whether a trade route may be set up for a link: it is open, has no password
/// and no history, and no route yet.
pub open spec fn route_eligible(s: StoreView, l: LinkRowView, now: i64) -> bool {
    l.password_hash is None && is_open(l, now) && !any(s.uploads, upload_of_link(l.id)) && !any(
        s.trade_endpoints,
        endpoint_is(l.id),
    ) && !any(s.inbound_routes, inbound_to(l.id))
}

/// Whether a link comes behind a cursor.
pub open spec fn behind(l: LinkRowView, cursor: Option<LinkCursorView>) -> bool {
    match cursor {
        None => true,
        Some(c) => l.created_at < column(c.created_at) || (l.created_at == column(c.created_at)
            && text_lt(l.id, c.id)),
    }
}

/// Whether a link is found under a word: in its label or destination, or by its
/// id.
pub open spec fn found_under(l: LinkRowView, word: Seq<char>) -> bool {
    word.len() == 0 || like(ascii_fold(l.label), anywhere(word)) || like(
        ascii_fold(l.dest),
        anywhere(word),
    ) || l.id == word
}

/// What a page of links is to show.
pub open spec fn listed_link(
    s: StoreView,
    tenant: Seq<char>,
    cursor: Option<LinkCursorView>,
    word: Seq<char>,
    status: Seq<char>,
    now: i64,
    routable: bool,
) -> spec_fn(LinkRowView) -> bool {
    |l: LinkRowView|
        l.tenant == tenant && found_under(l, word) && has_status(l, status, now) && (!routable
            || route_eligible(s, l, now)) && behind(l, cursor)
}

/// Newer links first, those of the same time by id.
pub open spec fn newer_link() -> spec_fn(LinkRowView, LinkRowView) -> bool {
    |a: LinkRowView, b: LinkRowView|
        if a.created_at != b.created_at {
            a.created_at > b.created_at
        } else {
            text_lt(b.id, a.id)
        }
}

/// The least of a limit and one more, as a count of rows.
pub open spec fn one_more(limit: u64) -> int {
    let size = if limit <= usize::MAX {
        limit as int
    } else {
        usize::MAX as int
    };
    let more = if size < usize::MAX {
        size + 1
    } else {
        size
    };
    if more <= i64::MAX {
        more
    } else {
        i64::MAX as int
    }
}

/// At most `limit` of the links read, and where to go on if there are more.
pub open spec fn cut(links: Seq<LinkView>, limit: u64) -> LinkPageView {
    if links.len() > limit {
        let shown = links.take(limit as int);
        LinkPageView {
            links: shown,
            next_cursor: if limit == 0 {
                None
            } else {
                Some(
                    LinkCursorView { created_at: shown.last().created_at, id: shown.last().id },
                )
            },
        }
    } else {
        LinkPageView { links, next_cursor: None }
    }
}

/// The links that are to be listed behind a cursor, newest first.
pub open spec fn links_listed(
    s: StoreView,
    tenant: Seq<char>,
    cursor: Option<LinkCursorView>,
    word: Seq<char>,
    status: Seq<char>,
    now: i64,
    routable: bool,
) -> Seq<LinkRowView> {
    sorted_by(
        s.links.filter(listed_link(s, tenant, cursor, word, status, now, routable)),
        newer_link(),
    )
}

/// Links of a tenant behind a cursor.
pub open spec fn link_behind(
    tenant: Seq<char>,
    cursor: Option<LinkCursorView>,
) -> spec_fn(LinkRowView) -> bool {
    |l: LinkRowView| l.tenant == tenant && behind(l, cursor)
}

/// Whether a search of a tenant's links is refused: its pattern takes too many bytes, and
/// there is a link behind the cursor to hold it against.
pub open spec fn search_refused(
    s: StoreView,
    tenant: Seq<char>,
    cursor: Option<LinkCursorView>,
    word: Seq<char>,
) -> bool {
    word.len() > 0 && too_complex(anywhere(word)) && any(s.links, link_behind(tenant, cursor))
}

/// One page of a tenant's links behind a cursor.
pub open spec fn page_shown(
    s: StoreView,
    tenant: Seq<char>,
    cursor: Option<LinkCursorView>,
    word: Seq<char>,
    status: Seq<char>,
    now: i64,
    routable: bool,
    limit: u64,
) -> Result<LinkPageView, Seq<char>> {
    match try_map(
        page(
            links_listed(s, tenant, cursor, word, status, now, routable),
            0,
            one_more(limit),
        ),
        policy_of(),
    ) {
        _ if search_refused(s, tenant, cursor, word) => Err(complexity()),
        Err(e) => Err(e),
        Ok(links) => Ok(cut(links, limit)),
    }
}

/// Live records of a tenant's link that are an object, behind a stored path.
pub open spec fn candidate(
    tenant: Seq<char>,
    link_id: Seq<char>,
    suite: Seq<char>,
    object: ObjectIdView,
    after: Seq<char>,
) -> spec_fn(FileRowView) -> bool {
    |f: FileRowView|
        f.tenant == tenant && f.link_id == link_id && f.suite == suite && f.root == hex_text(
            object.root,
        ) && f.bytes_hi == high(object.length) && f.bytes_lo == low(object.length) && !f.deleted
            && text_lt(after, f.stored_as)
}

/// Records in order of their stored path.
pub open spec fn by_path() -> spec_fn(FileRowView, FileRowView) -> bool {
    |a: FileRowView, b: FileRowView| text_lt(a.stored_as, b.stored_as)
}

/// Stored path and receipt of a record.
pub open spec fn path_and_receipt() -> spec_fn(FileRowView) -> (Seq<char>, bool) {
    |f: FileRowView| (f.stored_as, f.receipt)
}

/// Links behind an id.
pub open spec fn link_after(after: Option<Seq<char>>) -> spec_fn(LinkRowView) -> bool {
    |l: LinkRowView|
        match after {
            Some(id) => text_lt(id, l.id),
            None => true,
        }
}

/// Links in order of their id.
pub open spec fn by_id() -> spec_fn(LinkRowView, LinkRowView) -> bool {
    |a: LinkRowView, b: LinkRowView| text_lt(a.id, b.id)
}

/// Tenant and id of a link.
pub open spec fn tenant_and_id() -> spec_fn(LinkRowView) -> (Seq<char>, Seq<char>) {
    |l: LinkRowView| (l.tenant, l.id)
}

// ---------------------------------------------------------------------- laws
/// The page behind a link's cursor holds exactly the links that come after it.
pub proof fn pages_go_on_behind_their_cursor(last: LinkRowView, l: LinkRowView)
    requires
        last.created_at >= 0,
    ensures
        behind(
            l,
            Some(LinkCursorView { created_at: natural(last.created_at), id: last.id }),
        ) == newer_link()(last, l),
{
}

// ---------------------------------------------------------------- operations
fn map_link(l: &LinkRow, uploads: Vec<UploadRecord>) -> (r: Link)
    ensures
        r@ == link_of(l@, uploads.deep_view()),
{
    Link {
        id: l.id.clone(),
        label: l.label.clone(),
        tenant: l.tenant.clone(),
        dest: l.dest.clone(),
        password_hash: dup_option(&l.password_hash),
        created_at: from_column(l.created_at),
        expires_at: from_optional_column(l.expires_at),
        max_bytes: from_optional_column(l.max_bytes),
        active: l.active,
        legal_hold: l.legal_hold,
        notifications: dup_option(&l.notifications),
        uploads,
        events: dup_rows(&l.events),
    }
}

/// The link that a row stands for, without its history.
pub fn row_to_link(l: &LinkRow) -> (r: Result<Link, String>)
    ensures
        outcome(r) == policy_of()(l@),
{
    if let Some(error) = &l.notifications_error {
        return Err(decode_error("11", error.as_str()));
    }
    if let Some(error) = &l.events_error {
        return Err(decode_error("10", error.as_str()));
    }
    let none: Vec<UploadRecord> = Vec::new();
    assert(none.deep_view() =~= Seq::<UploadRecordView>::empty());
    Ok(map_link(l, none))
}

/// The row of a link.
pub fn link_params(l: &Link) -> (r: LinkRow)
    ensures
        r@ == link_row(l@),
{
    LinkRow {
        id: l.id.clone(),
        tenant: l.tenant.clone(),
        label: l.label.clone(),
        dest: l.dest.clone(),
        password_hash: dup_option(&l.password_hash),
        created_at: to_column(l.created_at),
        expires_at: to_optional_column(l.expires_at),
        max_bytes: to_optional_column(l.max_bytes),
        active: l.active,
        legal_hold: l.legal_hold,
        events: dup_rows(&l.events),
        notifications: dup_option(&l.notifications),
        events_error: None,
        notifications_error: None,
    }
}

fn is_behind(l: &LinkRow, before: Option<&LinkCursor>) -> (r: bool)
    ensures
        r == behind(l@, before.deep_view()),
{
    match before {
        None => true,
        Some(cursor) => {
            let created: i64 = to_column(cursor.created_at);
            l.created_at < created || (l.created_at == created && lt(
                l.id.as_str(),
                cursor.id.as_str(),
            ))
        },
    }
}

fn open_now(l: &LinkRow, now: i64) -> (r: bool)
    ensures
        r == is_open(l@, now),
{
    l.active && match l.expires_at {
        Some(at) => at > now,
        None => true,
    }
}

proof fn lemma_uploads_refused(
    s: StoreView,
    tenant: Seq<char>,
    link_id: Seq<char>,
    uploads: Seq<UploadRecordView>,
    i: int,
)
    requires
        0 <= i <= uploads.len(),
        with_uploads(s, tenant, link_id, uploads.take(i)) is Err,
    ensures
        with_uploads(s, tenant, link_id, uploads) == with_uploads(
            s,
            tenant,
            link_id,
            uploads.take(i),
        ),
    decreases uploads.len() - i,
{
    if i < uploads.len() {
        assert(uploads.take(i + 1).drop_last() =~= uploads.take(i));
        lemma_uploads_refused(s, tenant, link_id, uploads, i + 1);
    } else {
        assert(uploads.take(i) =~= uploads);
    }
}

impl Store {
    /// The link that a row stands for, with its history.
    fn row_to_link_with_uploads(&self, l: &LinkRow) -> (r: Result<Link, String>)
        ensures
            outcome(r) == full_link(self@)(l@),
    {
        if let Some(error) = &l.notifications_error {
            return Err(decode_error("11", error.as_str()));
        }
        if let Some(error) = &l.events_error {
            return Err(decode_error("10", error.as_str()));
        }
        match self.read_uploads(l.id.as_str()) {
            Ok(uploads) => Ok(map_link(l, uploads)),
            Err(error) => Err(error),
        }
    }

    /// A tenant's links with their history, in order of insertion.
    pub fn links(&self, tenant: &str) -> (r: Result<Vec<Link>, String>)
        ensures
            outcome(r) == crate::upkeep::links_told(self@, tenant@),
    {
        let own = |l: &LinkRow| -> (b: bool)
            ensures
                b == link_in(tenant@)(l@),
        {
            same(l.tenant.as_str(), tenant)
        };
        let read = |l: &LinkRow| -> (r: Result<Link, String>)
            ensures
                outcome(r) == full_link(self@)(l@),
        {
            self.row_to_link_with_uploads(l)
        };
        let rows = select(&self.links, own, Ghost(link_in(tenant@)));
        try_project(&rows, read, Ghost(full_link(self@)))
    }

    /// The links of all tenants with their history, in order of insertion.
    pub fn all_links(&self) -> (r: Result<Vec<Link>, String>)
        ensures
            outcome(r) == crate::upkeep::all_links_told(self@),
    {
        let read = |l: &LinkRow| -> (r: Result<Link, String>)
            ensures
                outcome(r) == full_link(self@)(l@),
        {
            self.row_to_link_with_uploads(l)
        };
        try_project(&self.links, read, Ghost(full_link(self@)))
    }

    /// A link's policy and events, without its history.
    pub fn link_metadata(&self, tenant: &str, id: &str) -> (r: Result<Option<Link>, String>)
        ensures
            outcome(r) == crate::upkeep::policy_told(self@, tenant@, id@),
    {
        let hit = |l: &LinkRow| -> (b: bool)
            ensures
                b == link_is(tenant@, id@)(l@),
        {
            same(l.tenant.as_str(), tenant) && same(l.id.as_str(), id)
        };
        match find(&self.links, hit, Ghost(link_is(tenant@, id@))) {
            Some(found) => match row_to_link(&self.links[found]) {
                Ok(link) => Ok(Some(link)),
                Err(error) => Err(error),
            },
            None => Ok(None),
        }
    }

    /// A link with its history.
    pub fn link(&self, tenant: &str, id: &str) -> (r: Result<Option<Link>, String>)
        ensures
            outcome(r) == crate::upkeep::link_told(self@, tenant@, id@),
    {
        let hit = |l: &LinkRow| -> (b: bool)
            ensures
                b == link_is(tenant@, id@)(l@),
        {
            same(l.tenant.as_str(), tenant) && same(l.id.as_str(), id)
        };
        match find(&self.links, hit, Ghost(link_is(tenant@, id@))) {
            Some(found) => match self.row_to_link_with_uploads(&self.links[found]) {
                Ok(link) => Ok(Some(link)),
                Err(error) => Err(error),
            },
            None => Ok(None),
        }
    }

    /// A link by its id alone: senders hold the id and know no tenant.
    pub fn link_by_id(&self, id: &str) -> (r: Result<Option<Link>, String>)
        ensures
            outcome(r) == crate::upkeep::named_link_told(self@, id@),
    {
        let hit = |l: &LinkRow| -> (b: bool)
            ensures
                b == link_named(id@)(l@),
        {
            same(l.id.as_str(), id)
        };
        match find(&self.links, hit, Ghost(link_named(id@))) {
            Some(found) => match self.row_to_link_with_uploads(&self.links[found]) {
                Ok(link) => Ok(Some(link)),
                Err(error) => Err(error),
            },
            None => Ok(None),
        }
    }

    /// A link's policy by its id alone, without history and events.
    pub fn upload_link(&self, id: &str) -> (r: Result<Option<Link>, String>)
        ensures
            outcome(r) == crate::upkeep::bare_link_told(self@, id@),
    {
        let hit = |l: &LinkRow| -> (b: bool)
            ensures
                b == link_named(id@)(l@),
        {
            same(l.id.as_str(), id)
        };
        match find(&self.links, hit, Ghost(link_named(id@))) {
            Some(found) => {
                let l = &self.links[found];
                if let Some(error) = &l.notifications_error {
                    return Err(decode_error("11", error.as_str()));
                }
                let none: Vec<UploadRecord> = Vec::new();
                assert(none.deep_view() =~= Seq::<UploadRecordView>::empty());
                let mut link = map_link(l, none);
                link.events = Vec::new();
                assert(link.events.deep_view() =~= Seq::empty());
                Ok(Some(link))
            },
            None => Ok(None),
        }
    }

    /// The uploads of a link by its id alone.
    pub fn uploads_by_id(&self, id: &str) -> (r: Result<Option<Vec<UploadRecord>>, String>)
        ensures
            outcome(r) == crate::upkeep::history_told(self@, id@),
    {
        let hit = |l: &LinkRow| -> (b: bool)
            ensures
                b == link_named(id@)(l@),
        {
            same(l.id.as_str(), id)
        };
        match find(&self.links, hit, Ghost(link_named(id@))) {
            Some(found) => {
                if let Some(error) = &self.links[found].events_error {
                    return Err(decode_error("0", error.as_str()));
                }
                match self.read_uploads(id) {
                    Ok(uploads) => Ok(Some(uploads)),
                    Err(error) => Err(error),
                }
            },
            None => Ok(None),
        }
    }

    /// One page of a tenant's links, newest first.
    pub fn links_page(
        &self,
        tenant: &str,
        limit: u64,
        before: Option<&LinkCursor>,
        search: &str,
        status: &str,
        now: u64,
        route_eligible: bool,
    ) -> (r: Result<LinkPage, String>)
        ensures
            outcome(r) == page_shown(
                self@,
                tenant@,
                before.deep_view(),
                lowercase(escaped(search@)),
                status@,
                column(now),
                route_eligible,
                limit,
            ),
    {
        let size: usize = if limit <= usize::MAX as u64 {
            limit as usize
        } else {
            usize::MAX
        };
        let more: usize = size.saturating_add(1);
        let sql_limit: usize = if more as u64 > i64::MAX as u64 {
            i64::MAX as usize
        } else {
            more
        };
        let at: i64 = to_column(now);
        let word = to_lowercase(escape_like(search).as_str());
        let word = word.as_str();
        let pattern = anywhere_pattern(word);
        let wordless = word.unicode_len() == 0;
        if !wordless && is_too_complex(word) {
            let next = |l: &LinkRow| -> (b: bool)
                ensures
                    b == link_behind(tenant@, before.deep_view())(l@),
            {
                same(l.tenant.as_str(), tenant) && is_behind(l, before)
            };
            if exists_where(
                &self.links,
                next,
                Ghost(link_behind(tenant@, before.deep_view())),
            ) {
                return Err(complexity_error());
            }
        }
        let hit = |l: &LinkRow| -> (b: bool)
            ensures
                b == listed_link(
                    self@,
                    tenant@,
                    before.deep_view(),
                    word@,
                    status@,
                    at,
                    route_eligible,
                )(l@),
        {
            same(l.tenant.as_str(), tenant) && (wordless || is_like(
                &folded(l.label.as_str()),
                &pattern,
            ) || is_like(&folded(l.dest.as_str()), &pattern) || same(l.id.as_str(), word)) && (same(
                status,
                "all",
            ) || (same(status, "open") && open_now(l, at)) || (same(status, "closed") && !open_now(
                l,
                at,
            ))) && (!route_eligible || self.is_route_eligible(l, at)) && is_behind(l, before)
        };
        let newer = |a: &LinkRow, b: &LinkRow| -> (r: bool)
            ensures
                r == newer_link()(a@, b@),
        {
            if a.created_at != b.created_at {
                a.created_at > b.created_at
            } else {
                lt(b.id.as_str(), a.id.as_str())
            }
        };
        let read = |l: &LinkRow| -> (r: Result<Link, String>)
            ensures
                outcome(r) == policy_of()(l@),
        {
            row_to_link(l)
        };
        let rows = select(
            &self.links,
            hit,
            Ghost(
                listed_link(
                    self@,
                    tenant@,
                    before.deep_view(),
                    word@,
                    status@,
                    at,
                    route_eligible,
                ),
            ),
        );
        let rows = sort_rows(rows, newer, Ghost(newer_link()));
        let rows = page_rows(&rows, 0, sql_limit);
        let mut links = match try_project(&rows, read, Ghost(policy_of())) {
            Ok(links) => links,
            Err(error) => {
                return Err(error);
            },
        };
        let ghost all = links.deep_view();
        if links.len() as u64 > limit {
            links.truncate(limit as usize);
            assert(links.deep_view() =~= all.take(limit as int));
            let next_cursor = if links.len() == 0 {
                None
            } else {
                let last = &links[links.len() - 1];
                Some(LinkCursor { created_at: last.created_at, id: last.id.clone() })
            };
            Ok(LinkPage { links, next_cursor })
        } else {
            Ok(LinkPage { links, next_cursor: None })
        }
    }

    /// Whether a trade route may be set up for a link.
    fn is_route_eligible(&self, l: &LinkRow, now: i64) -> (r: bool)
        ensures
            r == route_eligible(self@, l@, now),
    {
        let id = l.id.as_str();
        let history = |u: &UploadRow| -> (b: bool)
            ensures
                b == upload_of_link(id@)(u@),
        {
            same(u.link_id.as_str(), id)
        };
        let endpoint = |e: &TradeEndpointRow| -> (b: bool)
            ensures
                b == endpoint_is(id@)(e@),
        {
            same(e.id.as_str(), id)
        };
        let inbound = |r: &InboundRouteRow| -> (b: bool)
            ensures
                b == inbound_to(id@)(r@),
        {
            same(r.link_id.as_str(), id)
        };
        l.password_hash.is_none() && open_now(l, now) && !exists_where(
            &self.uploads,
            history,
            Ghost(upload_of_link(id@)),
        ) && !exists_where(&self.trade_endpoints, endpoint, Ghost(endpoint_is(id@)))
            && !exists_where(&self.inbound_routes, inbound, Ghost(inbound_to(id@)))
    }

    /// Stored path and receipt of the records that are an object already
    /// delivered to a link, behind a path, in order of path. `suite` names the
    /// object's suite.
    pub fn delivered_candidates(
        &self,
        tenant: &str,
        link_id: &str,
        object: &ObjectId,
        suite: &str,
        after: &str,
    ) -> (r: Result<Vec<(String, bool)>, String>)
        ensures
            outcome(r) == Ok::<Seq<(Seq<char>, bool)>, Seq<char>>(
                crate::answers::candidates_told(self@, tenant@, link_id@, suite@, object@, after@),
            ),
    {
        let (hi, lo) = split_bytes(object.length);
        let root = hex_encode(object.root.as_slice());
        let hit = |f: &FileRow| -> (b: bool)
            ensures
                b == candidate(tenant@, link_id@, suite@, object@, after@)(f@),
        {
            same(f.tenant.as_str(), tenant) && same(f.link_id.as_str(), link_id) && same(
                f.suite.as_str(),
                suite,
            ) && same(f.root.as_str(), root.as_str()) && f.bytes_hi == hi && f.bytes_lo == lo
                && !f.deleted && lt(after, f.stored_as.as_str())
        };
        let before = |a: &FileRow, b: &FileRow| -> (r: bool)
            ensures
                r == by_path()(a@, b@),
        {
            lt(a.stored_as.as_str(), b.stored_as.as_str())
        };
        let pick = |f: &FileRow| -> (r: (String, bool))
            ensures
                r.deep_view() == path_and_receipt()(f@),
        {
            (f.stored_as.clone(), f.receipt)
        };
        let rows = select(
            &self.files,
            hit,
            Ghost(candidate(tenant@, link_id@, suite@, object@, after@)),
        );
        let rows = sort_rows(rows, before, Ghost(by_path()));
        let rows = page_rows(&rows, 0, DELIVERED_CANDIDATE_PAGE);
        Ok(project(&rows, pick, Ghost(path_and_receipt())))
    }

    /// Tenant and id of at most `limit` links behind an id, in order of id.
    pub fn retention_link_ids(&self, after: Option<&str>, limit: usize) -> (r: Result<
        Vec<(String, String)>,
        String,
    >)
        ensures
            outcome(r) == Ok::<Seq<(Seq<char>, Seq<char>)>, Seq<char>>(
                crate::answers::links_walked(self@, after.deep_view(), limit),
            ),
    {
        let hit = |l: &LinkRow| -> (b: bool)
            ensures
                b == link_after(after.deep_view())(l@),
        {
            match after {
                Some(id) => lt(id, l.id.as_str()),
                None => true,
            }
        };
        let before = |a: &LinkRow, b: &LinkRow| -> (r: bool)
            ensures
                r == by_id()(a@, b@),
        {
            lt(a.id.as_str(), b.id.as_str())
        };
        let pick = |l: &LinkRow| -> (r: (String, String))
            ensures
                r.deep_view() == tenant_and_id()(l@),
        {
            (l.tenant.clone(), l.id.clone())
        };
        let rows = select(&self.links, hit, Ghost(link_after(after.deep_view())));
        let rows = sort_rows(rows, before, Ghost(by_id()));
        let rows = page_rows(&rows, 0, limit);
        Ok(project(&rows, pick, Ghost(tenant_and_id())))
    }

    /// Inserts a link with its history.
    pub fn insert_link(&mut self, link: Link) -> (r: Result<(), InsertLinkError>)
        ensures
            match with_link(old(self)@, link@, None) {
                Ok(after) => r is Ok && final(self)@ == after,
                Err(refusal) => final(self)@ == old(self)@ && r is Err && refusal_of(r->Err_0)
                    == refusal,
            },
    {
        self.insert_link_with_workflow(link, None)
    }

    /// Inserts a link with its history; `workflow` is what came of setting up
    /// the workflow that receives its uploads.
    pub fn insert_link_with_workflow(
        &mut self,
        link: Link,
        workflow: Option<Result<(), String>>,
    ) -> (r: Result<(), InsertLinkError>)
        ensures
            match with_link(old(self)@, link@, workflow) {
                Ok(after) => r is Ok && final(self)@ == after,
                Err(refusal) => final(self)@ == old(self)@ && r is Err && refusal_of(r->Err_0)
                    == refusal,
            },
    {
        if link.tenant.as_str().unicode_len() > 0 {
            let key = link.tenant.as_str();
            let hit = |t: &TenantRow| -> (b: bool)
                ensures
                    b == tenant_is(key@)(t@),
            {
                same(t.key.as_str(), key)
            };
            if !exists_where(&self.tenants, hit, Ghost(tenant_is(key@))) {
                return Err(InsertLinkError::NamedTenantGone);
            }
        }
        let id = link.id.as_str();
        let named = |l: &LinkRow| -> (b: bool)
            ensures
                b == link_named(id@)(l@),
        {
            same(l.id.as_str(), id)
        };
        if exists_where(&self.links, named, Ghost(link_named(id@))) {
            return Err(InsertLinkError::Store("UNIQUE constraint failed: links.id".to_owned()));
        }
        let mut after = self.dup();
        append_row(&mut after.links, link_params(&link));
        if let Err(error) = after.add_uploads(link.tenant.as_str(), id, &link.uploads) {
            return Err(InsertLinkError::Store(error));
        }
        if let Some(Err(error)) = workflow {
            return Err(InsertLinkError::Store(error));
        }
        *self = after;
        Ok(())
    }

    fn add_uploads(&mut self, tenant: &str, id: &str, uploads: &Vec<UploadRecord>) -> (r: Result<
        (),
        String,
    >)
        ensures
            match with_uploads(old(self)@, tenant@, id@, uploads.deep_view()) {
                Ok(after) => r is Ok && final(self)@ == after,
                Err(e) => outcome(r) == Err::<(), Seq<char>>(e),
            },
    {
        let ghost before = self@;
        let ghost all = uploads.deep_view();
        let mut i: usize = 0;
        assert(all.take(0) =~= Seq::<UploadRecordView>::empty());
        while i < uploads.len()
            invariant
                i <= uploads.len(),
                all == uploads.deep_view(),
                before == old(self)@,
                with_uploads(before, tenant@, id@, all.take(i as int)) == Ok::<
                    StoreView,
                    Seq<char>,
                >(self@),
            decreases uploads.len() - i,
        {
            proof {
                assert(all.take(i + 1).drop_last() =~= all.take(i as int));
                assert(all.take(i + 1).last() == uploads@[i as int]@);
            }
            if let Some(error) = self.check_upload(id, &uploads[i]) {
                proof {
                    lemma_uploads_refused(before, tenant@, id@, all, i + 1);
                }
                return Err(error);
            }
            self.add_upload(tenant, id, &uploads[i]);
            i += 1;
        }
        assert(all.take(i as int) =~= all);
        Ok(())
    }

    /// Rewrites a link's policy and events, as `link` gives them.
    pub fn write_link(&mut self, id: &str, link: &Link) -> (r: Result<bool, String>)
        ensures
            follows(rewritten(old(self)@, id@, link@), old(self)@, final(self)@, r),
    {
        let paired = |e: &TradeEndpointRow| -> (b: bool)
            ensures
                b == endpoint_is(id@)(e@),
        {
            same(e.id.as_str(), id)
        };
        if link.password_hash.is_some() && exists_where(
            &self.trade_endpoints,
            paired,
            Ghost(endpoint_is(id@)),
        ) {
            return Err(
                "paired receiving endpoints use route credentials; manage permissions in Trade routes".to_owned(),
            );
        }
        let row = link_params(link);
        let hit = |l: &LinkRow| -> (b: bool)
            ensures
                b == link_is(link.tenant@, link.id@)(l@),
        {
            same(l.tenant.as_str(), link.tenant.as_str()) && same(l.id.as_str(), link.id.as_str())
        };
        let change = |l: &LinkRow| -> (r: LinkRow)
            ensures
                r@ == becomes(row@)(l@),
        {
            row.dup()
        };
        update_where(
            &mut self.links,
            hit,
            change,
            Ghost(link_is(link.tenant@, link.id@)),
            Ghost(becomes(row@)),
        );
        Ok(true)
    }

    /// Changes a link's policy and events by `mutate`; reports whether the
    /// tenant has the link.
    pub fn update_link<F: FnOnce(Link) -> Link>(&mut self, tenant: &str, id: &str, mutate: F) -> (r: Result<
        bool,
        String,
    >)
        requires
            forall|l: Link| mutate.requires((l,)),
        ensures
            match first(old(self)@.links, link_is(tenant@, id@)) {
                None => final(self)@ == old(self)@ && outcome(r) == Ok::<bool, Seq<char>>(false),
                Some(row) => match policy_of()(row) {
                    Err(e) => final(self)@ == old(self)@ && outcome(r) == Err::<bool, Seq<char>>(e),
                    Ok(policy) => exists|was: Link, now: Link|
                        #[trigger] mutate.ensures((was,), now) && was@ == policy && follows(
                            rewritten(old(self)@, id@, now@),
                            old(self)@,
                            final(self)@,
                            r,
                        ),
                },
            },
    {
        let link = match self.link_metadata(tenant, id) {
            Ok(Some(link)) => link,
            Ok(None) => {
                return Ok(false);
            },
            Err(error) => {
                return Err(error);
            },
        };
        let ghost was = link;
        let now = mutate(link);
        assert(mutate.ensures((was,), now));
        self.write_link(id, &now)
    }

    /// Removes an upload; reports whether there was one. `pending` tells whether
    /// workflows still need the link's history.
    pub fn remove_upload(&mut self, tenant: &str, id: &str, upload_id: &str, pending: bool) -> (r: Result<
        bool,
        String,
    >)
        ensures
            follows(
                without_upload(old(self)@, tenant@, id@, upload_id@, pending),
                old(self)@,
                final(self)@,
                r,
            ),
    {
        if pending {
            return Err(
                "incoming workflows still use this history; wait for their deliveries to be archived before deleting it".to_owned(),
            );
        }
        let hit = |u: &UploadRow| -> (b: bool)
            ensures
                b == upload_is(tenant@, id@, upload_id@)(u@),
        {
            same(u.tenant.as_str(), tenant) && same(u.link_id.as_str(), id) && same(
                u.upload_id.as_str(),
                upload_id,
            )
        };
        if !self.has_link(tenant, id) || !exists_where(
            &self.uploads,
            hit,
            Ghost(upload_is(tenant@, id@, upload_id@)),
        ) {
            return Ok(false);
        }
        delete_where(
            &mut self.uploads,
            hit,
            Ghost(upload_is(tenant@, id@, upload_id@)),
            Ghost(other_upload(tenant@, id@, upload_id@)),
        );
        let gone = |f: &FileRow| -> (b: bool)
            ensures
                b == in_upload(tenant@, id@, upload_id@)(f@),
        {
            same(f.tenant.as_str(), tenant) && same(f.link_id.as_str(), id) && same(
                f.upload_id.as_str(),
                upload_id,
            )
        };
        delete_files(
            &mut self.files,
            &mut self.quotas,
            gone,
            Ghost(in_upload(tenant@, id@, upload_id@)),
            Ghost(not_in_upload(tenant@, id@, upload_id@)),
        );
        Ok(true)
    }

    /// Marks the files under `stored_paths` as deleted in every record of a
    /// link; reports whether the tenant has the link.
    pub fn tombstone_files(&mut self, tenant: &str, id: &str, stored_paths: &[String]) -> (r: Result<
        bool,
        String,
    >)
        ensures
            follows(
                buried(old(self)@, tenant@, id@, texts(stored_paths@)),
                old(self)@,
                final(self)@,
                r,
            ),
    {
        match self.link_metadata(tenant, id) {
            Ok(Some(_)) => {},
            Ok(None) => {
                return Ok(false);
            },
            Err(error) => {
                return Err(error);
            },
        }
        let ghost files = self@.files;
        let ghost quotas = self@.quotas;
        let ghost before = self@;
        let ghost all = texts(stored_paths@);
        let mut i: usize = 0;
        assert(all.take(0) =~= Seq::<Seq<char>>::empty());
        while i < stored_paths.len()
            invariant
                i <= stored_paths.len(),
                all == texts(stored_paths@),
                self@ == (StoreView {
                    files: buried_files(files, tenant@, id@, all.take(i as int)),
                    quotas: buried_quotas(quotas, files, tenant@, id@, all.take(i as int)),
                    ..before
                }),
            decreases stored_paths.len() - i,
        {
            let path = stored_paths[i].as_str();
            proof {
                assert(all.take(i + 1).drop_last() =~= all.take(i as int));
                assert(all.take(i + 1).last() == path@);
            }
            let hit = |f: &FileRow| -> (b: bool)
                ensures
                    b == stored_at(tenant@, id@, path@)(f@),
            {
                same(f.tenant.as_str(), tenant) && same(f.link_id.as_str(), id) && same(
                    f.stored_as.as_str(),
                    path,
                ) && !f.deleted
            };
            let change = |f: &FileRow| -> (r: FileRow)
                ensures
                    r@ == tombstoned()(f@),
            {
                let mut f = f.dup();
                f.deleted = true;
                f
            };
            change_files(
                &mut self.files,
                &mut self.quotas,
                hit,
                change,
                Ghost(stored_at(tenant@, id@, path@)),
                Ghost(tombstoned()),
            );
            i += 1;
        }
        assert(all.take(i as int) =~= all);
        Ok(true)
    }

    /// Removes a link with its history; reports whether there was one.
    /// `pending` tells whether workflows still need it.
    pub fn remove_link(&mut self, tenant: &str, id: &str, pending: bool) -> (r: Result<bool, String>)
        ensures
            follows(
                without_link(old(self)@, tenant@, id@, pending),
                old(self)@,
                final(self)@,
                r,
            ),
    {
        if pending {
            return Err(
                "incoming workflows still use this request; wait for their deliveries to be archived before deleting it".to_owned(),
            );
        }
        let live = |r: &TradeRouteRow| -> (b: bool)
            ensures
                b == enrolled(tenant@, id@)(r@),
        {
            same(r.tenant.as_str(), tenant) && same(r.endpoint.as_str(), id) && same(
                r.direction.as_str(),
                "incoming",
            ) && match &r.state {
                Some(state) => !same(state.as_str(), "revoked"),
                None => false,
            }
        };
        if exists_where(&self.trade_routes, live, Ghost(enrolled(tenant@, id@))) {
            return Err(
                "trade routes still deliver to this request; revoke them under Trade routes before deleting it".to_owned(),
            );
        }
        self.remove_trade(tenant, id);
        let there = self.has_link(tenant, id);
        if there {
            let gone = |f: &FileRow| -> (b: bool)
                ensures
                    b == in_link(id@)(f@),
            {
                same(f.link_id.as_str(), id)
            };
            delete_files(
                &mut self.files,
                &mut self.quotas,
                gone,
                Ghost(in_link(id@)),
                Ghost(not_in_link(id@)),
            );
        }
        let history = |u: &UploadRow| -> (b: bool)
            ensures
                b == upload_in(tenant@, id@)(u@),
        {
            same(u.tenant.as_str(), tenant) && same(u.link_id.as_str(), id)
        };
        delete_where(
            &mut self.uploads,
            history,
            Ghost(upload_in(tenant@, id@)),
            Ghost(not_upload_in(tenant@, id@)),
        );
        let hit = |l: &LinkRow| -> (b: bool)
            ensures
                b == link_is(tenant@, id@)(l@),
        {
            same(l.tenant.as_str(), tenant) && same(l.id.as_str(), id)
        };
        delete_where(
            &mut self.links,
            hit,
            Ghost(link_is(tenant@, id@)),
            Ghost(not_link(tenant@, id@)),
        );
        Ok(there)
    }

    /// Removes what the trade tables hold of a link.
    fn remove_trade(&mut self, tenant: &str, id: &str)
        ensures
            final(self)@ == (StoreView {
                trade_rotations: old(self)@.trade_rotations.filter(
                    unrelated_rotation(old(self)@.trade_routes, tenant@, id@),
                ),
                trade_routes: old(self)@.trade_routes.filter(not_incoming_route(tenant@, id@)),
                trade_invitations: old(self)@.trade_invitations.filter(
                    not_invitation_to(tenant@, id@),
                ),
                trade_endpoints: old(self)@.trade_endpoints.filter(not_endpoint_of(tenant@, id@)),
                ..old(self)@
            }),
    {
        let routes = &self.trade_routes;
        let rotation = |route: &String| -> (b: bool)
            ensures
                b == related_rotation(routes.deep_view(), tenant@, id@)(route@),
        {
            let named = |r: &TradeRouteRow| -> (b: bool)
                ensures
                    b == route_named(tenant@, id@, route@)(r@),
            {
                same(r.tenant.as_str(), tenant) && same(r.endpoint.as_str(), id) && same(
                    r.id.as_str(),
                    route.as_str(),
                )
            };
            exists_where(routes, named, Ghost(route_named(tenant@, id@, route@)))
        };
        delete_where(
            &mut self.trade_rotations,
            rotation,
            Ghost(related_rotation(routes.deep_view(), tenant@, id@)),
            Ghost(unrelated_rotation(routes.deep_view(), tenant@, id@)),
        );
        let incoming = |r: &TradeRouteRow| -> (b: bool)
            ensures
                b == incoming_route(tenant@, id@)(r@),
        {
            same(r.tenant.as_str(), tenant) && same(r.endpoint.as_str(), id) && same(
                r.direction.as_str(),
                "incoming",
            )
        };
        delete_where(
            &mut self.trade_routes,
            incoming,
            Ghost(incoming_route(tenant@, id@)),
            Ghost(not_incoming_route(tenant@, id@)),
        );
        let invitation = |i: &TradeInvitationRow| -> (b: bool)
            ensures
                b == invitation_to(tenant@, id@)(i@),
        {
            same(i.tenant.as_str(), tenant) && same(i.endpoint.as_str(), id)
        };
        delete_where(
            &mut self.trade_invitations,
            invitation,
            Ghost(invitation_to(tenant@, id@)),
            Ghost(not_invitation_to(tenant@, id@)),
        );
        let endpoint = |e: &TradeEndpointRow| -> (b: bool)
            ensures
                b == endpoint_of(tenant@, id@)(e@),
        {
            same(e.tenant.as_str(), tenant) && same(e.id.as_str(), id)
        };
        delete_where(
            &mut self.trade_endpoints,
            endpoint,
            Ghost(endpoint_of(tenant@, id@)),
            Ghost(not_endpoint_of(tenant@, id@)),
        );
    }
}

} // verus!
