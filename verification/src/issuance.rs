//! Issuing grants, and the tokens that programs issue them with.
use vstd::prelude::*;

use crate::automation::{
    authenticated, by_row, delivered_by, deliveries, delivery_of, older_token, operation_of,
    operation_on, revocable, revoked_token, token_in, token_is, token_of, token_with, used,
    valid_token, with_token,
};
use crate::columns::{column, wrapped};
use crate::downloads::{grant_is, in_range};
use crate::grants::grant_with;
use crate::issue::{
    GrantChecks, acting_token, delivery_entries, digest_of, issued, job_override, offered_names,
    operation_for, operation_ids, operation_is, override_of,
};
use crate::lifecycle::job_in;
use crate::records::{AutomationOperationView, AutomationTokenView, OutboundGrantView};
use crate::rows::{
    AutomationTokenRowView, DigestRowView, GrantFileRowView, GrantRowView, JobRowView,
    OperationRowView, OverrideRowView,
};
use crate::selection::{lemma_changed, lemma_found, lemma_ordered, lemma_paged, lemma_selected};
use crate::store::StoreView;
use crate::table::{any, first, greatest, page, sorted_by, try_map, updated};

verus! {

// -------------------------------------------------------------------- tokens
/// Whether a program's token is good at a time: not revoked, and before its end.
pub open spec fn is_good(t: AutomationTokenRowView, at: i64) -> bool {
    t.revoked_at is None && at < t.expires_at
}

/// Whether a token is told as it is recorded.
pub open spec fn token_told(t: AutomationTokenRowView, r: AutomationTokenView) -> bool {
    &&& r.id == t.id && r.token_hash == t.token_hash && r.tenant == t.tenant && r.label == t.label
    &&& r.directory == t.directory && r.permissions == t.permissions
    &&& t.created_at >= 0 ==> r.created_at == t.created_at
    &&& t.expires_at >= 0 ==> r.expires_at == t.expires_at
    &&& t.revoked_at is None ==> r.revoked_at is None
    &&& t.revoked_at is Some && t.revoked_at->0 >= 0 ==> r.revoked_at == Some(t.revoked_at->0 as u64)
}

/// A token authenticates exactly while it is good, and its use is noted; nothing else changes.
pub proof fn good_tokens_authenticate(s: StoreView, hash: Seq<char>, at: u64)
    requires
        at <= i64::MAX,
        forall|t: AutomationTokenRowView| #[trigger]
            s.tokens.contains(t) ==> t.permissions_error is None,
    ensures
        ({
            let (after, r) = authenticated(s, hash, column(at));
            &&& r is Ok
            &&& r->Ok_0 is Some <==> exists|t: AutomationTokenRowView| #[trigger]
                s.tokens.contains(t) && t.token_hash == hash && is_good(t, column(at))
            &&& r->Ok_0 matches Some(token) ==> token.last_used_at == Some(at) && exists|
                t: AutomationTokenRowView,
            | #[trigger]
                s.tokens.contains(t) && t.token_hash == hash && is_good(t, column(at))
                    && token_told(t, token)
            &&& after == StoreView { tokens: after.tokens, ..s }
            &&& after.tokens.len() == s.tokens.len()
            &&& forall|i: int|
                0 <= i < s.tokens.len() ==> #[trigger] after.tokens[i] == if s.tokens[i].token_hash
                    == hash && is_good(s.tokens[i], column(at)) {
                    AutomationTokenRowView { last_used_at: Some(at as i64), ..s.tokens[i] }
                } else {
                    s.tokens[i]
                }
        }),
{
    let p = valid_token(hash, column(at));
    lemma_found(s.tokens, p);
    lemma_changed(s.tokens, p, used(column(at)));
    if let Some(t) = first(s.tokens, p) {
        assert(token_told(t, token_of()(used(column(at))(t))->Ok_0));
    }
}

/// A token is inserted as it is given, unless its id or its digest is taken.
pub proof fn tokens_are_inserted_once(s: StoreView, t: AutomationTokenView)
    ensures
        ({
            let taken = exists|o: AutomationTokenRowView| #[trigger]
                s.tokens.contains(o) && (o.id == t.id || o.token_hash == t.token_hash);
            match with_token(s, t) {
                Err(_) => taken,
                Ok((after, _)) => {
                    &&& !taken
                    &&& after == StoreView { tokens: after.tokens, ..s }
                    &&& after.tokens.len() == s.tokens.len() + 1
                    &&& after.tokens.take(s.tokens.len() as int) == s.tokens
                    &&& after.tokens.last().id == t.id && after.tokens.last().token_hash
                        == t.token_hash && after.tokens.last().tenant == t.tenant
                        && after.tokens.last().permissions == t.permissions
                        && after.tokens.last().directory == t.directory
                    &&& after.tokens.last().revoked_at is None <==> t.revoked_at is None
                    &&& t.expires_at <= i64::MAX ==> after.tokens.last().expires_at == t.expires_at
                },
            }
        }),
{
    lemma_found(s.tokens, token_is(t.id));
    lemma_found(s.tokens, token_with(t.token_hash));
    if let Ok((after, _)) = with_token(s, t) {
        assert(after.tokens.take(s.tokens.len() as int) =~= s.tokens);
    }
}

/// The store after a token of a tenant was revoked.
pub open spec fn with_token_revoked(s: StoreView, tenant: Seq<char>, id: Seq<char>, at: i64) -> StoreView {
    StoreView { tokens: updated(s.tokens, revocable(tenant, id), revoked_token(at)), ..s }
}

/// Revoking marks the tenant's token of that id with the time, unless it was revoked before,
/// and no other; it never authenticates again. It reports whether there was one.
pub proof fn revoked_tokens_are_over(
    s: StoreView,
    tenant: Seq<char>,
    id: Seq<char>,
    at: i64,
    later: i64,
)
    ensures
        ({
            let after = with_token_revoked(s, tenant, id, at);
            &&& after.tokens.len() == s.tokens.len()
            &&& forall|i: int|
                0 <= i < s.tokens.len() ==> #[trigger] after.tokens[i] == if s.tokens[i].tenant
                    == tenant && s.tokens[i].id == id && s.tokens[i].revoked_at is None {
                    AutomationTokenRowView { revoked_at: Some(at), ..s.tokens[i] }
                } else {
                    s.tokens[i]
                }
            &&& forall|i: int|
                0 <= i < after.tokens.len() && (#[trigger] after.tokens[i]).id == id
                    && after.tokens[i].tenant == tenant ==> !valid_token(
                    after.tokens[i].token_hash,
                    later,
                )(after.tokens[i])
        }),
        any(s.tokens, revocable(tenant, id)) <==> exists|t: AutomationTokenRowView| #[trigger]
            s.tokens.contains(t) && t.tenant == tenant && t.id == id && t.revoked_at is None,
{
    lemma_changed(s.tokens, revocable(tenant, id), revoked_token(at));
    lemma_found(s.tokens, revocable(tenant, id));
}

/// The tokens that are listed of a tenant are all of that tenant and no others, older first,
/// each as it is recorded.
pub proof fn tenants_see_their_tokens(s: StoreView, tenant: Seq<char>)
    ensures
        try_map(sorted_by(s.tokens.filter(token_in(tenant)), older_token()), token_of())
            matches Ok(list) ==> {
            &&& forall|r: AutomationTokenView| #[trigger]
                list.contains(r) ==> exists|t: AutomationTokenRowView| #[trigger]
                    s.tokens.contains(t) && t.tenant == tenant && token_told(t, r)
            &&& forall|t: AutomationTokenRowView| #[trigger]
                s.tokens.contains(t) && t.tenant == tenant ==> exists|r: AutomationTokenView|
                 #[trigger]
                    list.contains(r) && token_told(t, r)
            &&& list.len() == s.tokens.filter(
                |t: AutomationTokenRowView| t.tenant == tenant,
            ).len()
        },
{
    let own = token_in(tenant);
    let all = sorted_by(s.tokens.filter(own), older_token());
    let n = all.len() as int;
    lemma_ordered(s.tokens.filter(own), older_token());
    lemma_paged(all, 0, n);
    crate::selection::lemma_listed(s.tokens, own, older_token(), 0, n, token_of());
    crate::selection::lemma_counted(
        s.tokens,
        own,
        |t: AutomationTokenRowView| t.tenant == tenant,
    );
    if let Ok(list) = try_map(all, token_of()) {
        assert forall|r: AutomationTokenView| #[trigger] list.contains(r) implies exists|
            t: AutomationTokenRowView,
        | #[trigger] s.tokens.contains(t) && t.tenant == tenant && token_told(t, r) by {
            let t = choose|t: AutomationTokenRowView| #[trigger]
                s.tokens.contains(t) && own(t) && token_of()(t) == Ok::<
                    AutomationTokenView,
                    Seq<char>,
                >(r);
            assert(token_told(t, r));
        }
        assert forall|t: AutomationTokenRowView| #[trigger]
            s.tokens.contains(t) && t.tenant == tenant implies exists|r: AutomationTokenView|
         #[trigger]
            list.contains(r) && token_told(t, r) by {
            assert(own(t));
            assert(list.contains(token_of()(t)->Ok_0));
        }
    }
}

// -------------------------------------------------------------------- grants
/// Whether something is in the way of a grant: its id, its digest, its files or its delivery
/// digest are taken.
pub open spec fn in_the_way(s: StoreView, g: OutboundGrantView) -> bool {
    ||| exists|o: GrantRowView| #[trigger]
        s.grants.contains(o) && (o.id == g.id || o.token_hash == g.token_hash)
    ||| exists|f: GrantFileRowView| #[trigger]
        s.grant_files.contains(f) && f.grant_id == g.id && 0 <= f.file_index < g.files.len()
    ||| exists|d: DigestRowView| #[trigger] s.digests.contains(d) && d.grant_id == g.id
}

/// Whether an operation may be recorded for a grant: its token is good, it was not recorded
/// before, no other is recorded for the grant, and there is a number left for it.
pub open spec fn may_operate(
    s: StoreView,
    o: AutomationOperationView,
    grant_id: Seq<char>,
    now: u64,
) -> bool {
    &&& exists|t: AutomationTokenRowView| #[trigger]
        s.tokens.contains(t) && t.id == o.token_id && is_good(t, wrapped(now))
    &&& forall|x: OperationRowView| #[trigger]
        s.operations.contains(x) ==> !(x.token_id == o.token_id && x.operation_id
            == o.operation_id) && x.grant_id != grant_id && x.rowid < i64::MAX
}

/// A grant is issued exactly if the checks pass, the token that it is shared under is its own,
/// nothing is in the way, and the operation that asks for it, if there is one, may be
/// recorded. It is then the last of the grants, its files and the digest of its delivery are
/// there, the operation is recorded, and nothing else changes.
pub proof fn grants_are_issued_when_they_may(
    s: StoreView,
    g: OutboundGrantView,
    operation: Option<AutomationOperationView>,
    share: Option<(Seq<char>, Seq<char>)>,
    checks: GrantChecks,
    now: u64,
)
    requires
        g.files.len() <= i64::MAX,
        forall|o: OverrideRowView| #[trigger]
            s.notification_overrides.contains(o) ==> o.document_error is None,
    ensures
        ({
            let may = {
                &&& share is Some ==> (share->0).1 == g.token_hash
                &&& checks.names is Ok && checks.creation is Ok
                &&& checks.finished is Some ==> checks.finished->0 is Ok
                &&& !in_the_way(s, g)
                &&& operation is Some ==> may_operate(s, operation->0, g.id, now)
            };
            match issued(s, g, operation, share, checks, now) {
                Err(_) => !may,
                Ok((after, _)) => {
                    &&& may
                    &&& after.grants.len() == s.grants.len() + 1
                    &&& after.grants.take(s.grants.len() as int) == s.grants
                    &&& issued_as(g, after.grants.last())
                    &&& after.grants.last().share_token == if share is Some && checks.finished
                        is None {
                        Some((share->0).0)
                    } else {
                        None
                    }
                    &&& (forall|j: JobRowView| #[trigger]
                        s.jobs.contains(j) ==> !(j.id == g.id && j.tenant == g.tenant))
                        ==> after.grants.last().notifications == g.notifications
                    &&& after.grant_files.len() == s.grant_files.len() + g.files.len()
                    &&& after.grant_files.take(s.grant_files.len() as int) == s.grant_files
                    &&& forall|i: int|
                        0 <= i < g.files.len() ==> {
                            let f = #[trigger] after.grant_files[s.grant_files.len() + i];
                            &&& f.grant_id == g.id && f.file_index == i && f.source
                                == g.files[i].source && f.name == g.files[i].name && f.suite
                                == g.files[i].suite && f.root == g.files[i].root
                                && f.receipt_b64 == g.files[i].receipt_b64
                            &&& f.bytes_hi * 0x1_0000_0000 + f.bytes_lo == g.files[i].bytes
                        }
                    &&& after.digests == s.digests.push(
                        DigestRowView { grant_id: g.id, digest: checks.digest@ },
                    )
                    &&& operation is None ==> after.operations == s.operations
                    &&& operation matches Some(o) ==> {
                        &&& after.operations.len() == s.operations.len() + 1
                        &&& after.operations.take(s.operations.len() as int) == s.operations
                        &&& after.operations.last().token_id == o.token_id
                            && after.operations.last().operation_id == o.operation_id
                            && after.operations.last().request_hash == o.request_hash
                            && after.operations.last().grant_id == g.id
                        &&& forall|x: OperationRowView| #[trigger]
                            s.operations.contains(x) ==> x.rowid < after.operations.last().rowid
                    }
                    &&& after == StoreView {
                        grants: after.grants,
                        grant_files: after.grant_files,
                        digests: after.digests,
                        operations: after.operations,
                        ..s
                    }
                },
            }
        }),
{
    lemma_found(s.grants, grant_is(g.id));
    lemma_found(s.grants, grant_with(g.token_hash));
    lemma_found(s.grant_files, in_range(g.id, column(g.files.len() as u64)));
    lemma_found(s.digests, digest_of(g.id));
    lemma_found(s.jobs, job_in(g.tenant, g.id));
    lemma_found(s.notification_overrides, override_of(g.id));
    if let Some(o) = operation {
        lemma_found(s.tokens, acting_token(o.token_id, wrapped(now)));
        lemma_found(s.operations, operation_is(o.token_id, o.operation_id));
        lemma_found(s.operations, operation_for(g.id));
        let ids = operation_ids(s.operations);
        crate::table::lemma_greatest(ids);
        crate::trail::lemma_greatest_is_there(ids);
        assert forall|x: OperationRowView| #[trigger] s.operations.contains(x) implies x.rowid
            <= greatest(ids) by {
            let i = choose|i: int| 0 <= i < s.operations.len() && s.operations[i] == x;
            assert(ids[i] == x.rowid);
        }
        if greatest(ids) == i64::MAX {
            let i = choose|i: int| 0 <= i < ids.len() && ids[i] == greatest(ids);
            assert(s.operations.contains(s.operations[i]));
        }
    }
    if let Ok((after, _)) = issued(s, g, operation, share, checks, now) {
        assert(after.grants.take(s.grants.len() as int) =~= s.grants);
        assert(after.grant_files.take(s.grant_files.len() as int) =~= s.grant_files);
        if operation is Some {
            assert(after.operations.take(s.operations.len() as int) =~= s.operations);
        }
        assert forall|i: int| 0 <= i < g.files.len() implies {
            let f = #[trigger] after.grant_files[s.grant_files.len() + i];
            &&& f.grant_id == g.id && f.file_index == i && f.source == g.files[i].source && f.name
                == g.files[i].name && f.suite == g.files[i].suite && f.root == g.files[i].root
                && f.receipt_b64 == g.files[i].receipt_b64
            &&& f.bytes_hi * 0x1_0000_0000 + f.bytes_lo == g.files[i].bytes
        } by {
            crate::columns::limbs_round_trip(g.files[i].bytes);
        }
        crate::columns::limbs_round_trip(g.bytes);
    }
}

/// Whether a row is that of a grant that was issued.
pub open spec fn issued_as(g: OutboundGrantView, r: GrantRowView) -> bool {
    &&& r.id == g.id && r.token_hash == g.token_hash && r.tenant == g.tenant
    &&& r.password_hash == g.password_hash && r.link_id == g.link_id && r.upload_id == g.upload_id
    &&& r.package_root == g.package_root && r.name == g.name && r.suite == g.suite
    &&& r.root == g.root && r.label == g.label && r.files == g.files
    &&& r.bytes_hi * 0x1_0000_0000 + r.bytes_lo == g.bytes
    &&& g.created_at <= i64::MAX ==> r.created_at == g.created_at
    &&& g.expires_at <= i64::MAX ==> r.expires_at == g.expires_at
    &&& g.downloads <= i64::MAX ==> r.downloads == g.downloads
    &&& r.max_downloads is Some <==> g.max_downloads is Some
    &&& g.max_downloads is Some && g.max_downloads->0 <= i64::MAX ==> r.max_downloads->0
        == g.max_downloads->0
    &&& r.revoked_at is Some <==> g.revoked_at is Some
    &&& r.file_count == if g.files.len() == 0 {
        1
    } else {
        g.files.len() as int
    }
}

/// The policy that was set for a job's delivery takes the place of the grant's own.
pub proof fn job_policies_override(s: StoreView, tenant: Seq<char>, id: Seq<char>)
    ensures
        job_override(s, tenant, id) matches Ok(Some(p)) ==> exists|
            o: OverrideRowView,
            j: JobRowView,
        | #[trigger]
            s.notification_overrides.contains(o) && #[trigger] s.jobs.contains(j) && o.job_id == id
                && o.document == p && j.id == id && j.tenant == tenant,
        (forall|j: JobRowView| #[trigger] s.jobs.contains(j) ==> !(j.id == id && j.tenant == tenant))
            ==> job_override(s, tenant, id) == Ok::<
            Option<crate::records::NotificationPolicyView>,
            Seq<char>,
        >(None),
        forall|o: OverrideRowView, j: JobRowView| #[trigger]
            s.notification_overrides.contains(o) && #[trigger] s.jobs.contains(j) && o.job_id == id
                && j.id == id && j.tenant == tenant ==> job_override(s, tenant, id) != Ok::<
                Option<crate::records::NotificationPolicyView>,
                Seq<char>,
            >(None),
{
    lemma_found(s.jobs, job_in(tenant, id));
    lemma_found(s.notification_overrides, override_of(id));
    if let Ok(Some(p)) = job_override(s, tenant, id) {
        let o = first(s.notification_overrides, override_of(id))->0;
        let j = choose|j: JobRowView| #[trigger] s.jobs.contains(j) && job_in(tenant, id)(j);
        assert(s.notification_overrides.contains(o) && s.jobs.contains(j));
    }
}

/// What a grant offers is each of its files, or itself where it has none.
pub proof fn grants_offer_their_files(g: OutboundGrantView)
    ensures
        g.files.len() == 0 ==> offered_names(g) == seq![g.name] && delivery_entries(g) == seq![
            (g.name, g.suite, g.root, g.bytes),
        ],
        g.files.len() > 0 ==> offered_names(g).len() == g.files.len() && delivery_entries(g).len()
            == g.files.len(),
        forall|i: int|
            0 <= i < g.files.len() ==> #[trigger] offered_names(g)[i] == g.files[i].name,
        forall|i: int|
            0 <= i < g.files.len() ==> #[trigger] delivery_entries(g)[i] == (
                g.files[i].name,
                g.files[i].suite,
                g.files[i].root,
                g.files[i].bytes,
            ),
{
}

// ---------------------------------------------------------------- operations
/// The operation that a token is told of is its own under that id; the delivery that it is
/// told of is that of its own operation on that grant.
pub proof fn tokens_see_their_operations(
    s: StoreView,
    token_id: Seq<char>,
    operation_id: Seq<char>,
    grant_id: Seq<char>,
)
    ensures
        first(s.operations, operation_is(token_id, operation_id)) matches Some(o)
            ==> s.operations.contains(o) && o.token_id == token_id && o.operation_id
            == operation_id && operation_of(o).request_hash == o.request_hash && operation_of(
            o,
        ).grant_id == o.grant_id && operation_of(o).token_id == token_id && operation_of(
            o,
        ).operation_id == operation_id,
        first(s.operations, operation_is(token_id, operation_id)) is None
            ==> forall|o: OperationRowView| #[trigger]
            s.operations.contains(o) ==> o.token_id != token_id || o.operation_id != operation_id,
        first(s.operations, operation_on(token_id, grant_id)) matches Some(o)
            ==> s.operations.contains(o) && o.token_id == token_id && o.grant_id == grant_id,
        first(s.operations, operation_on(token_id, grant_id)) is None
            ==> forall|o: OperationRowView| #[trigger]
            s.operations.contains(o) ==> o.token_id != token_id || o.grant_id != grant_id,
{
    lemma_found(s.operations, operation_is(token_id, operation_id));
    lemma_found(s.operations, operation_on(token_id, grant_id));
}

/// The deliveries of a token behind a number are those of its operations with a higher number
/// whose grant is there, in order, at most as many as asked for; where fewer come, all.
pub proof fn deliveries_go_on_behind_a_number(
    s: StoreView,
    token_id: Seq<char>,
    after: i64,
    limit: usize,
)
    requires
        limit <= i64::MAX,
    ensures
        ({
            let list = deliveries(s, token_id, after, limit);
            &&& list.len() <= limit
            &&& forall|d: (i64, Seq<char>, Seq<char>)| #[trigger]
                list.contains(d) ==> exists|o: OperationRowView, g: GrantRowView| #[trigger]
                    s.operations.contains(o) && #[trigger] s.grants.contains(g) && o.token_id
                        == token_id && o.rowid > after && g.id == o.grant_id && d == (
                        o.rowid,
                        o.grant_id,
                        g.token_hash,
                    )
            &&& forall|i: int|
                0 <= i < list.len() - 1 ==> (#[trigger] list[i]).0 <= list[i + 1].0
            &&& list.len() < limit ==> forall|o: OperationRowView, g: GrantRowView| #[trigger]
                s.operations.contains(o) && #[trigger] s.grants.contains(g) && o.token_id
                    == token_id && o.rowid > after && g.id == o.grant_id ==> exists|i: int|
                    0 <= i < list.len() && (#[trigger] list[i]).0 == o.rowid && list[i].1
                        == o.grant_id
        }),
{
    let p = delivered_by(s.grants, token_id, after);
    let all = sorted_by(s.operations.filter(p), by_row());
    let list = deliveries(s, token_id, after, limit);
    let rows = page(all, 0, limit as int);
    lemma_selected(s.operations, p);
    lemma_ordered(s.operations.filter(p), by_row());
    lemma_paged(all, 0, limit as int);
    crate::table::lemma_sorted_ordered(s.operations.filter(p), by_row());
    assert(list == rows.map_values(delivery_of(s.grants)));
    assert forall|d: (i64, Seq<char>, Seq<char>)| #[trigger] list.contains(d) implies exists|
        o: OperationRowView,
        g: GrantRowView,
    | #[trigger]
        s.operations.contains(o) && #[trigger] s.grants.contains(g) && o.token_id == token_id
            && o.rowid > after && g.id == o.grant_id && d == (o.rowid, o.grant_id, g.token_hash) by {
        let i = choose|i: int| 0 <= i < list.len() && list[i] == d;
        let o = rows[i];
        assert(rows.contains(o));
        assert(all.contains(o));
        assert(s.operations.filter(p).contains(o));
        lemma_found(s.grants, grant_is(o.grant_id));
        let g = first(s.grants, grant_is(o.grant_id))->0;
        assert(s.operations.contains(o) && s.grants.contains(g));
    }
    assert forall|i: int| 0 <= i < list.len() - 1 implies (#[trigger] list[i]).0 <= list[i + 1].0 by {
        assert(rows[i] == all[0 + i] && rows[i + 1] == all[0 + (i + 1)]);
        assert(!by_row()(all[i + 1], all[i]));
    }
    if list.len() < limit {
        assert forall|o: OperationRowView, g: GrantRowView| #[trigger]
            s.operations.contains(o) && #[trigger] s.grants.contains(g) && o.token_id == token_id
                && o.rowid > after && g.id == o.grant_id implies exists|i: int|
            0 <= i < list.len() && (#[trigger] list[i]).0 == o.rowid && list[i].1 == o.grant_id by {
            lemma_found(s.grants, grant_is(o.grant_id));
            assert(grant_is(o.grant_id)(g));
            assert(p(o));
            assert(s.operations.filter(p).contains(o));
            assert(all.contains(o));
            let i = choose|i: int| 0 <= i < all.len() && all[i] == o;
            assert(rows[i] == all[0 + i]);
            assert(list[i].0 == o.rowid);
        }
    }
}

} // verus!
