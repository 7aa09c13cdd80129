//! What is unique stays unique.
use vstd::prelude::*;

use crate::automation::with_token;
use crate::columns::column_or_zero;
use crate::evidence::{evidence_admitted, evidence_by, evidence_on, with_evidence};
use crate::issue::{GrantChecks, issued};
use crate::lifecycle::rotated;
use crate::links::{with_link, with_uploads};
use crate::principals::{newcomer, principal_is, provisioned, provisioning, sign_in};
use crate::records::{
    AutomationOperationView, AutomationTokenView, EvidenceView, LinkView, OutboundGrantView,
    PersistedUploadSessionView, SourceJobView, TenantView, UploadRecordView,
};
use crate::rows::{
    AutomationTokenRowView, EvidenceRowView, GrantRowView, LinkRowView, PrincipalRowView,
    ScimGroupRowView, ScimMemberRowView, SessionRowView, TenantRowView,
};
use crate::scim::{
    group_created, group_replaced, group_taken, joined_by, left_by, member_of_others, membership,
    named_elsewhere, other_membership,
};
use crate::sessions::{admitted_session, unaffected};
use crate::store::StoreView;
use crate::table::{any, count, first};
use crate::tenants::{tenant_alike, tenant_row};
use crate::text::lowercase;
use crate::upgrade::job_converted;

verus! {

/// Whether no two links have the same id.
pub open spec fn links_unique(links: Seq<LinkRowView>) -> bool {
    forall|i: int, j: int|
        0 <= i < j < links.len() ==> (#[trigger] links[i]).id != (#[trigger] links[j]).id
}

/// Whether no two grants have the same id or are found under the same token.
pub open spec fn grants_unique(grants: Seq<GrantRowView>) -> bool {
    forall|i: int, j: int|
        0 <= i < j < grants.len() ==> (#[trigger] grants[i]).id != (#[trigger] grants[j]).id
            && grants[i].token_hash != grants[j].token_hash
}

/// Whether no two automation tokens have the same id or are found under the same
/// digest.
pub open spec fn tokens_unique(tokens: Seq<AutomationTokenRowView>) -> bool {
    forall|i: int, j: int|
        0 <= i < j < tokens.len() ==> (#[trigger] tokens[i]).id != (#[trigger] tokens[j]).id
            && tokens[i].token_hash != tokens[j].token_hash
}

proof fn lemma_uploads_keep_links(
    s: StoreView,
    tenant: Seq<char>,
    link_id: Seq<char>,
    uploads: Seq<UploadRecordView>,
)
    ensures
        with_uploads(s, tenant, link_id, uploads) matches Ok(after) ==> after.links == s.links,
    decreases uploads.len(),
{
    if uploads.len() > 0 {
        lemma_uploads_keep_links(s, tenant, link_id, uploads.drop_last());
    }
}

/// A new link leaves ids unique.
pub proof fn new_links_are_unique(s: StoreView, l: LinkView, workflow: Option<Result<(), String>>)
    requires
        links_unique(s.links),
    ensures
        with_link(s, l, workflow) matches Ok(after) ==> links_unique(after.links),
{
    if let Ok(after) = with_link(s, l, workflow) {
        let row = crate::links::link_row(l);
        lemma_uploads_keep_links(
            StoreView { links: s.links.push(row), ..s },
            l.tenant,
            l.id,
            l.uploads,
        );
        assert forall|i: int, j: int|
            0 <= i < j < after.links.len() implies (#[trigger] after.links[i]).id != (
        #[trigger] after.links[j]).id by {
            assert(after.links[i] == s.links[i]);
            if j == s.links.len() {
                assert(!crate::links::link_named(l.id)(s.links[i]));
            } else {
                assert(after.links[j] == s.links[j]);
            }
        }
    }
}

/// A new grant leaves ids and tokens unique.
pub proof fn issued_grants_are_unique(
    s: StoreView,
    g: OutboundGrantView,
    operation: Option<AutomationOperationView>,
    share: Option<(Seq<char>, Seq<char>)>,
    checks: GrantChecks,
    now: u64,
)
    requires
        grants_unique(s.grants),
    ensures
        issued(s, g, operation, share, checks, now) matches Ok((after, _)) ==> grants_unique(
            after.grants,
        ),
{
    if let Ok((after, _)) = issued(s, g, operation, share, checks, now) {
        let n = s.grants.len() as int;
        assert forall|i: int, j: int|
            0 <= i < j < after.grants.len() implies (#[trigger] after.grants[i]).id != (
        #[trigger] after.grants[j]).id && after.grants[i].token_hash
            != after.grants[j].token_hash by {
            assert(after.grants[i] == s.grants[i]);
            if j == n {
                assert(!crate::downloads::grant_is(g.id)(s.grants[i]));
                assert(!crate::grants::grant_with(g.token_hash)(s.grants[i]));
            } else {
                assert(after.grants[j] == s.grants[j]);
            }
        }
    }
}

/// A rotated token leaves the grants' ids and tokens unique.
pub proof fn rotated_grants_are_unique(
    s: StoreView,
    tenant: Seq<char>,
    id: Seq<char>,
    token: Seq<char>,
    hash: Seq<char>,
)
    requires
        grants_unique(s.grants),
    ensures
        rotated(s, tenant, id, token, hash) matches Ok((after, _)) ==> grants_unique(after.grants),
{
    if let Ok((after, true)) = rotated(s, tenant, id, token, hash) {
        assert forall|a: int, b: int|
            0 <= a < b < after.grants.len() implies (#[trigger] after.grants[a]).id != (
        #[trigger] after.grants[b]).id && after.grants[a].token_hash
            != after.grants[b].token_hash by {
            assert(s.grants[a].id != s.grants[b].id);
            let p = crate::lifecycle::other_with(tenant, id, hash);
            assert(!p(s.grants[a]));
            assert(!p(s.grants[b]));
        }
    }
}

/// A new automation token leaves ids and digests unique.
pub proof fn inserted_tokens_are_unique(s: StoreView, t: AutomationTokenView)
    requires
        tokens_unique(s.tokens),
    ensures
        with_token(s, t) matches Ok((after, _)) ==> tokens_unique(after.tokens),
{
    if let Ok((after, _)) = with_token(s, t) {
        assert forall|i: int, j: int|
            0 <= i < j < after.tokens.len() implies (#[trigger] after.tokens[i]).id != (
        #[trigger] after.tokens[j]).id && after.tokens[i].token_hash
            != after.tokens[j].token_hash by {
            assert(after.tokens[i] == s.tokens[i]);
            if j == s.tokens.len() {
                assert(!crate::automation::token_is(t.id)(s.tokens[i]));
                assert(!crate::automation::token_with(t.token_hash)(s.tokens[i]));
            } else {
                assert(after.tokens[j] == s.tokens[j]);
            }
        }
    }
}

/// A converted job leaves the grants' ids and tokens unique.
pub proof fn converted_grants_are_unique(
    s: StoreView,
    j: SourceJobView,
    issuer: Seq<char>,
    now: u64,
    signature: Seq<char>,
)
    requires
        grants_unique(s.grants),
    ensures
        job_converted(s, j, issuer, now, signature) matches Ok((after, _)) ==> grants_unique(
            after.grants,
        ),
{
    if let Ok((after, Some(_))) = job_converted(s, j, issuer, now, signature) {
        assert forall|a: int, b: int|
            0 <= a < b < after.grants.len() implies (#[trigger] after.grants[a]).id != (
        #[trigger] after.grants[b]).id && after.grants[a].token_hash
            != after.grants[b].token_hash by {
            assert(s.grants[a].id != s.grants[b].id);
            let p = crate::upgrade::other_with(j.id, j.token_hash);
            assert(!p(s.grants[a]));
            assert(!p(s.grants[b]));
        }
    }
}

/// Whether each device that accepted a delivery had verified it.
pub open spec fn acceptance_verified(rows: Seq<EvidenceRowView>) -> bool {
    forall|i: int|
        0 <= i < rows.len() && (#[trigger] rows[i]).kind == "accepted"@ ==> any(
            rows,
            evidence_by(rows[i].grant_id, rows[i].holder, "verified"@),
        )
}

/// Recorded evidence keeps its order: whoever accepts has verified; and no
/// delivery has more than two thousand reports.
pub proof fn evidence_keeps_its_order(s: StoreView, e: EvidenceView, now: u64)
    requires
        acceptance_verified(s.evidence),
        evidence_admitted(s, e) == Ok::<bool, Seq<char>>(true),
    ensures
        acceptance_verified(with_evidence(s, e, now).evidence),
        count(with_evidence(s, e, now).evidence, evidence_on(e.grant_id)) <= 2000,
{
    let rows = with_evidence(s, e, now).evidence;
    crate::table::lemma_filter_push(s.evidence, rows.last(), evidence_on(e.grant_id));
    reveal_strlit("accepted");
    reveal_strlit("verified");
    assert("accepted"@[0] != "verified"@[0]);
    assert forall|i: int|
        0 <= i < rows.len() && (#[trigger] rows[i]).kind == "accepted"@ implies any(
        rows,
        evidence_by(rows[i].grant_id, rows[i].holder, "verified"@),
    ) by {
        let p = evidence_by(rows[i].grant_id, rows[i].holder, "verified"@);
        if i < s.evidence.len() {
            assert(rows[i] == s.evidence[i]);
        }
        let k = choose|k: int| 0 <= k < s.evidence.len() && p(#[trigger] s.evidence[k]);
        assert(rows[k] == s.evidence[k]);
        assert(p(rows[k]));
    }
}

/// Whether no two tenants have keys that differ only by the case of their letters.
pub open spec fn tenants_unlike(tenants: Seq<TenantRowView>) -> bool {
    forall|i: int, j: int|
        0 <= i < j < tenants.len() ==> lowercase((#[trigger] tenants[i]).key) != lowercase(
            (#[trigger] tenants[j]).key,
        )
}

/// A new tenant's key differs from every other by more than the case of its letters.
pub proof fn new_tenants_are_unlike(
    tenants: Seq<TenantRowView>,
    t: TenantView,
    incarnation: Seq<char>,
)
    requires
        tenants_unlike(tenants),
        !any(tenants, tenant_alike(t.key)),
    ensures
        tenants_unlike(tenants.push(tenant_row(t, incarnation))),
{
    let after = tenants.push(tenant_row(t, incarnation));
    assert forall|i: int, j: int| 0 <= i < j < after.len() implies lowercase(
        (#[trigger] after[i]).key,
    ) != lowercase((#[trigger] after[j]).key) by {
        assert(after[i] == tenants[i]);
        if j == tenants.len() {
            assert(!tenant_alike(t.key)(tenants[i]));
        } else {
            assert(after[j] == tenants[j]);
        }
    }
}

/// Whether no two groups have the same id or name.
pub open spec fn groups_unique(groups: Seq<ScimGroupRowView>) -> bool {
    forall|i: int, j: int|
        0 <= i < j < groups.len() ==> (#[trigger] groups[i]).id != (#[trigger] groups[j]).id
            && groups[i].display_name != groups[j].display_name
}

proof fn lemma_joining(members: Seq<ScimMemberRowView>, id: Seq<char>, subjects: Seq<Seq<char>>)
    requires
        members.no_duplicates(),
    ensures
        joined_by(members, id, subjects).no_duplicates(),
    decreases subjects.len(),
{
    if subjects.len() > 0 {
        lemma_joining(members, id, subjects.drop_last());
        let before = joined_by(members, id, subjects.drop_last());
        let p = membership(id, subjects.last());
        if !any(before, p) {
            let row = ScimMemberRowView { group_id: id, subject: subjects.last() };
            assert forall|i: int| 0 <= i < before.len() implies before[i] != row by {
                assert(!p(before[i]));
            }
        }
    }
}

/// A relation that holds of any two rows in their order holds of any two of a selection.
pub proof fn lemma_filter_pairs<V>(s: Seq<V>, p: spec_fn(V) -> bool, r: spec_fn(V, V) -> bool)
    requires
        forall|i: int, j: int| 0 <= i < j < s.len() ==> r(#[trigger] s[i], #[trigger] s[j]),
    ensures
        forall|i: int, j: int|
            0 <= i < j < s.filter(p).len() ==> r(
                #[trigger] s.filter(p)[i],
                #[trigger] s.filter(p)[j],
            ),
    decreases s.len(),
{
    if s.len() > 0 {
        let head = s.drop_last();
        assert forall|i: int, j: int| 0 <= i < j < head.len() implies r(
            #[trigger] head[i],
            #[trigger] head[j],
        ) by {
            assert(r(s[i], s[j]));
        }
        lemma_filter_pairs(head, p, r);
        assert(s =~= head.push(s.last()));
        crate::table::lemma_filter_push(head, s.last(), p);
        crate::table::lemma_filter_any_of(head, p);
        let kept = s.filter(p);
        assert forall|i: int, j: int| 0 <= i < j < kept.len() implies r(
            #[trigger] kept[i],
            #[trigger] kept[j],
        ) by {
            if j == head.filter(p).len() {
                assert(kept[i] == head.filter(p)[i]);
                let k = choose|k: int| 0 <= k < head.len() && head[k] == kept[i];
                assert(r(s[k], s[s.len() - 1]));
            } else {
                assert(r(head.filter(p)[i], head.filter(p)[j]));
            }
        }
    } else {
        reveal(Seq::filter);
    }
}

proof fn lemma_filter_distinct<V>(s: Seq<V>, p: spec_fn(V) -> bool)
    requires
        s.no_duplicates(),
    ensures
        s.filter(p).no_duplicates(),
{
    lemma_filter_pairs(s, p, |a: V, b: V| a != b);
    let kept = s.filter(p);
    assert forall|i: int, j: int| 0 <= i < kept.len() && 0 <= j < kept.len() && i != j implies kept[i]
        != kept[j] by {
        if i < j {
            assert((|a: V, b: V| a != b)(kept[i], kept[j]));
        } else {
            assert((|a: V, b: V| a != b)(kept[j], kept[i]));
        }
    }
}

proof fn lemma_leaving(members: Seq<ScimMemberRowView>, id: Seq<char>, subjects: Seq<Seq<char>>)
    requires
        members.no_duplicates(),
    ensures
        left_by(members, id, subjects).no_duplicates(),
    decreases subjects.len(),
{
    if subjects.len() > 0 {
        lemma_leaving(members, id, subjects.drop_last());
        lemma_filter_distinct(
            left_by(members, id, subjects.drop_last()),
            other_membership(id, subjects.last()),
        );
    }
}

/// A new group leaves ids and names unique, and no subject is a member twice.
pub proof fn created_groups_are_unique(
    s: StoreView,
    id: Seq<char>,
    name: Seq<char>,
    external_id: Option<Seq<char>>,
    members: Seq<Seq<char>>,
    now: u64,
)
    requires
        groups_unique(s.groups),
        s.members.no_duplicates(),
    ensures
        ({
            let after = group_created(s, id, name, external_id, members, now).0;
            groups_unique(after.groups) && after.members.no_duplicates()
        }),
{
    let after = group_created(s, id, name, external_id, members, now).0;
    lemma_joining(s.members, id, members);
    if !any(s.groups, group_taken(id, name)) {
        let rows = after.groups;
        assert forall|i: int, j: int|
            0 <= i < j < rows.len() implies (#[trigger] rows[i]).id != (#[trigger] rows[j]).id
            && rows[i].display_name != rows[j].display_name by {
            assert(rows[i] == s.groups[i]);
            if j == s.groups.len() {
                assert(!group_taken(id, name)(s.groups[i]));
            } else {
                assert(rows[j] == s.groups[j]);
            }
        }
    }
}

/// A renamed group leaves names unique, and no subject is a member twice after its
/// members were replaced.
pub proof fn replaced_groups_are_unique(
    s: StoreView,
    id: Seq<char>,
    name: Option<Seq<char>>,
    members: Option<Seq<Seq<char>>>,
)
    requires
        groups_unique(s.groups),
        s.members.no_duplicates(),
    ensures
        group_replaced(s, id, name, members) matches Ok((after, _)) ==> groups_unique(after.groups)
            && after.members.no_duplicates(),
{
    if let Ok((after, true)) = group_replaced(s, id, name, members) {
        if let Some(subjects) = members {
            lemma_filter_distinct(s.members, member_of_others(id));
            lemma_joining(s.members.filter(member_of_others(id)), id, subjects);
        }
        if let Some(name) = name {
            let rows = after.groups;
            assert forall|i: int, j: int|
                0 <= i < j < rows.len() implies (#[trigger] rows[i]).id != (#[trigger] rows[j]).id
                && rows[i].display_name != rows[j].display_name by {
                assert(s.groups[i].id != s.groups[j].id);
                assert(!named_elsewhere(id, name)(s.groups[i]));
                assert(!named_elsewhere(id, name)(s.groups[j]));
            }
        }
    }
}

/// No subject is a member twice after some joined and others left.
pub proof fn changed_members_are_unique(
    members: Seq<ScimMemberRowView>,
    id: Seq<char>,
    add: Seq<Seq<char>>,
    remove: Seq<Seq<char>>,
)
    requires
        members.no_duplicates(),
    ensures
        left_by(joined_by(members, id, add), id, remove).no_duplicates(),
{
    lemma_joining(members, id, add);
    lemma_leaving(joined_by(members, id, add), id, remove);
}

/// Whether no two principals have the same subject.
pub open spec fn principals_unique(principals: Seq<PrincipalRowView>) -> bool {
    forall|i: int, j: int|
        0 <= i < j < principals.len() ==> (#[trigger] principals[i]).subject != (
        #[trigger] principals[j]).subject
}

proof fn lemma_pushed_principal(principals: Seq<PrincipalRowView>, p: PrincipalRowView)
    requires
        principals_unique(principals),
        !any(principals, principal_is(p.subject)),
    ensures
        principals_unique(principals.push(p)),
{
    let rows = principals.push(p);
    assert forall|i: int, j: int| 0 <= i < j < rows.len() implies (#[trigger] rows[i]).subject != (
    #[trigger] rows[j]).subject by {
        assert(rows[i] == principals[i]);
        if j == principals.len() {
            assert(!principal_is(p.subject)(principals[i]));
        } else {
            assert(rows[j] == principals[j]);
        }
    }
}

/// Whether a subject signs in or is provisioned, there is one principal for it.
pub proof fn principals_stay_unique(
    s: StoreView,
    subject: Seq<char>,
    groups: Seq<Seq<char>>,
    grants: Seq<char>,
    external_id: Option<Seq<char>>,
    now: u64,
)
    requires
        principals_unique(s.principals),
    ensures
        sign_in(s, subject, groups, grants, now) matches Ok((after, _)) ==> principals_unique(
            after.principals,
        ),
        principals_unique(provisioning(s, subject, external_id, now).0.principals),
{
    let at = column_or_zero(now);
    crate::table::lemma_first_found(s.principals, principal_is(subject));
    if !any(s.principals, principal_is(subject)) {
        lemma_pushed_principal(s.principals, newcomer(subject, at, groups, grants));
        lemma_pushed_principal(s.principals, provisioned(subject, external_id, at));
    }
    if let Ok((after, _)) = sign_in(s, subject, groups, grants, now) {
        if first(s.principals, principal_is(subject)) is Some {
            let rows = after.principals;
            assert forall|i: int, j: int|
                0 <= i < j < rows.len() implies (#[trigger] rows[i]).subject != (
            #[trigger] rows[j]).subject by {
                assert(s.principals[i].subject != s.principals[j].subject);
            }
        }
    }
}

/// Whether two sessions have neither their id nor a push key in common.
pub open spec fn sessions_apart() -> spec_fn(SessionRowView, SessionRowView) -> bool {
    |a: SessionRowView, b: SessionRowView|
        a.id != b.id && !(a.push_key is Some && a.push_key == b.push_key)
}

/// Whether no two sessions have their id or a push key in common.
pub open spec fn sessions_unique(sessions: Seq<SessionRowView>) -> bool {
    forall|i: int, j: int|
        0 <= i < j < sessions.len() ==> sessions_apart()(
            #[trigger] sessions[i],
            #[trigger] sessions[j],
        )
}

/// A recorded session leaves ids and push keys unique.
pub proof fn recorded_sessions_are_unique(
    s: StoreView,
    session: PersistedUploadSessionView,
    now: u64,
)
    requires
        sessions_unique(s.sessions),
    ensures
        admitted_session(s, session, now) matches Ok((after, _)) ==> sessions_unique(
            after.sessions,
        ),
{
    if let Ok((after, _)) = admitted_session(s, session, now) {
        let p = unaffected(session.id, session.push_key);
        let kept = s.sessions.filter(p);
        lemma_filter_pairs(s.sessions, p, sessions_apart());
        crate::table::lemma_filter_any_of(s.sessions, p);
        let rows = after.sessions;
        assert forall|i: int, j: int| 0 <= i < j < rows.len() implies sessions_apart()(
            #[trigger] rows[i],
            #[trigger] rows[j],
        ) by {
            assert(rows[i] == kept[i]);
            if j == kept.len() {
                assert(p(kept[i]));
            } else {
                assert(rows[j] == kept[j]);
                assert(sessions_apart()(kept[i], kept[j]));
            }
        }
    }
}

} // verus!
