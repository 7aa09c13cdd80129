//! Who is who: principals that sign in, are provisioned, revoked and let in again, and the
//! groups they belong to.
use vstd::prelude::*;

use crate::columns::column_or_zero;
use crate::json::parsed_json;
use crate::like::{read_text, search_is_literal};
use crate::principals::{
    allows, by_subject, external_is, last_version, principal_is, principal_of, principals_listed,
    provisioning, recent_login, revoked_principal, sign_in, signed_in, subject_holds, unblocked,
};
use crate::records::PrincipalView;
use crate::rows::{PrincipalRowView, ScimGroupRowView, ScimMemberRowView};
use crate::scim::{
    by_name, group_created, group_external, group_is, group_name, group_named, group_of,
    group_replaced, group_taken, group_with, joined_by, left_by, member_of, member_of_others,
    member_subject, members_of, membership, named_elsewhere, other_group, other_membership, renamed,
};
use crate::selection::{
    lemma_changed, lemma_counted, lemma_found, lemma_listed, lemma_ordered, lemma_paged,
    lemma_selected,
};
use crate::store::StoreView;
use crate::table::{any, first, page, sorted_by, updated};
use crate::text::{ascii_fold, contains, text_lt};
use crate::usage::text_order;

verus! {

// ---------------------------------------------------------------- principals
/// The store after a principal was revoked, and whether there was one; the last version
/// cannot be revoked.
pub open spec fn revoking(s: StoreView, subject: Seq<char>) -> Result<(StoreView, bool), Seq<char>> {
    if any(s.principals, last_version(subject)) {
        Err("credential version overflow"@)
    } else {
        Ok(
            (
                StoreView {
                    principals: updated(s.principals, principal_is(subject), revoked_principal()),
                    ..s
                },
                any(s.principals, principal_is(subject)),
            ),
        )
    }
}

/// The store after a principal was let in again.
pub open spec fn unblocking(s: StoreView, subject: Seq<char>) -> StoreView {
    StoreView { principals: updated(s.principals, principal_is(subject), unblocked()), ..s }
}

/// Whether a principal is told as it is recorded.
pub open spec fn principal_told(p: PrincipalRowView, r: PrincipalView) -> bool {
    &&& r.subject == p.subject && r.blocked == p.blocked && r.source == p.source
    &&& r.external_id == p.external_id && r.last_groups == p.last_groups
    &&& parsed_json(p.last_grants) == Ok::<Seq<char>, Seq<char>>(r.last_grants)
    &&& p.credential_version >= 0 ==> r.credential_version == p.credential_version
    &&& p.last_login_at >= 0 ==> r.last_login_at == p.last_login_at
    &&& p.created_at >= 0 ==> r.created_at == p.created_at
}

/// A session is valid exactly if its subject is not blocked and it was made under the
/// subject's present version; of a subject that is not known, the first version is valid.
pub proof fn sessions_are_valid_under_their_version(
    s: StoreView,
    p: PrincipalRowView,
    version: u64,
)
    requires
        s.principals.contains(p),
        forall|i: int, j: int|
            0 <= i < j < s.principals.len() ==> s.principals[i].subject != s.principals[j].subject,
        p.document_error is None,
        parsed_json(p.last_grants) is Ok,
        p.credential_version >= 0,
    ensures
        allows(s, p.subject, version) <==> !p.blocked && version == p.credential_version,
        forall|subject: Seq<char>|
            (forall|q: PrincipalRowView| #[trigger] s.principals.contains(q) ==> q.subject != subject)
                ==> (#[trigger] allows(s, subject, version) <==> version == 1),
{
    lemma_the_principal(s, p);
    assert forall|subject: Seq<char>|
        (forall|q: PrincipalRowView| #[trigger]
            s.principals.contains(q) ==> q.subject != subject) implies (#[trigger] allows(
        s,
        subject,
        version,
    ) <==> version == 1) by {
        lemma_found(s.principals, principal_is(subject));
    }
}

proof fn lemma_the_principal(s: StoreView, p: PrincipalRowView)
    requires
        s.principals.contains(p),
        forall|i: int, j: int|
            0 <= i < j < s.principals.len() ==> s.principals[i].subject != s.principals[j].subject,
    ensures
        first(s.principals, principal_is(p.subject)) == Some(p),
{
    let own = principal_is(p.subject);
    let k = choose|k: int| 0 <= k < s.principals.len() && s.principals[k] == p;
    assert forall|j: int| 0 <= j < k implies !own(#[trigger] s.principals[j]) by {
        assert(s.principals[j].subject != s.principals[k].subject);
    }
    crate::table::lemma_first(s.principals, own, k);
}

/// Revoking blocks the subject and raises its version by one, so that no session of it is
/// valid; letting it in again only takes off the block. Nobody else changes.
pub proof fn revoking_blocks_and_raises(s: StoreView, subject: Seq<char>)
    ensures
        ({
            let there = exists|p: PrincipalRowView| #[trigger]
                s.principals.contains(p) && p.subject == subject;
            &&& match revoking(s, subject) {
                Err(_) => exists|p: PrincipalRowView| #[trigger]
                    s.principals.contains(p) && p.subject == subject && p.credential_version
                        == i64::MAX,
                Ok((after, done)) => {
                    &&& done <==> there
                    &&& after == StoreView { principals: after.principals, ..s }
                    &&& after.principals.len() == s.principals.len()
                    &&& forall|i: int|
                        0 <= i < s.principals.len() ==> if s.principals[i].subject == subject {
                            let p = #[trigger] after.principals[i];
                            &&& p.blocked
                            &&& p.credential_version == s.principals[i].credential_version + 1
                            &&& p == PrincipalRowView {
                                blocked: p.blocked,
                                credential_version: p.credential_version,
                                ..s.principals[i]
                            }
                        } else {
                            after.principals[i] == s.principals[i]
                        }
                },
            }
            &&& unblocking(s, subject).principals.len() == s.principals.len()
            &&& forall|i: int|
                0 <= i < s.principals.len() ==> #[trigger] unblocking(s, subject).principals[i]
                    == if s.principals[i].subject == subject {
                    PrincipalRowView { blocked: false, ..s.principals[i] }
                } else {
                    s.principals[i]
                }
            &&& any(s.principals, principal_is(subject)) <==> there
        }),
{
    let own = principal_is(subject);
    lemma_found(s.principals, own);
    lemma_found(s.principals, last_version(subject));
    lemma_changed(s.principals, own, revoked_principal());
    lemma_changed(s.principals, own, unblocked());
    if let Ok((after, _)) = revoking(s, subject) {
        assert forall|i: int| 0 <= i < s.principals.len() implies if s.principals[i].subject
            == subject {
            let p = #[trigger] after.principals[i];
            &&& p.blocked
            &&& p.credential_version == s.principals[i].credential_version + 1
            &&& p == PrincipalRowView {
                blocked: p.blocked,
                credential_version: p.credential_version,
                ..s.principals[i]
            }
        } else {
            after.principals[i] == s.principals[i]
        } by {
            assert(!last_version(subject)(s.principals[i]));
        }
    }
}

/// A sign-in notes time, groups and grants of a subject that is not blocked, and leaves a
/// blocked one as it was; a subject that was not known is there afterwards, in the first
/// version and not blocked. Nobody else changes, and what is told is what is recorded.
pub proof fn sign_ins_are_noted(
    s: StoreView,
    subject: Seq<char>,
    groups: Seq<Seq<char>>,
    grants: Seq<char>,
    now: u64,
)
    requires
        now <= i64::MAX,
    ensures
        sign_in(s, subject, groups, grants, now) matches Ok((after, told)) ==> {
            let there = exists|p: PrincipalRowView| #[trigger]
                s.principals.contains(p) && p.subject == subject;
            &&& after == StoreView { principals: after.principals, ..s }
            &&& there ==> after.principals.len() == s.principals.len()
            &&& there ==> forall|i: int|
                0 <= i < s.principals.len() ==> #[trigger] after.principals[i]
                    == if s.principals[i].subject == subject && !s.principals[i].blocked {
                    PrincipalRowView {
                        last_login_at: now as i64,
                        last_groups: groups,
                        last_grants: grants,
                        document_error: None,
                        ..s.principals[i]
                    }
                } else {
                    s.principals[i]
                }
            &&& !there ==> {
                &&& after.principals.len() == s.principals.len() + 1
                &&& after.principals.take(s.principals.len() as int) == s.principals
                &&& after.principals.last() == PrincipalRowView {
                    subject,
                    credential_version: 1,
                    blocked: false,
                    last_login_at: now as i64,
                    last_groups: groups,
                    last_grants: grants,
                    document_error: None,
                    source: "sso"@,
                    external_id: None,
                    created_at: now as i64,
                }
            }
            &&& exists|p: PrincipalRowView| #[trigger]
                after.principals.contains(p) && p.subject == subject && principal_told(p, told)
        },
        parsed_json(grants) is Ok && (forall|p: PrincipalRowView| #[trigger]
            s.principals.contains(p) ==> !p.blocked) ==> sign_in(s, subject, groups, grants, now)
            is Ok,
{
    let own = principal_is(subject);
    let u = signed_in(column_or_zero(now), groups, grants);
    lemma_found(s.principals, own);
    lemma_changed(s.principals, own, u);
    if let Ok((after, told)) = sign_in(s, subject, groups, grants, now) {
        match first(s.principals, own) {
            None => {
                assert(after.principals.take(s.principals.len() as int) =~= s.principals);
                let p = after.principals.last();
                assert(after.principals[s.principals.len() as int] == p);
                assert(after.principals.contains(p) && principal_told(p, told));
            },
            Some(p) => {
                let k = choose|k: int| 0 <= k < s.principals.len() && s.principals[k] == p;
                assert(after.principals[k] == u(p));
                assert(after.principals.contains(u(p)) && principal_told(u(p), told));
            },
        }
    }
}

/// A subject is provisioned exactly if it is not known: in the first version, not blocked,
/// under the id given, and without a sign-in.
pub proof fn subjects_are_provisioned_once(
    s: StoreView,
    subject: Seq<char>,
    external_id: Option<Seq<char>>,
    now: u64,
)
    requires
        now <= i64::MAX,
    ensures
        ({
            let there = exists|p: PrincipalRowView| #[trigger]
                s.principals.contains(p) && p.subject == subject;
            let (after, done) = provisioning(s, subject, external_id, now);
            &&& done <==> !there
            &&& !done ==> after == s
            &&& done ==> {
                &&& after == StoreView { principals: after.principals, ..s }
                &&& after.principals.len() == s.principals.len() + 1
                &&& after.principals.take(s.principals.len() as int) == s.principals
                &&& after.principals.last() == PrincipalRowView {
                    subject,
                    credential_version: 1,
                    blocked: false,
                    last_login_at: 0,
                    last_groups: Seq::empty(),
                    last_grants: "[]"@,
                    document_error: None,
                    source: "scim"@,
                    external_id,
                    created_at: now as i64,
                }
            }
        }),
{
    lemma_found(s.principals, principal_is(subject));
    let (after, done) = provisioning(s, subject, external_id, now);
    if done {
        assert(after.principals.take(s.principals.len() as int) =~= s.principals);
    }
}

/// A page of principals shows those whose subject holds the word, as they are recorded, and
/// tells how many there are; where the page begins at the first and all fit, it shows all.
pub proof fn pages_show_the_principals_asked_for(
    s: StoreView,
    limit: usize,
    offset: usize,
    query: Option<Seq<char>>,
    order: spec_fn(PrincipalRowView, PrincipalRowView) -> bool,
)
    requires
        query matches Some(w) ==> forall|i: int| 0 <= i < w.len() ==> #[trigger] w[i] != '\0',
        s.principals.len() <= u64::MAX,
    ensures
        principals_listed(s, limit, offset, query, order) matches Ok((list, n)) ==> {
            let asked = |p: PrincipalRowView|
                query is Some ==> contains(
                    ascii_fold(read_text(p.subject)),
                    ascii_fold(read_text(query->0)),
                );
            &&& list.len() <= limit
            &&& n == s.principals.filter(asked).len()
            &&& forall|r: PrincipalView| #[trigger]
                list.contains(r) ==> exists|p: PrincipalRowView| #[trigger]
                    s.principals.contains(p) && asked(p) && principal_told(p, r)
            &&& offset == 0 && n <= limit ==> forall|p: PrincipalRowView| #[trigger]
                s.principals.contains(p) && asked(p) ==> exists|r: PrincipalView| #[trigger]
                    list.contains(r) && principal_told(p, r)
            &&& list.len() == (if n <= offset {
                0
            } else if n - offset <= limit {
                n - offset
            } else {
                limit as int
            })
        },
        forall|a: PrincipalRowView, b: PrincipalRowView|
            {
                &&& #[trigger] recent_login()(a, b) <==> a.last_login_at > b.last_login_at || (
                a.last_login_at == b.last_login_at && text_lt(a.subject, b.subject))
                &&& by_subject()(a, b) <==> text_lt(a.subject, b.subject)
            },
{
    if let Ok((list, n)) = principals_listed(s, limit, offset, query, order) {
        let own = subject_holds(query);
        let asked = |p: PrincipalRowView|
            query is Some ==> contains(
                ascii_fold(read_text(p.subject)),
                ascii_fold(read_text(query->0)),
            );
        assert forall|p: PrincipalRowView| #[trigger] own(p) == asked(p) by {
            if let Some(w) = query {
                search_is_literal(p.subject, w);
            }
        }
        lemma_counted(s.principals, own, asked);
        lemma_selected(s.principals, own);
        lemma_ordered(s.principals.filter(own), order);
        lemma_paged(sorted_by(s.principals.filter(own), order), offset as int, limit as int);
        lemma_listed(s.principals, own, order, offset as int, limit as int, principal_of());
        assert forall|r: PrincipalView| #[trigger] list.contains(r) implies exists|
            p: PrincipalRowView,
        | #[trigger] s.principals.contains(p) && asked(p) && principal_told(p, r) by {
            let p = choose|p: PrincipalRowView| #[trigger]
                s.principals.contains(p) && own(p) && principal_of()(p) == Ok::<
                    PrincipalView,
                    Seq<char>,
                >(r);
            assert(principal_told(p, r));
        }
        if offset == 0 && n <= limit {
            assert forall|p: PrincipalRowView| #[trigger]
                s.principals.contains(p) && asked(p) implies exists|r: PrincipalView| #[trigger]
                list.contains(r) && principal_told(p, r) by {
                assert(own(p));
                assert(list.contains(principal_of()(p)->Ok_0));
            }
        }
    }
}

/// A principal is found under the id of the system that provisioned it.
pub proof fn principals_are_found_by_their_id(s: StoreView, external_id: Seq<char>)
    ensures
        ({
            let found = sorted_by(s.principals.filter(external_is(external_id)), by_subject());
            &&& forall|p: PrincipalRowView| #[trigger]
                found.contains(p) <==> s.principals.contains(p) && p.external_id is Some
                    && p.external_id->0 == external_id
        }),
{
    lemma_selected(s.principals, external_is(external_id));
    lemma_ordered(s.principals.filter(external_is(external_id)), by_subject());
}

// -------------------------------------------------------------------- groups
/// A group's members changed: some join, then some leave.
pub open spec fn members_changed(
    s: StoreView,
    id: Seq<char>,
    add: Seq<Seq<char>>,
    remove: Seq<Seq<char>>,
) -> Result<(StoreView, bool), Seq<char>> {
    if !any(s.groups, group_is(id)) {
        Ok((s, false))
    } else {
        Ok(
            (
                StoreView { members: left_by(joined_by(s.members, id, add), id, remove), ..s },
                true,
            ),
        )
    }
}

/// The store without a group and its memberships.
pub open spec fn without_group(s: StoreView, id: Seq<char>) -> StoreView {
    StoreView {
        groups: s.groups.filter(other_group(id)),
        members: s.members.filter(member_of_others(id)),
        ..s
    }
}

/// The names of the groups that a subject belongs to.
pub open spec fn names_of_groups(s: StoreView, subject: Seq<char>) -> Seq<Seq<char>> {
    sorted_by(s.groups.filter(group_with(s.members, subject)), by_name()).map_values(group_name())
}

proof fn lemma_joined(members: Seq<ScimMemberRowView>, id: Seq<char>, subjects: Seq<Seq<char>>)
    ensures
        forall|m: ScimMemberRowView| #[trigger]
            joined_by(members, id, subjects).contains(m) <==> members.contains(m) || (m.group_id
                == id && subjects.contains(m.subject)),
    decreases subjects.len(),
{
    if subjects.len() > 0 {
        let head = subjects.drop_last();
        let x = subjects.last();
        lemma_joined(members, id, head);
        let before = joined_by(members, id, head);
        let after = joined_by(members, id, subjects);
        lemma_found(before, membership(id, x));
        let row = ScimMemberRowView { group_id: id, subject: x };
        assert forall|m: ScimMemberRowView| #[trigger] after.contains(m) <==> before.contains(m) || m
            == row by {
            if any(before, membership(id, x)) {
                let o = choose|o: ScimMemberRowView| #[trigger]
                    before.contains(o) && membership(id, x)(o);
                assert(o == row);
            } else {
                assert(after[before.len() as int] == row);
                if before.contains(m) {
                    let i = choose|i: int| 0 <= i < before.len() && before[i] == m;
                    assert(after[i] == m);
                }
            }
        }
        assert forall|y: Seq<char>| subjects.contains(y) <==> head.contains(y) || y == x by {
            assert(subjects[subjects.len() - 1] == x);
            if head.contains(y) {
                let i = choose|i: int| 0 <= i < head.len() && head[i] == y;
                assert(subjects[i] == y);
            }
            if subjects.contains(y) && y != x {
                let i = choose|i: int| 0 <= i < subjects.len() && subjects[i] == y;
                assert(head[i] == y);
            }
        }
    }
}

proof fn lemma_left(members: Seq<ScimMemberRowView>, id: Seq<char>, subjects: Seq<Seq<char>>)
    ensures
        forall|m: ScimMemberRowView| #[trigger]
            left_by(members, id, subjects).contains(m) <==> members.contains(m) && !(m.group_id
                == id && subjects.contains(m.subject)),
    decreases subjects.len(),
{
    if subjects.len() > 0 {
        let head = subjects.drop_last();
        let x = subjects.last();
        lemma_left(members, id, head);
        lemma_selected(left_by(members, id, head), other_membership(id, x));
        assert forall|y: Seq<char>| subjects.contains(y) <==> head.contains(y) || y == x by {
            assert(subjects[subjects.len() - 1] == x);
            if head.contains(y) {
                let i = choose|i: int| 0 <= i < head.len() && head[i] == y;
                assert(subjects[i] == y);
            }
            if subjects.contains(y) && y != x {
                let i = choose|i: int| 0 <= i < subjects.len() && subjects[i] == y;
                assert(head[i] == y);
            }
        }
    }
}

/// A group is created under its id exactly if neither id nor name is taken. It then has the
/// name, the provider's id and exactly the members given, besides those that were recorded
/// under its id before; other groups keep theirs.
pub proof fn groups_are_created_once(
    s: StoreView,
    id: Seq<char>,
    name: Seq<char>,
    external_id: Option<Seq<char>>,
    members: Seq<Seq<char>>,
    now: u64,
)
    requires
        now <= i64::MAX,
    ensures
        ({
            let taken = exists|g: ScimGroupRowView| #[trigger]
                s.groups.contains(g) && (g.id == id || g.display_name == name);
            let (after, told) = group_created(s, id, name, external_id, members, now);
            &&& told is None <==> taken
            &&& taken ==> after == s
            &&& !taken ==> {
                &&& after == StoreView { groups: after.groups, members: after.members, ..s }
                &&& after.groups.len() == s.groups.len() + 1
                &&& after.groups.take(s.groups.len() as int) == s.groups
                &&& after.groups.last() == ScimGroupRowView {
                    id,
                    display_name: name,
                    external_id,
                    created_at: now as i64,
                }
                &&& forall|m: ScimMemberRowView| #[trigger]
                    after.members.contains(m) <==> s.members.contains(m) || (m.group_id == id
                        && members.contains(m.subject))
                &&& (told->0).id == id && (told->0).display_name == name && (told->0).external_id
                    == external_id && (told->0).created_at == now
                &&& (forall|m: ScimMemberRowView| #[trigger]
                    s.members.contains(m) ==> m.group_id != id) ==> forall|x: Seq<char>| #[trigger]
                    (told->0).members.contains(x) <==> members.contains(x)
            }
        }),
{
    lemma_found(s.groups, group_taken(id, name));
    lemma_joined(s.members, id, members);
    let (after, told) = group_created(s, id, name, external_id, members, now);
    if told is Some {
        assert(after.groups.take(s.groups.len() as int) =~= s.groups);
        members_are_told(after.members, id);
        if forall|m: ScimMemberRowView| #[trigger] s.members.contains(m) ==> m.group_id != id {
            assert forall|x: Seq<char>| #[trigger] (told->0).members.contains(x)
                <==> members.contains(x) by {
                let row = ScimMemberRowView { group_id: id, subject: x };
                if members.contains(x) {
                    assert(after.members.contains(row));
                }
                if (told->0).members.contains(x) {
                    assert(after.members.contains(row));
                }
            }
        }
    }
}

/// The members that a group is told to have are the subjects recorded under its id.
pub proof fn members_are_told(members: Seq<ScimMemberRowView>, id: Seq<char>)
    ensures
        forall|x: Seq<char>| #[trigger]
            members_of(members, id).contains(x) <==> members.contains(
                ScimMemberRowView { group_id: id, subject: x },
            ),
        forall|g: ScimGroupRowView|
            {
                let told = #[trigger] group_of(members)(g);
                &&& told.id == g.id && told.display_name == g.display_name && told.external_id
                    == g.external_id
                &&& g.created_at >= 0 ==> told.created_at == g.created_at
                &&& told.members == members_of(members, g.id)
            },
{
    let chosen = members.filter(member_of(id));
    let subjects = chosen.map_values(member_subject());
    lemma_selected(members, member_of(id));
    lemma_ordered(subjects, text_order());
    assert forall|x: Seq<char>| #[trigger] members_of(members, id).contains(x) <==> members.contains(
        ScimMemberRowView { group_id: id, subject: x },
    ) by {
        let row = ScimMemberRowView { group_id: id, subject: x };
        if subjects.contains(x) {
            let i = choose|i: int| 0 <= i < subjects.len() && subjects[i] == x;
            assert(chosen.contains(chosen[i]));
            assert(chosen[i] == row);
        }
        if members.contains(row) {
            assert(chosen.contains(row));
            let i = choose|i: int| 0 <= i < chosen.len() && chosen[i] == row;
            assert(subjects[i] == x);
        }
    }
}

/// A group that there is gets the name, if one is given that no other group has, and exactly
/// the members, if they are given; other groups and their members stay.
pub proof fn groups_are_replaced(
    s: StoreView,
    id: Seq<char>,
    name: Option<Seq<char>>,
    members: Option<Seq<Seq<char>>>,
)
    ensures
        ({
            let there = exists|g: ScimGroupRowView| #[trigger] s.groups.contains(g) && g.id == id;
            match group_replaced(s, id, name, members) {
                Err(_) => there && name is Some && exists|g: ScimGroupRowView| #[trigger]
                    s.groups.contains(g) && g.id != id && g.display_name == name->0,
                Ok((after, false)) => !there && after == s,
                Ok((after, true)) => {
                    &&& there
                    &&& name is Some ==> forall|g: ScimGroupRowView| #[trigger]
                        s.groups.contains(g) && g.id != id ==> g.display_name != name->0
                    &&& after == StoreView { groups: after.groups, members: after.members, ..s }
                    &&& after.groups.len() == s.groups.len()
                    &&& forall|i: int|
                        0 <= i < s.groups.len() ==> #[trigger] after.groups[i] == if name is Some
                            && s.groups[i].id == id {
                            ScimGroupRowView { display_name: name->0, ..s.groups[i] }
                        } else {
                            s.groups[i]
                        }
                    &&& members is None ==> after.members == s.members
                    &&& members matches Some(subjects) ==> forall|m: ScimMemberRowView| #[trigger]
                        after.members.contains(m) <==> if m.group_id == id {
                            subjects.contains(m.subject)
                        } else {
                            s.members.contains(m)
                        }
                },
            }
        }),
{
    lemma_found(s.groups, group_is(id));
    if let Some(n) = name {
        lemma_found(s.groups, named_elsewhere(id, n));
        lemma_changed(s.groups, group_is(id), renamed(n));
    }
    if let Some(subjects) = members {
        lemma_selected(s.members, member_of_others(id));
        lemma_joined(s.members.filter(member_of_others(id)), id, subjects);
    }
}

/// Members that are added are in the group, and those that are removed are not, whatever else
/// was asked; other memberships stay.
pub proof fn members_join_and_leave(
    s: StoreView,
    id: Seq<char>,
    add: Seq<Seq<char>>,
    remove: Seq<Seq<char>>,
)
    ensures
        ({
            let there = exists|g: ScimGroupRowView| #[trigger] s.groups.contains(g) && g.id == id;
            match members_changed(s, id, add, remove) {
                Err(_) => false,
                Ok((after, done)) => {
                    &&& done <==> there
                    &&& !done ==> after == s
                    &&& done ==> after == StoreView { members: after.members, ..s }
                    &&& done ==> forall|m: ScimMemberRowView| #[trigger]
                        after.members.contains(m) <==> if m.group_id == id {
                            !remove.contains(m.subject) && (add.contains(m.subject)
                                || s.members.contains(m))
                        } else {
                            s.members.contains(m)
                        }
                },
            }
        }),
{
    lemma_found(s.groups, group_is(id));
    lemma_joined(s.members, id, add);
    lemma_left(joined_by(s.members, id, add), id, remove);
}

/// A deleted group is gone with its memberships, and nothing else is.
pub proof fn deleted_groups_are_gone(s: StoreView, id: Seq<char>)
    ensures
        ({
            let after = without_group(s, id);
            &&& forall|g: ScimGroupRowView| #[trigger]
                after.groups.contains(g) <==> s.groups.contains(g) && g.id != id
            &&& forall|m: ScimMemberRowView| #[trigger]
                after.members.contains(m) <==> s.members.contains(m) && m.group_id != id
            &&& after == StoreView { groups: after.groups, members: after.members, ..s }
        }),
        any(s.groups, group_is(id)) <==> exists|g: ScimGroupRowView| #[trigger]
            s.groups.contains(g) && g.id == id,
{
    lemma_selected(s.groups, other_group(id));
    lemma_selected(s.members, member_of_others(id));
    lemma_found(s.groups, group_is(id));
}

/// The groups of a subject are those that it is recorded in, by name; groups are found by
/// their id, by their name and by their provider's id.
pub proof fn subjects_see_their_groups(s: StoreView, subject: Seq<char>, key: Seq<char>)
    ensures
        forall|n: Seq<char>| #[trigger]
            names_of_groups(s, subject).contains(n) <==> exists|g: ScimGroupRowView| #[trigger]
                s.groups.contains(g) && g.display_name == n && s.members.contains(
                    ScimMemberRowView { group_id: g.id, subject },
                ),
        first(s.groups, group_is(key)) matches Some(g) ==> s.groups.contains(g) && g.id == key,
        first(s.groups, group_is(key)) is None ==> forall|g: ScimGroupRowView| #[trigger]
            s.groups.contains(g) ==> g.id != key,
        forall|g: ScimGroupRowView| #[trigger]
            sorted_by(s.groups.filter(group_named(key)), by_name()).contains(g)
                <==> s.groups.contains(g) && g.display_name == key,
        forall|g: ScimGroupRowView| #[trigger]
            sorted_by(s.groups.filter(group_external(key)), by_name()).contains(g)
                <==> s.groups.contains(g) && g.external_id is Some && g.external_id->0 == key,
        forall|a: ScimGroupRowView, b: ScimGroupRowView| #[trigger]
            by_name()(a, b) <==> text_lt(a.display_name, b.display_name),
{
    let p = group_with(s.members, subject);
    let chosen = s.groups.filter(p);
    let all = sorted_by(chosen, by_name());
    lemma_selected(s.groups, p);
    lemma_ordered(chosen, by_name());
    lemma_found(s.groups, group_is(key));
    lemma_selected(s.groups, group_named(key));
    lemma_ordered(s.groups.filter(group_named(key)), by_name());
    lemma_selected(s.groups, group_external(key));
    lemma_ordered(s.groups.filter(group_external(key)), by_name());
    assert forall|g: ScimGroupRowView| #[trigger] p(g) <==> s.members.contains(
        ScimMemberRowView { group_id: g.id, subject },
    ) by {
        lemma_found(s.members, membership(g.id, subject));
        let row = ScimMemberRowView { group_id: g.id, subject };
        if p(g) {
            let m = choose|m: ScimMemberRowView| #[trigger]
                s.members.contains(m) && membership(g.id, subject)(m);
            assert(m == row);
        }
        if s.members.contains(row) {
            assert(membership(g.id, subject)(row));
        }
    }
    assert forall|n: Seq<char>| #[trigger] names_of_groups(s, subject).contains(n) <==> exists|
        g: ScimGroupRowView,
    | #[trigger]
        s.groups.contains(g) && g.display_name == n && s.members.contains(
            ScimMemberRowView { group_id: g.id, subject },
        ) by {
        let names = names_of_groups(s, subject);
        if names.contains(n) {
            let i = choose|i: int| 0 <= i < names.len() && names[i] == n;
            assert(all.contains(all[i]));
            assert(chosen.contains(all[i]));
            assert(p(all[i]));
        }
        if exists|g: ScimGroupRowView| #[trigger]
            s.groups.contains(g) && g.display_name == n && s.members.contains(
                ScimMemberRowView { group_id: g.id, subject },
            ) {
            let g = choose|g: ScimGroupRowView| #[trigger]
                s.groups.contains(g) && g.display_name == n && s.members.contains(
                    ScimMemberRowView { group_id: g.id, subject },
                );
            assert(p(g));
            assert(chosen.contains(g));
            assert(all.contains(g));
            let i = choose|i: int| 0 <= i < all.len() && all[i] == g;
            assert(names[i] == n);
        }
    }
}

} // verus!
