//! SCIM groups and their members.
use vstd::prelude::*;

use crate::clock::{clock_gave, now_unix, time_of};
use crate::columns::{column_or_zero, from_column, natural, to_column_or_zero};
use crate::records::{ScimGroup, ScimGroupView};
use crate::rows::{ScimGroupRow, ScimGroupRowView, ScimMemberRow, ScimMemberRowView};
use crate::store::{Store, StoreView, follows};
use crate::table::{
    Row, any, append_row, delete_where, dup_option, exists_where, find, first, lemma_filter_any,
    outcome, page, page_rows, project, select, sort_rows, sorted_by, update_where, updated,
};
use crate::text::{lt, same, text_lt, texts};
use crate::usage::text_order;

verus! {

/// The refusal of a group name that another group has.
pub const SCIM_GROUP_NAME_TAKEN: &'static str = "scim group name taken";

// ------------------------------------------------------------ specifications
/// The group `id`.
pub open spec fn group_is(id: Seq<char>) -> spec_fn(ScimGroupRowView) -> bool {
    |g: ScimGroupRowView| g.id == id
}

/// Other groups.
pub open spec fn other_group(id: Seq<char>) -> spec_fn(ScimGroupRowView) -> bool {
    |g: ScimGroupRowView| g.id != id
}

/// The group of a name.
pub open spec fn group_named(name: Seq<char>) -> spec_fn(ScimGroupRowView) -> bool {
    |g: ScimGroupRowView| g.display_name == name
}

/// Groups under a provider's id.
pub open spec fn group_external(id: Seq<char>) -> spec_fn(ScimGroupRowView) -> bool {
    |g: ScimGroupRowView| g.external_id == Some(id)
}

/// A group that keeps a new one from being created.
pub open spec fn group_taken(id: Seq<char>, name: Seq<char>) -> spec_fn(ScimGroupRowView) -> bool {
    |g: ScimGroupRowView| g.id == id || g.display_name == name
}

/// Another group of a name.
pub open spec fn named_elsewhere(id: Seq<char>, name: Seq<char>) -> spec_fn(ScimGroupRowView) -> bool {
    |g: ScimGroupRowView| g.id != id && g.display_name == name
}

/// A group under another name.
pub open spec fn renamed(name: Seq<char>) -> spec_fn(ScimGroupRowView) -> ScimGroupRowView {
    |g: ScimGroupRowView| ScimGroupRowView { display_name: name, ..g }
}

/// Groups by name.
pub open spec fn by_name() -> spec_fn(ScimGroupRowView, ScimGroupRowView) -> bool {
    |a: ScimGroupRowView, b: ScimGroupRowView| text_lt(a.display_name, b.display_name)
}

/// The members of a group.
pub open spec fn member_of(id: Seq<char>) -> spec_fn(ScimMemberRowView) -> bool {
    |m: ScimMemberRowView| m.group_id == id
}

/// The members of other groups.
pub open spec fn member_of_others(id: Seq<char>) -> spec_fn(ScimMemberRowView) -> bool {
    |m: ScimMemberRowView| m.group_id != id
}

/// A subject's membership in a group.
pub open spec fn membership(id: Seq<char>, subject: Seq<char>) -> spec_fn(ScimMemberRowView) -> bool {
    |m: ScimMemberRowView| m.group_id == id && m.subject == subject
}

/// Other memberships.
pub open spec fn other_membership(id: Seq<char>, subject: Seq<char>) -> spec_fn(
    ScimMemberRowView,
) -> bool {
    |m: ScimMemberRowView| !membership(id, subject)(m)
}

/// The subject of a membership.
pub open spec fn member_subject() -> spec_fn(ScimMemberRowView) -> Seq<char> {
    |m: ScimMemberRowView| m.subject
}

/// The subjects in a group, in order.
pub open spec fn members_of(members: Seq<ScimMemberRowView>, id: Seq<char>) -> Seq<Seq<char>> {
    sorted_by(members.filter(member_of(id)).map_values(member_subject()), text_order())
}

/// The group that a row stands for, with its members.
pub open spec fn group_of(members: Seq<ScimMemberRowView>) -> spec_fn(ScimGroupRowView) -> ScimGroupView {
    |g: ScimGroupRowView|
        ScimGroupView {
            id: g.id,
            display_name: g.display_name,
            external_id: g.external_id,
            created_at: natural(g.created_at),
            members: members_of(members, g.id),
        }
}

/// The memberships with those of `subjects` in a group.
pub open spec fn joined_by(
    members: Seq<ScimMemberRowView>,
    id: Seq<char>,
    subjects: Seq<Seq<char>>,
) -> Seq<ScimMemberRowView>
    decreases subjects.len(),
{
    if subjects.len() == 0 {
        members
    } else {
        let members = joined_by(members, id, subjects.drop_last());
        if any(members, membership(id, subjects.last())) {
            members
        } else {
            members.push(ScimMemberRowView { group_id: id, subject: subjects.last() })
        }
    }
}

/// The memberships without those of `subjects` in a group.
pub open spec fn left_by(
    members: Seq<ScimMemberRowView>,
    id: Seq<char>,
    subjects: Seq<Seq<char>>,
) -> Seq<ScimMemberRowView>
    decreases subjects.len(),
{
    if subjects.len() == 0 {
        members
    } else {
        left_by(members, id, subjects.drop_last()).filter(other_membership(id, subjects.last()))
    }
}

/// A group created under `id`, unless its name is taken.
pub open spec fn group_created(
    s: StoreView,
    id: Seq<char>,
    name: Seq<char>,
    external_id: Option<Seq<char>>,
    members: Seq<Seq<char>>,
    now: u64,
) -> (StoreView, Option<ScimGroupView>) {
    if any(s.groups, group_taken(id, name)) {
        (s, None)
    } else {
        let row = ScimGroupRowView {
            id,
            display_name: name,
            external_id,
            created_at: column_or_zero(now),
        };
        let after = joined_by(s.members, id, members);
        (
            StoreView { groups: s.groups.push(row), members: after, ..s },
            Some(group_of(after)(row)),
        )
    }
}

/// A group's name and members replaced, each where one is given.
pub open spec fn group_replaced(
    s: StoreView,
    id: Seq<char>,
    name: Option<Seq<char>>,
    members: Option<Seq<Seq<char>>>,
) -> Result<(StoreView, bool), Seq<char>> {
    if !any(s.groups, group_is(id)) {
        Ok((s, false))
    } else if name is Some && any(s.groups, named_elsewhere(id, name->0)) {
        Err(SCIM_GROUP_NAME_TAKEN@)
    } else {
        Ok(
            (
                StoreView {
                    groups: match name {
                        Some(name) => updated(s.groups, group_is(id), renamed(name)),
                        None => s.groups,
                    },
                    members: match members {
                        Some(subjects) => joined_by(
                            s.members.filter(member_of_others(id)),
                            id,
                            subjects,
                        ),
                        None => s.members,
                    },
                    ..s
                },
                true,
            ),
        )
    }
}

/// The first of rows in an order.
pub open spec fn head<V>(s: Seq<V>) -> Option<V> {
    if s.len() > 0 {
        Some(s[0])
    } else {
        None
    }
}

/// What a group looks like, if there is one.
pub open spec fn group_shown(s: StoreView, g: Option<ScimGroupRowView>) -> Option<ScimGroupView> {
    match g {
        Some(g) => Some(group_of(s.members)(g)),
        None => None,
    }
}

/// Groups that a subject belongs to.
pub open spec fn group_with(members: Seq<ScimMemberRowView>, subject: Seq<char>) -> spec_fn(
    ScimGroupRowView,
) -> bool {
    |g: ScimGroupRowView| any(members, membership(g.id, subject))
}

/// The name of a group.
pub open spec fn group_name() -> spec_fn(ScimGroupRowView) -> Seq<char> {
    |g: ScimGroupRowView| g.display_name
}

// ---------------------------------------------------------------- operations
fn read_scim_members(members: &Vec<ScimMemberRow>, id: &str) -> (r: Vec<String>)
    ensures
        r.deep_view() == members_of(members.deep_view(), id@),
{
    let own = |m: &ScimMemberRow| -> (b: bool)
        ensures
            b == member_of(id@)(m@),
    {
        same(m.group_id.as_str(), id)
    };
    let subject = |m: &ScimMemberRow| -> (r: String)
        ensures
            r.deep_view() == member_subject()(m@),
    {
        m.subject.clone()
    };
    let before = |a: &String, b: &String| -> (r: bool)
        ensures
            r == text_order()(a.deep_view(), b.deep_view()),
    {
        lt(a.as_str(), b.as_str())
    };
    let rows = select(members, own, Ghost(member_of(id@)));
    let subjects = project(&rows, subject, Ghost(member_subject()));
    sort_rows(subjects, before, Ghost(text_order()))
}

fn map_scim_group(members: &Vec<ScimMemberRow>, g: &ScimGroupRow) -> (r: ScimGroup)
    ensures
        r@ == group_of(members.deep_view())(g@),
{
    ScimGroup {
        id: g.id.clone(),
        display_name: g.display_name.clone(),
        external_id: dup_option(&g.external_id),
        created_at: from_column(g.created_at),
        members: read_scim_members(members, g.id.as_str()),
    }
}

fn write_scim_members(members: &mut Vec<ScimMemberRow>, id: &str, subjects: &[String])
    ensures
        final(members).deep_view() == joined_by(old(members).deep_view(), id@, texts(subjects@)),
{
    let ghost before = members.deep_view();
    let ghost all = texts(subjects@);
    let mut i: usize = 0;
    assert(all.take(0) =~= Seq::<Seq<char>>::empty());
    while i < subjects.len()
        invariant
            i <= subjects.len(),
            all == texts(subjects@),
            members.deep_view() == joined_by(before, id@, all.take(i as int)),
        decreases subjects.len() - i,
    {
        let subject = subjects[i].as_str();
        proof {
            assert(all.take(i + 1).drop_last() =~= all.take(i as int));
            assert(all.take(i + 1).last() == subject@);
        }
        let there = |m: &ScimMemberRow| -> (b: bool)
            ensures
                b == membership(id@, subject@)(m@),
        {
            same(m.group_id.as_str(), id) && same(m.subject.as_str(), subject)
        };
        if !exists_where(members, there, Ghost(membership(id@, subject@))) {
            append_row(
                members,
                ScimMemberRow { group_id: id.to_owned(), subject: subject.to_owned() },
            );
        }
        i += 1;
    }
    assert(all.take(i as int) =~= all);
}

fn remove_scim_members(members: &mut Vec<ScimMemberRow>, id: &str, subjects: &[String])
    ensures
        final(members).deep_view() == left_by(old(members).deep_view(), id@, texts(subjects@)),
{
    let ghost before = members.deep_view();
    let ghost all = texts(subjects@);
    let mut i: usize = 0;
    assert(all.take(0) =~= Seq::<Seq<char>>::empty());
    while i < subjects.len()
        invariant
            i <= subjects.len(),
            all == texts(subjects@),
            members.deep_view() == left_by(before, id@, all.take(i as int)),
        decreases subjects.len() - i,
    {
        let subject = subjects[i].as_str();
        proof {
            assert(all.take(i + 1).drop_last() =~= all.take(i as int));
            assert(all.take(i + 1).last() == subject@);
        }
        let gone = |m: &ScimMemberRow| -> (b: bool)
            ensures
                b == membership(id@, subject@)(m@),
        {
            same(m.group_id.as_str(), id) && same(m.subject.as_str(), subject)
        };
        delete_where(
            members,
            gone,
            Ghost(membership(id@, subject@)),
            Ghost(other_membership(id@, subject@)),
        );
        i += 1;
    }
    assert(all.take(i as int) =~= all);
}

impl Store {
    /// Creates a group now under a fresh `id`; `None` when its name is taken.
    pub fn create_scim_group(
        &mut self,
        id: &str,
        display_name: &str,
        external_id: Option<&str>,
        members: &[String],
    ) -> (r: Result<Option<ScimGroup>, String>)
        ensures
            exists|reading: Option<u64>| #[trigger]
                clock_gave(reading) && ({
                    let (after, group) = group_created(
                        old(self)@,
                        id@,
                        display_name@,
                        external_id.deep_view(),
                        texts(members@),
                        time_of(reading),
                    );
                    final(self)@ == after && outcome(r) == Ok::<Option<ScimGroupView>, Seq<char>>(
                        group,
                    )
                }),
    {
        let now: u64 = now_unix();
        self.create_scim_group_at(id, display_name, external_id, members, now)
    }

    /// Creates a group at time `now`; `None` when its name is taken.
    pub fn create_scim_group_at(
        &mut self,
        id: &str,
        display_name: &str,
        external_id: Option<&str>,
        members: &[String],
        now: u64,
    ) -> (r: Result<Option<ScimGroup>, String>)
        ensures
            ({
                let (after, group) = group_created(
                    old(self)@,
                    id@,
                    display_name@,
                    external_id.deep_view(),
                    texts(members@),
                    now,
                );
                final(self)@ == after && outcome(r) == Ok::<Option<ScimGroupView>, Seq<char>>(group)
            }),
    {
        let taken = |g: &ScimGroupRow| -> (b: bool)
            ensures
                b == group_taken(id@, display_name@)(g@),
        {
            same(g.id.as_str(), id) || same(g.display_name.as_str(), display_name)
        };
        if exists_where(&self.groups, taken, Ghost(group_taken(id@, display_name@))) {
            return Ok(None);
        }
        let row = ScimGroupRow {
            id: id.to_owned(),
            display_name: display_name.to_owned(),
            external_id: match external_id {
                Some(id) => Some(id.to_owned()),
                None => None,
            },
            created_at: to_column_or_zero(now),
        };
        write_scim_members(&mut self.members, id, members);
        let group = map_scim_group(&self.members, &row);
        append_row(&mut self.groups, row);
        Ok(Some(group))
    }

    /// The group `id`.
    pub fn scim_group(&self, id: &str) -> (r: Result<Option<ScimGroup>, String>)
        ensures
            outcome(r) == Ok::<Option<ScimGroupView>, Seq<char>>(
                crate::answers::group_told(self@, id@),
            ),
    {
        let hit = |g: &ScimGroupRow| -> (b: bool)
            ensures
                b == group_is(id@)(g@),
        {
            same(g.id.as_str(), id)
        };
        match find(&self.groups, hit, Ghost(group_is(id@))) {
            Some(found) => Ok(Some(map_scim_group(&self.members, &self.groups[found]))),
            None => Ok(None),
        }
    }

    /// The group of a name.
    pub fn scim_group_by_name(&self, display_name: &str) -> (r: Result<Option<ScimGroup>, String>)
        ensures
            outcome(r) == Ok::<Option<ScimGroupView>, Seq<char>>(
                crate::answers::group_under_name(self@, display_name@),
            ),
    {
        let hit = |g: &ScimGroupRow| -> (b: bool)
            ensures
                b == group_named(display_name@)(g@),
        {
            same(g.display_name.as_str(), display_name)
        };
        let rows = select(&self.groups, hit, Ghost(group_named(display_name@)));
        Ok(self.first_group(rows))
    }

    /// The first group, by name, under a provider's id.
    pub fn scim_group_by_external_id(&self, external_id: &str) -> (r: Result<
        Option<ScimGroup>,
        String,
    >)
        ensures
            outcome(r) == Ok::<Option<ScimGroupView>, Seq<char>>(
                crate::answers::group_under(self@, external_id@),
            ),
    {
        let hit = |g: &ScimGroupRow| -> (b: bool)
            ensures
                b == group_external(external_id@)(g@),
        {
            match &g.external_id {
                Some(id) => same(id.as_str(), external_id),
                None => false,
            }
        };
        let rows = select(&self.groups, hit, Ghost(group_external(external_id@)));
        Ok(self.first_group(rows))
    }

    fn first_group(&self, rows: Vec<ScimGroupRow>) -> (r: Option<ScimGroup>)
        ensures
            r.deep_view() == group_shown(self@, head(sorted_by(rows.deep_view(), by_name()))),
    {
        let before = |a: &ScimGroupRow, b: &ScimGroupRow| -> (r: bool)
            ensures
                r == by_name()(a@, b@),
        {
            lt(a.display_name.as_str(), b.display_name.as_str())
        };
        let rows = sort_rows(rows, before, Ghost(by_name()));
        if rows.len() == 0 {
            None
        } else {
            Some(map_scim_group(&self.members, &rows[0]))
        }
    }

    /// A page of groups by name with their members, and how many there are.
    pub fn scim_groups_page(&self, limit: usize, offset: usize) -> (r: Result<
        (Vec<ScimGroup>, u64),
        String,
    >)
        ensures
            outcome(r) == if limit > i64::MAX {
                Err("group limit overflow"@)
            } else if offset > i64::MAX {
                Err("group offset overflow"@)
            } else {
                Ok(
                    (
                        page(
                            sorted_by(self@.groups, by_name()),
                            offset as int,
                            limit as int,
                        ).map_values(group_of(self@.members)),
                        self@.groups.len() as u64,
                    ),
                )
            },
    {
        if limit as u64 > i64::MAX as u64 {
            return Err("group limit overflow".to_owned());
        }
        if offset as u64 > i64::MAX as u64 {
            return Err("group offset overflow".to_owned());
        }
        let before = |a: &ScimGroupRow, b: &ScimGroupRow| -> (r: bool)
            ensures
                r == by_name()(a@, b@),
        {
            lt(a.display_name.as_str(), b.display_name.as_str())
        };
        let members = &self.members;
        let read = |g: &ScimGroupRow| -> (r: ScimGroup)
            ensures
                r@ == group_of(members.deep_view())(g@),
        {
            map_scim_group(members, g)
        };
        let rows = sort_rows(crate::table::dup_rows(&self.groups), before, Ghost(by_name()));
        let rows = page_rows(&rows, offset, limit);
        Ok((project(&rows, read, Ghost(group_of(members.deep_view()))), self.groups.len() as u64))
    }

    /// Replaces a group's name and its members, each where one is given; reports
    /// whether there is such a group.
    pub fn replace_scim_group(
        &mut self,
        id: &str,
        display_name: Option<&str>,
        members: Option<&[String]>,
    ) -> (r: Result<bool, String>)
        ensures
            follows(
                group_replaced(
                    old(self)@,
                    id@,
                    display_name.deep_view(),
                    match members {
                        Some(members) => Some(texts(members@)),
                        None => None,
                    },
                ),
                old(self)@,
                final(self)@,
                r,
            ),
    {
        let hit = |g: &ScimGroupRow| -> (b: bool)
            ensures
                b == group_is(id@)(g@),
        {
            same(g.id.as_str(), id)
        };
        if !exists_where(&self.groups, hit, Ghost(group_is(id@))) {
            return Ok(false);
        }
        if let Some(name) = display_name {
            let taken = |g: &ScimGroupRow| -> (b: bool)
                ensures
                    b == named_elsewhere(id@, name@)(g@),
            {
                !same(g.id.as_str(), id) && same(g.display_name.as_str(), name)
            };
            if exists_where(&self.groups, taken, Ghost(named_elsewhere(id@, name@))) {
                return Err(SCIM_GROUP_NAME_TAKEN.to_owned());
            }
            let change = |g: &ScimGroupRow| -> (r: ScimGroupRow)
                ensures
                    r@ == renamed(name@)(g@),
            {
                let mut g = g.dup();
                g.display_name = name.to_owned();
                g
            };
            update_where(
                &mut self.groups,
                hit,
                change,
                Ghost(group_is(id@)),
                Ghost(renamed(name@)),
            );
        }
        if let Some(members) = members {
            let gone = |m: &ScimMemberRow| -> (b: bool)
                ensures
                    b == member_of(id@)(m@),
            {
                same(m.group_id.as_str(), id)
            };
            delete_where(
                &mut self.members,
                gone,
                Ghost(member_of(id@)),
                Ghost(member_of_others(id@)),
            );
            write_scim_members(&mut self.members, id, members);
        }
        Ok(true)
    }

    /// Adds and removes members of a group; reports whether there is such a
    /// group.
    pub fn change_scim_group_members(&mut self, id: &str, add: &[String], remove: &[String]) -> (r: Result<
        bool,
        String,
    >)
        ensures
            follows(
                crate::identities::members_changed(
                    old(self)@,
                    id@,
                    texts(add@),
                    texts(remove@),
                ),
                old(self)@,
                final(self)@,
                r,
            ),
    {
        let hit = |g: &ScimGroupRow| -> (b: bool)
            ensures
                b == group_is(id@)(g@),
        {
            same(g.id.as_str(), id)
        };
        if !exists_where(&self.groups, hit, Ghost(group_is(id@))) {
            return Ok(false);
        }
        write_scim_members(&mut self.members, id, add);
        remove_scim_members(&mut self.members, id, remove);
        Ok(true)
    }

    /// Removes a group and its memberships; reports whether there was one.
    pub fn delete_scim_group(&mut self, id: &str) -> (r: Result<bool, String>)
        ensures
            final(self)@ == crate::identities::without_group(old(self)@, id@),
            outcome(r) == Ok::<bool, Seq<char>>(any(old(self)@.groups, group_is(id@))),
    {
        let own = |m: &ScimMemberRow| -> (b: bool)
            ensures
                b == member_of(id@)(m@),
        {
            same(m.group_id.as_str(), id)
        };
        delete_where(&mut self.members, own, Ghost(member_of(id@)), Ghost(member_of_others(id@)));
        let hit = |g: &ScimGroupRow| -> (b: bool)
            ensures
                b == group_is(id@)(g@),
        {
            same(g.id.as_str(), id)
        };
        proof {
            lemma_filter_any(self@.groups, group_is(id@));
        }
        let n: usize = delete_where(
            &mut self.groups,
            hit,
            Ghost(group_is(id@)),
            Ghost(other_group(id@)),
        );
        Ok(n > 0)
    }

    /// The names of the groups that a subject belongs to, in order.
    pub fn scim_groups_of(&self, subject: &str) -> (r: Result<Vec<String>, String>)
        ensures
            outcome(r) == Ok::<Seq<Seq<char>>, Seq<char>>(
                crate::identities::names_of_groups(self@, subject@),
            ),
    {
        let members = &self.members;
        let hit = |g: &ScimGroupRow| -> (b: bool)
            ensures
                b == group_with(members.deep_view(), subject@)(g@),
        {
            let id = g.id.as_str();
            let there = |m: &ScimMemberRow| -> (b: bool)
                ensures
                    b == membership(id@, subject@)(m@),
            {
                same(m.group_id.as_str(), id) && same(m.subject.as_str(), subject)
            };
            exists_where(members, there, Ghost(membership(id@, subject@)))
        };
        let before = |a: &ScimGroupRow, b: &ScimGroupRow| -> (r: bool)
            ensures
                r == by_name()(a@, b@),
        {
            lt(a.display_name.as_str(), b.display_name.as_str())
        };
        let name = |g: &ScimGroupRow| -> (r: String)
            ensures
                r.deep_view() == group_name()(g@),
        {
            g.display_name.clone()
        };
        let rows = select(&self.groups, hit, Ghost(group_with(members.deep_view(), subject@)));
        let rows = sort_rows(rows, before, Ghost(by_name()));
        Ok(project(&rows, name, Ghost(group_name())))
    }
}

} // verus!
