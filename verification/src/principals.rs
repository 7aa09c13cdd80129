//! Principals that sign in, and whether their sessions are still valid.
use vstd::prelude::*;

use crate::clock::{clock_gave, now_unix, time_of};
use crate::columns::{
    column_or_zero, decode_error, from_column, natural, to_column_or_zero, undecoded,
};
use crate::like::{
    anywhere, anywhere_pattern, complexity, complexity_error, escape_like, escaped, is_like,
    is_too_complex, like, too_complex,
};
use crate::json::{parse_json, parsed_json};
use crate::records::{Principal, PrincipalView};
use crate::rows::{PrincipalRow, PrincipalRowView};
use crate::store::{Store, StoreView, follows};
use crate::table::{
    Row, any, append_row, count, dup_option, dup_rows, exists_where, find, first, lemma_filter_any,
    outcome, page, page_rows, select, sort_rows, sorted_by, try_map, try_project, update_where,
    updated,
};
use crate::text::{chars, lt, same, text_lt, texts, to_list};

verus! {

// ------------------------------------------------------------ specifications
/// The principal of a subject.
pub open spec fn principal_is(subject: Seq<char>) -> spec_fn(PrincipalRowView) -> bool {
    |p: PrincipalRowView| p.subject == subject
}

/// The principal that a row stands for, its grants being what the decoder makes
/// of them.
pub open spec fn principal_with(p: PrincipalRowView, grants: Result<Seq<char>, Seq<char>>) -> Result<
    PrincipalView,
    Seq<char>,
> {
    match p.document_error {
        Some(e) => Err(undecoded("4"@, e)),
        None => match grants {
            Err(e) => Err(undecoded("5"@, e)),
            Ok(grants) => Ok(
                PrincipalView {
                    subject: p.subject,
                    blocked: p.blocked,
                    credential_version: natural(p.credential_version),
                    last_login_at: natural(p.last_login_at),
                    last_groups: p.last_groups,
                    last_grants: grants,
                    source: p.source,
                    external_id: p.external_id,
                    created_at: natural(p.created_at),
                },
            ),
        },
    }
}

/// The principal that a row stands for.
pub open spec fn principal_of() -> spec_fn(PrincipalRowView) -> Result<PrincipalView, Seq<char>> {
    |p: PrincipalRowView| principal_with(p, parsed_json(p.last_grants))
}

/// Principals whose subject holds a word, in either case of ASCII letters.
pub open spec fn subject_holds(query: Option<Seq<char>>) -> spec_fn(PrincipalRowView) -> bool {
    |p: PrincipalRowView|
        match query {
            None => true,
            Some(word) => like(p.subject, anywhere(escaped(word))),
        }
}

/// The last to sign in first, those of the same time by subject.
pub open spec fn recent_login() -> spec_fn(PrincipalRowView, PrincipalRowView) -> bool {
    |a: PrincipalRowView, b: PrincipalRowView|
        if a.last_login_at != b.last_login_at {
            a.last_login_at > b.last_login_at
        } else {
            text_lt(a.subject, b.subject)
        }
}

/// Principals by subject.
pub open spec fn by_subject() -> spec_fn(PrincipalRowView, PrincipalRowView) -> bool {
    |a: PrincipalRowView, b: PrincipalRowView| text_lt(a.subject, b.subject)
}

/// A page of principals in an order, and how many there are in all.
pub open spec fn principals_listed(
    s: StoreView,
    limit: usize,
    offset: usize,
    query: Option<Seq<char>>,
    order: spec_fn(PrincipalRowView, PrincipalRowView) -> bool,
) -> Result<(Seq<PrincipalView>, u64), Seq<char>> {
    if limit > i64::MAX {
        Err("principal limit overflow"@)
    } else if offset > i64::MAX {
        Err("principal offset overflow"@)
    } else if s.principals.len() > 0 && query is Some && too_complex(
        anywhere(escaped(query->0)),
    ) {
        Err(complexity())
    } else {
        match try_map(
            page(
                sorted_by(s.principals.filter(subject_holds(query)), order),
                offset as int,
                limit as int,
            ),
            principal_of(),
        ) {
            Err(e) => Err(e),
            Ok(principals) => Ok(
                (principals, count(s.principals, subject_holds(query)) as u64),
            ),
        }
    }
}

/// A principal that has signed in, at time `at`; a blocked one stays as it was.
pub open spec fn signed_in(at: i64, groups: Seq<Seq<char>>, grants: Seq<char>) -> spec_fn(
    PrincipalRowView,
) -> PrincipalRowView {
    |p: PrincipalRowView|
        if p.blocked {
            p
        } else {
            PrincipalRowView {
                last_login_at: at,
                last_groups: groups,
                last_grants: grants,
                document_error: None,
                ..p
            }
        }
}

/// A principal that signs in for the first time.
pub open spec fn newcomer(subject: Seq<char>, at: i64, groups: Seq<Seq<char>>, grants: Seq<char>) -> PrincipalRowView {
    PrincipalRowView {
        subject,
        credential_version: 1,
        blocked: false,
        last_login_at: at,
        last_groups: groups,
        last_grants: grants,
        document_error: None,
        source: "sso"@,
        external_id: None,
        created_at: at,
    }
}

/// A sign-in recorded, and the principal it leaves.
pub open spec fn sign_in(
    s: StoreView,
    subject: Seq<char>,
    groups: Seq<Seq<char>>,
    grants: Seq<char>,
    now: u64,
) -> Result<(StoreView, PrincipalView), Seq<char>> {
    let at = column_or_zero(now);
    match first(s.principals, principal_is(subject)) {
        None => {
            let p = newcomer(subject, at, groups, grants);
            match principal_of()(p) {
                Err(e) => Err(e),
                Ok(principal) => Ok(
                    (StoreView { principals: s.principals.push(p), ..s }, principal),
                ),
            }
        },
        Some(p) => match principal_of()(signed_in(at, groups, grants)(p)) {
            Err(e) => Err(e),
            Ok(principal) => Ok(
                (
                    StoreView {
                        principals: updated(
                            s.principals,
                            principal_is(subject),
                            signed_in(at, groups, grants),
                        ),
                        ..s
                    },
                    principal,
                ),
            ),
        },
    }
}

/// A principal that was provisioned and has not signed in.
pub open spec fn provisioned(subject: Seq<char>, external_id: Option<Seq<char>>, at: i64) -> PrincipalRowView {
    PrincipalRowView {
        subject,
        credential_version: 1,
        blocked: false,
        last_login_at: 0,
        last_groups: Seq::empty(),
        last_grants: "[]"@,
        document_error: None,
        source: "scim"@,
        external_id,
        created_at: at,
    }
}

/// A principal provisioned, unless the subject is known.
pub open spec fn provisioning(
    s: StoreView,
    subject: Seq<char>,
    external_id: Option<Seq<char>>,
    now: u64,
) -> (StoreView, bool) {
    if any(s.principals, principal_is(subject)) {
        (s, false)
    } else {
        (
            StoreView {
                principals: s.principals.push(
                    provisioned(subject, external_id, column_or_zero(now)),
                ),
                ..s
            },
            true,
        )
    }
}

/// Principals under a provisioning system's id.
pub open spec fn external_is(external_id: Seq<char>) -> spec_fn(PrincipalRowView) -> bool {
    |p: PrincipalRowView| p.external_id == Some(external_id)
}

/// A principal whose sessions are no longer valid.
pub open spec fn revoked_principal() -> spec_fn(PrincipalRowView) -> PrincipalRowView {
    |p: PrincipalRowView|
        PrincipalRowView {
            credential_version: (p.credential_version + 1) as i64,
            blocked: true,
            ..p
        }
}

/// A principal's version that cannot grow.
pub open spec fn last_version(subject: Seq<char>) -> spec_fn(PrincipalRowView) -> bool {
    |p: PrincipalRowView| p.subject == subject && p.credential_version == i64::MAX
}

/// A principal that may sign in again.
pub open spec fn unblocked() -> spec_fn(PrincipalRowView) -> PrincipalRowView {
    |p: PrincipalRowView| PrincipalRowView { blocked: false, ..p }
}

/// Whether a session of a subject under a credential version is valid.
pub open spec fn allows(s: StoreView, subject: Seq<char>, version: u64) -> bool {
    match first(s.principals, principal_is(subject)) {
        None => version == 1,
        Some(p) => match principal_of()(p) {
            Ok(principal) => version == principal.credential_version && !principal.blocked,
            Err(_) => false,
        },
    }
}

// ---------------------------------------------------------------------- laws
/// Revoking a principal ends its sessions: no version is valid until it is
/// unblocked, and then none that was valid before.
pub proof fn revocation_ends_sessions(s: StoreView, subject: Seq<char>, version: u64)
    requires
        first(s.principals, principal_is(subject)) matches Some(p) && 0 <= p.credential_version
            < i64::MAX,
    ensures
        ({
            let known = principal_is(subject);
            let revoked = StoreView {
                principals: updated(s.principals, known, revoked_principal()),
                ..s
            };
            let again = StoreView {
                principals: updated(revoked.principals, known, unblocked()),
                ..s
            };
            &&& !allows(revoked, subject, version)
            &&& allows(s, subject, version) ==> !allows(again, subject, version)
        }),
{
    let known = principal_is(subject);
    crate::table::lemma_first_updated(s.principals, known, revoked_principal());
    crate::table::lemma_first_updated(
        updated(s.principals, known, revoked_principal()),
        known,
        unblocked(),
    );
}

/// A blocked principal's sign-in leaves it as it was.
pub proof fn blocked_sign_in_changes_nothing(
    s: StoreView,
    subject: Seq<char>,
    groups: Seq<Seq<char>>,
    grants: Seq<char>,
    now: u64,
)
    requires
        forall|i: int|
            0 <= i < s.principals.len() && (#[trigger] s.principals[i]).subject == subject
                ==> s.principals[i].blocked,
        any(s.principals, principal_is(subject)),
    ensures
        sign_in(s, subject, groups, grants, now) matches Ok((after, _)) ==> after == s,
{
    crate::table::lemma_first_found(s.principals, principal_is(subject));
    let u = signed_in(column_or_zero(now), groups, grants);
    assert(updated(s.principals, principal_is(subject), u) =~= s.principals);
}

// ---------------------------------------------------------------- operations
/// The principal that a row stands for.
pub fn map_principal(p: &PrincipalRow) -> (r: Result<Principal, String>)
    ensures
        outcome(r) == principal_of()(p@),
{
    read_principal(p, parse_json(p.last_grants.as_str()))
}

/// The principal that a row stands for, its grants being what the decoder makes
/// of them.
pub fn read_principal(p: &PrincipalRow, grants: Result<String, String>) -> (r: Result<
    Principal,
    String,
>)
    ensures
        outcome(r) == principal_with(p@, outcome(grants)),
{
    if let Some(error) = &p.document_error {
        return Err(decode_error("4", error.as_str()));
    }
    let grants = match grants {
        Ok(grants) => grants,
        Err(error) => {
            return Err(decode_error("5", error.as_str()));
        },
    };
    Ok(
        Principal {
            subject: p.subject.clone(),
            blocked: p.blocked,
            credential_version: from_column(p.credential_version),
            last_login_at: from_column(p.last_login_at),
            last_groups: dup_rows(&p.last_groups),
            last_grants: grants,
            source: p.source.clone(),
            external_id: dup_option(&p.external_id),
            created_at: from_column(p.created_at),
        },
    )
}

fn sign_in_row(p: &PrincipalRow, at: i64, groups: &Vec<String>, grants: &str) -> (r: PrincipalRow)
    ensures
        r@ == signed_in(at, groups.deep_view(), grants@)(p@),
{
    let mut r = p.dup();
    if !r.blocked {
        r.last_login_at = at;
        r.last_groups = dup_rows(groups);
        r.last_grants = grants.to_owned();
        r.document_error = None;
    }
    r
}

impl Store {
    /// The principal of a subject.
    pub fn principal(&self, subject: &str) -> (r: Result<Option<Principal>, String>)
        ensures
            outcome(r) == crate::answers::principal_told(self@, subject@),
    {
        let hit = |p: &PrincipalRow| -> (b: bool)
            ensures
                b == principal_is(subject@)(p@),
        {
            same(p.subject.as_str(), subject)
        };
        match find(&self.principals, hit, Ghost(principal_is(subject@))) {
            Some(found) => match map_principal(&self.principals[found]) {
                Ok(principal) => Ok(Some(principal)),
                Err(error) => Err(error),
            },
            None => Ok(None),
        }
    }

    /// A page of principals, the last to sign in first.
    pub fn principals_page(&self, limit: usize, offset: usize, query: Option<&str>) -> (r: Result<
        (Vec<Principal>, u64),
        String,
    >)
        ensures
            outcome(r) == principals_listed(
                self@,
                limit,
                offset,
                query.deep_view(),
                recent_login(),
            ),
    {
        let before = |a: &PrincipalRow, b: &PrincipalRow| -> (r: bool)
            ensures
                r == recent_login()(a@, b@),
        {
            if a.last_login_at != b.last_login_at {
                a.last_login_at > b.last_login_at
            } else {
                lt(a.subject.as_str(), b.subject.as_str())
            }
        };
        self.principals_page_ordered(limit, offset, query, before, Ghost(recent_login()))
    }

    /// A page of principals by subject: a subject does not change, so a walk
    /// over the pages is stable while principals sign in.
    pub fn scim_principals_page(&self, limit: usize, offset: usize) -> (r: Result<
        (Vec<Principal>, u64),
        String,
    >)
        ensures
            outcome(r) == principals_listed(self@, limit, offset, None, by_subject()),
    {
        let before = |a: &PrincipalRow, b: &PrincipalRow| -> (r: bool)
            ensures
                r == by_subject()(a@, b@),
        {
            lt(a.subject.as_str(), b.subject.as_str())
        };
        self.principals_page_ordered(limit, offset, None, before, Ghost(by_subject()))
    }

    fn principals_page_ordered<F: Fn(&PrincipalRow, &PrincipalRow) -> bool>(
        &self,
        limit: usize,
        offset: usize,
        query: Option<&str>,
        before: F,
        Ghost(order): Ghost<spec_fn(PrincipalRowView, PrincipalRowView) -> bool>,
    ) -> (r: Result<(Vec<Principal>, u64), String>)
        requires
            forall|a: &PrincipalRow, b: &PrincipalRow| before.requires((a, b)),
            forall|a: &PrincipalRow, b: &PrincipalRow, r: bool|
                before.ensures((a, b), r) ==> r == order(a@, b@),
        ensures
            outcome(r) == principals_listed(self@, limit, offset, query.deep_view(), order),
    {
        if limit as u64 > i64::MAX as u64 {
            return Err("principal limit overflow".to_owned());
        }
        if offset as u64 > i64::MAX as u64 {
            return Err("principal offset overflow".to_owned());
        }
        if let Some(word) = query {
            if self.principals.len() > 0 && is_too_complex(escape_like(word).as_str()) {
                return Err(complexity_error());
            }
        }
        let pattern = match query {
            Some(word) => anywhere_pattern(escape_like(word).as_str()),
            None => Vec::new(),
        };
        let hit = |p: &PrincipalRow| -> (b: bool)
            ensures
                b == subject_holds(query.deep_view())(p@),
        {
            query.is_none() || is_like(&chars(p.subject.as_str()), &pattern)
        };
        let read = |p: &PrincipalRow| -> (r: Result<Principal, String>)
            ensures
                outcome(r) == principal_of()(p@),
        {
            map_principal(p)
        };
        let rows = select(&self.principals, hit, Ghost(subject_holds(query.deep_view())));
        let total: u64 = rows.len() as u64;
        let rows = sort_rows(rows, before, Ghost(order));
        let rows = page_rows(&rows, offset, limit);
        match try_project(&rows, read, Ghost(principal_of())) {
            Ok(principals) => Ok((principals, total)),
            Err(error) => Err(error),
        }
    }

    /// Records a sign-in that happens now. `grants` is JSON text.
    pub fn upsert_sso_principal(&mut self, subject: &str, groups: &[String], grants: &str) -> (r: Result<
        Principal,
        String,
    >)
        ensures
            exists|reading: Option<u64>| #[trigger]
                clock_gave(reading) && follows(
                    sign_in(old(self)@, subject@, texts(groups@), grants@, time_of(reading)),
                    old(self)@,
                    final(self)@,
                    r,
                ),
    {
        let now: u64 = now_unix();
        self.upsert_sso_principal_at(subject, groups, grants, now)
    }

    /// Records a sign-in at time `now`, without resetting version or block. A
    /// blocked principal keeps what its last sign-in left.
    pub fn upsert_sso_principal_at(
        &mut self,
        subject: &str,
        groups: &[String],
        grants: &str,
        now: u64,
    ) -> (r: Result<Principal, String>)
        ensures
            follows(
                sign_in(old(self)@, subject@, texts(groups@), grants@, now),
                old(self)@,
                final(self)@,
                r,
            ),
    {
        let at: i64 = to_column_or_zero(now);
        let groups = to_list(groups);
        let hit = |p: &PrincipalRow| -> (b: bool)
            ensures
                b == principal_is(subject@)(p@),
        {
            same(p.subject.as_str(), subject)
        };
        match find(&self.principals, hit, Ghost(principal_is(subject@))) {
            Some(found) => {
                let row = sign_in_row(&self.principals[found], at, &groups, grants);
                let principal = match map_principal(&row) {
                    Ok(principal) => principal,
                    Err(error) => {
                        return Err(error);
                    },
                };
                let change = |p: &PrincipalRow| -> (r: PrincipalRow)
                    ensures
                        r@ == signed_in(at, groups.deep_view(), grants@)(p@),
                {
                    sign_in_row(p, at, &groups, grants)
                };
                update_where(
                    &mut self.principals,
                    hit,
                    change,
                    Ghost(principal_is(subject@)),
                    Ghost(signed_in(at, groups.deep_view(), grants@)),
                );
                Ok(principal)
            },
            None => {
                let row = PrincipalRow {
                    subject: subject.to_owned(),
                    credential_version: 1,
                    blocked: false,
                    last_login_at: at,
                    last_groups: groups,
                    last_grants: grants.to_owned(),
                    document_error: None,
                    source: "sso".to_owned(),
                    external_id: None,
                    created_at: at,
                };
                match map_principal(&row) {
                    Ok(principal) => {
                        append_row(&mut self.principals, row);
                        Ok(principal)
                    },
                    Err(error) => Err(error),
                }
            },
        }
    }

    /// Provisions a principal now; reports whether the subject was unknown.
    pub fn provision_principal(&mut self, subject: &str, external_id: Option<&str>) -> (r: Result<
        bool,
        String,
    >)
        ensures
            exists|reading: Option<u64>| #[trigger]
                clock_gave(reading) && ({
                    let (after, done) = provisioning(
                        old(self)@,
                        subject@,
                        external_id.deep_view(),
                        time_of(reading),
                    );
                    final(self)@ == after && outcome(r) == Ok::<bool, Seq<char>>(done)
                }),
    {
        let now: u64 = now_unix();
        self.provision_principal_at(subject, external_id, now)
    }

    /// Provisions a principal at time `now`; reports whether the subject was
    /// unknown.
    pub fn provision_principal_at(&mut self, subject: &str, external_id: Option<&str>, now: u64) -> (r: Result<
        bool,
        String,
    >)
        ensures
            final(self)@ == provisioning(old(self)@, subject@, external_id.deep_view(), now).0,
            outcome(r) == Ok::<bool, Seq<char>>(
                provisioning(old(self)@, subject@, external_id.deep_view(), now).1,
            ),
    {
        let hit = |p: &PrincipalRow| -> (b: bool)
            ensures
                b == principal_is(subject@)(p@),
        {
            same(p.subject.as_str(), subject)
        };
        if exists_where(&self.principals, hit, Ghost(principal_is(subject@))) {
            return Ok(false);
        }
        let none: Vec<String> = Vec::new();
        assert(none.deep_view() =~= Seq::<Seq<char>>::empty());
        append_row(
            &mut self.principals,
            PrincipalRow {
                subject: subject.to_owned(),
                credential_version: 1,
                blocked: false,
                last_login_at: 0,
                last_groups: none,
                last_grants: "[]".to_owned(),
                document_error: None,
                source: "scim".to_owned(),
                external_id: match external_id {
                    Some(id) => Some(id.to_owned()),
                    None => None,
                },
                created_at: to_column_or_zero(now),
            },
        );
        Ok(true)
    }

    /// The first principal, by subject, under a provisioning system's id.
    pub fn principal_by_external_id(&self, external_id: &str) -> (r: Result<
        Option<Principal>,
        String,
    >)
        ensures
            outcome(r) == crate::answers::principal_under(self@, external_id@),
    {
        let hit = |p: &PrincipalRow| -> (b: bool)
            ensures
                b == external_is(external_id@)(p@),
        {
            match &p.external_id {
                Some(id) => same(id.as_str(), external_id),
                None => false,
            }
        };
        let before = |a: &PrincipalRow, b: &PrincipalRow| -> (r: bool)
            ensures
                r == by_subject()(a@, b@),
        {
            lt(a.subject.as_str(), b.subject.as_str())
        };
        let rows = select(&self.principals, hit, Ghost(external_is(external_id@)));
        let rows = sort_rows(rows, before, Ghost(by_subject()));
        if rows.len() == 0 {
            return Ok(None);
        }
        match map_principal(&rows[0]) {
            Ok(principal) => Ok(Some(principal)),
            Err(error) => Err(error),
        }
    }

    /// Whether a session of a subject under a credential version is still valid.
    /// A subject without a row has version 1; a row that cannot be read denies.
    pub fn principal_allows(&self, subject: &str, credential_version: u64) -> (r: bool)
        ensures
            r == allows(self@, subject@, credential_version),
    {
        match self.principal(subject) {
            Ok(None) => credential_version == 1,
            Ok(Some(row)) => credential_version == row.credential_version && !row.blocked,
            Err(_) => false,
        }
    }

    /// Ends the sessions of a principal and blocks it; reports whether there is
    /// one. A version that cannot grow is refused.
    pub fn revoke_principal(&mut self, subject: &str) -> (r: Result<bool, String>)
        ensures
            follows(
                crate::identities::revoking(old(self)@, subject@),
                old(self)@,
                final(self)@,
                r,
            ),
    {
        let last = |p: &PrincipalRow| -> (b: bool)
            ensures
                b == last_version(subject@)(p@),
        {
            same(p.subject.as_str(), subject) && p.credential_version == i64::MAX
        };
        if exists_where(&self.principals, last, Ghost(last_version(subject@))) {
            return Err("credential version overflow".to_owned());
        }
        let ghost before = self@.principals;
        let mut i: usize = 0;
        let mut found = false;
        while i < self.principals.len()
            invariant
                i <= self.principals.len(),
                self.principals.len() == before.len(),
                !any(before, last_version(subject@)),
                found == exists|k: int| 0 <= k < i && principal_is(subject@)(#[trigger] before[k]),
                forall|k: int|
                    0 <= k < i ==> (#[trigger] self.principals@[k])@ == if principal_is(subject@)(
                        before[k],
                    ) {
                        revoked_principal()(before[k])
                    } else {
                        before[k]
                    },
                forall|k: int|
                    i <= k < before.len() ==> (#[trigger] self.principals@[k])@ == before[k],
                self@ == (StoreView { principals: self@.principals, ..old(self)@ }),
            decreases self.principals.len() - i,
        {
            if same(self.principals[i].subject.as_str(), subject) {
                assert(!last_version(subject@)(before[i as int]));
                assert(principal_is(subject@)(before[i as int]));
                let mut row = self.principals[i].dup();
                row.credential_version = row.credential_version + 1;
                row.blocked = true;
                self.principals.set(i, row);
                found = true;
            }
            i += 1;
        }
        assert(self@.principals =~= updated(before, principal_is(subject@), revoked_principal()));
        Ok(found)
    }

    /// Lets a principal sign in again; reports whether there is one.
    pub fn unblock_principal(&mut self, subject: &str) -> (r: Result<bool, String>)
        ensures
            final(self)@ == crate::identities::unblocking(old(self)@, subject@),
            outcome(r) == Ok::<bool, Seq<char>>(any(old(self)@.principals, principal_is(subject@))),
    {
        let hit = |p: &PrincipalRow| -> (b: bool)
            ensures
                b == principal_is(subject@)(p@),
        {
            same(p.subject.as_str(), subject)
        };
        let change = |p: &PrincipalRow| -> (r: PrincipalRow)
            ensures
                r@ == unblocked()(p@),
        {
            let mut p = p.dup();
            p.blocked = false;
            p
        };
        proof {
            lemma_filter_any(self@.principals, principal_is(subject@));
        }
        let n: usize = update_where(
            &mut self.principals,
            hit,
            change,
            Ghost(principal_is(subject@)),
            Ghost(unblocked()),
        );
        Ok(n > 0)
    }
}

} // verus!
