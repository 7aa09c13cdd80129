//! Automation tokens, and the deliveries created under them.
use vstd::prelude::*;

use crate::columns::{
    column, decode_error, from_column, from_optional_column, natural, optional, optional_column,
    to_column, to_optional_column, to_wrapped, undecoded, wrapped,
};
use crate::downloads::grant_is;
use crate::issue::operation_is;
use crate::records::{
    AutomationOperation, AutomationOperationView, AutomationToken, AutomationTokenView,
};
use crate::rows::{
    AutomationTokenRow, AutomationTokenRowView, GrantRow, GrantRowView, OperationRow,
    OperationRowView,
};
use crate::store::{Store, StoreView, follows};
use crate::table::{
    Row, any, append_row, dup_option, dup_rows, exists_where, find, first, lemma_filter_any,
    outcome, page, page_rows, project, select, sort_rows, sorted_by, try_project, update_where,
    updated,
};
use crate::text::same;

verus! {

// ------------------------------------------------------------ specifications
/// The tokens of a tenant.
pub open spec fn token_in(tenant: Seq<char>) -> spec_fn(AutomationTokenRowView) -> bool {
    |t: AutomationTokenRowView| t.tenant == tenant
}

/// The token `id`.
pub open spec fn token_is(id: Seq<char>) -> spec_fn(AutomationTokenRowView) -> bool {
    |t: AutomationTokenRowView| t.id == id
}

/// The token under a digest.
pub open spec fn token_with(hash: Seq<char>) -> spec_fn(AutomationTokenRowView) -> bool {
    |t: AutomationTokenRowView| t.token_hash == hash
}

/// The token under a digest, while it is valid at `at`.
pub open spec fn valid_token(hash: Seq<char>, at: i64) -> spec_fn(AutomationTokenRowView) -> bool {
    |t: AutomationTokenRowView| t.token_hash == hash && t.revoked_at is None && t.expires_at > at
}

/// The token `id` of a tenant, unless it was revoked.
pub open spec fn revocable(tenant: Seq<char>, id: Seq<char>) -> spec_fn(AutomationTokenRowView) -> bool {
    |t: AutomationTokenRowView| t.tenant == tenant && t.id == id && t.revoked_at is None
}

/// A token used at a time.
pub open spec fn used(at: i64) -> spec_fn(AutomationTokenRowView) -> AutomationTokenRowView {
    |t: AutomationTokenRowView| AutomationTokenRowView { last_used_at: Some(at), ..t }
}

/// A token revoked at a time.
pub open spec fn revoked_token(at: i64) -> spec_fn(AutomationTokenRowView) -> AutomationTokenRowView {
    |t: AutomationTokenRowView| AutomationTokenRowView { revoked_at: Some(at), ..t }
}

/// Older tokens first.
pub open spec fn older_token() -> spec_fn(AutomationTokenRowView, AutomationTokenRowView) -> bool {
    |a: AutomationTokenRowView, b: AutomationTokenRowView| a.created_at < b.created_at
}

/// The token that a row stands for.
pub open spec fn token_of() -> spec_fn(AutomationTokenRowView) -> Result<
    AutomationTokenView,
    Seq<char>,
> {
    |t: AutomationTokenRowView|
        match t.permissions_error {
            Some(e) => Err(undecoded("0"@, e)),
            None => Ok(
                AutomationTokenView {
                    id: t.id,
                    token_hash: t.token_hash,
                    tenant: t.tenant,
                    label: t.label,
                    directory: t.directory,
                    permissions: t.permissions,
                    created_at: natural(t.created_at),
                    expires_at: natural(t.expires_at),
                    revoked_at: optional(t.revoked_at),
                    last_used_at: optional(t.last_used_at),
                },
            ),
        }
}

/// The row of a token.
pub open spec fn token_row(t: AutomationTokenView) -> AutomationTokenRowView {
    AutomationTokenRowView {
        id: t.id,
        token_hash: t.token_hash,
        tenant: t.tenant,
        label: t.label,
        created_at: column(t.created_at),
        expires_at: column(t.expires_at),
        revoked_at: optional_column(t.revoked_at),
        last_used_at: optional_column(t.last_used_at),
        directory: t.directory,
        permissions: t.permissions,
        permissions_error: None,
    }
}

/// A token inserted, unless its id or digest is there.
pub open spec fn with_token(s: StoreView, t: AutomationTokenView) -> Result<(StoreView, ()), Seq<char>> {
    if any(s.tokens, token_is(t.id)) {
        Err("UNIQUE constraint failed: automation_tokens.id"@)
    } else if any(s.tokens, token_with(t.token_hash)) {
        Err("UNIQUE constraint failed: automation_tokens.token_hash"@)
    } else {
        Ok((StoreView { tokens: s.tokens.push(token_row(t)), ..s }, ()))
    }
}

/// The token under a digest as it authenticates at `at`. Its use is noted even
/// where its permissions do not decode.
pub open spec fn authenticated(s: StoreView, hash: Seq<char>, at: i64) -> (
    StoreView,
    Result<Option<AutomationTokenView>, Seq<char>>,
) {
    (
        StoreView { tokens: updated(s.tokens, valid_token(hash, at), used(at)), ..s },
        match first(s.tokens, valid_token(hash, at)) {
            None => Ok(None),
            Some(t) => match token_of()(used(at)(t)) {
                Ok(token) => Ok(Some(token)),
                Err(e) => Err(e),
            },
        },
    )
}

/// An operation by the grant it created.
pub open spec fn operation_on(token_id: Seq<char>, grant_id: Seq<char>) -> spec_fn(OperationRowView) -> bool {
    |o: OperationRowView| o.token_id == token_id && o.grant_id == grant_id
}

/// Operations of a token behind a row, whose grant is there.
pub open spec fn delivered_by(grants: Seq<GrantRowView>, token_id: Seq<char>, after: i64) -> spec_fn(
    OperationRowView,
) -> bool {
    |o: OperationRowView|
        o.token_id == token_id && o.rowid > after && any(grants, grant_is(o.grant_id))
}

/// Operations in order of their rows.
pub open spec fn by_row() -> spec_fn(OperationRowView, OperationRowView) -> bool {
    |a: OperationRowView, b: OperationRowView| a.rowid < b.rowid
}

/// Row, grant and the grant's digest of an operation.
pub open spec fn delivery_of(grants: Seq<GrantRowView>) -> spec_fn(OperationRowView) -> (
    i64,
    Seq<char>,
    Seq<char>,
) {
    |o: OperationRowView|
        (
            o.rowid,
            o.grant_id,
            match first(grants, grant_is(o.grant_id)) {
                Some(g) => g.token_hash,
                None => Seq::empty(),
            },
        )
}

/// The operation that a row stands for.
pub open spec fn operation_of(o: OperationRowView) -> AutomationOperationView {
    AutomationOperationView {
        token_id: o.token_id,
        operation_id: o.operation_id,
        request_hash: o.request_hash,
        grant_id: o.grant_id,
    }
}

/// A limit as a number of rows: none where it does not fit in a column.
pub open spec fn wrapped_limit(limit: usize) -> Option<int> {
    if wrapped(limit as u64) < 0 {
        None
    } else {
        Some(limit as int)
    }
}

/// The deliveries of a token behind a row.
pub open spec fn deliveries(s: StoreView, token_id: Seq<char>, after: i64, limit: usize) -> Seq<
    (i64, Seq<char>, Seq<char>),
> {
    let rows = sorted_by(
        s.operations.filter(delivered_by(s.grants, token_id, after)),
        by_row(),
    );
    match wrapped_limit(limit) {
        Some(n) => page(rows, 0, n),
        None => rows,
    }.map_values(delivery_of(s.grants))
}

// ---------------------------------------------------------------------- laws
/// A token that was revoked or has expired does not authenticate.
pub proof fn spent_tokens_do_not_authenticate(
    s: StoreView,
    hash: Seq<char>,
    at: i64,
)
    requires
        forall|i: int|
            0 <= i < s.tokens.len() && (#[trigger] s.tokens[i]).token_hash == hash
                ==> s.tokens[i].revoked_at is Some || s.tokens[i].expires_at <= at,
    ensures
        authenticated(s, hash, at).1 == Ok::<Option<AutomationTokenView>, Seq<char>>(None),
        authenticated(s, hash, at).0 == s,
{
    crate::table::lemma_first_found(s.tokens, valid_token(hash, at));
    assert(updated(s.tokens, valid_token(hash, at), used(at)) =~= s.tokens);
}

// ---------------------------------------------------------------- operations
/// The token that a row stands for.
pub fn map_automation_token(t: &AutomationTokenRow) -> (r: Result<AutomationToken, String>)
    ensures
        outcome(r) == token_of()(t@),
{
    if let Some(error) = &t.permissions_error {
        return Err(decode_error("0", error.as_str()));
    }
    Ok(
        AutomationToken {
            id: t.id.clone(),
            token_hash: t.token_hash.clone(),
            tenant: t.tenant.clone(),
            label: t.label.clone(),
            directory: dup_option(&t.directory),
            permissions: dup_rows(&t.permissions),
            created_at: from_column(t.created_at),
            expires_at: from_column(t.expires_at),
            revoked_at: from_optional_column(t.revoked_at),
            last_used_at: from_optional_column(t.last_used_at),
        },
    )
}

impl Store {
    /// Inserts a token.
    pub fn insert_automation_token(&mut self, token: AutomationToken) -> (r: Result<(), String>)
        ensures
            follows(with_token(old(self)@, token@), old(self)@, final(self)@, r),
    {
        let same_id = |t: &AutomationTokenRow| -> (b: bool)
            ensures
                b == token_is(token.id@)(t@),
        {
            same(t.id.as_str(), token.id.as_str())
        };
        if exists_where(&self.tokens, same_id, Ghost(token_is(token.id@))) {
            return Err("UNIQUE constraint failed: automation_tokens.id".to_owned());
        }
        let same_hash = |t: &AutomationTokenRow| -> (b: bool)
            ensures
                b == token_with(token.token_hash@)(t@),
        {
            same(t.token_hash.as_str(), token.token_hash.as_str())
        };
        if exists_where(&self.tokens, same_hash, Ghost(token_with(token.token_hash@))) {
            return Err("UNIQUE constraint failed: automation_tokens.token_hash".to_owned());
        }
        append_row(
            &mut self.tokens,
            AutomationTokenRow {
                id: token.id.clone(),
                token_hash: token.token_hash.clone(),
                tenant: token.tenant.clone(),
                label: token.label.clone(),
                created_at: to_column(token.created_at),
                expires_at: to_column(token.expires_at),
                revoked_at: to_optional_column(token.revoked_at),
                last_used_at: to_optional_column(token.last_used_at),
                directory: dup_option(&token.directory),
                permissions: dup_rows(&token.permissions),
                permissions_error: None,
            },
        );
        Ok(())
    }

    /// A tenant's tokens, oldest first.
    pub fn automation_tokens(&self, tenant: &str) -> (r: Result<Vec<AutomationToken>, String>)
        ensures
            outcome(r) == crate::answers::tokens_told(self@, tenant@),
    {
        let own = |t: &AutomationTokenRow| -> (b: bool)
            ensures
                b == token_in(tenant@)(t@),
        {
            same(t.tenant.as_str(), tenant)
        };
        let older = |a: &AutomationTokenRow, b: &AutomationTokenRow| -> (r: bool)
            ensures
                r == older_token()(a@, b@),
        {
            a.created_at < b.created_at
        };
        let read = |t: &AutomationTokenRow| -> (r: Result<AutomationToken, String>)
            ensures
                outcome(r) == token_of()(t@),
        {
            map_automation_token(t)
        };
        let rows = select(&self.tokens, own, Ghost(token_in(tenant@)));
        let rows = sort_rows(rows, older, Ghost(older_token()));
        try_project(&rows, read, Ghost(token_of()))
    }

    /// The token under a digest, if it is valid at `at`; its use is noted.
    pub fn authenticate_automation_token(&mut self, token_hash: &str, at: u64) -> (r: Result<
        Option<AutomationToken>,
        String,
    >)
        ensures
            final(self)@ == authenticated(old(self)@, token_hash@, column(at)).0,
            outcome(r) == authenticated(old(self)@, token_hash@, column(at)).1,
    {
        let at: i64 = to_column(at);
        let valid = |t: &AutomationTokenRow| -> (b: bool)
            ensures
                b == valid_token(token_hash@, at)(t@),
        {
            same(t.token_hash.as_str(), token_hash) && t.revoked_at.is_none() && t.expires_at > at
        };
        let change = |t: &AutomationTokenRow| -> (r: AutomationTokenRow)
            ensures
                r@ == used(at)(t@),
        {
            let mut t = t.dup();
            t.last_used_at = Some(at);
            t
        };
        let token = match find(&self.tokens, valid, Ghost(valid_token(token_hash@, at))) {
            Some(found) => {
                let mut row = self.tokens[found].dup();
                row.last_used_at = Some(at);
                match map_automation_token(&row) {
                    Ok(token) => Ok(Some(token)),
                    Err(error) => Err(error),
                }
            },
            None => Ok(None),
        };
        update_where(
            &mut self.tokens,
            valid,
            change,
            Ghost(valid_token(token_hash@, at)),
            Ghost(used(at)),
        );
        token
    }

    /// Revokes a token; reports whether there was one to revoke.
    pub fn revoke_automation_token(&mut self, tenant: &str, id: &str, at: u64) -> (r: Result<
        bool,
        String,
    >)
        ensures
            final(self)@ == crate::issuance::with_token_revoked(
                old(self)@,
                tenant@,
                id@,
                column(at),
            ),
            outcome(r) == Ok::<bool, Seq<char>>(any(old(self)@.tokens, revocable(tenant@, id@))),
    {
        let at: i64 = to_column(at);
        let hit = |t: &AutomationTokenRow| -> (b: bool)
            ensures
                b == revocable(tenant@, id@)(t@),
        {
            same(t.tenant.as_str(), tenant) && same(t.id.as_str(), id) && t.revoked_at.is_none()
        };
        let change = |t: &AutomationTokenRow| -> (r: AutomationTokenRow)
            ensures
                r@ == revoked_token(at)(t@),
        {
            let mut t = t.dup();
            t.revoked_at = Some(at);
            t
        };
        proof {
            lemma_filter_any(self@.tokens, revocable(tenant@, id@));
        }
        let n: usize = update_where(
            &mut self.tokens,
            hit,
            change,
            Ghost(revocable(tenant@, id@)),
            Ghost(revoked_token(at)),
        );
        Ok(n > 0)
    }

    /// An operation of a token.
    pub fn automation_operation(&self, token_id: &str, operation_id: &str) -> (r: Result<
        Option<AutomationOperation>,
        String,
    >)
        ensures
            outcome(r) == Ok::<Option<AutomationOperationView>, Seq<char>>(
                crate::answers::operation_told(self@, token_id@, operation_id@),
            ),
    {
        let hit = |o: &OperationRow| -> (b: bool)
            ensures
                b == operation_is(token_id@, operation_id@)(o@),
        {
            same(o.token_id.as_str(), token_id) && same(o.operation_id.as_str(), operation_id)
        };
        match find(&self.operations, hit, Ghost(operation_is(token_id@, operation_id@))) {
            Some(found) => {
                let o = &self.operations[found];
                Ok(
                    Some(
                        AutomationOperation {
                            token_id: o.token_id.clone(),
                            operation_id: o.operation_id.clone(),
                            request_hash: o.request_hash.clone(),
                            grant_id: o.grant_id.clone(),
                        },
                    ),
                )
            },
            None => Ok(None),
        }
    }

    /// The operation of a token that created a grant, and the grant's digest.
    pub fn automation_delivery(&self, token_id: &str, grant_id: &str) -> (r: Result<
        Option<(String, String)>,
        String,
    >)
        ensures
            outcome(r) == Ok::<Option<(Seq<char>, Seq<char>)>, Seq<char>>(
                crate::answers::delivery_told(self@, token_id@, grant_id@),
            ),
    {
        let hit = |o: &OperationRow| -> (b: bool)
            ensures
                b == operation_on(token_id@, grant_id@)(o@),
        {
            same(o.token_id.as_str(), token_id) && same(o.grant_id.as_str(), grant_id)
        };
        let grant = |g: &GrantRow| -> (b: bool)
            ensures
                b == grant_is(grant_id@)(g@),
        {
            same(g.id.as_str(), grant_id)
        };
        match (
            find(&self.operations, hit, Ghost(operation_on(token_id@, grant_id@))),
            find(&self.grants, grant, Ghost(grant_is(grant_id@))),
        ) {
            (Some(o), Some(g)) => Ok(
                Some((self.operations[o].operation_id.clone(), self.grants[g].token_hash.clone())),
            ),
            _ => Ok(None),
        }
    }

    /// Row, grant and the grant's digest of a token's deliveries behind a row.
    pub fn automation_deliveries(&self, token_id: &str, after: i64, limit: usize) -> (r: Result<
        Vec<(i64, String, String)>,
        String,
    >)
        ensures
            outcome(r) == Ok::<Seq<(i64, Seq<char>, Seq<char>)>, Seq<char>>(
                deliveries(self@, token_id@, after, limit),
            ),
    {
        let grants = &self.grants;
        let hit = |o: &OperationRow| -> (b: bool)
            ensures
                b == delivered_by(grants.deep_view(), token_id@, after)(o@),
        {
            let id = o.grant_id.as_str();
            let grant = |g: &GrantRow| -> (b: bool)
                ensures
                    b == grant_is(id@)(g@),
            {
                same(g.id.as_str(), id)
            };
            same(o.token_id.as_str(), token_id) && o.rowid > after && exists_where(
                grants,
                grant,
                Ghost(grant_is(id@)),
            )
        };
        let before = |a: &OperationRow, b: &OperationRow| -> (r: bool)
            ensures
                r == by_row()(a@, b@),
        {
            a.rowid < b.rowid
        };
        let show = |o: &OperationRow| -> (r: (i64, String, String))
            ensures
                r.deep_view() == delivery_of(grants.deep_view())(o@),
        {
            let id = o.grant_id.as_str();
            let grant = |g: &GrantRow| -> (b: bool)
                ensures
                    b == grant_is(id@)(g@),
            {
                same(g.id.as_str(), id)
            };
            let hash = match find(grants, grant, Ghost(grant_is(id@))) {
                Some(found) => grants[found].token_hash.clone(),
                None => String::new(),
            };
            (o.rowid, o.grant_id.clone(), hash)
        };
        let rows = select(
            &self.operations,
            hit,
            Ghost(delivered_by(grants.deep_view(), token_id@, after)),
        );
        let rows = sort_rows(rows, before, Ghost(by_row()));
        let rows = if to_wrapped(limit as u64) < 0 {
            rows
        } else {
            page_rows(&rows, 0, limit)
        };
        Ok(project(&rows, show, Ghost(delivery_of(grants.deep_view()))))
    }
}

} // verus!
