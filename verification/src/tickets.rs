//! Fetch tickets: capabilities minted against a grant's remaining downloads.
use vstd::prelude::*;

use crate::columns::{from_column, natural, to_wrapped, wrapped};
use crate::lifecycle::usable_at;
use crate::records::{FetchTicket, FetchTicketView, JobRelease, JobReleaseView};
use crate::rows::{GrantRow, GrantRowView, TicketRow, TicketRowView};
use crate::store::{Store, StoreView, follows};
use crate::table::{
    Row, any, append_row, count, count_where, delete_where, exists_where, find, outcome, project,
    select, update_where, updated,
};
use crate::text::{list_has, same};

verus! {

// ------------------------------------------------------------ specifications
/// Whether a job's release lets a ticket through: it was minted under the
/// project's present policy, and its holder is among the recipients.
pub open spec fn released_to(release: Option<JobReleaseView>, ticket: FetchTicketView) -> bool {
    match release {
        None => ticket.policy_revision == 0,
        Some(job) => job.revision == ticket.policy_revision && (job.recipients.len() == 0
            || job.recipients.contains(ticket.holder)),
    }
}

/// Live, undelivered tickets of the ticket's grant.
pub open spec fn pending(ticket: FetchTicketView, now: i64) -> spec_fn(TicketRowView) -> bool {
    |t: TicketRowView|
        t.grant_id == ticket.grant_id && t.expires_at > now && t.delivered_at is None
}

/// Pending tickets that hold a download of the ticket's grant: those admitted,
/// and those minted under the grant's present token and policy.
pub open spec fn reserving(ticket: FetchTicketView, now: i64) -> spec_fn(TicketRowView) -> bool {
    |t: TicketRowView|
        pending(ticket, now)(t) && (t.admitted_at is Some || (t.grant_token_hash
            == ticket.grant_token_hash && t.policy_revision == wrapped(ticket.policy_revision)))
}

/// Reserving tickets that a new ticket of this holder does not replace.
pub open spec fn reserved_by_others(ticket: FetchTicketView, now: i64) -> spec_fn(
    TicketRowView,
) -> bool {
    |t: TicketRowView|
        pending(ticket, now)(t) && (t.admitted_at is Some || (t.grant_token_hash
            == ticket.grant_token_hash && t.policy_revision == wrapped(ticket.policy_revision)
            && t.holder != ticket.holder))
}

/// Whether a grant leaves room for one more ticket.
pub open spec fn mintable(tickets: Seq<TicketRowView>, ticket: FetchTicketView, now: i64) -> spec_fn(
    GrantRowView,
) -> bool {
    |g: GrantRowView|
        g.id == ticket.grant_id && g.token_hash == ticket.grant_token_hash && g.revoked_at is None
            && g.expires_at > now && match g.max_downloads {
            None => true,
            Some(max) => g.downloads + count(tickets, reserved_by_others(ticket, now)) < max,
        }
}

/// The ticket `token_id`.
pub open spec fn ticket_is(token_id: Seq<char>) -> spec_fn(TicketRowView) -> bool {
    |t: TicketRowView| t.token_id == token_id
}

/// The holder's other pending tickets that were not admitted.
pub open spec fn replaced(ticket: FetchTicketView, now: i64) -> spec_fn(TicketRowView) -> bool {
    |t: TicketRowView|
        pending(ticket, now)(t) && t.holder == ticket.holder && t.token_id != ticket.token_id
            && t.admitted_at is None
}

/// The tickets that a new ticket leaves in place.
pub open spec fn kept(ticket: FetchTicketView, now: i64) -> spec_fn(TicketRowView) -> bool {
    |t: TicketRowView| !replaced(ticket, now)(t)
}

/// The row of a new ticket.
pub open spec fn minted_row(ticket: FetchTicketView) -> TicketRowView {
    TicketRowView {
        token_id: ticket.token_id,
        grant_id: ticket.grant_id,
        manifest_root: ticket.manifest_root,
        expires_at: wrapped(ticket.expires_at),
        delivered_at: None,
        holder: ticket.holder,
        grant_token_hash: ticket.grant_token_hash,
        policy_revision: wrapped(ticket.policy_revision),
        admitted_at: None,
    }
}

/// A ticket minted, as far as its grant leaves room for it.
pub open spec fn minted(
    s: StoreView,
    ticket: FetchTicketView,
    now: i64,
    release: Option<JobReleaseView>,
) -> Result<(StoreView, bool), Seq<char>> {
    if !released_to(release, ticket) || !any(s.grants, mintable(s.tickets, ticket, now)) {
        Ok((s, false))
    } else if any(s.tickets, ticket_is(ticket.token_id)) {
        Err("UNIQUE constraint failed: outbound_fetch_tickets.token_id"@)
    } else {
        Ok(
            (
                StoreView {
                    tickets: s.tickets.push(minted_row(ticket)).filter(kept(ticket, now)),
                    ..s
                },
                true,
            ),
        )
    }
}

/// The row of a ticket while it can be admitted.
pub open spec fn admissible(ticket: FetchTicketView, now: i64) -> spec_fn(TicketRowView) -> bool {
    |t: TicketRowView|
        t.token_id == ticket.token_id && t.grant_id == ticket.grant_id && t.grant_token_hash
            == ticket.grant_token_hash && t.expires_at > now
}

/// The usable grant of a ticket.
pub open spec fn backing(ticket: FetchTicketView, now: i64) -> spec_fn(GrantRowView) -> bool {
    |g: GrantRowView|
        g.id == ticket.grant_id && g.token_hash == ticket.grant_token_hash && usable_at(g, now)
}

/// A ticket admitted at time `now`, unless it was admitted before.
pub open spec fn admitted(now: i64) -> spec_fn(TicketRowView) -> TicketRowView {
    |t: TicketRowView|
        TicketRowView {
            admitted_at: match t.admitted_at {
                Some(before) => Some(before),
                None => Some(now),
            },
            ..t
        }
}

/// A ticket admitted, as far as its grant can still be downloaded from.
pub open spec fn admission(
    s: StoreView,
    ticket: FetchTicketView,
    now: i64,
    release: Option<JobReleaseView>,
) -> (StoreView, bool) {
    if !released_to(release, ticket) || !any(s.grants, backing(ticket, now)) {
        (s, false)
    } else {
        (
            StoreView {
                tickets: updated(s.tickets, admissible(ticket, now), admitted(now)),
                ..s
            },
            count(s.tickets, admissible(ticket, now)) == 1,
        )
    }
}

/// The ticket that a row stands for.
pub open spec fn ticket_of() -> spec_fn(TicketRowView) -> FetchTicketView {
    |t: TicketRowView|
        FetchTicketView {
            holder: t.holder,
            grant_token_hash: t.grant_token_hash,
            policy_revision: natural(t.policy_revision),
            token_id: t.token_id,
            grant_id: t.grant_id,
            manifest_root: t.manifest_root,
            expires_at: natural(t.expires_at),
            delivered_at: match t.delivered_at {
                Some(at) => Some(natural(at)),
                None => None,
            },
        }
}

/// Tickets not expired at `now`.
pub open spec fn unexpired(now: i64) -> spec_fn(TicketRowView) -> bool {
    |t: TicketRowView| t.expires_at > now
}

/// Tickets that expired before a time.
pub open spec fn expired_before(before: i64) -> spec_fn(TicketRowView) -> bool {
    |t: TicketRowView| t.expires_at < before
}

/// Tickets that had not expired before a time.
pub open spec fn not_expired_before(before: i64) -> spec_fn(TicketRowView) -> bool {
    |t: TicketRowView| t.expires_at >= before
}

// ---------------------------------------------------------------------- laws
proof fn lemma_count_kept(
    tickets: Seq<TicketRowView>,
    keep: spec_fn(TicketRowView) -> bool,
    p: spec_fn(TicketRowView) -> bool,
    q: spec_fn(TicketRowView) -> bool,
)
    requires
        forall|i: int|
            0 <= i < tickets.len() && keep(tickets[i]) && p(tickets[i]) ==> q(#[trigger] tickets[i]),
    ensures
        count(tickets.filter(keep), p) <= count(tickets, q),
    decreases tickets.len(),
{
    reveal(Seq::filter);
    if tickets.len() > 0 {
        let h = tickets.drop_last();
        assert forall|i: int| 0 <= i < h.len() && keep(h[i]) && p(h[i]) implies q(
            #[trigger] h[i],
        ) by {
            assert(tickets[i] == h[i]);
        }
        lemma_count_kept(h, keep, p, q);
        let last = tickets.last();
        assert(tickets[tickets.len() - 1] == last);
        if keep(last) {
            let f = h.filter(keep);
            crate::table::lemma_filter_push(f, last, p);
        }
    }
}

/// A grant's downloads and the tickets reserved against it never exceed its
/// limit through a minted ticket: whoever holds them, the reservations under
/// the present token and policy, the new one among them, fit in what is left.
pub proof fn minting_respects_the_limit(
    s: StoreView,
    ticket: FetchTicketView,
    now: i64,
    release: Option<JobReleaseView>,
    g: GrantRowView,
)
    requires
        minted(s, ticket, now, release) matches Ok((_, done)) && done,
        mintable(s.tickets, ticket, now)(g),
        g.max_downloads is Some,
    ensures
        ({
            let after = minted(s, ticket, now, release)->Ok_0.0;
            g.downloads + count(after.tickets, reserving(ticket, now)) <= g.max_downloads->0
        }),
{
    let row = minted_row(ticket);
    let keep = kept(ticket, now);
    let all = reserving(ticket, now);
    let others = reserved_by_others(ticket, now);
    assert forall|i: int|
        0 <= i < s.tickets.len() && keep(s.tickets[i]) && all(s.tickets[i]) implies others(
        #[trigger] s.tickets[i],
    ) by {
        let t = s.tickets[i];
        assert(!ticket_is(ticket.token_id)(t));
    }
    lemma_count_kept(s.tickets, keep, all, others);
    assert(keep(row));
    crate::table::lemma_filter_push(s.tickets, row, keep);
    crate::table::lemma_filter_push(s.tickets.filter(keep), row, all);
}

/// A delivered ticket still reserves nothing: once its delivery is recorded it
/// no longer counts against the grant.
pub proof fn delivery_frees_the_reservation(ticket: FetchTicketView, now: i64, t: TicketRowView)
    requires
        t.delivered_at is Some,
    ensures
        !reserving(ticket, now)(t),
        !reserved_by_others(ticket, now)(t),
{
}

// ---------------------------------------------------------------- operations
fn is_pending(t: &TicketRow, ticket: &FetchTicket, now: i64) -> (r: bool)
    ensures
        r == pending(ticket@, now)(t@),
{
    same(t.grant_id.as_str(), ticket.grant_id.as_str()) && t.expires_at > now
        && t.delivered_at.is_none()
}

fn is_released(release: Option<&JobRelease>, ticket: &FetchTicket) -> (r: bool)
    ensures
        r == released_to(release.deep_view(), ticket@),
{
    match release {
        None => ticket.policy_revision == 0,
        Some(job) => job.revision == ticket.policy_revision && (job.recipients.len() == 0
            || list_has(&job.recipients, ticket.holder.as_str())),
    }
}

/// The ticket that a row stands for.
pub fn map_fetch_ticket(t: &TicketRow) -> (r: FetchTicket)
    ensures
        r@ == ticket_of()(t@),
{
    FetchTicket {
        holder: t.holder.clone(),
        grant_token_hash: t.grant_token_hash.clone(),
        policy_revision: from_column(t.policy_revision),
        token_id: t.token_id.clone(),
        grant_id: t.grant_id.clone(),
        manifest_root: t.manifest_root.clone(),
        expires_at: from_column(t.expires_at),
        delivered_at: match t.delivered_at {
            Some(at) => Some(from_column(at)),
            None => None,
        },
    }
}

impl Store {
    /// Records a minted ticket against its grant, if the downloads recorded and
    /// the tickets still pending leave room under the grant's limit. The
    /// holder's own ticket that was not admitted is replaced; admitted tickets
    /// and those of other holders keep their reservation. `release` is the
    /// release of the job that issued the grant, if one did.
    pub fn put_fetch_ticket(
        &mut self,
        ticket: &FetchTicket,
        now: u64,
        release: Option<&JobRelease>,
    ) -> (r: Result<bool, String>)
        ensures
            follows(
                minted(old(self)@, ticket@, wrapped(now), release.deep_view()),
                old(self)@,
                final(self)@,
                r,
            ),
    {
        if !is_released(release, ticket) {
            return Ok(false);
        }
        let at: i64 = to_wrapped(now);
        let revision: i64 = to_wrapped(ticket.policy_revision);
        let held = |t: &TicketRow| -> (b: bool)
            ensures
                b == reserved_by_others(ticket@, at)(t@),
        {
            is_pending(t, ticket, at) && (t.admitted_at.is_some() || (same(
                t.grant_token_hash.as_str(),
                ticket.grant_token_hash.as_str(),
            ) && t.policy_revision == revision && !same(t.holder.as_str(), ticket.holder.as_str())))
        };
        let reserved: usize = count_where(
            &self.tickets,
            held,
            Ghost(reserved_by_others(ticket@, at)),
        );
        let tickets = &self.tickets;
        let room = |g: &GrantRow| -> (b: bool)
            ensures
                b == mintable(tickets.deep_view(), ticket@, at)(g@),
        {
            same(g.id.as_str(), ticket.grant_id.as_str()) && same(
                g.token_hash.as_str(),
                ticket.grant_token_hash.as_str(),
            ) && g.revoked_at.is_none() && g.expires_at > at && match g.max_downloads {
                None => true,
                Some(max) => (g.downloads as i128 + reserved as i128) < max as i128,
            }
        };
        if !exists_where(&self.grants, room, Ghost(mintable(tickets.deep_view(), ticket@, at))) {
            return Ok(false);
        }
        let taken = |t: &TicketRow| -> (b: bool)
            ensures
                b == ticket_is(ticket.token_id@)(t@),
        {
            same(t.token_id.as_str(), ticket.token_id.as_str())
        };
        if exists_where(&self.tickets, taken, Ghost(ticket_is(ticket.token_id@))) {
            return Err("UNIQUE constraint failed: outbound_fetch_tickets.token_id".to_owned());
        }
        append_row(
            &mut self.tickets,
            TicketRow {
                token_id: ticket.token_id.clone(),
                grant_id: ticket.grant_id.clone(),
                manifest_root: ticket.manifest_root.clone(),
                expires_at: to_wrapped(ticket.expires_at),
                delivered_at: None,
                holder: ticket.holder.clone(),
                grant_token_hash: ticket.grant_token_hash.clone(),
                policy_revision: revision,
                admitted_at: None,
            },
        );
        let old_ones = |t: &TicketRow| -> (b: bool)
            ensures
                b == replaced(ticket@, at)(t@),
        {
            is_pending(t, ticket, at) && same(t.holder.as_str(), ticket.holder.as_str()) && !same(
                t.token_id.as_str(),
                ticket.token_id.as_str(),
            ) && t.admitted_at.is_none()
        };
        delete_where(
            &mut self.tickets,
            old_ones,
            Ghost(replaced(ticket@, at)),
            Ghost(kept(ticket@, at)),
        );
        Ok(true)
    }

    /// Admits a ticket, if its grant can still be downloaded from.
    pub fn admit_fetch_ticket(
        &mut self,
        ticket: &FetchTicket,
        now: u64,
        release: Option<&JobRelease>,
    ) -> (r: Result<bool, String>)
        ensures
            final(self)@ == admission(old(self)@, ticket@, wrapped(now), release.deep_view()).0,
            outcome(r) == Ok::<bool, Seq<char>>(
                admission(old(self)@, ticket@, wrapped(now), release.deep_view()).1,
            ),
    {
        if !is_released(release, ticket) {
            return Ok(false);
        }
        let at: i64 = to_wrapped(now);
        let owner = |g: &GrantRow| -> (b: bool)
            ensures
                b == backing(ticket@, at)(g@),
        {
            same(g.id.as_str(), ticket.grant_id.as_str()) && same(
                g.token_hash.as_str(),
                ticket.grant_token_hash.as_str(),
            ) && g.revoked_at.is_none() && g.expires_at > at && match g.max_downloads {
                Some(max) => g.downloads < max,
                None => true,
            }
        };
        if !exists_where(&self.grants, owner, Ghost(backing(ticket@, at))) {
            return Ok(false);
        }
        let hit = |t: &TicketRow| -> (b: bool)
            ensures
                b == admissible(ticket@, at)(t@),
        {
            same(t.token_id.as_str(), ticket.token_id.as_str()) && same(
                t.grant_id.as_str(),
                ticket.grant_id.as_str(),
            ) && same(t.grant_token_hash.as_str(), ticket.grant_token_hash.as_str())
                && t.expires_at > at
        };
        let change = |t: &TicketRow| -> (r: TicketRow)
            ensures
                r@ == admitted(at)(t@),
        {
            let mut t = t.dup();
            if t.admitted_at.is_none() {
                t.admitted_at = Some(at);
            }
            t
        };
        let changed: usize = update_where(
            &mut self.tickets,
            hit,
            change,
            Ghost(admissible(ticket@, at)),
            Ghost(admitted(at)),
        );
        Ok(changed == 1)
    }

    /// The ticket `token_id`.
    pub fn fetch_ticket(&self, token_id: &str) -> (r: Result<Option<FetchTicket>, String>)
        ensures
            outcome(r) == Ok::<Option<FetchTicketView>, Seq<char>>(
                crate::answers::ticket_told(self@, token_id@),
            ),
    {
        let hit = |t: &TicketRow| -> (b: bool)
            ensures
                b == ticket_is(token_id@)(t@),
        {
            same(t.token_id.as_str(), token_id)
        };
        match find(&self.tickets, hit, Ghost(ticket_is(token_id@))) {
            Some(found) => Ok(Some(map_fetch_ticket(&self.tickets[found]))),
            None => Ok(None),
        }
    }

    /// The tickets not yet expired, delivered or not: a capability is good for
    /// its whole window.
    pub fn unexpired_fetch_tickets(&self, now: u64) -> (r: Result<Vec<FetchTicket>, String>)
        ensures
            outcome(r) == Ok::<Seq<FetchTicketView>, Seq<char>>(
                crate::answers::tickets_told(self@, wrapped(now)),
            ),
    {
        let at: i64 = to_wrapped(now);
        let live = |t: &TicketRow| -> (b: bool)
            ensures
                b == unexpired(at)(t@),
        {
            t.expires_at > at
        };
        let read = |t: &TicketRow| -> (r: FetchTicket)
            ensures
                r.deep_view() == ticket_of()(t@),
        {
            map_fetch_ticket(t)
        };
        let rows = select(&self.tickets, live, Ghost(unexpired(at)));
        Ok(project(&rows, read, Ghost(ticket_of())))
    }

    /// Drops the tickets that expired before a time and reports how many.
    pub fn prune_fetch_tickets(&mut self, before: u64) -> (r: Result<usize, String>)
        ensures
            final(self)@ == crate::answers::without_expired(old(self)@, wrapped(before)),
            r matches Ok(n) && n == count(old(self)@.tickets, expired_before(wrapped(before))),
    {
        let at: i64 = to_wrapped(before);
        let gone = |t: &TicketRow| -> (b: bool)
            ensures
                b == expired_before(at)(t@),
        {
            t.expires_at < at
        };
        let n: usize = delete_where(
            &mut self.tickets,
            gone,
            Ghost(expired_before(at)),
            Ghost(not_expired_before(at)),
        );
        Ok(n)
    }
}

} // verus!
