//! Who may fetch: tickets are minted while a grant has room, and admitted while it can be
//! downloaded from.
use vstd::prelude::*;

use crate::columns::wrapped;
use crate::records::{FetchTicketView, JobReleaseView};
use crate::rows::{GrantRowView, TicketRowView};
use crate::selection::{lemma_changed, lemma_counted, lemma_found, lemma_selected};
use crate::store::StoreView;
use crate::table::{any, count, first};
use crate::tickets::{
    admissible, admission, admitted, backing, expired_before, kept, mintable, minted, minted_row,
    not_expired_before, reserved_by_others, ticket_is, ticket_of, unexpired,
};

verus! {

/// Whether a ticket's holder is entitled: under the release of a job at its present
/// revision, or without a job.
pub open spec fn entitled(release: Option<JobReleaseView>, ticket: FetchTicketView) -> bool {
    &&& release is None ==> ticket.policy_revision == 0
    &&& release is Some ==> ticket.policy_revision == (release->0).revision
    &&& release is Some && (release->0).recipients.len() > 0 ==> exists|i: int|
        0 <= i < (release->0).recipients.len() && (release->0).recipients[i] == ticket.holder
}

/// The tickets that hold a download of a grant against a new ticket: live, not delivered,
/// and admitted or of another holder under the same token and policy.
pub open spec fn standing(tickets: Seq<TicketRowView>, ticket: FetchTicketView, now: i64) -> nat {
    tickets.filter(
        |t: TicketRowView|
            {
                &&& t.grant_id == ticket.grant_id
                &&& t.delivered_at is None
                &&& now < t.expires_at
                &&& t.admitted_at is None ==> t.holder != ticket.holder && t.grant_token_hash
                    == ticket.grant_token_hash && t.policy_revision == wrapped(
                    ticket.policy_revision,
                )
            },
    ).len()
}

/// Whether a grant is a ticket's and can still be downloaded from at a time, with
/// `standing` downloads held by others.
pub open spec fn has_room(g: GrantRowView, ticket: FetchTicketView, now: i64, standing: nat) -> bool {
    &&& g.id == ticket.grant_id
    &&& g.token_hash == ticket.grant_token_hash
    &&& g.revoked_at is None
    &&& now < g.expires_at
    &&& g.max_downloads is Some ==> g.downloads + standing < g.max_downloads->0
}

proof fn lemma_room(s: StoreView, ticket: FetchTicketView, now: i64)
    ensures
        any(s.grants, mintable(s.tickets, ticket, now)) <==> exists|g: GrantRowView| #[trigger]
            s.grants.contains(g) && has_room(g, ticket, now, standing(s.tickets, ticket, now)),
        any(s.grants, backing(ticket, now)) <==> exists|g: GrantRowView| #[trigger]
            s.grants.contains(g) && has_room(g, ticket, now, 0),
        any(s.tickets, ticket_is(ticket.token_id)) <==> exists|t: TicketRowView| #[trigger]
            s.tickets.contains(t) && t.token_id == ticket.token_id,
{
    lemma_found(s.grants, mintable(s.tickets, ticket, now));
    lemma_found(s.grants, backing(ticket, now));
    lemma_found(s.tickets, ticket_is(ticket.token_id));
    let raw = |t: TicketRowView|
        {
            &&& t.grant_id == ticket.grant_id
            &&& t.delivered_at is None
            &&& now < t.expires_at
            &&& t.admitted_at is None ==> t.holder != ticket.holder && t.grant_token_hash
                == ticket.grant_token_hash && t.policy_revision == wrapped(ticket.policy_revision)
        };
    lemma_counted(s.tickets, reserved_by_others(ticket, now), raw);
    assert(count(s.tickets, reserved_by_others(ticket, now)) == standing(s.tickets, ticket, now));
    let n = standing(s.tickets, ticket, now);
    assert forall|g: GrantRowView| #[trigger] s.grants.contains(g) implies (mintable(
        s.tickets,
        ticket,
        now,
    )(g) <==> has_room(g, ticket, now, n)) && (backing(ticket, now)(g) <==> has_room(
        g,
        ticket,
        now,
        0,
    )) by {}
}

/// A ticket is minted exactly if its holder is entitled to it and its grant has room for it,
/// and is refused only where its id is taken. It is recorded as it is, in place of the
/// holder's live tickets for the grant that were neither delivered nor admitted; nothing
/// else changes.
pub proof fn tickets_are_minted_while_there_is_room(
    s: StoreView,
    ticket: FetchTicketView,
    now: i64,
    release: Option<JobReleaseView>,
)
    ensures
        ({
            let may = entitled(release, ticket) && exists|g: GrantRowView| #[trigger]
                s.grants.contains(g) && has_room(g, ticket, now, standing(s.tickets, ticket, now));
            let taken = exists|t: TicketRowView| #[trigger]
                s.tickets.contains(t) && t.token_id == ticket.token_id;
            match minted(s, ticket, now, release) {
                Err(_) => may && taken,
                Ok((after, false)) => !may && after == s,
                Ok((after, true)) => {
                    &&& may && !taken
                    &&& after == StoreView { tickets: after.tickets, ..s }
                    &&& forall|t: TicketRowView| #[trigger]
                        after.tickets.contains(t) <==> (t.token_id == ticket.token_id && t.grant_id
                            == ticket.grant_id && t.manifest_root == ticket.manifest_root
                            && t.holder == ticket.holder && t.grant_token_hash
                            == ticket.grant_token_hash && t.expires_at == wrapped(
                            ticket.expires_at,
                        ) && t.policy_revision == wrapped(ticket.policy_revision)
                            && t.delivered_at is None && t.admitted_at is None) || (
                        s.tickets.contains(t) && !(t.grant_id == ticket.grant_id && t.holder
                            == ticket.holder && now < t.expires_at && t.delivered_at is None
                            && t.admitted_at is None))
                },
            }
        }),
{
    lemma_room(s, ticket, now);
    if release is Some {
        assert((release->0).recipients.contains(ticket.holder) <==> exists|i: int|
            0 <= i < (release->0).recipients.len() && (release->0).recipients[i] == ticket.holder);
    }
    if let Ok((after, true)) = minted(s, ticket, now, release) {
        let row = minted_row(ticket);
        let pushed = s.tickets.push(row);
        lemma_selected(pushed, kept(ticket, now));
        assert forall|t: TicketRowView| pushed.contains(t) <==> s.tickets.contains(t) || t
            == row by {
            assert(pushed[s.tickets.len() as int] == row);
            if s.tickets.contains(t) {
                let i = choose|i: int| 0 <= i < s.tickets.len() && s.tickets[i] == t;
                assert(pushed[i] == t);
            }
        }
        assert(kept(ticket, now)(row));
        assert forall|t: TicketRowView| #[trigger]
            s.tickets.contains(t) implies t.token_id != ticket.token_id by {}
    }
}

/// A ticket that was minted is read back as it was given.
pub proof fn minted_tickets_read_back(
    s: StoreView,
    ticket: FetchTicketView,
    now: i64,
    release: Option<JobReleaseView>,
)
    requires
        ticket.expires_at <= i64::MAX,
        ticket.policy_revision <= i64::MAX,
        ticket.delivered_at is None,
    ensures
        minted(s, ticket, now, release) matches Ok((after, true)) ==> {
            let found = first(after.tickets, ticket_is(ticket.token_id));
            found is Some && ticket_of()(found->0) == ticket
        },
{
    if let Ok((after, true)) = minted(s, ticket, now, release) {
        tickets_are_minted_while_there_is_room(s, ticket, now, release);
        let row = minted_row(ticket);
        lemma_found(after.tickets, ticket_is(ticket.token_id));
        assert(after.tickets.contains(row));
        let t = first(after.tickets, ticket_is(ticket.token_id))->0;
        if s.tickets.contains(t) {
            assert(t.token_id != ticket.token_id);
        }
        assert(t == row);
    }
}

/// A ticket is admitted exactly if its holder is entitled to it, its grant can be downloaded
/// from, and its record is live under the grant's token. From then on it is marked as
/// admitted; other tickets and everything else stay as they were.
pub proof fn tickets_are_admitted_while_the_grant_stands(
    s: StoreView,
    ticket: FetchTicketView,
    now: i64,
    release: Option<JobReleaseView>,
)
    requires
        forall|i: int, j: int|
            0 <= i < j < s.tickets.len() ==> s.tickets[i].token_id != s.tickets[j].token_id,
    ensures
        ({
            let (after, done) = admission(s, ticket, now, release);
            &&& done <==> entitled(release, ticket) && (exists|g: GrantRowView| #[trigger]
                s.grants.contains(g) && has_room(g, ticket, now, 0)) && exists|t: TicketRowView|
             #[trigger]
                s.tickets.contains(t) && t.token_id == ticket.token_id && t.grant_id
                    == ticket.grant_id && t.grant_token_hash == ticket.grant_token_hash && now
                    < t.expires_at
            &&& after == StoreView { tickets: after.tickets, ..s }
            &&& after.tickets.len() == s.tickets.len()
            &&& forall|i: int|
                0 <= i < s.tickets.len() ==> {
                    let t = #[trigger] after.tickets[i];
                    &&& t == TicketRowView { admitted_at: t.admitted_at, ..s.tickets[i] }
                    &&& t.admitted_at == if done && s.tickets[i].token_id == ticket.token_id
                        && s.tickets[i].admitted_at is None {
                        Some(now)
                    } else {
                        s.tickets[i].admitted_at
                    }
                }
        }),
{
    lemma_room(s, ticket, now);
    let p = admissible(ticket, now);
    lemma_found(s.tickets, p);
    lemma_changed(s.tickets, p, admitted(now));
    if release is Some {
        assert((release->0).recipients.contains(ticket.holder) <==> exists|i: int|
            0 <= i < (release->0).recipients.len() && (release->0).recipients[i] == ticket.holder);
    }
    crate::table::lemma_filter_any(s.tickets, p);
    assert(count(s.tickets, p) <= 1) by {
        crate::uniqueness::lemma_filter_pairs(
            s.tickets,
            p,
            |a: TicketRowView, b: TicketRowView| a.token_id != b.token_id,
        );
        crate::table::lemma_filter_any_of(s.tickets, p);
        let f = s.tickets.filter(p);
        if f.len() > 1 {
            assert(p(f[0]) && p(f[1]));
            assert((|a: TicketRowView, b: TicketRowView| a.token_id != b.token_id)(f[0], f[1]));
        }
    }
    let (after, done) = admission(s, ticket, now, release);
    assert forall|i: int| 0 <= i < s.tickets.len() implies {
        let t = #[trigger] after.tickets[i];
        &&& t == TicketRowView { admitted_at: t.admitted_at, ..s.tickets[i] }
        &&& t.admitted_at == if done && s.tickets[i].token_id == ticket.token_id
            && s.tickets[i].admitted_at is None {
            Some(now)
        } else {
            s.tickets[i].admitted_at
        }
    } by {
        if done && s.tickets[i].token_id == ticket.token_id {
            let k = choose|k: int| 0 <= k < s.tickets.len() && p(#[trigger] s.tickets[k]);
            if k < i {
                assert(s.tickets[k].token_id != s.tickets[i].token_id);
            } else if i < k {
                assert(s.tickets[i].token_id != s.tickets[k].token_id);
            }
        }
        if p(s.tickets[i]) {
            assert(s.tickets.contains(s.tickets[i]));
        }
    }
}

/// The tickets that are told as unexpired are those that end after the time, as they are
/// recorded; pruning leaves exactly those that end at the time or later, and counts the
/// rest.
pub proof fn tickets_end_when_they_expire(tickets: Seq<TicketRowView>, at: i64)
    ensures
        forall|t: TicketRowView| #[trigger]
            tickets.filter(unexpired(at)).contains(t) <==> tickets.contains(t) && at
                < t.expires_at,
        forall|t: TicketRowView| #[trigger]
            tickets.filter(not_expired_before(at)).contains(t) <==> tickets.contains(t) && at
                <= t.expires_at,
        count(tickets, expired_before(at)) + tickets.filter(not_expired_before(at)).len()
            == tickets.len(),
        forall|t: TicketRowView|
            {
                let told = #[trigger] ticket_of()(t);
                &&& told.token_id == t.token_id && told.grant_id == t.grant_id
                &&& told.holder == t.holder && told.grant_token_hash == t.grant_token_hash
                &&& told.manifest_root == t.manifest_root
                &&& told.delivered_at is Some <==> t.delivered_at is Some
                &&& t.expires_at >= 0 ==> told.expires_at == t.expires_at
                &&& t.policy_revision >= 0 ==> told.policy_revision == t.policy_revision
            },
    decreases tickets.len(),
{
    lemma_selected(tickets, unexpired(at));
    lemma_selected(tickets, not_expired_before(at));
    if tickets.len() > 0 {
        let h = tickets.drop_last();
        tickets_end_when_they_expire(h, at);
        assert(h.push(tickets.last()) =~= tickets);
        crate::table::lemma_filter_push(h, tickets.last(), expired_before(at));
        crate::table::lemma_filter_push(h, tickets.last(), not_expired_before(at));
    } else {
        reveal(Seq::filter);
    }
}

} // verus!
