//! What holds of the store whatever is asked of it.
//!
//! Each law is stated over [`StoreModel`] and proved from the definitions in
//! [`crate::model`], which the operations of the executable store promise
//! to follow.

use crate::access::organizes;
use crate::error::TicketError;
use crate::event::EventView;
use crate::model::{lemma_after_wf, Request, StoreModel};
use crate::ticket::TicketView;
use vstd::prelude::*;

verus! {

/// Whatever requests are served, in whatever order, the store stays
/// consistent.
pub proof fn law_consistency(store: StoreModel, requests: Seq<Request>)
    requires
        store.wf(),
        store.admits_all(requests),
    ensures
        store.after_all(requests).wf(),
    decreases requests.len(),
{
    if requests.len() > 0 {
        law_consistency(store, requests.drop_last());
        lemma_after_wf(store.after_all(requests.drop_last()), requests.last());
    }
}

/// Serving a request never takes an identifier back: both counters stay or
/// grow, and the counter of events grows by one with each registration.
pub proof fn law_counters_grow(store: StoreModel, request: Request)
    requires
        store.admits(request),
    ensures
        store.next_event_id <= store.after(request).next_event_id,
        store.next_ticket_id <= store.after(request).next_ticket_id,
        request is CreateEvent ==> store.after(request).next_event_id == store.next_event_id + 1,
{
}

/// Over a run of requests the counter of events never falls.
proof fn lemma_event_counter_monotone(store: StoreModel, requests: Seq<Request>, i: int)
    requires
        store.admits_all(requests),
        0 <= i <= requests.len(),
    ensures
        store.admits_all(requests.take(i)),
        store.after_all(requests.take(i)).next_event_id <= store.after_all(requests).next_event_id,
    decreases requests.len(),
{
    if i == requests.len() {
        assert(requests.take(i) =~= requests);
    } else {
        let shorter = requests.drop_last();
        lemma_event_counter_monotone(store, shorter, i);
        assert(shorter.take(i) =~= requests.take(i));
        law_counters_grow(store.after_all(shorter), requests.last());
    }
}

/// The identifiers that registrations return are unique and strictly
/// increasing: of two registrations in a run of requests, with whatever
/// served before, between and after them, the later returns the greater
/// identifier. (A registration returns the counter of events as it finds
/// it.)
pub proof fn law_event_ids_increase(store: StoreModel, requests: Seq<Request>, i: int, j: int)
    requires
        store.admits_all(requests),
        0 <= i < j < requests.len(),
        requests[i] is CreateEvent,
        requests[j] is CreateEvent,
    ensures
        store.after_all(requests.take(i)).next_event_id < store.after_all(
            requests.take(j),
        ).next_event_id,
{
    let upto_j = requests.take(j);
    lemma_event_counter_monotone(store, requests, j);
    lemma_event_counter_monotone(store, upto_j, i + 1);
    lemma_event_counter_monotone(store, upto_j, i);
    assert(upto_j.take(i + 1) =~= requests.take(i + 1));
    assert(upto_j.take(i) =~= requests.take(i));
    let upto_i1 = requests.take(i + 1);
    assert(upto_i1.drop_last() =~= requests.take(i));
    assert(upto_i1.last() == requests[i]);
    law_counters_grow(store.after_all(requests.take(i)), requests[i]);
}

/// A registration returns an identifier that no event of the store has, and
/// that is greater than each of theirs.
pub proof fn law_event_id_is_fresh(store: StoreModel, id: u64)
    requires
        store.wf(),
        store.events.contains_key(id),
    ensures
        id < store.next_event_id,
        !store.events.contains_key(store.next_event_id),
{
}

/// Minting a ticket of an event that has sold its whole inventory is
/// refused with `NoTicketsAvailable` and changes nothing, the number sold
/// included.
pub proof fn law_sold_out_is_refused(store: StoreModel, event_id: u64, owner: Seq<u8>, now: u64)
    requires
        store.events.contains_key(event_id),
        store.events[event_id].tickets_sold == store.events[event_id].total_tickets,
    ensures
        store.mint_result(event_id, owner, now) == Err::<TicketView, TicketError>(
            TicketError::NoTicketsAvailable,
        ),
        store.after_mint(event_id, owner, now) == store,
        store.after_mint(event_id, owner, now).events[event_id].tickets_sold
            == store.events[event_id].tickets_sold,
{
}

/// Minting succeeds exactly where the event exists and has inventory left.
/// It then raises the number sold by exactly one, and a new, unused ticket
/// stands in the store and last under its owner.
pub proof fn law_mint_effect(store: StoreModel, event_id: u64, owner: Seq<u8>, now: u64)
    requires
        store.wf(),
    ensures
        store.mint_result(event_id, owner, now) is Ok <==> store.events.contains_key(event_id)
            && store.events[event_id].tickets_sold < store.events[event_id].total_tickets,
        store.mint_result(event_id, owner, now) is Ok ==> ({
            let ticket = store.mint_result(event_id, owner, now)->Ok_0;
            let after = store.after_mint(event_id, owner, now);
            &&& after.events[event_id].tickets_sold == store.events[event_id].tickets_sold + 1
            &&& !ticket.is_used
            &&& ticket.owner == owner
            &&& ticket.event_id == event_id
            &&& !store.tickets.contains_key(ticket.id)
            &&& after.tickets.contains_key(ticket.id)
            &&& after.tickets[ticket.id] == ticket
            &&& after.owned_ids(owner) == store.owned_ids(owner).push(ticket.id)
            &&& after.owned_ids(owner).contains(ticket.id)
        }),
{
    if store.mint_result(event_id, owner, now) is Ok {
        let ticket = store.mint_result(event_id, owner, now)->Ok_0;
        let after = store.after_mint(event_id, owner, now);
        assert(after.owned_ids(owner)[store.owned_ids(owner).len() as int] == ticket.id);
    }
}

/// Redeeming an unused ticket with its token, as the organizer of its
/// event, succeeds and marks the ticket used; the same request once more is
/// refused with `TicketAlreadyUsed`.
pub proof fn law_redeemed_once(store: StoreModel, ticket_id: u64, caller: Seq<u8>)
    requires
        store.wf(),
        store.tickets.contains_key(ticket_id),
        !store.tickets[ticket_id].is_used,
        organizes(store.events[store.tickets[ticket_id].event_id], caller),
    ensures
        ({
            let token = store.tickets[ticket_id].qr_code;
            let after = store.after_validation(ticket_id, token, caller);
            &&& store.validation(ticket_id, token, caller) == Ok::<bool, TicketError>(true)
            &&& after.tickets[ticket_id].is_used
            &&& after.validation(ticket_id, token, caller) == Err::<bool, TicketError>(
                TicketError::TicketAlreadyUsed,
            )
            &&& after.after_validation(ticket_id, token, caller) == after
        }),
{
}

/// Whoever is not the organizer of a ticket's event is refused with
/// `Unauthorized` when redeeming it, whatever the token and whether or not
/// the ticket is used, and the store stays as it was.
pub proof fn law_only_organizer_redeems(
    store: StoreModel,
    ticket_id: u64,
    token: Seq<char>,
    caller: Seq<u8>,
)
    requires
        store.wf(),
        store.tickets.contains_key(ticket_id),
        !organizes(store.events[store.tickets[ticket_id].event_id], caller),
    ensures
        store.validation(ticket_id, token, caller) == Err::<bool, TicketError>(
            TicketError::Unauthorized,
        ),
        store.after_validation(ticket_id, token, caller) == store,
        store.after_validation(ticket_id, token, caller).tickets[ticket_id].is_used
            == store.tickets[ticket_id].is_used,
{
}

/// The organizer who shows a token other than the ticket's, for an unused
/// ticket, is refused with `InvalidQRCode`, and the ticket stays unused.
pub proof fn law_wrong_token_is_refused(
    store: StoreModel,
    ticket_id: u64,
    token: Seq<char>,
    caller: Seq<u8>,
)
    requires
        store.wf(),
        store.tickets.contains_key(ticket_id),
        !store.tickets[ticket_id].is_used,
        organizes(store.events[store.tickets[ticket_id].event_id], caller),
        token != store.tickets[ticket_id].qr_code,
    ensures
        store.validation(ticket_id, token, caller) == Err::<bool, TicketError>(
            TicketError::InvalidQRCode,
        ),
        store.after_validation(ticket_id, token, caller) == store,
        !store.after_validation(ticket_id, token, caller).tickets[ticket_id].is_used,
{
}

/// A ticket is shown to its owner and to the organizer of its event, and to
/// nobody else: any third identity is refused with `Unauthorized`.
pub proof fn law_ticket_disclosure(store: StoreModel, ticket_id: u64, viewer: Seq<u8>)
    requires
        store.wf(),
        store.tickets.contains_key(ticket_id),
    ensures
        ({
            let ticket = store.tickets[ticket_id];
            let organizer = store.events[ticket.event_id].organizer;
            &&& store.disclosure(ticket_id, ticket.owner) == Ok::<TicketView, TicketError>(ticket)
            &&& store.disclosure(ticket_id, organizer) == Ok::<TicketView, TicketError>(ticket)
            &&& viewer != ticket.owner && viewer != organizer ==> store.disclosure(
                ticket_id,
                viewer,
            ) == Err::<TicketView, TicketError>(TicketError::Unauthorized)
        }),
{
}

/// Serving a request changes nothing of what is on record but what it is
/// meant to: an event keeps all but its number sold, which never falls, and
/// a ticket keeps all but its used flag, which is never cleared.
pub proof fn law_records_are_stable(store: StoreModel, request: Request)
    requires
        store.wf(),
        store.admits(request),
    ensures
        forall|id: u64| #[trigger]
            store.events.contains_key(id) ==> {
                let before = store.events[id];
                let after = store.after(request).events[id];
                &&& store.after(request).events.contains_key(id)
                &&& before.tickets_sold <= after.tickets_sold <= before.tickets_sold + 1
                &&& after == (EventView { tickets_sold: after.tickets_sold, ..before })
            },
        forall|id: u64| #[trigger]
            store.tickets.contains_key(id) ==> {
                let before = store.tickets[id];
                let after = store.after(request).tickets[id];
                &&& store.after(request).tickets.contains_key(id)
                &&& before.is_used ==> after.is_used
                &&& after == (TicketView { is_used: after.is_used, ..before })
            },
{
}

} // verus!
