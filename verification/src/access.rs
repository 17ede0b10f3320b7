//! Who may do what: the two roles that the store asks for.

use crate::event::{Event, EventView};
use crate::identity::Identity;
use crate::ticket::{Ticket, TicketView};
use vstd::prelude::*;

verus! {

/// Whether `identity` registered `event`.
pub open spec fn organizes(event: EventView, identity: Seq<u8>) -> bool {
    event.organizer == identity
}

/// Whether `identity` may see `ticket`, a ticket of `event`: its owner may,
/// and so may the organizer of its event, whether or not they own it; nobody
/// else may.
pub open spec fn may_view(ticket: TicketView, event: EventView, identity: Seq<u8>) -> bool {
    ticket.owner == identity || organizes(event, identity)
}

/// Whether `identity` is the organizer of `event`.
pub fn is_organizer(event: &Event, identity: &Identity) -> (allowed: bool)
    ensures
        allowed == organizes(event@, identity@),
{
    event.organizer == *identity
}

/// Whether `identity` owns `ticket` or organizes `event`, the event that the
/// ticket belongs to.
pub fn is_owner_or_organizer(ticket: &Ticket, event: &Event, identity: &Identity) -> (allowed:
    bool)
    ensures
        allowed == may_view(ticket@, event@, identity@),
{
    ticket.owner == *identity || is_organizer(event, identity)
}

} // verus!
