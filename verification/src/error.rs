//! The ways in which an operation on the store can be refused.

use vstd::prelude::*;

verus! {

/// Why an operation was refused. A refused operation leaves the store as it
/// found it.
#[derive(Clone, Copy, Debug, PartialEq, Eq, Structural)]
pub enum TicketError {
    /// No event has the given identifier.
    EventNotFound,
    /// The event has sold its whole inventory.
    NoTicketsAvailable,
    /// The caller lacks the role that the operation asks for.
    Unauthorized,
    /// No ticket has the given identifier.
    TicketNotFound,
    /// The ticket was already redeemed.
    TicketAlreadyUsed,
    /// The submitted proof token is not the one issued with the ticket.
    InvalidQRCode,
}

} // verus!
