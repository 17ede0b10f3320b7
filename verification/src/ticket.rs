//! The record of a ticket.

use crate::identity::Identity;
use vstd::prelude::*;

verus! {

/// A ticket minted against an event. Once minted, only `is_used` changes,
/// once, from `false` to `true`.
#[derive(Debug, PartialEq, Eq)]
pub struct Ticket {
    pub id: u64,
    pub event_id: u64,
    pub owner: Identity,
    /// The time of issuance, as the host counts it.
    pub purchase_date: u64,
    /// The proof token, which the holder shows to be admitted.
    pub qr_code: String,
    pub is_used: bool,
}

/// What a [`Ticket`] holds, as plain values.
pub struct TicketView {
    pub id: u64,
    pub event_id: u64,
    pub owner: Seq<u8>,
    pub purchase_date: u64,
    pub qr_code: Seq<char>,
    pub is_used: bool,
}

impl TicketView {
    /// The ticket after it was redeemed.
    pub open spec fn redeemed(self) -> TicketView {
        TicketView { is_used: true, ..self }
    }
}

impl View for Ticket {
    type V = TicketView;

    open spec fn view(&self) -> TicketView {
        TicketView {
            id: self.id,
            event_id: self.event_id,
            owner: self.owner@,
            purchase_date: self.purchase_date,
            qr_code: self.qr_code@,
            is_used: self.is_used,
        }
    }
}

/// What each of `tickets` holds, in the same order.
pub open spec fn ticket_views(tickets: Seq<Ticket>) -> Seq<TicketView> {
    Seq::new(tickets.len(), |i: int| tickets[i]@)
}

impl Clone for Ticket {
    fn clone(&self) -> (copy: Self)
        ensures
            copy@ == self@,
    {
        Ticket {
            id: self.id,
            event_id: self.event_id,
            owner: self.owner.clone(),
            purchase_date: self.purchase_date,
            qr_code: self.qr_code.clone(),
            is_used: self.is_used,
        }
    }
}

} // verus!
