//! The record of an event.

use crate::identity::Identity;
use vstd::prelude::*;

verus! {

/// An event with a fixed inventory of tickets. Once registered, only
/// `tickets_sold` changes, and it only grows.
#[derive(Debug, PartialEq, Eq)]
pub struct Event {
    pub id: u64,
    pub name: String,
    pub description: String,
    pub venue: String,
    /// Kept as handed in; never parsed.
    pub date: String,
    pub ticket_price: u64,
    pub total_tickets: u64,
    pub tickets_sold: u64,
    pub image_url: String,
    pub ar_model_url: Option<String>,
    /// Who registered the event, and alone may redeem its tickets.
    pub organizer: Identity,
}

/// What an [`Event`] holds, as plain values.
pub struct EventView {
    pub id: u64,
    pub name: Seq<char>,
    pub description: Seq<char>,
    pub venue: Seq<char>,
    pub date: Seq<char>,
    pub ticket_price: u64,
    pub total_tickets: u64,
    pub tickets_sold: u64,
    pub image_url: Seq<char>,
    pub ar_model_url: Option<Seq<char>>,
    pub organizer: Seq<u8>,
}

impl EventView {
    /// Whether no ticket is left to sell.
    pub open spec fn sold_out(self) -> bool {
        self.tickets_sold >= self.total_tickets
    }

    /// The event after one more ticket was sold.
    pub open spec fn after_sale(self) -> EventView {
        EventView { tickets_sold: (self.tickets_sold + 1) as u64, ..self }
    }
}

/// What an optional text holds, as plain values.
pub open spec fn optional_text(value: Option<String>) -> Option<Seq<char>> {
    match value {
        Some(text) => Some(text@),
        None => None,
    }
}

impl View for Event {
    type V = EventView;

    open spec fn view(&self) -> EventView {
        EventView {
            id: self.id,
            name: self.name@,
            description: self.description@,
            venue: self.venue@,
            date: self.date@,
            ticket_price: self.ticket_price,
            total_tickets: self.total_tickets,
            tickets_sold: self.tickets_sold,
            image_url: self.image_url@,
            ar_model_url: optional_text(self.ar_model_url),
            organizer: self.organizer@,
        }
    }
}

/// What each of `events` holds, in the same order.
pub open spec fn event_views(events: Seq<Event>) -> Seq<EventView> {
    Seq::new(events.len(), |i: int| events[i]@)
}

impl Clone for Event {
    fn clone(&self) -> (copy: Self)
        ensures
            copy@ == self@,
    {
        let ar_model_url = match &self.ar_model_url {
            Some(url) => Some(url.clone()),
            None => None,
        };
        Event {
            id: self.id,
            name: self.name.clone(),
            description: self.description.clone(),
            venue: self.venue.clone(),
            date: self.date.clone(),
            ticket_price: self.ticket_price,
            total_tickets: self.total_tickets,
            tickets_sold: self.tickets_sold,
            image_url: self.image_url.clone(),
            ar_model_url,
            organizer: self.organizer.clone(),
        }
    }
}

} // verus!
