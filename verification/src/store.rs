//! The store: every event and ticket of the service, and the operations on
//! them.

use crate::access::{is_organizer, is_owner_or_organizer};
use crate::allocator::IdAllocator;
use crate::error::TicketError;
use crate::event::{event_views, optional_text, Event, EventView};
use crate::identity::Identity;
use crate::model::{
    lemma_after_create_wf, lemma_after_mint_wf, lemma_after_validation_wf, lemma_tickets_of,
    EventDraft, StoreModel,
};
use crate::owner_index::OwnerIndex;
use crate::ticket::{ticket_views, Ticket, TicketView};
use crate::token::{derive_token, tokens_match};
use std::collections::BTreeMap;
use vstd::prelude::*;

verus! {

/// The events and tickets of one service. A store starts empty and lives as
/// long as the service; every operation runs to its end before the next one
/// starts.
#[derive(Debug)]
pub struct TicketStore {
    events: BTreeMap<u64, Event>,
    tickets: BTreeMap<u64, Ticket>,
    event_ids: IdAllocator,
    ticket_ids: IdAllocator,
    owner_index: OwnerIndex,
}

impl View for TicketStore {
    type V = StoreModel;

    closed spec fn view(&self) -> StoreModel {
        StoreModel {
            events: self.events@.map_values(|event: Event| event@),
            tickets: self.tickets@.map_values(|ticket: Ticket| ticket@),
            owner_index: self.owner_index@,
            next_event_id: self.event_ids.upcoming(),
            next_ticket_id: self.ticket_ids.upcoming(),
        }
    }
}

impl TicketStore {
    /// Whether the parts of the store fit together.
    pub closed spec fn parts_wf(&self) -> bool {
        self.owner_index.wf()
    }

    /// Whether the store is consistent: it meets every invariant of
    /// [`StoreModel::wf`].
    pub open spec fn wf(&self) -> bool {
        self.parts_wf() && self@.wf()
    }

    /// The store of a service that has registered nothing yet.
    pub fn new() -> (store: TicketStore)
        ensures
            store.wf(),
            store@ == StoreModel::empty(),
    {
        let store = TicketStore {
            events: BTreeMap::new(),
            tickets: BTreeMap::new(),
            event_ids: IdAllocator::new(),
            ticket_ids: IdAllocator::new(),
            owner_index: OwnerIndex::new(),
        };
        assert(store@.events =~= Map::<u64, EventView>::empty());
        assert(store@.tickets =~= Map::<u64, TicketView>::empty());
        store
    }

    /// The identifier that the next event gets.
    pub fn next_event_id(&self) -> (id: u64)
        ensures
            id == self@.next_event_id,
    {
        self.event_ids.peek()
    }

    /// The identifier that the next ticket gets.
    pub fn next_ticket_id(&self) -> (id: u64)
        ensures
            id == self@.next_ticket_id,
    {
        self.ticket_ids.peek()
    }

    /// Registers an event with `caller` as its organizer and nothing sold,
    /// and returns its identifier. This never fails.
    pub fn create_event(
        &mut self,
        name: String,
        description: String,
        venue: String,
        date: String,
        ticket_price: u64,
        total_tickets: u64,
        image_url: String,
        ar_model_url: Option<String>,
        caller: &Identity,
    ) -> (created: Result<u64, TicketError>)
        requires
            old(self).wf(),
            old(self)@.next_event_id < u64::MAX,
        ensures
            final(self).wf(),
            created == Ok::<u64, TicketError>(old(self)@.next_event_id),
            final(self)@ == old(self)@.after_create(
                (EventDraft {
                    name: name@,
                    description: description@,
                    venue: venue@,
                    date: date@,
                    ticket_price,
                    total_tickets,
                    image_url: image_url@,
                    ar_model_url: optional_text(ar_model_url),
                }),
                caller@,
            ),
    {
        let ghost draft = EventDraft {
            name: name@,
            description: description@,
            venue: venue@,
            date: date@,
            ticket_price,
            total_tickets,
            image_url: image_url@,
            ar_model_url: optional_text(ar_model_url),
        };
        let id: u64 = self.event_ids.allocate();
        let event = Event {
            id,
            name,
            description,
            venue,
            date,
            ticket_price,
            total_tickets,
            tickets_sold: 0,
            image_url,
            ar_model_url,
            organizer: caller.clone(),
        };
        self.events.insert(id, event);
        proof {
            let expected = old(self)@.after_create(draft, caller@);
            assert(self@.events =~= expected.events);
            assert(self@ == expected);
            lemma_after_create_wf(old(self)@, draft, caller@);
        }
        Ok(id)
    }

    /// Takes one ticket out of the inventory of the event `event_id`, in one
    /// step with the test that one is left.
    fn reserve_one(&mut self, event_id: u64) -> (reserved: Result<(), TicketError>)
        requires
            old(self).wf(),
        ensures
            final(self).parts_wf(),
            match old(self)@.mint_refusal(event_id) {
                Some(error) => reserved == Err::<(), TicketError>(error) && final(self)@ == old(
                    self,
                )@,
                None => reserved is Ok && final(self)@ == (StoreModel {
                    events: old(self)@.events.insert(
                        event_id,
                        old(self)@.events[event_id].after_sale(),
                    ),
                    ..old(self)@
                }),
            },
    {
        let sold_out = match self.events.get(&event_id) {
            None => {
                return Err(TicketError::EventNotFound);
            },
            Some(event) => event.tickets_sold >= event.total_tickets,
        };
        if sold_out {
            return Err(TicketError::NoTicketsAvailable);
        }
        if let Some(mut event) = self.events.remove(&event_id) {
            event.tickets_sold = event.tickets_sold + 1;
            self.events.insert(event_id, event);
        }
        proof {
            assert(self@.events =~= old(self)@.events.insert(
                event_id,
                old(self)@.events[event_id].after_sale(),
            ));
        }
        Ok(())
    }

    /// Mints a ticket of the event `event_id` for `caller` at the time `now`.
    ///
    /// Refused with `EventNotFound` where no such event exists and with
    /// `NoTicketsAvailable` where it is sold out; the store is then left as
    /// it was, and no identifier is spent. Else the event has sold one more,
    /// and the ticket gets the next identifier and its proof token, is
    /// stored unused and listed last under `caller`, and is returned.
    pub fn mint_ticket(&mut self, event_id: u64, caller: &Identity, now: u64) -> (minted: Result<
        Ticket,
        TicketError,
    >)
        requires
            old(self).wf(),
            old(self)@.mint_refusal(event_id) is None ==> old(self)@.next_ticket_id < u64::MAX,
        ensures
            final(self).wf(),
            final(self)@ == old(self)@.after_mint(event_id, caller@, now),
            match old(self)@.mint_result(event_id, caller@, now) {
                Ok(ticket) => minted is Ok && minted->Ok_0@ == ticket,
                Err(error) => minted == Err::<Ticket, TicketError>(error),
            },
    {
        if let Err(error) = self.reserve_one(event_id) {
            return Err(error);
        }
        let id: u64 = self.ticket_ids.allocate();
        let qr_code = derive_token(id, event_id, caller, now);
        let ticket = Ticket {
            id,
            event_id,
            owner: caller.clone(),
            purchase_date: now,
            qr_code,
            is_used: false,
        };
        self.tickets.insert(id, ticket.clone());
        self.owner_index.record(caller, id);
        proof {
            let expected = old(self)@.after_mint(event_id, caller@, now);
            assert(self@.tickets =~= expected.tickets);
            assert(self@ == expected);
            lemma_after_mint_wf(old(self)@, event_id, caller@, now);
        }
        Ok(ticket)
    }

    /// Redeems the ticket `ticket_id` with the proof token `qr_code`, on
    /// behalf of `caller`.
    ///
    /// The checks come in this order, and the first that fails decides:
    /// the ticket exists (`TicketNotFound`), its event exists
    /// (`EventNotFound`), `caller` organizes that event (`Unauthorized`),
    /// the ticket is unused (`TicketAlreadyUsed`), and `qr_code` is the
    /// token issued with it (`InvalidQRCode`). A refusal leaves the store as
    /// it was. Else the ticket is marked used and `true` is returned.
    pub fn validate_ticket(&mut self, ticket_id: u64, qr_code: String, caller: &Identity) -> (validated:
        Result<bool, TicketError>)
        requires
            old(self).wf(),
        ensures
            final(self).wf(),
            validated == old(self)@.validation(ticket_id, qr_code@, caller@),
            final(self)@ == old(self)@.after_validation(ticket_id, qr_code@, caller@),
    {
        let ticket = match self.tickets.get(&ticket_id) {
            Some(ticket) => ticket,
            None => {
                return Err(TicketError::TicketNotFound);
            },
        };
        let event = match self.events.get(&ticket.event_id) {
            Some(event) => event,
            None => {
                return Err(TicketError::EventNotFound);
            },
        };
        if !is_organizer(event, caller) {
            return Err(TicketError::Unauthorized);
        }
        if ticket.is_used {
            return Err(TicketError::TicketAlreadyUsed);
        }
        if !tokens_match(qr_code.as_str(), ticket.qr_code.as_str()) {
            return Err(TicketError::InvalidQRCode);
        }
        if let Some(mut ticket) = self.tickets.remove(&ticket_id) {
            ticket.is_used = true;
            self.tickets.insert(ticket_id, ticket);
        }
        proof {
            let expected = old(self)@.after_validation(ticket_id, qr_code@, caller@);
            assert(self@.tickets =~= expected.tickets);
            assert(self@ == expected);
            lemma_after_validation_wf(old(self)@, ticket_id, qr_code@, caller@);
        }
        Ok(true)
    }

    /// The event `event_id`, or `EventNotFound`.
    pub fn get_event(&self, event_id: u64) -> (found: Result<Event, TicketError>)
        ensures
            match self@.event_lookup(event_id) {
                Ok(event) => found is Ok && found->Ok_0@ == event,
                Err(error) => found == Err::<Event, TicketError>(error),
            },
    {
        match self.events.get(&event_id) {
            Some(event) => Ok(event.clone()),
            None => Err(TicketError::EventNotFound),
        }
    }

    /// Every event, in ascending order of identifiers.
    pub fn get_all_events(&self) -> (all: Vec<Event>)
        requires
            self.wf(),
        ensures
            event_views(all@) == self@.event_list(),
            all@.len() == self@.next_event_id - 1,
            forall|i: int|
                0 <= i < all@.len() ==> (#[trigger] all@[i])@ == self@.events[(i + 1) as u64],
    {
        let next: u64 = self.event_ids.peek();
        let mut all: Vec<Event> = Vec::new();
        let mut id: u64 = 1;
        while id < next
            invariant
                self.wf(),
                next == self@.next_event_id,
                1 <= id <= next,
                all@.len() == id - 1,
                forall|i: int| 0 <= i < all@.len() ==> all@[i]@ == self@.events[(i + 1) as u64],
            decreases next - id,
        {
            assert(self@.events.contains_key(id));
            if let Some(event) = self.events.get(&id) {
                all.push(event.clone());
            }
            id = id + 1;
        }
        assert(event_views(all@) =~= self@.event_list());
        all
    }

    /// The ticket `ticket_id`, for its owner and for the organizer of its
    /// event; `Unauthorized` for anybody else, and `TicketNotFound` where no
    /// such ticket exists.
    pub fn get_ticket(&self, ticket_id: u64, caller: &Identity) -> (found: Result<
        Ticket,
        TicketError,
    >)
        ensures
            match self@.disclosure(ticket_id, caller@) {
                Ok(ticket) => found is Ok && found->Ok_0@ == ticket,
                Err(error) => found == Err::<Ticket, TicketError>(error),
            },
    {
        let ticket = match self.tickets.get(&ticket_id) {
            Some(ticket) => ticket,
            None => {
                return Err(TicketError::TicketNotFound);
            },
        };
        let allowed = match self.events.get(&ticket.event_id) {
            Some(event) => is_owner_or_organizer(ticket, event, caller),
            None => ticket.owner == *caller,
        };
        if allowed {
            Ok(ticket.clone())
        } else {
            Err(TicketError::Unauthorized)
        }
    }

    /// The tickets of `caller`, oldest first.
    pub fn get_my_tickets(&self, caller: &Identity) -> (mine: Vec<Ticket>)
        requires
            self.wf(),
        ensures
            ticket_views(mine@) == self@.tickets_of(caller@),
            mine@.len() == self@.owned_ids(caller@).len(),
            forall|i: int|
                0 <= i < mine@.len() ==> (#[trigger] mine@[i])@ == self@.tickets[self@.owned_ids(
                    caller@,
                )[i]],
    {
        let ids = self.owner_index.ids_of(caller);
        let ghost resolve = |id: u64|
            if self@.tickets.contains_key(id) {
                Some(self@.tickets[id])
            } else {
                None
            };
        let mut mine: Vec<Ticket> = Vec::new();
        let mut i: usize = 0;
        while i < ids.len()
            invariant
                i <= ids@.len(),
                resolve == (|id: u64|
                    if self@.tickets.contains_key(id) {
                        Some(self@.tickets[id])
                    } else {
                        None
                    }),
                ticket_views(mine@) == ids@.take(i as int).filter_map(resolve),
            decreases ids@.len() - i,
        {
            let id: u64 = ids[i];
            if let Some(ticket) = self.tickets.get(&id) {
                mine.push(ticket.clone());
            }
            proof {
                let upto = ids@.take(i + 1);
                assert(upto.drop_last() =~= ids@.take(i as int));
                assert(upto.last() == id);
                assert(ticket_views(mine@) =~= upto.filter_map(resolve));
            }
            i += 1;
        }
        proof {
            assert(ids@.take(i as int) =~= ids@);
            lemma_tickets_of(self@, caller@);
            assert forall|i: int| 0 <= i < mine@.len() implies (#[trigger] mine@[i])@
                == self@.tickets[self@.owned_ids(caller@)[i]] by {
                assert(ticket_views(mine@)[i] == self@.tickets_of(caller@)[i]);
            }
        }
        mine
    }
}

} // verus!
