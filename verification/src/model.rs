//! The store as a mathematical value, and what each operation does to it.
//!
//! The executable store promises, operation by operation, to move from one
//! [`StoreModel`] to the next as the functions below say.

use crate::access::{may_view, organizes};
use crate::error::TicketError;
use crate::event::EventView;
use crate::owner_index::ids_in;
use crate::ticket::TicketView;
use crate::token::proof_token;
use vstd::prelude::*;

verus! {

/// What an organizer hands in to register an event.
pub struct EventDraft {
    pub name: Seq<char>,
    pub description: Seq<char>,
    pub venue: Seq<char>,
    pub date: Seq<char>,
    pub ticket_price: u64,
    pub total_tickets: u64,
    pub image_url: Seq<char>,
    pub ar_model_url: Option<Seq<char>>,
}

/// A request that may change the store.
pub enum Request {
    /// `caller` registers an event.
    CreateEvent { draft: EventDraft, caller: Seq<u8> },
    /// `caller` asks for a ticket of `event_id` at the time `now`.
    MintTicket { event_id: u64, caller: Seq<u8>, now: u64 },
    /// `caller` redeems `ticket_id` with `token`.
    ValidateTicket { ticket_id: u64, token: Seq<char>, caller: Seq<u8> },
}

/// All that the store holds.
pub struct StoreModel {
    /// The events, by identifier.
    pub events: Map<u64, EventView>,
    /// The tickets, by identifier.
    pub tickets: Map<u64, TicketView>,
    /// For each owner the identifiers of their tickets, oldest first.
    pub owner_index: Map<Seq<u8>, Seq<u64>>,
    /// The identifier that the next event gets.
    pub next_event_id: u64,
    /// The identifier that the next ticket gets.
    pub next_ticket_id: u64,
}

impl StoreModel {
    /// The store before anything was registered.
    pub open spec fn empty() -> StoreModel {
        StoreModel {
            events: Map::empty(),
            tickets: Map::empty(),
            owner_index: Map::empty(),
            next_event_id: 1,
            next_ticket_id: 1,
        }
    }

    /// The events are numbered from 1 without gaps, each under its own
    /// identifier, and none has sold more than its inventory.
    pub open spec fn events_wf(self) -> bool {
        &&& self.next_event_id >= 1
        &&& forall|id: u64| #[trigger]
            self.events.contains_key(id) <==> 1 <= id < self.next_event_id
        &&& forall|id: u64| #[trigger]
            self.events.contains_key(id) ==> self.events[id].id == id && self.events[id].tickets_sold
                <= self.events[id].total_tickets
    }

    /// The tickets are numbered from 1 without gaps, each under its own
    /// identifier, and each belongs to an event of the store.
    pub open spec fn tickets_wf(self) -> bool {
        &&& self.next_ticket_id >= 1
        &&& forall|id: u64| #[trigger]
            self.tickets.contains_key(id) <==> 1 <= id < self.next_ticket_id
        &&& forall|id: u64| #[trigger]
            self.tickets.contains_key(id) ==> self.tickets[id].id == id && self.events.contains_key(
                self.tickets[id].event_id,
            )
    }

    /// The identifiers listed under `owner`, oldest first.
    pub open spec fn owned_ids(self, owner: Seq<u8>) -> Seq<u64> {
        ids_in(self.owner_index, owner)
    }

    /// The owner index and the tickets agree: what is listed under an owner
    /// is a ticket of that owner, every ticket is listed under its owner, and
    /// each list ascends, so that nothing is listed twice.
    pub open spec fn index_wf(self) -> bool {
        &&& forall|owner: Seq<u8>, i: int|
            0 <= i < self.owned_ids(owner).len() ==> {
                let id = #[trigger] self.owned_ids(owner)[i];
                self.tickets.contains_key(id) && self.tickets[id].owner == owner
            }
        &&& forall|id: u64| #[trigger]
            self.tickets.contains_key(id) ==> self.owned_ids(self.tickets[id].owner).contains(id)
        &&& forall|owner: Seq<u8>, i: int, j: int|
            0 <= i < j < self.owned_ids(owner).len() ==> #[trigger] self.owned_ids(owner)[i]
                < #[trigger] self.owned_ids(owner)[j]
    }

    /// Every invariant of the store.
    pub open spec fn wf(self) -> bool {
        &&& self.events_wf()
        &&& self.tickets_wf()
        &&& self.index_wf()
    }

    /// The event that registering `draft` for `organizer` creates.
    pub open spec fn new_event(self, draft: EventDraft, organizer: Seq<u8>) -> EventView {
        EventView {
            id: self.next_event_id,
            name: draft.name,
            description: draft.description,
            venue: draft.venue,
            date: draft.date,
            ticket_price: draft.ticket_price,
            total_tickets: draft.total_tickets,
            tickets_sold: 0,
            image_url: draft.image_url,
            ar_model_url: draft.ar_model_url,
            organizer,
        }
    }

    /// The store after `organizer` registered `draft`.
    pub open spec fn after_create(self, draft: EventDraft, organizer: Seq<u8>) -> StoreModel {
        StoreModel {
            events: self.events.insert(self.next_event_id, self.new_event(draft, organizer)),
            next_event_id: (self.next_event_id + 1) as u64,
            ..self
        }
    }

    /// Why a ticket of `event_id` cannot be minted, if it cannot.
    pub open spec fn mint_refusal(self, event_id: u64) -> Option<TicketError> {
        if !self.events.contains_key(event_id) {
            Some(TicketError::EventNotFound)
        } else if self.events[event_id].sold_out() {
            Some(TicketError::NoTicketsAvailable)
        } else {
            None
        }
    }

    /// The ticket that minting for `owner` at `issued_at` creates.
    pub open spec fn new_ticket(self, event_id: u64, owner: Seq<u8>, issued_at: u64) -> TicketView {
        TicketView {
            id: self.next_ticket_id,
            event_id,
            owner,
            purchase_date: issued_at,
            qr_code: proof_token(self.next_ticket_id, event_id, owner, issued_at),
            is_used: false,
        }
    }

    /// What minting a ticket of `event_id` for `owner` at `issued_at`
    /// returns.
    pub open spec fn mint_result(self, event_id: u64, owner: Seq<u8>, issued_at: u64) -> Result<
        TicketView,
        TicketError,
    > {
        match self.mint_refusal(event_id) {
            Some(error) => Err(error),
            None => Ok(self.new_ticket(event_id, owner, issued_at)),
        }
    }

    /// The store after a ticket of `event_id` was asked for by `owner` at
    /// `issued_at`: unchanged where minting is refused; else the event has
    /// sold one more, and the new ticket is stored and listed last under
    /// its owner.
    pub open spec fn after_mint(self, event_id: u64, owner: Seq<u8>, issued_at: u64) -> StoreModel {
        if self.mint_refusal(event_id) is Some {
            self
        } else {
            StoreModel {
                events: self.events.insert(event_id, self.events[event_id].after_sale()),
                tickets: self.tickets.insert(
                    self.next_ticket_id,
                    self.new_ticket(event_id, owner, issued_at),
                ),
                owner_index: self.owner_index.insert(
                    owner,
                    self.owned_ids(owner).push(self.next_ticket_id),
                ),
                next_event_id: self.next_event_id,
                next_ticket_id: (self.next_ticket_id + 1) as u64,
            }
        }
    }

    /// What redeeming `ticket_id` with `token` returns to `caller`. The role
    /// is checked before the ticket's state and the token, so that a caller
    /// who is not the organizer learns nothing about either.
    pub open spec fn validation(self, ticket_id: u64, token: Seq<char>, caller: Seq<u8>) -> Result<
        bool,
        TicketError,
    > {
        if !self.tickets.contains_key(ticket_id) {
            Err(TicketError::TicketNotFound)
        } else if !self.events.contains_key(self.tickets[ticket_id].event_id) {
            Err(TicketError::EventNotFound)
        } else if !organizes(self.events[self.tickets[ticket_id].event_id], caller) {
            Err(TicketError::Unauthorized)
        } else if self.tickets[ticket_id].is_used {
            Err(TicketError::TicketAlreadyUsed)
        } else if self.tickets[ticket_id].qr_code != token {
            Err(TicketError::InvalidQRCode)
        } else {
            Ok(true)
        }
    }

    /// The store after `caller` tried to redeem `ticket_id` with `token`:
    /// the ticket is used where that succeeded, and nothing changed where
    /// it did not.
    pub open spec fn after_validation(
        self,
        ticket_id: u64,
        token: Seq<char>,
        caller: Seq<u8>,
    ) -> StoreModel {
        if self.validation(ticket_id, token, caller) is Ok {
            StoreModel {
                tickets: self.tickets.insert(ticket_id, self.tickets[ticket_id].redeemed()),
                ..self
            }
        } else {
            self
        }
    }

    /// Whether the store has an identifier left for what `request` may
    /// create.
    pub open spec fn admits(self, request: Request) -> bool {
        match request {
            Request::CreateEvent { .. } => self.next_event_id < u64::MAX,
            Request::MintTicket { event_id, .. } => self.mint_refusal(event_id) is None
                ==> self.next_ticket_id < u64::MAX,
            Request::ValidateTicket { .. } => true,
        }
    }

    /// The store after `request` was served.
    pub open spec fn after(self, request: Request) -> StoreModel {
        match request {
            Request::CreateEvent { draft, caller } => self.after_create(draft, caller),
            Request::MintTicket { event_id, caller, now } => self.after_mint(event_id, caller, now),
            Request::ValidateTicket { ticket_id, token, caller } => self.after_validation(
                ticket_id,
                token,
                caller,
            ),
        }
    }

    /// The store after `requests` were served one after the other.
    pub open spec fn after_all(self, requests: Seq<Request>) -> StoreModel
        decreases requests.len(),
    {
        if requests.len() == 0 {
            self
        } else {
            self.after_all(requests.drop_last()).after(requests.last())
        }
    }

    /// Whether the store has an identifier left for each of `requests` when
    /// its turn comes.
    pub open spec fn admits_all(self, requests: Seq<Request>) -> bool
        decreases requests.len(),
    {
        requests.len() > 0 ==> self.admits_all(requests.drop_last()) && self.after_all(
            requests.drop_last(),
        ).admits(requests.last())
    }

    /// What looking up the event `event_id` returns.
    pub open spec fn event_lookup(self, event_id: u64) -> Result<EventView, TicketError> {
        if self.events.contains_key(event_id) {
            Ok(self.events[event_id])
        } else {
            Err(TicketError::EventNotFound)
        }
    }

    /// Every event, in ascending order of identifiers.
    pub open spec fn event_list(self) -> Seq<EventView> {
        Seq::new((self.next_event_id - 1) as nat, |i: int| self.events[(i + 1) as u64])
    }

    /// What looking up `ticket_id` returns to `viewer`: the ticket, where
    /// the viewer owns it or organizes its event.
    pub open spec fn disclosure(self, ticket_id: u64, viewer: Seq<u8>) -> Result<
        TicketView,
        TicketError,
    > {
        if !self.tickets.contains_key(ticket_id) {
            Err(TicketError::TicketNotFound)
        } else {
            let ticket = self.tickets[ticket_id];
            let allowed = if self.events.contains_key(ticket.event_id) {
                may_view(ticket, self.events[ticket.event_id], viewer)
            } else {
                ticket.owner == viewer
            };
            if allowed {
                Ok(ticket)
            } else {
                Err(TicketError::Unauthorized)
            }
        }
    }

    /// The tickets listed under `owner`, oldest first. An identifier that
    /// names no ticket is passed over.
    pub open spec fn tickets_of(self, owner: Seq<u8>) -> Seq<TicketView> {
        self.owned_ids(owner).filter_map(
            |id: u64|
                if self.tickets.contains_key(id) {
                    Some(self.tickets[id])
                } else {
                    None
                },
        )
    }
}

/// The empty store meets every invariant.
pub proof fn lemma_empty_wf()
    ensures
        StoreModel::empty().wf(),
{
}

/// Registering an event keeps every invariant.
pub proof fn lemma_after_create_wf(store: StoreModel, draft: EventDraft, organizer: Seq<u8>)
    requires
        store.wf(),
        store.next_event_id < u64::MAX,
    ensures
        store.after_create(draft, organizer).wf(),
{
    let after = store.after_create(draft, organizer);
    assert forall|owner: Seq<u8>| after.owned_ids(owner) == store.owned_ids(owner) by {}
    assert(after.events_wf());
    assert(after.tickets_wf());
    assert(after.index_wf());
}

/// Minting keeps every invariant, whether it succeeds or is refused.
pub proof fn lemma_after_mint_wf(store: StoreModel, event_id: u64, owner: Seq<u8>, issued_at: u64)
    requires
        store.wf(),
        store.mint_refusal(event_id) is None ==> store.next_ticket_id < u64::MAX,
    ensures
        store.after_mint(event_id, owner, issued_at).wf(),
{
    if store.mint_refusal(event_id) is None {
        let after = store.after_mint(event_id, owner, issued_at);
        let id = store.next_ticket_id;
        let ticket = store.new_ticket(event_id, owner, issued_at);
        assert(after.events_wf());
        assert(after.tickets_wf());
        assert(!store.tickets.contains_key(id));
        assert forall|o: Seq<u8>| o != owner implies after.owned_ids(o) == store.owned_ids(o) by {}
        assert(after.owned_ids(owner) == store.owned_ids(owner).push(id));
        assert forall|o: Seq<u8>, i: int| 0 <= i < after.owned_ids(o).len() implies {
            let listed = #[trigger] after.owned_ids(o)[i];
            after.tickets.contains_key(listed) && after.tickets[listed].owner == o
        } by {
            if o == owner && i == store.owned_ids(owner).len() {
            } else {
                let listed = store.owned_ids(o)[i];
                assert(store.tickets.contains_key(listed));
            }
        }
        assert forall|t: u64| #[trigger] after.tickets.contains_key(t) implies after.owned_ids(
            after.tickets[t].owner,
        ).contains(t) by {
            if t == id {
                assert(after.owned_ids(owner)[store.owned_ids(owner).len() as int] == id);
            } else {
                let o = store.tickets[t].owner;
                assert(store.owned_ids(o).contains(t));
                let i = choose|i: int| 0 <= i < store.owned_ids(o).len() && store.owned_ids(o)[i] == t;
                assert(after.owned_ids(o)[i] == t);
            }
        }
        assert forall|o: Seq<u8>, i: int, j: int| 0 <= i < j < after.owned_ids(o).len() implies
            #[trigger] after.owned_ids(o)[i] < #[trigger] after.owned_ids(o)[j] by {
            if o == owner && j == store.owned_ids(owner).len() {
                let listed = store.owned_ids(o)[i];
                assert(store.tickets.contains_key(listed));
            } else {
                assert(store.owned_ids(o)[i] < store.owned_ids(o)[j]);
            }
        }
        assert(after.index_wf());
    }
}

/// Serving a request keeps every invariant.
pub proof fn lemma_after_wf(store: StoreModel, request: Request)
    requires
        store.wf(),
        store.admits(request),
    ensures
        store.after(request).wf(),
{
    match request {
        Request::CreateEvent { draft, caller } => lemma_after_create_wf(store, draft, caller),
        Request::MintTicket { event_id, caller, now } => lemma_after_mint_wf(
            store,
            event_id,
            caller,
            now,
        ),
        Request::ValidateTicket { ticket_id, token, caller } => lemma_after_validation_wf(
            store,
            ticket_id,
            token,
            caller,
        ),
    }
}

/// In a consistent store every identifier listed under an owner names a
/// ticket, so that the tickets of an owner are as many as the identifiers
/// listed, and stand in the same order.
pub proof fn lemma_tickets_of(store: StoreModel, owner: Seq<u8>)
    requires
        store.index_wf(),
    ensures
        store.tickets_of(owner).len() == store.owned_ids(owner).len(),
        forall|i: int|
            0 <= i < store.owned_ids(owner).len() ==> #[trigger] store.tickets_of(owner)[i]
                == store.tickets[store.owned_ids(owner)[i]],
{
    let resolve = |id: u64|
        if store.tickets.contains_key(id) {
            Some(store.tickets[id])
        } else {
            None
        };
    let ids = store.owned_ids(owner);
    assert forall|i: int| 0 <= i < ids.len() implies store.tickets.contains_key(#[trigger] ids[i]) by {
        let listed = store.owned_ids(owner)[i];
    }
    lemma_resolve_all(store.tickets, ids, ids.len() as int);
    assert(ids.take(ids.len() as int) =~= ids);
}

/// Where the first `n` of `ids` all name a ticket, resolving them gives
/// those tickets, one for one.
proof fn lemma_resolve_all(tickets: Map<u64, TicketView>, ids: Seq<u64>, n: int)
    requires
        0 <= n <= ids.len(),
        forall|i: int| 0 <= i < n ==> tickets.contains_key(#[trigger] ids[i]),
    ensures
        ({
            let resolved = ids.take(n).filter_map(
                |id: u64|
                    if tickets.contains_key(id) {
                        Some(tickets[id])
                    } else {
                        None
                    },
            );
            &&& resolved.len() == n
            &&& forall|i: int| 0 <= i < n ==> #[trigger] resolved[i] == tickets[ids[i]]
        }),
    decreases n,
{
    if n > 0 {
        lemma_resolve_all(tickets, ids, n - 1);
        assert(ids.take(n).drop_last() =~= ids.take(n - 1));
        assert(ids.take(n).last() == ids[n - 1]);
    }
}

/// Redeeming keeps every invariant, whether it succeeds or is refused.
pub proof fn lemma_after_validation_wf(
    store: StoreModel,
    ticket_id: u64,
    token: Seq<char>,
    caller: Seq<u8>,
)
    requires
        store.wf(),
    ensures
        store.after_validation(ticket_id, token, caller).wf(),
{
    if store.validation(ticket_id, token, caller) is Ok {
        let after = store.after_validation(ticket_id, token, caller);
        assert forall|owner: Seq<u8>| after.owned_ids(owner) == store.owned_ids(owner) by {}
        assert(after.events_wf());
        assert(after.tickets_wf());
        assert forall|o: Seq<u8>, i: int| 0 <= i < after.owned_ids(o).len() implies {
            let listed = #[trigger] after.owned_ids(o)[i];
            after.tickets.contains_key(listed) && after.tickets[listed].owner == o
        } by {
            let listed = store.owned_ids(o)[i];
            assert(store.tickets.contains_key(listed));
        }
        assert forall|t: u64| #[trigger] after.tickets.contains_key(t) implies after.owned_ids(
            after.tickets[t].owner,
        ).contains(t) by {
            assert(store.tickets.contains_key(t));
        }
        assert(after.index_wf());
    }
}

} // verus!
