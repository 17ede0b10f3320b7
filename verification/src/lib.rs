//! Event and ticket bookkeeping for a single ticketing service.
//!
//! Organizers register events with a fixed inventory, buyers mint tickets
//! against that inventory, and organizers admit holders by checking a proof
//! token that can be redeemed once. Every operation is a method of
//! [`TicketStore`], which is handed the already authenticated caller and,
//! where needed, the current time.

pub mod access;
pub mod allocator;
pub mod encoding;
pub mod error;
pub mod event;
pub mod identity;
pub mod laws;
pub mod model;
pub mod owner_index;
pub mod store;
pub mod ticket;
pub mod token;

pub use error::TicketError;
pub use event::{Event, EventView};
pub use identity::Identity;
pub use model::{EventDraft, Request, StoreModel};
pub use store::TicketStore;
pub use ticket::{Ticket, TicketView};
