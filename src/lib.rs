//! A typed event dispatcher: callbacks subscribe to the events of a type, and
//! `dispatch` runs every callback subscribed to the type of the event it is
//! given, in registration order.
//!
//! One registry holds listeners for any number of event types. It keeps one
//! bucket per type, found by the type's `TypeId`; a listener is stored with its
//! event type erased and recovers the concrete event before its own code runs.
//! Each registration gets a key by which it can later be removed.

mod dispatcher;
mod erased;
pub mod laws;

pub use dispatcher::{
    added, bump_at, bumped, counted, listed, removed, removed_runs, EventDispatcher, ListenerKey,
};
