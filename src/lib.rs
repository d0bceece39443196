//! A synchronous, in-process publish/subscribe dispatcher keyed by payload type.
//!
//! Listeners are registered for one payload type and are invoked, in the order in
//! which they were registered, each time a value of that type is dispatched.

mod erased;
pub mod laws;
pub mod manager;

pub use manager::EventManager;
