//! Event hub for a sensor-monitored mailbox enclosure.
//!
//! A contact sensor reports open/closed transitions; the hub derives
//! semantic mail-status events from the transition history, fans every
//! event out to connected subscribers, records events in an append-only
//! store, and answers synchronous client requests over the same channel.

pub mod codec;
pub mod defaults;
pub mod drivers;
pub mod model;
pub mod server;
pub mod store;
pub mod watchdog;
