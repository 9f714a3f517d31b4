//! A reverse TCP tunnel, client side, as a verified core.
//!
//! The crate holds the decisions of the tunnel client and none of its
//! sockets: the wire envelope, the failure classes, the configuration rules,
//! and the two state machines (`client::Client`, `redirector::Redirector`)
//! that say, for every event the I/O layer reports, what the next state is
//! and which actions are owed.

pub mod client;
pub mod config;
pub mod model;
pub mod net;
pub mod redirector;
pub mod retry;
