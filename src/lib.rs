//! A single-room chat hub: the bounded message history, the presence and
//! outbound-channel registries, the wire encoding of hub events, and the
//! decisions of one connection's lifecycle.

pub mod clients;
pub mod codec;
pub mod connection;
pub mod hub;
pub mod presence;
pub mod shared;
pub mod store;

