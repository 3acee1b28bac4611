//! A hybrid authoritative/forwarding DNS resolver core.
//!
//! The crate holds the decisions of the resolver: how a stored value becomes a
//! typed resource record, when the authoritative store is consulted, how the
//! answer cache ages its entries, how a race between upstream transports is
//! settled, and how one datagram becomes one response. Sockets, the record
//! store and the HTTP client belong to the program that drives these types.

pub mod addr;
pub mod cache;
pub mod config;
pub mod query;
pub mod race;
pub mod record;
pub mod server;
pub mod store;
pub mod text;
pub mod wire;
