//! Deduces the address of the client behind an HTTP request that may have
//! crossed reverse proxies.
//!
//! The request's transport peer, its forwarding header and the address that
//! the HTTP layer itself vouches for are weighed against each other. Which
//! of them is believed rests on one predicate: whether an address can be
//! routed on the public internet.

pub mod address;
pub mod chain;
pub mod classifier;
pub mod client_addr;
pub mod client_real_addr;
pub mod format;
pub mod parse;
pub mod resolver;
pub mod round_trip;
pub mod text;

pub use address::{Address, Ipv4Address, Ipv6Address};
pub use chain::resolve_from_chain;
pub use classifier::is_local;
pub use client_addr::ClientAddr;
pub use client_real_addr::ClientRealAddr;
pub use parse::parse_address;
pub use resolver::{resolve, resolve_by_headers, resolve_real};
