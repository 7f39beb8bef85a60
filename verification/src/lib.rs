//! Core of a pluggable authoritative DNS server: typed record model,
//! per-zone authorities, a read-only record store, and the query
//! resolution engine that answers decoded DNS messages.

pub mod authority;
pub mod handler;
pub mod listen;
pub mod message;
pub mod name;
pub mod rdata;
pub mod record;
pub mod store;
pub mod text;
