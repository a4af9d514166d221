//! A multiplexed request/response server core.
//!
//! One negotiated session fans out into three channel kinds: reliable
//! bidirectional streams, reliable unidirectional streams, and unreliable
//! datagrams.  This crate holds the verified heart of such a server: the
//! message codec for the two wire profiles (structured JSON queries and
//! plain-text commands), the shared metadata store, the per-connection
//! channel statistics, and the per-event dispatch decisions.  The
//! transport itself, the async runtime and all I/O live outside, in the
//! unverified shell that drives these functions.

pub mod api;
pub mod bytes;
pub mod codec;
pub mod dispatch;
pub mod handler;
pub mod stats;
pub mod store;
pub mod unicode;
