//! Synchronization core of a peer-to-peer content-addressed data store.
//!
//! The crate maintains an append-only content-addressable store keyed by a
//! deterministic content hash, an immutable entity-attribute-value triple
//! index, and the entry-aspect protocol model with its wire codec.  A
//! message router classifies inbound protocol messages, drops the ones not
//! addressed to this node, and dispatches the rest to handlers that read
//! and write the two stores and assemble every locally known aspect of an
//! entry.

pub mod cas;
pub mod codec;
pub mod content;
pub mod eav;
pub mod entry;
pub mod entry_aspect;
pub mod error;
pub mod handler;
