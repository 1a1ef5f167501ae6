//! An in-memory registry that issues and tracks ownership of digital
//! certificate records.
//!
//! The registry keeps a primary store of certificates, indexed by a
//! monotonically increasing numeric id, together with derived lookup
//! indices (by holder, by issuer, and by human-readable display name).
//! Every mutation preserves the consistency of the store and its indices,
//! and every operation's behaviour is stated in its contract.

pub mod identity;
pub mod keyed_list;
pub mod directory;
pub mod model;
pub mod state;
pub mod types;
