//! A non-fungible-asset registry: a read-only query engine over a committed
//! snapshot of which account owns which unique item, which accounts hold
//! time-bounded approvals on single items, and which operators hold blanket
//! grants over an owner's whole holdings.
//!
//! The snapshot type `state::Cw721Contract` keeps its stores sorted by key;
//! every query is verified to return exactly the entries the snapshot holds,
//! filtered by expiration and paginated with an exclusive lower bound and a
//! clamped limit. Durable storage, account-identifier validation and wire
//! encoding are the surrounding host's work and stay outside this crate.

pub mod expiration;
pub mod laws;
pub mod msg;
pub mod order;
pub mod pagination;
pub mod state;
