//! A verified core for a shareable, client-side list of rated catalog items.
//!
//! The list state lives entirely in an opaque URL-safe token and in a small
//! key/value store kept by the host. This crate provides the pieces with real
//! invariants: the codec between list state and token, the pure edit
//! transforms, the persistence policy, the user registry, and the history
//! abstraction that backs undo/redo.
use vstd::prelude::*;

pub mod bridge;
pub mod catalog;
pub mod codec;
pub mod edits;
pub mod history;
pub mod model;
pub mod payload;
pub mod registry;
pub mod store;
pub mod wire;

verus! {

/// The format version embedded in every encoded payload.
pub const CURRENT_VERSION: u8 = 1;

} // verus!
