//! Verified bookkeeping for media completion tokens.
//!
//! The library tracks which users have completed which media items, mints a
//! unique completion token per (user, media) pair, and keeps the derived
//! relations (per-user token lists, per-media completer lists, per-media
//! discussion-group membership) consistent under mint, burn, join and leave.
//! The hosting platform supplies caller identity, persistence and atomic
//! commit; this crate holds the state in memory and proves the relational
//! invariants.

use vstd::prelude::*;

pub mod error;
pub mod keys;
pub mod vec_map;
pub mod indexed_set;
pub mod media_id;
pub mod state;

verus! {

/// An opaque caller or account reference, modelled as a plain integer handle.
pub type Identity = u64;

/// A completion-token identifier; allocated from 1 upward, never reused.
pub type TokenId = u64;

} // verus!
