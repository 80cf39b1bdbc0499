//! Ephemeral per-user voice rooms: the decisions behind creating a room when a
//! user enters a trigger channel and reclaiming rooms once they are empty.
use vstd::prelude::*;

pub mod prune;
pub mod reconcile;
pub mod registry;
pub mod room;

verus! {

} // verus!
