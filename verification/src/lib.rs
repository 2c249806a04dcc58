//! Core of a single-user focus/task tracker: a task collection with
//! capacity and focus invariants, an append-only journal with periodic
//! snapshots, the mutating command surface, and single-step undo driven
//! by the journal tail.

pub mod state;
mod clock;
pub mod journal;
pub mod commands;
pub mod undo;
pub mod laws;
