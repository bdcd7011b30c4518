//! Core logic of a desktop window switcher: a model of the open top-level
//! windows, the eligibility filter that decides which of them the user should
//! see, the match-and-rank engine that orders them against a query, and the
//! selection state machine that turns input events into window actions.
use vstd::prelude::*;

pub mod controller;
pub mod directory;
pub mod entry;
pub mod enumerate;
pub mod handle;
pub mod matching;
pub mod text;

verus! {

} // verus!
