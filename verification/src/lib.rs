//! The decision logic of a daemon manager, verified.
use vstd::prelude::*;

pub mod cli;
pub mod clock;
pub mod collect;
pub mod daemon_id;
pub mod daemon_status;
pub mod diagnostic;
pub mod error;
pub mod log_store;
pub mod order;
pub mod regexp;
pub mod settings;
pub mod supervisor;
pub mod terminal;
pub mod text;
pub mod web;

verus! {

} // verus!
