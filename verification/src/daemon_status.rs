//! The states of a daemon.
use vstd::prelude::*;

verus! {

/// The state of a daemon.
#[derive(Debug, Clone, Copy, PartialEq, Eq, Structural)]
pub enum DaemonStatus {
    Failed,
    Waiting,
    Running,
    Stopping,
    Errored,
    Stopped,
}

} // verus!
