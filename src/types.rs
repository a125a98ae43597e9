//! Values exchanged between an agent and a hub.
use vstd::prelude::*;

use crate::counts::{KeystrokesStats, Timestamp};

verus! {

/// What an agent sends to commit: its staging area and the start of its day.
#[derive(Debug)]
pub struct SynchronizeRequest {
    pub staging_area: KeystrokesStats,
    pub today: Timestamp,
}

/// What the hub has accounted for after a commit.
#[derive(Clone, Copy, Debug, PartialEq, Eq, Structural)]
pub struct Summary {
    pub oldest_timestamp: Timestamp,
    pub global_count: u64,
    pub today_timestamp: Timestamp,
    pub today_count: u64,
}

} // verus!
