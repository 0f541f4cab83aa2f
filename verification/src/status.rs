//! What the scheduler reports of itself.

use vstd::prelude::*;

verus! {

/// The scheduler's own counts: triggers waiting in its queue, workers it knows
/// of and the tasks they run.
#[derive(Debug, PartialEq, Eq)]
pub struct ServerStatus {
    pub queued_triggers: usize,
    pub num_workers: usize,
    pub running_tasks: u64,
}

impl Default for ServerStatus {
    fn default() -> (s: Self)
        ensures
            s.queued_triggers == 0,
            s.num_workers == 0,
            s.running_tasks == 0,
    {
        ServerStatus { queued_triggers: 0, num_workers: 0, running_tasks: 0 }
    }
}

} // verus!
