//! What the scheduler does with a worker's report on a task run: record it,
//! schedule another attempt, or pass tokens on to the tasks that follow.

use vstd::prelude::*;
use crate::messages::{TaskPriority, TokenState, is_final_state, is_retryable_state};
use crate::schedule::valid_instant;

verus! {

/// The step after a report has been recorded.
#[derive(Copy, Clone, Debug, PartialEq, Eq, Structural)]
pub enum ProgressStep {
    /// the run is still going: nothing more to do
    Recorded,
    /// the run failed and may be tried again
    Retry,
    /// the run is over: hand tokens to the tasks that follow on this result
    Advance,
}

/// The step for a report with this result: a final result that may be retried
/// is retried while the task has attempts left; any other final result advances
/// the tokens.
pub fn progress_step(result: TokenState, has_retries: bool) -> (s: ProgressStep)
    ensures
        !is_final_state(result) ==> s == ProgressStep::Recorded,
        is_final_state(result) && is_retryable_state(result) && has_retries ==> s == ProgressStep::Retry,
        is_final_state(result) && !(is_retryable_state(result) && has_retries) ==> s == ProgressStep::Advance,
{
    if !result.is_final() {
        ProgressStep::Recorded
    } else if result.is_retryable() && has_retries {
        ProgressStep::Retry
    } else {
        ProgressStep::Advance
    }
}

/// The priority that follow-on tokens get: that of the recorded run, or the
/// default when no run was recorded for the report.
pub fn progress_priority(recorded: Option<TaskPriority>) -> (p: TaskPriority)
    ensures
        p == match recorded {
            Some(r) => r,
            None => TaskPriority::Normal,
        },
{
    match recorded {
        Some(r) => r,
        None => TaskPriority::default(),
    }
}

/// When a failed run is retried: the task's own delay after the run finished,
/// or the default delay; `None` when that time is past what a timestamp holds.
pub open spec fn retry_time_spec(finished: int, task_delay_secs: Option<i64>, default_delay_secs: i64) -> Option<int> {
    let delay = match task_delay_secs {
        Some(d) => d as int,
        None => default_delay_secs as int,
    };
    let t = finished + delay * 1_000_000;
    if valid_instant(t) { Some(t) } else { None }
}

pub fn retry_time(finished: i64, task_delay_secs: Option<i64>, default_delay_secs: i64) -> (r: Option<i64>)
    requires
        valid_instant(finished as int),
    ensures
        match retry_time_spec(finished as int, task_delay_secs, default_delay_secs) {
            Some(t) => r == Some(t as i64),
            None => r is None,
        },
{
    let delay: i64 = match task_delay_secs {
        Some(d) => d,
        None => default_delay_secs,
    };
    let delay_micros: i128 = (delay as i128) * 1_000_000;
    let t: i128 = (finished as i128) + delay_micros;
    if -8_334_601_315_200_000_000i128 <= t && t <= 8_210_266_876_799_999_999i128 {
        Some(t as i64)
    } else {
        None
    }
}

} // verus!
