//! Handing tokens to the workers: the request message, how the message broker
//! is to treat it, and the record of the new run.

use vstd::prelude::*;
use crate::messages::{ExecuteToken, TaskPriority, TaskRequest, TokenState, priority_level};

verus! {

/// The highest priority level the task queue is declared with.
pub open spec fn max_queue_priority_spec() -> u8 {
    3
}

pub fn max_queue_priority() -> (r: u8)
    ensures
        r == max_queue_priority_spec(),
{
    3
}

/// The delivery mode of messages that survive a broker restart.
pub fn persistent_delivery() -> (r: u8)
    ensures
        r == 2,
{
    2
}

/// Every priority fits in the queue's priority range, and a higher priority has
/// a higher level.
pub proof fn lemma_priority_levels(a: TaskPriority, b: TaskPriority)
    ensures
        priority_level(a) <= max_queue_priority_spec(),
        (a == TaskPriority::High && b != TaskPriority::High) ==> priority_level(a) > priority_level(b),
        (a == TaskPriority::BackFill && b != TaskPriority::BackFill) ==> priority_level(a) < priority_level(b),
        priority_level(a) == priority_level(b) ==> a == b,
{
}

/// How long the broker waits for a worker to acknowledge a task, in
/// milliseconds, from the setting in seconds.
pub fn consumer_timeout_ms(secs: u64) -> (ms: u64)
    requires
        secs * 1000 <= u64::MAX,
    ensures
        ms == secs * 1000,
{
    secs * 1000
}

/// A message to publish for a token, with the run it starts.
#[derive(Clone, Copy, Debug, PartialEq, Eq, Structural)]
pub struct Enqueue {
    /// the body sent to the workers
    pub request: TaskRequest,
    /// the broker's priority level for the message
    pub priority_level: u8,
    /// the broker's delivery mode for the message
    pub delivery_mode: u8,
    /// the state the token and the new run are recorded in
    pub state: TokenState,
    pub priority: TaskPriority,
    pub attempt: u32,
}

/// What is published and recorded for a token given the id of its new run.
pub fn plan_enqueue(msg: ExecuteToken, task_run_id: u128) -> (e: Enqueue)
    ensures
        e.request == (TaskRequest {
            task_run_id,
            task_id: msg.token.task_id,
            trigger_datetime: msg.token.trigger_datetime,
        }),
        e.priority_level == priority_level(msg.priority),
        e.delivery_mode == 2,
        e.state == TokenState::Active,
        e.priority == msg.priority,
        e.attempt == msg.attempt,
{
    Enqueue {
        request: TaskRequest {
            task_run_id,
            task_id: msg.token.task_id,
            trigger_datetime: msg.token.trigger_datetime,
        },
        priority_level: msg.priority.level(),
        delivery_mode: persistent_delivery(),
        state: TokenState::Active,
        priority: msg.priority,
        attempt: msg.attempt,
    }
}

/// A fresh random (version 4) UUID, `uuid::Uuid::new_v4()`, by its 128-bit
/// value. It is random: nothing is stated of it.
#[verifier::external_body]
fn new_run_id() -> (id: u128) {
    uuid::Uuid::new_v4().as_u128()
}

/// What is published and recorded for a token, with a new random run id.
pub fn enqueue(msg: ExecuteToken) -> (e: Enqueue)
    ensures
        e.request.task_id == msg.token.task_id,
        e.request.trigger_datetime == msg.token.trigger_datetime,
        e.priority_level == priority_level(msg.priority),
        e.delivery_mode == 2,
        e.state == TokenState::Active,
        e.priority == msg.priority,
        e.attempt == msg.attempt,
{
    plan_enqueue(msg, new_run_id())
}

} // verus!
