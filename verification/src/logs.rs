//! Tailing the log of a task run: the stream it is read from and how the read
//! position moves as replies come in.

use vstd::prelude::*;
use crate::jwt::{uuid_text, uuid_text_spec};

verus! {

/// The name of the stream that holds the log lines of a task run.
pub open spec fn log_key_spec(task_run_id: u128) -> Seq<char> {
    "waterwheel-logs."@ + uuid_text_spec(task_run_id)
}

pub fn log_key(task_run_id: u128) -> (k: String)
    ensures
        k@ == log_key_spec(task_run_id),
{
    let mut k = String::from_str("waterwheel-logs.");
    let id = uuid_text(task_run_id);
    k.append(id.as_str());
    k
}

/// The read position before anything was read: the start of the stream.
pub fn first_position() -> (p: String)
    ensures
        p@ == "0-0"@,
{
    String::from_str("0-0")
}

/// How long one read waits for new lines, in milliseconds.
pub fn read_block_ms() -> (ms: usize)
    ensures
        ms == 60000,
{
    60000
}

/// How many lines one read returns at most.
pub fn read_count() -> (n: usize)
    ensures
        n == 10,
{
    10
}

/// What to do after a read.
#[derive(Debug, PartialEq, Eq)]
pub enum TailStep {
    /// the stream is gone (it expired): stop tailing
    Stop,
    /// nothing new: read again from this position
    ReadFrom(String),
    /// forward the lines read, then read on after the last of them
    Forward(String),
}

/// The step after a read that found the stream (or not) and lines with these
/// ids: a missing stream stops the tail; an empty read waits for new lines only
/// ("$"); otherwise the position moves to the last line read.
pub fn tail_step(stream_found: bool, ids: &Vec<String>) -> (s: TailStep)
    ensures
        !stream_found ==> s is Stop,
        stream_found && ids@.len() == 0 ==> (s matches TailStep::ReadFrom(p) && p@ == "$"@),
        stream_found && ids@.len() > 0 ==> (s matches TailStep::Forward(p) && p@ == ids@.last()@),
{
    if !stream_found {
        return TailStep::Stop;
    }
    if ids.len() == 0 {
        return TailStep::ReadFrom(String::from_str("$"));
    }
    let last = ids[ids.len() - 1].clone();
    TailStep::Forward(last)
}

} // verus!
