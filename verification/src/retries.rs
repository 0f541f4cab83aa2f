//! Retries of failed task runs: a min-heap of the times they are due, and the
//! decisions of the retry loop.

use vstd::prelude::*;
use vstd::multiset::Multiset;
use binary_heap_plus::{BinaryHeap, MinComparator};
use crate::messages::{ExecuteToken, TaskPriority, Token};
use crate::rendezvous::{HashKey, Rendezvous, id_key};
use crate::scheduler::owned_by;

verus! {

broadcast use {vstd::seq_lib::group_to_multiset_ensures, vstd::multiset::group_multiset_axioms};

/// Retry entries as the heap orders them: (due time, task run id), field by field.
pub open spec fn key2_le(a: (i64, u128), b: (i64, u128)) -> bool {
    a.0 < b.0 || (a.0 == b.0 && a.1 <= b.1)
}

/// The entries of a min-heap of retries.
pub uninterp spec fn retry_heap_items(h: BinaryHeap<(i64, u128), MinComparator>) -> Multiset<(i64, u128)>;

/// Calls `BinaryHeap::new_min`: an empty min-heap.
#[verifier::external_body]
fn retry_heap_new() -> (h: BinaryHeap<(i64, u128), MinComparator>)
    ensures
        retry_heap_items(h) == Multiset::<(i64, u128)>::empty(),
{
    BinaryHeap::new_min()
}

/// Calls `BinaryHeap::push`: the entry is added.
#[verifier::external_body]
fn retry_heap_push(h: &mut BinaryHeap<(i64, u128), MinComparator>, x: (i64, u128))
    ensures
        retry_heap_items(*final(h)) == retry_heap_items(*old(h)).insert(x),
{
    h.push(x)
}

/// Calls `BinaryHeap::pop` on a min-heap: it removes and returns an entry that
/// no other entry is below, or `None` when empty.
#[verifier::external_body]
fn retry_heap_pop(h: &mut BinaryHeap<(i64, u128), MinComparator>) -> (r: Option<(i64, u128)>)
    ensures
        r is None ==> retry_heap_items(*old(h)).len() == 0 && retry_heap_items(*final(h))
            == retry_heap_items(*old(h)),
        r matches Some(x) ==> {
            &&& retry_heap_items(*old(h)).count(x) > 0
            &&& forall|y: (i64, u128)| retry_heap_items(*old(h)).count(y) > 0 ==> key2_le(x, y)
            &&& retry_heap_items(*final(h)) == retry_heap_items(*old(h)).remove(x)
        },
{
    h.pop()
}

/// Calls `BinaryHeap::len`: the number of entries.
#[verifier::external_body]
fn retry_heap_len(h: &BinaryHeap<(i64, u128), MinComparator>) -> (n: usize)
    ensures
        n == retry_heap_items(*h).len(),
{
    h.len()
}

/// A retry of a task run, due at `retry_at_datetime` (microseconds since the epoch).
#[derive(Copy, Clone, Debug, PartialEq, Eq, Structural)]
pub struct Retry {
    pub retry_at_datetime: i64,
    pub task_run_id: u128,
}

impl Retry {
    pub open spec fn key(self) -> (i64, u128) {
        (self.retry_at_datetime, self.task_run_id)
    }
}

/// A message to the retry loop.
#[derive(Clone, Copy, Debug, PartialEq, Eq, Structural)]
pub enum SubmitRetry {
    /// queue one more retry
    Add(Retry),
    /// reload the retries that this member owns from the database
    Reload,
}

/// The pending retries, earliest first.
pub struct RetryQueue {
    heap: BinaryHeap<(i64, u128), MinComparator>,
}

impl View for RetryQueue {
    type V = Multiset<(i64, u128)>;

    closed spec fn view(&self) -> Multiset<(i64, u128)> {
        retry_heap_items(self.heap)
    }
}

impl RetryQueue {
    pub fn new() -> (q: Self)
        ensures
            q@ == Multiset::<(i64, u128)>::empty(),
    {
        RetryQueue { heap: retry_heap_new() }
    }

    pub fn push(&mut self, r: Retry)
        ensures
            final(self)@ == old(self)@.insert(r.key()),
    {
        retry_heap_push(&mut self.heap, (r.retry_at_datetime, r.task_run_id));
    }

    pub fn len(&self) -> (n: usize)
        ensures
            n == self@.len(),
    {
        retry_heap_len(&self.heap)
    }

    /// Handles a message: `Add` queues the retry; `Reload` queues the retries that
    /// were loaded (and filtered by ownership) from the database.
    pub fn submit(&mut self, msg: SubmitRetry, loaded: &Vec<Retry>)
        ensures
            match msg {
                SubmitRetry::Add(r) => final(self)@ == old(self)@.insert(r.key()),
                SubmitRetry::Reload => final(self)@ == old(self)@.add(
                    loaded@.map_values(|r: Retry| r.key()).to_multiset(),
                ),
            },
    {
        match msg {
            SubmitRetry::Add(r) => self.push(r),
            SubmitRetry::Reload => {
                let ghost start = self@;
                let mut i: usize = 0;
                proof {
                    let ks = loaded@.take(0).map_values(|r: Retry| r.key());
                    assert(ks =~= Seq::<(i64, u128)>::empty());
                    assert(ks.to_multiset() =~= Multiset::<(i64, u128)>::empty());
                    assert(start.add(ks.to_multiset()) =~= start);
                }
                while i < loaded.len()
                    invariant
                        0 <= i <= loaded@.len(),
                        self@ == start.add(
                            loaded@.take(i as int).map_values(|r: Retry| r.key()).to_multiset(),
                        ),
                    decreases loaded@.len() - i,
                {
                    let r = loaded[i];
                    proof {
                        let ks = loaded@.take(i as int).map_values(|r: Retry| r.key());
                        assert(loaded@.take(i + 1).map_values(|r: Retry| r.key()) =~= ks.push(r.key()));
                        vstd::seq_lib::to_multiset_build(ks, r.key());
                        assert(start.add(ks.to_multiset().insert(r.key())) =~= start.add(
                            ks.to_multiset(),
                        ).insert(r.key()));
                    }
                    self.push(r);
                    i = i + 1;
                }
                proof {
                    assert(loaded@.take(i as int) =~= loaded@);
                }
            },
        }
    }
}

/// The retries, in order, whose task runs this member owns (by rendezvous
/// hashing of the run id), as a reload from the database keeps them.
pub fn owned_retries<Node: HashKey, Me: HashKey + ?Sized>(
    cluster: &Rendezvous<Node>,
    me: &Me,
    retries: &Vec<Retry>,
) -> (owned: Vec<Retry>)
    ensures
        owned@ == retries@.filter(|r: Retry| owned_by(cluster@, me.key_bytes(), r.task_run_id)),
{
    let ghost pred = |r: Retry| owned_by(cluster@, me.key_bytes(), r.task_run_id);
    let mut owned: Vec<Retry> = Vec::new();
    let mut i: usize = 0;
    while i < retries.len()
        invariant
            0 <= i <= retries@.len(),
            pred == (|r: Retry| owned_by(cluster@, me.key_bytes(), r.task_run_id)),
            owned@ == retries@.take(i as int).filter(pred),
        decreases retries@.len() - i,
    {
        let r = retries[i];
        let key = id_key(r.task_run_id);
        let mine = cluster.item_is_mine(me, &key);
        proof {
            assert(retries@.take(i + 1).drop_last() =~= retries@.take(i as int));
            reveal_with_fuel(Seq::<_>::filter, 1);
            assert(mine == pred(r));
        }
        if mine {
            owned.push(r);
        }
        i = i + 1;
    }
    proof {
        assert(retries@.take(i as int) =~= retries@);
    }
    owned
}

/// What the retry loop does next.
#[derive(Clone, Copy, Debug, PartialEq, Eq, Structural)]
pub enum RetryStep {
    /// nothing is queued: wait for a message
    WaitForRetry,
    /// the earliest retry is not due: sleep `delay` microseconds unless a message
    /// arrives first (then put `next` back)
    Sleep { next: Retry, delay: u64 },
    /// the retry is due (or overdue): run it
    Run(Retry),
}

/// Takes the earliest retry out of the queue and decides what to do at `now`.
pub fn next_retry_step(queue: &mut RetryQueue, now: i64) -> (step: RetryStep)
    ensures
        old(queue)@.len() == 0 ==> step == RetryStep::WaitForRetry && final(queue)@ == old(queue)@,
        old(queue)@.len() > 0 ==> match step {
            RetryStep::WaitForRetry => false,
            RetryStep::Sleep { next, delay } => {
                &&& old(queue)@.count(next.key()) > 0
                &&& forall|y: (i64, u128)| old(queue)@.count(y) > 0 ==> key2_le(next.key(), y)
                &&& final(queue)@ == old(queue)@.remove(next.key())
                &&& next.retry_at_datetime > now
                &&& delay == next.retry_at_datetime - now
            },
            RetryStep::Run(next) => {
                &&& old(queue)@.count(next.key()) > 0
                &&& forall|y: (i64, u128)| old(queue)@.count(y) > 0 ==> key2_le(next.key(), y)
                &&& final(queue)@ == old(queue)@.remove(next.key())
                &&& next.retry_at_datetime <= now
            },
        },
{
    match retry_heap_pop(&mut queue.heap) {
        None => RetryStep::WaitForRetry,
        Some(k) => {
            let next = Retry { retry_at_datetime: k.0, task_run_id: k.1 };
            if next.retry_at_datetime > now {
                let delay = (next.retry_at_datetime as i128 - now as i128) as u64;
                RetryStep::Sleep { next, delay }
            } else {
                RetryStep::Run(next)
            }
        },
    }
}

/// Why an attempt number cannot be carried on.
#[derive(Clone, Copy, Debug, PartialEq, Eq, Structural)]
pub enum AttemptError {
    /// the stored attempt number is negative or does not fit in 32 bits
    OutOfRange,
}

/// The number of the next attempt after the stored attempt `attempt`.
pub fn next_attempt(attempt: i64) -> (r: Result<u32, AttemptError>)
    requires
        attempt != 0xffff_ffff,
    ensures
        0 <= attempt <= 0xffff_ffff ==> r == Ok::<u32, AttemptError>((attempt + 1) as u32),
        !(0 <= attempt <= 0xffff_ffff) ==> r == Err::<u32, AttemptError>(AttemptError::OutOfRange),
{
    if 0 <= attempt && attempt <= 0xffff_ffff {
        Ok((attempt as u32) + 1)
    } else {
        Err(AttemptError::OutOfRange)
    }
}

/// The execution that retries a task run: the run's token and priority, and the
/// attempt after the run's attempt.
pub fn retry_execution(task_id: u128, trigger_datetime: i64, priority: TaskPriority, attempt: i64) -> (r: Result<ExecuteToken, AttemptError>)
    requires
        attempt != 0xffff_ffff,
    ensures
        0 <= attempt <= 0xffff_ffff ==> r == Ok::<ExecuteToken, AttemptError>(
            ExecuteToken {
                token: Token { task_id, trigger_datetime },
                priority,
                attempt: (attempt + 1) as u32,
            },
        ),
        !(0 <= attempt <= 0xffff_ffff) ==> r is Err,
{
    let attempt = next_attempt(attempt)?;
    Ok(ExecuteToken { token: Token { task_id, trigger_datetime }, priority, attempt })
}

} // verus!
