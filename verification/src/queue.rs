//! The scheduler's queues of pending trigger times and pending retries, both
//! min-heaps of `binary_heap_plus`: the earliest entry is taken first.

use vstd::prelude::*;
use vstd::multiset::Multiset;
use vstd::string::*;
use crate::jwt::{uuid_text, uuid_text_spec};
use crate::schedule::{rfc3339, rfc3339_text, valid_instant};
use binary_heap_plus::{BinaryHeap, MinComparator};

verus! {

broadcast use {vstd::seq_lib::group_to_multiset_ensures, vstd::multiset::group_multiset_axioms, vstd::multiset::group_multiset_properties};

#[verifier::external_type_specification]
#[verifier::external_body]
#[verifier::reject_recursive_types(T)]
#[verifier::reject_recursive_types(C)]
pub struct ExBinaryHeap<T, C>(BinaryHeap<T, C>);

#[verifier::external_type_specification]
#[verifier::external_body]
pub struct ExMinComparator(MinComparator);

/// A trigger time as the queue orders it: (scheduled time, trigger id, logical
/// trigger time), compared field by field.
pub open spec fn key3_le(a: (i64, u128, i64), b: (i64, u128, i64)) -> bool {
    a.0 < b.0 || (a.0 == b.0 && (a.1 < b.1 || (a.1 == b.1 && a.2 <= b.2)))
}

/// The entries of a min-heap of trigger times.
pub uninterp spec fn trigger_heap_items(h: BinaryHeap<(i64, u128, i64), MinComparator>) -> Multiset<(i64, u128, i64)>;

/// Calls `BinaryHeap::new_min`: an empty min-heap.
#[verifier::external_body]
fn trigger_heap_new() -> (h: BinaryHeap<(i64, u128, i64), MinComparator>)
    ensures
        trigger_heap_items(h) == Multiset::<(i64, u128, i64)>::empty(),
{
    BinaryHeap::new_min()
}

/// Calls `BinaryHeap::push`: the entry is added.
#[verifier::external_body]
fn trigger_heap_push(h: &mut BinaryHeap<(i64, u128, i64), MinComparator>, x: (i64, u128, i64))
    ensures
        trigger_heap_items(*final(h)) == trigger_heap_items(*old(h)).insert(x),
{
    h.push(x)
}

/// Calls `BinaryHeap::pop` on a min-heap: it removes and returns an entry that
/// no other entry is below (tuples compare field by field), or `None` when empty.
#[verifier::external_body]
fn trigger_heap_pop(h: &mut BinaryHeap<(i64, u128, i64), MinComparator>) -> (r: Option<
    (i64, u128, i64),
>)
    ensures
        r is None ==> trigger_heap_items(*old(h)).len() == 0 && trigger_heap_items(*final(h))
            == trigger_heap_items(*old(h)),
        r matches Some(x) ==> {
            &&& trigger_heap_items(*old(h)).count(x) > 0
            &&& forall|y: (i64, u128, i64)| trigger_heap_items(*old(h)).count(y) > 0 ==> key3_le(x, y)
            &&& trigger_heap_items(*final(h)) == trigger_heap_items(*old(h)).remove(x)
        },
{
    h.pop()
}

/// Calls `BinaryHeap::len`: the number of entries.
#[verifier::external_body]
fn trigger_heap_len(h: &BinaryHeap<(i64, u128, i64), MinComparator>) -> (n: usize)
    ensures
        n == trigger_heap_items(*h).len(),
{
    h.len()
}

/// Calls `BinaryHeap::drain` and collects what it yields: every entry, in some
/// order, leaving the heap empty.
#[verifier::external_body]
fn trigger_heap_drain(h: &mut BinaryHeap<(i64, u128, i64), MinComparator>) -> (v: Vec<(i64, u128, i64)>)
    ensures
        v@.to_multiset() == trigger_heap_items(*old(h)),
        trigger_heap_items(*final(h)) == Multiset::<(i64, u128, i64)>::empty(),
{
    h.drain().collect()
}

/// One activation of a trigger: when it is due (its logical time plus the
/// trigger's offset), which trigger, and the logical time it runs for; times are
/// microseconds since the epoch.
#[derive(Copy, Clone, Debug, PartialEq, Eq, Structural)]
pub struct TriggerTime {
    pub scheduled_datetime: i64,
    pub trigger_id: u128,
    pub trigger_datetime: i64,
}

impl TriggerTime {
    /// The activation as log lines show it: `<trigger-time ID @ TIME>`, the time
    /// being the logical one.
    pub fn to_string(&self) -> (s: String)
        requires
            valid_instant(self.trigger_datetime as int),
        ensures
            s@ == "<trigger-time "@ + uuid_text_spec(self.trigger_id) + " @ "@ + rfc3339_text(
                self.trigger_datetime,
            ) + ">"@,
    {
        let mut s = String::from_str("<trigger-time ");
        s.append(uuid_text(self.trigger_id).as_str());
        s.append(" @ ");
        s.append(rfc3339(self.trigger_datetime).as_str());
        s.append(">");
        s
    }
}

impl TriggerTime {
    pub open spec fn key(self) -> (i64, u128, i64) {
        (self.scheduled_datetime, self.trigger_id, self.trigger_datetime)
    }
}

/// The trigger times waiting to be activated, earliest first.
pub struct TriggerQueue {
    heap: BinaryHeap<(i64, u128, i64), MinComparator>,
}

impl View for TriggerQueue {
    type V = Multiset<(i64, u128, i64)>;

    closed spec fn view(&self) -> Multiset<(i64, u128, i64)> {
        trigger_heap_items(self.heap)
    }
}

impl TriggerQueue {
    pub fn new() -> (q: Self)
        ensures
            q@ == Multiset::<(i64, u128, i64)>::empty(),
    {
        TriggerQueue { heap: trigger_heap_new() }
    }

    pub fn push(&mut self, t: TriggerTime)
        ensures
            final(self)@ == old(self)@.insert(t.key()),
    {
        trigger_heap_push(&mut self.heap, (t.scheduled_datetime, t.trigger_id, t.trigger_datetime));
    }

    /// Takes out the earliest trigger time.
    pub fn pop(&mut self) -> (r: Option<TriggerTime>)
        ensures
            r is None <==> old(self)@.len() == 0,
            r is None ==> final(self)@ == old(self)@,
            r matches Some(t) ==> {
                &&& old(self)@.count(t.key()) > 0
                &&& forall|y: (i64, u128, i64)| old(self)@.count(y) > 0 ==> key3_le(t.key(), y)
                &&& final(self)@ == old(self)@.remove(t.key())
            },
    {
        match trigger_heap_pop(&mut self.heap) {
            None => None,
            Some(k) => Some(TriggerTime { scheduled_datetime: k.0, trigger_id: k.1, trigger_datetime: k.2 }),
        }
    }

    pub fn len(&self) -> (n: usize)
        ensures
            n == self@.len(),
    {
        trigger_heap_len(&self.heap)
    }

    pub fn is_empty(&self) -> (b: bool)
        ensures
            b <==> self@.len() == 0,
    {
        trigger_heap_len(&self.heap) == 0
    }

    /// Removes every queued time of one trigger.
    pub fn remove_trigger(&mut self, trigger_id: u128)
        ensures
            forall|k: (i64, u128, i64)| #[trigger] final(self)@.count(k) == if k.1 == trigger_id {
                0
            } else {
                old(self)@.count(k)
            },
    {
        let ghost before = self@;
        let items = trigger_heap_drain(&mut self.heap);
        let mut i: usize = 0;
        while i < items.len()
            invariant
                0 <= i <= items@.len(),
                items@.to_multiset() == before,
                forall|k: (i64, u128, i64)| #[trigger] self@.count(k) == if k.1 == trigger_id {
                    0
                } else {
                    items@.take(i as int).to_multiset().count(k)
                },
            decreases items@.len() - i,
        {
            let k = items[i];
            proof {
                assert(items@.take(i + 1) =~= items@.take(i as int).push(k));
                vstd::seq_lib::to_multiset_build(items@.take(i as int), k);
                assert(items@.take(i + 1).to_multiset() =~= items@.take(i as int).to_multiset().insert(k));
            }
            let ghost prev = self@;
            if k.1 != trigger_id {
                trigger_heap_push(&mut self.heap, k);
            }
            proof {
                assert forall|x: (i64, u128, i64)| #[trigger] self@.count(x) == if x.1 == trigger_id {
                    0
                } else {
                    items@.take(i + 1).to_multiset().count(x)
                } by {
                    assert(prev.count(x) == if x.1 == trigger_id {
                        0
                    } else {
                        items@.take(i as int).to_multiset().count(x)
                    });
                }
            }
            i = i + 1;
        }
        proof {
            assert(items@.take(i as int) =~= items@);
        }
    }
}

} // verus!
