//! The trigger scheduler's decisions: which activation to wait for or fire next,
//! how trigger changes edit the queue, and which triggers this cluster member
//! schedules.

use vstd::prelude::*;
use vstd::multiset::Multiset;
use crate::queue::{TriggerQueue, TriggerTime, key3_le};
use crate::rendezvous::{HashKey, Rendezvous, id_bytes, id_key, scores, winner_index};

verus! {

/// Changes to the set of triggers that this member schedules.
#[derive(Clone, Debug, PartialEq, Eq)]
pub enum TriggerChange {
    Add(Vec<u128>),
    Remove(Vec<u128>),
}

/// What the scheduler does next.
#[derive(Clone, Copy, Debug, PartialEq, Eq, Structural)]
pub enum TriggerStep {
    /// nothing is queued: wait for a trigger change
    WaitForChange,
    /// the earliest activation is not due yet: sleep for `delay` microseconds,
    /// unless a trigger change arrives first (then put `next` back in the queue)
    Sleep { next: TriggerTime, delay: u64 },
    /// the activation is due (or overdue): queue the trigger's next activation and
    /// fire this one
    Fire(TriggerTime),
}

/// Takes the earliest activation out of the queue and decides what to do with it
/// at time `now`.
pub fn next_trigger_step(queue: &mut TriggerQueue, now: i64) -> (step: TriggerStep)
    ensures
        old(queue)@.len() == 0 ==> step == TriggerStep::WaitForChange && final(queue)@ == old(
            queue,
        )@,
        old(queue)@.len() > 0 ==> match step {
            TriggerStep::WaitForChange => false,
            TriggerStep::Sleep { next, delay } => {
                &&& old(queue)@.count(next.key()) > 0
                &&& forall|y: (i64, u128, i64)| old(queue)@.count(y) > 0 ==> key3_le(next.key(), y)
                &&& final(queue)@ == old(queue)@.remove(next.key())
                &&& next.scheduled_datetime > now
                &&& delay == next.scheduled_datetime - now
            },
            TriggerStep::Fire(next) => {
                &&& old(queue)@.count(next.key()) > 0
                &&& forall|y: (i64, u128, i64)| old(queue)@.count(y) > 0 ==> key3_le(next.key(), y)
                &&& final(queue)@ == old(queue)@.remove(next.key())
                &&& next.scheduled_datetime <= now
            },
        },
{
    match queue.pop() {
        None => TriggerStep::WaitForChange,
        Some(next) => {
            if next.scheduled_datetime > now {
                let delay = (next.scheduled_datetime as i128 - now as i128) as u64;
                TriggerStep::Sleep { next, delay }
            } else {
                TriggerStep::Fire(next)
            }
        },
    }
}

/// Removes every queued activation of the given triggers.
pub fn remove_triggers(queue: &mut TriggerQueue, ids: &Vec<u128>)
    ensures
        forall|k: (i64, u128, i64)| #[trigger] final(queue)@.count(k) == if ids@.contains(k.1) {
            0
        } else {
            old(queue)@.count(k)
        },
{
    let mut i: usize = 0;
    while i < ids.len()
        invariant
            0 <= i <= ids@.len(),
            forall|k: (i64, u128, i64)| #[trigger] queue@.count(k) == if ids@.take(
                i as int,
            ).contains(k.1) {
                0
            } else {
                old(queue)@.count(k)
            },
        decreases ids@.len() - i,
    {
        let ghost prev = queue@;
        queue.remove_trigger(ids[i]);
        proof {
            assert(ids@.take(i + 1) =~= ids@.take(i as int).push(ids@[i as int]));
            assert forall|k: (i64, u128, i64)| #[trigger] queue@.count(k) == if ids@.take(
                i + 1,
            ).contains(k.1) {
                0
            } else {
                old(queue)@.count(k)
            } by {
                assert(prev.count(k) == if ids@.take(i as int).contains(k.1) {
                    0
                } else {
                    old(queue)@.count(k)
                });
                if k.1 == ids@[i as int] {
                    assert(ids@.take(i + 1)[i as int] == k.1);
                } else if ids@.take(i + 1).contains(k.1) {
                    let j = choose|j: int| 0 <= j < i + 1 && #[trigger] ids@.take(i + 1)[j] == k.1;
                    assert(ids@.take(i as int)[j] == k.1);
                }
            }
        }
        i = i + 1;
    }
    proof {
        assert(ids@.take(i as int) =~= ids@);
    }
}

/// Whether the member named `me` schedules the trigger `id`: it is the trigger's
/// owner among `nodes` by rendezvous hashing of the id's bytes.
pub open spec fn owned_by<Node: HashKey>(nodes: Seq<Node>, me: Seq<u8>, id: u128) -> bool {
    nodes.len() > 0 && nodes[winner_index(scores(nodes, id_bytes(id)))].key_bytes() == me
}

/// The ids, in order, of the triggers that the member named `me` schedules.
pub fn owned_triggers<Node: HashKey, Me: HashKey + ?Sized>(
    cluster: &Rendezvous<Node>,
    me: &Me,
    ids: &Vec<u128>,
) -> (owned: Vec<u128>)
    ensures
        owned@ == ids@.filter(|id: u128| owned_by(cluster@, me.key_bytes(), id)),
{
    let ghost pred = |id: u128| owned_by(cluster@, me.key_bytes(), id);
    let mut owned: Vec<u128> = Vec::new();
    let mut i: usize = 0;
    while i < ids.len()
        invariant
            0 <= i <= ids@.len(),
            pred == (|id: u128| owned_by(cluster@, me.key_bytes(), id)),
            owned@ == ids@.take(i as int).filter(pred),
        decreases ids@.len() - i,
    {
        let id = ids[i];
        let key = id_key(id);
        let mine = cluster.item_is_mine(me, &key);
        proof {
            assert(ids@.take(i + 1).drop_last() =~= ids@.take(i as int));
            reveal_with_fuel(Seq::<_>::filter, 1);
            assert(mine == pred(id));
        }
        if mine {
            owned.push(id);
        }
        i = i + 1;
    }
    proof {
        assert(ids@.take(i as int) =~= ids@);
    }
    owned
}

/// The change that a trigger update makes for this member: it adds the updated
/// triggers that it owns, and nothing when it owns none of them.
pub fn trigger_update_change<Node: HashKey, Me: HashKey + ?Sized>(
    cluster: &Rendezvous<Node>,
    me: &Me,
    ids: &Vec<u128>,
) -> (c: Option<TriggerChange>)
    ensures
        ({
            let owned = ids@.filter(|id: u128| owned_by(cluster@, me.key_bytes(), id));
            &&& owned.len() == 0 ==> c is None
            &&& owned.len() > 0 ==> (c matches Some(TriggerChange::Add(v)) && v@ == owned)
        }),
{
    let owned = owned_triggers(cluster, me, ids);
    if owned.len() == 0 {
        None
    } else {
        Some(TriggerChange::Add(owned))
    }
}

/// The ids in `a`, in order, that are not in `b`.
pub fn ids_not_in(a: &Vec<u128>, b: &Vec<u128>) -> (r: Vec<u128>)
    ensures
        r@ == a@.filter(|id: u128| !b@.contains(id)),
{
    let ghost pred = |id: u128| !b@.contains(id);
    let mut r: Vec<u128> = Vec::new();
    let mut i: usize = 0;
    while i < a.len()
        invariant
            0 <= i <= a@.len(),
            pred == (|id: u128| !b@.contains(id)),
            r@ == a@.take(i as int).filter(pred),
        decreases a@.len() - i,
    {
        let id = a[i];
        let found = contains_id(b, id);
        proof {
            assert(a@.take(i + 1).drop_last() =~= a@.take(i as int));
            reveal_with_fuel(Seq::<_>::filter, 1);
        }
        if !found {
            r.push(id);
        }
        i = i + 1;
    }
    proof {
        assert(a@.take(i as int) =~= a@);
    }
    r
}

pub fn contains_id(v: &Vec<u128>, id: u128) -> (r: bool)
    ensures
        r == v@.contains(id),
{
    let mut i: usize = 0;
    while i < v.len()
        invariant
            0 <= i <= v@.len(),
            forall|j: int| 0 <= j < i ==> v@[j] != id,
        decreases v@.len() - i,
    {
        if v[i] == id {
            return true;
        }
        i = i + 1;
    }
    false
}

/// What a change of cluster membership means for this member.
#[derive(Debug, PartialEq, Eq)]
pub struct ClusterChanges {
    /// the triggers this member schedules now
    pub owned: Vec<u128>,
    /// the triggers it scheduled before and no longer does
    pub to_remove: Vec<u128>,
    /// the triggers it schedules now and did not before
    pub to_add: Vec<u128>,
}

/// Works out which triggers move to or from this member after the cluster's
/// membership changed: `current` are the triggers it scheduled so far, `all` the
/// triggers of unpaused jobs.
pub fn cluster_trigger_changes<Node: HashKey, Me: HashKey + ?Sized>(
    cluster: &Rendezvous<Node>,
    me: &Me,
    current: &Vec<u128>,
    all: &Vec<u128>,
) -> (c: ClusterChanges)
    ensures
        c.owned@ == all@.filter(|id: u128| owned_by(cluster@, me.key_bytes(), id)),
        c.to_remove@ == current@.filter(|id: u128| !c.owned@.contains(id)),
        c.to_add@ == c.owned@.filter(|id: u128| !current@.contains(id)),
{
    let owned = owned_triggers(cluster, me, all);
    let to_remove = ids_not_in(current, &owned);
    let to_add = ids_not_in(&owned, current);
    ClusterChanges { owned, to_remove, to_add }
}

} // verus!
