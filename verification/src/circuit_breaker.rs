//! A circuit breaker that allows a task to be retried until it fails a certain
//! number of times within a given period. Times are microseconds since the Unix
//! epoch.

use vstd::prelude::*;

verus! {

/// Calls `chrono::Utc::now()` and reads `timestamp_micros()`; the time depends on
/// the clock, so the contract states nothing of it.
#[verifier::external_body]
fn now_micros() -> (t: i64) {
    chrono::Utc::now().timestamp_micros()
}

/// The breaker's decision at time `now`, given the times of the retries it still
/// remembers: allowed while fewer than `count` are remembered, or when the oldest
/// of them is at least `window` before `now`; when allowed, `now` is remembered
/// (forgetting the oldest once `count` are remembered).
pub open spec fn breaker_step(trips: Seq<i64>, count: nat, window: i64, now: i64) -> (Seq<i64>, bool) {
    if trips.len() < count {
        (trips.push(now), true)
    } else if now - trips[0] < window {
        (trips, false)
    } else {
        (trips.drop_first().push(now), true)
    }
}

pub struct CircuitBreaker {
    count: usize,
    duration: i64,
    trips: Vec<i64>,
}

impl CircuitBreaker {
    /// The number of retries that may happen within the window.
    pub closed spec fn limit(&self) -> nat {
        self.count as nat
    }

    /// The length of the window in microseconds.
    pub closed spec fn window(&self) -> i64 {
        self.duration
    }

    /// The times of the retries that the breaker remembers, oldest first.
    pub closed spec fn trips(&self) -> Seq<i64> {
        self.trips@
    }

    pub closed spec fn wf(&self) -> bool {
        self.trips@.len() <= self.count
    }

    /// A breaker that trips when more than `count` retries happen within
    /// `duration` microseconds.
    pub fn new(count: usize, duration: i64) -> (b: CircuitBreaker)
        ensures
            b.wf(),
            b.limit() == count,
            b.window() == duration,
            b.trips() == Seq::<i64>::empty(),
    {
        CircuitBreaker { count, duration, trips: Vec::new() }
    }

    /// Whether an operation may be retried at time `now` (the retry is then
    /// remembered).
    pub fn retry_at(&mut self, now: i64) -> (allowed: bool)
        requires
            old(self).wf(),
            old(self).limit() > 0,
        ensures
            final(self).wf(),
            final(self).limit() == old(self).limit(),
            final(self).window() == old(self).window(),
            (final(self).trips(), allowed) == breaker_step(
                old(self).trips(),
                old(self).limit(),
                old(self).window(),
                now,
            ),
    {
        if self.trips.len() < self.count {
            self.trips.push(now);
            true
        } else {
            if (now as i128) - (self.trips[0] as i128) < self.duration as i128 {
                false
            } else {
                self.trips.remove(0);
                self.trips.push(now);
                true
            }
        }
    }

    /// Whether an operation may be retried now.
    pub fn retry(&mut self) -> (allowed: bool)
        requires
            old(self).wf(),
            old(self).limit() > 0,
        ensures
            final(self).wf(),
            final(self).limit() == old(self).limit(),
            final(self).window() == old(self).window(),
            exists|now: i64| (final(self).trips(), allowed) == #[trigger] breaker_step(
                old(self).trips(),
                old(self).limit(),
                old(self).window(),
                now,
            ),
    {
        let now = now_micros();
        self.retry_at(now)
    }
}

/// The breaker's memory and the retries it allowed, after it was asked at each of
/// the given times, starting with no retries remembered.
pub open spec fn breaker_run(times: Seq<i64>, count: nat, window: i64) -> (Seq<i64>, Seq<i64>)
    decreases times.len(),
{
    if times.len() == 0 {
        (Seq::empty(), Seq::empty())
    } else {
        let prev = breaker_run(times.drop_last(), count, window);
        let step = breaker_step(prev.0, count, window, times.last());
        (step.0, if step.1 {
            prev.1.push(times.last())
        } else {
            prev.1
        })
    }
}

proof fn lemma_breaker_run_memory(times: Seq<i64>, count: nat, window: i64)
    requires
        count > 0,
    ensures
        ({
            let r = breaker_run(times, count, window);
            let a = r.1;
            let m = if a.len() < count {
                a.len()
            } else {
                count
            };
            &&& r.0 == a.subrange(a.len() - m, a.len() as int)
            &&& forall|j: int| count <= j < a.len() ==> #[trigger] a[j] - a[j - count] >= window
        }),
    decreases times.len(),
{
    if times.len() > 0 {
        let t = times.drop_last();
        lemma_breaker_run_memory(t, count, window);
        let prev = breaker_run(t, count, window);
        let a = prev.1;
        let now = times.last();
        let r = breaker_run(times, count, window);
        let m = if a.len() < count {
            a.len()
        } else {
            count
        };
        assert(prev.0 == a.subrange(a.len() - m, a.len() as int));
        if prev.0.len() < count {
            assert(r.1 == a.push(now));
            assert(r.0 =~= r.1.subrange(0, r.1.len() as int));
            assert forall|j: int| count <= j < r.1.len() implies #[trigger] r.1[j] - r.1[j - count] >= window by {
                assert(r.1[j] == a[j] && r.1[j - count] == a[j - count]);
            }
        } else if now - prev.0[0] < window {
        } else {
            let b = a.push(now);
            assert(r.1 == b);
            assert(prev.0[0] == a[a.len() - count]);
            assert(r.0 =~= b.subrange(b.len() - count, b.len() as int));
            assert forall|j: int| count <= j < b.len() implies #[trigger] b[j] - b[j - count] >= window by {
                if j < a.len() {
                    assert(b[j] == a[j] && b[j - count] == a[j - count]);
                } else {
                    assert(b[j] == now && b[j - count] == a[a.len() - count]);
                }
            }
        }
    }
}

/// Whatever the times at which a breaker is asked, of any `count` + 1 retries
/// that it allows in a row, the last comes at least the window after the first:
/// more than `count` retries within less than the window are never allowed.
pub proof fn lemma_breaker_limits_retries(times: Seq<i64>, count: nat, window: i64)
    requires
        count > 0,
    ensures
        forall|j: int|
            count <= j < breaker_run(times, count, window).1.len() ==> #[trigger] breaker_run(
                times,
                count,
                window,
            ).1[j] - breaker_run(times, count, window).1[j - count] >= window,
{
    lemma_breaker_run_memory(times, count, window);
}

} // verus!
