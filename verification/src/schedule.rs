//! When triggers fire: the period of a trigger (a fixed number of seconds or a
//! cron expression), the activations that catch a trigger up after it was not
//! scheduled, and the next activation to queue. Times are microseconds since the
//! Unix epoch.

use vstd::prelude::*;
use crate::api_types::Catchup;
use crate::queue::TriggerTime;

verus! {

/// The earliest time a `chrono::DateTime<Utc>` holds (year -262143).
pub open spec fn min_instant() -> int {
    -8_334_601_315_200_000_000
}

/// The latest time a `chrono::DateTime<Utc>` holds (the end of year 262142).
pub open spec fn max_instant() -> int {
    8_210_266_876_799_999_999
}

pub open spec fn valid_instant(t: int) -> bool {
    min_instant() <= t <= max_instant()
}

/// Whether a cron expression parses, or the parser's message.
pub uninterp spec fn cron_parse(expr: Seq<char>) -> Result<(), Seq<char>>;

/// The first time that the cron expression gives after `after`, if any.
pub uninterp spec fn cron_next(expr: Seq<char>, after: i64) -> Option<i64>;

#[verifier::external_type_specification]
#[verifier::external_body]
pub struct ExCronSchedule(cron::Schedule);

/// A parsed cron expression together with its text.
pub struct CronSchedule {
    schedule: cron::Schedule,
    expr: String,
}

impl CronSchedule {
    /// The text the schedule was parsed from.
    pub closed spec fn expression(&self) -> Seq<char> {
        self.expr@
    }
}

/// Calls `cron::Schedule::from_str`. The contract names the outcome
/// (`cron_parse`), the error by its `Display` text, and keeps the text of the
/// expression beside the schedule.
#[verifier::external_body]
pub(crate) fn parse_cron(expr: &str) -> (r: Result<CronSchedule, String>)
    ensures
        match r {
            Ok(s) => cron_parse(expr@) == Ok::<(), Seq<char>>(()) && s.expression() == expr@,
            Err(msg) => cron_parse(expr@) == Err::<(), Seq<char>>(msg@),
        },
{
    match <cron::Schedule as std::str::FromStr>::from_str(expr) {
        Ok(schedule) => Ok(CronSchedule { schedule, expr: expr.to_owned() }),
        Err(e) => Err(e.to_string()),
    }
}

/// Calls `Schedule::after(..).next()` in UTC. The contract names the result
/// (`cron_next`) and states what the source shows: the search starts one second
/// after `after`, so a time it finds is later than `after`, and it is a time a
/// `DateTime<Utc>` holds. `requires` keeps `after` one second inside that range,
/// since the crate adds that second without a check.
#[verifier::external_body]
fn cron_after(s: &CronSchedule, after: i64) -> (r: Option<i64>)
    requires
        valid_instant(after as int),
        after + 1_000_000 <= max_instant(),
    ensures
        r == cron_next(s.expression(), after),
        r matches Some(n) ==> n > after && valid_instant(n as int),
{
    let dt = chrono::DateTime::from_timestamp_micros(after).unwrap();
    s.schedule.after(&dt).next().map(|n| n.timestamp_micros())
}

/// The RFC 3339 text of a time, as chrono writes it.
pub uninterp spec fn rfc3339_text(t: i64) -> Seq<char>;

/// Calls `DateTime::<Utc>::from_timestamp_micros` and `to_rfc3339`; the
/// contract names the text. `requires` keeps the time inside what a `DateTime`
/// holds, where the conversion succeeds.
#[verifier::external_body]
pub(crate) fn rfc3339(t: i64) -> (s: String)
    requires
        valid_instant(t as int),
    ensures
        s@ == rfc3339_text(t),
{
    chrono::DateTime::from_timestamp_micros(t).unwrap().to_rfc3339()
}

/// How often a trigger fires.
pub enum Period {
    /// every so many seconds
    Every(i64),
    /// at the times of a cron expression
    Cron(CronSchedule),
}

/// A period as the contracts see it.
pub enum PeriodSpec {
    Every(i64),
    Cron(Seq<char>),
}

impl Period {
    pub open spec fn spec(&self) -> PeriodSpec {
        match self {
            Period::Every(s) => PeriodSpec::Every(*s),
            Period::Cron(c) => PeriodSpec::Cron(c.expression()),
        }
    }
}

/// The time one period after `t`, or `None` where the scheduler cannot go on (the
/// time would leave the range of a `DateTime`, or the cron schedule has no later
/// time).
pub open spec fn advance(p: PeriodSpec, t: int) -> Option<int> {
    match p {
        PeriodSpec::Every(secs) => {
            let n = t + secs * 1_000_000;
            if valid_instant(n) {
                Some(n)
            } else {
                None
            }
        },
        PeriodSpec::Cron(expr) => if valid_instant(t) && t + 1_000_000 <= max_instant() {
            match cron_next(expr, t as i64) {
                Some(n) => Some(n as int),
                None => None,
            }
        } else {
            None
        },
    }
}

/// The times from `from` on, one period apart, that come before `until`, and the
/// first time not before `until`; `None` when a step cannot be taken.
pub open spec fn step_times(p: PeriodSpec, from: int, until: int) -> Option<(Seq<int>, int)>
    decreases if from < until {
        until - from
    } else {
        0
    },
{
    if from >= until {
        Some((Seq::empty(), from))
    } else {
        let next = advance(p, from);
        if next is None || next->0 <= from {
            None
        } else {
            let n = next->0;
            let rest = step_times(p, n, until);
            if rest is None {
                None
            } else {
                let tail = rest->0;
                Some((seq![from] + tail.0, tail.1))
            }
        }
    }
}

/// The times a trigger steps through: they start at `from`, stay before
/// `until`, rise strictly, are one period apart, and the first time after them
/// (one period after the last) is not before `until`.
pub proof fn lemma_step_times(p: PeriodSpec, from: int, until: int)
    requires
        step_times(p, from, until) is Some,
    ensures
        ({
            let (ts, last) = step_times(p, from, until)->0;
            &&& forall|i: int| 0 <= i < ts.len() ==> from <= #[trigger] ts[i] < until
            &&& forall|i: int, j: int| 0 <= i < j < ts.len() ==> ts[i] < ts[j]
            &&& until <= last
            &&& ts.len() == 0 ==> last == from
            &&& ts.len() > 0 ==> ts[0] == from
            &&& ts.len() > 0 ==> advance(p, ts.last()) == Some(last)
            &&& forall|i: int| 0 <= i < ts.len() - 1 ==> advance(p, #[trigger] ts[i]) == Some(ts[i + 1])
            &&& ts.len() > 0 ==> ts.last() < last
        }),
    decreases
            if from < until {
                until - from
            } else {
                0
            },
{
    if from < until {
        let n = advance(p, from)->0;
        lemma_step_times(p, n, until);
        let (tail, last) = step_times(p, n, until)->0;
        let ts = seq![from] + tail;
        assert(step_times(p, from, until)->0 == (ts, last));
        assert forall|i: int| 0 <= i < ts.len() implies from <= #[trigger] ts[i] < until by {
            if i > 0 {
                assert(ts[i] == tail[i - 1]);
            }
        }
        assert forall|i: int, j: int| 0 <= i < j < ts.len() implies ts[i] < ts[j] by {
            assert(ts[j] == tail[j - 1]);
            if i > 0 {
                assert(ts[i] == tail[i - 1]);
            } else {
                assert(n <= tail[j - 1]);
            }
        }
        assert forall|i: int| 0 <= i < ts.len() - 1 implies advance(p, #[trigger] ts[i]) == Some(ts[i + 1]) by {
            assert(ts[i + 1] == tail[i]);
            if i > 0 {
                assert(ts[i] == tail[i - 1]);
            }
        }
        if tail.len() > 0 {
            assert(ts.last() == tail.last());
        }
    }
}

/// The earliest and the latest time a trigger has fired at, once it fires at
/// `t`: a bound not yet set becomes `t`, a set one moves out to `t` if needed.
pub fn widen_fired_bounds(earliest: Option<i64>, latest: Option<i64>, t: i64) -> (r: (i64, i64))
    ensures
        r.0 == match earliest {
            Some(e) => if e < t { e } else { t },
            None => t,
        },
        r.1 == match latest {
            Some(l) => if l > t { l } else { t },
            None => t,
        },
        r.0 <= t <= r.1,
{
    let e = match earliest {
        Some(e) => if e < t { e } else { t },
        None => t,
    };
    let l = match latest {
        Some(l) => if l > t { l } else { t },
        None => t,
    };
    (e, l)
}

/// A trigger as the scheduler reads it from the database (times in microseconds,
/// the period and the offset in seconds).
#[derive(Debug, PartialEq, Eq)]
pub struct TriggerRow {
    pub id: u128,
    pub start_datetime: i64,
    pub end_datetime: Option<i64>,
    pub earliest_trigger_datetime: Option<i64>,
    pub latest_trigger_datetime: Option<i64>,
    pub period: Option<i64>,
    pub cron: Option<String>,
    pub trigger_offset: Option<i64>,
    pub catchup: Catchup,
}

pub open spec fn opt_valid(t: Option<i64>) -> bool {
    match t {
        Some(t) => valid_instant(t as int),
        None => true,
    }
}

impl TriggerRow {
    /// The times of the row are times a `DateTime` holds, and it has a schedule:
    /// a cron expression, or else a period of at least a second.
    pub open spec fn wf(&self) -> bool {
        &&& valid_instant(self.start_datetime as int)
        &&& opt_valid(self.end_datetime)
        &&& opt_valid(self.earliest_trigger_datetime)
        &&& opt_valid(self.latest_trigger_datetime)
        &&& (self.cron is None ==> (self.period matches Some(p) && p > 0))
    }

    /// The activation of this trigger at logical time `t`: due at `t` plus the
    /// trigger's offset (`None` when that is outside the range of a `DateTime`).
    pub open spec fn at_spec(&self, t: int) -> Option<TriggerTime> {
        let off = match self.trigger_offset {
            Some(o) => o as int,
            None => 0,
        };
        let due = t + off * 1_000_000;
        if valid_instant(due) && valid_instant(t) {
            Some(TriggerTime { scheduled_datetime: due as i64, trigger_id: self.id, trigger_datetime: t as i64 })
        } else {
            None
        }
    }

    /// The period of the trigger: its cron expression if it has one, else its
    /// period in seconds.
    pub fn period(&self) -> (r: Result<Period, String>)
        requires
            self.cron is None ==> self.period is Some,
        ensures
            match self.cron {
                Some(c) => match cron_parse(c@) {
                    Ok(_) => r matches Ok(p) && p.spec() == PeriodSpec::Cron(c@),
                    Err(msg) => r matches Err(m) && m@ == msg,
                },
                None => r matches Ok(p) && p.spec() == PeriodSpec::Every(self.period->0),
            },
    {
        match &self.cron {
            Some(c) => match parse_cron(c.as_str()) {
                Ok(s) => Ok(Period::Cron(s)),
                Err(msg) => Err(msg),
            },
            None => Ok(Period::Every(self.period.unwrap())),
        }
    }

    /// The activation at logical time `t`.
    pub fn at(&self, t: i64) -> (r: Option<TriggerTime>)
        ensures
            r == self.at_spec(t as int),
    {
        let off: i128 = match self.trigger_offset {
            Some(o) => o as i128,
            None => 0,
        };
        let due: i128 = t as i128 + off * 1_000_000;
        if -8_334_601_315_200_000_000 <= due && due <= 8_210_266_876_799_999_999
            && -8_334_601_315_200_000_000 <= t && t <= 8_210_266_876_799_999_999 {
            Some(TriggerTime { scheduled_datetime: due as i64, trigger_id: self.id, trigger_datetime: t })
        } else {
            None
        }
    }
}

/// One period after `t`.
pub fn advance_time(p: &Period, t: i64) -> (r: Option<i64>)
    ensures
        r matches Some(n) ==> advance(p.spec(), t as int) == Some(n as int),
        r is None ==> advance(p.spec(), t as int) is None,
{
    match p {
        Period::Every(secs) => {
            let n: i128 = t as i128 + (*secs as i128) * 1_000_000;
            if -8_334_601_315_200_000_000 <= n && n <= 8_210_266_876_799_999_999 {
                Some(n as i64)
            } else {
                None
            }
        },
        Period::Cron(s) => {
            if -8_334_601_315_200_000_000 <= t && (t as i128) + 1_000_000 <= 8_210_266_876_799_999_999 {
                cron_after(s, t)
            } else {
                None
            }
        },
    }
}

pub open spec fn as_times(v: Seq<i64>) -> Seq<int> {
    v.map_values(|t: i64| t as int)
}

/// Why a plan cannot be made: a time would leave the range of a `DateTime`, or a
/// cron schedule has no later time (the scheduler cannot go on with the trigger).
#[derive(Debug, Clone, Copy, PartialEq, Eq)]
pub enum ScheduleError {
    OutOfRange,
}

/// The times from `from`, one period apart, before `until`, and the first time
/// not before `until`.
pub fn step(p: &Period, from: i64, until: i64) -> (r: Result<(Vec<i64>, i64), ScheduleError>)
    ensures
        match step_times(p.spec(), from as int, until as int) {
            None => r is Err,
            Some(st) => r matches Ok(v) && as_times(v.0@) == st.0 && v.1 as int == st.1,
        },
{
    let mut times: Vec<i64> = Vec::new();
    let mut next = from;
    while next < until
        invariant
            step_times(p.spec(), from as int, until as int) == match step_times(
                p.spec(),
                next as int,
                until as int,
            ) {
                None => None,
                Some(rest) => Some((as_times(times@) + rest.0, rest.1)),
            },
        decreases if next < until {
            until - next
        } else {
            0
        },
    {
        let ghost before = times@;
        times.push(next);
        assert(as_times(times@) =~= as_times(before) + seq![next as int]);
        match advance_time(p, next) {
            None => {
                return Err(ScheduleError::OutOfRange);
            },
            Some(n) => {
                if n <= next {
                    return Err(ScheduleError::OutOfRange);
                }
                proof {
                    let rest = step_times(p.spec(), n as int, until as int);
                    if rest is Some {
                        let tail = rest->0;
                        assert(as_times(times@) + tail.0 =~= as_times(before) + (seq![
                            next as int,
                        ] + tail.0));
                    }
                }
                next = n;
            },
        }
    }
    assert(as_times(times@) + Seq::<int>::empty() =~= as_times(times@));
    Ok((times, next))
}

/// The activations of a trigger at the given times (`None` when one of them
/// cannot be made).
pub open spec fn activations_at(tr: TriggerRow, times: Seq<int>) -> Option<Seq<TriggerTime>>
    decreases times.len(),
{
    if times.len() == 0 {
        Some(Seq::empty())
    } else {
        match activations_at(tr, times.drop_last()) {
            None => None,
            Some(prefix) => match tr.at_spec(times.last()) {
                None => None,
                Some(t) => Some(prefix.push(t)),
            },
        }
    }
}

/// The activations needed to catch a trigger up when it is (re)scheduled at time
/// `now`, in order, and the activation to queue next (none once the trigger has
/// ended); `None` when a time would leave the range of a `DateTime`.
///
/// When catch-up is on and the start was moved before the earliest activation
/// so far, the times from the start up to that earliest activation come first.
/// Then come the times from one period after the latest activation (or from the
/// start) up to `now` or the end of the trigger, whichever is first; with
/// catch-up off they are skipped.
pub open spec fn catchup_spec(tr: TriggerRow, p: PeriodSpec, now: int) -> Option<
    (Seq<TriggerTime>, Option<TriggerTime>),
> {
    let catching = tr.catchup != Catchup::Skip;
    let back = if catching && tr.earliest_trigger_datetime is Some
        && tr.start_datetime < tr.earliest_trigger_datetime->0 {
        step_times(p, tr.start_datetime as int, tr.earliest_trigger_datetime->0 as int)
    } else {
        Some((Seq::<int>::empty(), 0))
    };
    let first = match tr.latest_trigger_datetime {
        Some(latest) => advance(p, latest as int),
        None => Some(tr.start_datetime as int),
    };
    let last = match tr.end_datetime {
        Some(e) => if now < e {
            now
        } else {
            e as int
        },
        None => now,
    };
    if back is None || first is None {
        None
    } else {
        match step_times(p, first->0, last) {
            None => None,
            Some(forward) => {
                let back_part = back->0;
                let times = back_part.0 + if catching {
                    forward.0
                } else {
                    Seq::empty()
                };
                let queue = tr.end_datetime is None || forward.1 < tr.end_datetime->0;
                match activations_at(tr, times) {
                    None => None,
                    Some(acts) => if queue {
                        match tr.at_spec(forward.1) {
                            None => None,
                            Some(q) => Some((acts, Some(q))),
                        }
                    } else {
                        Some((acts, None))
                    },
                }
            },
        }
    }
}

/// After catching up, the activation that is queued is never in the past: it
/// is at `now` or later (it is queued only while the trigger has not ended).
pub proof fn lemma_catchup_queues_the_future(tr: TriggerRow, p: PeriodSpec, now: int)
    ensures
        match catchup_spec(tr, p, now) {
            Some((_, Some(q))) => q.trigger_datetime >= now,
            _ => true,
        },
{
    let first = match tr.latest_trigger_datetime {
        Some(latest) => advance(p, latest as int),
        None => Some(tr.start_datetime as int),
    };
    let last = match tr.end_datetime {
        Some(e) => if now < e {
            now
        } else {
            e as int
        },
        None => now,
    };
    if first is Some && step_times(p, first->0, last) is Some {
        lemma_step_times(p, first->0, last);
    }
}

/// What catching a trigger up involves.
#[derive(Debug, PartialEq, Eq)]
pub struct CatchupPlan {
    /// activations to run now, in order
    pub activations: Vec<TriggerTime>,
    /// the activation to put in the queue
    pub queued: Option<TriggerTime>,
}

/// The activations at the given times.
pub fn activations_for(tr: &TriggerRow, times: &Vec<i64>) -> (r: Result<Vec<TriggerTime>, ScheduleError>)
    ensures
        match activations_at(*tr, as_times(times@)) {
            None => r is Err,
            Some(acts) => r matches Ok(v) && v@ == acts,
        },
{
    let mut acts: Vec<TriggerTime> = Vec::new();
    let mut i: usize = 0;
    while i < times.len()
        invariant
            0 <= i <= times@.len(),
            activations_at(*tr, as_times(times@.take(i as int))) == Some(acts@),
        decreases times@.len() - i,
    {
        proof {
            assert(as_times(times@.take(i + 1)).drop_last() =~= as_times(times@.take(i as int)));
        }
        match tr.at(times[i]) {
            None => {
                proof {
                    lemma_activations_prefix(*tr, as_times(times@), i + 1);
                    assert(as_times(times@).take(i + 1) =~= as_times(times@.take(i + 1)));
                }
                return Err(ScheduleError::OutOfRange);
            },
            Some(t) => {
                acts.push(t);
            },
        }
        i = i + 1;
    }
    assert(times@.take(i as int) =~= times@);
    Ok(acts)
}

/// When the activations at a prefix of the times cannot be made, neither can
/// those at all of them.
proof fn lemma_activations_prefix(tr: TriggerRow, times: Seq<int>, n: int)
    requires
        0 <= n <= times.len(),
        activations_at(tr, times.take(n)) is None,
    ensures
        activations_at(tr, times) is None,
    decreases times.len() - n,
{
    if n < times.len() {
        assert(times.take(n + 1).drop_last() =~= times.take(n));
        lemma_activations_prefix(tr, times, n + 1);
    } else {
        assert(times.take(n) =~= times);
    }
}

/// Plans how to catch a trigger up when it is scheduled at time `now`.
pub fn plan_catchup(tr: &TriggerRow, p: &Period, now: i64) -> (r: Result<CatchupPlan, ScheduleError>)
    ensures
        match catchup_spec(*tr, p.spec(), now as int) {
            None => r is Err,
            Some(plan) => r matches Ok(c) && c.activations@ == plan.0 && c.queued == plan.1,
        },
{
    let catching = match tr.catchup {
        Catchup::Skip => false,
        _ => true,
    };
    let mut times: Vec<i64> = Vec::new();
    if catching {
        match tr.earliest_trigger_datetime {
            Some(earliest) => {
                if tr.start_datetime < earliest {
                    let (back, _) = step(p, tr.start_datetime, earliest)?;
                    times = back;
                }
            },
            None => {},
        }
    }
    let first = match tr.latest_trigger_datetime {
        Some(latest) => match advance_time(p, latest) {
            None => {
                return Err(ScheduleError::OutOfRange);
            },
            Some(n) => n,
        },
        None => tr.start_datetime,
    };
    let last = match tr.end_datetime {
        Some(e) => if now < e {
            now
        } else {
            e
        },
        None => now,
    };
    let (forward, next) = step(p, first, last)?;
    let ghost back_times = times@;
    if catching {
        let mut i: usize = 0;
        while i < forward.len()
            invariant
                0 <= i <= forward@.len(),
                times@ == back_times + forward@.take(i as int),
            decreases forward@.len() - i,
        {
            times.push(forward[i]);
            assert(forward@.take(i + 1) =~= forward@.take(i as int).push(forward@[i as int]));
            i = i + 1;
        }
        assert(forward@.take(i as int) =~= forward@);
    }
    proof {
        assert(as_times(times@) =~= as_times(back_times) + if catching {
            as_times(forward@)
        } else {
            Seq::empty()
        });
    }
    let activations = activations_for(tr, &times)?;
    let queue = match tr.end_datetime {
        None => true,
        Some(e) => next < e,
    };
    let queued = if queue {
        match tr.at(next) {
            None => {
                return Err(ScheduleError::OutOfRange);
            },
            Some(t) => Some(t),
        }
    } else {
        None
    };
    Ok(CatchupPlan { activations, queued })
}

/// The activation that follows one that has just fired, if the trigger has not
/// ended by then; `None` inside `Ok` when it has.
pub open spec fn requeue_spec(tr: TriggerRow, p: PeriodSpec, fired: TriggerTime) -> Option<Option<TriggerTime>> {
    match advance(p, fired.trigger_datetime as int) {
        None => None,
        Some(n) => if tr.end_datetime is None || n < tr.end_datetime->0 {
            match tr.at_spec(n) {
                None => None,
                Some(t) => Some(Some(t)),
            }
        } else {
            Some(None)
        },
    }
}

/// The activation to queue after `fired` has fired.
pub fn plan_requeue(tr: &TriggerRow, p: &Period, fired: &TriggerTime) -> (r: Result<Option<TriggerTime>, ScheduleError>)
    ensures
        match requeue_spec(*tr, p.spec(), *fired) {
            None => r is Err,
            Some(next) => r == Ok::<Option<TriggerTime>, ScheduleError>(next),
        },
{
    let n = match advance_time(p, fired.trigger_datetime) {
        None => {
            return Err(ScheduleError::OutOfRange);
        },
        Some(n) => n,
    };
    let queue = match tr.end_datetime {
        None => true,
        Some(e) => n < e,
    };
    if queue {
        match tr.at(n) {
            None => Err(ScheduleError::OutOfRange),
            Some(t) => Ok(Some(t)),
        }
    } else {
        Ok(None)
    }
}

/// The offset of a trigger's activations after their logical time, in
/// microseconds.
pub open spec fn offset_micros(tr: TriggerRow) -> int {
    match tr.trigger_offset {
        Some(o) => o * 1_000_000,
        None => 0,
    }
}

/// The activations of a trigger at some times are one per time, in order: the
/// logical time of each is its time, and it is due the trigger's offset later.
pub proof fn lemma_activations_at_times(tr: TriggerRow, times: Seq<int>)
    ensures
        activations_at(tr, times) matches Some(acts) ==> {
            &&& acts.len() == times.len()
            &&& forall|i: int|
                0 <= i < times.len() ==> {
                    &&& #[trigger] acts[i].trigger_datetime == times[i]
                    &&& acts[i].trigger_id == tr.id
                    &&& acts[i].scheduled_datetime == times[i] + offset_micros(tr)
                }
        },
    decreases times.len(),
{
    if times.len() > 0 {
        lemma_activations_at_times(tr, times.drop_last());
        if let Some(acts) = activations_at(tr, times) {
            let prefix = activations_at(tr, times.drop_last())->0;
            assert forall|i: int| 0 <= i < times.len() implies {
                &&& #[trigger] acts[i].trigger_datetime == times[i]
                &&& acts[i].trigger_id == tr.id
                &&& acts[i].scheduled_datetime == times[i] + offset_micros(tr)
            } by {
                if i < times.len() - 1 {
                    assert(acts[i] == prefix[i]);
                    assert(times[i] == times.drop_last()[i]);
                }
            }
        }
    }
}

/// The first time catching up considers: one period after the latest
/// activation so far, or else the trigger's start.
pub open spec fn catchup_from(tr: TriggerRow, p: PeriodSpec) -> Option<int> {
    match tr.latest_trigger_datetime {
        Some(latest) => advance(p, latest as int),
        None => Some(tr.start_datetime as int),
    }
}

/// Catching up runs no activation in the future: every activation it plans is
/// either a backfill between a start that was moved back and the earliest
/// activation so far, or a missed time before `now` and before the trigger's
/// end. The activation it queues is at `now` or later and before the end, and
/// it is the first time considered or one period after a time before `now`.
pub proof fn lemma_catchup_runs_only_missed_times(tr: TriggerRow, p: PeriodSpec, now: int)
    ensures
        catchup_spec(tr, p, now) matches Some((acts, queued)) ==> {
            &&& forall|i: int|
                0 <= i < acts.len() ==> {
                    let t = #[trigger] acts[i].trigger_datetime;
                    ||| (tr.earliest_trigger_datetime matches Some(e) && tr.start_datetime <= t < e)
                    ||| (t < now && (tr.end_datetime matches Some(end) ==> t < end))
                }
            &&& queued matches Some(q) ==> q.trigger_datetime >= now && (tr.end_datetime matches Some(end)
                ==> q.trigger_datetime < end) && q.trigger_id == tr.id
            &&& queued matches Some(q) ==> catchup_from(tr, p) == Some(q.trigger_datetime as int) || exists|t: int|
                t < now && #[trigger] advance(p, t) == Some(q.trigger_datetime as int)
        },
{
    let catching = tr.catchup != Catchup::Skip;
    let back = if catching && tr.earliest_trigger_datetime is Some
        && tr.start_datetime < tr.earliest_trigger_datetime->0 {
        step_times(p, tr.start_datetime as int, tr.earliest_trigger_datetime->0 as int)
    } else {
        Some((Seq::<int>::empty(), 0))
    };
    let first = match tr.latest_trigger_datetime {
        Some(latest) => advance(p, latest as int),
        None => Some(tr.start_datetime as int),
    };
    let last = match tr.end_datetime {
        Some(e) => if now < e {
            now
        } else {
            e as int
        },
        None => now,
    };
    if let Some((acts, queued)) = catchup_spec(tr, p, now) {
        if catching && tr.earliest_trigger_datetime is Some && tr.start_datetime < tr.earliest_trigger_datetime->0 {
            lemma_step_times(p, tr.start_datetime as int, tr.earliest_trigger_datetime->0 as int);
        }
        lemma_step_times(p, first->0, last);
        let b = (back->0).0;
        let f = (step_times(p, first->0, last)->0).0;
        let times = b + if catching {
            f
        } else {
            Seq::empty()
        };
        lemma_activations_at_times(tr, times);
        if let Some(q) = queued {
            let fw = step_times(p, first->0, last)->0;
            assert(q == tr.at_spec(fw.1)->0);
            if fw.0.len() > 0 {
                assert(advance(p, fw.0.last()) == Some(q.trigger_datetime as int));
            }
        }
        assert forall|i: int| 0 <= i < acts.len() implies {
            let t = #[trigger] acts[i].trigger_datetime;
            ||| (tr.earliest_trigger_datetime matches Some(e) && tr.start_datetime <= t < e)
            ||| (t < now && (tr.end_datetime matches Some(end) ==> t < end))
        } by {
            assert(acts[i].trigger_datetime == times[i]);
            if i < b.len() {
                assert(times[i] == b[i]);
            } else {
                assert(times[i] == f[i - b.len()]);
            }
        }
    }
}

/// Requeueing after an activation fires queues the activation one period after
/// its logical time (whatever its offset made its due time), due the trigger's
/// offset later, and only before the trigger's end: it queues nothing only when
/// that time is not before the end.
pub proof fn lemma_requeue_one_period_on(tr: TriggerRow, p: PeriodSpec, fired: TriggerTime)
    ensures
        requeue_spec(tr, p, fired) matches Some(Some(q)) ==> {
            &&& q.trigger_id == tr.id
            &&& q.scheduled_datetime == q.trigger_datetime + offset_micros(tr)
            &&& (tr.end_datetime matches Some(end) ==> q.trigger_datetime < end)
            &&& match p {
                PeriodSpec::Every(secs) => q.trigger_datetime == fired.trigger_datetime + secs * 1_000_000,
                PeriodSpec::Cron(expr) => cron_next(expr, fired.trigger_datetime) == Some(q.trigger_datetime),
            }
        },
        requeue_spec(tr, p, fired) matches Some(None) ==> tr.end_datetime matches Some(end) && advance(
            p,
            fired.trigger_datetime as int,
        ) matches Some(n) && n >= end,
{
}

} // verus!
