//! The shapes of a job definition as the API receives it (JSON or YAML);
//! ids are the 128-bit values of UUIDs and times are microseconds since the
//! Unix epoch.

use vstd::prelude::*;
use vstd::string::*;
use crate::durations::{DurationError, duration_of, optional_secs, parse_duration, period_from_string, period_secs};
use crate::schedule::{cron_parse, parse_cron};
use crate::messages::{ConfigUpdate, ProcessToken, TokenState, TriggerUpdate};
use crate::reference::{Reference, ReferenceError, ReferenceKind, opt_view, parse_reference, reference_result_matches, resolve_reference};

verus! {

/// What a trigger does when activations were missed while it was not scheduled.
#[derive(Copy, Clone, Debug, PartialEq, Eq, Structural)]
pub enum Catchup {
    /// missed activations are skipped (written "none" in job definitions)
    Skip,
    Earliest,
    Latest,
    Random,
}

impl Default for Catchup {
    fn default() -> (c: Self)
        ensures
            c == Catchup::Earliest,
    {
        Catchup::Earliest
    }
}

#[derive(Debug, PartialEq, Eq)]
pub struct Trigger {
    pub name: String,
    pub start: i64,
    pub end: Option<i64>,
    pub period: Option<String>,
    pub cron: Option<String>,
    pub offset: Option<String>,
    pub catchup: Option<Catchup>,
}

#[derive(Debug, PartialEq, Eq)]
pub struct Docker {
    pub image: String,
    pub args: Vec<String>,
    pub env: Option<Vec<String>>,
}

/// How a failed task is run again: at most `max_attempts` runs, each `delay`
/// (a human duration) after the failure.
#[derive(Debug, PartialEq, Eq)]
pub struct TaskRetry {
    pub max_attempts: i32,
    pub delay: Option<String>,
}

#[derive(Debug, PartialEq, Eq)]
pub struct Task {
    pub name: String,
    pub docker: Option<Docker>,
    pub depends: Option<Vec<String>>,
    pub depends_failure: Option<Vec<String>>,
    pub threshold: Option<i32>,
    pub retry: Option<TaskRetry>,
    /// how long a run may take, as a human duration
    pub timeout: Option<String>,
}

#[derive(Debug, PartialEq, Eq)]
pub struct Job {
    pub uuid: u128,
    pub project: String,
    pub name: String,
    pub description: String,
    pub paused: Option<bool>,
    pub triggers: Vec<Trigger>,
    pub tasks: Vec<Task>,
}

/// Why a trigger definition is refused.
#[derive(Debug, PartialEq, Eq)]
pub enum TriggerError {
    /// neither a period nor a cron expression
    NoSchedule,
    /// both a period and a cron expression
    MultipleSchedule,
    /// the cron expression does not parse; the parser's message
    InvalidCron(String),
    /// the period does not parse; the parser's message
    InvalidPeriod(String),
    /// the period or the offset cannot be turned into seconds
    Duration(DurationError),
}

pub open spec fn no_schedule_message() -> Seq<char> {
    "No schedule - either period or cron must be provided"@
}

pub open spec fn multiple_schedule_message() -> Seq<char> {
    "Multiple schedule - cannot specify both cron and period"@
}

pub open spec fn invalid_period_prefix() -> Seq<char> {
    "Period is not valid: "@
}

impl TriggerError {
    /// The message sent back with the refusal.
    pub fn to_string(&self) -> (s: String)
        ensures
            s@ == match self {
                TriggerError::NoSchedule => no_schedule_message(),
                TriggerError::MultipleSchedule => multiple_schedule_message(),
                TriggerError::InvalidCron(m) => m@,
                TriggerError::InvalidPeriod(m) => invalid_period_prefix() + m@,
                TriggerError::Duration(e) => e.message@,
            },
    {
        match self {
            TriggerError::NoSchedule => "No schedule - either period or cron must be provided".to_owned(),
            TriggerError::MultipleSchedule => "Multiple schedule - cannot specify both cron and period".to_owned(),
            TriggerError::InvalidCron(m) => m.clone(),
            TriggerError::InvalidPeriod(m) => {
                let mut s = "Period is not valid: ".to_owned();
                s.append(m.as_str());
                s
            },
            TriggerError::Duration(e) => e.message.clone(),
        }
    }
}

/// A trigger as it is stored: period and offset in seconds.
#[derive(Debug, PartialEq, Eq)]
pub struct NewTrigger {
    pub name: String,
    pub job_id: u128,
    pub start: i64,
    pub end: Option<i64>,
    pub period: Option<i32>,
    pub cron: Option<String>,
    pub offset: Option<i32>,
    pub catchup: Catchup,
}

pub open spec fn opt_secs(text: Option<String>) -> Result<Option<i32>, Seq<char>> {
    match text {
        None => Ok(None),
        Some(t) => match period_secs(t@) {
            Ok(s) => Ok(Some(s)),
            Err(m) => Err(m),
        },
    }
}

/// Whether the schedule of a trigger definition is acceptable, or why not.
pub open spec fn schedule_check(t: Trigger) -> Option<TriggerErrorSpec> {
    match (t.period, t.cron) {
        (Some(_), Some(_)) => Some(TriggerErrorSpec::MultipleSchedule),
        (Some(p), None) => match duration_of(p@) {
            Err(m) => Some(TriggerErrorSpec::InvalidPeriod(m)),
            Ok(_) => None,
        },
        (None, Some(c)) => match cron_parse(c@) {
            Err(m) => Some(TriggerErrorSpec::InvalidCron(m)),
            Ok(_) => None,
        },
        (None, None) => Some(TriggerErrorSpec::NoSchedule),
    }
}

/// A trigger error as the contracts see it.
pub enum TriggerErrorSpec {
    NoSchedule,
    MultipleSchedule,
    InvalidCron(Seq<char>),
    InvalidPeriod(Seq<char>),
    Duration(Seq<char>),
}

pub open spec fn trigger_error_spec(e: TriggerError) -> TriggerErrorSpec {
    match e {
        TriggerError::NoSchedule => TriggerErrorSpec::NoSchedule,
        TriggerError::MultipleSchedule => TriggerErrorSpec::MultipleSchedule,
        TriggerError::InvalidCron(m) => TriggerErrorSpec::InvalidCron(m@),
        TriggerError::InvalidPeriod(m) => TriggerErrorSpec::InvalidPeriod(m@),
        TriggerError::Duration(d) => TriggerErrorSpec::Duration(d.message@),
    }
}

/// What checking a trigger definition gives: the error of its schedule, else
/// that of its period or offset, else the trigger to store.
pub open spec fn trigger_validation(job_id: u128, t: Trigger, r: Result<NewTrigger, TriggerError>) -> bool {
    match schedule_check(t) {
        Some(e) => r matches Err(err) && trigger_error_spec(err) == e,
        None => match (opt_secs(t.period), opt_secs(t.offset)) {
            (Err(m), _) => r matches Err(err) && trigger_error_spec(err) == TriggerErrorSpec::Duration(m),
            (Ok(_), Err(m)) => r matches Err(err) && trigger_error_spec(err) == TriggerErrorSpec::Duration(m),
            (Ok(period), Ok(offset)) => r matches Ok(n) && n.name == t.name && n.job_id == job_id
                && n.start == t.start && n.end == t.end && n.period == period && n.cron == t.cron
                && n.offset == offset && n.catchup == match t.catchup {
                    Some(c) => c,
                    None => Catchup::Earliest,
                },
        },
    }
}

/// A trigger that is accepted is stored as the definition gives it: under its
/// name, for its job, from its start to its end (an end, when given, is kept),
/// with its cron expression, and with exactly one schedule, a period in seconds
/// or a cron expression.
pub proof fn lemma_validated_trigger_keeps_definition(job_id: u128, t: Trigger, n: NewTrigger)
    requires
        trigger_validation(job_id, t, Ok(n)),
    ensures
        n.name == t.name,
        n.job_id == job_id,
        n.start == t.start,
        n.end == t.end,
        n.cron == t.cron,
        n.period is Some <==> t.period is Some,
        n.period is Some <==> n.cron is None,
        t.catchup matches Some(c) ==> n.catchup == c,
{
}

/// A trigger definition that is accepted.
pub open spec fn trigger_ok(t: Trigger) -> bool {
    schedule_check(t) is None && opt_secs(t.period) is Ok && opt_secs(t.offset) is Ok
}

/// Checks a trigger of a job definition and turns it into the trigger to store:
/// exactly one of a period and a cron expression must be given and parse; the
/// period and the offset are stored in seconds and catch-up defaults to earliest.
pub fn validate_trigger(job_id: u128, t: &Trigger) -> (r: Result<NewTrigger, TriggerError>)
    ensures
        trigger_validation(job_id, *t, r),
{
    match (&t.period, &t.cron) {
        (Some(_), Some(_)) => {
            return Err(TriggerError::MultipleSchedule);
        },
        (Some(p), None) => {
            match parse_duration(p.as_str()) {
                Err(m) => {
                    return Err(TriggerError::InvalidPeriod(m));
                },
                Ok(_) => {},
            }
        },
        (None, Some(c)) => {
            match parse_cron(c.as_str()) {
                Err(m) => {
                    return Err(TriggerError::InvalidCron(m));
                },
                Ok(_) => {},
            }
        },
        (None, None) => {
            return Err(TriggerError::NoSchedule);
        },
    }
    let period = match &t.period {
        None => None,
        Some(p) => match period_from_string(Some(p.as_str())) {
            Ok(secs) => secs,
            Err(e) => {
                return Err(TriggerError::Duration(e));
            },
        },
    };
    let offset = match &t.offset {
        None => None,
        Some(o) => match period_from_string(Some(o.as_str())) {
            Ok(secs) => secs,
            Err(e) => {
                return Err(TriggerError::Duration(e));
            },
        },
    };
    let catchup = match t.catchup {
        Some(c) => c,
        None => Catchup::Earliest,
    };
    Ok(
        NewTrigger {
            name: t.name.clone(),
            job_id,
            start: t.start,
            end: t.end,
            period,
            cron: t.cron.clone(),
            offset,
            catchup,
        },
    )
}

/// The threshold of a task: the one it gives, or else the number of tasks and
/// triggers it depends on (one when it lists none); the count is cut to 32 bits.
pub fn task_threshold(task: &Task) -> (n: i32)
    ensures
        n == match task.threshold {
            Some(t) => t,
            None => match task.depends {
                Some(d) => d@.len() as i32,
                None => 1,
            },
        },
{
    match task.threshold {
        Some(t) => t,
        None => match &task.depends {
            Some(d) => {
                #[verifier::truncate]
                let n = d.len() as i32;
                n
            },
            None => 1,
        },
    }
}

/// A dependency edge of a task.
#[derive(Debug, PartialEq, Eq)]
pub enum EdgePlan {
    /// the task runs at the times of a trigger
    Trigger(Reference),
    /// the task runs when a task ends in the given state (success or failure)
    Task(Reference, TokenState),
}

/// Why the dependencies of a task are refused.
#[derive(Debug, PartialEq, Eq)]
pub enum EdgeError {
    /// a dependency is not a reference
    Reference(ReferenceError),
    /// a failure dependency names a trigger
    FailureOnTrigger,
}

pub open spec fn failure_on_trigger_message() -> Seq<char> {
    "depends_failure cannot reference a trigger since triggers can't fail"@
}

impl EdgeError {
    /// The message for a failure dependency that names a trigger.
    pub fn failure_on_trigger_message() -> (s: String)
        ensures
            s@ == failure_on_trigger_message(),
    {
        "depends_failure cannot reference a trigger since triggers can't fail".to_owned()
    }
}

/// `r` is the reference `u` with the project and job of `job` filled in.
pub open spec fn resolved(u: Reference, job: Job, r: Reference) -> bool {
    &&& opt_view(r.proj) == match u.proj {
        Some(p) => Some(p@),
        None => Some(job.project@),
    }
    &&& opt_view(r.job) == match u.job {
        Some(j) => Some(j@),
        None => Some(job.name@),
    }
    &&& r.kind == u.kind
    &&& r.name == u.name
    &&& r.offset == u.offset
}

/// `e` is the edge for the dependency written `d` (a failure dependency when
/// `on_failure`) of a task of `job`.
pub open spec fn is_edge_for(d: Seq<char>, job: Job, on_failure: bool, e: EdgePlan) -> bool {
    exists|u: Reference|
        #[trigger] reference_result_matches(d, Ok(u)) && match e {
            EdgePlan::Trigger(r) => !on_failure && u.kind == ReferenceKind::Trigger && resolved(u, job, r),
            EdgePlan::Task(r, k) => u.kind == ReferenceKind::Task && resolved(u, job, r) && k == if on_failure {
                TokenState::Failure
            } else {
                TokenState::Success
            },
        }
}

/// A dependency text that parses.
pub open spec fn parses(d: Seq<char>) -> bool {
    exists|u: Reference| #[trigger] reference_result_matches(d, Ok(u))
}

/// A dependency text that parses to a reference to a trigger.
pub open spec fn parses_to_trigger(d: Seq<char>) -> bool {
    exists|u: Reference| #[trigger] reference_result_matches(d, Ok(u)) && u.kind == ReferenceKind::Trigger
}

pub open spec fn texts(v: Option<Vec<String>>) -> Seq<Seq<char>> {
    match v {
        Some(v) => v@.map_values(|s: String| s@),
        None => Seq::empty(),
    }
}

/// What planning the edges of a task gives: an edge for each dependency and
/// then each failure dependency, or an error that one of them explains; a task
/// whose dependencies all parse, with no failure dependency on a trigger, is
/// planned.
pub open spec fn edge_planning(task: Task, job: Job, r: Result<Vec<EdgePlan>, EdgeError>) -> bool {
    let deps = texts(task.depends);
    let fails = texts(task.depends_failure);
    &&& (r matches Ok(plan) ==> {
        &&& plan@.len() == deps.len() + fails.len()
        &&& forall|i: int| 0 <= i < deps.len() ==> is_edge_for(deps[i], job, false, #[trigger] plan@[i])
        &&& forall|i: int|
            0 <= i < fails.len() ==> is_edge_for(fails[i], job, true, #[trigger] plan@[deps.len() + i])
    })
    &&& (r matches Err(EdgeError::Reference(e)) ==> exists|m: int|
        0 <= m < deps.len() + fails.len() && dependencies_ok_before(deps, fails, m)
            && #[trigger] reference_result_matches(dependency_at(deps, fails, m), Err(e)))
    &&& (r matches Err(EdgeError::FailureOnTrigger) ==> exists|m: int|
        deps.len() <= m < deps.len() + fails.len() && dependencies_ok_before(deps, fails, m)
            && #[trigger] parses_to_trigger(dependency_at(deps, fails, m)))
    &&& (edges_ok(task) ==> r is Ok)
}

/// The `m`-th dependency of a task: its dependencies, then its failure
/// dependencies.
pub open spec fn dependency_at(deps: Seq<Seq<char>>, fails: Seq<Seq<char>>, m: int) -> Seq<char> {
    if m < deps.len() {
        deps[m]
    } else {
        fails[m - deps.len()]
    }
}

/// Every dependency before the `m`-th parses, and no failure dependency among
/// them names a trigger: the first refused dependency is the `m`-th.
pub open spec fn dependencies_ok_before(deps: Seq<Seq<char>>, fails: Seq<Seq<char>>, m: int) -> bool {
    forall|j: int| 0 <= j < m ==> #[trigger] parses(dependency_at(deps, fails, j)) && (j >= deps.len()
        ==> !parses_to_trigger(dependency_at(deps, fails, j)))
}

/// A task whose dependencies are accepted.
pub open spec fn edges_ok(task: Task) -> bool {
    let deps = texts(task.depends);
    let fails = texts(task.depends_failure);
    &&& forall|d: Seq<char>| deps.contains(d) || fails.contains(d) ==> #[trigger] parses(d)
    &&& forall|d: Seq<char>| fails.contains(d) ==> !#[trigger] parses_to_trigger(d)
}

/// A task whose edges were planned has its dependencies accepted.
pub proof fn lemma_planned_edges_ok(task: Task, job: Job, plan: Vec<EdgePlan>)
    requires
        edge_planning(task, job, Ok(plan)),
    ensures
        edges_ok(task),
{
    let deps = texts(task.depends);
    let fails = texts(task.depends_failure);
    assert forall|d: Seq<char>| deps.contains(d) || fails.contains(d) implies #[trigger] parses(d) by {
        if deps.contains(d) {
            let i = choose|i: int| 0 <= i < deps.len() && deps[i] == d;
            assert(is_edge_for(deps[i], job, false, plan@[i]));
        } else {
            let i = choose|i: int| 0 <= i < fails.len() && fails[i] == d;
            assert(is_edge_for(fails[i], job, true, plan@[deps.len() + i]));
        }
    }
    assert forall|d: Seq<char>| fails.contains(d) implies !#[trigger] parses_to_trigger(d) by {
        let i = choose|i: int| 0 <= i < fails.len() && fails[i] == d;
        let e = plan@[deps.len() + i];
        assert(is_edge_for(d, job, true, e));
        let u = choose|u: Reference|
            #[trigger] reference_result_matches(d, Ok(u)) && match e {
                EdgePlan::Trigger(r) => !true && u.kind == ReferenceKind::Trigger && resolved(u, job, r),
                EdgePlan::Task(r, k) => u.kind == ReferenceKind::Task && resolved(u, job, r) && k
                    == TokenState::Failure,
            };
        assert(u.kind == ReferenceKind::Task);
        if parses_to_trigger(d) {
            let w = choose|w: Reference|
                #[trigger] reference_result_matches(d, Ok(w)) && w.kind == ReferenceKind::Trigger;
            assert(w.kind == u.kind);
        }
    }
}

/// Every task before the `i`-th has its dependencies accepted.
pub open spec fn edges_ok_before(job: Job, i: int) -> bool {
    forall|j: int| 0 <= j < i ==> edges_ok(#[trigger] job.tasks@[j])
}

/// The edges of a task, in the order of its dependencies and then of its failure
/// dependencies.
pub fn plan_task_edges(task: &Task, job: &Job) -> (r: Result<Vec<EdgePlan>, EdgeError>)
    ensures
        edge_planning(*task, *job, r),
{
    let mut plan: Vec<EdgePlan> = Vec::new();
    let ghost deps = texts(task.depends);
    let ghost fails = texts(task.depends_failure);
    match &task.depends {
        None => {},
        Some(depends) => {
            let mut i: usize = 0;
            while i < depends.len()
                invariant
                    0 <= i <= depends@.len(),
                    task.depends == Some(*depends),
                    deps == texts(task.depends),
                    plan@.len() == i,
                    forall|k: int| 0 <= k < i ==> is_edge_for(deps[k], *job, false, #[trigger] plan@[k]),
                    dependencies_ok_before(deps, fails, i as int),
                    i <= deps.len(),
                    fails == texts(task.depends_failure),
                decreases depends@.len() - i,
            {
                let parsed = parse_reference(depends[i].as_str());
                assert(deps[i as int] == depends@[i as int]@);
                match parsed {
                    Err(e) => {
                        proof {
                            let d = deps[i as int];
                            assert(deps.contains(d));
                            assert(reference_result_matches(d, Err(e)));
                            assert(dependency_at(deps, fails, i as int) == d);
                            assert(reference_result_matches(dependency_at(deps, fails, i as int), Err(e)));
                            assert(0 <= i < deps.len() + fails.len());
                            if parses(d) {
                                let u = choose|u: Reference| #[trigger] reference_result_matches(d, Ok(u));
                                lemma_ok_or_err(d, u, e);
                            }
                        }
                        return Err(EdgeError::Reference(e));
                    },
                    Ok(u) => {
                        let ghost gu = u;
                        proof {
                            assert(dependency_at(deps, fails, i as int) == deps[i as int]);
                            assert(reference_result_matches(deps[i as int], Ok(gu)));
                            assert(parses(dependency_at(deps, fails, i as int)));
                        }
                        let kind = u.kind;
                        let res = resolve_reference(u, job);
                        let edge = match kind {
                            ReferenceKind::Trigger => EdgePlan::Trigger(res),
                            ReferenceKind::Task => EdgePlan::Task(res, TokenState::Success),
                        };
                        assert(is_edge_for(deps[i as int], *job, false, edge)) by {
                            assert(reference_result_matches(deps[i as int], Ok(gu)));
                        }
                        plan.push(edge);
                    },
                }
                i = i + 1;
            }
        },
    }
    let ghost n = deps.len();
    assert(plan@.len() == n);
    match &task.depends_failure {
        None => {},
        Some(depends) => {
            let mut i: usize = 0;
            while i < depends.len()
                invariant
                    0 <= i <= depends@.len(),
                    task.depends_failure == Some(*depends),
                    fails == texts(task.depends_failure),
                    plan@.len() == n + i,
                    forall|k: int| 0 <= k < n ==> is_edge_for(deps[k], *job, false, #[trigger] plan@[k]),
                    forall|k: int| 0 <= k < i ==> is_edge_for(fails[k], *job, true, #[trigger] plan@[n + k]),
                    n == deps.len(),
                    deps == texts(task.depends),
                    dependencies_ok_before(deps, fails, n + i),
                decreases depends@.len() - i,
            {
                let parsed = parse_reference(depends[i].as_str());
                assert(fails[i as int] == depends@[i as int]@);
                match parsed {
                    Err(e) => {
                        proof {
                            let d = fails[i as int];
                            assert(fails.contains(d));
                            assert(reference_result_matches(d, Err(e)));
                            assert(dependency_at(deps, fails, n + i) == d);
                            assert(reference_result_matches(dependency_at(deps, fails, n + i), Err(e)));
                            assert(0 <= n + i < deps.len() + fails.len());
                            if parses(d) {
                                let u = choose|u: Reference| #[trigger] reference_result_matches(d, Ok(u));
                                lemma_ok_or_err(d, u, e);
                            }
                        }
                        return Err(EdgeError::Reference(e));
                    },
                    Ok(u) => {
                        let ghost gu = u;
                        match u.kind {
                            ReferenceKind::Trigger => {
                                proof {
                                    assert(fails.contains(fails[i as int]));
                                    assert(reference_result_matches(fails[i as int], Ok(gu)));
                                    assert(parses_to_trigger(fails[i as int]));
                                    assert(dependency_at(deps, fails, n + i) == fails[i as int]);
                                    assert(parses_to_trigger(dependency_at(deps, fails, n + i)));
                                    assert(deps.len() <= n + i < deps.len() + fails.len());
                                }
                                return Err(EdgeError::FailureOnTrigger);
                            },
                            ReferenceKind::Task => {
                                proof {
                                    let d = fails[i as int];
                                    assert(dependency_at(deps, fails, n + i) == d);
                                    assert(reference_result_matches(d, Ok(gu)));
                                    assert(parses(d));
                                    if parses_to_trigger(d) {
                                        let u2 = choose|u2: Reference| #[trigger] reference_result_matches(d, Ok(u2)) && u2.kind == ReferenceKind::Trigger;
                                        lemma_ok_same_kind(d, gu, u2);
                                    }
                                    assert(!parses_to_trigger(d));
                                    assert(dependencies_ok_before(deps, fails, n + i + 1)) by {
                                        assert forall|j: int| 0 <= j < n + i + 1 implies #[trigger] parses(dependency_at(deps, fails, j)) && (j >= deps.len()
                                            ==> !parses_to_trigger(dependency_at(deps, fails, j))) by {
                                            if j < n + i {
                                                assert(dependencies_ok_before(deps, fails, n + i));
                                            } else {
                                                assert(dependency_at(deps, fails, j) == d);
                                                assert(!parses_to_trigger(d));
                                            }
                                        }
                                    }
                                }
                                let res = resolve_reference(u, job);
                                let edge = EdgePlan::Task(res, TokenState::Failure);
                                assert(is_edge_for(fails[i as int], *job, true, edge)) by {
                                    assert(reference_result_matches(fails[i as int], Ok(gu)));
                                }
                                plan.push(edge);
                            },
                        }
                    },
                }
                i = i + 1;
            }
        },
    }
    Ok(plan)
}

proof fn lemma_ok_same_kind(d: Seq<char>, u1: Reference, u2: Reference)
    requires
        reference_result_matches(d, Ok(u1)),
        reference_result_matches(d, Ok(u2)),
    ensures
        u1.kind == u2.kind,
{
}

proof fn lemma_ok_or_err(d: Seq<char>, u: Reference, e: ReferenceError)
    requires
        reference_result_matches(d, Ok(u)),
    ensures
        !reference_result_matches(d, Err(e)),
{
}

/// The threshold a task gets.
pub open spec fn threshold_spec(task: Task) -> i32 {
    match task.threshold {
        Some(t) => t,
        None => match task.depends {
            Some(d) => d@.len() as i32,
            None => 1,
        },
    }
}

/// What storing a task writes besides its definition: its threshold, its
/// number of attempts, and its retry delay and timeout in whole seconds (cut to
/// 32 bits).
#[derive(Debug, PartialEq, Eq)]
pub struct TaskSettings {
    pub threshold: i32,
    pub retry_max_attempts: Option<i32>,
    pub retry_delay_secs: Option<i32>,
    pub timeout_secs: Option<i32>,
}

/// An optional duration setting in whole seconds cut to 32 bits, or the
/// parser's message.
pub open spec fn secs_setting(text: Option<String>) -> Result<Option<i32>, Seq<char>> {
    match text {
        None => Ok(None),
        Some(t) => match duration_of(t@) {
            Ok(d) => Ok(Some(d.0 as i32)),
            Err(m) => Err(m),
        },
    }
}

/// The retry delay a task gives, if any.
pub open spec fn retry_delay_text(task: Task) -> Option<String> {
    match task.retry {
        Some(r) => r.delay,
        None => None,
    }
}

/// The settings a task gets, or the message of its first duration (the retry
/// delay, then the timeout) that does not parse.
pub open spec fn task_settings(task: Task) -> Result<TaskSettings, Seq<char>> {
    match secs_setting(retry_delay_text(task)) {
        Err(m) => Err(m),
        Ok(delay) => match secs_setting(task.timeout) {
            Err(m) => Err(m),
            Ok(timeout) => Ok(
                TaskSettings {
                    threshold: threshold_spec(task),
                    retry_max_attempts: match task.retry {
                        Some(r) => Some(r.max_attempts),
                        None => None,
                    },
                    retry_delay_secs: delay,
                    timeout_secs: timeout,
                },
            ),
        },
    }
}

fn option_str(text: &Option<String>) -> (r: Option<&str>)
    ensures
        match text {
            None => r is None,
            Some(t) => r matches Some(u) && u@ == t@,
        },
{
    match text {
        None => None,
        Some(t) => Some(t.as_str()),
    }
}

/// Works out what storing a task writes besides its definition, as storing it
/// does: the threshold, then the retry delay, then the timeout.
pub fn plan_task(task: &Task) -> (r: Result<TaskSettings, String>)
    ensures
        match task_settings(*task) {
            Ok(s) => r == Ok::<TaskSettings, String>(s),
            Err(m) => r matches Err(e) && e@ == m,
        },
{
    let threshold = task_threshold(task);
    let delay_text = match &task.retry {
        Some(retry) => option_str(&retry.delay),
        None => None,
    };
    let retry_delay_secs = match optional_secs(delay_text) {
        Ok(d) => d,
        Err(m) => return Err(m),
    };
    let timeout_secs = match optional_secs(option_str(&task.timeout)) {
        Ok(t) => t,
        Err(m) => return Err(m),
    };
    let retry_max_attempts = match &task.retry {
        Some(retry) => Some(retry.max_attempts),
        None => None,
    };
    Ok(TaskSettings { threshold, retry_max_attempts, retry_delay_secs, timeout_secs })
}

/// Whether a job is paused once its definition is stored: as the definition says,
/// else as it was (a new job is not paused).
pub fn stored_paused(requested: Option<bool>, existing: Option<bool>) -> (p: bool)
    ensures
        p == match requested {
            Some(r) => r,
            None => match existing {
                Some(e) => e,
                None => false,
            },
        },
{
    match requested {
        Some(r) => r,
        None => match existing {
            Some(e) => e,
            None => false,
        },
    }
}

/// What storing a job definition writes besides the job itself: its triggers,
/// and the settings and the edges of each task, in the definition's order.
#[derive(Debug, PartialEq, Eq)]
pub struct JobPlan {
    pub triggers: Vec<NewTrigger>,
    pub tasks: Vec<TaskSettings>,
    pub edges: Vec<Vec<EdgePlan>>,
}

/// Why a job definition is refused.
#[derive(Debug, PartialEq, Eq)]
pub enum JobError {
    Trigger(TriggerError),
    /// a task's retry delay or timeout is no duration: the parser's message
    Duration(String),
    Edge(EdgeError),
}

/// Every trigger of the job is accepted.
pub open spec fn triggers_ok(job: Job) -> bool {
    forall|i: int| 0 <= i < job.triggers@.len() ==> trigger_ok(#[trigger] job.triggers@[i])
}

/// Every task before the `i`-th has settings.
pub open spec fn settings_ok_before(job: Job, i: int) -> bool {
    forall|j: int| 0 <= j < i ==> #[trigger] task_settings(job.tasks@[j]) is Ok
}

/// Checks a job definition as storing it does: the triggers in order (the first
/// refused one refuses the job), then the settings of the tasks in order, then
/// the edges of the tasks in order (the first task with a refused duration, or
/// else with a refused dependency, refuses it).
pub fn plan_job(job: &Job) -> (r: Result<JobPlan, JobError>)
    ensures
        r matches Ok(p) ==> {
            &&& p.triggers@.len() == job.triggers@.len()
            &&& forall|i: int| 0 <= i < job.triggers@.len()
                ==> trigger_validation(job.uuid, job.triggers@[i], Ok(#[trigger] p.triggers@[i]))
            &&& p.tasks@.len() == job.tasks@.len()
            &&& forall|i: int| 0 <= i < job.tasks@.len()
                ==> task_settings(job.tasks@[i]) == Ok::<TaskSettings, Seq<char>>(#[trigger] p.tasks@[i])
            &&& p.edges@.len() == job.tasks@.len()
            &&& forall|i: int| 0 <= i < job.tasks@.len()
                ==> edge_planning(job.tasks@[i], *job, Ok(#[trigger] p.edges@[i]))
        },
        r matches Err(JobError::Trigger(e)) ==> exists|i: int|
            0 <= i < job.triggers@.len() && trigger_validation(job.uuid, #[trigger] job.triggers@[i], Err(e))
                && forall|j: int| 0 <= j < i ==> trigger_ok(#[trigger] job.triggers@[j]),
        r matches Err(JobError::Duration(e)) ==> triggers_ok(*job) && exists|i: int|
            0 <= i < job.tasks@.len() && #[trigger] task_settings(job.tasks@[i]) == Err::<TaskSettings, Seq<char>>(e@)
                && settings_ok_before(*job, i),
        r matches Err(JobError::Edge(e)) ==> triggers_ok(*job) && settings_ok_before(*job, job.tasks@.len() as int)
            && exists|i: int|
                0 <= i < job.tasks@.len() && edge_planning(#[trigger] job.tasks@[i], *job, Err(e))
                    && edges_ok_before(*job, i),
        triggers_ok(*job) && settings_ok_before(*job, job.tasks@.len() as int)
            && (forall|i: int| 0 <= i < job.tasks@.len() ==> edges_ok(#[trigger] job.tasks@[i])) ==> r is Ok,
{
    let mut triggers: Vec<NewTrigger> = Vec::new();
    let mut i: usize = 0;
    while i < job.triggers.len()
        invariant
            0 <= i <= job.triggers@.len(),
            triggers@.len() == i,
            forall|k: int| 0 <= k < i ==> trigger_validation(job.uuid, job.triggers@[k], Ok(#[trigger] triggers@[k])),
            forall|k: int| 0 <= k < i ==> trigger_ok(#[trigger] job.triggers@[k]),
        decreases job.triggers@.len() - i,
    {
        match validate_trigger(job.uuid, &job.triggers[i]) {
            Ok(n) => {
                triggers.push(n);
            },
            Err(e) => {
                return Err(JobError::Trigger(e));
            },
        }
        i = i + 1;
    }
    let mut tasks: Vec<TaskSettings> = Vec::new();
    let mut k: usize = 0;
    while k < job.tasks.len()
        invariant
            0 <= k <= job.tasks@.len(),
            tasks@.len() == k,
            forall|m: int| 0 <= m < k ==> task_settings(job.tasks@[m]) == Ok::<TaskSettings, Seq<char>>(#[trigger] tasks@[m]),
            triggers_ok(*job),
        decreases job.tasks@.len() - k,
    {
        match plan_task(&job.tasks[k]) {
            Ok(settings) => {
                tasks.push(settings);
            },
            Err(e) => {
                proof {
                    assert(task_settings(job.tasks@[k as int]) == Err::<TaskSettings, Seq<char>>(e@));
                    assert forall|j: int| 0 <= j < k implies #[trigger] task_settings(job.tasks@[j]) is Ok by {
                        assert(task_settings(job.tasks@[j]) == Ok::<TaskSettings, Seq<char>>(tasks@[j]));
                    }
                }
                return Err(JobError::Duration(e));
            },
        }
        k = k + 1;
    }
    assert(settings_ok_before(*job, job.tasks@.len() as int)) by {
        assert forall|j: int| 0 <= j < job.tasks@.len() implies #[trigger] task_settings(job.tasks@[j]) is Ok by {
            assert(task_settings(job.tasks@[j]) == Ok::<TaskSettings, Seq<char>>(tasks@[j]));
        }
    }
    let mut edges: Vec<Vec<EdgePlan>> = Vec::new();
    let mut k: usize = 0;
    while k < job.tasks.len()
        invariant
            0 <= k <= job.tasks@.len(),
            edges@.len() == k,
            forall|m: int| 0 <= m < k ==> edge_planning(job.tasks@[m], *job, Ok(#[trigger] edges@[m])),
            triggers_ok(*job),
            settings_ok_before(*job, job.tasks@.len() as int),
            edges_ok_before(*job, k as int),
        decreases job.tasks@.len() - k,
    {
        match plan_task_edges(&job.tasks[k], job) {
            Ok(plan) => {
                proof {
                    lemma_planned_edges_ok(job.tasks@[k as int], *job, plan);
                }
                edges.push(plan);
            },
            Err(e) => {
                return Err(JobError::Edge(e));
            },
        }
        k = k + 1;
    }
    Ok(JobPlan { triggers, tasks, edges })
}

/// What setting a job's paused flag answers and sends.
#[derive(Debug, PartialEq, Eq)]
pub enum PauseOutcome {
    /// the update failed (500)
    Failed,
    /// no job has that id (404)
    NotFound,
    /// the flag is stored (204); the scheduler is told of the job's triggers, the
    /// workers of each of its tasks, and, when the job is unpaused, the token
    /// processor of the job
    Stored { triggers: TriggerUpdate, task_defs: Vec<ConfigUpdate>, unpause: Option<ProcessToken> },
}

impl PauseOutcome {
    /// The HTTP status of the answer.
    pub fn status(&self) -> (code: u16)
        ensures
            code == match *self {
                PauseOutcome::Failed => 500u16,
                PauseOutcome::NotFound => 404u16,
                PauseOutcome::Stored { .. } => 204u16,
            },
    {
        match self {
            PauseOutcome::Failed => 500,
            PauseOutcome::NotFound => 404,
            PauseOutcome::Stored { .. } => 204,
        }
    }
}

/// Decides what setting a job's paused flag gives, from the number of rows the
/// update changed (`None` when it failed) and, once it changed the job's row,
/// the ids of the job's triggers and tasks.
pub fn pause_outcome(
    job_id: u128,
    paused: bool,
    rows_affected: Option<u64>,
    trigger_ids: Vec<u128>,
    task_ids: &Vec<u128>,
) -> (r: PauseOutcome)
    ensures
        match rows_affected {
            None => r == PauseOutcome::Failed,
            Some(n) => if n != 1 {
                r == PauseOutcome::NotFound
            } else {
                r matches PauseOutcome::Stored { triggers, task_defs, unpause } && triggers.0@ == trigger_ids@
                    && task_defs@ == task_ids@.map_values(|id: u128| ConfigUpdate::TaskDef(id))
                    && unpause == if paused {
                        None
                    } else {
                        Some(ProcessToken::UnpauseJob(job_id))
                    }
            },
        },
{
    match rows_affected {
        None => PauseOutcome::Failed,
        Some(n) => {
            if n != 1 {
                return PauseOutcome::NotFound;
            }
            let mut task_defs: Vec<ConfigUpdate> = Vec::new();
            let mut i: usize = 0;
            while i < task_ids.len()
                invariant
                    0 <= i <= task_ids@.len(),
                    task_defs@ == task_ids@.take(i as int).map_values(|id: u128| ConfigUpdate::TaskDef(id)),
                decreases task_ids@.len() - i,
            {
                task_defs.push(ConfigUpdate::TaskDef(task_ids[i]));
                i = i + 1;
                proof {
                    assert(task_ids@.take(i as int).map_values(|id: u128| ConfigUpdate::TaskDef(id)) =~= task_ids@.take(
                        i - 1,
                    ).map_values(|id: u128| ConfigUpdate::TaskDef(id)).push(ConfigUpdate::TaskDef(task_ids@[i - 1])));
                }
            }
            proof {
                assert(task_ids@.take(task_ids@.len() as int) =~= task_ids@);
            }
            let unpause = if paused {
                None
            } else {
                Some(ProcessToken::UnpauseJob(job_id))
            };
            PauseOutcome::Stored { triggers: TriggerUpdate(trigger_ids), task_defs, unpause }
        },
    }
}

} // verus!
