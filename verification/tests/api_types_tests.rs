use waterwheel::api_types::{
    pause_outcome, plan_job, plan_task, stored_paused, JobError, PauseOutcome, TaskRetry, TaskSettings,
    plan_task_edges, task_threshold, validate_trigger, Catchup, EdgeError, EdgePlan, Job, NewTrigger,
    Task, Trigger, TriggerError,
};
use waterwheel::messages::{ConfigUpdate, ProcessToken, TokenState, TriggerUpdate};
use waterwheel::reference::{Reference, ReferenceKind};

fn trigger(period: Option<&str>, cron: Option<&str>, offset: Option<&str>) -> Trigger {
    Trigger {
        name: "t".to_owned(),
        start: 0,
        end: None,
        period: period.map(String::from),
        cron: cron.map(String::from),
        offset: offset.map(String::from),
        catchup: None,
    }
}

fn task(depends: Option<Vec<&str>>, failure: Option<Vec<&str>>, threshold: Option<i32>) -> Task {
    Task {
        name: "c".to_owned(),
        docker: None,
        depends: depends.map(|v| v.into_iter().map(String::from).collect()),
        depends_failure: failure.map(|v| v.into_iter().map(String::from).collect()),
        threshold,
        retry: None,
        timeout: None,
    }
}

fn job() -> Job {
    Job {
        uuid: 7,
        project: "proj".to_owned(),
        name: "job".to_owned(),
        description: String::new(),
        paused: None,
        triggers: vec![],
        tasks: vec![],
    }
}

fn reference(kind: ReferenceKind, name: &str) -> Reference {
    Reference {
        proj: Some("proj".to_owned()),
        job: Some("job".to_owned()),
        kind,
        name: name.to_owned(),
        offset: None,
    }
}

#[test]
fn trigger_with_a_period_is_stored_in_seconds() {
    let t = trigger(Some("1h"), None, Some("-5m"));
    assert_eq!(
        validate_trigger(3, &t).unwrap(),
        NewTrigger {
            name: "t".to_owned(),
            job_id: 3,
            start: 0,
            end: None,
            period: Some(3600),
            cron: None,
            offset: Some(-300),
            catchup: Catchup::Earliest,
        }
    );
}

#[test]
fn trigger_with_a_cron_expression_keeps_it() {
    let mut t = trigger(None, Some("0 0 * * * * *"), None);
    t.catchup = Some(Catchup::Skip);
    let n = validate_trigger(3, &t).unwrap();
    assert_eq!(n.cron, Some("0 0 * * * * *".to_owned()));
    assert_eq!(n.period, None);
    assert_eq!(n.catchup, Catchup::Skip);
}

#[test]
fn trigger_schedule_errors() {
    let e = validate_trigger(3, &trigger(None, None, None)).unwrap_err();
    assert_eq!(e, TriggerError::NoSchedule);
    assert_eq!(e.to_string(), "No schedule - either period or cron must be provided");

    let e = validate_trigger(3, &trigger(Some("1h"), Some("0 0 * * * * *"), None)).unwrap_err();
    assert_eq!(e, TriggerError::MultipleSchedule);
    assert_eq!(e.to_string(), "Multiple schedule - cannot specify both cron and period");

    let e = validate_trigger(3, &trigger(Some("1x"), None, None)).unwrap_err();
    assert!(e.to_string().starts_with("Period is not valid: unknown time unit \"x\""));

    let e = validate_trigger(3, &trigger(None, Some("nope"), None)).unwrap_err();
    assert!(matches!(e, TriggerError::InvalidCron(_)));

    let e = validate_trigger(3, &trigger(Some("1h"), None, Some("1"))).unwrap_err();
    assert!(matches!(e, TriggerError::Duration(_)));
    assert_eq!(e.to_string(), "time unit needed, for example 1sec or 1ms");
}

#[test]
fn threshold_defaults_to_the_number_of_dependencies() {
    assert_eq!(task_threshold(&task(None, None, None)), 1);
    assert_eq!(task_threshold(&task(Some(vec!["task/a", "task/b"]), None, None)), 2);
    assert_eq!(task_threshold(&task(Some(vec!["task/a"]), None, Some(5))), 5);
}

#[test]
fn task_edges_in_order() {
    let t = task(Some(vec!["trigger/t", "task/a"]), Some(vec!["task/b"]), None);
    assert_eq!(
        plan_task_edges(&t, &job()).unwrap(),
        vec![
            EdgePlan::Trigger(reference(ReferenceKind::Trigger, "t")),
            EdgePlan::Task(reference(ReferenceKind::Task, "a"), TokenState::Success),
            EdgePlan::Task(reference(ReferenceKind::Task, "b"), TokenState::Failure),
        ]
    );
}

#[test]
fn task_edge_errors() {
    let t = task(None, Some(vec!["trigger/t"]), None);
    assert_eq!(plan_task_edges(&t, &job()).unwrap_err(), EdgeError::FailureOnTrigger);
    let t = task(Some(vec!["token/x"]), None, None);
    assert!(matches!(plan_task_edges(&t, &job()).unwrap_err(), EdgeError::Reference(_)));
}

#[test]
fn job_plan_checks_triggers_then_tasks() {
    let mut j = job();
    j.triggers = vec![trigger(Some("1h"), None, None), trigger(None, Some("0 0 * * * * *"), None)];
    j.tasks = vec![
        task(Some(vec!["trigger/t"]), None, None),
        task(Some(vec!["task/c", "trigger/t"]), Some(vec!["task/d"]), None),
    ];
    let plan = plan_job(&j).unwrap();
    assert_eq!(plan.triggers.len(), 2);
    assert_eq!(plan.triggers[0].period, Some(3600));
    assert_eq!(plan.tasks[0].threshold, 1);
    assert_eq!(plan.tasks[1].threshold, 2);
    assert_eq!(plan.edges[1].len(), 3);

    j.triggers.push(trigger(None, None, None));
    assert_eq!(plan_job(&j).unwrap_err(), JobError::Trigger(TriggerError::NoSchedule));

    j.triggers.pop();
    j.tasks.push(task(None, Some(vec!["trigger/t"]), None));
    assert_eq!(plan_job(&j).unwrap_err(), JobError::Edge(EdgeError::FailureOnTrigger));
}

#[test]
fn paused_flag_when_stored() {
    assert!(!stored_paused(None, None));
    assert!(stored_paused(None, Some(true)));
    assert!(stored_paused(Some(true), Some(false)));
    assert!(!stored_paused(Some(false), Some(true)));
}

#[test]
fn job_plan_reports_the_first_refused_task() {
    let mut j = job();
    j.tasks = vec![
        task(Some(vec!["task/c"]), None, None),
        task(None, Some(vec!["trigger/t"]), None),
        task(Some(vec!["token/x"]), None, None),
    ];
    assert_eq!(plan_job(&j).unwrap_err(), JobError::Edge(EdgeError::FailureOnTrigger));
    j.tasks.swap(1, 2);
    assert!(matches!(plan_job(&j).unwrap_err(), JobError::Edge(EdgeError::Reference(_))));
}

#[test]
fn task_settings_parse_retry_delay_and_timeout() {
    let mut t = task(Some(vec!["task/a", "task/b"]), None, None);
    assert_eq!(
        plan_task(&t).unwrap(),
        TaskSettings { threshold: 2, retry_max_attempts: None, retry_delay_secs: None, timeout_secs: None }
    );
    t.retry = Some(TaskRetry { max_attempts: 3, delay: Some("5m".to_owned()) });
    t.timeout = Some("1h 30s".to_owned());
    assert_eq!(
        plan_task(&t).unwrap(),
        TaskSettings { threshold: 2, retry_max_attempts: Some(3), retry_delay_secs: Some(300), timeout_secs: Some(3630) }
    );
    t.retry = Some(TaskRetry { max_attempts: 2, delay: None });
    t.timeout = Some("1500ms".to_owned());
    assert_eq!(
        plan_task(&t).unwrap(),
        TaskSettings { threshold: 2, retry_max_attempts: Some(2), retry_delay_secs: None, timeout_secs: Some(1) }
    );
}

#[test]
fn task_with_bad_duration_is_refused() {
    let mut t = task(None, None, None);
    t.retry = Some(TaskRetry { max_attempts: 3, delay: Some("soon".to_owned()) });
    t.timeout = Some("1x".to_owned());
    assert_eq!(plan_task(&t).unwrap_err(), "expected number at 0");
    t.retry = None;
    assert_eq!(plan_task(&t).unwrap_err(), "unknown time unit \"x\", supported units: ns, us, ms, sec, min, hours, days, weeks, months, years (and few variations)");
}

#[test]
fn job_plan_checks_task_durations_before_any_edge() {
    let mut j = job();
    let mut bad = task(None, None, None);
    bad.timeout = Some("later".to_owned());
    j.tasks = vec![task(Some(vec!["token/x"]), None, None), bad];
    assert_eq!(plan_job(&j).unwrap_err(), JobError::Duration("expected number at 0".to_owned()));
    j.tasks.pop();
    assert!(matches!(plan_job(&j).unwrap_err(), JobError::Edge(EdgeError::Reference(_))));
}

#[test]
fn pausing_answers_and_notifies() {
    assert_eq!(pause_outcome(9, true, None, vec![1], &vec![2]), PauseOutcome::Failed);
    assert_eq!(pause_outcome(9, true, None, vec![], &vec![]).status(), 500);
    assert_eq!(pause_outcome(9, true, Some(0), vec![1], &vec![2]), PauseOutcome::NotFound);
    assert_eq!(pause_outcome(9, true, Some(0), vec![], &vec![]).status(), 404);
    let paused = pause_outcome(9, true, Some(1), vec![1, 3], &vec![2, 4]);
    assert_eq!(paused.status(), 204);
    assert_eq!(
        paused,
        PauseOutcome::Stored {
            triggers: TriggerUpdate(vec![1, 3]),
            task_defs: vec![ConfigUpdate::TaskDef(2), ConfigUpdate::TaskDef(4)],
            unpause: None,
        }
    );
    match pause_outcome(9, false, Some(1), vec![], &vec![]) {
        PauseOutcome::Stored { unpause, .. } => assert_eq!(unpause, Some(ProcessToken::UnpauseJob(9))),
        other => panic!("unexpected {:?}", other),
    }
}
