use waterwheel::api_types::Catchup;
use waterwheel::queue::TriggerTime;
use waterwheel::schedule::{
    advance_time, plan_catchup, plan_requeue, step, widen_fired_bounds, Period, ScheduleError,
    TriggerRow,
};

const HOUR: i64 = 3_600_000_000;

fn hourly(catchup: Catchup) -> TriggerRow {
    TriggerRow {
        id: 11,
        start_datetime: 0,
        end_datetime: None,
        earliest_trigger_datetime: None,
        latest_trigger_datetime: None,
        period: Some(3600),
        cron: None,
        trigger_offset: None,
        catchup,
    }
}

fn at(t: i64) -> TriggerTime {
    TriggerTime { scheduled_datetime: t, trigger_id: 11, trigger_datetime: t }
}

#[test]
fn step_lists_times_before_the_limit() {
    let (times, next) = step(&Period::Every(3600), 0, 3 * HOUR + 1).unwrap();
    assert_eq!(times, vec![0, HOUR, 2 * HOUR, 3 * HOUR]);
    assert_eq!(next, 4 * HOUR);
    let (times, next) = step(&Period::Every(3600), 5, 5).unwrap();
    assert!(times.is_empty());
    assert_eq!(next, 5);
}

#[test]
fn a_period_that_does_not_move_is_refused() {
    assert_eq!(step(&Period::Every(0), 0, 10).unwrap_err(), ScheduleError::OutOfRange);
    assert_eq!(step(&Period::Every(-60), 0, 10).unwrap_err(), ScheduleError::OutOfRange);
}

#[test]
fn catchup_runs_every_missed_activation() {
    let tr = hourly(Catchup::Earliest);
    let p = tr.period().unwrap();
    let plan = plan_catchup(&tr, &p, 3 * HOUR + 1).unwrap();
    assert_eq!(plan.activations, vec![at(0), at(HOUR), at(2 * HOUR), at(3 * HOUR)]);
    assert_eq!(plan.queued, Some(at(4 * HOUR)));
}

#[test]
fn catchup_none_only_queues_the_next_activation() {
    let tr = hourly(Catchup::Skip);
    let p = tr.period().unwrap();
    let plan = plan_catchup(&tr, &p, 3 * HOUR + 1).unwrap();
    assert!(plan.activations.is_empty());
    assert_eq!(plan.queued, Some(at(4 * HOUR)));
}

#[test]
fn catchup_continues_after_the_latest_activation() {
    let mut tr = hourly(Catchup::Earliest);
    tr.latest_trigger_datetime = Some(2 * HOUR);
    tr.earliest_trigger_datetime = Some(0);
    let p = tr.period().unwrap();
    let plan = plan_catchup(&tr, &p, 3 * HOUR + 1).unwrap();
    assert_eq!(plan.activations, vec![at(3 * HOUR)]);
    assert_eq!(plan.queued, Some(at(4 * HOUR)));
}

#[test]
fn catchup_backfills_when_the_start_moves_back() {
    let mut tr = hourly(Catchup::Latest);
    tr.start_datetime = -2 * HOUR;
    tr.earliest_trigger_datetime = Some(0);
    tr.latest_trigger_datetime = Some(HOUR);
    let p = tr.period().unwrap();
    let plan = plan_catchup(&tr, &p, HOUR + 10).unwrap();
    assert_eq!(plan.activations, vec![at(-2 * HOUR), at(-HOUR)]);
    assert_eq!(plan.queued, Some(at(2 * HOUR)));
}

#[test]
fn catchup_stops_at_the_end() {
    let mut tr = hourly(Catchup::Earliest);
    tr.end_datetime = Some(2 * HOUR + 1);
    let p = tr.period().unwrap();
    let plan = plan_catchup(&tr, &p, 10 * HOUR).unwrap();
    assert_eq!(plan.activations, vec![at(0), at(HOUR), at(2 * HOUR)]);
    assert_eq!(plan.queued, None);
}

#[test]
fn offset_delays_the_activation() {
    let mut tr = hourly(Catchup::Earliest);
    tr.trigger_offset = Some(60);
    assert_eq!(
        tr.at(HOUR),
        Some(TriggerTime { scheduled_datetime: HOUR + 60_000_000, trigger_id: 11, trigger_datetime: HOUR })
    );
}

#[test]
fn requeue_queues_one_period_later_until_the_end() {
    let mut tr = hourly(Catchup::Earliest);
    let p = tr.period().unwrap();
    assert_eq!(plan_requeue(&tr, &p, &at(HOUR)).unwrap(), Some(at(2 * HOUR)));
    tr.end_datetime = Some(2 * HOUR);
    assert_eq!(plan_requeue(&tr, &p, &at(HOUR)).unwrap(), None);
}

#[test]
fn cron_period_steps_to_the_next_match() {
    let mut tr = hourly(Catchup::Earliest);
    tr.period = None;
    tr.cron = Some("0 0 * * * * *".to_owned());
    let p = tr.period().unwrap();
    assert_eq!(advance_time(&p, 0), Some(HOUR));
    assert_eq!(advance_time(&p, 30 * 60_000_000), Some(HOUR));
    tr.cron = Some("not cron".to_owned());
    assert!(tr.period().is_err());
}

#[test]
fn fired_bounds_widen() {
    assert_eq!(widen_fired_bounds(None, None, 50), (50, 50));
    assert_eq!(widen_fired_bounds(Some(10), Some(40), 50), (10, 50));
    assert_eq!(widen_fired_bounds(Some(10), Some(40), 5), (5, 40));
    assert_eq!(widen_fired_bounds(Some(10), Some(40), 20), (10, 40));
}
