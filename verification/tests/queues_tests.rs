use waterwheel::circuit_breaker::CircuitBreaker;
use waterwheel::counter::Counter;
use waterwheel::queue::{TriggerQueue, TriggerTime};
use waterwheel::rendezvous::Rendezvous;
use waterwheel::scheduler::owned_triggers;
use waterwheel::retries::{
    owned_retries, next_attempt, next_retry_step, retry_execution, AttemptError, Retry, RetryQueue, RetryStep,
    SubmitRetry,
};
use waterwheel::messages::{ExecuteToken, TaskPriority, Token};
use waterwheel::scheduler::{next_trigger_step, remove_triggers, TriggerStep};

fn tt(scheduled: i64, id: u128) -> TriggerTime {
    TriggerTime { scheduled_datetime: scheduled, trigger_id: id, trigger_datetime: scheduled - 5 }
}

#[test]
fn trigger_queue_pops_earliest_first() {
    let mut q = TriggerQueue::new();
    assert!(q.is_empty());
    q.push(tt(30, 1));
    q.push(tt(10, 2));
    q.push(tt(20, 3));
    q.push(tt(10, 1));
    assert_eq!(q.len(), 4);
    assert_eq!(q.pop(), Some(tt(10, 1)));
    assert_eq!(q.pop(), Some(tt(10, 2)));
    assert_eq!(q.pop(), Some(tt(20, 3)));
    assert_eq!(q.pop(), Some(tt(30, 1)));
    assert_eq!(q.pop(), None);
}

#[test]
fn removing_a_trigger_drops_all_its_activations() {
    let mut q = TriggerQueue::new();
    q.push(tt(30, 1));
    q.push(tt(10, 2));
    q.push(tt(20, 1));
    q.remove_trigger(1);
    assert_eq!(q.len(), 1);
    assert_eq!(q.pop(), Some(tt(10, 2)));

    let mut q = TriggerQueue::new();
    q.push(tt(30, 1));
    q.push(tt(10, 2));
    q.push(tt(20, 3));
    remove_triggers(&mut q, &vec![1, 3]);
    assert_eq!(q.len(), 1);
}

#[test]
fn trigger_steps() {
    let mut q = TriggerQueue::new();
    assert_eq!(next_trigger_step(&mut q, 100), TriggerStep::WaitForChange);
    q.push(tt(150, 1));
    q.push(tt(90, 2));
    assert_eq!(next_trigger_step(&mut q, 100), TriggerStep::Fire(tt(90, 2)));
    assert_eq!(next_trigger_step(&mut q, 100), TriggerStep::Sleep { next: tt(150, 1), delay: 50 });
    assert!(q.is_empty());
}

#[test]
fn retry_queue_steps() {
    let mut q = RetryQueue::new();
    assert_eq!(next_retry_step(&mut q, 0), RetryStep::WaitForRetry);
    q.submit(SubmitRetry::Add(Retry { retry_at_datetime: 500, task_run_id: 7 }), &vec![]);
    q.submit(
        SubmitRetry::Reload,
        &vec![
            Retry { retry_at_datetime: 100, task_run_id: 8 },
            Retry { retry_at_datetime: 900, task_run_id: 9 },
        ],
    );
    assert_eq!(q.len(), 3);
    assert_eq!(next_retry_step(&mut q, 200), RetryStep::Run(Retry { retry_at_datetime: 100, task_run_id: 8 }));
    assert_eq!(
        next_retry_step(&mut q, 200),
        RetryStep::Sleep { next: Retry { retry_at_datetime: 500, task_run_id: 7 }, delay: 300 }
    );
    assert_eq!(q.len(), 1);
}

#[test]
fn attempts_count_up() {
    assert_eq!(next_attempt(0), Ok(1));
    assert_eq!(next_attempt(4), Ok(5));
    assert_eq!(next_attempt(-1), Err(AttemptError::OutOfRange));
    assert_eq!(next_attempt(1 << 40), Err(AttemptError::OutOfRange));
    assert_eq!(
        retry_execution(3, 1000, TaskPriority::Low, 2),
        Ok(ExecuteToken {
            token: Token { task_id: 3, trigger_datetime: 1000 },
            priority: TaskPriority::Low,
            attempt: 3
        })
    );
}

#[test]
fn circuit_breaker_limits_retries_in_a_window() {
    let mut b = CircuitBreaker::new(2, 1000);
    assert!(b.retry_at(0));
    assert!(b.retry_at(10));
    assert!(!b.retry_at(999));
    assert!(b.retry_at(1000));
    assert!(!b.retry_at(1009));
    assert!(b.retry_at(1010));
}

#[test]
fn circuit_breaker_on_the_clock() {
    let mut b = CircuitBreaker::new(1, 60_000_000);
    assert!(b.retry());
    assert!(!b.retry());
}

#[test]
fn counter_guard_undoes_its_increment() {
    let c = Counter::new();
    assert_eq!(c.get(), 0);
    c.inc();
    {
        let _g = c.boost();
        assert_eq!(c.get(), 2);
    }
    assert_eq!(c.get(), 1);
}

#[test]
fn reloaded_retries_are_those_this_member_owns() {
    let mut cluster = Rendezvous::with_me("ServerA".to_owned());
    cluster.add_node("ServerB".to_owned());
    let retries: Vec<Retry> =
        (1..=10).map(|i| Retry { retry_at_datetime: 100 * i as i64, task_run_id: i }).collect();
    let ids: Vec<u128> = (1..=10).collect();
    let mine: Vec<u128> =
        owned_retries(&cluster, "ServerA", &retries).iter().map(|r| r.task_run_id).collect();
    assert_eq!(mine, owned_triggers(&cluster, "ServerA", &ids));
    let theirs = owned_retries(&cluster, "ServerB", &retries);
    assert_eq!(mine.len() + theirs.len(), 10);
}
