use waterwheel::execute::{consumer_timeout_ms, enqueue, max_queue_priority, plan_enqueue};
use waterwheel::logs::{first_position, log_key, read_block_ms, read_count, tail_step, TailStep};
use waterwheel::messages::{ExecuteToken, TaskPriority, TaskRequest, Token, TokenState};
use waterwheel::progress::{progress_priority, progress_step, retry_time, ProgressStep};

fn token() -> Token {
    Token { task_id: 42, trigger_datetime: 1_600_000_000_000_000 }
}

#[test]
fn enqueue_plan_for_a_token() {
    let msg = ExecuteToken { token: token(), priority: TaskPriority::High, attempt: 2 };
    let e = plan_enqueue(msg, 9);
    assert_eq!(
        e.request,
        TaskRequest { task_run_id: 9, task_id: 42, trigger_datetime: 1_600_000_000_000_000 }
    );
    assert_eq!(e.priority_level, 3);
    assert_eq!(e.delivery_mode, 2);
    assert_eq!(e.state, TokenState::Active);
    assert_eq!(e.attempt, 2);
    assert_eq!(e.priority, TaskPriority::High);
}

#[test]
fn enqueue_draws_a_fresh_run_id() {
    let msg = ExecuteToken { token: token(), priority: TaskPriority::BackFill, attempt: 1 };
    let a = enqueue(msg);
    let b = enqueue(msg);
    assert_ne!(a.request.task_run_id, b.request.task_run_id);
    assert_eq!(a.request.task_id, 42);
    assert_eq!(a.priority_level, 0);
}

#[test]
fn queue_limits() {
    assert_eq!(max_queue_priority(), 3);
    assert_eq!(TaskPriority::High.level(), max_queue_priority());
    assert_eq!(consumer_timeout_ms(1800), 1_800_000);
}

#[test]
fn progress_steps() {
    assert_eq!(progress_step(TokenState::Running, true), ProgressStep::Recorded);
    assert_eq!(progress_step(TokenState::Success, true), ProgressStep::Advance);
    assert_eq!(progress_step(TokenState::Failure, true), ProgressStep::Retry);
    assert_eq!(progress_step(TokenState::Error, true), ProgressStep::Retry);
    assert_eq!(progress_step(TokenState::Failure, false), ProgressStep::Advance);
    assert_eq!(progress_step(TokenState::Retry, true), ProgressStep::Recorded);
}

#[test]
fn progress_priority_defaults_to_normal() {
    assert_eq!(progress_priority(None), TaskPriority::Normal);
    assert_eq!(progress_priority(Some(TaskPriority::Low)), TaskPriority::Low);
}

#[test]
fn retry_time_uses_task_delay_or_default() {
    assert_eq!(retry_time(1_000_000, Some(30), 300), Some(31_000_000));
    assert_eq!(retry_time(1_000_000, None, 300), Some(301_000_000));
    assert_eq!(retry_time(8_210_266_876_000_000_000, Some(3600), 300), None);
}

#[test]
fn log_tailing_positions() {
    assert_eq!(log_key(0x67e5504410b1426f9247bb680e5fe0c8), "waterwheel-logs.67e55044-10b1-426f-9247-bb680e5fe0c8");
    assert_eq!(first_position(), "0-0");
    assert_eq!(read_block_ms(), 60000);
    assert_eq!(read_count(), 10);
    assert_eq!(tail_step(false, &vec!["1-0".to_owned()]), TailStep::Stop);
    assert_eq!(tail_step(true, &vec![]), TailStep::ReadFrom("$".to_owned()));
    assert_eq!(
        tail_step(true, &vec!["1-0".to_owned(), "2-0".to_owned()]),
        TailStep::Forward("2-0".to_owned())
    );
}
