use waterwheel::messages::{TaskPriority, Token, TokenState, TokenStateParseError};
use waterwheel::queue::TriggerTime;
use waterwheel::requests::{JwtSubject, ListJobQuery, StashAuthError};
use waterwheel::jwt::{generate_stash_jwt, load_hmac_secret};
use waterwheel::status::ServerStatus;

const STATES: [TokenState; 8] = [
    TokenState::Waiting,
    TokenState::Active,
    TokenState::Running,
    TokenState::Success,
    TokenState::Failure,
    TokenState::Error,
    TokenState::Cancelled,
    TokenState::Retry,
];

#[test]
fn token_state_names_round_trip() {
    for s in STATES {
        assert_eq!(TokenState::parse(s.as_str()).unwrap(), s);
    }
    assert_eq!(TokenState::Cancelled.as_str(), "cancelled");
}

#[test]
fn unknown_token_state_is_refused() {
    match TokenState::parse("done") {
        Err(TokenStateParseError(m)) => assert_eq!(m, "invalid token state: 'done'"),
        Ok(_) => panic!("parsed an unknown state"),
    }
}

#[test]
fn final_and_retryable_states() {
    let finals: Vec<TokenState> = STATES.iter().copied().filter(|s| s.is_final()).collect();
    assert_eq!(finals, vec![TokenState::Success, TokenState::Failure, TokenState::Error]);
    let retryable: Vec<TokenState> = STATES.iter().copied().filter(|s| s.is_retryable()).collect();
    assert_eq!(retryable, vec![TokenState::Failure, TokenState::Error]);
}

#[test]
fn state_of_a_finished_run() {
    assert_eq!(TokenState::from_result(Ok(true)), TokenState::Success);
    assert_eq!(TokenState::from_result(Ok(false)), TokenState::Failure);
    assert_eq!(TokenState::from_result(Err(anyhow::Error::msg("boom"))), TokenState::Error);
}

#[test]
fn priorities_order_and_names() {
    assert!(TaskPriority::BackFill < TaskPriority::Low);
    assert!(TaskPriority::Normal < TaskPriority::High);
    assert_eq!(TaskPriority::default(), TaskPriority::Normal);
    assert_eq!(TaskPriority::BackFill.as_str(), "backfill");
    assert_eq!(TaskPriority::Low.level(), 1);
}

#[test]
fn list_job_limit_defaults_to_fifty() {
    let q = ListJobQuery { limit: None, after: None, name: None };
    assert_eq!(q.limit_or_default(), 50);
    let q = ListJobQuery { limit: Some(5), after: None, name: None };
    assert_eq!(q.limit_or_default(), 5);
}

#[test]
fn stash_subject_from_bearer() {
    let keys = load_hmac_secret("s3cret");
    assert_eq!(JwtSubject::from_bearer(&keys, None), Err(StashAuthError::Unauthorized));
    assert_eq!(JwtSubject::from_bearer(&keys, Some("junk")), Err(StashAuthError::Unauthorized));
    let token = generate_stash_jwt(&keys, "task-9").unwrap();
    assert_eq!(JwtSubject::from_bearer(&keys, Some(&token)), Ok(JwtSubject("task-9".to_owned())));
}

#[test]
fn scheduler_status_starts_at_zero() {
    let s = ServerStatus::default();
    assert_eq!(s, ServerStatus { queued_triggers: 0, num_workers: 0, running_tasks: 0 });
}

#[test]
fn tokens_and_trigger_times_as_log_text() {
    let t = Token { task_id: 0x67e5504410b1426f9247bb680e5fe0c8, trigger_datetime: 0 };
    assert_eq!(t.to_string(), "<token 67e55044-10b1-426f-9247-bb680e5fe0c8 @ 1970-01-01T00:00:00+00:00>");
    let tt = TriggerTime { scheduled_datetime: 0, trigger_id: 1, trigger_datetime: 1_600_000_000_000_000 };
    assert_eq!(
        tt.to_string(),
        "<trigger-time 00000000-0000-0000-0000-000000000001 @ 2020-09-13T12:26:40+00:00>"
    );
}

#[test]
fn token_state_from_str() {
    let s: TokenState = "retry".parse().unwrap();
    assert_eq!(s, TokenState::Retry);
    assert!("nope".parse::<TokenState>().is_err());
}
