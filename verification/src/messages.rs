//! Messages passed between the scheduler's tasks, the API and the workers, and
//! the states of a token (one activation of a task at one trigger time).

use vstd::prelude::*;
use vstd::string::*;
use crate::jwt::{uuid_text, uuid_text_spec};
use crate::schedule::{rfc3339, rfc3339_text, valid_instant};

verus! {

#[verifier::external_type_specification]
#[verifier::external_body]
pub struct ExAnyhowError(anyhow::Error);

/// State of a token.
#[derive(Copy, Clone, Debug, PartialEq, Eq, Structural)]
pub enum TokenState {
    /// waiting for the count to reach the threshold
    Waiting,
    /// task was sent for execution but the job was paused
    Cancelled,
    /// task has been sent to the message broker to be started
    Active,
    /// running the task
    Running,
    /// task completed successfully
    Success,
    /// task failed
    Failure,
    /// an error occurred (ie. task did not succeed or fail)
    Error,
    /// task failed but is going to be retried
    Retry,
}

/// The name of a state as stored and sent.
pub open spec fn token_state_name(s: TokenState) -> Seq<char> {
    match s {
        TokenState::Waiting => seq!['w', 'a', 'i', 't', 'i', 'n', 'g'],
        TokenState::Active => seq!['a', 'c', 't', 'i', 'v', 'e'],
        TokenState::Running => seq!['r', 'u', 'n', 'n', 'i', 'n', 'g'],
        TokenState::Success => seq!['s', 'u', 'c', 'c', 'e', 's', 's'],
        TokenState::Failure => seq!['f', 'a', 'i', 'l', 'u', 'r', 'e'],
        TokenState::Error => seq!['e', 'r', 'r', 'o', 'r'],
        TokenState::Cancelled => seq!['c', 'a', 'n', 'c', 'e', 'l', 'l', 'e', 'd'],
        TokenState::Retry => seq!['r', 'e', 't', 'r', 'y'],
    }
}

/// The state with a given name, if any.
pub open spec fn token_state_named(name: Seq<char>) -> Option<TokenState> {
    if name == token_state_name(TokenState::Waiting) {
        Some(TokenState::Waiting)
    } else if name == token_state_name(TokenState::Active) {
        Some(TokenState::Active)
    } else if name == token_state_name(TokenState::Running) {
        Some(TokenState::Running)
    } else if name == token_state_name(TokenState::Success) {
        Some(TokenState::Success)
    } else if name == token_state_name(TokenState::Failure) {
        Some(TokenState::Failure)
    } else if name == token_state_name(TokenState::Error) {
        Some(TokenState::Error)
    } else if name == token_state_name(TokenState::Cancelled) {
        Some(TokenState::Cancelled)
    } else if name == token_state_name(TokenState::Retry) {
        Some(TokenState::Retry)
    } else {
        None
    }
}

/// A state in which a task run has ended.
pub open spec fn is_final_state(s: TokenState) -> bool {
    s == TokenState::Success || s == TokenState::Failure || s == TokenState::Error
}

/// The final states after which a run may be tried again: it failed or could
/// not be run. A success is never retried.
pub open spec fn is_retryable_state(s: TokenState) -> bool {
    s == TokenState::Failure || s == TokenState::Error
}

/// The message for a name that is no token state.
pub open spec fn invalid_state_message(name: Seq<char>) -> Seq<char> {
    seq!['i', 'n', 'v', 'a', 'l', 'i', 'd', ' ', 't', 'o', 'k', 'e', 'n', ' ', 's', 't', 'a', 't', 'e', ':', ' ', '\'']
        + name + seq!['\'']
}

/// A name that is not a token state, with a message saying so.
#[derive(Debug, PartialEq, Eq)]
pub struct TokenStateParseError(pub String);

impl TokenState {
    pub fn is_final(&self) -> (r: bool)
        ensures
            r == is_final_state(*self),
    {
        match self {
            TokenState::Success | TokenState::Failure | TokenState::Error => true,
            _ => false,
        }
    }

    /// Whether a run that ended in this state may be tried again.
    pub fn is_retryable(&self) -> (r: bool)
        ensures
            r == is_retryable_state(*self),
    {
        match self {
            TokenState::Failure | TokenState::Error => true,
            _ => false,
        }
    }

    /// The state of a finished task run: `Ok(true)` is a success, `Ok(false)` a
    /// failure and an error means the task could not be run.
    pub fn from_result(result: Result<bool, anyhow::Error>) -> (r: Self)
        ensures
            r == match result {
                Ok(true) => TokenState::Success,
                Ok(false) => TokenState::Failure,
                Err(_) => TokenState::Error,
            },
    {
        match result {
            Ok(true) => TokenState::Success,
            Ok(false) => TokenState::Failure,
            Err(_) => TokenState::Error,
        }
    }

    pub fn as_str(&self) -> (r: &'static str)
        ensures
            r@ == token_state_name(*self),
    {
        match self {
            TokenState::Waiting => {
                proof {
                    reveal_strlit("waiting");
                }
                "waiting"
            },
            TokenState::Active => {
                proof {
                    reveal_strlit("active");
                }
                "active"
            },
            TokenState::Running => {
                proof {
                    reveal_strlit("running");
                }
                "running"
            },
            TokenState::Success => {
                proof {
                    reveal_strlit("success");
                }
                "success"
            },
            TokenState::Failure => {
                proof {
                    reveal_strlit("failure");
                }
                "failure"
            },
            TokenState::Error => {
                proof {
                    reveal_strlit("error");
                }
                "error"
            },
            TokenState::Cancelled => {
                proof {
                    reveal_strlit("cancelled");
                }
                "cancelled"
            },
            TokenState::Retry => {
                proof {
                    reveal_strlit("retry");
                }
                "retry"
            },
        }
    }

    /// The state with the given name.
    pub fn parse(s: &str) -> (r: Result<TokenState, TokenStateParseError>)
        ensures
            match token_state_named(s@) {
                Some(state) => r == Ok::<TokenState, TokenStateParseError>(state),
                None => r matches Err(e) && e.0@ == invalid_state_message(s@),
            },
    {
        if str_eq(s, TokenState::Waiting.as_str()) {
            return Ok(TokenState::Waiting);
        }
        if str_eq(s, TokenState::Active.as_str()) {
            return Ok(TokenState::Active);
        }
        if str_eq(s, TokenState::Running.as_str()) {
            return Ok(TokenState::Running);
        }
        if str_eq(s, TokenState::Success.as_str()) {
            return Ok(TokenState::Success);
        }
        if str_eq(s, TokenState::Failure.as_str()) {
            return Ok(TokenState::Failure);
        }
        if str_eq(s, TokenState::Error.as_str()) {
            return Ok(TokenState::Error);
        }
        if str_eq(s, TokenState::Cancelled.as_str()) {
            return Ok(TokenState::Cancelled);
        }
        if str_eq(s, TokenState::Retry.as_str()) {
            return Ok(TokenState::Retry);
        }
        let mut msg = String::new();
        msg.append("invalid token state: '");
        msg.append(s);
        msg.append("'");
        proof {
            reveal_strlit("invalid token state: '");
            reveal_strlit("'");
        }
        assert(msg@ =~= invalid_state_message(s@));
        Err(TokenStateParseError(msg))
    }
}

impl std::str::FromStr for TokenState {
    type Err = TokenStateParseError;

    fn from_str(s: &str) -> (r: Result<TokenState, TokenStateParseError>)
        ensures
            match token_state_named(s@) {
                Some(state) => r == Ok::<TokenState, TokenStateParseError>(state),
                None => r matches Err(e) && e.0@ == invalid_state_message(s@),
            },
    {
        TokenState::parse(s)
    }
}

/// Whether two texts are the same.
pub fn str_eq(a: &str, b: &str) -> (r: bool)
    ensures
        r == (a@ == b@),
{
    let n = a.unicode_len();
    if n != b.unicode_len() {
        return false;
    }
    let mut i: usize = 0;
    while i < n
        invariant
            0 <= i <= n,
            n == a@.len(),
            n == b@.len(),
            forall|j: int| 0 <= j < i ==> a@[j] == b@[j],
        decreases n - i,
    {
        if a.get_char(i) != b.get_char(i) {
            return false;
        }
        i = i + 1;
    }
    assert(a@ =~= b@);
    true
}

/// Priority of a task execution; backfills run last.
#[derive(Copy, Clone, Debug, PartialEq, Eq, PartialOrd, Ord, Structural)]
pub enum TaskPriority {
    BackFill,
    Low,
    Normal,
    High,
}

/// The level of a priority as the message broker orders it (0 is lowest).
pub open spec fn priority_level(p: TaskPriority) -> u8 {
    match p {
        TaskPriority::BackFill => 0,
        TaskPriority::Low => 1,
        TaskPriority::Normal => 2,
        TaskPriority::High => 3,
    }
}

pub open spec fn priority_name(p: TaskPriority) -> Seq<char> {
    match p {
        TaskPriority::BackFill => seq!['b', 'a', 'c', 'k', 'f', 'i', 'l', 'l'],
        TaskPriority::Low => seq!['l', 'o', 'w'],
        TaskPriority::Normal => seq!['n', 'o', 'r', 'm', 'a', 'l'],
        TaskPriority::High => seq!['h', 'i', 'g', 'h'],
    }
}

impl TaskPriority {
    pub fn as_str(&self) -> (r: &'static str)
        ensures
            r@ == priority_name(*self),
    {
        match self {
            TaskPriority::BackFill => {
                proof {
                    reveal_strlit("backfill");
                }
                "backfill"
            },
            TaskPriority::Low => {
                proof {
                    reveal_strlit("low");
                }
                "low"
            },
            TaskPriority::Normal => {
                proof {
                    reveal_strlit("normal");
                }
                "normal"
            },
            TaskPriority::High => {
                proof {
                    reveal_strlit("high");
                }
                "high"
            },
        }
    }

    /// The priority level sent to the message broker.
    pub fn level(&self) -> (r: u8)
        ensures
            r == priority_level(*self),
    {
        match self {
            TaskPriority::BackFill => 0,
            TaskPriority::Low => 1,
            TaskPriority::Normal => 2,
            TaskPriority::High => 3,
        }
    }
}

impl Default for TaskPriority {
    fn default() -> (p: Self)
        ensures
            p == TaskPriority::Normal,
    {
        TaskPriority::Normal
    }
}

/// One activation of a task: the task and the logical time it runs for
/// (microseconds since the epoch).
#[derive(Copy, Clone, Debug, PartialEq, Eq, Hash, Structural)]
pub struct Token {
    pub task_id: u128,
    pub trigger_datetime: i64,
}

impl Token {
    /// The token as log lines show it: `<token ID @ TIME>`.
    pub fn to_string(&self) -> (s: String)
        requires
            valid_instant(self.trigger_datetime as int),
        ensures
            s@ == "<token "@ + uuid_text_spec(self.task_id) + " @ "@ + rfc3339_text(self.trigger_datetime) + ">"@,
    {
        let mut s = String::from_str("<token ");
        s.append(uuid_text(self.task_id).as_str());
        s.append(" @ ");
        s.append(rfc3339(self.trigger_datetime).as_str());
        s.append(">");
        s
    }
}

/// Message sent from the API to the scheduler when triggers were changed (the
/// changes are already committed to the database).
#[derive(Clone, Debug, PartialEq, Eq)]
pub struct TriggerUpdate(pub Vec<u128>);

/// Token operations for the token processor.
#[derive(Clone, Debug, PartialEq, Eq, Structural)]
pub enum ProcessToken {
    /// add a token to a task
    Increment(Token, TaskPriority),
    /// add the task's threshold to a token (it activates right now)
    Activate(Token, TaskPriority),
    /// remove all tokens from a task
    Clear(Token),
    /// a job was unpaused; check whether any of its tasks are ready
    UnpauseJob(u128),
}

/// Message sent from the API to the workers to update cached configuration.
#[derive(Clone, Copy, Debug, PartialEq, Eq, Structural)]
pub enum ConfigUpdate {
    Project(u128),
    TaskDef(u128),
}

/// What a worker is asked to run: a new run of a task for a trigger time.
#[derive(Clone, Copy, Debug, PartialEq, Eq, Structural)]
pub struct TaskRequest {
    pub task_run_id: u128,
    pub task_id: u128,
    pub trigger_datetime: i64,
}

/// What a worker needs to know of a task to run it.
#[derive(Debug, PartialEq, Eq)]
pub struct TaskDef {
    pub task_id: u128,
    pub task_name: String,
    pub job_id: u128,
    pub job_name: String,
    pub project_id: u128,
    pub project_name: String,
    pub image: Option<String>,
    pub args: Vec<String>,
    pub env: Option<Vec<String>>,
    pub paused: bool,
}

/// A worker's report on a task run (times in microseconds since the epoch).
#[derive(Clone, Copy, Debug, PartialEq, Eq, Structural)]
pub struct TaskProgress {
    pub task_run_id: u128,
    pub task_id: u128,
    pub trigger_datetime: i64,
    pub started_datetime: i64,
    pub finished_datetime: Option<i64>,
    pub result: TokenState,
    pub worker_id: u128,
}

/// A token to hand to the workers, with its priority and attempt number.
#[derive(Clone, Copy, Debug, PartialEq, Eq, Structural)]
pub struct ExecuteToken {
    pub token: Token,
    pub priority: TaskPriority,
    pub attempt: u32,
}

} // verus!
