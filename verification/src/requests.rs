//! The query strings, bodies and replies of the HTTP API, and the stash
//! caller's identity taken from its bearer token.

use vstd::prelude::*;
use crate::jwt::{JwtKeys, accepted_by, dot_count, issuer_spec, jwt_subject, signed_token, stash_audience_spec, validate_stash_jwt};

verus! {

/// Which tokens of a job to show: those in the given states (comma-separated),
/// of the logical times before `before` (microseconds since the epoch), at most
/// `limit` times (200 when not given).
#[derive(Debug, PartialEq, Eq)]
pub struct QueryToken {
    pub state: Option<String>,
    pub before: Option<i64>,
    pub limit: Option<i32>,
}

impl QueryToken {
    /// The number of logical times to show: the given limit, else 200.
    pub fn limit_or_default(&self) -> (n: i32)
        ensures
            n == match self.limit {
                Some(l) => l,
                None => 200,
            },
    {
        match self.limit {
            Some(l) => l,
            None => 200,
        }
    }
}

/// A job looked up by its project's name and its own.
#[derive(Debug, PartialEq, Eq)]
pub struct QueryJob {
    pub project: String,
    pub name: String,
}

/// The body that pauses or resumes a job.
#[derive(Debug, PartialEq, Eq)]
pub struct Paused {
    pub paused: bool,
}

/// How many task runs to list at most.
#[derive(Debug, PartialEq, Eq)]
pub struct ListTaskRunsQuery {
    pub limit: Option<i32>,
}

/// Projects listed, all or the one of this name.
#[derive(Debug, PartialEq, Eq)]
pub struct QueryProject {
    pub name: Option<String>,
}

/// The jobs of a project listed: at most `limit` (50 when not given), those
/// whose name comes after `after`, or the one named `name`.
#[derive(Debug, PartialEq, Eq)]
pub struct ListJobQuery {
    pub limit: Option<i32>,
    pub after: Option<String>,
    pub name: Option<String>,
}

impl ListJobQuery {
    /// The number of jobs to list: the given limit, else 50.
    pub fn limit_or_default(&self) -> (n: i32)
        ensures
            n == match self.limit {
                Some(l) => l,
                None => 50,
            },
    {
        match self.limit {
            Some(l) => l,
            None => 50,
        }
    }
}

/// The name of a stash entry.
#[derive(Debug, PartialEq, Eq)]
pub struct StashName(pub String);

/// The bytes of a stash entry.
#[derive(Debug, PartialEq, Eq)]
pub struct StashData(pub Vec<u8>);

/// Counts that the status page shows.
#[derive(Debug, PartialEq, Eq)]
pub struct ServerStatus {
    pub num_projects: i64,
    pub num_workers: i64,
    pub running_tasks: i64,
}

/// The task that a stash request acts for, as its bearer token names it.
#[derive(Debug, PartialEq, Eq)]
pub struct JwtSubject(pub String);

/// A stash request without a valid token.
#[derive(Copy, Clone, Debug, PartialEq, Eq, Structural)]
pub enum StashAuthError {
    Unauthorized,
}

impl JwtSubject {
    /// The subject of a stash request with this bearer token: a request without
    /// a token, or whose token is refused, is unauthorised. A token signed with
    /// keys of the same material for the stash, if accepted, names the task it
    /// was made for; an accepted token is one the token library accepts with the
    /// keys for the stash, and the task is its `sub`.
    pub fn from_bearer(keys: &JwtKeys, bearer: Option<&str>) -> (r: Result<JwtSubject, StashAuthError>)
        ensures
            bearer is None ==> r == Err::<JwtSubject, StashAuthError>(StashAuthError::Unauthorized),
            r is Err ==> r == Err::<JwtSubject, StashAuthError>(StashAuthError::Unauthorized),
            bearer matches Some(token) ==> forall|sub: Seq<char>, exp: u64|
                #[trigger] signed_token(keys.material(), token@, issuer_spec(), sub, stash_audience_spec(), exp)
                    ==> (r is Ok ==> r->Ok_0.0@ == sub),
            r matches Ok(s) ==> bearer matches Some(token) && dot_count(token@) == 2 && accepted_by(
                keys.material(),
                token@,
                stash_audience_spec(),
                issuer_spec(),
            ) && jwt_subject(token@) == Some(s.0@),
    {
        let token = match bearer {
            Some(t) => t,
            None => return Err(StashAuthError::Unauthorized),
        };
        match validate_stash_jwt(keys, token) {
            Ok(sub) => Ok(JwtSubject(sub)),
            Err(_) => Err(StashAuthError::Unauthorized),
        }
    }
}

} // verus!
