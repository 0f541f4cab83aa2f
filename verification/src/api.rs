//! The first form of a job definition, as read from a YAML file: triggers with
//! a cron expression, and tasks that run a Docker image after the tasks they
//! depend on.

use vstd::prelude::*;

verus! {

#[derive(Debug, PartialEq, Eq)]
pub struct Trigger {
    pub id: String,
    pub cron: String,
}

/// What a task runs.
#[derive(Debug, PartialEq, Eq)]
pub enum Action {
    Docker { image: String, args: Vec<String> },
}

#[derive(Debug, PartialEq, Eq)]
pub struct Task {
    pub id: String,
    pub action: Option<Action>,
    pub depends: Vec<String>,
    pub depends_failure: Vec<String>,
    pub threshold: Option<u32>,
}

#[derive(Debug, PartialEq, Eq)]
pub struct Job {
    pub project_id: String,
    pub job_id: String,
    pub triggers: Vec<Trigger>,
    pub tasks: Vec<Task>,
}

} // verus!
