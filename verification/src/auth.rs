//! Authorisation of API requests: what is asked for (an action on an object),
//! who asks, and the decisions around the policy service that answers.
//!
//! Reading headers, looking up a job's project and asking the policy service
//! are the caller's work; the decisions between them are here.

use vstd::prelude::*;

verus! {

/// Who makes a request: the bearer token, when the request carries one.
#[derive(Debug, PartialEq, Eq)]
pub struct Principal {
    pub bearer: Option<String>,
}

impl Principal {
    /// The principal of a request with this bearer token, if any.
    pub fn from_bearer(token: Option<&str>) -> (p: Principal)
        ensures
            match token {
                Some(t) => p.bearer matches Some(b) && b@ == t@,
                None => p.bearer is None,
            },
    {
        match token {
            Some(t) => Principal { bearer: Some(t.to_string()) },
            None => Principal { bearer: None },
        }
    }
}

/// What a request does to the object.
#[derive(Copy, Clone, Debug, PartialEq, Eq, Structural)]
pub enum Action {
    Get,
    List,
    Update,
    Delete,
}

/// What a request is about: a project, a job in a project, or some other kind
/// of object (such as the server status).
#[derive(Debug, PartialEq, Eq)]
pub struct AuthObject {
    pub project_id: Option<u128>,
    pub job_id: Option<u128>,
    pub kind: String,
}

impl AuthObject {
    /// No project, no job, an empty kind.
    pub fn empty() -> (o: AuthObject)
        ensures
            o.project_id is None,
            o.job_id is None,
            o.kind@ == Seq::<char>::empty(),
    {
        AuthObject { project_id: None, job_id: None, kind: String::new() }
    }
}

/// An authorisation check being built: the action and the object.
#[derive(Debug, PartialEq, Eq)]
pub struct Check {
    pub action: Action,
    pub object: AuthObject,
}

/// The check of an action on an object not yet named.
pub fn check_for(action: Action) -> (c: Check)
    ensures
        c.action == action,
        c.object.project_id is None,
        c.object.job_id is None,
        c.object.kind@ == Seq::<char>::empty(),
{
    Check { action, object: AuthObject::empty() }
}

/// A check that a resource may be read.
pub fn get() -> (c: Check)
    ensures
        c.action == Action::Get,
        c.object.project_id is None && c.object.job_id is None && c.object.kind@.len() == 0,
{
    check_for(Action::Get)
}

/// A check that resources may be listed.
pub fn list() -> (c: Check)
    ensures
        c.action == Action::List,
        c.object.project_id is None && c.object.job_id is None && c.object.kind@.len() == 0,
{
    check_for(Action::List)
}

/// A check that a resource may be changed.
pub fn update() -> (c: Check)
    ensures
        c.action == Action::Update,
        c.object.project_id is None && c.object.job_id is None && c.object.kind@.len() == 0,
{
    check_for(Action::Update)
}

/// A check that a resource may be deleted.
pub fn delete() -> (c: Check)
    ensures
        c.action == Action::Delete,
        c.object.project_id is None && c.object.job_id is None && c.object.kind@.len() == 0,
{
    check_for(Action::Delete)
}

impl Check {
    /// The object is a project (or all projects, without an id).
    pub fn project(self, project_id: Option<u128>) -> (c: Check)
        ensures
            c.action == self.action,
            c.object.project_id == project_id,
            c.object.job_id == self.object.job_id,
            c.object.kind@ == "project"@,
    {
        let mut c = self;
        c.object.project_id = project_id;
        c.object.kind = String::from_str("project");
        c
    }

    /// The object is a job, in a project if one is known.
    pub fn job(self, job_id: Option<u128>, project_id: Option<u128>) -> (c: Check)
        ensures
            c.action == self.action,
            c.object.job_id == job_id,
            c.object.project_id == project_id,
            c.object.kind@ == "job"@,
    {
        let mut c = self;
        c.object.job_id = job_id;
        c.object.project_id = project_id;
        c.object.kind = String::from_str("job");
        c
    }

    /// The object is of another kind.
    pub fn kind(self, kind: String) -> (c: Check)
        ensures
            c.action == self.action,
            c.object.job_id == self.object.job_id,
            c.object.project_id == self.object.project_id,
            c.object.kind@ == kind@,
    {
        let mut c = self;
        c.object.kind = kind;
        c
    }
}

/// What to do next with a check.
#[derive(Debug, PartialEq, Eq)]
pub enum CheckStep {
    /// authorisation is switched off: the request passes
    Allow,
    /// the object is a job whose project is not known: look it up first
    LookupProject(u128),
    /// ask the policy service
    AskPolicy,
}

/// The step that a check takes first: with authorisation switched off every
/// request passes; a job without a known project needs that project before the
/// policy service is asked.
pub fn first_step(no_authz: bool, object: &AuthObject) -> (s: CheckStep)
    ensures
        no_authz ==> s is Allow,
        !no_authz && object.project_id is None && object.job_id is Some
            ==> s == CheckStep::LookupProject(object.job_id->0),
        !no_authz && !(object.project_id is None && object.job_id is Some) ==> s is AskPolicy,
{
    if no_authz {
        return CheckStep::Allow;
    }
    match (object.job_id, object.project_id) {
        (Some(job_id), None) => CheckStep::LookupProject(job_id),
        _ => CheckStep::AskPolicy,
    }
}

/// The object once its job's project has been found.
pub fn with_project(object: AuthObject, project_id: u128) -> (o: AuthObject)
    ensures
        o.project_id == Some(project_id),
        o.job_id == object.job_id,
        o.kind@ == object.kind@,
{
    let mut o = object;
    o.project_id = Some(project_id);
    o
}

/// Whether the policy service's answer allows the request: without a policy
/// service nothing is allowed, and an answer without a result is a refusal.
pub fn policy_allows(service_configured: bool, result: Option<bool>) -> (allowed: bool)
    ensures
        allowed == (service_configured && result == Some(true)),
{
    if !service_configured {
        return false;
    }
    match result {
        Some(r) => r,
        None => false,
    }
}

/// A request that the policy refused.
#[derive(Copy, Clone, Debug, PartialEq, Eq, Structural)]
pub enum AuthError {
    Forbidden,
}

/// The outcome of a check once the policy has answered.
pub fn check_outcome(allowed: bool) -> (r: Result<(), AuthError>)
    ensures
        allowed <==> r is Ok,
        !allowed ==> r == Err::<(), AuthError>(AuthError::Forbidden),
{
    if allowed {
        Ok(())
    } else {
        Err(AuthError::Forbidden)
    }
}

} // verus!
