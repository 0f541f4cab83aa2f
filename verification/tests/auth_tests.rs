use waterwheel::auth::{
    check_for, check_outcome, delete, first_step, get, list, policy_allows, update, with_project,
    Action, AuthError, AuthObject, CheckStep, Principal,
};

#[test]
fn principal_keeps_the_bearer_token() {
    assert_eq!(Principal::from_bearer(Some("abc")).bearer, Some("abc".to_owned()));
    assert_eq!(Principal::from_bearer(None).bearer, None);
}

#[test]
fn checks_start_without_an_object() {
    assert_eq!(get().action, Action::Get);
    assert_eq!(list().action, Action::List);
    assert_eq!(update().action, Action::Update);
    assert_eq!(delete().action, Action::Delete);
    let c = check_for(Action::Get);
    assert_eq!(c.object, AuthObject { project_id: None, job_id: None, kind: String::new() });
}

#[test]
fn check_builders_name_the_object() {
    let c = update().job(Some(7), None);
    assert_eq!(c.action, Action::Update);
    assert_eq!(c.object, AuthObject { project_id: None, job_id: Some(7), kind: "job".to_owned() });

    let c = list().project(Some(3));
    assert_eq!(c.object, AuthObject { project_id: Some(3), job_id: None, kind: "project".to_owned() });

    let c = get().kind("status".to_owned());
    assert_eq!(c.object.kind, "status");
    assert_eq!(c.object.project_id, None);
}

#[test]
fn first_step_of_a_check() {
    let job_only = AuthObject { project_id: None, job_id: Some(7), kind: "job".to_owned() };
    assert_eq!(first_step(true, &job_only), CheckStep::Allow);
    assert_eq!(first_step(false, &job_only), CheckStep::LookupProject(7));
    let full = with_project(job_only, 3);
    assert_eq!(full.project_id, Some(3));
    assert_eq!(full.job_id, Some(7));
    assert_eq!(first_step(false, &full), CheckStep::AskPolicy);
    let status = AuthObject { project_id: None, job_id: None, kind: "status".to_owned() };
    assert_eq!(first_step(false, &status), CheckStep::AskPolicy);
}

#[test]
fn policy_answer_decides() {
    assert!(policy_allows(true, Some(true)));
    assert!(!policy_allows(true, Some(false)));
    assert!(!policy_allows(true, None));
    assert!(!policy_allows(false, Some(true)));
    assert_eq!(check_outcome(true), Ok(()));
    assert_eq!(check_outcome(false), Err(AuthError::Forbidden));
}
