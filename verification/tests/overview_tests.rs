use waterwheel::overview::{
    split_on_commas, state_filter, text_less, tokens_overview, OverviewRow, TaskStateCell,
    TokenEntry,
};
use waterwheel::requests::QueryToken;

fn entry(id: u128, name: &str, t: i64, state: &str) -> TokenEntry {
    TokenEntry { task_id: id, task_name: name.to_owned(), trigger_datetime: t, state: state.to_owned() }
}

fn cell(name: &str, id: u128, state: &str) -> TaskStateCell {
    TaskStateCell { task_name: name.to_owned(), task_id: id, state: state.to_owned() }
}

#[test]
fn strings_order_by_code_points() {
    assert!(text_less("a", "b"));
    assert!(text_less("ab", "abc"));
    assert!(!text_less("abc", "ab"));
    assert!(!text_less("same", "same"));
    assert!(text_less("Z", "a"));
    assert!(text_less("z", "é"));
}

#[test]
fn overview_groups_tokens_by_time_latest_first() {
    let entries = vec![
        entry(2, "load", 100, "success"),
        entry(1, "extract", 100, "success"),
        entry(1, "extract", 200, "running"),
        entry(2, "load", 200, "waiting"),
        entry(1, "extract", 200, "failure"),
    ];
    let o = tokens_overview(&entries);
    assert_eq!(o.tasks, vec!["extract".to_owned(), "load".to_owned()]);
    assert_eq!(
        o.tokens,
        vec![
            OverviewRow {
                trigger_datetime: 200,
                task_states: vec![cell("extract", 1, "failure"), cell("load", 2, "waiting")],
            },
            OverviewRow {
                trigger_datetime: 100,
                task_states: vec![cell("extract", 1, "success"), cell("load", 2, "success")],
            },
        ]
    );
}

#[test]
fn overview_of_nothing_is_empty() {
    let o = tokens_overview(&vec![]);
    assert!(o.tasks.is_empty());
    assert!(o.tokens.is_empty());
}

#[test]
fn commas_split_like_str_split() {
    assert_eq!(split_on_commas("a,b"), vec!["a".to_owned(), "b".to_owned()]);
    assert_eq!(split_on_commas(""), vec![String::new()]);
    assert_eq!(split_on_commas("a,"), vec!["a".to_owned(), String::new()]);
    assert_eq!(split_on_commas(",x,,y"), vec![String::new(), "x".to_owned(), String::new(), "y".to_owned()]);
}

#[test]
fn state_filter_checks_every_name() {
    assert_eq!(state_filter(None), Ok(None));
    assert_eq!(
        state_filter(Some("waiting,failure")),
        Ok(Some(vec!["waiting".to_owned(), "failure".to_owned()]))
    );
    assert_eq!(state_filter(Some("waiting,done,nope")), Err("invalid token state: 'done'".to_owned()));
    assert_eq!(state_filter(Some("")), Err("invalid token state: ''".to_owned()));
}

#[test]
fn token_query_limit_defaults_to_two_hundred() {
    let q = QueryToken { state: None, before: None, limit: None };
    assert_eq!(q.limit_or_default(), 200);
}
