use waterwheel::api_types::Catchup;
use waterwheel::messages::{ExecuteToken, ProcessToken, TaskPriority, Token, TokenState};
use waterwheel::rendezvous::{id_key, Rendezvous};
use waterwheel::scheduler::{cluster_trigger_changes, contains_id, ids_not_in, owned_triggers};
use waterwheel::queue::TriggerTime;
use waterwheel::tokens::{
    activation_tokens, catchup_messages, increment_messages, edge_tokens, is_lost_run, order_catchup_tokens, requeue_timeout_secs, ready_to_execute, requeue_action, sort_by_time, token_action,
    Edge, Requeue, TokenAction,
};

fn tok(task: u128, t: i64) -> Token {
    Token { task_id: task, trigger_datetime: t }
}

#[test]
fn edges_hand_tokens_on_with_offsets() {
    let edges = vec![
        Edge { task_id: 1, edge_offset: None },
        Edge { task_id: 2, edge_offset: Some(60) },
        Edge { task_id: 3, edge_offset: Some(-1) },
    ];
    assert_eq!(
        edge_tokens(1_000_000_000, &edges).unwrap(),
        vec![tok(1, 1_000_000_000), tok(2, 1_060_000_000), tok(3, 999_000_000)]
    );
    let far = vec![Edge { task_id: 1, edge_offset: Some(i64::MAX) }];
    assert!(edge_tokens(0, &far).is_err());
}

#[test]
fn tokens_run_when_the_threshold_is_met() {
    assert!(ready_to_execute(2, 2, false));
    assert!(ready_to_execute(3, 2, false));
    assert!(!ready_to_execute(1, 2, false));
    assert!(!ready_to_execute(5, 2, true));
}

#[test]
fn token_messages() {
    let t = tok(4, 100);
    assert_eq!(
        token_action(&ProcessToken::Increment(t, TaskPriority::Low)),
        TokenAction::CheckThreshold(t, TaskPriority::Low)
    );
    assert_eq!(
        token_action(&ProcessToken::Activate(t, TaskPriority::High)),
        TokenAction::Execute(ExecuteToken { token: t, priority: TaskPriority::High, attempt: 1 })
    );
    assert_eq!(token_action(&ProcessToken::Clear(t)), TokenAction::Nothing);
    assert_eq!(token_action(&ProcessToken::UnpauseJob(9)), TokenAction::RestoreJob(9));
}

#[test]
fn lost_runs_are_requeued_unless_paused() {
    let r = Requeue {
        task_run_id: 1,
        task_id: 4,
        trigger_datetime: 100,
        priority: TaskPriority::Normal,
        attempt: 1,
        paused: false,
    };
    assert_eq!(
        requeue_action(&r),
        Ok(Some(ExecuteToken { token: tok(4, 100), priority: TaskPriority::Normal, attempt: 2 }))
    );
    let paused = Requeue { paused: true, ..r };
    assert_eq!(requeue_action(&paused), Ok(None));
}

#[test]
fn catchup_order_by_time_is_stable() {
    let tokens = vec![tok(1, 30), tok(2, 10), tok(3, 30), tok(4, 20)];
    assert_eq!(
        sort_by_time(tokens.clone(), false),
        vec![tok(2, 10), tok(4, 20), tok(1, 30), tok(3, 30)]
    );
    assert_eq!(
        order_catchup_tokens(tokens.clone(), Catchup::Latest),
        vec![tok(1, 30), tok(3, 30), tok(4, 20), tok(2, 10)]
    );
    let mut shuffled = order_catchup_tokens(tokens.clone(), Catchup::Random);
    shuffled.sort_by_key(|t| t.task_id);
    let mut expected = tokens.clone();
    expected.sort_by_key(|t| t.task_id);
    assert_eq!(shuffled, expected);
    assert!(order_catchup_tokens(vec![], Catchup::Skip).is_empty());
}

#[test]
fn id_bytes_are_big_endian() {
    assert_eq!(id_key(0x0102), vec![0, 0, 0, 0, 0, 0, 0, 0, 0, 0, 0, 0, 0, 0, 1, 2]);
}

#[test]
fn members_split_the_triggers() {
    let mut cluster = Rendezvous::with_me("ServerA".to_owned());
    cluster.add_node("ServerB".to_owned());
    let all: Vec<u128> = (1..=20).collect();
    let a = owned_triggers(&cluster, "ServerA", &all);
    let b = owned_triggers(&cluster, "ServerB", &all);
    assert_eq!(a.len() + b.len(), 20);
    for id in &all {
        assert!(contains_id(&a, *id) != contains_id(&b, *id));
        let owner = cluster.node_for_item(id_key(*id).as_slice()).unwrap();
        assert_eq!(contains_id(&a, *id), owner == "ServerA");
    }
}

#[test]
fn membership_change_moves_triggers() {
    let mut cluster = Rendezvous::with_me("ServerA".to_owned());
    cluster.add_node("ServerB".to_owned());
    let all: Vec<u128> = (1..=20).collect();
    let current = owned_triggers(&Rendezvous::with_me("ServerA".to_owned()), "ServerA", &all);
    assert_eq!(current, all);
    let c = cluster_trigger_changes(&cluster, "ServerA", &current, &all);
    assert_eq!(c.owned, owned_triggers(&cluster, "ServerA", &all));
    assert_eq!(c.to_remove, ids_not_in(&all, &c.owned));
    assert!(c.to_add.is_empty());
    assert_eq!(c.owned.len() + c.to_remove.len(), 20);
}

#[test]
fn ids_not_in_keeps_order() {
    assert_eq!(ids_not_in(&vec![5, 1, 4, 2], &vec![4, 7]), vec![5, 1, 2]);
    assert!(contains_id(&vec![3, 9], 9));
    assert!(!contains_id(&vec![], 9));
}

#[test]
fn lost_runs_are_found_after_missed_heartbeats() {
    let timeout = requeue_timeout_secs(30, 4);
    assert_eq!(timeout, 120);
    let now = 1_000_000_000;
    assert!(is_lost_run(TokenState::Running, false, now - 121_000_000, now, timeout));
    assert!(!is_lost_run(TokenState::Running, false, now - 119_000_000, now, timeout));
    assert!(is_lost_run(TokenState::Running, true, now - 121_000_000, now, timeout));
    assert!(is_lost_run(TokenState::Cancelled, false, now - 121_000_000, now, timeout));
    assert!(!is_lost_run(TokenState::Cancelled, true, now - 121_000_000, now, timeout));
    assert!(!is_lost_run(TokenState::Success, false, now - 121_000_000, now, timeout));
}

fn at(t: i64) -> TriggerTime {
    TriggerTime { scheduled_datetime: t, trigger_id: 7, trigger_datetime: t }
}

#[test]
fn activations_hand_out_the_tokens_of_each_time_in_turn() {
    let edges = vec![Edge { task_id: 1, edge_offset: None }, Edge { task_id: 2, edge_offset: Some(60) }];
    let tokens = activation_tokens(&vec![at(0), at(3_600_000_000)], &edges).unwrap();
    assert_eq!(tokens, vec![tok(1, 0), tok(2, 60_000_000), tok(1, 3_600_000_000), tok(2, 3_660_000_000)]);
    assert_eq!(
        increment_messages(vec![tok(1, 0)], TaskPriority::Normal),
        vec![ProcessToken::Increment(tok(1, 0), TaskPriority::Normal)]
    );
}

#[test]
fn catchup_sends_backfill_increments_in_catchup_order() {
    let edges = vec![Edge { task_id: 1, edge_offset: None }];
    let times = vec![at(0), at(10), at(20)];
    let latest = catchup_messages(&times, &edges, Catchup::Latest).unwrap();
    assert_eq!(
        latest,
        vec![
            ProcessToken::Increment(tok(1, 20), TaskPriority::BackFill),
            ProcessToken::Increment(tok(1, 10), TaskPriority::BackFill),
            ProcessToken::Increment(tok(1, 0), TaskPriority::BackFill),
        ]
    );
    let earliest = catchup_messages(&times, &edges, Catchup::Earliest).unwrap();
    assert_eq!(earliest[0], ProcessToken::Increment(tok(1, 0), TaskPriority::BackFill));
    let random = catchup_messages(&times, &edges, Catchup::Random).unwrap();
    assert_eq!(random.len(), 3);
    assert!(catchup_messages(&vec![], &edges, Catchup::Skip).unwrap().is_empty());
}
