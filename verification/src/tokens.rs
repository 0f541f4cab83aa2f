//! Tokens: what an activation or a finished task hands to the tasks that depend
//! on it, when a task is ready to run, and the order in which caught-up tokens
//! are sent.

use vstd::prelude::*;
use crate::api_types::Catchup;
use crate::messages::{ExecuteToken, ProcessToken, TaskPriority, Token, TokenState};
use crate::retries::{AttemptError, next_attempt};
use crate::schedule::{ScheduleError, valid_instant};
use crate::queue::TriggerTime;

verus! {

broadcast use vstd::seq_lib::group_to_multiset_ensures;

/// An edge from a trigger or a task to a dependent task: the dependent task and
/// the offset of its token in seconds (none means zero).
#[derive(Clone, Copy, Debug, PartialEq, Eq, Structural)]
pub struct Edge {
    pub task_id: u128,
    pub edge_offset: Option<i64>,
}

/// The token an edge gives for logical time `base`: the dependent task at `base`
/// plus the edge's offset (`None` when that leaves the range of a `DateTime`).
pub open spec fn edge_token(base: int, e: Edge) -> Option<Token> {
    let off = match e.edge_offset {
        Some(o) => o as int,
        None => 0,
    };
    let t = base + off * 1_000_000;
    if valid_instant(t) {
        Some(Token { task_id: e.task_id, trigger_datetime: t as i64 })
    } else {
        None
    }
}

/// The tokens for every edge, in order (`None` when one cannot be made).
pub open spec fn edge_tokens_spec(base: int, edges: Seq<Edge>) -> Option<Seq<Token>>
    decreases edges.len(),
{
    if edges.len() == 0 {
        Some(Seq::empty())
    } else {
        match edge_tokens_spec(base, edges.drop_last()) {
            None => None,
            Some(prefix) => match edge_token(base, edges.last()) {
                None => None,
                Some(t) => Some(prefix.push(t)),
            },
        }
    }
}

proof fn lemma_edge_tokens_prefix(base: int, edges: Seq<Edge>, n: int)
    requires
        0 <= n <= edges.len(),
        edge_tokens_spec(base, edges.take(n)) is None,
    ensures
        edge_tokens_spec(base, edges) is None,
    decreases edges.len() - n,
{
    if n < edges.len() {
        assert(edges.take(n + 1).drop_last() =~= edges.take(n));
        lemma_edge_tokens_prefix(base, edges, n + 1);
    } else {
        assert(edges.take(n) =~= edges);
    }
}

/// The tokens that an activation at logical time `base` (or a task run for it)
/// hands to the tasks at the other end of `edges`.
pub fn edge_tokens(base: i64, edges: &Vec<Edge>) -> (r: Result<Vec<Token>, ScheduleError>)
    ensures
        match edge_tokens_spec(base as int, edges@) {
            None => r is Err,
            Some(ts) => r matches Ok(v) && v@ == ts,
        },
{
    let mut tokens: Vec<Token> = Vec::new();
    let mut i: usize = 0;
    while i < edges.len()
        invariant
            0 <= i <= edges@.len(),
            edge_tokens_spec(base as int, edges@.take(i as int)) == Some(tokens@),
        decreases edges@.len() - i,
    {
        let e = edges[i];
        proof {
            assert(edges@.take(i + 1).drop_last() =~= edges@.take(i as int));
        }
        let off: i128 = match e.edge_offset {
            Some(o) => o as i128,
            None => 0,
        };
        let t: i128 = base as i128 + off * 1_000_000;
        if -8_334_601_315_200_000_000 <= t && t <= 8_210_266_876_799_999_999 {
            tokens.push(Token { task_id: e.task_id, trigger_datetime: t as i64 });
        } else {
            proof {
                lemma_edge_tokens_prefix(base as int, edges@, i + 1);
            }
            return Err(ScheduleError::OutOfRange);
        }
        i = i + 1;
    }
    proof {
        assert(edges@.take(i as int) =~= edges@);
    }
    Ok(tokens)
}

/// Whether a token has reached its task's threshold and may run (tokens of
/// paused jobs wait).
pub open spec fn is_ready(count: i32, threshold: i32, paused: bool) -> bool {
    !paused && count >= threshold
}

pub fn ready_to_execute(count: i32, threshold: i32, paused: bool) -> (r: bool)
    ensures
        r == is_ready(count, threshold, paused),
{
    !paused && count >= threshold
}

/// What the token processor does with a message.
#[derive(Clone, Copy, Debug, PartialEq, Eq, Structural)]
pub enum TokenAction {
    /// look up the token's count, its task's threshold and whether the job is
    /// paused, and execute it when it is ready
    CheckThreshold(Token, TaskPriority),
    /// execute the token now
    Execute(ExecuteToken),
    /// re-send every ready token of the job
    RestoreJob(u128),
    /// nothing to do
    Nothing,
}

/// The first attempt of an execution.
pub open spec fn first_attempt() -> u32 {
    1
}

/// Decides what a token message asks for.
pub fn token_action(msg: &ProcessToken) -> (a: TokenAction)
    ensures
        a == match *msg {
            ProcessToken::Increment(token, priority) => TokenAction::CheckThreshold(token, priority),
            ProcessToken::Activate(token, priority) => TokenAction::Execute(
                ExecuteToken { token, priority, attempt: first_attempt() },
            ),
            ProcessToken::Clear(_) => TokenAction::Nothing,
            ProcessToken::UnpauseJob(job) => TokenAction::RestoreJob(job),
        },
{
    match msg {
        ProcessToken::Increment(token, priority) => TokenAction::CheckThreshold(*token, *priority),
        ProcessToken::Activate(token, priority) => TokenAction::Execute(
            ExecuteToken { token: *token, priority: *priority, attempt: 1 },
        ),
        ProcessToken::Clear(_) => TokenAction::Nothing,
        ProcessToken::UnpauseJob(job) => TokenAction::RestoreJob(*job),
    }
}

/// A task run whose worker stopped sending heartbeats.
#[derive(Clone, Copy, Debug, PartialEq, Eq, Structural)]
pub struct Requeue {
    pub task_run_id: u128,
    pub task_id: u128,
    pub trigger_datetime: i64,
    pub priority: TaskPriority,
    pub attempt: i64,
    pub paused: bool,
}

/// How long a run may go without news before it counts as lost: the heartbeat
/// interval times the number of heartbeats that may be missed, in seconds.
pub fn requeue_timeout_secs(heartbeat_secs: u64, missed_heartbeats: u32) -> (t: u64)
    requires
        heartbeat_secs * missed_heartbeats <= u64::MAX,
    ensures
        t == heartbeat_secs * missed_heartbeats,
{
    heartbeat_secs * (missed_heartbeats as u64)
}

/// Whether a task run is lost: it was running (or cancelled, for a job that is
/// not paused) and has not been updated for longer than the timeout (times in
/// microseconds).
pub fn is_lost_run(state: TokenState, paused: bool, updated: i64, now: i64, timeout_secs: u64) -> (lost: bool)
    ensures
        lost == ((state == TokenState::Running || (!paused && state == TokenState::Cancelled))
            && (updated as int) < (now as int) - (timeout_secs as int) * 1_000_000),
{
    let waiting = state == TokenState::Running || (!paused && state == TokenState::Cancelled);
    let limit: i128 = (now as i128) - (timeout_secs as i128) * 1_000_000;
    waiting && (updated as i128) < limit
}

/// What to do with a lost task run: a run of a paused job is cancelled (`None`),
/// any other is executed again as its next attempt. Either way the run and its
/// token are then marked as errors.
pub fn requeue_action(r: &Requeue) -> (a: Result<Option<ExecuteToken>, AttemptError>)
    requires
        !r.paused ==> r.attempt != 0xffff_ffff,
    ensures
        r.paused ==> a == Ok::<Option<ExecuteToken>, AttemptError>(None),
        !r.paused && 0 <= r.attempt <= 0xffff_ffff ==> a == Ok::<Option<ExecuteToken>, AttemptError>(
            Some(
                ExecuteToken {
                    token: Token { task_id: r.task_id, trigger_datetime: r.trigger_datetime },
                    priority: r.priority,
                    attempt: (r.attempt + 1) as u32,
                },
            ),
        ),
        !r.paused && !(0 <= r.attempt <= 0xffff_ffff) ==> a is Err,
{
    if r.paused {
        return Ok(None);
    }
    let attempt = next_attempt(r.attempt)?;
    Ok(
        Some(
            ExecuteToken {
                token: Token { task_id: r.task_id, trigger_datetime: r.trigger_datetime },
                priority: r.priority,
                attempt,
            },
        ),
    )
}

/// Whether `a` may come before `b` in the order of a catch-up: by logical time,
/// earliest first, or latest first when `latest_first`.
pub open spec fn time_le(a: Token, b: Token, latest_first: bool) -> bool {
    if latest_first {
        a.trigger_datetime >= b.trigger_datetime
    } else {
        a.trigger_datetime <= b.trigger_datetime
    }
}

pub open spec fn in_time_order(s: Seq<Token>, latest_first: bool) -> bool {
    forall|i: int, j: int| 0 <= i < j < s.len() ==> time_le(#[trigger] s[i], #[trigger] s[j], latest_first)
}

fn may_precede(a: Token, b: Token, latest_first: bool) -> (r: bool)
    ensures
        r == time_le(a, b, latest_first),
{
    if latest_first {
        a.trigger_datetime >= b.trigger_datetime
    } else {
        a.trigger_datetime <= b.trigger_datetime
    }
}

/// The tokens of one logical time, in order.
pub open spec fn at_time(s: Seq<Token>, t: i64) -> Seq<Token> {
    s.filter(same_time(t))
}

pub open spec fn same_time(t: i64) -> spec_fn(Token) -> bool {
    |x: Token| x.trigger_datetime == t
}

/// Sorts tokens by logical time, earliest first or latest first, keeping tokens of
/// the same time in the order they came (a stable sort).
pub fn sort_by_time(tokens: Vec<Token>, latest_first: bool) -> (r: Vec<Token>)
    ensures
        in_time_order(r@, latest_first),
        forall|t: i64| #[trigger] at_time(r@, t) == at_time(tokens@, t),
        r@.to_multiset() == tokens@.to_multiset(),
{
    let mut out: Vec<Token> = Vec::new();
    let mut i: usize = 0;
    while i < tokens.len()
        invariant
            0 <= i <= tokens@.len(),
            in_time_order(out@, latest_first),
            forall|t: i64| #[trigger] at_time(out@, t) == at_time(tokens@.take(i as int), t),
            out@.to_multiset() == tokens@.take(i as int).to_multiset(),
        decreases tokens@.len() - i,
    {
        let x = tokens[i];
        // the first position whose token must come after x
        let mut p: usize = 0;
        while p < out.len() && may_precede(out[p], x, latest_first)
            invariant
                0 <= p <= out@.len(),
                forall|j: int| 0 <= j < p ==> time_le(#[trigger] out@[j], x, latest_first),
            decreases out@.len() - p,
        {
            p = p + 1;
        }
        let ghost before = out@;
        proof {
            assert forall|j: int| p <= j < before.len() implies !time_le(#[trigger] before[j], x, latest_first) by {
                assert(time_le(before[p as int], before[j], latest_first) || p == j);
            }
        }
        out.insert(p, x);
        proof {
            lemma_insert_keeps_order(before, x, p as int, latest_first);
            assert(tokens@.take(i + 1) =~= tokens@.take(i as int).push(x));
            assert forall|t: i64| #[trigger] at_time(out@, t) == at_time(tokens@.take(i + 1), t) by {
                lemma_insert_at_time(before, x, p as int, latest_first, t);
                Seq::filter_distributes_over_add(tokens@.take(i as int), seq![x], same_time(t));
                reveal_with_fuel(Seq::<_>::filter, 1);
                assert(tokens@.take(i as int).push(x) =~= tokens@.take(i as int) + seq![x]);
            }
            vstd::seq_lib::to_multiset_build(tokens@.take(i as int), x);
            assert(out@ =~= before.insert(p as int, x));
            vstd::seq_lib::to_multiset_insert(before, p as int, x);
        }
        i = i + 1;
    }
    proof {
        assert(tokens@.take(i as int) =~= tokens@);
    }
    out
}

/// Calls `rand::seq::SliceRandom::shuffle` with `rand::thread_rng()`. The order
/// it leaves is random: the contract states only that the same tokens remain.
#[verifier::external_body]
fn shuffle_tokens(tokens: &mut Vec<Token>)
    ensures
        final(tokens)@.to_multiset() == old(tokens)@.to_multiset(),
{
    rand::seq::SliceRandom::shuffle(tokens.as_mut_slice(), &mut rand::thread_rng())
}

/// The order in which the tokens of a catch-up are sent: earliest logical time
/// first, latest first, or shuffled, as the trigger's catch-up setting says
/// (tokens of one time keep their order when sorted). A trigger that does not
/// catch up has no such tokens.
pub fn order_catchup_tokens(tokens: Vec<Token>, catchup: Catchup) -> (r: Vec<Token>)
    requires
        catchup == Catchup::Skip ==> tokens@.len() == 0,
    ensures
        r@.to_multiset() == tokens@.to_multiset(),
        catchup == Catchup::Skip ==> r@ == tokens@,
        catchup == Catchup::Earliest ==> in_time_order(r@, false) && forall|t: i64| #[trigger] at_time(r@, t) == at_time(tokens@, t),
        catchup == Catchup::Latest ==> in_time_order(r@, true) && forall|t: i64| #[trigger] at_time(r@, t) == at_time(tokens@, t),
{
    match catchup {
        Catchup::Skip => tokens,
        Catchup::Earliest => sort_by_time(tokens, false),
        Catchup::Latest => sort_by_time(tokens, true),
        Catchup::Random => {
            let mut tokens = tokens;
            shuffle_tokens(&mut tokens);
            tokens
        },
    }
}

proof fn lemma_insert_keeps_order(s: Seq<Token>, x: Token, p: int, latest_first: bool)
    requires
        0 <= p <= s.len(),
        in_time_order(s, latest_first),
        forall|j: int| 0 <= j < p ==> time_le(#[trigger] s[j], x, latest_first),
        forall|j: int| p <= j < s.len() ==> !time_le(#[trigger] s[j], x, latest_first),
    ensures
        in_time_order(s.insert(p, x), latest_first),
{
    let s2 = s.insert(p, x);
    assert forall|i: int, j: int| 0 <= i < j < s2.len() implies time_le(
        #[trigger] s2[i],
        #[trigger] s2[j],
        latest_first,
    ) by {
        if j < p {
            assert(s2[i] == s[i] && s2[j] == s[j]);
        } else if j == p {
            assert(s2[i] == s[i]);
        } else if i > p {
            assert(s2[i] == s[i - 1] && s2[j] == s[j - 1]);
        } else if i == p {
            assert(s2[j] == s[j - 1]);
            assert(!time_le(s[j - 1], x, latest_first));
        } else {
            assert(s2[i] == s[i] && s2[j] == s[j - 1]);
        }
    }
}

proof fn lemma_filter_none(s: Seq<Token>, pred: spec_fn(Token) -> bool)
    requires
        forall|j: int| 0 <= j < s.len() ==> !pred(#[trigger] s[j]),
    ensures
        s.filter(pred) == Seq::<Token>::empty(),
{
    assert(s.all(|y: Token| !pred(y)));
    s.lemma_all_neg_filter_empty(pred);
    assert(s.filter(pred) =~= Seq::<Token>::empty());
}

proof fn lemma_insert_at_time(s: Seq<Token>, x: Token, p: int, latest_first: bool, t: i64)
    requires
        0 <= p <= s.len(),
        forall|j: int| p <= j < s.len() ==> !time_le(#[trigger] s[j], x, latest_first),
    ensures
        at_time(s.insert(p, x), t) == at_time(s, t) + at_time(seq![x], t),
{
    let pred = same_time(t);
    let a = s.take(p);
    reveal_with_fuel(Seq::<_>::filter, 2);
    assert(seq![x].drop_last() =~= Seq::<Token>::empty());
    assert(seq![x].filter(pred) =~= if x.trigger_datetime == t {
        seq![x]
    } else {
        Seq::<Token>::empty()
    });
    let b = s.skip(p);
    assert(s.insert(p, x) =~= a + seq![x] + b);
    assert(s =~= a + b);
    Seq::filter_distributes_over_add(a + seq![x], b, pred);
    Seq::filter_distributes_over_add(a, seq![x], pred);
    Seq::filter_distributes_over_add(a, b, pred);
    if x.trigger_datetime == t {
        assert forall|j: int| 0 <= j < b.len() implies !pred(#[trigger] b[j]) by {
            assert(b[j] == s[p + j]);
            assert(!time_le(s[p + j], x, latest_first));
        }
        lemma_filter_none(b, pred);
        assert(at_time(s.insert(p, x), t) =~= a.filter(pred) + seq![x].filter(pred));
        assert(at_time(s, t) =~= a.filter(pred));
    }
}

/// The tokens that activating a trigger at each of these times hands out: the
/// tokens of its edges for the first time, then for the second, and so on.
pub open spec fn activation_tokens_spec(times: Seq<TriggerTime>, edges: Seq<Edge>) -> Option<Seq<Token>>
    decreases times.len(),
{
    if times.len() == 0 {
        Some(Seq::empty())
    } else {
        match activation_tokens_spec(times.drop_last(), edges) {
            None => None,
            Some(a) => match edge_tokens_spec(times.last().trigger_datetime as int, edges) {
                None => None,
                Some(b) => Some(a + b),
            },
        }
    }
}

proof fn lemma_activation_tokens_stay_none(times: Seq<TriggerTime>, edges: Seq<Edge>, k: int, j: int)
    requires
        0 <= k <= j <= times.len(),
        activation_tokens_spec(times.take(k), edges) is None,
    ensures
        activation_tokens_spec(times.take(j), edges) is None,
    decreases j - k,
{
    if j > k {
        lemma_activation_tokens_stay_none(times, edges, k, j - 1);
        assert(times.take(j).drop_last() =~= times.take(j - 1));
    }
}

/// The offset of an edge's token after the logical time, in microseconds.
pub open spec fn edge_offset_micros(e: Edge) -> int {
    match e.edge_offset {
        Some(o) => o * 1_000_000,
        None => 0,
    }
}

/// The tokens of the edges at a logical time are one per edge, in order: each
/// for the edge's task, at the logical time plus the edge's offset.
pub proof fn lemma_edge_tokens_per_edge(base: int, edges: Seq<Edge>)
    ensures
        edge_tokens_spec(base, edges) matches Some(ts) ==> {
            &&& ts.len() == edges.len()
            &&& forall|j: int|
                0 <= j < edges.len() ==> {
                    &&& #[trigger] ts[j].task_id == edges[j].task_id
                    &&& ts[j].trigger_datetime == base + edge_offset_micros(edges[j])
                }
        },
    decreases edges.len(),
{
    if edges.len() > 0 {
        lemma_edge_tokens_per_edge(base, edges.drop_last());
        if let Some(ts) = edge_tokens_spec(base, edges) {
            let prefix = edge_tokens_spec(base, edges.drop_last())->0;
            assert forall|j: int| 0 <= j < edges.len() implies {
                &&& #[trigger] ts[j].task_id == edges[j].task_id
                &&& ts[j].trigger_datetime == base + edge_offset_micros(edges[j])
            } by {
                if j < edges.len() - 1 {
                    assert(ts[j] == prefix[j]);
                    assert(edges[j] == edges.drop_last()[j]);
                }
            }
        }
    }
}

/// Activating a trigger at some times hands out, for each time in order, one
/// token per edge: the token of edge `j` at the `i`-th time is for the edge's
/// task, at that activation's logical time (not its due time) plus the edge's
/// offset.
pub proof fn lemma_activation_tokens_layout(times: Seq<TriggerTime>, edges: Seq<Edge>)
    ensures
        activation_tokens_spec(times, edges) matches Some(ts) ==> {
            &&& ts.len() == times.len() * edges.len()
            &&& forall|i: int, j: int|
                0 <= i < times.len() && 0 <= j < edges.len() ==> {
                    &&& (#[trigger] ts[i * edges.len() + j]).task_id == edges[j].task_id
                    &&& ts[i * edges.len() + j].trigger_datetime == times[i].trigger_datetime + edge_offset_micros(edges[j])
                }
        },
    decreases times.len(),
{
    let m = edges.len() as int;
    if times.len() > 0 {
        let n = times.len() as int;
        lemma_activation_tokens_layout(times.drop_last(), edges);
        lemma_edge_tokens_per_edge(times.last().trigger_datetime as int, edges);
        if let Some(ts) = activation_tokens_spec(times, edges) {
            let a = activation_tokens_spec(times.drop_last(), edges)->0;
            let b = edge_tokens_spec(times.last().trigger_datetime as int, edges)->0;
            assert(ts == a + b);
            assert(a.len() == (n - 1) * m);
            assert(ts.len() == n * m) by (nonlinear_arith)
                requires
                    ts.len() == a.len() + b.len(),
                    a.len() == (n - 1) * m,
                    b.len() == m,
            ;
            assert forall|i: int, j: int| 0 <= i < n && 0 <= j < m implies {
                &&& (#[trigger] ts[i * m + j]).task_id == edges[j].task_id
                &&& ts[i * m + j].trigger_datetime == times[i].trigger_datetime + edge_offset_micros(edges[j])
            } by {
                if i < n - 1 {
                    assert(i * m + j < (n - 1) * m) by (nonlinear_arith)
                        requires
                            0 <= i < n - 1,
                            0 <= j < m,
                    ;
                    assert(0 <= i * m + j) by (nonlinear_arith)
                        requires
                            0 <= i,
                            0 <= j,
                            m >= 0,
                    ;
                    assert(ts[i * m + j] == a[i * m + j]);
                    assert(times[i] == times.drop_last()[i]);
                    assert(a[i * m + j].task_id == edges[j].task_id);
                    assert(a[i * m + j].trigger_datetime == times.drop_last()[i].trigger_datetime + edge_offset_micros(edges[j]));
                } else {
                    assert(i * m + j - (n - 1) * m == j) by (nonlinear_arith)
                        requires
                            i == n - 1,
                    ;
                    assert(ts[i * m + j] == b[j]);
                    assert(b[j].task_id == edges[j].task_id);
                    assert(times.last() == times[i]);
                }
            }
        }
    }
}

/// The tokens that activating a trigger with these edges at each of these
/// times hands out, in order.
pub fn activation_tokens(times: &Vec<TriggerTime>, edges: &Vec<Edge>) -> (r: Result<Vec<Token>, ScheduleError>)
    ensures
        match activation_tokens_spec(times@, edges@) {
            None => r is Err,
            Some(ts) => r matches Ok(v) && v@ == ts,
        },
{
    let mut out: Vec<Token> = Vec::new();
    let mut i: usize = 0;
    proof {
        assert(times@.take(0) =~= Seq::<TriggerTime>::empty());
    }
    while i < times.len()
        invariant
            0 <= i <= times@.len(),
            activation_tokens_spec(times@.take(i as int), edges@) == Some(out@),
        decreases times@.len() - i,
    {
        proof {
            assert(times@.take(i + 1).drop_last() =~= times@.take(i as int));
        }
        let mut more = match edge_tokens(times[i].trigger_datetime, edges) {
            Ok(v) => v,
            Err(e) => {
                proof {
                    lemma_activation_tokens_stay_none(times@, edges@, i + 1, times@.len() as int);
                    assert(times@.take(times@.len() as int) =~= times@);
                }
                return Err(e);
            },
        };
        out.append(&mut more);
        i = i + 1;
    }
    proof {
        assert(times@.take(times@.len() as int) =~= times@);
    }
    Ok(out)
}

/// Each token handed to the token processor as an increment at this priority.
pub open spec fn increments(ts: Seq<Token>, priority: TaskPriority) -> Seq<ProcessToken> {
    ts.map_values(|t: Token| ProcessToken::Increment(t, priority))
}

/// The messages that hand tokens to the token processor: an increment of each
/// token, in order, at the priority of the work that made them.
pub fn increment_messages(tokens: Vec<Token>, priority: TaskPriority) -> (r: Vec<ProcessToken>)
    ensures
        r@ == increments(tokens@, priority),
{
    let mut out: Vec<ProcessToken> = Vec::new();
    let mut i: usize = 0;
    while i < tokens.len()
        invariant
            0 <= i <= tokens@.len(),
            out@ == increments(tokens@.take(i as int), priority),
        decreases tokens@.len() - i,
    {
        out.push(ProcessToken::Increment(tokens[i], priority));
        i = i + 1;
        proof {
            assert(increments(tokens@.take(i as int), priority) =~= increments(tokens@.take(i - 1), priority).push(
                ProcessToken::Increment(tokens@[i - 1], priority),
            ));
        }
    }
    proof {
        assert(tokens@.take(tokens@.len() as int) =~= tokens@);
    }
    out
}

/// The catch-up order: the same tokens, and for the earliest or latest setting
/// sorted by logical time (tokens of one time in their order), unchanged when
/// the trigger does not catch up.
pub open spec fn catchup_order(o: Seq<Token>, ts: Seq<Token>, catchup: Catchup) -> bool {
    &&& o.to_multiset() == ts.to_multiset()
    &&& catchup == Catchup::Skip ==> o == ts
    &&& catchup == Catchup::Earliest ==> in_time_order(o, false) && forall|t: i64| #[trigger] at_time(o, t) == at_time(ts, t)
    &&& catchup == Catchup::Latest ==> in_time_order(o, true) && forall|t: i64| #[trigger] at_time(o, t) == at_time(ts, t)
}

/// What catching a trigger up sends to the token processor: the tokens of its
/// activations (with the trigger's edges), in the order the catch-up setting
/// asks, each as an increment at backfill priority. A trigger that does not
/// catch up has no activations to catch up.
pub fn catchup_messages(activations: &Vec<TriggerTime>, edges: &Vec<Edge>, catchup: Catchup) -> (r: Result<Vec<ProcessToken>, ScheduleError>)
    requires
        catchup == Catchup::Skip ==> activations@.len() == 0,
    ensures
        match activation_tokens_spec(activations@, edges@) {
            None => r is Err,
            Some(ts) => r matches Ok(m) && exists|o: Seq<Token>|
                #[trigger] increments(o, TaskPriority::BackFill) == m@ && catchup_order(o, ts, catchup),
        },
{
    let tokens = activation_tokens(activations, edges)?;
    proof {
        if catchup == Catchup::Skip {
            assert(activations@ =~= Seq::<TriggerTime>::empty());
            assert(tokens@ =~= Seq::<Token>::empty());
        }
    }
    let ordered = order_catchup_tokens(tokens, catchup);
    let ghost o = ordered@;
    let messages = increment_messages(ordered, TaskPriority::BackFill);
    proof {
        assert(catchup_order(o, tokens@, catchup));
    }
    Ok(messages)
}

} // verus!
