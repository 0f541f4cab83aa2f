//! The tokens overview of a job: for each logical time, latest first, the state
//! of the token of each task, and the names of all tasks that appear.
//!
//! Names are ordered as Rust orders strings: by their characters' code points,
//! a prefix first.

use vstd::prelude::*;
use vstd::string::*;
use crate::messages::{TokenState, invalid_state_message, token_state_named};

verus! {

/// Whether `a` comes strictly before `b` in the order of strings.
pub open spec fn text_lt(a: Seq<char>, b: Seq<char>) -> bool
    decreases a.len(),
{
    if b.len() == 0 {
        false
    } else if a.len() == 0 {
        true
    } else if a[0] != b[0] {
        (a[0] as int) < (b[0] as int)
    } else {
        text_lt(a.drop_first(), b.drop_first())
    }
}

/// No string comes before itself.
pub proof fn lemma_text_lt_irreflexive(a: Seq<char>)
    ensures
        !text_lt(a, a),
    decreases a.len(),
{
    if a.len() > 0 {
        lemma_text_lt_irreflexive(a.drop_first());
    }
}

/// The order of strings is transitive.
pub proof fn lemma_text_lt_transitive(a: Seq<char>, b: Seq<char>, c: Seq<char>)
    requires
        text_lt(a, b),
        text_lt(b, c),
    ensures
        text_lt(a, c),
    decreases a.len(),
{
    if a.len() > 0 && b.len() > 0 && c.len() > 0 && a[0] == b[0] && b[0] == c[0] {
        lemma_text_lt_transitive(a.drop_first(), b.drop_first(), c.drop_first());
    }
}

/// Of two different strings, one comes before the other.
pub proof fn lemma_text_lt_total(a: Seq<char>, b: Seq<char>)
    requires
        a != b,
    ensures
        text_lt(a, b) || text_lt(b, a),
    decreases a.len(),
{
    if a.len() > 0 && b.len() > 0 && a[0] == b[0] {
        if a.drop_first() == b.drop_first() {
            assert(a =~= seq![a[0]] + a.drop_first());
            assert(b =~= seq![b[0]] + b.drop_first());
        }
        lemma_text_lt_total(a.drop_first(), b.drop_first());
    } else if a.len() == 0 && b.len() == 0 {
        assert(a =~= b);
    }
}

/// Whether `a` comes strictly before `b`.
pub fn text_less(a: &str, b: &str) -> (r: bool)
    ensures
        r == text_lt(a@, b@),
{
    let n = a.unicode_len();
    let m = b.unicode_len();
    let mut i: usize = 0;
    proof {
        assert(a@.skip(0) =~= a@);
        assert(b@.skip(0) =~= b@);
    }
    while i < n && i < m
        invariant
            0 <= i <= n,
            i <= m,
            n == a@.len(),
            m == b@.len(),
            text_lt(a@, b@) == text_lt(a@.skip(i as int), b@.skip(i as int)),
        decreases n - i,
    {
        let x = a.get_char(i);
        let y = b.get_char(i);
        proof {
            assert(a@.skip(i as int)[0] == x);
            assert(b@.skip(i as int)[0] == y);
            assert(a@.skip(i as int).drop_first() =~= a@.skip(i + 1));
            assert(b@.skip(i as int).drop_first() =~= b@.skip(i + 1));
        }
        if x != y {
            return (x as u32) < (y as u32);
        }
        i = i + 1;
    }
    proof {
        assert(a@.skip(i as int).len() == n - i);
        assert(b@.skip(i as int).len() == m - i);
    }
    i < m
}

/// Strictly increasing names.
pub open spec fn names_sorted(v: Seq<String>) -> bool {
    forall|i: int, j: int| 0 <= i < j < v.len() ==> text_lt(#[trigger] v[i]@, #[trigger] v[j]@)
}

/// Whether a name occurs among `v`.
pub open spec fn has_text(v: Seq<String>, n: Seq<char>) -> bool {
    exists|i: int| 0 <= i < v.len() && #[trigger] v[i]@ == n
}

/// The first position whose name does not come before `name`.
fn name_position(v: &Vec<String>, name: &str) -> (p: usize)
    requires
        names_sorted(v@),
    ensures
        p <= v@.len(),
        forall|i: int| 0 <= i < p ==> text_lt(#[trigger] v@[i]@, name@),
        forall|i: int| p <= i < v@.len() ==> !text_lt(#[trigger] v@[i]@, name@),
{
    let mut p: usize = 0;
    while p < v.len() && text_less(v[p].as_str(), name)
        invariant
            0 <= p <= v@.len(),
            names_sorted(v@),
            forall|i: int| 0 <= i < p ==> text_lt(#[trigger] v@[i]@, name@),
        decreases v@.len() - p,
    {
        p = p + 1;
    }
    proof {
        if p < v@.len() {
            assert forall|i: int| p <= i < v@.len() implies !text_lt(#[trigger] v@[i]@, name@) by {
                if i > p && text_lt(v@[i]@, name@) {
                    lemma_text_lt_transitive(v@[p as int]@, v@[i]@, name@);
                }
            }
        }
    }
    p
}

/// Adds a name to sorted distinct names, unless it is there already.
fn add_name(v: &mut Vec<String>, name: &String)
    requires
        names_sorted(old(v)@),
    ensures
        names_sorted(final(v)@),
        forall|n: Seq<char>| has_text(final(v)@, n) <==> (has_text(old(v)@, n) || n == name@),
{
    let p = name_position(v, name.as_str());
    if p < v.len() && crate::messages::str_eq(v[p].as_str(), name.as_str()) {
        return;
    }
    let ghost old_v = v@;
    proof {
        if p < v@.len() {
            lemma_text_lt_total(v@[p as int]@, name@);
        }
    }
    v.insert(p, name.clone());
    proof {
        assert(v@[p as int]@ == name@);
        assert forall|i: int, j: int| 0 <= i < j < v@.len() implies text_lt(#[trigger] v@[i]@, #[trigger] v@[j]@) by {
            if j < p {
                assert(v@[i] == old_v[i] && v@[j] == old_v[j]);
            } else if j == p {
                assert(v@[i] == old_v[i]);
            } else if i == p {
                assert(v@[j] == old_v[j - 1]);
                if j - 1 > p {
                    lemma_text_lt_transitive(name@, old_v[p as int]@, old_v[j - 1]@);
                }
            } else if i < p {
                assert(v@[i] == old_v[i] && v@[j] == old_v[j - 1]);
                if j - 1 >= p {
                    lemma_text_lt_transitive(old_v[i]@, name@, old_v[p as int]@);
                    if j - 1 > p {
                        lemma_text_lt_transitive(old_v[i]@, old_v[p as int]@, old_v[j - 1]@);
                    }
                }
            } else {
                assert(v@[i] == old_v[i - 1] && v@[j] == old_v[j - 1]);
            }
        }
        assert forall|n: Seq<char>| has_text(v@, n) <==> (has_text(old_v, n) || n == name@) by {
            if has_text(v@, n) {
                let i = choose|i: int| 0 <= i < v@.len() && #[trigger] v@[i]@ == n;
                if i < p {
                    assert(old_v[i]@ == n);
                } else if i > p {
                    assert(old_v[i - 1]@ == n);
                }
            }
            if has_text(old_v, n) {
                let i = choose|i: int| 0 <= i < old_v.len() && #[trigger] old_v[i]@ == n;
                if i < p {
                    assert(v@[i]@ == n);
                } else {
                    assert(v@[i + 1]@ == n);
                }
            }
            if n == name@ {
                assert(v@[p as int]@ == n);
            }
        }
    }
}

/// A token of a job as the overview reads it.
#[derive(Debug, PartialEq, Eq)]
pub struct TokenEntry {
    pub task_id: u128,
    pub task_name: String,
    pub trigger_datetime: i64,
    pub state: String,
}

/// The state of one task's token at one logical time.
#[derive(Debug, PartialEq, Eq)]
pub struct TaskStateCell {
    pub task_name: String,
    pub task_id: u128,
    pub state: String,
}

/// The tokens of one logical time, by task name.
#[derive(Debug, PartialEq, Eq)]
pub struct OverviewRow {
    pub trigger_datetime: i64,
    pub task_states: Vec<TaskStateCell>,
}

/// The overview: the rows, latest time first, and the task names.
#[derive(Debug, PartialEq, Eq)]
pub struct TokensOverview {
    pub tokens: Vec<OverviewRow>,
    pub tasks: Vec<String>,
}

/// The id and the state of the last token in `s` of the task named `n` at time
/// `t` (a later token of the same task and time replaces an earlier one).
pub open spec fn latest_at(s: Seq<TokenEntry>, t: i64, n: Seq<char>) -> Option<(u128, Seq<char>)>
    decreases s.len(),
{
    if s.len() == 0 {
        None
    } else if s.last().trigger_datetime == t && s.last().task_name@ == n {
        Some((s.last().task_id, s.last().state@))
    } else {
        latest_at(s.drop_last(), t, n)
    }
}

proof fn lemma_latest_at_has_time(s: Seq<TokenEntry>, t: i64, n: Seq<char>)
    requires
        latest_at(s, t, n) is Some,
    ensures
        exists|k: int| 0 <= k < s.len() && #[trigger] s[k].trigger_datetime == t,
    decreases s.len(),
{
    if s.last().trigger_datetime == t && s.last().task_name@ == n {
        assert(s[s.len() - 1].trigger_datetime == t);
    } else {
        lemma_latest_at_has_time(s.drop_last(), t, n);
        let k = choose|k: int| 0 <= k < s.drop_last().len() && #[trigger] s.drop_last()[k].trigger_datetime == t;
        assert(s[k].trigger_datetime == t);
    }
}

pub open spec fn cells_sorted(c: Seq<TaskStateCell>) -> bool {
    forall|i: int, j: int| 0 <= i < j < c.len() ==> text_lt(#[trigger] c[i].task_name@, #[trigger] c[j].task_name@)
}

/// Whether a cell says that the task named `n` has the token `id` in state `st`.
pub open spec fn has_cell(c: Seq<TaskStateCell>, n: Seq<char>, id: u128, st: Seq<char>) -> bool {
    exists|i: int| 0 <= i < c.len() && #[trigger] c[i].task_name@ == n && c[i].task_id == id && c[i].state@ == st
}

fn cell_position(c: &Vec<TaskStateCell>, name: &str) -> (p: usize)
    requires
        cells_sorted(c@),
    ensures
        p <= c@.len(),
        forall|i: int| 0 <= i < p ==> text_lt(#[trigger] c@[i].task_name@, name@),
        forall|i: int| p <= i < c@.len() ==> !text_lt(#[trigger] c@[i].task_name@, name@),
{
    let mut p: usize = 0;
    while p < c.len() && text_less(c[p].task_name.as_str(), name)
        invariant
            0 <= p <= c@.len(),
            cells_sorted(c@),
            forall|i: int| 0 <= i < p ==> text_lt(#[trigger] c@[i].task_name@, name@),
        decreases c@.len() - p,
    {
        p = p + 1;
    }
    proof {
        if p < c@.len() {
            assert forall|i: int| p <= i < c@.len() implies !text_lt(#[trigger] c@[i].task_name@, name@) by {
                if i > p && text_lt(c@[i].task_name@, name@) {
                    lemma_text_lt_transitive(c@[p as int].task_name@, c@[i].task_name@, name@);
                }
            }
        }
    }
    p
}

proof fn lemma_cells_unique(c: Seq<TaskStateCell>, i: int, j: int)
    requires
        cells_sorted(c),
        0 <= i < c.len(),
        0 <= j < c.len(),
        c[i].task_name@ == c[j].task_name@,
    ensures
        i == j,
{
    if i < j {
        lemma_text_lt_irreflexive(c[i].task_name@);
    } else if j < i {
        lemma_text_lt_irreflexive(c[i].task_name@);
    }
}

/// Records the token of an entry in the cells of its time: its task's cell now
/// holds it, every other cell stays.
fn put_cell(c: &mut Vec<TaskStateCell>, e: &TokenEntry)
    requires
        cells_sorted(old(c)@),
    ensures
        cells_sorted(final(c)@),
        forall|n: Seq<char>, id: u128, st: Seq<char>| #[trigger] has_cell(final(c)@, n, id, st) <==> if n == e.task_name@ {
            id == e.task_id && st == e.state@
        } else {
            has_cell(old(c)@, n, id, st)
        },
{
    let ghost old_c = c@;
    let ghost name = e.task_name@;
    let p = cell_position(c, e.task_name.as_str());
    let cell = TaskStateCell { task_name: e.task_name.clone(), task_id: e.task_id, state: e.state.clone() };
    if p < c.len() && crate::messages::str_eq(c[p].task_name.as_str(), e.task_name.as_str()) {
        c.set(p, cell);
        proof {
            assert forall|i: int, j: int| 0 <= i < j < c@.len() implies text_lt(#[trigger] c@[i].task_name@, #[trigger] c@[j].task_name@) by {
                assert(c@[i].task_name@ == old_c[i].task_name@);
                assert(c@[j].task_name@ == old_c[j].task_name@);
            }
            assert forall|n: Seq<char>, id: u128, st: Seq<char>| #[trigger] has_cell(c@, n, id, st) <==> if n == name {
                id == e.task_id && st == e.state@
            } else {
                has_cell(old_c, n, id, st)
            } by {
                if has_cell(c@, n, id, st) {
                    let i = choose|i: int| 0 <= i < c@.len() && #[trigger] c@[i].task_name@ == n && c@[i].task_id == id && c@[i].state@ == st;
                    if i != p {
                        assert(c@[i] == old_c[i]);
                        if n == name {
                            lemma_cells_unique(old_c, i, p as int);
                        }
                    }
                }
                if n == name && id == e.task_id && st == e.state@ {
                    assert(c@[p as int].task_name@ == n);
                }
                if n != name && has_cell(old_c, n, id, st) {
                    let i = choose|i: int| 0 <= i < old_c.len() && #[trigger] old_c[i].task_name@ == n && old_c[i].task_id == id && old_c[i].state@ == st;
                    assert(i != p);
                    assert(c@[i] == old_c[i]);
                }
            }
        }
    } else {
        proof {
            if p < c@.len() {
                lemma_text_lt_total(c@[p as int].task_name@, name);
            }
        }
        c.insert(p, cell);
        proof {
            assert(c@[p as int].task_name@ == name);
            assert forall|i: int, j: int| 0 <= i < j < c@.len() implies text_lt(#[trigger] c@[i].task_name@, #[trigger] c@[j].task_name@) by {
                if j < p {
                    assert(c@[i] == old_c[i] && c@[j] == old_c[j]);
                } else if j == p {
                    assert(c@[i] == old_c[i]);
                } else if i == p {
                    assert(c@[j] == old_c[j - 1]);
                    if j - 1 > p {
                        lemma_text_lt_transitive(name, old_c[p as int].task_name@, old_c[j - 1].task_name@);
                    }
                } else if i < p {
                    assert(c@[i] == old_c[i] && c@[j] == old_c[j - 1]);
                    lemma_text_lt_transitive(old_c[i].task_name@, name, old_c[p as int].task_name@);
                    if j - 1 > p {
                        lemma_text_lt_transitive(old_c[i].task_name@, old_c[p as int].task_name@, old_c[j - 1].task_name@);
                    }
                } else {
                    assert(c@[i] == old_c[i - 1] && c@[j] == old_c[j - 1]);
                }
            }
            assert forall|n: Seq<char>, id: u128, st: Seq<char>| #[trigger] has_cell(c@, n, id, st) <==> if n == name {
                id == e.task_id && st == e.state@
            } else {
                has_cell(old_c, n, id, st)
            } by {
                if has_cell(c@, n, id, st) {
                    let i = choose|i: int| 0 <= i < c@.len() && #[trigger] c@[i].task_name@ == n && c@[i].task_id == id && c@[i].state@ == st;
                    if i < p {
                        assert(c@[i] == old_c[i]);
                        if n == name {
                            lemma_text_lt_irreflexive(name);
                        }
                    } else if i > p {
                        assert(c@[i] == old_c[i - 1]);
                        if n == name {
                            lemma_text_lt_irreflexive(name);
                        }
                    }
                }
                if n == name && id == e.task_id && st == e.state@ {
                    assert(c@[p as int].task_name@ == n);
                }
                if has_cell(old_c, n, id, st) {
                    let i = choose|i: int| 0 <= i < old_c.len() && #[trigger] old_c[i].task_name@ == n && old_c[i].task_id == id && old_c[i].state@ == st;
                    if i < p {
                        assert(c@[i] == old_c[i]);
                    } else {
                        assert(c@[i + 1] == old_c[i]);
                    }
                }
            }
        }
    }
}

pub open spec fn rows_sorted(r: Seq<OverviewRow>) -> bool {
    forall|i: int, j: int| 0 <= i < j < r.len() ==> #[trigger] r[i].trigger_datetime > #[trigger] r[j].trigger_datetime
}

pub open spec fn has_row(r: Seq<OverviewRow>, t: i64) -> bool {
    exists|i: int| 0 <= i < r.len() && #[trigger] r[i].trigger_datetime == t
}

pub open spec fn has_entry_at(s: Seq<TokenEntry>, t: i64) -> bool {
    exists|k: int| 0 <= k < s.len() && #[trigger] s[k].trigger_datetime == t
}

/// The rows are the overview of the tokens `s`: one row per logical time that
/// occurs, latest first, each holding the latest token of each task at its time.
pub open spec fn rows_match(s: Seq<TokenEntry>, r: Seq<OverviewRow>) -> bool {
    &&& rows_sorted(r)
    &&& forall|t: i64| #[trigger] has_row(r, t) <==> has_entry_at(s, t)
    &&& forall|i: int| 0 <= i < r.len() ==> cells_sorted(#[trigger] r[i].task_states@)
    &&& forall|i: int, n: Seq<char>, id: u128, st: Seq<char>| 0 <= i < r.len() ==> (#[trigger] has_cell(
        r[i].task_states@,
        n,
        id,
        st,
    ) <==> latest_at(s, r[i].trigger_datetime, n) == Some((id, st)))
}

proof fn lemma_latest_at_push(s: Seq<TokenEntry>, e: TokenEntry, t: i64, n: Seq<char>)
    ensures
        latest_at(s.push(e), t, n) == if e.trigger_datetime == t && e.task_name@ == n {
            Some((e.task_id, e.state@))
        } else {
            latest_at(s, t, n)
        },
{
    assert(s.push(e).drop_last() =~= s);
}

fn row_position(r: &Vec<OverviewRow>, t: i64) -> (p: usize)
    requires
        rows_sorted(r@),
    ensures
        p <= r@.len(),
        forall|i: int| 0 <= i < p ==> #[trigger] r@[i].trigger_datetime > t,
        forall|i: int| p <= i < r@.len() ==> #[trigger] r@[i].trigger_datetime <= t,
{
    let mut p: usize = 0;
    while p < r.len() && r[p].trigger_datetime > t
        invariant
            0 <= p <= r@.len(),
            rows_sorted(r@),
            forall|i: int| 0 <= i < p ==> #[trigger] r@[i].trigger_datetime > t,
        decreases r@.len() - p,
    {
        p = p + 1;
    }
    proof {
        if p < r@.len() {
            assert forall|i: int| p <= i < r@.len() implies #[trigger] r@[i].trigger_datetime <= t by {
                if i > p {
                    assert(r@[p as int].trigger_datetime > r@[i].trigger_datetime);
                }
            }
        }
    }
    p
}

/// Adds one token to the overview of the tokens before it.
fn add_entry(r: &mut Vec<OverviewRow>, e: &TokenEntry, Ghost(s): Ghost<Seq<TokenEntry>>)
    requires
        rows_match(s, old(r)@),
    ensures
        rows_match(s.push(*e), final(r)@),
{
    let ghost old_r = r@;
    let ghost s2 = s.push(*e);
    let t = e.trigger_datetime;
    let p = row_position(r, t);
    proof {
        assert forall|t2: i64, n: Seq<char>| #[trigger] latest_at(s2, t2, n) == if e.trigger_datetime == t2 && e.task_name@ == n {
            Some((e.task_id, e.state@))
        } else {
            latest_at(s, t2, n)
        } by {
            lemma_latest_at_push(s, *e, t2, n);
        }
        assert forall|t2: i64| #[trigger] has_entry_at(s2, t2) <==> (has_entry_at(s, t2) || t2 == t) by {
            if has_entry_at(s2, t2) {
                let k = choose|k: int| 0 <= k < s2.len() && #[trigger] s2[k].trigger_datetime == t2;
                if k < s.len() {
                    assert(s[k] == s2[k]);
                }
            }
            if has_entry_at(s, t2) {
                let k = choose|k: int| 0 <= k < s.len() && #[trigger] s[k].trigger_datetime == t2;
                assert(s2[k] == s[k]);
            }
            if t2 == t {
                assert(s2[s.len() as int].trigger_datetime == t);
            }
        }
    }
    if p < r.len() && r[p].trigger_datetime == t {
        let mut row = r.remove(p);
        let ghost before = row.task_states@;
        proof {
            assert(row == old_r[p as int]);
            assert(cells_sorted(before));
        }
        put_cell(&mut row.task_states, e);
        r.insert(p, row);
        proof {
            assert(r@.len() == old_r.len());
            assert forall|i: int| 0 <= i < r@.len() && i != p implies #[trigger] r@[i] == old_r[i] by {}
            assert(r@[p as int].trigger_datetime == t);
            assert(rows_sorted(r@)) by {
                assert forall|i: int, j: int| 0 <= i < j < r@.len() implies #[trigger] r@[i].trigger_datetime > #[trigger] r@[j].trigger_datetime by {
                    assert(r@[i].trigger_datetime == old_r[i].trigger_datetime);
                    assert(r@[j].trigger_datetime == old_r[j].trigger_datetime);
                }
            }
            assert forall|t2: i64| #[trigger] has_row(r@, t2) <==> has_entry_at(s2, t2) by {
                if has_row(r@, t2) {
                    let i = choose|i: int| 0 <= i < r@.len() && #[trigger] r@[i].trigger_datetime == t2;
                    assert(old_r[i].trigger_datetime == t2);
                    assert(has_row(old_r, t2));
                }
                if has_row(old_r, t2) {
                    let i = choose|i: int| 0 <= i < old_r.len() && #[trigger] old_r[i].trigger_datetime == t2;
                    assert(r@[i].trigger_datetime == t2);
                }
                if t2 == t {
                    assert(r@[p as int].trigger_datetime == t2);
                }
            }
            assert forall|i: int| 0 <= i < r@.len() implies cells_sorted(#[trigger] r@[i].task_states@) by {
                if i != p {
                    assert(r@[i] == old_r[i]);
                }
            }
            assert forall|i: int, n: Seq<char>, id: u128, st: Seq<char>| 0 <= i < r@.len() implies (#[trigger] has_cell(
                r@[i].task_states@,
                n,
                id,
                st,
            ) <==> latest_at(s2, r@[i].trigger_datetime, n) == Some((id, st))) by {
                if i != p {
                    assert(r@[i] == old_r[i]);
                    assert(old_r[i].trigger_datetime != t) by {
                        if i < p {
                            assert(old_r[i].trigger_datetime > t);
                        } else {
                            assert(old_r[p as int].trigger_datetime > old_r[i].trigger_datetime);
                        }
                    }
                    assert(latest_at(s2, old_r[i].trigger_datetime, n) == latest_at(s, old_r[i].trigger_datetime, n));
                } else {
                    assert(has_cell(before, n, id, st) <==> latest_at(s, t, n) == Some((id, st)));
                    assert(latest_at(s2, t, n) == if e.task_name@ == n {
                        Some((e.task_id, e.state@))
                    } else {
                        latest_at(s, t, n)
                    });
                }
            }
        }
    } else {
        let mut cells: Vec<TaskStateCell> = Vec::new();
        put_cell(&mut cells, e);
        let ghost new_cells = cells@;
        proof {
            assert forall|n: Seq<char>| latest_at(s, t, n) is None by {
                if latest_at(s, t, n) is Some {
                    lemma_latest_at_has_time(s, t, n);
                    let k = choose|k: int| 0 <= k < s.len() && #[trigger] s[k].trigger_datetime == t;
                    assert(has_entry_at(s, t));
                    assert(has_row(old_r, t));
                    let i = choose|i: int| 0 <= i < old_r.len() && #[trigger] old_r[i].trigger_datetime == t;
                    if i < p {
                        assert(old_r[i].trigger_datetime > t);
                    } else if i > p {
                        assert(old_r[p as int].trigger_datetime > old_r[i].trigger_datetime);
                    }
                }
            }
            assert forall|n: Seq<char>, id: u128, st: Seq<char>| !has_cell(Seq::<TaskStateCell>::empty(), n, id, st) by {}
        }
        r.insert(p, OverviewRow { trigger_datetime: t, task_states: cells });
        proof {
            assert(r@.len() == old_r.len() + 1);
            assert(r@[p as int].trigger_datetime == t);
            assert(r@[p as int].task_states@ == new_cells);
            assert forall|i: int| 0 <= i < r@.len() && i < p implies #[trigger] r@[i] == old_r[i] by {}
            assert forall|i: int| 0 <= i < r@.len() && i > p implies #[trigger] r@[i] == old_r[i - 1] by {}
            assert(rows_sorted(r@)) by {
                assert forall|i: int, j: int| 0 <= i < j < r@.len() implies #[trigger] r@[i].trigger_datetime > #[trigger] r@[j].trigger_datetime by {
                    if j < p {
                        assert(r@[i] == old_r[i] && r@[j] == old_r[j]);
                    } else if j == p {
                        assert(r@[i] == old_r[i]);
                    } else if i == p {
                        assert(r@[j] == old_r[j - 1]);
                        assert(old_r[j - 1].trigger_datetime <= t);
                        assert(old_r[j - 1].trigger_datetime != t) by {
                            if j - 1 > p {
                                assert(old_r[p as int].trigger_datetime > old_r[j - 1].trigger_datetime);
                            }
                        }
                    } else if i < p {
                        assert(r@[i] == old_r[i] && r@[j] == old_r[j - 1]);
                        assert(old_r[j - 1].trigger_datetime <= t);
                    } else {
                        assert(r@[i] == old_r[i - 1] && r@[j] == old_r[j - 1]);
                    }
                }
            }
            assert forall|t2: i64| #[trigger] has_row(r@, t2) <==> has_entry_at(s2, t2) by {
                if has_row(r@, t2) {
                    let i = choose|i: int| 0 <= i < r@.len() && #[trigger] r@[i].trigger_datetime == t2;
                    if i < p {
                        assert(old_r[i].trigger_datetime == t2);
                        assert(has_row(old_r, t2));
                    } else if i > p {
                        assert(old_r[i - 1].trigger_datetime == t2);
                        assert(has_row(old_r, t2));
                    }
                }
                if has_row(old_r, t2) {
                    let i = choose|i: int| 0 <= i < old_r.len() && #[trigger] old_r[i].trigger_datetime == t2;
                    if i < p {
                        assert(r@[i].trigger_datetime == t2);
                    } else {
                        assert(r@[i + 1].trigger_datetime == t2);
                    }
                }
                if t2 == t {
                    assert(r@[p as int].trigger_datetime == t2);
                }
            }
            assert forall|i: int| 0 <= i < r@.len() implies cells_sorted(#[trigger] r@[i].task_states@) by {
                if i < p {
                    assert(r@[i] == old_r[i]);
                } else if i > p {
                    assert(r@[i] == old_r[i - 1]);
                }
            }
            assert forall|i: int, n: Seq<char>, id: u128, st: Seq<char>| 0 <= i < r@.len() implies (#[trigger] has_cell(
                r@[i].task_states@,
                n,
                id,
                st,
            ) <==> latest_at(s2, r@[i].trigger_datetime, n) == Some((id, st))) by {
                if i == p {
                    assert(latest_at(s2, t, n) == if e.task_name@ == n {
                        Some((e.task_id, e.state@))
                    } else {
                        latest_at(s, t, n)
                    });
                } else {
                    let j = if i < p { i } else { i - 1 };
                    assert(r@[i] == old_r[j]);
                    assert(old_r[j].trigger_datetime != t);
                    assert(latest_at(s2, old_r[j].trigger_datetime, n) == latest_at(s, old_r[j].trigger_datetime, n));
                }
            }
        }
    }
}

pub open spec fn has_entry_named(s: Seq<TokenEntry>, n: Seq<char>) -> bool {
    exists|k: int| 0 <= k < s.len() && #[trigger] s[k].task_name@ == n
}

/// The overview of a job's tokens: the task names that occur, sorted and
/// without repeats, and one row per logical time, latest first, with the
/// latest token of each task at that time, by task name.
pub fn tokens_overview(entries: &Vec<TokenEntry>) -> (o: TokensOverview)
    ensures
        names_sorted(o.tasks@),
        forall|n: Seq<char>| #[trigger] has_text(o.tasks@, n) <==> has_entry_named(entries@, n),
        rows_match(entries@, o.tokens@),
{
    let mut tasks: Vec<String> = Vec::new();
    let mut rows: Vec<OverviewRow> = Vec::new();
    let mut k: usize = 0;
    proof {
        assert(entries@.take(0) =~= Seq::<TokenEntry>::empty());
    }
    while k < entries.len()
        invariant
            0 <= k <= entries@.len(),
            names_sorted(tasks@),
            forall|n: Seq<char>| #[trigger] has_text(tasks@, n) <==> has_entry_named(entries@.take(k as int), n),
            rows_match(entries@.take(k as int), rows@),
        decreases entries@.len() - k,
    {
        let ghost prefix = entries@.take(k as int);
        let ghost next = entries@.take(k + 1);
        proof {
            assert(next =~= prefix.push(entries@[k as int]));
            assert forall|n: Seq<char>| #[trigger] has_entry_named(next, n) <==> (has_entry_named(prefix, n) || n == entries@[k as int].task_name@) by {
                if has_entry_named(next, n) {
                    let j = choose|j: int| 0 <= j < next.len() && #[trigger] next[j].task_name@ == n;
                    if j < k {
                        assert(prefix[j] == next[j]);
                    }
                }
                if has_entry_named(prefix, n) {
                    let j = choose|j: int| 0 <= j < prefix.len() && #[trigger] prefix[j].task_name@ == n;
                    assert(next[j] == prefix[j]);
                }
                if n == entries@[k as int].task_name@ {
                    assert(next[k as int].task_name@ == n);
                }
            }
        }
        add_name(&mut tasks, &entries[k].task_name);
        add_entry(&mut rows, &entries[k], Ghost(prefix));
        k = k + 1;
    }
    proof {
        assert(entries@.take(k as int) =~= entries@);
    }
    TokensOverview { tokens: rows, tasks }
}

/// The pieces of a text between its commas, as `str::split(',')` gives them
/// (an empty text is one empty piece).
pub open spec fn split_commas(s: Seq<char>) -> Seq<Seq<char>>
    decreases s.len(),
{
    if s.len() == 0 {
        seq![Seq::empty()]
    } else {
        let parts = split_commas(s.drop_last());
        if s.last() == ',' {
            parts.push(Seq::empty())
        } else {
            parts.update(parts.len() - 1, parts.last().push(s.last()))
        }
    }
}

proof fn lemma_split_commas_nonempty(s: Seq<char>)
    ensures
        split_commas(s).len() >= 1,
    decreases s.len(),
{
    if s.len() > 0 {
        lemma_split_commas_nonempty(s.drop_last());
    }
}

/// The pieces of a text between its commas.
pub fn split_on_commas(text: &str) -> (parts: Vec<String>)
    ensures
        parts@.map_values(|p: String| p@) == split_commas(text@),
{
    let n = text.unicode_len();
    let mut parts: Vec<String> = Vec::new();
    let mut start: usize = 0;
    let mut i: usize = 0;
    proof {
        assert(text@.take(0) =~= Seq::<char>::empty());
        assert(parts@.map_values(|p: String| p@).push(text@.subrange(0, 0)) =~= split_commas(text@.take(0)));
    }
    while i < n
        invariant
            0 <= start <= i <= n,
            n == text@.len(),
            parts@.map_values(|p: String| p@).push(text@.subrange(start as int, i as int)) == split_commas(
                text@.take(i as int),
            ),
        decreases n - i,
    {
        let c = text.get_char(i);
        let ghost before = parts@.map_values(|p: String| p@).push(text@.subrange(start as int, i as int));
        proof {
            assert(text@.take(i + 1).drop_last() =~= text@.take(i as int));
            assert(text@.take(i + 1).last() == c);
            lemma_split_commas_nonempty(text@.take(i as int));
        }
        if c == ',' {
            let ghost old_parts = parts@;
            let piece = String::from_str(text.substring_char(start, i));
            parts.push(piece);
            proof {
                assert(parts@.map_values(|p: String| p@) =~= old_parts.map_values(|p: String| p@).push(
                    text@.subrange(start as int, i as int),
                ));
            }
            start = i + 1;
            proof {
                assert(text@.subrange(start as int, i + 1) =~= Seq::<char>::empty());
                assert(parts@.map_values(|p: String| p@).push(text@.subrange(start as int, i + 1)) =~= before.push(
                    Seq::empty(),
                ));
            }
        } else {
            proof {
                assert(text@.subrange(start as int, i + 1) =~= text@.subrange(start as int, i as int).push(c));
                assert(parts@.map_values(|p: String| p@).push(text@.subrange(start as int, i + 1)) =~= before.update(
                    before.len() - 1,
                    before.last().push(c),
                ));
            }
        }
        i = i + 1;
    }
    proof {
        assert(text@.take(n as int) =~= text@);
    }
    let ghost old_parts = parts@;
    let last = String::from_str(text.substring_char(start, n));
    parts.push(last);
    proof {
        assert(parts@.map_values(|p: String| p@) =~= old_parts.map_values(|p: String| p@).push(
            text@.subrange(start as int, n as int),
        ));
        assert(parts@.map_values(|p: String| p@) =~= split_commas(text@));
    }
    parts
}

/// Every piece names a token state.
pub open spec fn all_states(parts: Seq<Seq<char>>) -> bool {
    forall|i: int| 0 <= i < parts.len() ==> #[trigger] token_state_named(parts[i]) is Some
}

/// The token states that a query asks for, written as comma-separated names:
/// the names, when each is a token state; else the message refusing the first
/// that is not.
pub fn state_filter(text: Option<&str>) -> (r: Result<Option<Vec<String>>, String>)
    ensures
        text is None ==> r matches Ok(None),
        text matches Some(t) ==> {
            let parts = split_commas(t@);
            &&& all_states(parts) ==> (r matches Ok(Some(v)) && v@.map_values(|p: String| p@) == parts)
            &&& !all_states(parts) ==> r is Err
            &&& (r matches Err(m) ==> exists|i: int|
                0 <= i < parts.len() && token_state_named(#[trigger] parts[i]) is None && m@
                    == invalid_state_message(parts[i]))
        },
{
    let t = match text {
        None => return Ok(None),
        Some(t) => t,
    };
    let parts = split_on_commas(t);
    let ghost views = parts@.map_values(|p: String| p@);
    let mut i: usize = 0;
    while i < parts.len()
        invariant
            0 <= i <= parts@.len(),
            text == Some(t),
            views == parts@.map_values(|p: String| p@),
            views == split_commas(t@),
            forall|j: int| 0 <= j < i ==> #[trigger] token_state_named(views[j]) is Some,
        decreases parts@.len() - i,
    {
        match TokenState::parse(parts[i].as_str()) {
            Ok(_) => {},
            Err(e) => {
                proof {
                    assert(views[i as int] == parts@[i as int]@);
                    assert(token_state_named(split_commas(t@)[i as int]) is None);
                    assert(e.0@ == invalid_state_message(split_commas(t@)[i as int]));
                }
                return Err(e.0);
            },
        }
        proof {
            assert(views[i as int] == parts@[i as int]@);
        }
        i = i + 1;
    }
    proof {
        assert(all_states(split_commas(t@))) by {
            assert forall|j: int| 0 <= j < split_commas(t@).len() implies #[trigger] token_state_named(split_commas(t@)[j]) is Some by {
                assert(token_state_named(views[j]) is Some);
            }
        }
    }
    Ok(Some(parts))
}

} // verus!
