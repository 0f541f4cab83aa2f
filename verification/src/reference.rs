//! References from a task to what it depends on, written
//! `[project/][job/](task|trigger)/name[@offset]`.

use vstd::prelude::*;
use vstd::string::*;
use crate::api_types::Job;
use crate::durations::{duration_nanos, duration_of, duration_safe, human_duration, human_duration_text, parse_duration, format_human_duration};

verus! {

/// Whether `c` is a Unicode word character as `regex_syntax` classifies it
/// (the `\w` class of a regular expression).
pub uninterp spec fn unicode_word_char(c: char) -> bool;

/// Calls `regex_syntax::is_word_character`; the contract names its answer.
#[verifier::external_body]
fn is_word_character(c: char) -> (r: bool)
    ensures
        r == unicode_word_char(c),
{
    regex_syntax::is_word_character(c)
}

/// Unicode `White_Space` (the `\s` class of a regular expression).
pub open spec fn is_unicode_space(c: char) -> bool {
    let u = c as u32;
    ||| 0x09 <= u <= 0x0d
    ||| u == 0x20
    ||| u == 0x85
    ||| u == 0xa0
    ||| u == 0x1680
    ||| 0x2000 <= u <= 0x200a
    ||| u == 0x2028
    ||| u == 0x2029
    ||| u == 0x202f
    ||| u == 0x205f
    ||| u == 0x3000
}

pub(crate) fn is_space_char(c: char) -> (r: bool)
    ensures
        r == is_unicode_space(c),
{
    let u = c as u32;
    (0x09 <= u && u <= 0x0d) || u == 0x20 || u == 0x85 || u == 0xa0 || u == 0x1680 || (0x2000
        <= u && u <= 0x200a) || u == 0x2028 || u == 0x2029 || u == 0x202f || u == 0x205f || u
        == 0x3000
}

/// A character allowed in project, job, task and trigger names.
pub open spec fn is_name_char(c: char) -> bool {
    unicode_word_char(c) || is_unicode_space(c)
}

/// A name: one or more name characters.
pub open spec fn is_name(s: Seq<char>) -> bool {
    s.len() > 0 && forall|i: int| 0 <= i < s.len() ==> #[trigger] is_name_char(s[i])
}

#[derive(Debug, PartialEq, Eq, Clone, Copy, Structural)]
pub enum ReferenceKind {
    Trigger,
    Task,
}

pub open spec fn trigger_word() -> Seq<char> {
    seq!['t', 'r', 'i', 'g', 'g', 'e', 'r']
}

pub open spec fn task_word() -> Seq<char> {
    seq!['t', 'a', 's', 'k']
}

/// The kind that a word names.
pub open spec fn kind_of(word: Seq<char>) -> Option<ReferenceKind> {
    if word == trigger_word() {
        Some(ReferenceKind::Trigger)
    } else if word == task_word() {
        Some(ReferenceKind::Task)
    } else {
        None
    }
}

pub open spec fn kind_word(kind: ReferenceKind) -> Seq<char> {
    match kind {
        ReferenceKind::Trigger => trigger_word(),
        ReferenceKind::Task => task_word(),
    }
}

/// The index of the first `c` in `s`, or `s.len()` when there is none.
pub open spec fn first_index(s: Seq<char>, c: char) -> int
    decreases s.len(),
{
    if s.len() == 0 {
        0
    } else {
        let f = first_index(s.drop_last(), c);
        if f < s.len() - 1 {
            f
        } else if s.last() == c {
            s.len() - 1
        } else {
            s.len() as int
        }
    }
}

/// The positions of every '/' in `s`, in increasing order.
pub open spec fn slashes(s: Seq<char>) -> Seq<int>
    decreases s.len(),
{
    if s.len() == 0 {
        Seq::empty()
    } else if s.last() == '/' {
        slashes(s.drop_last()).push(s.len() - 1)
    } else {
        slashes(s.drop_last())
    }
}

/// The `i`-th '/'-separated segment of `head`, given the positions of its slashes.
pub open spec fn segment(head: Seq<char>, pos: Seq<int>, i: int) -> Seq<char> {
    let start = if i == 0 {
        0
    } else {
        pos[i - 1] + 1
    };
    let end = if i == pos.len() {
        head.len() as int
    } else {
        pos[i]
    };
    head.subrange(start, end)
}

/// The part of a reference before any '@': two to four segments, of which the
/// last is the name, the one before it the kind and any others the job, or the
/// project and then the job.
pub open spec fn head_parts(head: Seq<char>) -> Option<
    (Option<Seq<char>>, Option<Seq<char>>, ReferenceKind, Seq<char>),
> {
    let pos = slashes(head);
    let k = pos.len() as int;
    if k < 1 || k > 3 {
        None
    } else {
        let name = segment(head, pos, k);
        let kind = kind_of(segment(head, pos, k - 1));
        if !is_name(name) || kind is None || (k >= 2 && !is_name(segment(head, pos, 0))) || (k
            == 3 && !is_name(segment(head, pos, 1))) {
            None
        } else {
            Some(
                (
                    if k == 3 {
                        Some(segment(head, pos, 0))
                    } else {
                        None
                    },
                    if k == 3 {
                        Some(segment(head, pos, 1))
                    } else if k == 2 {
                        Some(segment(head, pos, 0))
                    } else {
                        None
                    },
                    kind->0,
                    name,
                ),
            )
        }
    }
}

/// An offset text: one or more characters, none of them a line break.
pub open spec fn is_offset_text(t: Seq<char>) -> bool {
    t.len() > 0 && forall|i: int| 0 <= i < t.len() ==> #[trigger] t[i] != '\n'
}

/// The syntax of a reference: its project, job, kind, name and the text of its
/// offset (after the first '@'), or `None` when the text is not a reference.
pub open spec fn reference_syntax(s: Seq<char>) -> Option<
    (Option<Seq<char>>, Option<Seq<char>>, ReferenceKind, Seq<char>, Option<Seq<char>>),
> {
    let at = first_index(s, '@');
    match head_parts(s.take(at)) {
        None => None,
        Some(parts) => if at == s.len() {
            Some((parts.0, parts.1, parts.2, parts.3, None))
        } else {
            let t = s.subrange(at + 1, s.len() as int);
            if is_offset_text(t) {
                Some((parts.0, parts.1, parts.2, parts.3, Some(t)))
            } else {
                None
            }
        },
    }
}

/// The whole seconds of the largest `chrono::TimeDelta` (`i64::MAX` milliseconds).
pub open spec fn time_delta_max_secs() -> u64 {
    9_223_372_036_854_775
}

/// The nanoseconds of the largest `chrono::TimeDelta`.
pub open spec fn time_delta_max_nanos() -> u32 {
    807_000_000
}

/// Whether a standard duration converts into a `chrono::TimeDelta`
/// (`TimeDelta::from_std` succeeds).
pub open spec fn fits_time_delta(secs: u64, nanos: u32) -> bool {
    secs < time_delta_max_secs() || (secs == time_delta_max_secs() && nanos
        <= time_delta_max_nanos())
}

/// A span of time: whole seconds and nanoseconds (below one second) on top of them.
#[derive(Debug, PartialEq, Eq, Clone, Copy, Structural)]
pub struct TimeOffset {
    pub secs: i64,
    pub nanos: u32,
}

#[derive(Debug, PartialEq, Eq)]
pub struct Reference {
    pub proj: Option<String>,
    pub job: Option<String>,
    pub kind: ReferenceKind,
    pub name: String,
    pub offset: Option<TimeOffset>,
}

pub open spec fn opt_view(o: Option<String>) -> Option<Seq<char>> {
    match o {
        Some(s) => Some(s@),
        None => None,
    }
}

/// Why a text is not a usable reference.
#[derive(Debug, PartialEq, Eq)]
pub enum ReferenceError {
    /// the text does not have the syntax of a reference
    Invalid { reference: String },
    /// the offset is not a duration; the duration parser's message
    Offset { message: String },
    /// the offset is too large for a time delta
    OffsetOutOfRange,
}

/// What parsing a reference gives: its parts, or which error.
pub open spec fn reference_result_matches(s: Seq<char>, r: Result<Reference, ReferenceError>) -> bool {
    match reference_syntax(s) {
        None => r matches Err(ReferenceError::Invalid { reference }) && reference@ == s,
        Some((p, j, k, n, o)) => match o {
            None => r matches Ok(rf) && opt_view(rf.proj) == p && opt_view(rf.job) == j && rf.kind
                == k && rf.name@ == n && rf.offset is None,
            Some(t) => match duration_of(t) {
                Err(msg) => r matches Err(ReferenceError::Offset { message }) && message@ == msg,
                Ok((secs, nanos)) => if fits_time_delta(secs, nanos) {
                    r matches Ok(rf) && opt_view(rf.proj) == p && opt_view(rf.job) == j && rf.kind
                        == k && rf.name@ == n && rf.offset == Some(
                        TimeOffset { secs: secs as i64, nanos },
                    )
                } else {
                    r matches Err(ReferenceError::OffsetOutOfRange)
                },
            },
        },
    }
}

proof fn lemma_first_index(s: Seq<char>, c: char, at: int)
    requires
        0 <= at <= s.len(),
        forall|j: int| 0 <= j < at ==> s[j] != c,
        at == s.len() || s[at] == c,
    ensures
        first_index(s, c) == at,
    decreases s.len(),
{
    if s.len() > 0 {
        let t = s.drop_last();
        if at == s.len() {
            lemma_first_index(t, c, t.len() as int);
        } else {
            lemma_first_index_bound(t, c);
            if at < s.len() - 1 {
                lemma_first_index(t, c, at);
            } else {
                lemma_first_index(t, c, t.len() as int);
            }
        }
    }
}

proof fn lemma_first_index_bound(s: Seq<char>, c: char)
    ensures
        0 <= first_index(s, c) <= s.len(),
    decreases s.len(),
{
    if s.len() > 0 {
        lemma_first_index_bound(s.drop_last(), c);
    }
}

/// The slash positions lie inside the text, are increasing and point at slashes.
pub proof fn lemma_slashes(s: Seq<char>)
    ensures
        forall|i: int| 0 <= i < slashes(s).len() ==> 0 <= #[trigger] slashes(s)[i] < s.len(),
        forall|i: int| 0 <= i < slashes(s).len() ==> s[#[trigger] slashes(s)[i]] == '/',
        forall|i: int, j: int|
            0 <= i < j < slashes(s).len() ==> #[trigger] slashes(s)[i] < #[trigger] slashes(s)[j],
    decreases s.len(),
{
    if s.len() > 0 {
        let t = s.drop_last();
        lemma_slashes(t);
        assert forall|i: int| 0 <= i < slashes(t).len() implies s[#[trigger] slashes(t)[i]] == '/' by {
            assert(s[slashes(t)[i]] == t[slashes(t)[i]]);
        }
    }
}

fn find_char(s: &str, n: usize, c: char) -> (r: usize)
    requires
        n == s@.len(),
    ensures
        r as int == first_index(s@, c),
        r <= n,
{
    let mut i: usize = 0;
    while i < n && s.get_char(i) != c
        invariant
            0 <= i <= n,
            n == s@.len(),
            forall|j: int| 0 <= j < i ==> s@[j] != c,
        decreases n - i,
    {
        i = i + 1;
    }
    proof {
        lemma_first_index(s@, c, i as int);
    }
    i
}

pub open spec fn as_ints(v: Seq<usize>) -> Seq<int> {
    v.map_values(|p: usize| p as int)
}

fn slash_positions(s: &str, at: usize) -> (pos: Vec<usize>)
    requires
        at <= s@.len(),
    ensures
        as_ints(pos@) == slashes(s@.take(at as int)),
{
    let mut pos: Vec<usize> = Vec::new();
    let mut i: usize = 0;
    while i < at
        invariant
            0 <= i <= at <= s@.len(),
            as_ints(pos@) == slashes(s@.take(at as int).take(i as int)),
        decreases at - i,
    {
        let ghost head = s@.take(at as int);
        proof {
            assert(head.take(i + 1).drop_last() =~= head.take(i as int));
            assert(head.take(i + 1).last() == s@[i as int]);
        }
        if s.get_char(i) == '/' {
            pos.push(i);
            proof {
                assert(as_ints(pos@) =~= slashes(head.take(i as int)).push(i as int));
            }
        }
        i = i + 1;
    }
    proof {
        assert(s@.take(at as int).take(at as int) =~= s@.take(at as int));
    }
    pos
}

/// Whether the characters of `s` from `a` to `b` form a name.
fn check_name(s: &str, a: usize, b: usize) -> (r: bool)
    requires
        a <= b <= s@.len(),
    ensures
        r == is_name(s@.subrange(a as int, b as int)),
{
    if a == b {
        return false;
    }
    let mut i = a;
    while i < b
        invariant
            a <= i <= b <= s@.len(),
            forall|j: int| a <= j < i ==> #[trigger] is_name_char(s@[j]),
        decreases b - i,
    {
        let c = s.get_char(i);
        if !(is_word_character(c) || is_space_char(c)) {
            proof {
                let t = s@.subrange(a as int, b as int);
                assert(t[i - a] == c);
                assert(!is_name_char(t[i - a]));
            }
            return false;
        }
        i = i + 1;
    }
    proof {
        let t = s@.subrange(a as int, b as int);
        assert forall|j: int| 0 <= j < t.len() implies #[trigger] is_name_char(t[j]) by {
            assert(t[j] == s@[a + j]);
        }
    }
    true
}

/// Whether the characters of `s` from `a` to `b` are `word`.
fn segment_is(s: &str, a: usize, b: usize, word: &Vec<char>) -> (r: bool)
    requires
        a <= b <= s@.len(),
    ensures
        r == (s@.subrange(a as int, b as int) == word@),
{
    let ghost t = s@.subrange(a as int, b as int);
    if b - a != word.len() {
        return false;
    }
    let mut i: usize = 0;
    while i < word.len()
        invariant
            0 <= i <= word@.len(),
            b - a == word@.len(),
            a <= b <= s@.len(),
            t == s@.subrange(a as int, b as int),
            forall|j: int| 0 <= j < i ==> t[j] == word@[j],
        decreases word@.len() - i,
    {
        if s.get_char(a + i) != word[i] {
            assert(t[i as int] != word@[i as int]);
            return false;
        }
        i = i + 1;
    }
    assert(t =~= word@);
    true
}

/// The kind named by the characters of `s` from `a` to `b`.
fn kind_in(s: &str, a: usize, b: usize) -> (r: Option<ReferenceKind>)
    requires
        a <= b <= s@.len(),
    ensures
        r == kind_of(s@.subrange(a as int, b as int)),
{
    let trigger = vec!['t', 'r', 'i', 'g', 'g', 'e', 'r'];
    let task = vec!['t', 'a', 's', 'k'];
    assert(trigger@ =~= trigger_word());
    assert(task@ =~= task_word());
    if segment_is(s, a, b, &trigger) {
        Some(ReferenceKind::Trigger)
    } else if segment_is(s, a, b, &task) {
        Some(ReferenceKind::Task)
    } else {
        None
    }
}

/// The characters of `s` from `a` to `b`, as a string.
fn part(s: &str, a: usize, b: usize) -> (r: String)
    requires
        a <= b <= s@.len(),
    ensures
        r@ == s@.subrange(a as int, b as int),
{
    s.substring_char(a, b).to_owned()
}

fn parse_head(s: &str, at: usize) -> (r: Option<(Option<String>, Option<String>, ReferenceKind, String)>)
    requires
        at <= s@.len(),
    ensures
        match head_parts(s@.take(at as int)) {
            None => r is None,
            Some(p) => r matches Some(q) && opt_view(q.0) == p.0 && opt_view(q.1) == p.1 && q.2
                == p.2 && q.3@ == p.3,
        },
{
    let ghost head = s@.take(at as int);
    let pos = slash_positions(s, at);
    proof {
        lemma_slashes(head);
    }
    let k = pos.len();
    if k < 1 || k > 3 {
        return None;
    }
    let ghost ipos = slashes(head);
    assert(ipos[k - 1] == pos@[k - 1] as int);
    let name_start = pos[k - 1] + 1;
    let kind_start = if k == 1 {
        0
    } else {
        assert(ipos[k - 2] == pos@[k - 2] as int);
        pos[k - 2] + 1
    };
    let kind_end = pos[k - 1];
    proof {
        assert(segment(head, ipos, k as int) =~= s@.subrange(name_start as int, at as int));
        assert(segment(head, ipos, k - 1) =~= s@.subrange(kind_start as int, kind_end as int));
    }
    if !check_name(s, name_start, at) {
        return None;
    }
    let kind = match kind_in(s, kind_start, kind_end) {
        None => return None,
        Some(kind) => kind,
    };
    if k == 1 {
        return Some((None, None, kind, part(s, name_start, at)));
    }
    assert(ipos[0] == pos@[0] as int);
    let first_end = pos[0];
    proof {
        assert(segment(head, ipos, 0) =~= s@.subrange(0, first_end as int));
    }
    if !check_name(s, 0, first_end) {
        return None;
    }
    if k == 2 {
        return Some((None, Some(part(s, 0, first_end)), kind, part(s, name_start, at)));
    }
    assert(ipos[1] == pos@[1] as int);
    let second_start = pos[0] + 1;
    let second_end = pos[1];
    proof {
        assert(segment(head, ipos, 1) =~= s@.subrange(second_start as int, second_end as int));
    }
    if !check_name(s, second_start, second_end) {
        return None;
    }
    Some(
        (
            Some(part(s, 0, first_end)),
            Some(part(s, second_start, second_end)),
            kind,
            part(s, name_start, at),
        ),
    )
}

/// Whether the characters of `s` from `a` to its end form an offset text.
fn check_offset_text(s: &str, a: usize, n: usize) -> (r: bool)
    requires
        a <= n == s@.len(),
    ensures
        r == is_offset_text(s@.subrange(a as int, n as int)),
{
    let ghost t = s@.subrange(a as int, n as int);
    if a == n {
        return false;
    }
    let mut i = a;
    while i < n
        invariant
            a <= i <= n == s@.len(),
            t == s@.subrange(a as int, n as int),
            forall|j: int| 0 <= j < i - a ==> #[trigger] t[j] != '\n',
        decreases n - i,
    {
        if s.get_char(i) == '\n' {
            assert(t[i - a] == '\n');
            return false;
        }
        i = i + 1;
    }
    true
}

/// Parses a reference such as `project/job/task/name@1h`.
pub fn parse_reference(reference: &str) -> (r: Result<Reference, ReferenceError>)
    ensures
        reference_result_matches(reference@, r),
        r matches Ok(rf) ==> writes_back(rf),
{
    let n = reference.unicode_len();
    let at = find_char(reference, n, '@');
    proof {
        lemma_first_index_bound(reference@, '@');
    }
    let head = parse_head(reference, at);
    let (proj, job, kind, name) = match head {
        None => {
            return Err(ReferenceError::Invalid { reference: reference.to_owned() });
        },
        Some(parts) => parts,
    };
    proof {
        lemma_syntax_plain(reference@);
    }
    if at == n {
        return Ok(Reference { proj, job, kind, name, offset: None });
    }
    if !check_offset_text(reference, at + 1, n) {
        return Err(ReferenceError::Invalid { reference: reference.to_owned() });
    }
    let text = reference.substring_char(at + 1, n);
    match parse_duration(text) {
        Err(message) => Err(ReferenceError::Offset { message }),
        Ok((secs, nanos)) => {
            if secs < 9_223_372_036_854_775 || (secs == 9_223_372_036_854_775 && nanos
                <= 807_000_000) {
                Ok(
                    Reference {
                        proj,
                        job,
                        kind,
                        name,
                        offset: Some(TimeOffset { secs: secs as i64, nanos }),
                    },
                )
            } else {
                Err(ReferenceError::OffsetOutOfRange)
            }
        },
    }
}

impl ReferenceKind {
    /// The kind that a word names ("trigger" or "task").
    pub fn from_word(word: &str) -> (r: Option<ReferenceKind>)
        ensures
            r == kind_of(word@),
    {
        let n = word.unicode_len();
        proof {
            assert(word@.subrange(0, n as int) =~= word@);
        }
        kind_in(word, 0, n)
    }

    /// The kind that a word names, or the message refusing any other word.
    pub fn parse(word: &str) -> (r: Result<ReferenceKind, String>)
        ensures
            match kind_of(word@) {
                Some(k) => r == Ok::<ReferenceKind, String>(k),
                None => r matches Err(m) && m@ == "failed to parse reference kind (expected \"task\" or \"trigger\", got \""@
                    + word@ + "\")"@,
            },
    {
        match ReferenceKind::from_word(word) {
            Some(k) => Ok(k),
            None => {
                let mut m = String::from_str(
                    "failed to parse reference kind (expected \"task\" or \"trigger\", got \"",
                );
                m.append(word);
                m.append("\")");
                Err(m)
            },
        }
    }

    /// The word for the kind.
    pub fn as_str(&self) -> (r: &'static str)
        ensures
            r@ == kind_word(*self),
    {
        match self {
            ReferenceKind::Trigger => {
                proof {
                    reveal_strlit("trigger");
                }
                "trigger"
            },
            ReferenceKind::Task => {
                proof {
                    reveal_strlit("task");
                }
                "task"
            },
        }
    }
}

impl std::str::FromStr for ReferenceKind {
    type Err = String;

    fn from_str(s: &str) -> (r: Result<ReferenceKind, String>)
        ensures
            match kind_of(s@) {
                Some(k) => r == Ok::<ReferenceKind, String>(k),
                None => r matches Err(m) && m@ == "failed to parse reference kind (expected \"task\" or \"trigger\", got \""@
                    + s@ + "\")"@,
            },
    {
        ReferenceKind::parse(s)
    }
}

/// Fills in the project and the job of a reference that leaves them out with
/// those of the job that the reference stands in.
pub fn resolve_reference(reference: Reference, job: &Job) -> (r: Reference)
    ensures
        opt_view(r.proj) == match reference.proj {
            Some(p) => Some(p@),
            None => Some(job.project@),
        },
        opt_view(r.job) == match reference.job {
            Some(j) => Some(j@),
            None => Some(job.name@),
        },
        r.kind == reference.kind,
        r.name == reference.name,
        r.offset == reference.offset,
{
    let mut reference = reference;
    if reference.proj.is_none() {
        reference.proj = Some(job.project.clone());
    }
    if reference.job.is_none() {
        reference.job = Some(job.name.clone());
    }
    reference
}

/// How a reference is written back: `[project/][job/]kind/name[@offset]`, the
/// offset as the duration formatter writes it.
pub open spec fn reference_text(r: Reference) -> Seq<char> {
    let p = match r.proj {
        Some(p) => p@ + seq!['/'],
        None => Seq::empty(),
    };
    let j = match r.job {
        Some(j) => j@ + seq!['/'],
        None => Seq::empty(),
    };
    let o = match r.offset {
        Some(off) => seq!['@'] + human_duration_text(off.secs as u64, off.nanos),
        None => Seq::empty(),
    };
    p + j + kind_word(r.kind) + seq!['/'] + r.name@ + o
}

/// No character of `s` is `c`.
pub open spec fn lacks(s: Seq<char>, c: char) -> bool {
    forall|i: int| 0 <= i < s.len() ==> s[i] != c
}

/// A part of a reference that can be written back and read again: a name with
/// neither '/' nor '@' in it.
pub open spec fn is_plain_name(s: Seq<char>) -> bool {
    is_name(s) && lacks(s, '/') && lacks(s, '@')
}

/// A reference that reads back as itself once written: its names are plain, a
/// project comes only with a job (else it would read as the job), and its
/// offset is a duration that a time delta holds.
pub open spec fn writes_back(r: Reference) -> bool {
    &&& is_plain_name(r.name@)
    &&& (r.proj matches Some(p) ==> (is_plain_name(p@) && r.job is Some))
    &&& (r.job matches Some(j) ==> is_plain_name(j@))
    &&& (r.offset matches Some(off) ==> (off.secs >= 0 && off.nanos < 1_000_000_000 && fits_time_delta(
        off.secs as u64,
        off.nanos,
    )))
}

proof fn lemma_before_first_index(s: Seq<char>, c: char)
    ensures
        forall|j: int| 0 <= j < first_index(s, c) ==> s[j] != c,
        0 <= first_index(s, c) <= s.len(),
    decreases s.len(),
{
    if s.len() > 0 {
        let t = s.drop_last();
        lemma_before_first_index(t, c);
        assert forall|j: int| 0 <= j < first_index(s, c) implies s[j] != c by {
            assert(s[j] == t[j] || j == s.len() - 1);
        }
    }
}

proof fn lemma_slashes_complete(s: Seq<char>)
    ensures
        forall|j: int| 0 <= j < s.len() && s[j] == '/' ==> slashes(s).contains(j),
    decreases s.len(),
{
    if s.len() > 0 {
        let t = s.drop_last();
        lemma_slashes_complete(t);
        assert forall|j: int| 0 <= j < s.len() && s[j] == '/' implies slashes(s).contains(j) by {
            if j < s.len() - 1 {
                assert(t[j] == s[j]);
                let k = choose|k: int| 0 <= k < slashes(t).len() && slashes(t)[k] == j;
                if s.last() == '/' {
                    assert(slashes(s)[k] == j);
                } else {
                    assert(slashes(s)[k] == j);
                }
            } else {
                assert(slashes(s).last() == j);
            }
        }
    }
}

proof fn lemma_segment_plain(head: Seq<char>, i: int)
    requires
        lacks(head, '@'),
        0 <= i <= slashes(head).len(),
    ensures
        lacks(segment(head, slashes(head), i), '/'),
        lacks(segment(head, slashes(head), i), '@'),
{
    let pos = slashes(head);
    lemma_slashes(head);
    lemma_slashes_complete(head);
    let start = if i == 0 { 0 } else { pos[i - 1] + 1 };
    let end = if i == pos.len() { head.len() as int } else { pos[i] };
    let seg = segment(head, pos, i);
    assert forall|q: int| 0 <= q < seg.len() implies seg[q] != '/' && seg[q] != '@' by {
        assert(seg[q] == head[start + q]);
        if head[start + q] == '/' {
            assert(pos.contains(start + q));
            let k = choose|k: int| 0 <= k < pos.len() && pos[k] == start + q;
            if k < i {
                if k < i - 1 {
                    assert(pos[k] < pos[i - 1]);
                }
            } else if k > i {
                assert(pos[i] < pos[k]);
            }
        }
    }
}

/// The parts of a text that has the syntax of a reference are plain names: the
/// text before the offset has no '@', and its segments no '/'.
proof fn lemma_syntax_plain(s: Seq<char>)
    requires
        head_parts(s.take(first_index(s, '@'))) is Some,
    ensures
        ({
            let (p, j, k, n) = head_parts(s.take(first_index(s, '@')))->0;
            &&& is_plain_name(n)
            &&& (p matches Some(pv) ==> (is_plain_name(pv) && j is Some))
            &&& (j matches Some(jv) ==> is_plain_name(jv))
        }),
{
    let at = first_index(s, '@');
    lemma_before_first_index(s, '@');
    let head = s.take(at);
    assert(lacks(head, '@'));
    let pos = slashes(head);
    let k = pos.len() as int;
    lemma_segment_plain(head, k);
    lemma_segment_plain(head, 0);
    if k >= 2 {
        lemma_segment_plain(head, 1);
    }
}

proof fn lemma_slashes_none(s: Seq<char>)
    requires
        lacks(s, '/'),
    ensures
        slashes(s) == Seq::<int>::empty(),
    decreases s.len(),
{
    if s.len() > 0 {
        lemma_slashes_none(s.drop_last());
    }
}

proof fn lemma_slashes_then(a: Seq<char>, b: Seq<char>)
    requires
        lacks(b, '/'),
    ensures
        slashes(a + seq!['/'] + b) == slashes(a).push(a.len() as int),
    decreases b.len(),
{
    if b.len() == 0 {
        assert(a + seq!['/'] + b =~= a.push('/'));
        assert(a.push('/').drop_last() =~= a);
    } else {
        lemma_slashes_then(a, b.drop_last());
        assert((a + seq!['/'] + b).drop_last() =~= a + seq!['/'] + b.drop_last());
    }
}

proof fn lemma_kind_word(k: ReferenceKind)
    ensures
        lacks(kind_word(k), '/'),
        lacks(kind_word(k), '@'),
        kind_of(kind_word(k)) == Some(k),
        kind_word(k).len() > 0,
{
    assert(trigger_word() != task_word()) by {
        assert(trigger_word().len() != task_word().len());
    }
}

/// The part of the text of `r` before the offset.
pub open spec fn reference_head(r: Reference) -> Seq<char> {
    let p = match r.proj {
        Some(p) => p@ + seq!['/'],
        None => Seq::empty(),
    };
    let j = match r.job {
        Some(j) => j@ + seq!['/'],
        None => Seq::empty(),
    };
    p + j + kind_word(r.kind) + seq!['/'] + r.name@
}

proof fn lemma_lacks_cat(a: Seq<char>, b: Seq<char>, c: char)
    requires
        lacks(a, c),
        lacks(b, c),
    ensures
        lacks(a + b, c),
{
    assert forall|i: int| 0 <= i < (a + b).len() implies (a + b)[i] != c by {
        if i >= a.len() {
            assert((a + b)[i] == b[i - a.len()]);
        }
    }
}

proof fn lemma_two_parts(kw: Seq<char>, n: Seq<char>)
    requires
        lacks(kw, '/'),
        lacks(n, '/'),
    ensures
        ({
            let h = kw + seq!['/'] + n;
            let pos = slashes(h);
            &&& pos.len() == 1
            &&& segment(h, pos, 1) == n
            &&& segment(h, pos, 0) == kw
        }),
{
    let h = kw + seq!['/'] + n;
    lemma_slashes_none(kw);
    lemma_slashes_then(kw, n);
    let pos = slashes(h);
    assert(pos =~= seq![kw.len() as int]);
    assert(segment(h, pos, 1) =~= n);
    assert(segment(h, pos, 0) =~= kw);
}

proof fn lemma_three_parts(jv: Seq<char>, kw: Seq<char>, n: Seq<char>)
    requires
        lacks(jv, '/'),
        lacks(kw, '/'),
        lacks(n, '/'),
    ensures
        ({
            let h = jv + seq!['/'] + kw + seq!['/'] + n;
            let pos = slashes(h);
            &&& pos.len() == 2
            &&& segment(h, pos, 2) == n
            &&& segment(h, pos, 1) == kw
            &&& segment(h, pos, 0) == jv
        }),
{
    let jk = jv + seq!['/'] + kw;
    let h = jk + seq!['/'] + n;
    lemma_slashes_none(jv);
    lemma_slashes_then(jv, kw);
    lemma_slashes_then(jk, n);
    let pos = slashes(h);
    assert(pos =~= seq![jv.len() as int, jk.len() as int]);
    assert(segment(h, pos, 2) =~= n);
    assert(segment(h, pos, 1) =~= kw);
    assert(segment(h, pos, 0) =~= jv);
}

proof fn lemma_four_parts(pv: Seq<char>, jv: Seq<char>, kw: Seq<char>, n: Seq<char>)
    requires
        lacks(pv, '/'),
        lacks(jv, '/'),
        lacks(kw, '/'),
        lacks(n, '/'),
    ensures
        ({
            let h = pv + seq!['/'] + jv + seq!['/'] + kw + seq!['/'] + n;
            let pos = slashes(h);
            &&& pos.len() == 3
            &&& segment(h, pos, 3) == n
            &&& segment(h, pos, 2) == kw
            &&& segment(h, pos, 1) == jv
            &&& segment(h, pos, 0) == pv
        }),
{
    let pj = pv + seq!['/'] + jv;
    let pjk = pj + seq!['/'] + kw;
    let h = pjk + seq!['/'] + n;
    lemma_slashes_none(pv);
    lemma_slashes_then(pv, jv);
    lemma_slashes_then(pj, kw);
    lemma_slashes_then(pjk, n);
    let pos = slashes(h);
    assert(pos =~= seq![pv.len() as int, pj.len() as int, pjk.len() as int]);
    assert(segment(h, pos, 3) =~= n);
    assert(segment(h, pos, 2) =~= kw);
    assert(segment(h, pos, 1) =~= jv);
    assert(segment(h, pos, 0) =~= pv);
}

proof fn lemma_head_parts(r: Reference)
    requires
        writes_back(r),
    ensures
        head_parts(reference_head(r)) == Some((opt_view(r.proj), opt_view(r.job), r.kind, r.name@)),
        lacks(reference_head(r), '@'),
{
    let h = reference_head(r);
    let kw = kind_word(r.kind);
    let n = r.name@;
    let slash = seq!['/'];
    lemma_kind_word(r.kind);
    assert(lacks(slash, '@'));
    match r.job {
        None => {
            assert(h =~= kw + slash + n);
            lemma_two_parts(kw, n);
            lemma_lacks_cat(kw, slash, '@');
            lemma_lacks_cat(kw + slash, n, '@');
        },
        Some(j) => {
            let jv = j@;
            match r.proj {
                None => {
                    assert(h =~= jv + slash + kw + slash + n);
                    lemma_three_parts(jv, kw, n);
                    lemma_lacks_cat(jv, slash, '@');
                    lemma_lacks_cat(jv + slash, kw, '@');
                    lemma_lacks_cat(jv + slash + kw, slash, '@');
                    lemma_lacks_cat(jv + slash + kw + slash, n, '@');
                },
                Some(p) => {
                    let pv = p@;
                    assert(h =~= pv + slash + jv + slash + kw + slash + n);
                    lemma_four_parts(pv, jv, kw, n);
                    lemma_lacks_cat(pv, slash, '@');
                    lemma_lacks_cat(pv + slash, jv, '@');
                    lemma_lacks_cat(pv + slash + jv, slash, '@');
                    lemma_lacks_cat(pv + slash + jv + slash, kw, '@');
                    lemma_lacks_cat(pv + slash + jv + slash + kw, slash, '@');
                    lemma_lacks_cat(pv + slash + jv + slash + kw + slash, n, '@');
                },
            }
        },
    }
}

/// Reading back the text of a reference that writes back gives the reference.
proof fn lemma_reads_back(r: Reference)
    requires
        writes_back(r),
        r.offset matches Some(off) ==> ({
            let t = human_duration_text(off.secs as u64, off.nanos);
            &&& human_duration(t) == Ok::<(u64, u32), Seq<char>>((off.secs as u64, off.nanos))
            &&& t.len() > 0
            &&& forall|i: int| 0 <= i < t.len() ==> t[i] != '\n'
            &&& duration_nanos(t) == off.secs * 1_000_000_000 + off.nanos
        }),
    ensures
        reference_result_matches(reference_text(r), Ok(r)),
{
    let h = reference_head(r);
    let s = reference_text(r);
    lemma_head_parts(r);
    match r.offset {
        None => {
            assert(s =~= h);
            lemma_first_index(s, '@', s.len() as int);
            assert(s.take(s.len() as int) =~= h);
        },
        Some(off) => {
            let t = human_duration_text(off.secs as u64, off.nanos);
            assert(s =~= h + seq!['@'] + t);
            assert(s[h.len() as int] == '@');
            assert forall|j: int| 0 <= j < h.len() implies s[j] != '@' by {
                assert(s[j] == h[j]);
            }
            lemma_first_index(s, '@', h.len() as int);
            assert(s.take(h.len() as int) =~= h);
            assert(s.subrange(h.len() + 1int, s.len() as int) =~= t);
            assert((off.secs as u64) as i64 == off.secs);
        },
    }
}

impl Reference {
    /// The reference written back as text.
    pub fn to_string(&self) -> (s: String)
        requires
            self.offset matches Some(off) ==> off.secs >= 0 && off.nanos < 1_000_000_000,
        ensures
            s@ == reference_text(*self),
            writes_back(*self) ==> reference_result_matches(s@, Ok(*self)),
    {
        let mut s = String::new();
        match &self.proj {
            Some(p) => {
                s.append(p.as_str());
                s.append("/");
                proof {
                    reveal_strlit("/");
                }
            },
            None => {},
        }
        match &self.job {
            Some(j) => {
                s.append(j.as_str());
                s.append("/");
                proof {
                    reveal_strlit("/");
                }
            },
            None => {},
        }
        s.append(self.kind.as_str());
        s.append("/");
        s.append(self.name.as_str());
        proof {
            reveal_strlit("/");
        }
        match self.offset {
            Some(off) => {
                s.append("@");
                proof {
                    reveal_strlit("@");
                }
                let text = format_human_duration(off.secs as u64, off.nanos);
                s.append(text.as_str());
            },
            None => {},
        }
        assert(s@ =~= reference_text(*self));
        proof {
            if writes_back(*self) {
                lemma_reads_back(*self);
            }
        }
        s
    }
}

} // verus!
