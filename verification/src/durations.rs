//! Human readable durations ("1h 30m", "-10m") as used in job definitions.

use vstd::prelude::*;
use crate::reference::is_unicode_space;

verus! {

/// What `humantime::parse_duration` gives for a text: the whole seconds and the
/// nanoseconds of the duration, or the text of its error.
pub uninterp spec fn human_duration(text: Seq<char>) -> Result<(u64, u32), Seq<char>>;

/// What `humantime::format_duration` writes for a duration of `secs` seconds and
/// `nanos` nanoseconds.
pub uninterp spec fn human_duration_text(secs: u64, nanos: u32) -> Seq<char>;

/// The nanoseconds in one of a unit of the duration parser, or 0 for a word
/// that is no unit.
pub open spec fn unit_nanos(w: Seq<char>) -> int {
    if w == "nanos"@ || w == "nsec"@ || w == "ns"@ {
        1
    } else if w == "usec"@ || w == "us"@ {
        1_000
    } else if w == "millis"@ || w == "msec"@ || w == "ms"@ {
        1_000_000
    } else if w == "seconds"@ || w == "second"@ || w == "secs"@ || w == "sec"@ || w == "s"@ {
        1_000_000_000
    } else if w == "minutes"@ || w == "minute"@ || w == "min"@ || w == "mins"@ || w == "m"@ {
        60_000_000_000
    } else if w == "hours"@ || w == "hour"@ || w == "hr"@ || w == "hrs"@ || w == "h"@ {
        3_600_000_000_000
    } else if w == "days"@ || w == "day"@ || w == "d"@ {
        86_400_000_000_000
    } else if w == "weeks"@ || w == "week"@ || w == "w"@ {
        604_800_000_000_000
    } else if w == "months"@ || w == "month"@ || w == "M"@ {
        2_630_016_000_000_000
    } else if w == "years"@ || w == "year"@ || w == "y"@ {
        31_557_600_000_000_000
    } else {
        0
    }
}

pub open spec fn is_digit(c: char) -> bool {
    '0' <= c && c <= '9'
}

pub open spec fn is_ascii_letter(c: char) -> bool {
    ('a' <= c && c <= 'z') || ('A' <= c && c <= 'Z')
}

pub open spec fn digit_value(c: char) -> int {
    c as int - '0' as int
}

/// The state of reading a duration text as the parser reads it: where it is (0:
/// expecting a number, 1: in a number, 2: in a unit, 3: refused), the
/// nanoseconds of the numbers already followed by a unit, the number being read
/// (digits accumulate across white space), the unit being read, and whether a
/// unit has been read.
pub open spec fn scan_step(s: (int, int, int, Seq<char>, bool), c: char) -> (int, int, int, Seq<char>, bool) {
    let (phase, total, num, word, units) = s;
    if phase == 0 {
        if is_unicode_space(c) {
            s
        } else if is_digit(c) {
            (1, total, digit_value(c), Seq::empty(), units)
        } else {
            (3, total, num, word, units)
        }
    } else if phase == 1 {
        if is_digit(c) {
            (1, total, num * 10 + digit_value(c), word, units)
        } else if is_unicode_space(c) {
            s
        } else if is_ascii_letter(c) {
            (2, total, num, seq![c], units)
        } else {
            (3, total, num, word, units)
        }
    } else if phase == 2 {
        if is_ascii_letter(c) {
            (2, total, num, word.push(c), units)
        } else if (is_digit(c) || is_unicode_space(c)) && unit_nanos(word) > 0 {
            let t = total + num * unit_nanos(word);
            if is_digit(c) {
                (1, t, digit_value(c), Seq::empty(), true)
            } else {
                (0, t, 0, Seq::empty(), true)
            }
        } else {
            (3, total, num, word, units)
        }
    } else {
        s
    }
}

pub open spec fn duration_scan(t: Seq<char>) -> (int, int, int, Seq<char>, bool)
    decreases t.len(),
{
    if t.len() == 0 {
        (0, 0, 0, Seq::empty(), false)
    } else {
        scan_step(duration_scan(t.drop_last()), t.last())
    }
}

/// A text that the parser reads to its end: numbers each followed by a known
/// unit, with no other character than white space between them.
pub open spec fn duration_complete(t: Seq<char>) -> bool {
    let s = duration_scan(t);
    (s.0 == 0 && s.4) || (s.0 == 2 && unit_nanos(s.3) > 0)
}

/// The nanoseconds that the numbers and units of a text add up to, as far as it
/// is read.
pub open spec fn duration_nanos(t: Seq<char>) -> int {
    let s = duration_scan(t);
    if s.0 == 2 && unit_nanos(s.3) > 0 {
        s.1 + s.2 * unit_nanos(s.3)
    } else {
        s.1
    }
}

/// One more second than the largest duration: `(u64::MAX + 1)` seconds, in
/// nanoseconds.
pub open spec fn overflow_nanos() -> int {
    18_446_744_073_709_551_616_000_000_000
}

/// A duration text that the parser does not read to its end with a total of
/// `u64::MAX + 1` seconds or more. On the others it either fails with "number is
/// too large" or panics.
pub open spec fn duration_safe(t: Seq<char>) -> bool {
    !(duration_complete(t) && duration_nanos(t) >= overflow_nanos())
}

/// The message of a duration whose numbers are too large.
pub open spec fn too_large_message() -> Seq<char> {
    "number is too large"@
}

/// What parsing a duration text gives: the parser's result, or "number is too
/// large" for a text that it would read to its end with more than `u64::MAX`
/// seconds.
pub open spec fn duration_of(t: Seq<char>) -> Result<(u64, u32), Seq<char>> {
    if duration_safe(t) {
        human_duration(t)
    } else {
        Err(too_large_message())
    }
}

/// The number that a run of decimal digits writes.
pub open spec fn digits_value(ds: Seq<char>) -> int
    decreases ds.len(),
{
    if ds.len() == 0 {
        0
    } else {
        digits_value(ds.drop_last()) * 10 + digit_value(ds.last())
    }
}

proof fn lemma_scan_digits(ds: Seq<char>)
    requires
        ds.len() > 0,
        forall|i: int| 0 <= i < ds.len() ==> is_digit(#[trigger] ds[i]),
    ensures
        duration_scan(ds) == (1int, 0int, digits_value(ds), Seq::<char>::empty(), false),
    decreases ds.len(),
{
    let c = ds.last();
    assert(is_digit(c));
    assert(!is_unicode_space(c));
    if ds.len() > 1 {
        assert forall|i: int| 0 <= i < ds.drop_last().len() implies is_digit(#[trigger] ds.drop_last()[i]) by {
            assert(ds.drop_last()[i] == ds[i]);
        }
        lemma_scan_digits(ds.drop_last());
    } else {
        assert(ds.drop_last() =~= Seq::<char>::empty());
        assert(duration_scan(ds.drop_last()) == (0int, 0int, 0int, Seq::<char>::empty(), false));
        assert(digits_value(ds.drop_last()) == 0);
    }
}

proof fn lemma_scan_unit(ds: Seq<char>, w: Seq<char>, k: int)
    requires
        ds.len() > 0,
        forall|i: int| 0 <= i < ds.len() ==> is_digit(#[trigger] ds[i]),
        1 <= k <= w.len(),
        forall|i: int| 0 <= i < w.len() ==> is_ascii_letter(#[trigger] w[i]),
    ensures
        duration_scan(ds + w.take(k)) == (2int, 0int, digits_value(ds), w.take(k), false),
    decreases k,
{
    let t = ds + w.take(k);
    assert(t.drop_last() =~= ds + w.take(k - 1));
    assert(t.last() == w[k - 1]);
    assert(is_ascii_letter(w[k - 1]));
    assert(!is_digit(w[k - 1]) && !is_unicode_space(w[k - 1]));
    if k == 1 {
        assert(ds + w.take(0) =~= ds);
        lemma_scan_digits(ds);
        assert(w.take(1) =~= seq![w[0]]);
    } else {
        lemma_scan_unit(ds, w, k - 1);
        assert(w.take(k - 1).push(w[k - 1]) =~= w.take(k));
    }
}

/// A number followed by one unit is read to its end, and adds up to the number
/// times the unit's length; it is handed to the parser unless that reaches one
/// second more than `u64::MAX` seconds.
pub proof fn lemma_one_unit(ds: Seq<char>, w: Seq<char>)
    requires
        ds.len() > 0,
        forall|i: int| 0 <= i < ds.len() ==> is_digit(#[trigger] ds[i]),
        w.len() > 0,
        forall|i: int| 0 <= i < w.len() ==> is_ascii_letter(#[trigger] w[i]),
        unit_nanos(w) > 0,
    ensures
        duration_complete(ds + w),
        duration_nanos(ds + w) == digits_value(ds) * unit_nanos(w),
        digits_value(ds) * unit_nanos(w) < overflow_nanos() ==> duration_of(ds + w) == human_duration(ds + w),
{
    lemma_scan_unit(ds, w, w.len() as int);
    assert(w.take(w.len() as int) =~= w);
}

/// Each unit is worth its real length: a microsecond is a thousand
/// nanoseconds, a millisecond a thousand microseconds, a second a thousand
/// milliseconds, a minute sixty seconds, an hour sixty minutes, a day 24 hours,
/// a week seven days, a month 30.44 days and a year 365.25 days; and every
/// spelling of a unit is worth the same.
pub proof fn lemma_unit_lengths()
    ensures
        unit_nanos("ns"@) == 1,
        unit_nanos("us"@) == 1_000 * unit_nanos("ns"@),
        unit_nanos("ms"@) == 1_000 * unit_nanos("us"@),
        unit_nanos("s"@) == 1_000 * unit_nanos("ms"@),
        unit_nanos("m"@) == 60 * unit_nanos("s"@),
        unit_nanos("h"@) == 60 * unit_nanos("m"@),
        unit_nanos("d"@) == 24 * unit_nanos("h"@),
        unit_nanos("w"@) == 7 * unit_nanos("d"@),
        unit_nanos("M"@) * 100 == 3044 * unit_nanos("d"@),
        unit_nanos("y"@) * 100 == 36525 * unit_nanos("d"@),
        unit_nanos("nanos"@) == unit_nanos("ns"@) && unit_nanos("nsec"@) == unit_nanos("ns"@),
        unit_nanos("usec"@) == unit_nanos("us"@),
        unit_nanos("millis"@) == unit_nanos("ms"@) && unit_nanos("msec"@) == unit_nanos("ms"@),
        unit_nanos("seconds"@) == unit_nanos("s"@) && unit_nanos("second"@) == unit_nanos("s"@)
            && unit_nanos("secs"@) == unit_nanos("s"@) && unit_nanos("sec"@) == unit_nanos("s"@),
        unit_nanos("minutes"@) == unit_nanos("m"@) && unit_nanos("minute"@) == unit_nanos("m"@)
            && unit_nanos("min"@) == unit_nanos("m"@) && unit_nanos("mins"@) == unit_nanos("m"@),
        unit_nanos("hours"@) == unit_nanos("h"@) && unit_nanos("hour"@) == unit_nanos("h"@)
            && unit_nanos("hr"@) == unit_nanos("h"@) && unit_nanos("hrs"@) == unit_nanos("h"@),
        unit_nanos("days"@) == unit_nanos("d"@) && unit_nanos("day"@) == unit_nanos("d"@),
        unit_nanos("weeks"@) == unit_nanos("w"@) && unit_nanos("week"@) == unit_nanos("w"@),
        unit_nanos("months"@) == unit_nanos("M"@) && unit_nanos("month"@) == unit_nanos("M"@),
        unit_nanos("years"@) == unit_nanos("y"@) && unit_nanos("year"@) == unit_nanos("y"@),
{
    reveal_strlit("nanos");
    assert("nanos"@.len() == 5);
    assert("nanos"@[0] == 'n');
    assert("nanos"@[1] == 'a');
    assert("nanos"@[2] == 'n');
    reveal_strlit("nsec");
    assert("nsec"@.len() == 4);
    assert("nsec"@[0] == 'n');
    assert("nsec"@[1] == 's');
    assert("nsec"@[2] == 'e');
    reveal_strlit("ns");
    assert("ns"@.len() == 2);
    assert("ns"@[0] == 'n');
    assert("ns"@[1] == 's');
    reveal_strlit("usec");
    assert("usec"@.len() == 4);
    assert("usec"@[0] == 'u');
    assert("usec"@[1] == 's');
    assert("usec"@[2] == 'e');
    reveal_strlit("us");
    assert("us"@.len() == 2);
    assert("us"@[0] == 'u');
    assert("us"@[1] == 's');
    reveal_strlit("millis");
    assert("millis"@.len() == 6);
    assert("millis"@[0] == 'm');
    assert("millis"@[1] == 'i');
    assert("millis"@[2] == 'l');
    reveal_strlit("msec");
    assert("msec"@.len() == 4);
    assert("msec"@[0] == 'm');
    assert("msec"@[1] == 's');
    assert("msec"@[2] == 'e');
    reveal_strlit("ms");
    assert("ms"@.len() == 2);
    assert("ms"@[0] == 'm');
    assert("ms"@[1] == 's');
    reveal_strlit("seconds");
    assert("seconds"@.len() == 7);
    assert("seconds"@[0] == 's');
    assert("seconds"@[1] == 'e');
    assert("seconds"@[2] == 'c');
    reveal_strlit("second");
    assert("second"@.len() == 6);
    assert("second"@[0] == 's');
    assert("second"@[1] == 'e');
    assert("second"@[2] == 'c');
    reveal_strlit("secs");
    assert("secs"@.len() == 4);
    assert("secs"@[0] == 's');
    assert("secs"@[1] == 'e');
    assert("secs"@[2] == 'c');
    reveal_strlit("sec");
    assert("sec"@.len() == 3);
    assert("sec"@[0] == 's');
    assert("sec"@[1] == 'e');
    assert("sec"@[2] == 'c');
    reveal_strlit("s");
    assert("s"@.len() == 1);
    assert("s"@[0] == 's');
    reveal_strlit("minutes");
    assert("minutes"@.len() == 7);
    assert("minutes"@[0] == 'm');
    assert("minutes"@[1] == 'i');
    assert("minutes"@[2] == 'n');
    reveal_strlit("minute");
    assert("minute"@.len() == 6);
    assert("minute"@[0] == 'm');
    assert("minute"@[1] == 'i');
    assert("minute"@[2] == 'n');
    reveal_strlit("min");
    assert("min"@.len() == 3);
    assert("min"@[0] == 'm');
    assert("min"@[1] == 'i');
    assert("min"@[2] == 'n');
    reveal_strlit("mins");
    assert("mins"@.len() == 4);
    assert("mins"@[0] == 'm');
    assert("mins"@[1] == 'i');
    assert("mins"@[2] == 'n');
    reveal_strlit("m");
    assert("m"@.len() == 1);
    assert("m"@[0] == 'm');
    reveal_strlit("hours");
    assert("hours"@.len() == 5);
    assert("hours"@[0] == 'h');
    assert("hours"@[1] == 'o');
    assert("hours"@[2] == 'u');
    reveal_strlit("hour");
    assert("hour"@.len() == 4);
    assert("hour"@[0] == 'h');
    assert("hour"@[1] == 'o');
    assert("hour"@[2] == 'u');
    reveal_strlit("hr");
    assert("hr"@.len() == 2);
    assert("hr"@[0] == 'h');
    assert("hr"@[1] == 'r');
    reveal_strlit("hrs");
    assert("hrs"@.len() == 3);
    assert("hrs"@[0] == 'h');
    assert("hrs"@[1] == 'r');
    assert("hrs"@[2] == 's');
    reveal_strlit("h");
    assert("h"@.len() == 1);
    assert("h"@[0] == 'h');
    reveal_strlit("days");
    assert("days"@.len() == 4);
    assert("days"@[0] == 'd');
    assert("days"@[1] == 'a');
    assert("days"@[2] == 'y');
    reveal_strlit("day");
    assert("day"@.len() == 3);
    assert("day"@[0] == 'd');
    assert("day"@[1] == 'a');
    assert("day"@[2] == 'y');
    reveal_strlit("d");
    assert("d"@.len() == 1);
    assert("d"@[0] == 'd');
    reveal_strlit("weeks");
    assert("weeks"@.len() == 5);
    assert("weeks"@[0] == 'w');
    assert("weeks"@[1] == 'e');
    assert("weeks"@[2] == 'e');
    reveal_strlit("week");
    assert("week"@.len() == 4);
    assert("week"@[0] == 'w');
    assert("week"@[1] == 'e');
    assert("week"@[2] == 'e');
    reveal_strlit("w");
    assert("w"@.len() == 1);
    assert("w"@[0] == 'w');
    reveal_strlit("months");
    assert("months"@.len() == 6);
    assert("months"@[0] == 'm');
    assert("months"@[1] == 'o');
    assert("months"@[2] == 'n');
    reveal_strlit("month");
    assert("month"@.len() == 5);
    assert("month"@[0] == 'm');
    assert("month"@[1] == 'o');
    assert("month"@[2] == 'n');
    reveal_strlit("M");
    assert("M"@.len() == 1);
    assert("M"@[0] == 'M');
    reveal_strlit("years");
    assert("years"@.len() == 5);
    assert("years"@[0] == 'y');
    assert("years"@[1] == 'e');
    assert("years"@[2] == 'a');
    reveal_strlit("year");
    assert("year"@.len() == 4);
    assert("year"@[0] == 'y');
    assert("year"@[1] == 'e');
    assert("year"@[2] == 'a');
    reveal_strlit("y");
    assert("y"@.len() == 1);
    assert("y"@[0] == 'y');
}

proof fn lemma_duration_scan_nonneg(t: Seq<char>)
    ensures
        duration_scan(t).1 >= 0,
        duration_scan(t).2 >= 0,
        0 <= duration_scan(t).0 <= 3,
    decreases t.len(),
{
    if t.len() > 0 {
        lemma_duration_scan_nonneg(t.drop_last());
        let s = duration_scan(t.drop_last());
        assert(s.2 * unit_nanos(s.3) >= 0) by (nonlinear_arith)
            requires
                s.2 >= 0,
                unit_nanos(s.3) >= 0,
        ;
    }
}

pub open spec fn capped(x: int) -> int {
    if x < overflow_nanos() {
        x
    } else {
        overflow_nanos()
    }
}

proof fn lemma_capped_mul(x: int, w: int)
    requires
        x >= 0,
        w >= 1,
    ensures
        capped(capped(x) * w) == capped(x * w),
        x * w >= 0,
{
    assert(x * w >= 0) by (nonlinear_arith)
        requires
            x >= 0,
            w >= 1,
    ;
    if x >= overflow_nanos() {
        assert(x * w >= overflow_nanos()) by (nonlinear_arith)
            requires
                x >= overflow_nanos(),
                w >= 1,
        ;
        assert(overflow_nanos() * w >= overflow_nanos()) by (nonlinear_arith)
            requires
                w >= 1,
        ;
    }
}

proof fn lemma_capped_add(a: int, b: int)
    requires
        a >= 0,
        b >= 0,
    ensures
        capped(capped(a) + capped(b)) == capped(a + b),
{
}

/// Whether a word is the given text.
fn word_is(w: &Vec<char>, s: &str) -> (r: bool)
    ensures
        r == (w@ == s@),
{
    let n = s.unicode_len();
    if w.len() != n {
        return false;
    }
    let mut j: usize = 0;
    while j < n
        invariant
            n == s@.len(),
            w@.len() == n,
            0 <= j <= n,
            forall|k: int| 0 <= k < j ==> w@[k] == s@[k],
        decreases n - j,
    {
        if w[j] != s.get_char(j) {
            return false;
        }
        j = j + 1;
    }
    proof {
        assert(w@ =~= s@);
    }
    true
}

fn unit_nanos_of(w: &Vec<char>) -> (r: u128)
    ensures
        r == unit_nanos(w@),
{
    if word_is(w, "nanos") || word_is(w, "nsec") || word_is(w, "ns") {
        1
    } else if word_is(w, "usec") || word_is(w, "us") {
        1_000
    } else if word_is(w, "millis") || word_is(w, "msec") || word_is(w, "ms") {
        1_000_000
    } else if word_is(w, "seconds") || word_is(w, "second") || word_is(w, "secs") || word_is(w, "sec")
        || word_is(w, "s") {
        1_000_000_000
    } else if word_is(w, "minutes") || word_is(w, "minute") || word_is(w, "min") || word_is(w, "mins")
        || word_is(w, "m") {
        60_000_000_000
    } else if word_is(w, "hours") || word_is(w, "hour") || word_is(w, "hr") || word_is(w, "hrs")
        || word_is(w, "h") {
        3_600_000_000_000
    } else if word_is(w, "days") || word_is(w, "day") || word_is(w, "d") {
        86_400_000_000_000
    } else if word_is(w, "weeks") || word_is(w, "week") || word_is(w, "w") {
        604_800_000_000_000
    } else if word_is(w, "months") || word_is(w, "month") || word_is(w, "M") {
        2_630_016_000_000_000
    } else if word_is(w, "years") || word_is(w, "year") || word_is(w, "y") {
        31_557_600_000_000_000
    } else {
        0
    }
}

/// `total + num * w`, with each of them capped at `overflow_nanos()`.
fn add_product(total: u128, num: u128, w: u128, Ghost(t0): Ghost<int>, Ghost(n0): Ghost<int>) -> (r: u128)
    requires
        t0 >= 0,
        n0 >= 0,
        total == capped(t0),
        num == capped(n0),
        w >= 1,
    ensures
        r == capped(t0 + n0 * w),
{
    proof {
        lemma_capped_mul(n0, w as int);
        lemma_capped_add(t0, n0 * w);
    }
    let top: u128 = 18_446_744_073_709_551_616_000_000_000;
    let prod = match num.checked_mul(w) {
        Some(p) => if p < top { p } else { top },
        None => top,
    };
    let sum = total + prod;
    if sum < top { sum } else { top }
}

/// Whether the duration parser can read a text without passing `u64::MAX`
/// seconds at its end.
pub fn duration_text_safe(text: &str) -> (b: bool)
    ensures
        b == duration_safe(text@),
{
    let n = text.unicode_len();
    let top: u128 = 18_446_744_073_709_551_616_000_000_000;
    let mut phase: u8 = 0;
    let mut total: u128 = 0;
    let mut num: u128 = 0;
    let mut word: Vec<char> = Vec::new();
    let mut units = false;
    let mut i: usize = 0;
    proof {
        assert(text@.take(0) =~= Seq::<char>::empty());
        assert(word@ =~= Seq::<char>::empty());
    }
    while i < n
        invariant
            0 <= i <= n,
            n == text@.len(),
            top == overflow_nanos(),
            phase == duration_scan(text@.take(i as int)).0,
            total == capped(duration_scan(text@.take(i as int)).1),
            num == capped(duration_scan(text@.take(i as int)).2),
            word@ == duration_scan(text@.take(i as int)).3,
            units == duration_scan(text@.take(i as int)).4,
        decreases n - i,
    {
        let c = text.get_char(i);
        let ghost prefix = text@.take(i as int);
        proof {
            assert(text@.take(i + 1).drop_last() =~= prefix);
            assert(text@.take(i + 1).last() == c);
            lemma_duration_scan_nonneg(prefix);
        }
        let ghost s0 = duration_scan(prefix);
        let digit = '0' <= c && c <= '9';
        let space = crate::reference::is_space_char(c);
        let letter = ('a' <= c && c <= 'z') || ('A' <= c && c <= 'Z');
        let d = if digit { ((c as u32) - 48) as u128 } else { 0 };
        if phase == 0 {
            if space {
            } else if digit {
                phase = 1;
                num = d;
                word = Vec::new();
                proof {
                    assert(word@ =~= Seq::<char>::empty());
                }
            } else {
                phase = 3;
            }
        } else if phase == 1 {
            if digit {
                let next = num * 10 + d;
                num = if next < top { next } else { top };
                proof {
                    assert(capped(capped(s0.2) * 10 + d) == capped(s0.2 * 10 + d)) by {
                        if s0.2 >= overflow_nanos() {
                            assert(s0.2 * 10 + d >= overflow_nanos());
                        }
                    }
                }
            } else if space {
            } else if letter {
                phase = 2;
                word = vec![c];
                proof {
                    assert(word@ =~= seq![c]);
                }
            } else {
                phase = 3;
            }
        } else if phase == 2 {
            if letter {
                word.push(c);
            } else if digit || space {
                let w = unit_nanos_of(&word);
                if w > 0 {
                    total = add_product(total, num, w, Ghost(s0.1), Ghost(s0.2));
                    units = true;
                    word = Vec::new();
                    proof {
                        assert(word@ =~= Seq::<char>::empty());
                    }
                    if digit {
                        phase = 1;
                        num = d;
                    } else {
                        phase = 0;
                        num = 0;
                    }
                } else {
                    phase = 3;
                }
            } else {
                phase = 3;
            }
        }
        i = i + 1;
    }
    proof {
        assert(text@.take(n as int) =~= text@);
        lemma_duration_scan_nonneg(text@);
    }
    let ghost s = duration_scan(text@);
    let mut complete = phase == 0 && units;
    if phase == 2 {
        let w = unit_nanos_of(&word);
        if w > 0 {
            complete = true;
            total = add_product(total, num, w, Ghost(s.1), Ghost(s.2));
        }
    }
    !(complete && total >= top)
}

/// Parses a duration text with the human duration parser; a text that it would
/// read to its end with more than `u64::MAX` seconds gets "number is too large"
/// (the parser's own message for an overflow) without being handed to it.
pub fn parse_duration(text: &str) -> (r: Result<(u64, u32), String>)
    ensures
        match duration_of(text@) {
            Ok(d) => r == Ok::<(u64, u32), String>(d),
            Err(m) => r matches Err(e) && e@ == m,
        },
        r matches Ok(d) ==> d.1 < 1_000_000_000,
{
    if duration_text_safe(text) {
        parse_human_duration(text)
    } else {
        Err(String::from_str("number is too large"))
    }
}

/// Calls `humantime::parse_duration`. The contract names the outcome: the
/// duration as (`as_secs`, `subsec_nanos`), whose nanoseconds std keeps below one
/// second, or the `Display` text of the error. The parser reaches its end only
/// on a text that `duration_complete` accepts, and there it has added up exactly
/// `duration_nanos` nanoseconds; it panics (in `Duration::new`) when that is
/// `u64::MAX + 1` seconds, so `requires` keeps the texts that are not complete
/// or add up to less.
#[verifier::external_body]
pub(crate) fn parse_human_duration(text: &str) -> (r: Result<(u64, u32), String>)
    requires
        duration_safe(text@),
    ensures
        match r {
            Ok(d) => human_duration(text@) == Ok::<(u64, u32), Seq<char>>(d),
            Err(msg) => human_duration(text@) == Err::<(u64, u32), Seq<char>>(msg@),
        },
        r matches Ok(d) ==> d.1 < 1_000_000_000,
{
    match humantime::parse_duration(text) {
        Ok(d) => Ok((d.as_secs(), d.subsec_nanos())),
        Err(e) => Err(e.to_string()),
    }
}

/// Calls `humantime::format_duration` on the duration of `secs` seconds and
/// `nanos` nanoseconds and renders it with `to_string`. The contract names the
/// text and states what the crate documents of it, that parsing it back gives
/// the same duration, and what its source shows of its shape: it is never empty
/// ("0s" for a zero duration), is written on one line, and is made of items
/// (years, months, days, h, m, s, ms, us, ns) whose numbers times their units
/// add up to exactly the duration.
#[verifier::external_body]
pub(crate) fn format_human_duration(secs: u64, nanos: u32) -> (shown: String)
    requires
        nanos < 1_000_000_000,
    ensures
        shown@ == human_duration_text(secs, nanos),
        (human_duration(shown@) == Ok::<(u64, u32), Seq<char>>((secs, nanos))),
        shown@.len() > 0,
        forall|i: int| 0 <= i < shown@.len() ==> shown@[i] != '\n',
        duration_nanos(shown@) == secs * 1_000_000_000 + nanos,
{
    humantime::format_duration(std::time::Duration::new(secs, nanos)).to_string()
}

/// A setting written as a human duration ("30s", "5m", "1h"), in whole seconds
/// (a fraction of a second is dropped); the parser's message when the text is no
/// duration.
pub fn setting_secs(text: &str) -> (r: Result<u64, String>)
    ensures
        match duration_of(text@) {
            Ok(d) => r == Ok::<u64, String>(d.0),
            Err(m) => r matches Err(e) && e@ == m,
        },
{
    match parse_duration(text) {
        Ok(d) => Ok(d.0),
        Err(m) => Err(m),
    }
}

/// An optional duration setting of a task (its retry delay or its timeout) in
/// whole seconds, cut to 32 bits as it is stored; the parser's message when the
/// text is no duration.
pub fn optional_secs(text: Option<&str>) -> (r: Result<Option<i32>, String>)
    ensures
        match text {
            None => r == Ok::<Option<i32>, String>(None),
            Some(t) => match duration_of(t@) {
                Ok(d) => r == Ok::<Option<i32>, String>(Some(d.0 as i32)),
                Err(m) => r matches Err(e) && e@ == m,
            },
        },
{
    match text {
        None => Ok(None),
        Some(t) => match parse_duration(t) {
            Ok(d) => Ok(Some(d.0 as i32)),
            Err(m) => Err(m),
        },
    }
}

/// The text with every leading '-' removed.
pub open spec fn strip_dashes(s: Seq<char>) -> Seq<char>
    decreases s.len(),
{
    if s.len() > 0 && s[0] == '-' {
        strip_dashes(s.drop_first())
    } else {
        s
    }
}

/// A period in whole seconds: a leading '-' makes it negative (all leading dashes
/// are dropped before parsing); the seconds are cut to 32 bits.
pub open spec fn period_secs(text: Seq<char>) -> Result<i32, Seq<char>> {
    let neg = text.len() > 0 && text[0] == '-';
    let body = if neg {
        strip_dashes(text)
    } else {
        text
    };
    match duration_of(body) {
        Ok(d) => {
            let secs = d.0 as i32;
            Ok(
                if neg {
                    0i32.wrapping_sub(secs)
                } else {
                    secs
                },
            )
        },
        Err(msg) => Err(msg),
    }
}

/// An error from parsing a duration, with the parser's message.
#[derive(Debug, Clone, PartialEq, Eq)]
pub struct DurationError {
    pub message: String,
}

impl DurationError {
    /// The error message.
    pub fn to_string(&self) -> (s: String)
        ensures
            s@ == self.message@,
    {
        self.message.clone()
    }
}

fn strip_leading_dashes(s: &str) -> (r: &str)
    ensures
        r@ == strip_dashes(s@),
    decreases s@.len(),
{
    let n = s.unicode_len();
    if n > 0 && s.get_char(0) == '-' {
        let rest = s.substring_char(1, n);
        assert(rest@ =~= s@.drop_first());
        strip_leading_dashes(rest)
    } else {
        s
    }
}

/// Parses an optional signed period ("10m", "-1h") into seconds.
pub fn period_from_string(period: Option<&str>) -> (r: Result<Option<i32>, DurationError>)
    ensures
        (period is None ==> r == Ok::<Option<i32>, DurationError>(None)),
        period matches Some(text) ==> match period_secs(text@) {
            Ok(secs) => r == Ok::<Option<i32>, DurationError>(Some(secs)),
            Err(msg) => r matches Err(e) && e.message@ == msg,
        },
{
    match period {
        None => Ok(None),
        Some(text) => {
            let neg = text.unicode_len() > 0 && text.get_char(0) == '-';
            let body = if neg {
                strip_leading_dashes(text)
            } else {
                text
            };
            match parse_duration(body) {
                Ok(d) => {
                    #[verifier::truncate]
                    let secs = d.0 as i32;
                    if neg {
                        Ok(Some(0i32.wrapping_sub(secs)))
                    } else {
                        Ok(Some(secs))
                    }
                },
                Err(message) => Err(DurationError { message }),
            }
        },
    }
}

} // verus!
