//! Scanning the bytes of one line of a mesh file.
//!
//! A line is made of blanks, a keyword, signs, digits and slashes. Blanks
//! between two items never matter. Every scanner starts at a position of the
//! line, skips the blanks there, and tells where the item it found ends.

use vstd::prelude::*;

verus! {

/// Whether `b` is a blank: a space, a tab, a line feed, a vertical tab, a
/// form feed or a carriage return.
pub open spec fn is_blank(b: u8) -> bool {
    b == 0x20 || (0x09 <= b && b <= 0x0d)
}

/// Whether `b` is a decimal digit.
pub open spec fn is_digit(b: u8) -> bool {
    0x30 <= b && b <= 0x39
}

/// Whether `b` is a letter of either case.
pub open spec fn is_letter(b: u8) -> bool {
    (0x41 <= b && b <= 0x5a) || (0x61 <= b && b <= 0x7a)
}

/// Whether `b` can stand inside a word: a letter, a digit or an underscore.
pub open spec fn is_word_byte(b: u8) -> bool {
    is_letter(b) || is_digit(b) || b == 0x5f
}

/// The first position from `at` on that holds no blank; the length of the
/// line where only blanks follow.
pub open spec fn blanks_end(line: Seq<u8>, at: int) -> int
    decreases line.len() - at,
{
    if 0 <= at < line.len() && is_blank(line[at]) {
        blanks_end(line, at + 1)
    } else {
        at
    }
}

/// The first position from `at` on that holds no digit.
pub open spec fn digits_end(line: Seq<u8>, at: int) -> int
    decreases line.len() - at,
{
    if 0 <= at < line.len() && is_digit(line[at]) {
        digits_end(line, at + 1)
    } else {
        at
    }
}

/// The number that the decimal digits at the positions `from..to` spell.
pub open spec fn digits_value(line: Seq<u8>, from: int, to: int) -> nat
    decreases to - from,
{
    if from >= to {
        0
    } else {
        digits_value(line, from, to - 1) * 10 + (line[to - 1] - 0x30) as nat
    }
}

/// Whether the byte `b` stands at the position `at` of the line.
pub open spec fn has_byte(line: Seq<u8>, at: int, b: u8) -> bool {
    0 <= at < line.len() && line[at] == b
}

/// Whether nothing but blanks follows from `at` on.
pub open spec fn ends_at(line: Seq<u8>, at: int) -> bool {
    blanks_end(line, at) == line.len()
}

/// Where the keyword `letter` ends that follows the blanks at `at`. The
/// letter has to stand alone: no letter, digit or underscore follows it.
pub open spec fn keyword_at(line: Seq<u8>, at: int, letter: u8) -> Option<int> {
    let start = blanks_end(line, at);
    if has_byte(line, start, letter) && !(start + 1 < line.len() && is_word_byte(line[start + 1])) {
        Some(start + 1)
    } else {
        None
    }
}

/// Where the slash ends that follows the blanks at `at`.
pub open spec fn slash_at(line: Seq<u8>, at: int) -> Option<int> {
    let start = blanks_end(line, at);
    if has_byte(line, start, 0x2f) {
        Some(start + 1)
    } else {
        None
    }
}

/// The index that follows the blanks at `at`, and where it ends: a plus sign
/// or none, then one digit or more, which spell a number that a machine word
/// holds.
pub open spec fn index_at(line: Seq<u8>, at: int) -> Option<(usize, int)> {
    let start = blanks_end(line, at);
    let first = if has_byte(line, start, 0x2b) {
        start + 1
    } else {
        start
    };
    let end = digits_end(line, first);
    if end == first || digits_value(line, first, end) > usize::MAX {
        None
    } else {
        Some((digits_value(line, first, end) as usize, end))
    }
}

/// The ends of blanks and digits lie between the start and the end of the
/// line, and what lies before them is blank, or a digit.
pub proof fn lemma_run_ends(line: Seq<u8>, at: int)
    requires
        0 <= at <= line.len(),
    ensures
        at <= blanks_end(line, at) <= line.len(),
        at <= digits_end(line, at) <= line.len(),
        forall|k: int| at <= k < blanks_end(line, at) ==> is_blank(#[trigger] line[k]),
        forall|k: int| at <= k < digits_end(line, at) ==> is_digit(#[trigger] line[k]),
        blanks_end(line, at) < line.len() ==> !is_blank(line[blanks_end(line, at)]),
        digits_end(line, at) < line.len() ==> !is_digit(line[digits_end(line, at)]),
    decreases line.len() - at,
{
    if at < line.len() {
        lemma_run_ends(line, at + 1);
    }
}

/// A longer run of digits spells no smaller number.
pub proof fn lemma_digits_value_grows(line: Seq<u8>, from: int, mid: int, to: int)
    requires
        from <= mid <= to,
        forall|k: int| from <= k < to ==> is_digit(#[trigger] line[k]),
    ensures
        digits_value(line, from, mid) <= digits_value(line, from, to),
    decreases to - mid,
{
    if mid < to {
        lemma_digits_value_grows(line, from, mid, to - 1);
        assert(is_digit(line[to - 1]));
    }
}

/// Skips the blanks from `at` on.
pub fn skip_blanks(line: &[u8], at: usize) -> (end: usize)
    requires
        at <= line@.len(),
    ensures
        end == blanks_end(line@, at as int),
        at <= end <= line@.len(),
{
    let mut p: usize = at;
    while p < line.len() && (line[p] == 0x20 || (0x09 <= line[p] && line[p] <= 0x0d))
        invariant
            at <= p <= line@.len(),
            blanks_end(line@, p as int) == blanks_end(line@, at as int),
        decreases line@.len() - p,
    {
        p = p + 1;
    }
    proof {
        lemma_run_ends(line@, at as int);
    }
    p
}

/// Skips the digits from `at` on.
pub fn skip_digits(line: &[u8], at: usize) -> (end: usize)
    requires
        at <= line@.len(),
    ensures
        end == digits_end(line@, at as int),
        at <= end <= line@.len(),
{
    let mut p: usize = at;
    while p < line.len() && 0x30 <= line[p] && line[p] <= 0x39
        invariant
            at <= p <= line@.len(),
            digits_end(line@, p as int) == digits_end(line@, at as int),
        decreases line@.len() - p,
    {
        p = p + 1;
    }
    proof {
        lemma_run_ends(line@, at as int);
    }
    p
}

/// Whether nothing but blanks is left of the line from `at` on.
pub fn at_end(line: &[u8], at: usize) -> (done: bool)
    requires
        at <= line@.len(),
    ensures
        done == ends_at(line@, at as int),
{
    skip_blanks(line, at) == line.len()
}

/// Scans the keyword `letter`, alone in its word, and tells where it ends.
pub fn scan_keyword(line: &[u8], at: usize, letter: u8) -> (end: Option<usize>)
    requires
        at <= line@.len(),
    ensures
        match end {
            Some(e) => keyword_at(line@, at as int, letter) == Some(e as int) && e <= line@.len(),
            None => keyword_at(line@, at as int, letter).is_none(),
        },
{
    let start: usize = skip_blanks(line, at);
    if start < line.len() && line[start] == letter {
        if start + 1 < line.len() {
            let next: u8 = line[start + 1];
            let in_word: bool = (0x41 <= next && next <= 0x5a) || (0x61 <= next && next <= 0x7a)
                || (0x30 <= next && next <= 0x39) || next == 0x5f;
            if in_word {
                return None;
            }
        }
        Some(start + 1)
    } else {
        None
    }
}

/// Scans a slash and tells where it ends.
pub fn scan_slash(line: &[u8], at: usize) -> (end: Option<usize>)
    requires
        at <= line@.len(),
    ensures
        match end {
            Some(e) => slash_at(line@, at as int) == Some(e as int) && e <= line@.len(),
            None => slash_at(line@, at as int).is_none(),
        },
{
    let start: usize = skip_blanks(line, at);
    if start < line.len() && line[start] == 0x2f {
        Some(start + 1)
    } else {
        None
    }
}

/// Scans an index, and tells its value and where it ends. An index that no
/// machine word holds is none.
pub fn scan_index(line: &[u8], at: usize) -> (found: Option<(usize, usize)>)
    requires
        at <= line@.len(),
    ensures
        match found {
            Some((value, e)) => index_at(line@, at as int) == Some((value, e as int)) && e
                <= line@.len(),
            None => index_at(line@, at as int).is_none(),
        },
{
    let start: usize = skip_blanks(line, at);
    let first: usize = if start < line.len() && line[start] == 0x2b {
        start + 1
    } else {
        start
    };
    let end: usize = skip_digits(line, first);
    if end == first {
        return None;
    }
    proof {
        lemma_run_ends(line@, first as int);
    }
    let mut value: usize = 0;
    let mut p: usize = first;
    while p < end
        invariant
            first <= p <= end <= line@.len(),
            end == digits_end(line@, first as int),
            forall|k: int| first <= k < end ==> is_digit(#[trigger] line@[k]),
            value == digits_value(line@, first as int, p as int),
            digits_value(line@, first as int, end as int) > usize::MAX ==> index_at(
                line@,
                at as int,
            ).is_none(),
            digits_value(line@, first as int, end as int) <= usize::MAX ==> index_at(
                line@,
                at as int,
            ) == Some((digits_value(line@, first as int, end as int) as usize, end as int)),
        decreases end - p,
    {
        let digit: usize = (line[p] - 0x30) as usize;
        proof {
            assert(is_digit(line@[p as int]));
            lemma_digits_value_grows(line@, first as int, p + 1, end as int);
            assert(digits_value(line@, first as int, p + 1) == value * 10 + digit);
        }
        if value > (usize::MAX - digit) / 10 {
            assert(value * 10 + digit > usize::MAX);
            return None;
        }
        value = value * 10 + digit;
        p = p + 1;
    }
    Some((value, end))
}

/// The place of a number in a line: the bytes from `start` up to `end`.
#[derive(Clone, Copy, Debug, PartialEq, Eq, Structural)]
pub struct Span {
    pub start: usize,
    pub end: usize,
}

/// Whether the three bytes `a`, `b`, `c` stand at `at` and no letter follows
/// them.
pub open spec fn has_name(line: Seq<u8>, at: int, a: u8, b: u8, c: u8) -> bool {
    has_byte(line, at, a) && has_byte(line, at + 1, b) && has_byte(line, at + 2, c) && !(at + 3
        < line.len() && is_letter(line[at + 3]))
}

/// Whether a sign stands at `at`.
pub open spec fn has_sign(line: Seq<u8>, at: int) -> bool {
    has_byte(line, at, 0x2b) || has_byte(line, at, 0x2d)
}

/// Whether the mark of an exponent stands at `at`.
pub open spec fn has_exponent_mark(line: Seq<u8>, at: int) -> bool {
    has_byte(line, at, 0x65) || has_byte(line, at, 0x45)
}

/// Where the exponent ends whose sign or first digit stands at `at`: a sign
/// or none, then one digit or more.
pub open spec fn exponent_end(line: Seq<u8>, at: int) -> Option<int> {
    let first = if has_sign(line, at) {
        at + 1
    } else {
        at
    };
    let end = digits_end(line, first);
    if end == first {
        None
    } else {
        Some(end)
    }
}

/// Where the number ends that starts at `start`.
///
/// A number is `inf`, `-inf` or `NaN` with no letter behind it, or else a
/// sign or none, one digit or more, then a point with digits or none behind
/// it, or nothing, and then an exponent, or nothing. Where the mark of an
/// exponent follows and no exponent, there is no number.
pub open spec fn number_end(line: Seq<u8>, start: int) -> Option<int> {
    if has_name(line, start, 0x69, 0x6e, 0x66) || has_name(line, start, 0x4e, 0x61, 0x4e) {
        Some(start + 3)
    } else if has_byte(line, start, 0x2d) && has_name(line, start + 1, 0x69, 0x6e, 0x66) {
        Some(start + 4)
    } else {
        let first = if has_sign(line, start) {
            start + 1
        } else {
            start
        };
        let whole = digits_end(line, first);
        if whole == first {
            None
        } else if has_byte(line, whole, 0x2e) {
            let fraction = digits_end(line, whole + 1);
            if has_exponent_mark(line, fraction) {
                exponent_end(line, fraction + 1)
            } else {
                Some(fraction)
            }
        } else if has_exponent_mark(line, whole) {
            exponent_end(line, whole + 1)
        } else {
            Some(whole)
        }
    }
}

/// The number that follows the blanks at `at`: where it starts and ends.
pub open spec fn number_at(line: Seq<u8>, at: int) -> Option<(int, int)> {
    let start = blanks_end(line, at);
    match number_end(line, start) {
        Some(end) => Some((start, end)),
        None => None,
    }
}

/// Whether the byte `b` stands at `at`.
fn byte_is(line: &[u8], at: usize, b: u8) -> (found: bool)
    ensures
        found == has_byte(line@, at as int, b),
{
    at < line.len() && line[at] == b
}

/// Whether the three bytes stand at `at` with no letter behind them.
fn name_is(line: &[u8], at: usize, a: u8, b: u8, c: u8) -> (found: bool)
    requires
        at <= line@.len(),
    ensures
        found == has_name(line@, at as int, a, b, c),
{
    if line.len() - at < 3 {
        return false;
    }
    if line[at] != a || line[at + 1] != b || line[at + 2] != c {
        return false;
    }
    if at + 3 < line.len() {
        let next: u8 = line[at + 3];
        let letter: bool = (0x41 <= next && next <= 0x5a) || (0x61 <= next && next <= 0x7a);
        !letter
    } else {
        true
    }
}

/// Scans an exponent behind its mark.
fn scan_exponent(line: &[u8], at: usize) -> (end: Option<usize>)
    requires
        at <= line@.len(),
    ensures
        match end {
            Some(e) => exponent_end(line@, at as int) == Some(e as int) && at < e <= line@.len(),
            None => exponent_end(line@, at as int).is_none(),
        },
{
    let signed: bool = at < line.len() && (line[at] == 0x2b || line[at] == 0x2d);
    let first: usize = if signed {
        at + 1
    } else {
        at
    };
    let end: usize = skip_digits(line, first);
    if end == first {
        None
    } else {
        Some(end)
    }
}

/// Scans a number and tells where it stands.
pub fn scan_number(line: &[u8], at: usize) -> (found: Option<Span>)
    requires
        at <= line@.len(),
    ensures
        match found {
            Some(span) => number_at(line@, at as int) == Some((span.start as int, span.end as int))
                && at <= span.start < span.end <= line@.len(),
            None => number_at(line@, at as int).is_none(),
        },
{
    let start: usize = skip_blanks(line, at);
    let signed: bool = start < line.len() && (line[start] == 0x2b || line[start] == 0x2d);
    if name_is(line, start, 0x69, 0x6e, 0x66) || name_is(line, start, 0x4e, 0x61, 0x4e) {
        return Some(Span { start, end: start + 3 });
    }
    if signed && line[start] == 0x2d && name_is(line, start + 1, 0x69, 0x6e, 0x66) {
        return Some(Span { start, end: start + 4 });
    }
    let first: usize = if signed {
        start + 1
    } else {
        start
    };
    let whole: usize = skip_digits(line, first);
    if whole == first {
        return None;
    }
    let mark: usize = if byte_is(line, whole, 0x2e) {
        skip_digits(line, whole + 1)
    } else {
        whole
    };
    if byte_is(line, mark, 0x65) || byte_is(line, mark, 0x45) {
        match scan_exponent(line, mark + 1) {
            Some(end) => Some(Span { start, end }),
            None => None,
        }
    } else {
        Some(Span { start, end: mark })
    }
}

} // verus!
