//! Changed lines from the hunk headers of a zero-context unified diff.
//!
//! A hunk header opens a line and reads
//! `@@ -<oldStart>[,<oldLen>] +<newStart>[,<newLen>] @@`, each number a run of
//! decimal digits. Whatever follows the closing `@@` on the line is ignored.
//! The header's hunk is `newLen` lines from line `newStart`, with `newLen`
//! taken as 1 where the header omits it.

use vstd::prelude::*;
use vstd::string::*;
use crate::lines::{hunk_lines, ChangedLines, Hunk};

verus! {

/// The byte `@`.
pub const AT: u8 = 0x40;

/// The byte of a space.
pub const SPACE: u8 = 0x20;

/// The byte `-`.
pub const MINUS: u8 = 0x2d;

/// The byte `+`.
pub const PLUS: u8 = 0x2b;

/// The byte `,`.
pub const COMMA: u8 = 0x2c;

/// The byte that ends a line.
pub const NEWLINE: u8 = 0x0a;

/// The byte `0`.
pub const ZERO: u8 = 0x30;

/// The byte `9`.
pub const NINE: u8 = 0x39;

/// Why a diff could not be turned into changed lines.
#[derive(Clone, Copy, Debug, PartialEq, Eq, Structural)]
pub enum DiffError {
    /// A hunk header's new-side start or length is beyond the machine's range
    /// of line numbers.
    LineNumberTooLarge,
}

/// The arguments with which the diff tool is to be called for the revision
/// range `range`, before the path of the file: a diff with no context lines.
pub fn diff_arguments(range: &str) -> (arguments: Vec<String>)
    ensures
        arguments@.len() == 3,
        arguments@[0]@ == "diff"@,
        arguments@[1]@ == "-U0"@,
        arguments@[2]@ == range@,
{
    let mut arguments: Vec<String> = Vec::new();
    arguments.push("diff".to_owned());
    arguments.push("-U0".to_owned());
    arguments.push(range.to_owned());
    arguments
}

/// Whether `byte` is an ASCII decimal digit.
pub open spec fn is_digit(byte: u8) -> bool {
    ZERO <= byte <= NINE
}

/// Whether `digits` is a non-empty run of decimal digits.
pub open spec fn is_numeral(digits: Seq<u8>) -> bool {
    digits.len() > 0 && forall|k: int| 0 <= k < digits.len() ==> is_digit(#[trigger] digits[k])
}

/// The number that the decimal digits `digits` write.
pub open spec fn decimal_value(digits: Seq<u8>) -> nat
    decreases digits.len(),
{
    if digits.len() == 0 {
        0
    } else {
        decimal_value(digits.drop_last()) * 10 + (digits.last() - ZERO) as nat
    }
}

/// The index of the first byte at or after `from` that is no digit, or the
/// text's length when only digits follow.
pub open spec fn digits_end(text: Seq<u8>, from: int) -> int
    decreases text.len() - from,
{
    if 0 <= from < text.len() && is_digit(text[from]) {
        digits_end(text, from + 1)
    } else {
        from
    }
}

/// Whether `bytes` stands in `text` at index `from`.
pub open spec fn has_bytes(text: Seq<u8>, from: int, bytes: Seq<u8>) -> bool {
    0 <= from && from + bytes.len() <= text.len() && text.subrange(from, from + bytes.len())
        == bytes
}

/// The number that starts at `from`, with the index just behind it.
pub open spec fn number_at(text: Seq<u8>, from: int) -> Option<(nat, int)> {
    let end = digits_end(text, from);
    if 0 <= from < end {
        Some((decimal_value(text.subrange(from, end)), end))
    } else {
        None
    }
}

/// The optional `,<number>` at `from`: the number, where there is one, and
/// the index at which the header goes on.
pub open spec fn count_at(text: Seq<u8>, from: int) -> (Option<nat>, int) {
    if 0 <= from < text.len() && text[from] == COMMA {
        match number_at(text, from + 1) {
            Some((value, end)) => (Some(value), end),
            None => (None, from),
        }
    } else {
        (None, from)
    }
}

/// `@@ -`, which opens a header.
pub open spec fn opening() -> Seq<u8> {
    seq![AT, AT, SPACE, MINUS]
}

/// ` +`, which parts the old side from the new side.
pub open spec fn middle() -> Seq<u8> {
    seq![SPACE, PLUS]
}

/// ` @@`, which closes a header.
pub open spec fn closing() -> Seq<u8> {
    seq![SPACE, AT, AT]
}

/// The hunk `(newStart, newLen)` of the header that stands at `from`, if one
/// does.
pub open spec fn header_at(text: Seq<u8>, from: int) -> Option<(nat, nat)> {
    if !has_bytes(text, from, opening()) {
        None
    } else {
        match number_at(text, from + 4) {
            None => None,
            Some((_, old_start_end)) => {
                let (_, old_end) = count_at(text, old_start_end);
                if !has_bytes(text, old_end, middle()) {
                    None
                } else {
                    match number_at(text, old_end + 2) {
                        None => None,
                        Some((start, start_end)) => {
                            let (count, new_end) = count_at(text, start_end);
                            if has_bytes(text, new_end, closing()) {
                                Some(
                                    (
                                        start,
                                        match count {
                                            Some(len) => len,
                                            None => 1,
                                        },
                                    ),
                                )
                            } else {
                                None
                            }
                        },
                    }
                }
            },
        }
    }
}

/// Whether a line of `text` begins at index `at`.
pub open spec fn is_line_start(text: Seq<u8>, at: int) -> bool {
    0 <= at < text.len() && (at == 0 || text[at - 1] == NEWLINE)
}

/// The hunk of the header that opens the line beginning at `at`, if `at`
/// begins a line and a header stands there.
pub open spec fn hunk_at(text: Seq<u8>, at: int) -> Option<(nat, nat)> {
    if is_line_start(text, at) {
        header_at(text, at)
    } else {
        None
    }
}

/// Whether the hunk at `at` holds `line`.
pub open spec fn hunk_covers(text: Seq<u8>, at: int, line: int) -> bool {
    hunk_at(text, at) matches Some(hunk) && hunk.0 <= line < hunk.0 + hunk.1
}

/// The changed lines of a diff: the union of the hunks of all its headers.
pub open spec fn changed_set(text: Seq<u8>) -> Set<int> {
    Set::new(|line: int| exists|at: int| hunk_covers(text, at, line))
}

/// Whether the hunk at `at` has a start or a length beyond `usize`.
pub open spec fn oversized_at(text: Seq<u8>, at: int) -> bool {
    hunk_at(text, at) matches Some(hunk) && (hunk.0 > usize::MAX || hunk.1 > usize::MAX)
}

/// Whether some header of `text` has a start or a length beyond `usize`.
pub open spec fn has_oversized_hunk(text: Seq<u8>) -> bool {
    exists|at: int| oversized_at(text, at)
}

/// A number read from the text. `value` is `None` when the number is beyond
/// `usize`; `end` is the index just behind its last digit.
struct Number {
    value: Option<usize>,
    end: usize,
}

impl Number {
    spec fn holds(self, value: nat) -> bool {
        match self.value {
            Some(v) => v == value,
            None => value > usize::MAX,
        }
    }
}

proof fn lemma_value_step(digits: Seq<u8>, longer: Seq<u8>)
    requires
        longer.len() == digits.len() + 1,
        longer.drop_last() == digits,
        is_digit(longer.last()),
    ensures
        decimal_value(longer) == decimal_value(digits) * 10 + (longer.last() - ZERO),
        decimal_value(longer) >= decimal_value(digits),
{
}

/// Reads the digits from `from` on.
fn scan_digits(text: &[u8], from: usize) -> (number: Number)
    requires
        from <= text@.len(),
    ensures
        number.end == digits_end(text@, from as int),
        from <= number.end <= text@.len(),
        number.holds(decimal_value(text@.subrange(from as int, number.end as int))),
{
    let mut end: usize = from;
    let mut value: Option<usize> = Some(0);
    while end < text.len() && ZERO <= text[end] && text[end] <= NINE
        invariant
            from <= end <= text@.len(),
            digits_end(text@, end as int) == digits_end(text@, from as int),
            (Number { value, end }).holds(decimal_value(text@.subrange(from as int, end as int))),
        decreases text@.len() - end,
    {
        let digit: usize = (text[end] - ZERO) as usize;
        proof {
            let shorter = text@.subrange(from as int, end as int);
            let longer = text@.subrange(from as int, end + 1);
            assert(longer.drop_last() =~= shorter);
            lemma_value_step(shorter, longer);
        }
        value = match value {
            Some(v) => {
                if v <= (usize::MAX - digit) / 10 {
                    Some(v * 10 + digit)
                } else {
                    None
                }
            },
            None => None,
        };
        end += 1;
    }
    Number { value, end }
}

/// Reads the number that starts at `from`, if a digit stands there.
fn scan_number(text: &[u8], from: usize) -> (number: Option<Number>)
    requires
        from <= text@.len(),
    ensures
        match number_at(text@, from as int) {
            Some((value, end)) => number matches Some(n) && n.end == end && n.holds(value) && from
                < n.end <= text@.len(),
            None => number is None,
        },
{
    let number = scan_digits(text, from);
    if number.end > from {
        Some(number)
    } else {
        None
    }
}

/// Reads the optional `,<number>` at `from`. The first part of the result is
/// the number where there is one; the second is the index at which the header
/// goes on.
fn scan_count(text: &[u8], from: usize) -> (count: (Option<Number>, usize))
    requires
        from <= text@.len(),
    ensures
        count.1 == count_at(text@, from as int).1,
        from <= count.1 <= text@.len(),
        match count_at(text@, from as int).0 {
            Some(value) => count.0 matches Some(n) && n.holds(value),
            None => count.0 is None,
        },
{
    if from < text.len() && text[from] == COMMA {
        match scan_number(text, from + 1) {
            Some(number) => {
                let end = number.end;
                (Some(number), end)
            },
            None => (None, from),
        }
    } else {
        (None, from)
    }
}

/// Whether `@@ -` stands at `from`.
fn at_opening(text: &[u8], from: usize) -> (found: bool)
    ensures
        found == has_bytes(text@, from as int, opening()),
        found ==> from + 4 <= text@.len() <= usize::MAX,
{
    if from <= text.len() && text.len() - from >= 4 {
        let found = text[from] == AT && text[from + 1] == AT && text[from + 2] == SPACE && text[from
            + 3] == MINUS;
        proof {
            let part = text@.subrange(from as int, from + 4);
            assert(part[0] == text@[from as int] && part[1] == text@[from + 1] && part[2]
                == text@[from + 2] && part[3] == text@[from + 3]);
            if found {
                assert(part =~= opening());
            }
        }
        found
    } else {
        false
    }
}

/// Whether ` +` stands at `from`.
fn at_middle(text: &[u8], from: usize) -> (found: bool)
    ensures
        found == has_bytes(text@, from as int, middle()),
        found ==> from + 2 <= text@.len() <= usize::MAX,
{
    if from <= text.len() && text.len() - from >= 2 {
        let found = text[from] == SPACE && text[from + 1] == PLUS;
        proof {
            let part = text@.subrange(from as int, from + 2);
            assert(part[0] == text@[from as int] && part[1] == text@[from + 1]);
            if found {
                assert(part =~= middle());
            }
        }
        found
    } else {
        false
    }
}

/// Whether ` @@` stands at `from`.
fn at_closing(text: &[u8], from: usize) -> (found: bool)
    ensures
        found == has_bytes(text@, from as int, closing()),
{
    if from <= text.len() && text.len() - from >= 3 {
        let found = text[from] == SPACE && text[from + 1] == AT && text[from + 2] == AT;
        proof {
            let part = text@.subrange(from as int, from + 3);
            assert(part[0] == text@[from as int] && part[1] == text@[from + 1] && part[2]
                == text@[from + 2]);
            if found {
                assert(part =~= closing());
            }
        }
        found
    } else {
        false
    }
}

/// What `hunk_header_at` owes for the header, if any, that the grammar finds.
pub open spec fn header_result(header: Option<(nat, nat)>) -> Result<Option<Hunk>, DiffError> {
    match header {
        None => Ok(None),
        Some((start, len)) => if start <= usize::MAX && len <= usize::MAX {
            Ok(Some(Hunk { start: start as usize, len: len as usize }))
        } else {
            Err(DiffError::LineNumberTooLarge)
        },
    }
}

/// Reads the hunk header that stands at index `from` of `text`.
///
/// Returns `Ok(None)` where no header stands there, the header's hunk where
/// one does, and an error where its new-side start or length is beyond
/// `usize`.
pub fn hunk_header_at(text: &[u8], from: usize) -> (hunk: Result<Option<Hunk>, DiffError>)
    ensures
        hunk == header_result(header_at(text@, from as int)),
{
    if !at_opening(text, from) {
        return Ok(None);
    }
    let old_start = match scan_number(text, from + 4) {
        Some(number) => number,
        None => {
            return Ok(None);
        },
    };
    let (_, old_end) = scan_count(text, old_start.end);
    if !at_middle(text, old_end) {
        return Ok(None);
    }
    let new_start = match scan_number(text, old_end + 2) {
        Some(number) => number,
        None => {
            return Ok(None);
        },
    };
    let (new_count, new_end) = scan_count(text, new_start.end);
    if !at_closing(text, new_end) {
        return Ok(None);
    }
    let len = match new_count {
        Some(number) => number.value,
        None => Some(1),
    };
    match (new_start.value, len) {
        (Some(start), Some(len)) => Ok(Some(Hunk { start, len })),
        _ => Err(DiffError::LineNumberTooLarge),
    }
}

/// The lines of the hunks whose headers open a line before index `bound`.
spec fn changed_before(text: Seq<u8>, bound: int) -> Set<int> {
    Set::new(|line: int| exists|at: int| at < bound && hunk_covers(text, at, line))
}

/// Extracts the changed lines from the text of a zero-context unified diff.
///
/// Every line that opens with a hunk header adds the header's hunk; all other
/// lines are ignored. Fails when a header's new-side start or length is
/// beyond `usize`.
pub fn changed_lines(text: &[u8]) -> (changed: Result<ChangedLines, DiffError>)
    ensures
        match changed {
            Ok(lines) => !has_oversized_hunk(text@) && lines@ == changed_set(text@),
            Err(error) => has_oversized_hunk(text@) && error == DiffError::LineNumberTooLarge,
        },
{
    let mut lines = ChangedLines::new();
    let mut at: usize = 0;
    assert(lines@ =~= changed_before(text@, 0)) by {
        assert forall|line: int, i: int| i < 0 implies !hunk_covers(text@, i, line) by {}
    }
    while at < text.len()
        invariant
            at <= text@.len(),
            at < text@.len() ==> is_line_start(text@, at as int),
            forall|i: int| i < at ==> !oversized_at(text@, i),
            lines@ == changed_before(text@, at as int),
        decreases text@.len() - at,
    {
        let ghost before = lines@;
        match hunk_header_at(text, at) {
            Err(error) => {
                assert(oversized_at(text@, at as int));
                return Err(error);
            },
            Ok(Some(hunk)) => {
                lines.insert(hunk);
            },
            Ok(None) => {},
        }
        let mut next: usize = at;
        while next < text.len() && text[next] != NEWLINE
            invariant
                at <= next <= text@.len(),
                forall|k: int| at <= k < next ==> text@[k] != NEWLINE,
            decreases text@.len() - next,
        {
            next += 1;
        }
        if next < text.len() {
            next += 1;
        }
        proof {
            assert forall|i: int| at < i < next implies hunk_at(text@, i) is None by {
                assert(text@[i - 1] != NEWLINE);
            }
            assert forall|line: int| #[trigger]
                lines@.contains(line) == changed_before(text@, next as int).contains(line) by {
                if changed_before(text@, next as int).contains(line) {
                    let i = choose|i: int| i < next && hunk_covers(text@, i, line);
                    if i < at {
                        assert(before.contains(line));
                    } else {
                        assert(i == at);
                    }
                }
                if before.contains(line) {
                    let i = choose|i: int| i < at && hunk_covers(text@, i, line);
                    assert(i < next && hunk_covers(text@, i, line));
                }
                if hunk_covers(text@, at as int, line) {
                    assert(at < next && hunk_covers(text@, at as int, line));
                }
            }
            assert(lines@ =~= changed_before(text@, next as int));
            assert forall|i: int| i < next implies !oversized_at(text@, i) by {
                if i > at {
                    assert(hunk_at(text@, i) is None);
                }
            }
        }
        at = next;
    }
    proof {
        assert forall|line: int| #[trigger]
            lines@.contains(line) == changed_set(text@).contains(line) by {
            if changed_set(text@).contains(line) {
                let i = choose|i: int| hunk_covers(text@, i, line);
                assert(i < at && hunk_covers(text@, i, line));
            }
        }
        assert(lines@ =~= changed_set(text@));
        assert forall|i: int| !oversized_at(text@, i) by {
            if i >= at {
                assert(hunk_at(text@, i) is None);
            }
        }
    }
    Ok(lines)
}

/// The text of an optional count: `,` and its digits, or nothing where the
/// count is omitted.
pub open spec fn count_text(count: Option<Seq<u8>>) -> Seq<u8> {
    match count {
        Some(digits) => seq![COMMA] + digits,
        None => Seq::empty(),
    }
}

/// The number of an optional count, 1 where the count is omitted.
pub open spec fn count_value(count: Option<Seq<u8>>) -> nat {
    match count {
        Some(digits) => decimal_value(digits),
        None => 1,
    }
}

/// The header `@@ -<old_start>[,<old_count>] +<new_start>[,<new_count>] @@`,
/// each number given by its digits.
pub open spec fn header_text(
    old_start: Seq<u8>,
    old_count: Option<Seq<u8>>,
    new_start: Seq<u8>,
    new_count: Option<Seq<u8>>,
) -> Seq<u8> {
    opening() + old_start + count_text(old_count) + middle() + new_start + count_text(new_count)
        + closing()
}

/// Whether the four numbers of a header are written as digits.
pub open spec fn header_numerals(
    old_start: Seq<u8>,
    old_count: Option<Seq<u8>>,
    new_start: Seq<u8>,
    new_count: Option<Seq<u8>>,
) -> bool {
    &&& is_numeral(old_start)
    &&& old_count matches Some(digits) ==> is_numeral(digits)
    &&& is_numeral(new_start)
    &&& new_count matches Some(digits) ==> is_numeral(digits)
}

proof fn lemma_has_bytes_split(text: Seq<u8>, from: int, left: Seq<u8>, right: Seq<u8>)
    requires
        has_bytes(text, from, left + right),
    ensures
        has_bytes(text, from, left),
        has_bytes(text, from + left.len(), right),
{
    let whole = text.subrange(from, from + (left + right).len());
    assert(text.subrange(from, from + left.len()) =~= whole.subrange(0, left.len() as int));
    assert(whole.subrange(0, left.len() as int) =~= left);
    assert(text.subrange(from + left.len(), from + left.len() + right.len()) =~= whole.subrange(
        left.len() as int,
        whole.len() as int,
    ));
    assert(whole.subrange(left.len() as int, whole.len() as int) =~= right);
}

proof fn lemma_has_bytes_first(text: Seq<u8>, from: int, bytes: Seq<u8>)
    requires
        has_bytes(text, from, bytes),
        bytes.len() > 0,
    ensures
        from < text.len(),
        text[from] == bytes[0],
{
    assert(text.subrange(from, from + bytes.len())[0] == text[from]);
}

proof fn lemma_digits_run(text: Seq<u8>, from: int, digits: Seq<u8>)
    requires
        has_bytes(text, from, digits),
        forall|k: int| 0 <= k < digits.len() ==> is_digit(#[trigger] digits[k]),
        from + digits.len() == text.len() || !is_digit(text[from + digits.len()]),
    ensures
        digits_end(text, from) == from + digits.len(),
    decreases digits.len(),
{
    if digits.len() > 0 {
        lemma_has_bytes_first(text, from, digits);
        assert(is_digit(digits[0]));
        let tail = digits.subrange(1, digits.len() as int);
        assert(digits =~= seq![digits[0]] + tail);
        lemma_has_bytes_split(text, from, seq![digits[0]], tail);
        assert forall|k: int| 0 <= k < tail.len() implies is_digit(#[trigger] tail[k]) by {
            assert(tail[k] == digits[k + 1]);
        }
        lemma_digits_run(text, from + 1, tail);
    }
}

proof fn lemma_number_at(text: Seq<u8>, from: int, digits: Seq<u8>)
    requires
        is_numeral(digits),
        has_bytes(text, from, digits),
        from + digits.len() == text.len() || !is_digit(text[from + digits.len()]),
    ensures
        number_at(text, from) == Some((decimal_value(digits), from + digits.len())),
{
    lemma_digits_run(text, from, digits);
}

proof fn lemma_count_at(text: Seq<u8>, from: int, count: Option<Seq<u8>>)
    requires
        count matches Some(digits) ==> is_numeral(digits),
        has_bytes(text, from, count_text(count)),
        from + count_text(count).len() < text.len(),
        text[from + count_text(count).len()] == SPACE,
    ensures
        count_at(text, from) == (
            match count {
                Some(digits) => Some(decimal_value(digits)),
                None => None,
            },
            from + count_text(count).len(),
        ),
{
    match count {
        Some(digits) => {
            lemma_has_bytes_first(text, from, count_text(count));
            lemma_has_bytes_split(text, from, seq![COMMA], digits);
            lemma_number_at(text, from + 1, digits);
        },
        None => {},
    }
}

/// The grammar reads a written header back: where the header with the given
/// digits stands at `from`, its hunk starts at the number of `new_start` and
/// is as long as the number of `new_count`, or one line where that is
/// omitted.
pub proof fn lemma_header_at(
    text: Seq<u8>,
    from: int,
    old_start: Seq<u8>,
    old_count: Option<Seq<u8>>,
    new_start: Seq<u8>,
    new_count: Option<Seq<u8>>,
)
    requires
        header_numerals(old_start, old_count, new_start, new_count),
        has_bytes(text, from, header_text(old_start, old_count, new_start, new_count)),
    ensures
        header_at(text, from) == Some((decimal_value(new_start), count_value(new_count))),
{
    let p1 = opening();
    let p2 = p1 + old_start;
    let p3 = p2 + count_text(old_count);
    let p4 = p3 + middle();
    let p5 = p4 + new_start;
    let p6 = p5 + count_text(new_count);
    lemma_has_bytes_split(text, from, p6, closing());
    lemma_has_bytes_split(text, from, p5, count_text(new_count));
    lemma_has_bytes_split(text, from, p4, new_start);
    lemma_has_bytes_split(text, from, p3, middle());
    lemma_has_bytes_split(text, from, p2, count_text(old_count));
    lemma_has_bytes_split(text, from, p1, old_start);
    lemma_has_bytes_first(text, from + p6.len(), closing());
    lemma_has_bytes_first(text, from + p3.len(), middle());
    let a = from + 4;
    let b = a + old_start.len();
    let c = b + count_text(old_count).len();
    let d = c + 2;
    let e = d + new_start.len();
    let f = e + count_text(new_count).len();
    assert(text[c] == SPACE);
    assert(text[f] == SPACE);
    if old_count is Some {
        lemma_has_bytes_first(text, b, count_text(old_count));
    }
    if new_count is Some {
        lemma_has_bytes_first(text, e, count_text(new_count));
    }
    assert(!is_digit(text[b]));
    assert(!is_digit(text[e]));
    lemma_number_at(text, a, old_start);
    lemma_count_at(text, b, old_count);
    lemma_number_at(text, d, new_start);
    lemma_count_at(text, e, new_count);
}

/// The lines of a header that opens a line of a diff are changed lines of
/// that diff.
pub proof fn lemma_header_line(
    text: Seq<u8>,
    at: int,
    old_start: Seq<u8>,
    old_count: Option<Seq<u8>>,
    new_start: Seq<u8>,
    new_count: Option<Seq<u8>>,
)
    requires
        header_numerals(old_start, old_count, new_start, new_count),
        is_line_start(text, at),
        has_bytes(text, at, header_text(old_start, old_count, new_start, new_count)),
    ensures
        hunk_at(text, at) == Some((decimal_value(new_start), count_value(new_count))),
        hunk_lines(decimal_value(new_start), count_value(new_count)).subset_of(changed_set(text)),
{
    lemma_header_at(text, at, old_start, old_count, new_start, new_count);
    assert forall|line: int|
        hunk_lines(decimal_value(new_start), count_value(new_count)).contains(
            line,
        ) implies changed_set(text).contains(line) by {
        assert(hunk_covers(text, at, line));
    }
}

/// A diff of one header line changes exactly the lines of that header's
/// hunk: `[c, c + d)` for new-side start `c` and length `d`, with `d` taken
/// as 1 where it is omitted, and no line at all where `d` is 0.
pub proof fn lemma_single_header(
    old_start: Seq<u8>,
    old_count: Option<Seq<u8>>,
    new_start: Seq<u8>,
    new_count: Option<Seq<u8>>,
    rest: Seq<u8>,
)
    requires
        header_numerals(old_start, old_count, new_start, new_count),
        forall|k: int| 0 <= k < rest.len() ==> rest[k] != NEWLINE,
    ensures
        changed_set(header_text(old_start, old_count, new_start, new_count) + rest) == hunk_lines(
            decimal_value(new_start),
            count_value(new_count),
        ),
        count_value(new_count) == 0 ==> changed_set(
            header_text(old_start, old_count, new_start, new_count) + rest,
        ) == Set::<int>::empty(),
{
    let header = header_text(old_start, old_count, new_start, new_count);
    let text = header + rest;
    let lines = hunk_lines(decimal_value(new_start), count_value(new_count));
    assert(text.subrange(0, header.len() as int) =~= header);
    lemma_header_at(text, 0, old_start, old_count, new_start, new_count);
    lemma_header_has_no_newline(old_start, old_count, new_start, new_count);
    assert forall|at: int| at != 0 implies hunk_at(text, at) is None by {
        if 0 < at < text.len() {
            if at - 1 < header.len() {
                assert(text[at - 1] == header[at - 1]);
            } else {
                assert(text[at - 1] == rest[at - 1 - header.len()]);
            }
        }
    }
    assert forall|line: int| #[trigger] changed_set(text).contains(line) == lines.contains(line) by {
        if changed_set(text).contains(line) {
            let at = choose|at: int| hunk_covers(text, at, line);
            assert(at == 0);
        }
        if lines.contains(line) {
            assert(hunk_covers(text, 0, line));
        }
    }
    assert(changed_set(text) =~= lines);
    if count_value(new_count) == 0 {
        assert(lines =~= Set::<int>::empty());
    }
}

proof fn lemma_header_has_no_newline(
    old_start: Seq<u8>,
    old_count: Option<Seq<u8>>,
    new_start: Seq<u8>,
    new_count: Option<Seq<u8>>,
)
    requires
        header_numerals(old_start, old_count, new_start, new_count),
    ensures
        forall|k: int|
            0 <= k < header_text(old_start, old_count, new_start, new_count).len()
                ==> #[trigger] header_text(old_start, old_count, new_start, new_count)[k]
                != NEWLINE,
{
    let free = |part: Seq<u8>| forall|k: int| 0 <= k < part.len() ==> #[trigger] part[k] != NEWLINE;
    assert(free(opening()));
    assert(free(middle()));
    assert(free(closing()));
    assert(free(old_start));
    assert(free(new_start));
    assert(free(count_text(old_count)));
    assert(free(count_text(new_count)));
    let p2 = opening() + old_start;
    let p3 = p2 + count_text(old_count);
    let p4 = p3 + middle();
    let p5 = p4 + new_start;
    let p6 = p5 + count_text(new_count);
    assert(free(p2));
    assert(free(p3));
    assert(free(p4));
    assert(free(p5));
    assert(free(p6));
    assert(free(p6 + closing()));
}

proof fn lemma_digits_end(text: Seq<u8>, from: int)
    requires
        0 <= from <= text.len(),
    ensures
        from <= digits_end(text, from) <= text.len(),
        forall|k: int| from <= k < digits_end(text, from) ==> is_digit(#[trigger] text[k]),
        digits_end(text, from) == text.len() || !is_digit(text[digits_end(text, from)]),
    decreases text.len() - from,
{
    if from < text.len() && is_digit(text[from]) {
        lemma_digits_end(text, from + 1);
    }
}

proof fn lemma_number_spelled(text: Seq<u8>, from: int)
    requires
        0 <= from <= text.len(),
        number_at(text, from) is Some,
    ensures
        ({
            let (value, end) = number_at(text, from).unwrap();
            let digits = text.subrange(from, end);
            &&& from < end <= text.len()
            &&& is_numeral(digits)
            &&& value == decimal_value(digits)
        }),
{
    lemma_digits_end(text, from);
}

/// The digits of the optional count at `from`, where it has one.
spec fn count_digits(text: Seq<u8>, from: int) -> Option<Seq<u8>> {
    match count_at(text, from).0 {
        Some(_) => Some(text.subrange(from + 1, count_at(text, from).1)),
        None => None,
    }
}

proof fn lemma_count_spelled(text: Seq<u8>, from: int)
    requires
        0 <= from <= text.len(),
    ensures
        ({
            let (count, end) = count_at(text, from);
            let digits = count_digits(text, from);
            &&& from <= end <= text.len()
            &&& text.subrange(from, end) == count_text(digits)
            &&& digits matches Some(written) ==> is_numeral(written)
            &&& count == match digits {
                Some(written) => Some(decimal_value(written)),
                None => None,
            }
        }),
{
    let (count, end) = count_at(text, from);
    if count is Some {
        lemma_number_spelled(text, from + 1);
        assert(text.subrange(from, end) =~= seq![COMMA] + text.subrange(from + 1, end));
    } else {
        assert(text.subrange(from, end) =~= Seq::<u8>::empty());
    }
}

/// Where the grammar finds a header, the text spells one: `@@ -`, digits, an
/// optional `,` and digits, ` +`, digits, an optional `,` and digits, and
/// ` @@`, and the hunk found is the one that these digits write.
pub proof fn lemma_header_spelled(text: Seq<u8>, from: int)
    requires
        header_at(text, from) is Some,
    ensures
        exists|
            old_start: Seq<u8>,
            old_count: Option<Seq<u8>>,
            new_start: Seq<u8>,
            new_count: Option<Seq<u8>>,
        |
            header_numerals(old_start, old_count, new_start, new_count) && has_bytes(
                text,
                from,
                #[trigger] header_text(old_start, old_count, new_start, new_count),
            ) && header_at(text, from) == Some(
                (decimal_value(new_start), count_value(new_count)),
            ),
{
    let a = from + 4;
    lemma_number_spelled(text, a);
    let b = number_at(text, a).unwrap().1;
    lemma_count_spelled(text, b);
    let c = count_at(text, b).1;
    let d = c + 2;
    lemma_number_spelled(text, d);
    let e = number_at(text, d).unwrap().1;
    lemma_count_spelled(text, e);
    let f = count_at(text, e).1;
    let old_start = text.subrange(a, b);
    let old_count = count_digits(text, b);
    let new_start = text.subrange(d, e);
    let new_count = count_digits(text, e);
    let written = header_text(old_start, old_count, new_start, new_count);
    assert(text.subrange(from, f + 3) =~= text.subrange(from, a) + text.subrange(a, b)
        + text.subrange(b, c) + text.subrange(c, d) + text.subrange(d, e) + text.subrange(e, f)
        + text.subrange(f, f + 3));
    assert(written.len() == f + 3 - from);
    assert(has_bytes(text, from, written));
}

} // verus!
