//! Warnings and the annotation lines that carry them.
//!
//! A warning is printed as one line,
//! `::warning file=<file>,line=<start>,endline=<end>::<message>`, with the
//! block's first line and the line just behind its last, both in decimal.

use vstd::prelude::*;
use vstd::string::*;
use crate::lines::LineRange;

verus! {

/// A finding: the comment block at `range` of `file` may be stale.
#[derive(Debug, PartialEq, Eq)]
pub struct Warning {
    pub file: String,
    pub range: LineRange,
    pub message: String,
}

/// The message of every warning.
pub open spec fn stale_message() -> Seq<char> {
    "Documentation may be stale"@
}

/// The character of a decimal digit.
pub open spec fn digit_char(digit: nat) -> char {
    if digit == 0 {
        '0'
    } else if digit == 1 {
        '1'
    } else if digit == 2 {
        '2'
    } else if digit == 3 {
        '3'
    } else if digit == 4 {
        '4'
    } else if digit == 5 {
        '5'
    } else if digit == 6 {
        '6'
    } else if digit == 7 {
        '7'
    } else if digit == 8 {
        '8'
    } else {
        '9'
    }
}

/// `number` written in decimal, without leading zeros.
pub open spec fn decimal_text(number: nat) -> Seq<char>
    decreases number,
{
    if number < 10 {
        seq![digit_char(number)]
    } else {
        decimal_text(number / 10).push(digit_char(number % 10))
    }
}

/// The line that announces `message` for the lines `range` of `file`.
pub open spec fn annotation_text(file: Seq<char>, range: LineRange, message: Seq<char>) -> Seq<
    char,
> {
    "::warning file="@ + file + ",line="@ + decimal_text(range.start as nat) + ",endline="@
        + decimal_text(range.end as nat) + "::"@ + message
}

/// The line that announces `message` for no place in particular.
pub open spec fn notice_text(message: Seq<char>) -> Seq<char> {
    "::warning::"@ + message
}

/// The text of the digit `digit`.
fn digit_text(digit: usize) -> (text: &'static str)
    requires
        digit < 10,
    ensures
        text@ == seq![digit_char(digit as nat)],
{
    proof {
        reveal_strlit("0");
        reveal_strlit("1");
        reveal_strlit("2");
        reveal_strlit("3");
        reveal_strlit("4");
        reveal_strlit("5");
        reveal_strlit("6");
        reveal_strlit("7");
        reveal_strlit("8");
        reveal_strlit("9");
    }
    let text = if digit == 0 {
        "0"
    } else if digit == 1 {
        "1"
    } else if digit == 2 {
        "2"
    } else if digit == 3 {
        "3"
    } else if digit == 4 {
        "4"
    } else if digit == 5 {
        "5"
    } else if digit == 6 {
        "6"
    } else if digit == 7 {
        "7"
    } else if digit == 8 {
        "8"
    } else {
        "9"
    };
    assert(text@ =~= seq![digit_char(digit as nat)]);
    text
}

/// Writes `number` in decimal.
pub fn decimal_string(number: usize) -> (text: String)
    ensures
        text@ == decimal_text(number as nat),
    decreases number,
{
    if number < 10 {
        digit_text(number).to_owned()
    } else {
        let mut text = decimal_string(number / 10);
        text.append(digit_text(number % 10));
        assert(text@ =~= decimal_text(number as nat));
        text
    }
}

/// The line that announces `message` for no place in particular:
/// `::warning::<message>`.
pub fn notice(message: &str) -> (line: String)
    ensures
        line@ == notice_text(message@),
{
    let mut line = "::warning::".to_owned();
    line.append(message);
    line
}

impl Warning {
    /// The line that carries the warning.
    pub fn annotation(&self) -> (line: String)
        ensures
            line@ == annotation_text(self.file@, self.range, self.message@),
    {
        let mut line = "::warning file=".to_owned();
        line.append(self.file.as_str());
        line.append(",line=");
        line.append(decimal_string(self.range.start).as_str());
        line.append(",endline=");
        line.append(decimal_string(self.range.end).as_str());
        line.append("::");
        line.append(self.message.as_str());
        line
    }
}

/// The warnings for the blocks `blocks` of the file `file`, one for each
/// block and in their order.
pub fn warnings_for(file: &str, blocks: &Vec<LineRange>) -> (warnings: Vec<Warning>)
    ensures
        warnings@.len() == blocks@.len(),
        forall|i: int|
            0 <= i < blocks@.len() ==> {
                &&& (#[trigger] warnings@[i]).file@ == file@
                &&& warnings@[i].range == blocks@[i]
                &&& warnings@[i].message@ == stale_message()
            },
{
    let mut warnings: Vec<Warning> = Vec::new();
    let mut at: usize = 0;
    while at < blocks.len()
        invariant
            at <= blocks@.len(),
            warnings@.len() == at,
            forall|i: int|
                0 <= i < at ==> {
                    &&& (#[trigger] warnings@[i]).file@ == file@
                    &&& warnings@[i].range == blocks@[i]
                    &&& warnings@[i].message@ == stale_message()
                },
        decreases blocks@.len() - at,
    {
        warnings.push(
            Warning {
                file: file.to_owned(),
                range: blocks[at],
                message: "Documentation may be stale".to_owned(),
            },
        );
        at += 1;
    }
    warnings
}

} // verus!
