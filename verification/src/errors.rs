//! Diagnostics: what the parser reports about a syntax error.

use vstd::prelude::*;
use vstd::arithmetic::div_mod::lemma_add_mod_noop;

verus! {

/// The classes of syntax error.
#[derive(Clone, Copy, Debug, PartialEq, Eq, Structural)]
pub enum ErrorKind {
    MissingLeftOperand,
    MissingRightOperand,
    AdjacentOperators,
    UnmatchedClosingParen,
    MissingClosingParen,
    EmptyGrouping,
    AdjacentLiterals,
    MisplacedGrouping,
    MisplacedNegation,
}

/// The fixed messages of the parser, one for each place that detects an
/// error.
#[derive(Clone, Copy, Debug, PartialEq, Eq, Structural)]
pub enum Message {
    /// A connective with nothing to its left.
    MissingLeftOperand,
    /// A connective with nothing to its right.
    MissingRightOperand,
    /// A negation sign with nothing to its right.
    MissingNegationOperand,
    /// Two operators in a row.
    AdjacentOperators,
    /// A closing parenthesis, met where an operand was looked for or while
    /// skipping input, that closes no open group.
    UnmatchedClosingParen,
    /// A closing parenthesis at the start of an operand with no group open.
    StrayClosingParen,
    /// A group that is not closed.
    MissingClosingParen,
    /// A pair of parentheses with no proposition inside.
    EmptyGrouping,
    /// A literal that follows a proposition with no connective between.
    AdjacentLiterals,
    /// A group that follows a literal with no connective between.
    MisplacedGrouping,
    /// A negation sign where a connective or the end was expected.
    MisplacedNegation,
}

impl Message {
    /// The class of error that the message belongs to.
    pub open spec fn class(self) -> ErrorKind {
        match self {
            Message::MissingLeftOperand => ErrorKind::MissingLeftOperand,
            Message::MissingRightOperand => ErrorKind::MissingRightOperand,
            Message::MissingNegationOperand => ErrorKind::MissingRightOperand,
            Message::AdjacentOperators => ErrorKind::AdjacentOperators,
            Message::UnmatchedClosingParen => ErrorKind::UnmatchedClosingParen,
            Message::StrayClosingParen => ErrorKind::UnmatchedClosingParen,
            Message::MissingClosingParen => ErrorKind::MissingClosingParen,
            Message::EmptyGrouping => ErrorKind::EmptyGrouping,
            Message::AdjacentLiterals => ErrorKind::AdjacentLiterals,
            Message::MisplacedGrouping => ErrorKind::MisplacedGrouping,
            Message::MisplacedNegation => ErrorKind::MisplacedNegation,
        }
    }

    /// The text of the message.
    pub open spec fn wording(self) -> Seq<char> {
        match self {
            Message::MissingLeftOperand => "missing proposition on left side of operation"@,
            Message::MissingRightOperand => "missing proposition on right side of operation"@,
            Message::MissingNegationOperand => "missing proposition on right side of negation"@,
            Message::AdjacentOperators => "operators are next to each other"@,
            Message::UnmatchedClosingParen => "unmatched closing parenthesis"@,
            Message::StrayClosingParen => "closing parenthesis does not have a match"@,
            Message::MissingClosingParen => "expected closing parenthesis"@,
            Message::EmptyGrouping => "not a proposition"@,
            Message::AdjacentLiterals => "simple proposition is in an invalid position"@,
            Message::MisplacedGrouping => "grouping in invalid position"@,
            Message::MisplacedNegation => "not operator is in an invalid position"@,
        }
    }

    /// The class of error that the message belongs to.
    pub fn kind(&self) -> (kind: ErrorKind)
        ensures
            kind == self.class(),
    {
        match self {
            Message::MissingLeftOperand => ErrorKind::MissingLeftOperand,
            Message::MissingRightOperand => ErrorKind::MissingRightOperand,
            Message::MissingNegationOperand => ErrorKind::MissingRightOperand,
            Message::AdjacentOperators => ErrorKind::AdjacentOperators,
            Message::UnmatchedClosingParen => ErrorKind::UnmatchedClosingParen,
            Message::StrayClosingParen => ErrorKind::UnmatchedClosingParen,
            Message::MissingClosingParen => ErrorKind::MissingClosingParen,
            Message::EmptyGrouping => ErrorKind::EmptyGrouping,
            Message::AdjacentLiterals => ErrorKind::AdjacentLiterals,
            Message::MisplacedGrouping => ErrorKind::MisplacedGrouping,
            Message::MisplacedNegation => ErrorKind::MisplacedNegation,
        }
    }

    /// The text of the message.
    pub fn text(&self) -> (text: &'static str)
        ensures
            text@ == self.wording(),
    {
        match self {
            Message::MissingLeftOperand => "missing proposition on left side of operation",
            Message::MissingRightOperand => "missing proposition on right side of operation",
            Message::MissingNegationOperand => "missing proposition on right side of negation",
            Message::AdjacentOperators => "operators are next to each other",
            Message::UnmatchedClosingParen => "unmatched closing parenthesis",
            Message::StrayClosingParen => "closing parenthesis does not have a match",
            Message::MissingClosingParen => "expected closing parenthesis",
            Message::EmptyGrouping => "not a proposition",
            Message::AdjacentLiterals => "simple proposition is in an invalid position",
            Message::MisplacedGrouping => "grouping in invalid position",
            Message::MisplacedNegation => "not operator is in an invalid position",
        }
    }
}

/// One reported syntax error.
///
/// `code` is passed through as it is; `column` counts tokens from 1.
#[derive(Clone, Copy, Debug, PartialEq, Eq, Structural)]
pub struct Diagnostic {
    pub message: Message,
    pub code: u32,
    pub line: u32,
    pub column: u32,
}

/// The column of the token at position `idx`: one more than the position,
/// reduced to 32 bits.
pub open spec fn column_of(idx: nat) -> u32 {
    ((idx + 1) % 0x1_0000_0000) as u32
}

/// The column of the token at position `idx`.
pub fn column_at(idx: usize) -> (c: u32)
    ensures
        c == column_of(idx as nat),
{
    let low: u64 = (idx as u64) % 0x1_0000_0000;
    let next: u64 = (low + 1) % 0x1_0000_0000;
    proof {
        lemma_add_mod_noop(idx as int, 1, 0x1_0000_0000);
    }
    next as u32
}

} // verus!
