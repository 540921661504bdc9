//! The parser as a mathematical function.
//!
//! A [`Source`] is the input of one parse; a [`State`] is what the parser
//! keeps while it reads. Each rule of the grammar is a function from the
//! state before to the state after and the tree that was read. The
//! executable parser is verified to compute exactly these functions.

use vstd::prelude::*;
use crate::errors::{column_of, Diagnostic, Message};
use crate::grammar::ExprView;
use crate::token::TokenView;

verus! {

/// What the parser keeps while it reads.
pub struct State {
    /// The position of the next token.
    pub idx: nat,
    /// The number of groups that are open.
    pub depth: nat,
    /// Whether an error has been met. Once set, it stays set.
    pub error: bool,
    /// Whether the closing parenthesis at the cursor has lowered the depth
    /// already, when it ended the search for an operand.
    pub eased: bool,
    /// The diagnostics reported so far, in the order of detection.
    pub diags: Seq<Diagnostic>,
}

/// A state and the tree that was read on the way to it.
pub struct Outcome {
    pub state: State,
    pub expr: ExprView,
}

/// A state and the operand that was read on the way to it, if there was one.
pub struct Operand {
    pub state: State,
    pub expr: Option<ExprView>,
}

/// The input of one parse.
pub struct Source {
    pub tokens: Seq<TokenView>,
    /// The source line, copied into each diagnostic.
    pub line: u32,
}

impl State {
    /// The state in which a parse begins.
    pub open spec fn initial() -> State {
        State { idx: 0, depth: 0, error: false, eased: false, diags: Seq::empty() }
    }

    /// The state after one token was consumed.
    pub open spec fn advance(self) -> State {
        State { idx: self.idx + 1, eased: false, ..self }
    }

    /// The state after a group was opened.
    pub open spec fn deeper(self) -> State {
        State { depth: self.depth + 1, ..self }
    }

    /// The state after a group was closed.
    pub open spec fn shallower(self) -> State {
        State { depth: (self.depth - 1) as nat, ..self }
    }

    /// The state after a closing parenthesis at the cursor ended the search
    /// for an operand inside an open group: the depth is lowered in advance,
    /// the parenthesis stays where it is, and the error flag is set.
    pub open spec fn ease(self) -> State {
        State { depth: (self.depth - 1) as nat, eased: true, error: true, ..self }
    }

    /// The number of groups that are open, with the one whose closing
    /// parenthesis has lowered the depth in advance.
    pub open spec fn open_groups(self) -> nat {
        if self.eased {
            self.depth + 1
        } else {
            self.depth
        }
    }

    /// The state with the error flag set.
    pub open spec fn failed(self) -> State {
        State { error: true, ..self }
    }

    /// The state after `diagnostic` was reported.
    pub open spec fn noted(self, diagnostic: Diagnostic) -> State {
        State { error: true, diags: self.diags.push(diagnostic), ..self }
    }

    /// This state as the one that follows `from`, in which the cursor is at
    /// least `step` tokens further on.
    ///
    /// No rule of the grammar moves the cursor back, and a rule that starts
    /// at a literal or an opening parenthesis consumes that token: the
    /// lemmas of [`crate::progress`] prove both. So `onward` changes nothing
    /// where the rules apply it. It is there to make their mutual recursion
    /// well-founded.
    pub open spec fn onward(self, from: State, step: nat) -> State {
        if self.idx >= from.idx + step {
            self
        } else {
            State { idx: from.idx + step, ..self }
        }
    }
}

impl Source {
    /// The next token, or `Null` past the end.
    pub open spec fn peek(self, s: State) -> TokenView {
        if s.idx < self.tokens.len() {
            self.tokens[s.idx as int]
        } else {
            TokenView::Null
        }
    }

    /// The token before the cursor, or `Null` at the start.
    pub open spec fn previous(self, s: State) -> TokenView {
        if 0 < s.idx <= self.tokens.len() {
            self.tokens[s.idx - 1]
        } else {
            TokenView::Null
        }
    }

    /// The number of tokens that are left to read.
    pub open spec fn remaining(self, s: State) -> nat {
        if s.idx < self.tokens.len() {
            (self.tokens.len() - s.idx) as nat
        } else {
            0
        }
    }

    /// The diagnostic for `message` at position `at`.
    pub open spec fn diagnostic(self, message: Message, code: u32, at: nat) -> Diagnostic {
        Diagnostic { message, code, line: self.line, column: column_of(at) }
    }

    /// Consumes one token outside the rules of the grammar. A closing
    /// parenthesis that has lowered the depth already is only consumed. Any
    /// other closing parenthesis closes a group if one is open, and is
    /// reported as unmatched if none is.
    pub open spec fn skip(self, s: State) -> State {
        if self.peek(s) is RightParen && !s.eased {
            if s.depth > 0 {
                s.shallower().advance()
            } else {
                s.noted(self.diagnostic(Message::UnmatchedClosingParen, 0, s.idx)).advance()
            }
        } else {
            s.advance()
        }
    }

    /// Skips to the next token at which an operand can begin, or to the end.
    pub open spec fn synchronize(self, s: State) -> State
        decreases self.remaining(s),
    {
        if s.idx >= self.tokens.len() || self.peek(s).opens_operand() {
            s
        } else {
            self.synchronize(self.skip(s))
        }
    }

    /// Reports an error: sets the flag, records the diagnostic, then
    /// synchronizes.
    pub open spec fn report(self, s: State, message: Message, code: u32, at: nat) -> State {
        self.synchronize(s.noted(self.diagnostic(message, code, at)))
    }

    /// The state after the checks that `primary` makes before it reads: a
    /// group or a literal that follows a literal with nothing between is
    /// reported.
    pub open spec fn checked(self, s: State) -> State {
        if self.previous(s).is_literal() {
            let a = if self.peek(s) is LeftParen {
                self.report(s, Message::MisplacedGrouping, 0, s.idx)
            } else {
                s
            };
            if self.peek(a).is_literal() {
                self.report(a, Message::AdjacentLiterals, 0, a.idx)
            } else {
                a
            }
        } else {
            s
        }
    }

    /// The state after the end of a group was looked for at `s`. A closing
    /// parenthesis is consumed as `skip` consumes it: it lowers the depth
    /// unless it has done so already, and is reported as unmatched if the
    /// depth counts no open group. Anything else is reported as a missing
    /// closing parenthesis.
    pub open spec fn close_group(self, s: State) -> State {
        if self.peek(s) is RightParen {
            self.skip(s)
        } else {
            self.report(s, Message::MissingClosingParen, 0, s.idx)
        }
    }

    /// `primary := literal | "(" proposition ")"`
    pub open spec fn primary(self, s: State) -> Outcome
        decreases self.remaining(s), 0nat,
    {
        let checked = self.checked(s);
        if self.peek(checked) is LeftParen {
            let inner = self.proposition(checked.advance().deeper().onward(s, 1));
            let closed = self.close_group(inner.state);
            let state = if inner.expr is Null {
                self.report(closed, Message::EmptyGrouping, 1, s.idx)
            } else {
                closed
            };
            Outcome { state, expr: ExprView::Grouping(Box::new(inner.expr)) }
        } else if self.peek(checked).is_literal() {
            Outcome { state: checked.advance(), expr: ExprView::Literal(self.peek(checked)) }
        } else if self.peek(checked) is RightParen && checked.depth == 0 && !checked.eased {
            Outcome {
                state: self.report(checked, Message::StrayClosingParen, 0, checked.idx),
                expr: ExprView::Null,
            }
        } else {
            Outcome { state: checked, expr: ExprView::Null }
        }
    }

    /// `unary := Not unary | primary`
    pub open spec fn unary(self, s: State) -> Outcome
        decreases self.remaining(s), 1nat,
    {
        if self.peek(s) is Not {
            let operand = self.unary(s.advance());
            let state = if operand.expr is Null {
                self.report(operand.state, Message::MissingNegationOperand, 0, s.idx)
            } else {
                operand.state
            };
            Outcome { state, expr: ExprView::Unary(TokenView::Not, Box::new(operand.expr)) }
        } else {
            self.primary(s)
        }
    }

    /// `proposition := unary (connective unary)*`, then the checks on what
    /// follows.
    pub open spec fn proposition(self, s: State) -> Outcome
        decreases self.remaining(s), (if self.peek(s).opens_operand() { 3nat } else { 7nat }),
    {
        let first = self.unary(s);
        let step: nat = if self.peek(s).opens_operand() { 1 } else { 0 };
        let state = first.state.onward(s, step);
        self.connectives(state, first.expr, state.idx)
    }

    /// The loop of `proposition`: `left` has been read, `start` is where the
    /// operand that is looked for began.
    ///
    /// A connective with nothing to its left is reported and dropped. One
    /// whose right operand cannot be read is dropped too.
    pub open spec fn connectives(self, s: State, left: ExprView, start: nat) -> Outcome
        decreases self.remaining(s), 6nat,
    {
        if !self.peek(s).is_connective() {
            self.trailing(s, left)
        } else if left is Null {
            let state = self.report(s.advance(), Message::MissingLeftOperand, 0, start);
            self.connectives(state.onward(s, 1), left, start)
        } else {
            let from = s.advance();
            let right = self.right_operand(from);
            let joined = Self::joined(left, self.peek(s), right.expr);
            self.connectives(right.state.onward(from, 0), joined, from.idx)
        }
    }

    /// `left` joined by `operator` to the operand on its right, or `left`
    /// alone where there is no such operand.
    pub open spec fn joined(left: ExprView, operator: TokenView, right: Option<ExprView>)
        -> ExprView {
        match right {
            Some(operand) => ExprView::Binary(Box::new(left), operator, Box::new(operand)),
            None => left,
        }
    }

    /// The operand to the right of a connective, read from `from`.
    ///
    /// Where no operand is found there are four cases. An operator that
    /// follows is reported. A closing parenthesis that follows ends the
    /// enclosing group: it lowers the depth in advance and is left for the
    /// group to consume, with the error flag set; with no group open it is
    /// reported as unmatched. An invalid lexeme is consumed with the error
    /// flag set, and the operand is read once more. Anything else is
    /// reported as a missing operand.
    pub open spec fn right_operand(self, from: State) -> Operand
        decreases self.remaining(from), 2nat,
    {
        let right = self.unary(from);
        let after = right.state.onward(from, 0);
        if !(right.expr is Null) {
            Operand { state: after, expr: Some(right.expr) }
        } else if self.peek(after).is_operator() {
            Operand {
                state: self.report(after, Message::AdjacentOperators, 0, after.idx),
                expr: None,
            }
        } else if self.peek(after) is RightParen {
            if after.depth > 0 {
                Operand { state: after.ease(), expr: None }
            } else {
                Operand {
                    state: self.report(after, Message::UnmatchedClosingParen, 0, after.idx),
                    expr: None,
                }
            }
        } else if self.peek(after) is Invalid {
            let retry = self.unary(after.advance().failed());
            Operand { state: retry.state, expr: Some(retry.expr) }
        } else {
            Operand {
                state: self.report(after, Message::MissingRightOperand, 0, from.idx),
                expr: None,
            }
        }
    }

    /// What a literal that follows a proposition leads to: it is reported,
    /// and one more proposition, read from there, takes the place of `left`.
    pub open spec fn reread_literal(self, s: State, left: ExprView) -> Outcome
        decreases self.remaining(s), 4nat,
    {
        if self.peek(s).is_literal() {
            self.proposition(self.report(s, Message::AdjacentLiterals, 0, s.idx).onward(s, 0))
        } else {
            Outcome { state: s, expr: left }
        }
    }

    /// What an invalid lexeme or a group that follows a proposition leads
    /// to: the error flag is set, the lexeme is consumed, and one more
    /// proposition, read from there, takes the place of `left`.
    pub open spec fn reread_group(self, s: State, left: ExprView) -> Outcome
        decreases self.remaining(s), 4nat,
    {
        if self.peek(s) is Invalid {
            self.proposition(s.advance().failed())
        } else if self.peek(s) is LeftParen {
            self.proposition(s.failed())
        } else {
            Outcome { state: s, expr: left }
        }
    }

    /// The checks after the loop of `proposition`: first for a literal, then
    /// for an invalid lexeme or a group, and last for a negation sign, which
    /// is reported.
    pub open spec fn trailing(self, s: State, left: ExprView) -> Outcome
        decreases self.remaining(s), 5nat,
    {
        let a = self.reread_literal(s, left);
        let b = self.reread_group(a.state.onward(s, 0), a.expr);
        let state = if self.peek(b.state) is Not {
            self.report(b.state, Message::MisplacedNegation, 0, b.state.idx)
        } else {
            b.state
        };
        Outcome { state, expr: b.expr }
    }

    /// Reads what is left of the input as further propositions, with the
    /// error flag set, until the input is exhausted. A round that consumes
    /// nothing is followed by a `skip`.
    pub open spec fn discard(self, s: State) -> State
        decreases self.remaining(s),
    {
        if s.idx >= self.tokens.len() {
            s
        } else {
            let round = self.proposition(s.failed()).state;
            self.discard(self.resume(s, round))
        }
    }

    /// Where reading goes on after a round of `discard` that began at `s`
    /// and ended at `round`: at `round` if it consumed anything, and one
    /// `skip` further if not.
    pub open spec fn resume(self, s: State, round: State) -> State {
        if round.idx > s.idx {
            round
        } else {
            self.skip(round.onward(s, 0))
        }
    }

    /// One whole parse from state `s`: a proposition, then whatever is left.
    pub open spec fn parse(self, s: State) -> Outcome {
        let first = self.proposition(s);
        Outcome { state: self.discard(first.state), expr: first.expr }
    }
}

} // verus!
