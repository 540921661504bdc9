//! A parse that ends without the error flag has read a sentence of the
//! grammar: the tree is built by the grammar's rules, it spells exactly the
//! tokens that were consumed, and nothing but the cursor has changed.

use vstd::prelude::*;
use crate::errors::Message;
use crate::grammar::ExprView;
use crate::model::{Outcome, Source, State};
use crate::token::TokenView;

verus! {

impl Source {
    /// The tokens from position `from` up to position `to`.
    pub open spec fn span(self, from: nat, to: nat) -> Seq<TokenView> {
        self.tokens.subrange(from as int, to as int)
    }

    /// From position `from` up to position `to` the input holds as many
    /// opening as closing parentheses.
    pub open spec fn paired(self, from: nat, to: nat) -> bool {
        self.count(TokenView::LeftParen, to) + self.count(TokenView::RightParen, from)
            == self.count(TokenView::LeftParen, from) + self.count(TokenView::RightParen, to)
    }

    /// The state `from` with the cursor moved on to position `to`, and
    /// nothing else changed. Moving the cursor leaves behind a closing
    /// parenthesis that had lowered the depth in advance.
    pub open spec fn moved(self, from: State, to: nat) -> State {
        State { idx: to, eased: from.eased && to == from.idx, ..from }
    }

    /// `out` was reached from `from` without an error: nothing but the cursor
    /// has changed, the tree spells the tokens that were consumed, and their
    /// parentheses are paired.
    pub open spec fn clean(self, from: State, out: Outcome) -> bool {
        &&& !from.error
        &&& out.state == self.moved(from, out.state.idx)
        &&& from.idx <= out.state.idx <= self.tokens.len()
        &&& self.span(from.idx, out.state.idx) =~= out.expr.flatten()
        &&& self.paired(from.idx, out.state.idx)
    }

    /// `primary` without an error reads nothing or a `primary`.
    pub proof fn lemma_primary_clean(self, s: State)
        requires
            s.idx <= self.tokens.len(),
        ensures
            ({
                let out = self.primary(s);
                !out.state.error ==> self.clean(s, out) && (out.expr is Null
                    || out.expr.is_primary())
            }),
        decreases self.remaining(s), 0nat,
    {
        let out = self.primary(s);
        if !out.state.error {
            let checked = self.checked(s);
            self.lemma_checked_extends(s);
            if self.peek(checked) is LeftParen {
                let entered = checked.advance().deeper();
                self.lemma_proposition_extends(entered);
                self.lemma_proposition_clean(entered);
                let inner = self.proposition(entered);
                let closed = self.close_group(inner.state);
                self.lemma_close_group_extends(inner.state);
                if inner.expr is Null {
                    self.lemma_report_extends(closed, Message::EmptyGrouping, 1, s.idx);
                }
                assert(self.span(s.idx, out.state.idx) =~= seq![self.tokens[s.idx as int]]
                    + self.span(entered.idx, inner.state.idx) + seq![
                    self.tokens[inner.state.idx as int],
                ]);
            } else if self.peek(checked).is_literal() {
                assert(self.span(s.idx, out.state.idx) =~= seq![self.tokens[s.idx as int]]);
            } else if self.peek(checked) is RightParen && checked.depth == 0 {
                self.lemma_report_extends(checked, Message::StrayClosingParen, 0, checked.idx);
            }
        }
    }

    /// `unary` without an error reads nothing or a `unary`.
    pub proof fn lemma_unary_clean(self, s: State)
        requires
            s.idx <= self.tokens.len(),
        ensures
            ({
                let out = self.unary(s);
                !out.state.error ==> self.clean(s, out) && (out.expr is Null
                    || out.expr.is_unary())
            }),
        decreases self.remaining(s), 1nat,
    {
        let out = self.unary(s);
        if !out.state.error {
            if self.peek(s) is Not {
                let operand = self.unary(s.advance());
                self.lemma_unary_extends(s.advance());
                self.lemma_unary_clean(s.advance());
                if operand.expr is Null {
                    self.lemma_report_extends(
                        operand.state,
                        Message::MissingNegationOperand,
                        0,
                        s.idx,
                    );
                }
                assert(self.span(s.idx, out.state.idx) =~= seq![self.tokens[s.idx as int]]
                    + self.span(s.idx + 1, operand.state.idx));
            } else {
                self.lemma_primary_clean(s);
            }
        }
    }

    /// `proposition` without an error reads nothing or a `proposition`.
    pub proof fn lemma_proposition_clean(self, s: State)
        requires
            s.idx <= self.tokens.len(),
        ensures
            ({
                let out = self.proposition(s);
                !out.state.error ==> self.clean(s, out) && (out.expr is Null
                    || out.expr.is_proposition())
            }),
        decreases self.remaining(s), (if self.peek(s).opens_operand() { 3nat } else { 7nat }),
    {
        let out = self.proposition(s);
        if !out.state.error {
            let first = self.unary(s);
            self.lemma_proposition_extends(s);
            self.lemma_unary_extends(s);
            self.lemma_unary_clean(s);
            self.lemma_connectives_extends(first.state, first.expr, first.state.idx);
            self.lemma_connectives_clean(s.idx, first.state, first.expr, first.state.idx);
        }
    }

    /// The loop of `proposition` without an error: if `left` spells the
    /// tokens from `base` on, so does the tree at the end.
    #[verifier::rlimit(50)]
    pub proof fn lemma_connectives_clean(self, base: nat, s: State, left: ExprView, start: nat)
        requires
            base <= s.idx <= self.tokens.len(),
            !s.error ==> self.span(base, s.idx) =~= left.flatten() && (left is Null
                || left.is_proposition()) && self.paired(base, s.idx),
        ensures
            ({
                let out = self.connectives(s, left, start);
                !out.state.error ==> {
                    &&& out.state == self.moved(s, out.state.idx)
                    &&& s.idx <= out.state.idx <= self.tokens.len()
                    &&& self.span(base, out.state.idx) =~= out.expr.flatten()
                    &&& (out.expr is Null || out.expr.is_proposition())
                    &&& self.paired(base, out.state.idx)
                }
            }),
        decreases self.remaining(s), 6nat,
    {
        let out = self.connectives(s, left, start);
        self.lemma_connectives_extends(s, left, start);
        if !out.state.error {
            if !self.peek(s).is_connective() {
                self.lemma_trailing_extends(s, left);
            } else if left is Null {
                let state = self.report(s.advance(), Message::MissingLeftOperand, 0, start);
                self.lemma_report_extends(s.advance(), Message::MissingLeftOperand, 0, start);
                self.lemma_connectives_extends(state, left, start);
            } else {
                let from = s.advance();
                let right = self.right_operand(from);
                self.lemma_right_operand_extends(from);
                self.lemma_right_operand_clean(from);
                let joined = Source::joined(left, self.peek(s), right.expr);
                self.lemma_connectives_extends(right.state, joined, from.idx);
                assert(!right.state.error);
                assert(self.span(base, right.state.idx) =~= self.span(base, s.idx) + seq![
                    self.tokens[s.idx as int],
                ] + self.span(from.idx, right.state.idx));
                self.lemma_connectives_clean(base, right.state, joined, from.idx);
            }
        }
    }

    /// Reading the operand to the right of a connective without an error
    /// reads a `unary`.
    #[verifier::rlimit(50)]
    pub proof fn lemma_right_operand_clean(self, from: State)
        requires
            from.idx <= self.tokens.len(),
        ensures
            ({
                let out = self.right_operand(from);
                !out.state.error ==> {
                    &&& out.expr matches Some(operand)
                    &&& operand.is_unary()
                    &&& self.clean(from, Outcome { state: out.state, expr: operand })
                }
            }),
        decreases self.remaining(from), 2nat,
    {
        let out = self.right_operand(from);
        if !out.state.error {
            let right = self.unary(from);
            self.lemma_unary_extends(from);
            self.lemma_unary_clean(from);
            let after = right.state;
            if !(right.expr is Null) {
            } else if self.peek(after).is_operator() {
                self.lemma_report_extends(after, Message::AdjacentOperators, 0, after.idx);
            } else if self.peek(after) is RightParen {
                if after.depth == 0 {
                    self.lemma_report_extends(
                        after,
                        Message::UnmatchedClosingParen,
                        0,
                        after.idx,
                    );
                }
            } else if self.peek(after) is Invalid {
                self.lemma_unary_extends(after.advance().failed());
            } else {
                self.lemma_report_extends(after, Message::MissingRightOperand, 0, from.idx);
            }
        }
    }

    /// A whole parse without an error has read the input to its end as one
    /// proposition, or has found the input exhausted and read nothing.
    pub proof fn lemma_parse_clean(self, s: State)
        requires
            s.idx <= self.tokens.len(),
        ensures
            ({
                let out = self.parse(s);
                !out.state.error ==> {
                    &&& self.clean(s, out)
                    &&& out.state.idx == self.tokens.len()
                    &&& (out.expr is Null || out.expr.is_proposition())
                }
            }),
    {
        let first = self.proposition(s);
        self.lemma_proposition_extends(s);
        self.lemma_proposition_clean(s);
        self.lemma_discard_extends(first.state);
        if first.state.idx >= self.tokens.len() {
            assert(self.discard(first.state) == first.state);
        }
    }

    /// Success means a sentence of the grammar.
    ///
    /// If a parse from the initial state ends without the error flag, then no
    /// diagnostic was reported, no group is left open, all of the input was
    /// consumed, and the input holds as many opening as closing parentheses.
    /// The tree is `Null` if the input is empty. Otherwise it is a
    /// `proposition` of the grammar, holds no `Null` node, and spells the
    /// input token by token.
    pub proof fn theorem_success_is_grammatical(self)
        ensures
            ({
                let out = self.parse(State::initial());
                !out.state.error ==> {
                    &&& out.state == (State { idx: self.tokens.len(), ..State::initial() })
                    &&& self.count(TokenView::LeftParen, self.tokens.len()) == self.count(
                        TokenView::RightParen,
                        self.tokens.len(),
                    )
                    &&& self.tokens.len() == 0 ==> out.expr is Null
                    &&& self.tokens.len() > 0 ==> {
                        &&& out.expr.is_proposition()
                        &&& out.expr.null_free()
                        &&& out.expr.flatten() == self.tokens
                    }
                }
            }),
    {
        let out = self.parse(State::initial());
        self.lemma_parse_clean(State::initial());
        if !out.state.error {
            assert(self.span(0, self.tokens.len()) =~= self.tokens);
            if self.tokens.len() > 0 {
                out.expr.lemma_proposition_null_free();
            } else {
                assert(out.expr.flatten().len() == 0);
                if !(out.expr is Null) {
                    out.expr.lemma_proposition_not_empty();
                }
            }
        }
    }
}

} // verus!
