//! How the depth counter and the diagnostics account for the parentheses of
//! the input.
//!
//! Three things hold of every step of the parser. Every opening parenthesis
//! that was consumed is answered by a closing parenthesis that was consumed
//! or by a report of a missing closing parenthesis. Every closing
//! parenthesis that was consumed has closed a group or is covered by a
//! report of an unmatched closing parenthesis. And the number of open groups
//! never rises above its earlier value by more than the number of groups
//! that were reported as not closed.

use vstd::prelude::*;
use crate::errors::{Diagnostic, ErrorKind, Message};
use crate::grammar::ExprView;
use crate::model::{Source, State};
use crate::token::TokenView;

verus! {

/// The number of diagnostics in `diags` whose message is of class `kind`.
pub open spec fn tally(diags: Seq<Diagnostic>, kind: ErrorKind) -> nat
    decreases diags.len(),
{
    if diags.len() == 0 {
        0
    } else {
        tally(diags.drop_last(), kind) + if diags.last().message.class() == kind {
            1nat
        } else {
            0nat
        }
    }
}

/// One more diagnostic adds one to the tally of its class.
pub proof fn lemma_tally_push(diags: Seq<Diagnostic>, diagnostic: Diagnostic, kind: ErrorKind)
    ensures
        tally(diags.push(diagnostic), kind) == tally(diags, kind) + if diagnostic.message.class()
            == kind {
            1nat
        } else {
            0nat
        },
{
    assert(diags.push(diagnostic).drop_last() =~= diags);
}

impl Source {
    /// The number of tokens equal to `token` before position `idx`.
    pub open spec fn count(self, token: TokenView, idx: nat) -> nat
        decreases idx,
    {
        if idx == 0 {
            0
        } else {
            self.count(token, (idx - 1) as nat) + if idx <= self.tokens.len() && self.tokens[idx
                - 1] == token {
                1nat
            } else {
                0nat
            }
        }
    }

    /// The parentheses consumed and the diagnostics reported from `from` to
    /// `to` account for each other.
    ///
    /// Reports of either class were only added. The open groups have risen
    /// by no more than the reports of a missing closing parenthesis. The
    /// opening parentheses consumed are no more than the closing ones
    /// consumed and those reports together. And the closing parentheses
    /// consumed are no more than the groups that were closed and the reports
    /// of an unmatched closing parenthesis together.
    pub open spec fn balanced(self, from: State, to: State) -> bool {
        let missing = ErrorKind::MissingClosingParen;
        let unmatched = ErrorKind::UnmatchedClosingParen;
        let opened = TokenView::LeftParen;
        let closed = TokenView::RightParen;
        &&& tally(from.diags, missing) <= tally(to.diags, missing)
        &&& tally(from.diags, unmatched) <= tally(to.diags, unmatched)
        &&& to.open_groups() + tally(from.diags, missing) <= from.open_groups() + tally(
            to.diags,
            missing,
        )
        &&& self.count(opened, to.idx) + self.count(closed, from.idx) + tally(from.diags, missing)
            <= self.count(opened, from.idx) + self.count(closed, to.idx) + tally(
            to.diags,
            missing,
        )
        &&& to.open_groups() + self.count(closed, to.idx) + self.count(opened, from.idx) + tally(
            from.diags,
            unmatched,
        ) <= from.open_groups() + self.count(opened, to.idx) + self.count(closed, from.idx)
            + tally(to.diags, unmatched)
    }

    /// From `from` to `to` tokens were only skipped: no opening parenthesis
    /// was consumed, no group was opened, and `reports` reports of a missing
    /// closing parenthesis were added.
    pub open spec fn skipped(self, from: State, to: State, reports: nat) -> bool {
        &&& to.open_groups() <= from.open_groups()
        &&& self.count(TokenView::LeftParen, to.idx) == self.count(TokenView::LeftParen, from.idx)
        &&& self.count(TokenView::RightParen, from.idx) <= self.count(
            TokenView::RightParen,
            to.idx,
        )
        &&& tally(to.diags, ErrorKind::MissingClosingParen) == tally(
            from.diags,
            ErrorKind::MissingClosingParen,
        ) + reports
    }

    /// Consuming a token that is no parenthesis keeps the balance.
    pub proof fn lemma_advance_balanced(self, s: State)
        requires
            !(self.peek(s) is LeftParen),
            !(self.peek(s) is RightParen),
        ensures
            self.balanced(s, s.advance()),
            self.balanced(s, s.advance().failed()),
    {
    }

    /// Recording a diagnostic adds one to the tally of its class.
    pub proof fn lemma_noted_balanced(self, s: State, message: Message, code: u32, at: nat)
        ensures
            ({
                let noted = s.noted(self.diagnostic(message, code, at));
                &&& self.balanced(s, noted)
                &&& self.skipped(
                    s,
                    noted,
                    if message == Message::MissingClosingParen {
                        1
                    } else {
                        0
                    },
                )
                &&& message.class() == ErrorKind::UnmatchedClosingParen ==> tally(
                    noted.diags,
                    ErrorKind::UnmatchedClosingParen,
                ) == tally(s.diags, ErrorKind::UnmatchedClosingParen) + 1
            }),
    {
        let diagnostic = self.diagnostic(message, code, at);
        lemma_tally_push(s.diags, diagnostic, ErrorKind::MissingClosingParen);
        lemma_tally_push(s.diags, diagnostic, ErrorKind::UnmatchedClosingParen);
    }

    /// Skipping a token that is no opening parenthesis only skips, and keeps
    /// the balance. A closing parenthesis that is skipped closes a group,
    /// unless none is open.
    pub proof fn lemma_skip_balanced(self, s: State)
        requires
            !(self.peek(s) is LeftParen),
        ensures
            self.skipped(s, self.skip(s), 0),
            self.balanced(s, self.skip(s)),
            self.peek(s) is RightParen ==> self.skip(s).open_groups() == 0 || self.skip(
                s,
            ).open_groups() + 1 == s.open_groups(),
            self.peek(s) is RightParen ==> self.count(TokenView::RightParen, self.skip(s).idx)
                == self.count(TokenView::RightParen, s.idx) + 1,
    {
        if self.peek(s) is RightParen && !s.eased && s.depth == 0 {
            self.lemma_noted_balanced(s, Message::UnmatchedClosingParen, 0, s.idx);
        }
    }

    /// Synchronizing only skips, and keeps the balance.
    pub proof fn lemma_synchronize_balanced(self, s: State)
        ensures
            self.skipped(s, self.synchronize(s), 0),
            self.balanced(s, self.synchronize(s)),
        decreases self.remaining(s),
    {
        if s.idx >= self.tokens.len() || self.peek(s).opens_operand() {
        } else {
            self.lemma_skip_balanced(s);
            self.lemma_synchronize_balanced(self.skip(s));
        }
    }

    /// Reporting only skips and keeps the balance. It adds one report of a
    /// missing closing parenthesis if that is what it reports.
    pub proof fn lemma_report_balanced(self, s: State, message: Message, code: u32, at: nat)
        ensures
            self.skipped(
                s,
                self.report(s, message, code, at),
                if message == Message::MissingClosingParen {
                    1
                } else {
                    0
                },
            ),
            self.balanced(s, self.report(s, message, code, at)),
    {
        self.lemma_noted_balanced(s, message, code, at);
        self.lemma_synchronize_balanced(s.noted(self.diagnostic(message, code, at)));
    }

    /// The checks of `primary` keep the balance.
    pub proof fn lemma_checked_balanced(self, s: State)
        requires
            s.idx <= self.tokens.len(),
        ensures
            self.balanced(s, self.checked(s)),
    {
        if self.previous(s).is_literal() {
            if self.peek(s) is LeftParen {
                self.lemma_report_extends(s, Message::MisplacedGrouping, 0, s.idx);
                self.lemma_report_balanced(s, Message::MisplacedGrouping, 0, s.idx);
            } else if self.peek(s).is_literal() {
                self.lemma_report_balanced(s, Message::AdjacentLiterals, 0, s.idx);
            }
        }
    }

    /// Looking for the end of a group keeps the balance and answers the
    /// opening parenthesis of the group, by a closing parenthesis or by a
    /// report. It leaves no group open, or one group less, the reports
    /// counted in.
    pub proof fn lemma_close_group_balanced(self, s: State)
        ensures
            ({
                let closed = self.close_group(s);
                let missing = ErrorKind::MissingClosingParen;
                &&& self.balanced(s, closed)
                &&& closed.open_groups() == 0 || closed.open_groups() + tally(s.diags, missing)
                    + 1 <= s.open_groups() + tally(closed.diags, missing)
                &&& self.count(TokenView::LeftParen, closed.idx) + self.count(
                    TokenView::RightParen,
                    s.idx,
                ) + tally(s.diags, missing) + 1 <= self.count(TokenView::LeftParen, s.idx)
                    + self.count(TokenView::RightParen, closed.idx) + tally(closed.diags, missing)
            }),
    {
        if self.peek(s) is RightParen {
            self.lemma_skip_balanced(s);
        } else {
            self.lemma_report_balanced(s, Message::MissingClosingParen, 0, s.idx);
        }
    }

    /// Reading a group, from its opening parenthesis at `s` to the end of
    /// `primary`, keeps the balance.
    pub proof fn lemma_group_balanced(self, s: State, start: nat)
        requires
            s.idx < self.tokens.len(),
            self.peek(s) is LeftParen,
        ensures
            ({
                let inner = self.proposition(s.advance().deeper());
                let closed = self.close_group(inner.state);
                &&& self.balanced(s, closed)
                &&& self.balanced(s, self.report(closed, Message::EmptyGrouping, 1, start))
            }),
        decreases self.remaining(s), 0nat,
    {
        let entered = s.advance().deeper();
        self.lemma_proposition_balanced(entered);
        let inner = self.proposition(entered);
        let closed = self.close_group(inner.state);
        self.lemma_close_group_balanced(inner.state);
        assert(self.balanced(entered, inner.state));
        assert(self.balanced(s, closed));
        self.lemma_report_balanced(closed, Message::EmptyGrouping, 1, start);
    }

    /// `primary` keeps the balance.
    pub proof fn lemma_primary_balanced(self, s: State)
        requires
            s.idx <= self.tokens.len(),
        ensures
            self.balanced(s, self.primary(s).state),
        decreases self.remaining(s), 1nat,
    {
        let checked = self.checked(s);
        self.lemma_checked_extends(s);
        self.lemma_checked_balanced(s);
        if self.peek(checked) is LeftParen {
            self.lemma_group_balanced(checked, s.idx);
        } else if self.peek(checked).is_literal() {
            self.lemma_advance_balanced(checked);
        } else if self.peek(checked) is RightParen && checked.depth == 0 && !checked.eased {
            self.lemma_report_balanced(checked, Message::StrayClosingParen, 0, checked.idx);
        }
    }

    /// `unary` keeps the balance.
    pub proof fn lemma_unary_balanced(self, s: State)
        requires
            s.idx <= self.tokens.len(),
        ensures
            self.balanced(s, self.unary(s).state),
        decreases self.remaining(s), 2nat,
    {
        if self.peek(s) is Not {
            let operand = self.unary(s.advance());
            self.lemma_advance_balanced(s);
            self.lemma_unary_balanced(s.advance());
            if operand.expr is Null {
                self.lemma_report_balanced(
                    operand.state,
                    Message::MissingNegationOperand,
                    0,
                    s.idx,
                );
            }
        } else {
            self.lemma_primary_balanced(s);
        }
    }

    /// `proposition` keeps the balance.
    pub proof fn lemma_proposition_balanced(self, s: State)
        requires
            s.idx <= self.tokens.len(),
        ensures
            self.balanced(s, self.proposition(s).state),
        decreases self.remaining(s), (if self.peek(s).opens_operand() { 4nat } else { 8nat }),
    {
        let first = self.unary(s);
        self.lemma_unary_extends(s);
        self.lemma_unary_balanced(s);
        self.lemma_connectives_balanced(first.state, first.expr, first.state.idx);
    }

    /// The loop of `proposition` keeps the balance.
    pub proof fn lemma_connectives_balanced(self, s: State, left: ExprView, start: nat)
        requires
            s.idx <= self.tokens.len(),
        ensures
            self.balanced(s, self.connectives(s, left, start).state),
        decreases self.remaining(s), 7nat,
    {
        if !self.peek(s).is_connective() {
            self.lemma_trailing_balanced(s, left);
        } else if left is Null {
            let state = self.report(s.advance(), Message::MissingLeftOperand, 0, start);
            self.lemma_advance_balanced(s);
            self.lemma_report_extends(s.advance(), Message::MissingLeftOperand, 0, start);
            self.lemma_report_balanced(s.advance(), Message::MissingLeftOperand, 0, start);
            self.lemma_connectives_balanced(state, left, start);
        } else {
            let from = s.advance();
            self.lemma_advance_balanced(s);
            let right = self.right_operand(from);
            self.lemma_right_operand_extends(from);
            self.lemma_right_operand_balanced(from);
            let joined = Source::joined(left, self.peek(s), right.expr);
            self.lemma_connectives_balanced(right.state, joined, from.idx);
        }
    }

    /// Reading the operand to the right of a connective keeps the balance.
    pub proof fn lemma_right_operand_balanced(self, from: State)
        requires
            from.idx <= self.tokens.len(),
        ensures
            self.balanced(from, self.right_operand(from).state),
        decreases self.remaining(from), 3nat,
    {
        let right = self.unary(from);
        self.lemma_unary_extends(from);
        self.lemma_unary_balanced(from);
        let after = right.state;
        if !(right.expr is Null) {
        } else if self.peek(after).is_operator() {
            self.lemma_report_balanced(after, Message::AdjacentOperators, 0, after.idx);
        } else if self.peek(after) is RightParen {
            if after.depth > 0 {
                assert(self.balanced(after, after.ease()));
            } else {
                self.lemma_report_balanced(after, Message::UnmatchedClosingParen, 0, after.idx);
            }
        } else if self.peek(after) is Invalid {
            self.lemma_advance_balanced(after);
            self.lemma_unary_extends(after.advance().failed());
            self.lemma_unary_balanced(after.advance().failed());
        } else {
            self.lemma_report_balanced(after, Message::MissingRightOperand, 0, from.idx);
        }
    }

    /// Reading on after a literal that follows a proposition keeps the
    /// balance.
    pub proof fn lemma_reread_literal_balanced(self, s: State, left: ExprView)
        requires
            s.idx <= self.tokens.len(),
        ensures
            self.balanced(s, self.reread_literal(s, left).state),
        decreases self.remaining(s), 5nat,
    {
        if self.peek(s).is_literal() {
            let reported = self.report(s, Message::AdjacentLiterals, 0, s.idx);
            self.lemma_report_extends(s, Message::AdjacentLiterals, 0, s.idx);
            self.lemma_report_balanced(s, Message::AdjacentLiterals, 0, s.idx);
            self.lemma_proposition_balanced(reported);
        }
    }

    /// Reading on after an invalid lexeme or a group that follows a
    /// proposition keeps the balance.
    pub proof fn lemma_reread_group_balanced(self, s: State, left: ExprView)
        requires
            s.idx <= self.tokens.len(),
        ensures
            self.balanced(s, self.reread_group(s, left).state),
        decreases self.remaining(s), 5nat,
    {
        if self.peek(s) is Invalid {
            self.lemma_advance_balanced(s);
            self.lemma_proposition_balanced(s.advance().failed());
        } else if self.peek(s) is LeftParen {
            self.lemma_proposition_balanced(s.failed());
        }
    }

    /// The checks after the loop of `proposition` keep the balance.
    pub proof fn lemma_trailing_balanced(self, s: State, left: ExprView)
        requires
            s.idx <= self.tokens.len(),
        ensures
            self.balanced(s, self.trailing(s, left).state),
        decreases self.remaining(s), 6nat,
    {
        let a = self.reread_literal(s, left);
        self.lemma_reread_literal_extends(s, left);
        self.lemma_reread_literal_balanced(s, left);
        let b = self.reread_group(a.state, a.expr);
        self.lemma_reread_group_balanced(a.state, a.expr);
        if self.peek(b.state) is Not {
            self.lemma_report_balanced(b.state, Message::MisplacedNegation, 0, b.state.idx);
        }
    }

    /// Reading what is left of the input keeps the balance.
    pub proof fn lemma_discard_balanced(self, s: State)
        requires
            s.idx <= self.tokens.len(),
        ensures
            self.balanced(s, self.discard(s)),
        decreases self.remaining(s),
    {
        if s.idx < self.tokens.len() {
            let round = self.proposition(s.failed()).state;
            self.lemma_proposition_extends(s.failed());
            self.lemma_proposition_balanced(s.failed());
            let next = self.resume(s, round);
            if round.idx <= s.idx {
                self.lemma_skip_balanced(round);
            }
            self.lemma_discard_extends(next);
            self.lemma_discard_balanced(next);
        }
    }

    /// A whole parse keeps the balance.
    pub proof fn lemma_parse_balanced(self, s: State)
        requires
            s.idx <= self.tokens.len(),
        ensures
            self.balanced(s, self.parse(s).state),
    {
        self.lemma_proposition_extends(s);
        self.lemma_proposition_balanced(s);
        self.lemma_discard_balanced(self.proposition(s).state);
    }

    /// The parentheses of the input are accounted for at the end of a parse.
    ///
    /// After a parse from the initial state:
    /// every opening parenthesis of the input is answered by a closing
    /// parenthesis of the input or by a diagnostic that reports a missing
    /// closing parenthesis;
    /// every closing parenthesis of the input has closed a group that an
    /// opening parenthesis of the input had opened, or is covered by a
    /// diagnostic that reports an unmatched closing parenthesis;
    /// the number of groups that the depth still counts as open is at most
    /// the number of diagnostics that report a missing closing parenthesis;
    /// and if the parse ended without the error flag, the depth is back at 0
    /// and the input holds as many opening as closing parentheses.
    pub proof fn theorem_depth_accounted(self)
        ensures
            ({
                let end = self.parse(State::initial()).state;
                let opened = self.count(TokenView::LeftParen, self.tokens.len());
                let closed = self.count(TokenView::RightParen, self.tokens.len());
                let missing = tally(end.diags, ErrorKind::MissingClosingParen);
                let unmatched = tally(end.diags, ErrorKind::UnmatchedClosingParen);
                &&& opened <= closed + missing
                &&& end.depth + closed <= opened + unmatched
                &&& end.depth <= missing
                &&& !end.eased
                &&& !end.error ==> end.depth == 0 && opened == closed
            }),
    {
        let s = State::initial();
        self.lemma_parse_balanced(s);
        self.lemma_parse_extends(s);
        self.theorem_success_is_grammatical();
    }
}

} // verus!
