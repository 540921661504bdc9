//! How each rule of the model moves the state: the cursor goes forward and
//! stays within the input, the depth grows by no more than the tokens that
//! were consumed, the error flag is never cleared, and diagnostics are only
//! added, each of them with the error flag.

use vstd::prelude::*;
use crate::errors::Message;
use crate::grammar::ExprView;
use crate::model::{Outcome, Source, State};

verus! {

impl Source {
    /// From `from` to `to` the cursor has gone forward within the input, and
    /// the depth has grown by no more than the tokens that were consumed.
    pub open spec fn within(self, from: State, to: State) -> bool {
        &&& from.idx <= to.idx <= self.tokens.len()
        &&& to.depth + from.idx <= from.depth + to.idx
    }

    /// From `from` to `to` diagnostics were only added, each for this line and
    /// with the error flag.
    #[verifier::opaque]
    pub open spec fn grows(self, from: State, to: State) -> bool {
        &&& from.diags.is_prefix_of(to.diags)
        &&& to.diags.len() > from.diags.len() ==> to.error
        &&& forall|i: int|
            from.diags.len() <= i < to.diags.len() ==> (#[trigger] to.diags[i]).line == self.line
    }

    /// A closing parenthesis that has lowered the depth in advance stands at
    /// the cursor of `to` with the error flag set, unless `to` has that mark
    /// from `from`, with the cursor where it was.
    pub open spec fn marks(self, from: State, to: State) -> bool {
        to.eased ==> (to.error && self.peek(to) is RightParen) || (from.eased && to.idx
            == from.idx)
    }

    /// `to` can be reached from `from` by reading on. The error flag is
    /// never cleared on the way.
    pub open spec fn extends(self, from: State, to: State) -> bool {
        &&& self.within(from, to)
        &&& from.error ==> to.error
        &&& self.marks(from, to)
        &&& self.grows(from, to)
    }

    /// Every state within the input extends itself.
    pub proof fn lemma_extends_reflexive(self, a: State)
        requires
            a.idx <= self.tokens.len(),
        ensures
            self.extends(a, a),
    {
        reveal(Source::grows);
    }

    /// Reading on from a state that was reached by reading on.
    pub proof fn lemma_extends_transitive(self, a: State, b: State, c: State)
        requires
            self.extends(a, b),
            self.extends(b, c),
        ensures
            self.extends(a, c),
    {
        reveal(Source::grows);
        let n = a.diags.len() as int;
        let m = b.diags.len() as int;
        assert forall|i: int| 0 <= i < n implies a.diags[i] == c.diags[i] by {
            assert(a.diags[i] == b.diags.subrange(0, n)[i]);
            assert(b.diags[i] == c.diags.subrange(0, m)[i]);
        }
        assert(a.diags =~= c.diags.subrange(0, n));
        assert forall|i: int| n <= i < c.diags.len() implies (#[trigger] c.diags[i]).line
            == self.line by {
            if i < m {
                assert(b.diags[i] == c.diags.subrange(0, m)[i]);
            }
        }
    }

    /// Synchronizing reads on, and stops at the end of the input or at a
    /// token that begins an operand.
    pub proof fn lemma_synchronize_extends(self, s: State)
        requires
            s.idx <= self.tokens.len(),
        ensures
            self.extends(s, self.synchronize(s)),
            self.synchronize(s).idx == self.tokens.len() || self.peek(
                self.synchronize(s),
            ).opens_operand(),
            self.peek(s).opens_operand() ==> self.synchronize(s) == s,
        decreases self.remaining(s),
    {
        reveal(Source::grows);
        if s.idx >= self.tokens.len() || self.peek(s).opens_operand() {
        } else {
            let next = self.skip(s);
            self.lemma_synchronize_extends(next);
            assert(self.extends(s, next));
            self.lemma_extends_transitive(s, next, self.synchronize(next));
        }
    }

    /// Reporting reads on and sets the error flag.
    pub proof fn lemma_report_extends(self, s: State, message: Message, code: u32, at: nat)
        requires
            s.idx <= self.tokens.len(),
        ensures
            self.extends(s, self.report(s, message, code, at)),
            self.report(s, message, code, at).error,
            self.report(s, message, code, at).diags.len() > s.diags.len(),
            self.report(s, message, code, at).idx == self.tokens.len() || self.peek(
                self.report(s, message, code, at),
            ).opens_operand(),
            self.peek(s).opens_operand() ==> self.report(s, message, code, at) == s.noted(
                self.diagnostic(message, code, at),
            ),
    {
        reveal(Source::grows);
        let noted = s.noted(self.diagnostic(message, code, at));
        self.lemma_synchronize_extends(noted);
        assert(self.extends(s, noted));
        self.lemma_extends_transitive(s, noted, self.synchronize(noted));
    }

    /// The checks of `primary` leave the cursor and the depth as they are,
    /// and change the state only by a report.
    pub proof fn lemma_checked_extends(self, s: State)
        requires
            s.idx <= self.tokens.len(),
        ensures
            self.extends(s, self.checked(s)),
            self.checked(s).idx == s.idx,
            self.checked(s).depth == s.depth,
            self.checked(s) == s || self.checked(s).error,
    {
        self.lemma_extends_reflexive(s);
        if self.previous(s).is_literal() {
            if self.peek(s) is LeftParen {
                self.lemma_report_extends(s, Message::MisplacedGrouping, 0, s.idx);
            } else if self.peek(s).is_literal() {
                self.lemma_report_extends(s, Message::AdjacentLiterals, 0, s.idx);
            }
        }
    }

    /// Looking for the end of a group reads on. It sets the error flag
    /// unless it consumes a closing parenthesis that closes an open group.
    pub proof fn lemma_close_group_extends(self, s: State)
        requires
            s.idx <= self.tokens.len(),
        ensures
            self.extends(s, self.close_group(s)),
            !self.close_group(s).error ==> !s.error && self.peek(s) is RightParen && (s.eased
                || s.depth > 0),
            !self.close_group(s).error && !s.eased ==> self.close_group(s)
                == s.advance().shallower(),
    {
        reveal(Source::grows);
        if !(self.peek(s) is RightParen) {
            self.lemma_report_extends(s, Message::MissingClosingParen, 0, s.idx);
        }
    }

    /// `primary` reads on, and consumes the token that opens an operand.
    pub proof fn lemma_primary_extends(self, s: State)
        requires
            s.idx <= self.tokens.len(),
        ensures
            self.extends(s, self.primary(s).state),
            self.peek(s).opens_operand() ==> self.primary(s).state.idx > s.idx,
        decreases self.remaining(s), 0nat,
    {
        reveal(Source::grows);
        let checked = self.checked(s);
        self.lemma_checked_extends(s);
        if self.peek(checked) is LeftParen {
            let entered = checked.advance().deeper();
            assert(self.extends(checked, entered));
            self.lemma_proposition_extends(entered);
            let inner = self.proposition(entered);
            let closed = self.close_group(inner.state);
            self.lemma_close_group_extends(inner.state);
            let state = self.primary(s).state;
            if inner.expr is Null {
                self.lemma_report_extends(closed, Message::EmptyGrouping, 1, s.idx);
            }
            self.lemma_extends_transitive(s, checked, entered);
            self.lemma_extends_transitive(s, entered, inner.state);
            self.lemma_extends_transitive(s, inner.state, closed);
            self.lemma_extends_transitive(s, closed, state);
        } else if self.peek(checked).is_literal() {
            assert(self.extends(checked, checked.advance()));
            self.lemma_extends_transitive(s, checked, checked.advance());
        } else if self.peek(checked) is RightParen && checked.depth == 0 {
            self.lemma_report_extends(checked, Message::StrayClosingParen, 0, checked.idx);
            self.lemma_extends_transitive(s, checked, self.primary(s).state);
        }
    }

    /// `unary` reads on, and consumes the token that opens an operand.
    pub proof fn lemma_unary_extends(self, s: State)
        requires
            s.idx <= self.tokens.len(),
        ensures
            self.extends(s, self.unary(s).state),
            self.peek(s).opens_operand() ==> self.unary(s).state.idx > s.idx,
        decreases self.remaining(s), 1nat,
    {
        reveal(Source::grows);
        if self.peek(s) is Not {
            let operand = self.unary(s.advance());
            self.lemma_unary_extends(s.advance());
            assert(self.extends(s, s.advance()));
            self.lemma_extends_transitive(s, s.advance(), operand.state);
            if operand.expr is Null {
                self.lemma_report_extends(
                    operand.state,
                    Message::MissingNegationOperand,
                    0,
                    s.idx,
                );
                self.lemma_extends_transitive(s, operand.state, self.unary(s).state);
            }
        } else {
            self.lemma_primary_extends(s);
        }
    }

    /// `proposition` reads on, and consumes the token that opens an operand.
    pub proof fn lemma_proposition_extends(self, s: State)
        requires
            s.idx <= self.tokens.len(),
        ensures
            self.extends(s, self.proposition(s).state),
            self.peek(s).opens_operand() ==> self.proposition(s).state.idx > s.idx,
        decreases self.remaining(s), (if self.peek(s).opens_operand() { 3nat } else { 7nat }),
    {
        let first = self.unary(s);
        self.lemma_unary_extends(s);
        self.lemma_connectives_extends(first.state, first.expr, first.state.idx);
        self.lemma_extends_transitive(s, first.state, self.proposition(s).state);
    }

    /// The loop of `proposition` reads on.
    pub proof fn lemma_connectives_extends(self, s: State, left: ExprView, start: nat)
        requires
            s.idx <= self.tokens.len(),
        ensures
            self.extends(s, self.connectives(s, left, start).state),
        decreases self.remaining(s), 6nat,
    {
        reveal(Source::grows);
        let end = self.connectives(s, left, start).state;
        if !self.peek(s).is_connective() {
            self.lemma_trailing_extends(s, left);
        } else if left is Null {
            let state = self.report(s.advance(), Message::MissingLeftOperand, 0, start);
            self.lemma_report_extends(s.advance(), Message::MissingLeftOperand, 0, start);
            self.lemma_connectives_extends(state, left, start);
            assert(self.extends(s, s.advance()));
            self.lemma_extends_transitive(s, s.advance(), state);
            self.lemma_extends_transitive(s, state, end);
        } else {
            let from = s.advance();
            assert(self.extends(s, from));
            let right = self.right_operand(from);
            self.lemma_right_operand_extends(from);
            let joined = Source::joined(left, self.peek(s), right.expr);
            self.lemma_connectives_extends(right.state, joined, from.idx);
            self.lemma_extends_transitive(s, from, right.state);
            self.lemma_extends_transitive(s, right.state, end);
        }
    }

    /// Reading the operand to the right of a connective reads on, and sets
    /// the error flag where it finds no operand.
    pub proof fn lemma_right_operand_extends(self, from: State)
        requires
            from.idx <= self.tokens.len(),
        ensures
            self.extends(from, self.right_operand(from).state),
            self.right_operand(from).expr is None ==> self.right_operand(from).state.error,
        decreases self.remaining(from), 2nat,
    {
        reveal(Source::grows);
        let end = self.right_operand(from).state;
        let right = self.unary(from);
        self.lemma_unary_extends(from);
        let after = right.state;
        if !(right.expr is Null) {
        } else if self.peek(after).is_operator() {
            self.lemma_report_extends(after, Message::AdjacentOperators, 0, after.idx);
            self.lemma_extends_transitive(from, after, end);
        } else if self.peek(after) is RightParen {
            if after.depth > 0 {
                assert(self.extends(after, after.ease()));
            } else {
                self.lemma_report_extends(after, Message::UnmatchedClosingParen, 0, after.idx);
            }
            self.lemma_extends_transitive(from, after, end);
        } else if self.peek(after) is Invalid {
            assert(self.extends(after, after.advance().failed()));
            self.lemma_unary_extends(after.advance().failed());
            self.lemma_extends_transitive(from, after, after.advance().failed());
            self.lemma_extends_transitive(from, after.advance().failed(), end);
        } else {
            self.lemma_report_extends(after, Message::MissingRightOperand, 0, from.idx);
            self.lemma_extends_transitive(from, after, end);
        }
    }

    /// Reading on after a literal that follows a proposition reads on, and
    /// sets the error flag.
    pub proof fn lemma_reread_literal_extends(self, s: State, left: ExprView)
        requires
            s.idx <= self.tokens.len(),
        ensures
            self.extends(s, self.reread_literal(s, left).state),
            self.reread_literal(s, left) == (Outcome { state: s, expr: left })
                || self.reread_literal(s, left).state.error,
        decreases self.remaining(s), 4nat,
    {
        if self.peek(s).is_literal() {
            let reported = self.report(s, Message::AdjacentLiterals, 0, s.idx);
            self.lemma_report_extends(s, Message::AdjacentLiterals, 0, s.idx);
            self.lemma_proposition_extends(reported);
            self.lemma_extends_transitive(s, reported, self.proposition(reported).state);
        } else {
            self.lemma_extends_reflexive(s);
        }
    }

    /// Reading on after an invalid lexeme or a group that follows a
    /// proposition reads on, and sets the error flag.
    pub proof fn lemma_reread_group_extends(self, s: State, left: ExprView)
        requires
            s.idx <= self.tokens.len(),
        ensures
            self.extends(s, self.reread_group(s, left).state),
            self.reread_group(s, left) == (Outcome { state: s, expr: left })
                || self.reread_group(s, left).state.error,
        decreases self.remaining(s), 4nat,
    {
        reveal(Source::grows);
        if self.peek(s) is Invalid {
            let next = s.advance().failed();
            assert(self.extends(s, next));
            self.lemma_proposition_extends(next);
            self.lemma_extends_transitive(s, next, self.proposition(next).state);
        } else if self.peek(s) is LeftParen {
            let next = s.failed();
            assert(self.extends(s, next));
            self.lemma_proposition_extends(next);
            self.lemma_extends_transitive(s, next, self.proposition(next).state);
        }
    }

    /// The checks after the loop of `proposition` read on, and change
    /// nothing unless they set the error flag.
    pub proof fn lemma_trailing_extends(self, s: State, left: ExprView)
        requires
            s.idx <= self.tokens.len(),
        ensures
            self.extends(s, self.trailing(s, left).state),
            self.trailing(s, left) == (Outcome { state: s, expr: left })
                || self.trailing(s, left).state.error,
        decreases self.remaining(s), 5nat,
    {
        let a = self.reread_literal(s, left);
        self.lemma_reread_literal_extends(s, left);
        let b = self.reread_group(a.state, a.expr);
        self.lemma_reread_group_extends(a.state, a.expr);
        self.lemma_extends_transitive(s, a.state, b.state);
        if self.peek(b.state) is Not {
            self.lemma_report_extends(b.state, Message::MisplacedNegation, 0, b.state.idx);
            self.lemma_extends_transitive(s, b.state, self.trailing(s, left).state);
        }
    }

    /// Reading what is left of the input reads on to the end, and sets the
    /// error flag if anything was left.
    pub proof fn lemma_discard_extends(self, s: State)
        requires
            s.idx <= self.tokens.len(),
        ensures
            self.extends(s, self.discard(s)),
            self.discard(s).idx == self.tokens.len(),
            s.idx < self.tokens.len() ==> self.discard(s).error,
        decreases self.remaining(s),
    {
        reveal(Source::grows);
        if s.idx < self.tokens.len() {
            let round = self.proposition(s.failed()).state;
            self.lemma_proposition_extends(s.failed());
            let next = self.resume(s, round);
            assert(self.extends(s, s.failed()));
            assert(self.extends(round, next));
            self.lemma_discard_extends(next);
            self.lemma_extends_transitive(s, s.failed(), round);
            self.lemma_extends_transitive(s, round, next);
            self.lemma_extends_transitive(s, next, self.discard(next));
        }
    }

    /// A whole parse reads on to the end of the input.
    pub proof fn lemma_parse_extends(self, s: State)
        requires
            s.idx <= self.tokens.len(),
        ensures
            self.extends(s, self.parse(s).state),
            self.parse(s).state.idx == self.tokens.len(),
    {
        let first = self.proposition(s).state;
        self.lemma_proposition_extends(s);
        self.lemma_discard_extends(first);
        self.lemma_extends_transitive(s, first, self.discard(first));
    }
}

} // verus!
