//! Every sentence of the grammar is parsed without an error, into the tree
//! that the grammar gives it.

use vstd::prelude::*;
use crate::grammar::{grammatical, ExprView};
use crate::model::{Operand, Outcome, Source, State};
use crate::token::TokenView;

verus! {

impl Source {
    /// The tokens of `expr` stand in the input at the cursor of `s`.
    pub open spec fn spells(self, s: State, expr: ExprView) -> bool {
        &&& s.idx + expr.flatten().len() <= self.tokens.len()
        &&& self.span(s.idx, s.idx + expr.flatten().len()) =~= expr.flatten()
    }

    /// The state `s` with the cursor moved past the tokens of `expr`.
    pub open spec fn past(self, s: State, expr: ExprView) -> State {
        self.moved(s, s.idx + expr.flatten().len())
    }

    /// Where the last operand of `expr` begins, if `expr` is read from `s`.
    pub open spec fn last_operand(self, s: State, expr: ExprView) -> nat {
        match expr {
            ExprView::Binary(left, _, _) => s.idx + left.flatten().len() + 1,
            _ => s.idx + expr.flatten().len(),
        }
    }

    /// Where a group stands at the cursor, its parentheses and its inside do.
    pub proof fn lemma_spells_grouping(self, s: State, inner: ExprView)
        requires
            self.spells(s, ExprView::Grouping(Box::new(inner))),
        ensures
            self.peek(s) is LeftParen,
            self.spells(s.advance().deeper(), inner),
            self.peek(self.past(s.advance().deeper(), inner)) is RightParen,
            self.past(s, ExprView::Grouping(Box::new(inner))).idx == s.idx
                + inner.flatten().len() + 2,
    {
        let whole = ExprView::Grouping(Box::new(inner)).flatten();
        let found = self.span(s.idx, s.idx + whole.len());
        let n = inner.flatten().len() as int;
        assert(found[0] == whole[0]);
        assert(found[n + 1] == whole[n + 1]);
        assert forall|j: int| 0 <= j < n implies self.tokens[s.idx + 1 + j]
            == inner.flatten()[j] by {
            assert(found[j + 1] == whole[j + 1]);
        }
        assert(self.span(s.idx + 1, (s.idx + 1 + n) as nat) =~= inner.flatten());
    }

    /// Where a negation stands at the cursor, its sign and its operand do.
    pub proof fn lemma_spells_negation(self, s: State, operator: TokenView, operand: ExprView)
        requires
            self.spells(s, ExprView::Unary(operator, Box::new(operand))),
        ensures
            self.peek(s) == operator,
            self.spells(s.advance(), operand),
            self.past(s, ExprView::Unary(operator, Box::new(operand))) == self.past(
                s.advance(),
                operand,
            ),
    {
        let whole = ExprView::Unary(operator, Box::new(operand)).flatten();
        let found = self.span(s.idx, s.idx + whole.len());
        let n = operand.flatten().len() as int;
        assert(found[0] == whole[0]);
        assert forall|j: int| 0 <= j < n implies self.tokens[s.idx + 1 + j]
            == operand.flatten()[j] by {
            assert(found[j + 1] == whole[j + 1]);
        }
        assert(self.span(s.idx + 1, (s.idx + 1 + n) as nat) =~= operand.flatten());
    }

    /// Where a connective with its operands stands at the cursor, the left
    /// operand, the connective and the right operand do, one after another.
    pub proof fn lemma_spells_connective(
        self,
        s: State,
        left: ExprView,
        operator: TokenView,
        right: ExprView,
    )
        requires
            self.spells(s, ExprView::Binary(Box::new(left), operator, Box::new(right))),
        ensures
            self.spells(s, left),
            self.peek(self.past(s, left)) == operator,
            self.past(s, left).idx < self.tokens.len(),
            self.spells(self.past(s, left).advance(), right),
            self.past(s, ExprView::Binary(Box::new(left), operator, Box::new(right)))
                == self.past(self.past(s, left).advance(), right),
    {
        let whole = ExprView::Binary(Box::new(left), operator, Box::new(right)).flatten();
        let found = self.span(s.idx, s.idx + whole.len());
        let n = left.flatten().len() as int;
        let m = right.flatten().len() as int;
        assert(found[n] == whole[n]);
        assert forall|j: int| 0 <= j < n implies self.tokens[s.idx + j] == left.flatten()[j] by {
            assert(found[j] == whole[j]);
        }
        assert(self.span(s.idx, (s.idx + n) as nat) =~= left.flatten());
        assert forall|j: int| 0 <= j < m implies self.tokens[s.idx + n + 1 + j]
            == right.flatten()[j] by {
            assert(found[n + 1 + j] == whole[n + 1 + j]);
        }
        assert(self.span((s.idx + n + 1) as nat, (s.idx + n + 1 + m) as nat)
            =~= right.flatten());
    }

    /// `primary` reads a `primary` that stands at the cursor.
    #[verifier::rlimit(50)]
    pub proof fn lemma_primary_reads(self, s: State, expr: ExprView)
        requires
            expr.is_primary(),
            self.spells(s, expr),
            !self.previous(s).is_literal(),
        ensures
            self.primary(s) == (Outcome { state: self.past(s, expr), expr }),
        decreases expr, 0nat,
    {
        match expr {
            ExprView::Grouping(inner) => {
                self.lemma_spells_grouping(s, *inner);
                let entered = s.advance().deeper();
                self.lemma_proposition_reads(entered, *inner);
                inner.lemma_proposition_not_empty();
            },
            ExprView::Literal(token) => {
                assert(self.span(s.idx, s.idx + 1)[0] == expr.flatten()[0]);
            },
            _ => {},
        }
    }

    /// `unary` reads a `unary` that stands at the cursor.
    pub proof fn lemma_unary_reads(self, s: State, expr: ExprView)
        requires
            expr.is_unary(),
            self.spells(s, expr),
            !self.previous(s).is_literal(),
        ensures
            self.unary(s) == (Outcome { state: self.past(s, expr), expr }),
        decreases expr, 1nat,
    {
        expr.lemma_unary_begins();
        assert(self.peek(s) == expr.flatten()[0]) by {
            assert(self.span(s.idx, s.idx + expr.flatten().len())[0] == expr.flatten()[0]);
        }
        match expr {
            ExprView::Unary(operator, operand) => {
                self.lemma_spells_negation(s, operator, *operand);
                self.lemma_unary_reads(s.advance(), *operand);
                operand.lemma_unary_begins();
            },
            _ => {
                self.lemma_primary_reads(s, expr);
            },
        }
    }

    /// `proposition` reads a `proposition` that stands at the cursor and
    /// arrives in its loop with that tree.
    #[verifier::rlimit(50)]
    pub proof fn lemma_proposition_enters(self, s: State, expr: ExprView)
        requires
            expr.is_proposition(),
            self.spells(s, expr),
            !self.previous(s).is_literal(),
        ensures
            self.proposition(s) == self.connectives(
                self.past(s, expr),
                expr,
                self.last_operand(s, expr),
            ),
        decreases expr, 2nat,
    {
        match expr {
            ExprView::Binary(left, operator, right) => {
                self.lemma_spells_connective(s, *left, operator, *right);
                self.lemma_proposition_enters(s, *left);
                let at = self.past(s, *left);
                let from = at.advance();
                self.lemma_unary_reads(from, *right);
                left.lemma_proposition_not_empty();
                right.lemma_unary_begins();
                self.lemma_connectives_joins(at, *left, self.last_operand(s, *left), *right);
            },
            _ => {
                self.lemma_unary_reads(s, expr);
                expr.lemma_unary_begins();
            },
        }
    }

    /// One round of the loop of `proposition`: a connective whose right
    /// operand is read without fail is joined to what stands on its left.
    #[verifier::rlimit(50)]
    pub proof fn lemma_connectives_joins(
        self,
        at: State,
        left: ExprView,
        start: nat,
        right: ExprView,
    )
        requires
            self.peek(at).is_connective(),
            !(left is Null),
            !(right is Null),
            self.unary(at.advance()) == (Outcome {
                state: self.past(at.advance(), right),
                expr: right,
            }),
        ensures
            self.connectives(at, left, start) == self.connectives(
                self.past(at.advance(), right),
                ExprView::Binary(Box::new(left), self.peek(at), Box::new(right)),
                at.idx + 1,
            ),
    {
        let from = at.advance();
        assert(self.right_operand(from) == (Operand {
            state: self.past(from, right),
            expr: Some(right),
        }));
    }

    /// `proposition` reads a `proposition` that stands at the cursor, if the
    /// token after it ends a proposition.
    pub proof fn lemma_proposition_reads(self, s: State, expr: ExprView)
        requires
            expr.is_proposition(),
            self.spells(s, expr),
            !self.previous(s).is_literal(),
            self.peek(self.past(s, expr)).ends_proposition(),
        ensures
            self.proposition(s) == (Outcome { state: self.past(s, expr), expr }),
        decreases expr, 3nat,
    {
        self.lemma_proposition_enters(s, expr);
        let at = self.past(s, expr);
        assert(self.trailing(at, expr) == (Outcome { state: at, expr }));
        assert(self.connectives(at, expr, self.last_operand(s, expr)) == self.trailing(at, expr));
    }

    /// A sentence of the grammar is parsed without an error.
    ///
    /// If the input spells a `proposition` of the grammar, then the parse
    /// from the initial state returns that tree, consumes all of the input,
    /// reports no diagnostic, and leaves the error flag unset and no group
    /// open.
    pub proof fn theorem_grammatical_is_success(self, expr: ExprView)
        requires
            expr.is_proposition(),
            expr.flatten() == self.tokens,
        ensures
            self.parse(State::initial()) == (Outcome {
                state: State { idx: self.tokens.len(), ..State::initial() },
                expr,
            }),
    {
        let s = State::initial();
        assert(self.span(0, self.tokens.len()) =~= self.tokens);
        self.lemma_proposition_reads(s, expr);
    }

    /// The grammar is unambiguous: two propositions that spell the same
    /// tokens are the same tree.
    pub proof fn theorem_grammar_unambiguous(first: ExprView, second: ExprView)
        requires
            first.is_proposition(),
            second.is_proposition(),
            first.flatten() == second.flatten(),
        ensures
            first == second,
    {
        let source = Source { tokens: first.flatten(), line: 0 };
        source.theorem_grammatical_is_success(first);
        source.theorem_grammatical_is_success(second);
    }

    /// The parse of an empty input finds nothing and reports nothing.
    pub proof fn lemma_empty_input(self)
        requires
            self.tokens.len() == 0,
        ensures
            self.parse(State::initial()) == (Outcome {
                state: State::initial(),
                expr: ExprView::Null,
            }),
    {
        let s = State::initial();
        assert(self.primary(s) == (Outcome { state: s, expr: ExprView::Null }));
        assert(self.unary(s) == (Outcome { state: s, expr: ExprView::Null }));
        assert(self.trailing(s, ExprView::Null) == (Outcome { state: s, expr: ExprView::Null }));
        assert(self.connectives(s, ExprView::Null, 0) == (Outcome {
            state: s,
            expr: ExprView::Null,
        }));
    }

    /// A parse from the initial state succeeds exactly on the empty input
    /// and on the sentences of the grammar.
    pub proof fn theorem_success_iff_grammatical(self)
        ensures
            !self.parse(State::initial()).state.error <==> self.tokens.len() == 0 || grammatical(
                self.tokens,
            ),
    {
        let out = self.parse(State::initial());
        if self.tokens.len() == 0 {
            self.lemma_empty_input();
        } else if grammatical(self.tokens) {
            let expr = choose|expr: ExprView| #[trigger]
                expr.is_proposition() && expr.flatten() == self.tokens;
            self.theorem_grammatical_is_success(expr);
        } else if !out.state.error {
            self.theorem_success_is_grammatical();
            assert(out.expr.is_proposition() && out.expr.flatten() == self.tokens);
        }
    }
}

} // verus!
