//! Expression trees and the grammar they are built by.
//!
//! ```text
//! proposition := unary (connective unary)*
//! unary       := Not unary | primary
//! primary     := literal | "(" proposition ")"
//! ```

use vstd::prelude::*;
use crate::token::{Token, TokenView};

verus! {

/// An expression tree.
///
/// `Null` means "no expression could be read here". It is a placeholder that
/// only recovery from a syntax error leaves inside a tree.
#[derive(Debug, PartialEq, Eq)]
pub enum Expr {
    Null,
    Literal(Token),
    Unary(Token, Box<Expr>),
    Binary(Box<Expr>, Token, Box<Expr>),
    Grouping(Box<Expr>),
}

/// The mathematical value of an [`Expr`].
pub enum ExprView {
    Null,
    Literal(TokenView),
    Unary(TokenView, Box<ExprView>),
    Binary(Box<ExprView>, TokenView, Box<ExprView>),
    Grouping(Box<ExprView>),
}

/// The value of a tree, node by node.
pub open spec fn value_of(expr: Expr) -> ExprView
    decreases expr,
{
    match expr {
        Expr::Null => ExprView::Null,
        Expr::Literal(token) => ExprView::Literal(token@),
        Expr::Unary(operator, operand) => ExprView::Unary(operator@, Box::new(value_of(*operand))),
        Expr::Binary(left, operator, right) => ExprView::Binary(
            Box::new(value_of(*left)),
            operator@,
            Box::new(value_of(*right)),
        ),
        Expr::Grouping(inner) => ExprView::Grouping(Box::new(value_of(*inner))),
    }
}

impl View for Expr {
    type V = ExprView;

    open spec fn view(&self) -> ExprView {
        value_of(*self)
    }
}

impl ExprView {
    /// No node of the tree is `Null`.
    pub open spec fn null_free(self) -> bool
        decreases self,
    {
        match self {
            ExprView::Null => false,
            ExprView::Literal(_) => true,
            ExprView::Unary(_, operand) => operand.null_free(),
            ExprView::Binary(left, _, right) => left.null_free() && right.null_free(),
            ExprView::Grouping(inner) => inner.null_free(),
        }
    }

    /// The tokens that the tree stands for, in source order. A `Null` node
    /// stands for no token.
    pub open spec fn flatten(self) -> Seq<TokenView>
        decreases self,
    {
        match self {
            ExprView::Null => Seq::empty(),
            ExprView::Literal(token) => seq![token],
            ExprView::Unary(operator, operand) => seq![operator] + operand.flatten(),
            ExprView::Binary(left, operator, right) => left.flatten() + seq![operator]
                + right.flatten(),
            ExprView::Grouping(inner) => seq![TokenView::LeftParen] + inner.flatten()
                + seq![TokenView::RightParen],
        }
    }

    /// The tree is a `primary` of the grammar.
    pub open spec fn is_primary(self) -> bool
        decreases self, 0nat,
    {
        match self {
            ExprView::Literal(token) => token.is_literal(),
            ExprView::Grouping(inner) => inner.is_proposition(),
            _ => false,
        }
    }

    /// The tree is a `unary` of the grammar.
    pub open spec fn is_unary(self) -> bool
        decreases self, 1nat,
    {
        match self {
            ExprView::Unary(operator, operand) => operator is Not && operand.is_unary(),
            _ => self.is_primary(),
        }
    }

    /// The tree is a `proposition` of the grammar: connectives associate to
    /// the left, so the right operand of each is a `unary`.
    pub open spec fn is_proposition(self) -> bool
        decreases self, 2nat,
    {
        match self {
            ExprView::Binary(left, operator, right) => operator.is_connective()
                && left.is_proposition() && right.is_unary(),
            _ => self.is_unary(),
        }
    }
}

/// `tokens` is a sentence of the grammar: some `proposition` spells it.
pub open spec fn grammatical(tokens: Seq<TokenView>) -> bool {
    exists|expr: ExprView| #[trigger] expr.is_proposition() && expr.flatten() == tokens
}

impl Expr {
    /// Whether this is the placeholder for a missing expression.
    pub fn is_null(&self) -> (b: bool)
        ensures
            b == (self@ is Null),
    {
        matches!(self, Expr::Null)
    }
}

impl ExprView {
    /// A `primary` of the grammar holds no `Null` node.
    pub proof fn lemma_primary_null_free(self)
        requires
            self.is_primary(),
        ensures
            self.null_free(),
        decreases self, 0nat,
    {
        match self {
            ExprView::Grouping(inner) => inner.lemma_proposition_null_free(),
            _ => {},
        }
    }

    /// A `unary` of the grammar holds no `Null` node.
    pub proof fn lemma_unary_null_free(self)
        requires
            self.is_unary(),
        ensures
            self.null_free(),
        decreases self, 1nat,
    {
        match self {
            ExprView::Unary(_, operand) => operand.lemma_unary_null_free(),
            _ => self.lemma_primary_null_free(),
        }
    }

    /// A `proposition` of the grammar holds no `Null` node.
    pub proof fn lemma_proposition_null_free(self)
        requires
            self.is_proposition(),
        ensures
            self.null_free(),
        decreases self, 2nat,
    {
        match self {
            ExprView::Binary(left, _, right) => {
                left.lemma_proposition_null_free();
                right.lemma_unary_null_free();
            },
            _ => self.lemma_unary_null_free(),
        }
    }

    /// A `primary` of the grammar begins with a literal or an opening
    /// parenthesis.
    pub proof fn lemma_primary_begins(self)
        requires
            self.is_primary(),
        ensures
            self.flatten().len() > 0,
            self.flatten()[0].opens_operand(),
    {
        match self {
            ExprView::Literal(_) => {},
            ExprView::Grouping(_) => {},
            _ => {},
        }
    }

    /// A `unary` of the grammar begins with a negation sign if it is a
    /// negation, and as a `primary` does otherwise.
    pub proof fn lemma_unary_begins(self)
        requires
            self.is_unary(),
        ensures
            self.flatten().len() > 0,
            self is Unary ==> self.flatten()[0] is Not,
            !(self is Unary) ==> self.flatten()[0].opens_operand(),
            !(self is Null),
    {
        match self {
            ExprView::Unary(_, _) => {},
            _ => {
                self.lemma_primary_begins();
            },
        }
    }

    /// A `proposition` of the grammar spells at least one token.
    pub proof fn lemma_proposition_not_empty(self)
        requires
            self.is_proposition(),
        ensures
            self.flatten().len() > 0,
    {
        match self {
            ExprView::Binary(_, _, _) => {},
            ExprView::Unary(_, _) => {},
            ExprView::Grouping(_) => {},
            ExprView::Literal(_) => {},
            ExprView::Null => {
                assert(self.is_unary());
                assert(self.is_primary());
            },
        }
    }
}

} // verus!
