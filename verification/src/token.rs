//! Lexical tokens of a propositional-logic sentence.

use vstd::prelude::*;

verus! {

/// A lexical token.
///
/// `Null` stands for "no token": it is what reading past the end of the
/// input yields. `Invalid` marks a place where the lexer met a malformed
/// lexeme.
#[derive(Clone, Debug, PartialEq, Eq)]
pub enum Token {
    Sentence(String),
    True,
    False,
    And,
    Or,
    IfThen,
    IfOnlyIf,
    Not,
    LeftParen,
    RightParen,
    Null,
    Invalid,
}

/// The mathematical value of a [`Token`]: the same tag, with the name of an
/// atomic sentence as a sequence of characters.
pub enum TokenView {
    Sentence(Seq<char>),
    True,
    False,
    And,
    Or,
    IfThen,
    IfOnlyIf,
    Not,
    LeftParen,
    RightParen,
    Null,
    Invalid,
}

impl TokenView {
    /// A token that is a proposition by itself: a named sentence or a truth
    /// constant.
    pub open spec fn is_literal(self) -> bool {
        self is Sentence || self is True || self is False
    }

    /// One of the four binary connectives.
    pub open spec fn is_connective(self) -> bool {
        self is And || self is Or || self is IfThen || self is IfOnlyIf
    }

    /// A connective or the negation sign.
    pub open spec fn is_operator(self) -> bool {
        self.is_connective() || self is Not
    }

    /// A token at which an operand begins without fail: a literal or an
    /// opening parenthesis. Error recovery resumes at such a token.
    pub open spec fn opens_operand(self) -> bool {
        self.is_literal() || self is LeftParen
    }
}

impl TokenView {
    /// A token after which a proposition is complete: a closing parenthesis,
    /// or no token at all.
    pub open spec fn ends_proposition(self) -> bool {
        self is RightParen || self is Null
    }
}

impl View for Token {
    type V = TokenView;

    open spec fn view(&self) -> TokenView {
        match *self {
            Token::Sentence(name) => TokenView::Sentence(name@),
            Token::True => TokenView::True,
            Token::False => TokenView::False,
            Token::And => TokenView::And,
            Token::Or => TokenView::Or,
            Token::IfThen => TokenView::IfThen,
            Token::IfOnlyIf => TokenView::IfOnlyIf,
            Token::Not => TokenView::Not,
            Token::LeftParen => TokenView::LeftParen,
            Token::RightParen => TokenView::RightParen,
            Token::Null => TokenView::Null,
            Token::Invalid => TokenView::Invalid,
        }
    }
}

/// The values of a token sequence, token by token.
pub open spec fn symbols(tokens: Seq<Token>) -> Seq<TokenView> {
    tokens.map_values(|t: Token| t@)
}

impl Token {
    /// Equality by tag and, for `Sentence`, by name.
    pub fn same(&self, other: &Token) -> (b: bool)
        ensures
            b == (self@ == other@),
    {
        match self {
            Token::Sentence(a) => match other {
                Token::Sentence(b) => *a == *b,
                _ => false,
            },
            Token::True => matches!(other, Token::True),
            Token::False => matches!(other, Token::False),
            Token::And => matches!(other, Token::And),
            Token::Or => matches!(other, Token::Or),
            Token::IfThen => matches!(other, Token::IfThen),
            Token::IfOnlyIf => matches!(other, Token::IfOnlyIf),
            Token::Not => matches!(other, Token::Not),
            Token::LeftParen => matches!(other, Token::LeftParen),
            Token::RightParen => matches!(other, Token::RightParen),
            Token::Null => matches!(other, Token::Null),
            Token::Invalid => matches!(other, Token::Invalid),
        }
    }

    /// A copy of this token with the same value.
    pub fn duplicate(&self) -> (t: Token)
        ensures
            t@ == self@,
    {
        match self {
            Token::Sentence(name) => Token::Sentence(name.clone()),
            Token::True => Token::True,
            Token::False => Token::False,
            Token::And => Token::And,
            Token::Or => Token::Or,
            Token::IfThen => Token::IfThen,
            Token::IfOnlyIf => Token::IfOnlyIf,
            Token::Not => Token::Not,
            Token::LeftParen => Token::LeftParen,
            Token::RightParen => Token::RightParen,
            Token::Null => Token::Null,
            Token::Invalid => Token::Invalid,
        }
    }
}

} // verus!
