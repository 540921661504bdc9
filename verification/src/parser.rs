//! The executable parser.
//!
//! A [`Parser`] reads one token sequence once. Each rule of the grammar is a
//! method that is verified to compute the function of the same name in
//! [`crate::model`].

use vstd::prelude::*;
use crate::errors::{column_at, Diagnostic, Message};
use crate::grammar::{grammatical, Expr};
use crate::model::{Source, State};
use crate::token::{symbols, Token};

verus! {

/// Parses one proposition from `tokens`, which stand on source line `line`.
///
/// The result is the tree if no error was met, and the diagnostics in the
/// order of detection otherwise.
pub fn parse(tokens: Vec<Token>, line: u32) -> (result: Result<Box<Expr>, Vec<Diagnostic>>)
    ensures
        ({
            let source = Source { tokens: symbols(tokens@), line };
            let outcome = source.parse(State::initial());
            match result {
                Ok(tree) => !outcome.state.error && tree@ == outcome.expr,
                Err(diagnostics) => outcome.state.error && diagnostics@ == outcome.state.diags,
            }
        }),
        result is Ok <==> tokens@.len() == 0 || grammatical(symbols(tokens@)),
        match result {
            Ok(tree) => if tokens@.len() == 0 {
                tree@ is Null
            } else {
                tree@.is_proposition() && tree@.null_free() && tree@.flatten() == symbols(tokens@)
            },
            Err(_) => true,
        },
{
    let mut parser = Parser::new(tokens, line);
    proof {
        parser.source().theorem_success_iff_grammatical();
        parser.source().theorem_success_is_grammatical();
    }
    match parser.parse() {
        Ok(tree) => Ok(tree),
        Err(_) => Err(parser.diagnostics),
    }
}

/// Whether `token` is a named sentence or a truth constant.
pub fn is_literal_value_token(token: &Token) -> (b: bool)
    ensures
        b == token@.is_literal(),
{
    matches!(token, Token::Sentence(_) | Token::True | Token::False)
}

/// Whether `token` is a connective or the negation sign.
pub fn is_operator_token(token: &Token) -> (b: bool)
    ensures
        b == token@.is_operator(),
{
    matches!(token, Token::And | Token::Or | Token::IfOnlyIf | Token::IfThen | Token::Not)
}

/// The state of one parse.
pub struct Parser {
    /// The input. The parser only reads it.
    pub tokens: Vec<Token>,
    /// Whether an error has been met.
    pub error: bool,
    /// The diagnostics reported so far, in the order of detection.
    pub diagnostics: Vec<Diagnostic>,
    open_parenthesis: usize,
    eased: bool,
    line: u32,
    idx: usize,
}

impl Parser {
    /// The input as the model sees it.
    pub closed spec fn source(&self) -> Source {
        Source { tokens: symbols(self.tokens@), line: self.line }
    }

    /// The state as the model sees it.
    pub closed spec fn state(&self) -> State {
        State {
            idx: self.idx as nat,
            depth: self.open_parenthesis as nat,
            error: self.error,
            eased: self.eased,
            diags: self.diagnostics@,
        }
    }

    /// The cursor is within the input, no more groups are open than tokens
    /// were consumed, and a closing parenthesis that has lowered the depth in
    /// advance stands at the cursor.
    pub closed spec fn wf(&self) -> bool {
        &&& self.idx <= self.tokens@.len()
        &&& self.open_parenthesis <= self.idx
        &&& self.eased ==> self.source().peek(self.state()) is RightParen
    }

    /// A parser at the start of `tokens`.
    pub fn new(tokens: Vec<Token>, line: u32) -> (parser: Parser)
        ensures
            parser.source() == (Source { tokens: symbols(tokens@), line }),
            parser.state() == State::initial(),
            parser.wf(),
    {
        Parser {
            tokens,
            error: false,
            diagnostics: Vec::new(),
            open_parenthesis: 0,
            eased: false,
            line,
            idx: 0,
        }
    }

    /// The input.
    pub fn input(&self) -> (tokens: &Vec<Token>)
        ensures
            symbols(tokens@) == self.source().tokens,
    {
        &self.tokens
    }

    /// The source line that diagnostics carry.
    pub fn line_number(&self) -> (line: u32)
        ensures
            line == self.source().line,
    {
        self.line
    }

    /// Whether an error has been met.
    pub fn failed(&self) -> (b: bool)
        ensures
            b == self.state().error,
    {
        self.error
    }

    /// The number of groups that are open.
    pub fn open_groups(&self) -> (depth: usize)
        ensures
            depth == self.state().depth,
    {
        self.open_parenthesis
    }

    /// The diagnostics reported so far, in the order of detection.
    pub fn reported(&self) -> (diagnostics: &Vec<Diagnostic>)
        ensures
            diagnostics@ == self.state().diags,
    {
        &self.diagnostics
    }

    /// Parses one proposition, then reads whatever is left of the input as
    /// further, erroneous propositions.
    ///
    /// Returns the tree of the first proposition if the error flag is not set
    /// at the end.
    pub fn parse(&mut self) -> (result: Result<Box<Expr>, ()>)
        requires
            old(self).wf(),
        ensures
            final(self).wf(),
            final(self).source() == old(self).source(),
            final(self).state() == old(self).source().parse(old(self).state()).state,
            match result {
                Ok(tree) => !final(self).state().error && tree@ == old(self).source().parse(
                    old(self).state(),
                ).expr,
                Err(_) => final(self).state().error,
            },
            final(self).state().idx == final(self).source().tokens.len(),
            !final(self).state().eased,
            old(self).source().extends(old(self).state(), final(self).state()),
            old(self).source().balanced(old(self).state(), final(self).state()),
            old(self).state() == State::initial() ==> (result is Ok <==> old(
                self,
            ).source().tokens.len() == 0 || grammatical(old(self).source().tokens)),
    {
        proof {
            let source = self.source();
            source.lemma_parse_extends(self.state());
            source.lemma_parse_balanced(self.state());
            source.theorem_success_iff_grammatical();
        }
        let ghost source = self.source();
        let proposition = self.proposition();
        let ghost first = self.state();
        while !self.is_at_end()
            invariant
                self.wf(),
                self.tokens == old(self).tokens,
                self.line == old(self).line,
                source == old(self).source(),
                source.discard(self.state()) == source.discard(first),
            decreases source.remaining(self.state()),
        {
            let before = self.idx;
            self.error = true;
            proof {
                source.lemma_proposition_extends(self.state());
            }
            self.proposition();
            if self.idx == before {
                self.skip();
            }
        }
        if self.error {
            Err(())
        } else {
            Ok(Box::new(proposition))
        }
    }

    // Building the tree

    /// `proposition := unary (connective unary)*`, then the checks on what
    /// follows.
    #[verifier::rlimit(50)]
    fn proposition(&mut self) -> (expr: Expr)
        requires
            old(self).wf(),
        ensures
            final(self).wf(),
            final(self).tokens == old(self).tokens,
            final(self).line == old(self).line,
            final(self).state() == old(self).source().proposition(old(self).state()).state,
            expr@ == old(self).source().proposition(old(self).state()).expr,
        decreases
            old(self).source().remaining(old(self).state()),
            (if old(self).source().peek(old(self).state()).opens_operand() {
                3nat
            } else {
                7nat
            }),
    {
        let ghost source = self.source();
        let ghost entry = self.state();
        proof {
            source.lemma_proposition_extends(entry);
            source.lemma_unary_extends(entry);
        }
        let mut proposition = self.unary();
        let mut start_idx = self.idx;
        let connectives = [Token::And, Token::Or, Token::IfOnlyIf, Token::IfThen];
        loop
            invariant
                self.wf(),
                self.tokens == old(self).tokens,
                self.line == old(self).line,
                source == old(self).source(),
                entry == old(self).state(),
                source.within(entry, self.state()),
                source.peek(entry).opens_operand() ==> self.state().idx > entry.idx,
                connectives@ == seq![Token::And, Token::Or, Token::IfOnlyIf, Token::IfThen],
                source.connectives(self.state(), proposition@, start_idx as nat)
                    == source.proposition(entry),
            ensures
                !source.peek(self.state()).is_connective(),
            decreases source.remaining(self.state()),
        {
            let ghost s = self.state();
            if !self.match_tokens(connectives.as_slice()) {
                break ;
            }
            assert(source.peek(s).is_connective());
            if proposition.is_null() {
                proof {
                    source.lemma_report_extends(
                        s.advance(),
                        Message::MissingLeftOperand,
                        0,
                        start_idx as nat,
                    );
                }
                self.error(Message::MissingLeftOperand, 0, start_idx);
                continue ;
            }
            start_idx = self.idx;
            let operator = self.previous_owned();
            proof {
                source.lemma_right_operand_extends(self.state());
            }
            match self.right_operand() {
                Some(right) => {
                    proposition = Expr::Binary(Box::new(proposition), operator, Box::new(right));
                },
                None => {},
            }
        }
        self.trailing(proposition)
    }

    /// Reads the operand to the right of a connective. Returns `None` where
    /// there is no operand; the reason has then been reported.
    #[verifier::rlimit(50)]
    fn right_operand(&mut self) -> (operand: Option<Expr>)
        requires
            old(self).wf(),
        ensures
            final(self).wf(),
            final(self).tokens == old(self).tokens,
            final(self).line == old(self).line,
            final(self).state() == old(self).source().right_operand(old(self).state()).state,
            match operand {
                Some(expr) => old(self).source().right_operand(old(self).state()).expr == Some(
                    expr@,
                ),
                None => old(self).source().right_operand(old(self).state()).expr is None,
            },
        decreases old(self).source().remaining(old(self).state()), 2nat,
    {
        let ghost source = self.source();
        let ghost from = self.state();
        proof {
            source.lemma_right_operand_extends(from);
            source.lemma_unary_extends(from);
        }
        let start_idx = self.idx;
        let right = self.unary();
        if !right.is_null() {
            return Some(right);
        }
        if is_operator_token(self.peek()) {
            let at = self.idx;
            self.error(Message::AdjacentOperators, 0, at);
            return None;
        }
        if matches!(self.peek(), Token::RightParen) {
            if self.open_parenthesis > 0 {
                self.open_parenthesis -= 1;
                self.eased = true;
                self.error = true;
            } else {
                let at = self.idx;
                self.error(Message::UnmatchedClosingParen, 0, at);
            }
            return None;
        }
        if self.match_token(&Token::Invalid) {
            self.error = true;
            proof {
                source.lemma_unary_extends(self.state());
            }
            return Some(self.unary());
        }
        self.error(Message::MissingRightOperand, 0, start_idx);
        None
    }

    /// The checks after the loop of `proposition`: a literal, an invalid
    /// lexeme or a group that follows `left` begins one more proposition,
    /// which takes its place; a negation sign that follows is reported.
    #[verifier::rlimit(50)]
    fn trailing(&mut self, left: Expr) -> (expr: Expr)
        requires
            old(self).wf(),
        ensures
            final(self).wf(),
            final(self).tokens == old(self).tokens,
            final(self).line == old(self).line,
            final(self).state() == old(self).source().trailing(old(self).state(), left@).state,
            expr@ == old(self).source().trailing(old(self).state(), left@).expr,
        decreases old(self).source().remaining(old(self).state()), 5nat,
    {
        let ghost source = self.source();
        let ghost s = self.state();
        proof {
            source.lemma_trailing_extends(s, left@);
        }
        let mut proposition = left;
        if is_literal_value_token(self.peek()) {
            proof {
                source.lemma_report_extends(s, Message::AdjacentLiterals, 0, s.idx);
            }
            let at = self.idx;
            self.error(Message::AdjacentLiterals, 0, at);
            proof {
                source.lemma_proposition_extends(self.state());
            }
            proposition = self.proposition();
        }
        if self.match_token(&Token::Invalid) || matches!(self.peek(), Token::LeftParen) {
            self.error = true;
            proof {
                source.lemma_proposition_extends(self.state());
            }
            proposition = self.proposition();
        }
        if matches!(self.peek(), Token::Not) {
            let at = self.idx;
            self.error(Message::MisplacedNegation, 0, at);
        }
        proposition
    }

    /// `unary := Not unary | primary`
    fn unary(&mut self) -> (expr: Expr)
        requires
            old(self).wf(),
        ensures
            final(self).wf(),
            final(self).tokens == old(self).tokens,
            final(self).line == old(self).line,
            final(self).state() == old(self).source().unary(old(self).state()).state,
            expr@ == old(self).source().unary(old(self).state()).expr,
        decreases old(self).source().remaining(old(self).state()), 1nat,
    {
        let ghost source = self.source();
        let ghost entry = self.state();
        proof {
            source.lemma_unary_extends(entry);
        }
        let start_idx = self.idx;
        if self.match_token(&Token::Not) {
            let right = self.unary();
            if right.is_null() {
                self.error(Message::MissingNegationOperand, 0, start_idx);
            }
            return Expr::Unary(Token::Not, Box::new(right));
        }
        self.primary()
    }

    /// `primary := literal | "(" proposition ")"`
    #[verifier::rlimit(50)]
    fn primary(&mut self) -> (expr: Expr)
        requires
            old(self).wf(),
        ensures
            final(self).wf(),
            final(self).tokens == old(self).tokens,
            final(self).line == old(self).line,
            final(self).state() == old(self).source().primary(old(self).state()).state,
            expr@ == old(self).source().primary(old(self).state()).expr,
        decreases old(self).source().remaining(old(self).state()), 0nat,
    {
        let ghost source = self.source();
        let ghost entry = self.state();
        proof {
            source.lemma_primary_extends(entry);
            source.lemma_checked_extends(entry);
        }
        let start_idx = self.idx;
        if is_literal_value_token(self.previous()) {
            if matches!(self.peek(), Token::LeftParen) {
                self.error(Message::MisplacedGrouping, 0, start_idx);
            }
            if is_literal_value_token(self.peek()) {
                let at = self.idx;
                self.error(Message::AdjacentLiterals, 0, at);
            }
        }
        if self.match_token(&Token::LeftParen) {
            self.open_parenthesis += 1;
            proof {
                source.lemma_proposition_extends(self.state());
            }
            let proposition = self.proposition();
            if matches!(self.peek(), Token::RightParen) {
                self.skip();
            } else {
                let at = self.idx;
                self.error(Message::MissingClosingParen, 0, at);
            }
            if proposition.is_null() {
                self.error(Message::EmptyGrouping, 1, start_idx);
            }
            return Expr::Grouping(Box::new(proposition));
        }
        if is_literal_value_token(self.peek()) {
            return Expr::Literal(self.advance_owned());
        }
        if matches!(self.peek(), Token::RightParen) && self.open_parenthesis == 0 && !self.eased {
            let at = self.idx;
            self.error(Message::StrayClosingParen, 0, at);
        }
        Expr::Null
    }

    // Help

    fn is_at_end(&self) -> (b: bool)
        ensures
            b == (self.idx >= self.tokens@.len()),
            self.tokens@.len() <= usize::MAX,
    {
        self.idx >= self.tokens.len()
    }

    fn match_token(&mut self, token: &Token) -> (matched: bool)
        requires
            old(self).wf(),
        ensures
            final(self).wf(),
            final(self).tokens == old(self).tokens,
            final(self).line == old(self).line,
            matched == (old(self).source().peek(old(self).state()) == token@),
            final(self).state() == if matched && old(self).idx < old(self).tokens@.len() {
                old(self).state().advance()
            } else {
                old(self).state()
            },
    {
        if self.peek().same(token) {
            self.advance();
            return true;
        }
        false
    }

    fn match_tokens(&mut self, tokens: &[Token]) -> (matched: bool)
        requires
            old(self).wf(),
        ensures
            final(self).wf(),
            final(self).tokens == old(self).tokens,
            final(self).line == old(self).line,
            matched == (exists|i: int|
                0 <= i < tokens@.len() && old(self).source().peek(old(self).state())
                    == (#[trigger] tokens@[i])@),
            final(self).state() == if matched && old(self).idx < old(self).tokens@.len() {
                old(self).state().advance()
            } else {
                old(self).state()
            },
    {
        let mut i: usize = 0;
        while i < tokens.len()
            invariant
                0 <= i <= tokens@.len(),
                self.state() == old(self).state(),
                self.tokens == old(self).tokens,
                self.line == old(self).line,
                self.wf(),
                forall|j: int|
                    0 <= j < i ==> self.source().peek(self.state()) != (#[trigger] tokens@[j])@,
            decreases tokens@.len() - i,
        {
            if self.match_token(&tokens[i]) {
                return true;
            }
            i += 1;
        }
        false
    }

    /// Consumes one token outside the rules of the grammar. A closing
    /// parenthesis that has lowered the depth already is only consumed. Any
    /// other closing parenthesis closes a group if one is open, and is
    /// reported as unmatched if none is.
    fn skip(&mut self)
        requires
            old(self).wf(),
            old(self).idx < old(self).tokens@.len(),
        ensures
            final(self).wf(),
            final(self).tokens == old(self).tokens,
            final(self).line == old(self).line,
            final(self).state() == old(self).source().skip(old(self).state()),
    {
        if matches!(self.peek(), Token::RightParen) && !self.eased {
            if self.open_parenthesis > 0 {
                self.open_parenthesis -= 1;
            } else {
                self.error = true;
                self.diagnostics.push(
                    Diagnostic {
                        message: Message::UnmatchedClosingParen,
                        code: 0,
                        line: self.line,
                        column: column_at(self.idx),
                    },
                );
            }
        }
        self.advance();
    }

    // Error handling

    /// Reports an error found at position `idx`: sets the flag, records the
    /// diagnostic, then synchronizes.
    fn error(&mut self, message: Message, code: u32, idx: usize)
        requires
            old(self).wf(),
        ensures
            final(self).wf(),
            final(self).tokens == old(self).tokens,
            final(self).line == old(self).line,
            final(self).state() == old(self).source().report(
                old(self).state(),
                message,
                code,
                idx as nat,
            ),
    {
        self.error = true;
        self.diagnostics.push(Diagnostic { message, code, line: self.line, column: column_at(idx) });
        self.synchronize();
    }

    /// Skips to the next token at which an operand can begin, or to the end:
    /// from there on earlier errors no longer disturb the parse.
    fn synchronize(&mut self)
        requires
            old(self).wf(),
        ensures
            final(self).wf(),
            final(self).tokens == old(self).tokens,
            final(self).line == old(self).line,
            final(self).state() == old(self).source().synchronize(old(self).state()),
    {
        let ghost source = self.source();
        while !self.is_at_end()
            invariant
                self.wf(),
                self.tokens == old(self).tokens,
                self.line == old(self).line,
                source == old(self).source(),
                source.synchronize(self.state()) == source.synchronize(old(self).state()),
            ensures
                self.state() == source.synchronize(old(self).state()),
            decreases source.remaining(self.state()),
        {
            if is_literal_value_token(self.peek()) {
                break ;
            }
            if matches!(self.peek(), Token::LeftParen) {
                break ;
            }
            self.skip();
        }
    }

    // Token consuming

    fn previous(&self) -> (token: &Token)
        requires
            self.wf(),
        ensures
            token@ == self.source().previous(self.state()),
    {
        if self.idx == 0 {
            return &Token::Null;
        }
        &self.tokens[self.idx - 1]
    }

    fn previous_owned(&self) -> (token: Token)
        requires
            self.wf(),
        ensures
            token@ == self.source().previous(self.state()),
    {
        if self.idx == 0 {
            return Token::Null;
        }
        self.tokens[self.idx - 1].duplicate()
    }

    fn peek(&self) -> (token: &Token)
        ensures
            token@ == self.source().peek(self.state()),
    {
        if self.is_at_end() {
            return &Token::Null;
        }
        &self.tokens[self.idx]
    }

    fn advance(&mut self) -> (token: &Token)
        requires
            old(self).wf(),
        ensures
            final(self).wf(),
            final(self).tokens == old(self).tokens,
            final(self).line == old(self).line,
            token@ == old(self).source().peek(old(self).state()),
            final(self).state() == if old(self).idx < old(self).tokens@.len() {
                old(self).state().advance()
            } else {
                old(self).state()
            },
    {
        if self.is_at_end() {
            return &Token::Null;
        }
        self.idx += 1;
        self.eased = false;
        &self.tokens[self.idx - 1]
    }

    fn advance_owned(&mut self) -> (token: Token)
        requires
            old(self).wf(),
        ensures
            final(self).wf(),
            final(self).tokens == old(self).tokens,
            final(self).line == old(self).line,
            token@ == old(self).source().peek(old(self).state()),
            final(self).state() == if old(self).idx < old(self).tokens@.len() {
                old(self).state().advance()
            } else {
                old(self).state()
            },
    {
        if self.is_at_end() {
            return Token::Null;
        }
        self.idx += 1;
        self.eased = false;
        self.tokens[self.idx - 1].duplicate()
    }
}

} // verus!
