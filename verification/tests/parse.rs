use prop_parser::errors::{Diagnostic, ErrorKind, Message};
use prop_parser::grammar::Expr;
use prop_parser::parser::{parse, Parser};
use prop_parser::token::Token;

fn sentence(name: &str) -> Token {
    Token::Sentence(name.to_string())
}

fn literal(name: &str) -> Expr {
    Expr::Literal(sentence(name))
}

fn count(diagnostics: &[Diagnostic], text: &str) -> usize {
    diagnostics.iter().filter(|d| d.message.text() == text).count()
}

#[test]
fn disjunction_with_negated_operand() {
    let tokens = vec![sentence("p"), Token::Or, Token::Not, sentence("p")];
    let expected = Expr::Binary(
        Box::new(literal("p")),
        Token::Or,
        Box::new(Expr::Unary(Token::Not, Box::new(literal("p")))),
    );
    assert_eq!(parse(tokens.clone(), 1), Ok(Box::new(expected)));

    let mut parser = Parser::new(tokens, 1);
    assert!(parser.parse().is_ok());
    assert!(!parser.error);
    assert!(!parser.failed());
    assert!(parser.diagnostics.is_empty());
    assert!(parser.reported().is_empty());
}

#[test]
fn balanced_grouping() {
    let tokens = vec![Token::LeftParen, sentence("p"), Token::RightParen];
    let expected = Expr::Grouping(Box::new(literal("p")));
    assert_eq!(parse(tokens, 1), Ok(Box::new(expected)));
}

#[test]
fn unmatched_close() {
    let diagnostics = parse(vec![Token::RightParen], 7).unwrap_err();
    assert_eq!(count(&diagnostics, "closing parenthesis does not have a match"), 1);
    assert_eq!(
        diagnostics,
        vec![
            Diagnostic { message: Message::StrayClosingParen, code: 0, line: 7, column: 1 },
            Diagnostic { message: Message::UnmatchedClosingParen, code: 0, line: 7, column: 1 },
        ]
    );
}

#[test]
fn adjacent_operators() {
    let tokens = vec![sentence("p"), Token::And, Token::Or, sentence("q")];
    let diagnostics = parse(tokens, 1).unwrap_err();
    assert!(count(&diagnostics, "operators are next to each other") >= 1);
    assert_eq!(
        diagnostics[0],
        Diagnostic { message: Message::AdjacentOperators, code: 0, line: 1, column: 3 }
    );
}

#[test]
fn missing_right_operand_at_end() {
    let tokens = vec![sentence("p"), Token::And];
    let diagnostics = parse(tokens, 1).unwrap_err();
    assert!(count(&diagnostics, "missing proposition on right side of operation") >= 1);
    assert_eq!(
        diagnostics,
        vec![Diagnostic { message: Message::MissingRightOperand, code: 0, line: 1, column: 3 }]
    );
}

#[test]
fn empty_input_is_a_null_tree() {
    assert_eq!(parse(Vec::new(), 1), Ok(Box::new(Expr::Null)));
}

#[test]
fn connectives_associate_to_the_left() {
    let tokens = vec![
        sentence("p"),
        Token::And,
        sentence("q"),
        Token::IfThen,
        sentence("r"),
        Token::IfOnlyIf,
        Token::True,
    ];
    let expected = Expr::Binary(
        Box::new(Expr::Binary(
            Box::new(Expr::Binary(
                Box::new(literal("p")),
                Token::And,
                Box::new(literal("q")),
            )),
            Token::IfThen,
            Box::new(literal("r")),
        )),
        Token::IfOnlyIf,
        Box::new(Expr::Literal(Token::True)),
    );
    assert_eq!(parse(tokens, 1), Ok(Box::new(expected)));
}

#[test]
fn nested_sentence_parses_without_diagnostics() {
    let tokens = vec![
        Token::True,
        Token::IfThen,
        Token::LeftParen,
        Token::False,
        Token::IfOnlyIf,
        Token::Not,
        Token::Not,
        Token::LeftParen,
        sentence("rain"),
        Token::RightParen,
        Token::RightParen,
    ];
    let expected = Expr::Binary(
        Box::new(Expr::Literal(Token::True)),
        Token::IfThen,
        Box::new(Expr::Grouping(Box::new(Expr::Binary(
            Box::new(Expr::Literal(Token::False)),
            Token::IfOnlyIf,
            Box::new(Expr::Unary(
                Token::Not,
                Box::new(Expr::Unary(
                    Token::Not,
                    Box::new(Expr::Grouping(Box::new(literal("rain")))),
                )),
            )),
        )))),
    );
    let mut parser = Parser::new(tokens, 12);
    assert_eq!(parser.parse(), Ok(Box::new(expected)));
    assert!(!parser.error);
    assert!(parser.diagnostics.is_empty());
    assert_eq!(parser.open_groups(), 0);
}

#[test]
fn invalid_lexeme_fails_without_a_diagnostic() {
    let tokens = vec![sentence("p"), Token::And, Token::Invalid, sentence("q")];
    assert_eq!(parse(tokens, 1), Err(Vec::new()));
    assert_eq!(parse(vec![Token::Invalid, sentence("p")], 1), Err(Vec::new()));
}

#[test]
fn group_after_a_group_fails_without_a_diagnostic() {
    let tokens = vec![
        Token::LeftParen,
        sentence("p"),
        Token::RightParen,
        Token::LeftParen,
        sentence("q"),
        Token::RightParen,
    ];
    assert_eq!(parse(tokens, 1), Err(Vec::new()));
}

#[test]
fn leftover_closing_parenthesis_is_consumed() {
    let tokens = vec![
        Token::LeftParen,
        sentence("p"),
        Token::Not,
        sentence("q"),
        Token::RightParen,
    ];
    let mut parser = Parser::new(tokens, 3);
    assert_eq!(parser.parse(), Err(()));
    assert!(parser.error);
    assert_eq!(parser.open_groups(), 0);
    assert_eq!(
        parser.diagnostics,
        vec![
            Diagnostic { message: Message::MisplacedNegation, code: 0, line: 3, column: 3 },
            Diagnostic { message: Message::MissingClosingParen, code: 0, line: 3, column: 4 },
            Diagnostic { message: Message::AdjacentLiterals, code: 0, line: 3, column: 4 },
        ]
    );
}

#[test]
fn null_token_in_the_input_is_skipped() {
    let tokens = vec![Token::Null, sentence("p")];
    assert_eq!(parse(tokens, 1), Err(Vec::new()));
}

#[test]
fn several_errors_are_reported_in_one_pass() {
    let tokens = vec![
        Token::And,
        sentence("p"),
        Token::Or,
        Token::LeftParen,
        Token::RightParen,
        Token::And,
        sentence("q"),
        Token::And,
    ];
    let diagnostics = parse(tokens, 2).unwrap_err();
    assert_eq!(count(&diagnostics, "missing proposition on left side of operation"), 1);
    assert_eq!(count(&diagnostics, "not a proposition"), 1);
    assert!(count(&diagnostics, "missing proposition on right side of operation") >= 1);
    assert!(diagnostics.iter().all(|d| d.line == 2));
}

#[test]
fn parsing_again_changes_nothing_but_the_tree() {
    let mut parser = Parser::new(vec![sentence("p")], 1);
    assert_eq!(parser.parse(), Ok(Box::new(literal("p"))));
    assert_eq!(parser.parse(), Ok(Box::new(Expr::Null)));
    assert!(!parser.error);
}

#[test]
fn closing_parenthesis_that_ends_an_operand_search_closes_its_group() {
    let tokens = vec![Token::LeftParen, sentence("p"), Token::And, Token::RightParen];
    let mut parser = Parser::new(tokens.clone(), 1);
    assert_eq!(parser.parse(), Err(()));
    assert!(parser.failed());
    assert_eq!(parser.open_groups(), 0);
    assert!(parser
        .reported()
        .iter()
        .all(|d| d.message.kind() != ErrorKind::UnmatchedClosingParen
            && d.message.kind() != ErrorKind::MissingClosingParen));
    assert!(parser.reported().is_empty());
    assert_eq!(parser.input(), &tokens);
}

#[test]
fn nested_groups_close_after_an_operand_search_ended_at_a_parenthesis() {
    let tokens = vec![
        Token::LeftParen,
        Token::LeftParen,
        sentence("p"),
        Token::And,
        Token::RightParen,
        Token::Or,
        sentence("q"),
        Token::RightParen,
    ];
    let mut parser = Parser::new(tokens, 1);
    assert_eq!(parser.parse(), Err(()));
    assert!(parser.reported().is_empty());
    assert_eq!(parser.open_groups(), 0);
}

#[test]
fn parser_keeps_its_input_and_line() {
    let tokens = vec![sentence("p"), Token::Or, Token::True];
    let parser = Parser::new(tokens.clone(), 42);
    assert_eq!(parser.input(), &tokens);
    assert_eq!(parser.line_number(), 42);
    assert_eq!(parser.tokens, tokens);
}
