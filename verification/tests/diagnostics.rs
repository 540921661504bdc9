use prop_parser::errors::{column_at, Diagnostic, ErrorKind, Message};
use prop_parser::parser::parse;
use prop_parser::token::Token;

fn sentence(name: &str) -> Token {
    Token::Sentence(name.to_string())
}

fn diagnostic(message: Message, code: u32, column: u32) -> Diagnostic {
    Diagnostic { message, code, line: 5, column }
}

#[test]
fn missing_left_operand() {
    let diagnostics = parse(vec![Token::And, sentence("p")], 5).unwrap_err();
    assert_eq!(
        diagnostics,
        vec![
            diagnostic(Message::MissingLeftOperand, 0, 1),
            diagnostic(Message::AdjacentLiterals, 0, 2),
        ]
    );
}

#[test]
fn missing_negation_operand() {
    let diagnostics = parse(vec![Token::Not], 5).unwrap_err();
    assert_eq!(diagnostics, vec![diagnostic(Message::MissingNegationOperand, 0, 1)]);
}

#[test]
fn closing_parenthesis_after_a_connective() {
    let diagnostics = parse(vec![sentence("p"), Token::And, Token::RightParen], 5).unwrap_err();
    assert_eq!(
        diagnostics,
        vec![
            diagnostic(Message::StrayClosingParen, 0, 3),
            diagnostic(Message::UnmatchedClosingParen, 0, 3),
            diagnostic(Message::MissingRightOperand, 0, 3),
        ]
    );
}

#[test]
fn missing_closing_parenthesis() {
    let diagnostics = parse(vec![Token::LeftParen, sentence("p")], 5).unwrap_err();
    assert_eq!(diagnostics, vec![diagnostic(Message::MissingClosingParen, 0, 3)]);
}

#[test]
fn empty_grouping_has_code_one() {
    let diagnostics = parse(vec![Token::LeftParen, Token::RightParen], 5).unwrap_err();
    assert_eq!(diagnostics, vec![diagnostic(Message::EmptyGrouping, 1, 1)]);
}

#[test]
fn adjacent_literals_are_reported_at_both_places() {
    let diagnostics = parse(vec![sentence("p"), sentence("q")], 5).unwrap_err();
    assert_eq!(
        diagnostics,
        vec![
            diagnostic(Message::AdjacentLiterals, 0, 2),
            diagnostic(Message::AdjacentLiterals, 0, 2),
        ]
    );
}

#[test]
fn literal_after_a_group() {
    let tokens = vec![Token::LeftParen, sentence("p"), Token::RightParen, sentence("q")];
    let diagnostics = parse(tokens, 5).unwrap_err();
    assert_eq!(diagnostics, vec![diagnostic(Message::AdjacentLiterals, 0, 4)]);
}

#[test]
fn misplaced_grouping() {
    let tokens = vec![sentence("p"), Token::LeftParen, sentence("q"), Token::RightParen];
    let diagnostics = parse(tokens, 5).unwrap_err();
    assert_eq!(diagnostics, vec![diagnostic(Message::MisplacedGrouping, 0, 2)]);
}

#[test]
fn misplaced_negation() {
    let diagnostics = parse(vec![sentence("p"), Token::Not, sentence("q")], 5).unwrap_err();
    assert_eq!(diagnostics, vec![diagnostic(Message::MisplacedNegation, 0, 2)]);
}

#[test]
fn closing_parenthesis_of_a_group_after_a_connective() {
    let tokens = vec![Token::LeftParen, sentence("p"), Token::And, Token::RightParen];
    assert_eq!(parse(tokens, 5), Err(Vec::new()));
}

#[test]
fn message_texts() {
    let texts = [
        (Message::MissingLeftOperand, "missing proposition on left side of operation"),
        (Message::MissingRightOperand, "missing proposition on right side of operation"),
        (Message::MissingNegationOperand, "missing proposition on right side of negation"),
        (Message::AdjacentOperators, "operators are next to each other"),
        (Message::UnmatchedClosingParen, "unmatched closing parenthesis"),
        (Message::StrayClosingParen, "closing parenthesis does not have a match"),
        (Message::MissingClosingParen, "expected closing parenthesis"),
        (Message::EmptyGrouping, "not a proposition"),
        (Message::AdjacentLiterals, "simple proposition is in an invalid position"),
        (Message::MisplacedGrouping, "grouping in invalid position"),
        (Message::MisplacedNegation, "not operator is in an invalid position"),
    ];
    for (message, text) in texts {
        assert_eq!(message.text(), text);
    }
}

#[test]
fn message_kinds() {
    assert_eq!(Message::MissingLeftOperand.kind(), ErrorKind::MissingLeftOperand);
    assert_eq!(Message::MissingRightOperand.kind(), ErrorKind::MissingRightOperand);
    assert_eq!(Message::MissingNegationOperand.kind(), ErrorKind::MissingRightOperand);
    assert_eq!(Message::AdjacentOperators.kind(), ErrorKind::AdjacentOperators);
    assert_eq!(Message::UnmatchedClosingParen.kind(), ErrorKind::UnmatchedClosingParen);
    assert_eq!(Message::StrayClosingParen.kind(), ErrorKind::UnmatchedClosingParen);
    assert_eq!(Message::MissingClosingParen.kind(), ErrorKind::MissingClosingParen);
    assert_eq!(Message::EmptyGrouping.kind(), ErrorKind::EmptyGrouping);
    assert_eq!(Message::AdjacentLiterals.kind(), ErrorKind::AdjacentLiterals);
    assert_eq!(Message::MisplacedGrouping.kind(), ErrorKind::MisplacedGrouping);
    assert_eq!(Message::MisplacedNegation.kind(), ErrorKind::MisplacedNegation);
}

#[test]
fn columns_count_from_one() {
    assert_eq!(column_at(0), 1);
    assert_eq!(column_at(41), 42);
    assert_eq!(column_at(u32::MAX as usize - 1), u32::MAX);
    assert_eq!(column_at(u32::MAX as usize), 0);
}

#[test]
fn group_left_open_after_a_connective_is_reported() {
    let tokens = vec![
        Token::LeftParen,
        Token::LeftParen,
        sentence("p"),
        Token::And,
        Token::RightParen,
    ];
    let diagnostics = parse(tokens, 5).unwrap_err();
    assert!(diagnostics.iter().any(|d| d.message.text() == "expected closing parenthesis"));
    assert_eq!(diagnostics, vec![diagnostic(Message::MissingClosingParen, 0, 6)]);
}

#[test]
fn closing_parenthesis_after_its_group_was_closed_is_unmatched() {
    let tokens = vec![
        Token::LeftParen,
        sentence("p"),
        Token::And,
        Token::And,
        Token::RightParen,
        sentence("q"),
        Token::RightParen,
    ];
    let diagnostics = parse(tokens, 5).unwrap_err();
    assert_eq!(
        diagnostics,
        vec![
            diagnostic(Message::AdjacentOperators, 0, 4),
            diagnostic(Message::AdjacentLiterals, 0, 6),
            diagnostic(Message::UnmatchedClosingParen, 0, 7),
        ]
    );
}
