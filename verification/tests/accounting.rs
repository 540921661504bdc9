use prop_parser::errors::{Diagnostic, ErrorKind};
use prop_parser::grammar::Expr;
use prop_parser::parser::Parser;
use prop_parser::token::Token;

fn sentence(name: &str) -> Token {
    Token::Sentence(name.to_string())
}

fn tally(diagnostics: &[Diagnostic], kind: ErrorKind) -> usize {
    diagnostics.iter().filter(|d| d.message.kind() == kind).count()
}

fn occurrences(tokens: &[Token], token: &Token) -> usize {
    tokens.iter().filter(|t| t.same(token)).count()
}

fn null_free(expr: &Expr) -> bool {
    match expr {
        Expr::Null => false,
        Expr::Literal(_) => true,
        Expr::Unary(_, operand) => null_free(operand),
        Expr::Binary(left, _, right) => null_free(left) && null_free(right),
        Expr::Grouping(inner) => null_free(inner),
    }
}

fn flatten(expr: &Expr, out: &mut Vec<Token>) {
    match expr {
        Expr::Null => {}
        Expr::Literal(token) => out.push(token.clone()),
        Expr::Unary(operator, operand) => {
            out.push(operator.clone());
            flatten(operand, out);
        }
        Expr::Binary(left, operator, right) => {
            flatten(left, out);
            out.push(operator.clone());
            flatten(right, out);
        }
        Expr::Grouping(inner) => {
            out.push(Token::LeftParen);
            flatten(inner, out);
            out.push(Token::RightParen);
        }
    }
}

fn samples() -> Vec<Vec<Token>> {
    vec![
        vec![],
        vec![sentence("p")],
        vec![Token::LeftParen],
        vec![Token::RightParen],
        vec![Token::LeftParen, Token::LeftParen, sentence("p")],
        vec![sentence("p"), Token::RightParen, Token::RightParen],
        vec![Token::LeftParen, sentence("p"), Token::And, Token::RightParen],
        vec![Token::LeftParen, Token::LeftParen, sentence("p"), Token::And, Token::RightParen],
        vec![Token::LeftParen, sentence("p"), Token::Not, sentence("q"), Token::RightParen],
        vec![Token::RightParen, Token::LeftParen, Token::RightParen, Token::LeftParen],
        vec![Token::LeftParen, sentence("p"), Token::Or, Token::Not, sentence("q"), Token::RightParen],
        vec![sentence("p"), Token::And, Token::Invalid, Token::RightParen, Token::LeftParen],
        vec![Token::Not, Token::LeftParen, Token::True, Token::IfThen, Token::False, Token::RightParen],
        vec![Token::LeftParen, sentence("p"), Token::And, Token::And, Token::RightParen, sentence("q"), Token::RightParen],
        vec![Token::LeftParen, Token::LeftParen, Token::RightParen, Token::Or, Token::LeftParen],
        vec![Token::LeftParen, sentence("p"), Token::And, Token::RightParen, Token::RightParen],
        vec![Token::LeftParen, Token::LeftParen, sentence("p"), Token::Or, Token::RightParen, Token::RightParen],
        vec![Token::LeftParen, sentence("p"), Token::Not, sentence("q"), Token::And, Token::RightParen],
    ]
}

#[test]
fn parentheses_are_accounted_for_by_the_diagnostics() {
    for tokens in samples() {
        let mut parser = Parser::new(tokens.clone(), 1);
        let _ = parser.parse();
        let depth = parser.open_groups();
        let missing = tally(&parser.diagnostics, ErrorKind::MissingClosingParen);
        let unmatched = tally(&parser.diagnostics, ErrorKind::UnmatchedClosingParen);
        let opened = occurrences(&tokens, &Token::LeftParen);
        let closed = occurrences(&tokens, &Token::RightParen);
        assert!(opened <= closed + missing);
        assert!(depth + closed <= opened + unmatched);
        assert!(depth <= missing);
    }
}

#[test]
fn every_group_left_open_is_reported() {
    let tokens = vec![
        Token::LeftParen,
        Token::LeftParen,
        sentence("p"),
        Token::And,
        Token::RightParen,
    ];
    let mut parser = Parser::new(tokens, 1);
    assert_eq!(parser.parse(), Err(()));
    assert_eq!(tally(&parser.diagnostics, ErrorKind::MissingClosingParen), 1);
    assert_eq!(parser.open_groups(), 1);
}

#[test]
fn every_unmatched_closing_parenthesis_is_reported() {
    let tokens = vec![
        Token::LeftParen,
        sentence("p"),
        Token::And,
        Token::And,
        Token::RightParen,
        sentence("q"),
        Token::RightParen,
    ];
    let mut parser = Parser::new(tokens, 1);
    assert_eq!(parser.parse(), Err(()));
    assert_eq!(tally(&parser.diagnostics, ErrorKind::UnmatchedClosingParen), 1);
    assert_eq!(tally(&parser.diagnostics, ErrorKind::MissingClosingParen), 0);
    assert_eq!(parser.open_groups(), 0);
}

#[test]
fn unclosed_groups_leave_the_depth_raised() {
    let mut parser = Parser::new(vec![Token::LeftParen, Token::LeftParen, sentence("p")], 1);
    assert_eq!(parser.parse(), Err(()));
    assert_eq!(parser.open_groups(), 2);
    assert_eq!(tally(&parser.diagnostics, ErrorKind::MissingClosingParen), 2);
}

#[test]
fn success_means_a_tree_without_null_that_spells_the_input() {
    for tokens in samples() {
        let mut parser = Parser::new(tokens.clone(), 1);
        match parser.parse() {
            Ok(tree) => {
                assert!(parser.diagnostics.is_empty());
                assert_eq!(parser.open_groups(), 0);
                assert_eq!(
                    occurrences(&tokens, &Token::LeftParen),
                    occurrences(&tokens, &Token::RightParen)
                );
                if tokens.is_empty() {
                    assert_eq!(*tree, Expr::Null);
                } else {
                    assert!(null_free(&tree));
                    let mut spelled = Vec::new();
                    flatten(&tree, &mut spelled);
                    assert_eq!(spelled, tokens);
                }
            }
            Err(()) => assert!(parser.error),
        }
    }
}

#[test]
fn diagnostics_set_the_error_flag() {
    for tokens in samples() {
        let mut parser = Parser::new(tokens, 9);
        let result = parser.parse();
        assert_eq!(result.is_err(), parser.error);
        if !parser.diagnostics.is_empty() {
            assert!(parser.error);
        }
        assert!(parser.diagnostics.iter().all(|d| d.line == 9));
    }
}
