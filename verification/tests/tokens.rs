use prop_parser::grammar::Expr;
use prop_parser::parser::{is_literal_value_token, is_operator_token};
use prop_parser::token::Token;

fn all_tokens() -> Vec<Token> {
    vec![
        Token::Sentence("p".to_string()),
        Token::True,
        Token::False,
        Token::And,
        Token::Or,
        Token::IfThen,
        Token::IfOnlyIf,
        Token::Not,
        Token::LeftParen,
        Token::RightParen,
        Token::Null,
        Token::Invalid,
    ]
}

#[test]
fn literal_value_tokens() {
    let expected = [
        true, true, true, false, false, false, false, false, false, false, false, false,
    ];
    for (token, literal) in all_tokens().iter().zip(expected) {
        assert_eq!(is_literal_value_token(token), literal);
    }
}

#[test]
fn operator_tokens() {
    let expected = [
        false, false, false, true, true, true, true, true, false, false, false, false,
    ];
    for (token, operator) in all_tokens().iter().zip(expected) {
        assert_eq!(is_operator_token(token), operator);
    }
}

#[test]
fn tokens_are_the_same_by_tag_and_name() {
    let tokens = all_tokens();
    for (i, a) in tokens.iter().enumerate() {
        for (j, b) in tokens.iter().enumerate() {
            assert_eq!(a.same(b), i == j);
            assert_eq!(a == b, i == j);
        }
    }
    let p = Token::Sentence("p".to_string());
    assert!(p.same(&Token::Sentence("p".to_string())));
    assert!(!p.same(&Token::Sentence("q".to_string())));
}

#[test]
fn duplicate_keeps_the_token() {
    for token in all_tokens() {
        assert_eq!(token.duplicate(), token);
    }
}

#[test]
fn only_the_placeholder_is_null() {
    assert!(Expr::Null.is_null());
    assert!(!Expr::Literal(Token::True).is_null());
    assert!(!Expr::Grouping(Box::new(Expr::Null)).is_null());
    assert!(!Expr::Unary(Token::Not, Box::new(Expr::Null)).is_null());
}
