use std::collections::HashSet;
use lox::token::{Literal, Token, TokenType};

#[test]
fn test_new_token() {
    let t = Token::new(TokenType::Number, "42".into(), Some(Literal::Number("42".to_string())), 1);
    assert_eq!(t.token_type(), TokenType::Number);
    assert_eq!(t.lexeme(), "42");
    assert_eq!(t.line(), 1);
    assert!(t.literal().is_some());
}

#[test]
fn test_identifier_token() {
    let t = Token::identifier("foo");
    assert_eq!(t.token_type(), TokenType::Identifier);
    assert_eq!(t.lexeme(), "foo");
    assert_eq!(t.line(), 0);
}

#[test]
fn test_token_eq_same_line() {
    let a = Token::new(TokenType::Identifier, "x".into(), None, 3);
    let b = Token::new(TokenType::Identifier, "x".into(), None, 3);
    assert_eq!(a, b);
}

#[test]
fn test_token_eq_different_line() {
    let a = Token::new(TokenType::Identifier, "x".into(), None, 3);
    let b = Token::new(TokenType::Identifier, "x".into(), None, 5);
    assert_ne!(a, b);
}

#[test]
fn test_token_eq_different_type() {
    let a = Token::new(TokenType::Identifier, "x".into(), None, 1);
    let b = Token::new(TokenType::String, "x".into(), None, 1);
    assert_ne!(a, b);
}

#[test]
fn test_token_hash() {
    let a = Token::new(TokenType::Identifier, "x".into(), None, 1);
    let b = Token::new(TokenType::Identifier, "x".into(), None, 1);
    let mut set = HashSet::new();
    set.insert(a.clone());
    assert!(set.contains(&b));
}

#[test]
fn token_eq_ignores_literal() {
    let a = Token::new(TokenType::Number, "1".into(), Some(Literal::Number("1".to_string())), 1);
    let b = Token::new(TokenType::Number, "1".into(), None, 1);
    assert_eq!(a, b);
    let mut set = HashSet::new();
    set.insert(a);
    assert!(set.contains(&b));
}

#[test]
fn token_eq_different_lexeme() {
    let a = Token::new(TokenType::Identifier, "x".into(), None, 1);
    let b = Token::new(TokenType::Identifier, "y".into(), None, 1);
    assert_ne!(a, b);
}

#[test]
fn token_clone_keeps_fields() {
    let a = Token::new(TokenType::String, "\"s\"".into(), Some(Literal::String("s".to_string())), 7);
    let b = a.clone();
    assert_eq!(b.token_type(), TokenType::String);
    assert_eq!(b.lexeme(), "\"s\"");
    assert_eq!(b.line(), 7);
    assert!(matches!(b.literal(), Some(Literal::String(s)) if s == "s"));
}
