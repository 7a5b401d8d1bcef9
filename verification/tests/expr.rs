use std::collections::HashSet;
use lox::ast::Expr;
use lox::token::{Literal, Token, TokenType};

fn make_token(lexeme: &str) -> Token {
    Token::new(TokenType::Identifier, lexeme.into(), None, 0)
}

fn num(text: &str) -> Literal {
    Literal::Number(text.to_string())
}

#[test]
fn test_expr_eq_same_id() {
    let a = Expr::Literal { value: num("1.0"), id: 42 };
    let b = Expr::Literal { value: num("2.0"), id: 42 };
    assert_eq!(a, b);
}

#[test]
fn test_expr_eq_different_id() {
    let a = Expr::Literal { value: num("1.0"), id: 1 };
    let b = Expr::Literal { value: num("1.0"), id: 2 };
    assert_ne!(a, b);
}

#[test]
fn test_expr_cross_variant_same_id() {
    let a = Expr::Literal { value: Literal::Nil, id: 7 };
    let b = Expr::Variable { name: make_token("x"), id: 7 };
    assert_eq!(a, b);
}

#[test]
fn test_expr_id_method() {
    let e = Expr::Binary {
        left: Box::new(Expr::Literal { value: num("1.0"), id: 10 }),
        operator: make_token("+"),
        right: Box::new(Expr::Literal { value: num("2.0"), id: 11 }),
        id: 5,
    };
    assert_eq!(e.id(), 5);
}

#[test]
fn test_expr_hash_uses_id() {
    let a = Expr::Literal { value: Literal::Nil, id: 99 };
    let b = Expr::Variable { name: make_token("x"), id: 99 };
    let mut set = HashSet::new();
    set.insert(a);
    assert!(set.contains(&b));
}

#[test]
fn test_expr_clone_preserves_id() {
    let e = Expr::Variable { name: make_token("x"), id: 77 };
    let cloned = e.clone();
    assert_eq!(cloned.id(), 77);
    assert_eq!(e, cloned);
}

#[test]
fn clone_keeps_the_whole_tree() {
    let e = Expr::Call {
        callee: Box::new(Expr::Variable { name: make_token("f"), id: 1 }),
        paren: make_token(")"),
        arguments: vec![Expr::Literal { value: num("3"), id: 2 }, Expr::This { keyword: make_token("this"), id: 3 }],
        id: 4,
    };
    let c = e.clone();
    match c {
        Expr::Call { callee, arguments, id, .. } => {
            assert_eq!(id, 4);
            assert_eq!(callee.id(), 1);
            assert_eq!(arguments.len(), 2);
            assert!(matches!(&arguments[0], Expr::Literal { value: Literal::Number(t), id: 2 } if t == "3"));
            assert!(matches!(&arguments[1], Expr::This { id: 3, .. }));
        }
        other => panic!("expected Call, got {:?}", other),
    }
}
