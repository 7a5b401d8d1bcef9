use lox::environment::{check_arity, Environment};
use lox::token::{Literal, Token};

fn tok(name: &str) -> Token {
    Token::identifier(name)
}

fn num(text: &str) -> Literal {
    Literal::Number(text.to_string())
}

#[test]
fn test_global_define_and_get() {
    let mut env = Environment::new();
    let global = env.global();
    env.define(global, &tok("x"), num("10.0"));
    let val = env.get(global, &tok("x")).unwrap();
    assert_eq!(val, num("10.0"));
}

#[test]
fn test_global_assign() {
    let mut env = Environment::new();
    let global = env.global();
    env.define(global, &tok("x"), num("1.0"));
    env.assign(global, &tok("x"), num("2.0")).unwrap();
    let val = env.get(global, &tok("x")).unwrap();
    assert_eq!(val, num("2.0"));
}

#[test]
fn test_global_assign_undefined() {
    let mut env = Environment::new();
    let global = env.global();
    let result = env.assign(global, &tok("undef"), Literal::Nil);
    assert!(result.is_err());
}

#[test]
fn test_get_undefined() {
    let env: Environment<Literal> = Environment::new();
    let result = env.get(env.global(), &tok("nosuch"));
    assert!(result.is_err());
}

#[test]
fn test_nested_define_and_get() {
    let mut env = Environment::new();
    let global = env.global();
    let child = env.new_enclosed(global);

    env.define(global, &tok("a"), num("1.0"));
    env.define(child, &tok("b"), num("2.0"));

    // child can see its own var
    assert_eq!(env.get(child, &tok("b")).unwrap(), num("2.0"));
    // child can see parent var via walk
    assert_eq!(env.get(child, &tok("a")).unwrap(), num("1.0"));
}

#[test]
fn test_get_at_distance() {
    let mut env = Environment::new();
    let global = env.global();
    let child = env.new_enclosed(global);

    env.define(global, &tok("x"), num("99.0"));
    // child has its own "x" shadowing parent
    env.define(child, &tok("x"), num("1.0"));

    // get_at(0) on child reads child's x
    assert_eq!(env.get_at(child, 0, &tok("x")).unwrap(), num("1.0"));
    // get_at(1) on child walks up to global's x
    assert_eq!(env.get_at(child, 1, &tok("x")).unwrap(), num("99.0"));
}

#[test]
fn test_assign_at_distance() {
    let mut env = Environment::new();
    let global = env.global();
    let child = env.new_enclosed(global);

    env.define(global, &tok("x"), num("0.0"));
    env.define(child, &tok("x"), num("0.0"));

    // assign_at(1) modifies parent's x
    env.assign_at(child, 1, &tok("x"), num("999.0")).unwrap();
    assert_eq!(env.get(child, &tok("x")).unwrap(), num("0.0"));
    assert_eq!(env.get(global, &tok("x")).unwrap(), num("999.0"));
}

#[test]
fn test_shadow_restores_parent() {
    let mut env = Environment::new();
    let global = env.global();
    let child = env.new_enclosed(global);

    env.define(global, &tok("x"), num("10.0"));
    env.define(child, &tok("x"), num("20.0"));

    assert_eq!(env.get(child, &tok("x")).unwrap(), num("20.0"));
    drop(child);

    // global unaffected
    assert_eq!(env.get(global, &tok("x")).unwrap(), num("10.0"));
}

#[test]
fn undefined_variable_message() {
    let env: Environment<Literal> = Environment::new();
    let err = env.get(env.global(), &tok("ghost")).unwrap_err();
    assert_eq!(err.message, "Undefined variable 'ghost'.");
    assert_eq!(err.token.lexeme(), "ghost");
    let err = env.get_at(env.global(), 3, &tok("ghost")).unwrap_err();
    assert_eq!(err.message, "Undefined variable 'ghost'.");
}

#[test]
fn assign_walks_to_the_defining_environment() {
    let mut env = Environment::new();
    let global = env.global();
    let child = env.new_enclosed(global);
    let grandchild = env.new_enclosed(child);
    env.define(global, &tok("x"), num("1"));
    env.assign(grandchild, &tok("x"), num("2")).unwrap();
    assert_eq!(env.get(global, &tok("x")).unwrap(), num("2"));
    assert_eq!(env.enclosing(grandchild), Some(child));
    assert_eq!(env.enclosing(global), None);
}

#[test]
fn redefine_replaces_value() {
    let mut env = Environment::new();
    let global = env.global();
    env.define(global, &tok("x"), num("1"));
    env.define(global, &tok("x"), Literal::Bool(true));
    assert_eq!(env.get(global, &tok("x")).unwrap(), Literal::Bool(true));
}

#[test]
fn assign_at_too_far_fails() {
    let mut env = Environment::new();
    let global = env.global();
    env.define(global, &tok("x"), num("1"));
    assert!(env.assign_at(global, 1, &tok("x"), num("2")).is_err());
    assert_eq!(env.get(global, &tok("x")).unwrap(), num("1"));
}

#[test]
fn arity_mismatch_is_reported_at_the_paren() {
    let paren = lox::token::Token::new(lox::token::TokenType::RightParen, ")".to_string(), None, 7);
    assert!(check_arity(&paren, 2, 2).is_ok());
    let e = check_arity(&paren, 2, 3).unwrap_err();
    assert_eq!(e.message, "Expected 2 arguments but got 3.");
    assert_eq!(e.token.line(), 7);
    assert_eq!(check_arity(&paren, 0, 1).unwrap_err().message, "Expected 0 arguments but got 1.");
}
