use lox::ast::{Expr, Stmt};
use lox::lexer::Lexer;
use lox::parser::Parser;
use lox::resolver::{ResolveError, Resolver, Rules};

fn parse(source: &str) -> Vec<Stmt> {
    let mut lexer = Lexer::new(source.to_string());
    let (tokens, errors) = lexer.scan_tokens();
    assert!(errors.is_empty());
    let mut parser = Parser::new(tokens);
    parser.parse().expect("parse failed")
}

fn resolve(source: &str) -> (Resolver, Result<(), Vec<ResolveError>>) {
    let statements = parse(source);
    let mut resolver = Resolver::new();
    let result = resolver.resolve(&statements);
    (resolver, result)
}

fn messages(source: &str) -> Vec<String> {
    match resolve(source).1 {
        Ok(()) => Vec::new(),
        Err(errors) => errors.into_iter().map(|e| e.message).collect(),
    }
}

#[test]
fn top_level_return_is_an_error() {
    let (_, result) = resolve("return 1;");
    let errors = result.unwrap_err();
    assert_eq!(errors.len(), 1);
    assert_eq!(errors[0].message, "Can't return from top-level code.");
    assert_eq!(errors[0].token.lexeme(), "return");
}

#[test]
fn class_inheriting_from_itself() {
    assert_eq!(messages("class A < A {}"), vec!["A class can't inherit from itself.".to_string()]);
}

#[test]
fn reading_local_in_own_initializer() {
    assert_eq!(
        messages("{ var a = a; }"),
        vec!["Can't read local variable in its own initializer.".to_string()]
    );
    assert!(messages("var a = a;").is_empty());
}

#[test]
fn duplicate_local_declaration() {
    assert_eq!(
        messages("{ var a = 1; var a = 2; }"),
        vec!["Already a variable with this name in this scope.".to_string()]
    );
    assert!(messages("var a = 1; var a = 2;").is_empty());
}

#[test]
fn this_and_super_outside_classes() {
    assert_eq!(messages("print this;"), vec!["Can't use 'this' outside of a class.".to_string()]);
    assert_eq!(messages("print super.x;"), vec!["Can't use 'super' outside of a class.".to_string()]);
    assert_eq!(
        messages("class A { f() { super.f(); } }"),
        vec!["Can't use 'super' in a class with no superclass.".to_string()]
    );
    assert!(messages("class B {} class A < B { f() { super.f(); this.x = 1; } }").is_empty());
}

#[test]
fn return_value_from_initializer() {
    assert_eq!(
        messages("class A { init() { return 1; } }"),
        vec!["Can't return a value from an initializer.".to_string()]
    );
    assert!(messages("class A { init() { return; } }").is_empty());
    assert!(messages("fun f() { return 1; }").is_empty());
}

#[test]
fn errors_are_collected_in_order() {
    assert_eq!(
        messages("return; { var b = b; } print this;"),
        vec![
            "Can't return from top-level code.".to_string(),
            "Can't read local variable in its own initializer.".to_string(),
            "Can't use 'this' outside of a class.".to_string(),
        ]
    );
}

#[test]
fn locals_record_depths() {
    let statements = parse("{ var a = 1; { print a; a = 2; } } var g = 1; print g;");
    let mut resolver = Resolver::new();
    assert!(resolver.resolve(&statements).is_ok());
    // The inner block holds `print a;` and `a = 2;`.
    let inner = match &statements[0] {
        Stmt::Block { statements } => match &statements[1] {
            Stmt::Block { statements } => statements,
            other => panic!("expected Block, got {:?}", other),
        },
        other => panic!("expected Block, got {:?}", other),
    };
    let use_id = match &inner[0] {
        Stmt::Print { expression } => expression.id(),
        other => panic!("expected Print, got {:?}", other),
    };
    let assign_id = match &inner[1] {
        Stmt::Expression { expression } => match expression.as_ref() {
            Expr::Assign { id, .. } => *id,
            other => panic!("expected Assign, got {:?}", other),
        },
        other => panic!("expected Expression, got {:?}", other),
    };
    assert_eq!(resolver.locals().get(&use_id), Some(&1));
    assert_eq!(resolver.locals().get(&assign_id), Some(&1));
    // Globals are left to the global environment.
    let global_id = match &statements[2] {
        Stmt::Print { expression } => expression.id(),
        other => panic!("expected Print, got {:?}", other),
    };
    assert_eq!(resolver.locals().get(&global_id), None);
}

#[test]
fn function_parameters_are_local() {
    let statements = parse("fun f(x) { print x; }");
    let mut resolver = Resolver::new();
    assert!(resolver.resolve(&statements).is_ok());
    let id = match &statements[0] {
        Stmt::Function { body, .. } => match &body[0] {
            Stmt::Print { expression } => expression.id(),
            other => panic!("expected Print, got {:?}", other),
        },
        other => panic!("expected Function, got {:?}", other),
    };
    assert_eq!(resolver.locals().get(&id), Some(&0));
}

fn first_error(source: &str) -> Option<String> {
    let statements = parse(source);
    let mut resolver = Resolver::with_rules(Rules::Interpreter);
    resolver.resolve_first(&statements).err().map(|e| e.message)
}

#[test]
fn interpreter_rules_stop_at_the_first_error() {
    assert_eq!(first_error("return; print this;"), Some("Cannot return from top-level code.".to_string()));
    assert_eq!(first_error("{ var a = 1; var a = 2; }"), Some("Variable with this name already declared in this scope.".to_string()));
    assert_eq!(first_error("class A < A {}"), Some("A class cannot inherit from itself.".to_string()));
    assert_eq!(first_error("{ var a = a; }"), Some("Cannot read local variable in its own initializer.".to_string()));
    assert_eq!(first_error("print this;"), Some("Cannot use 'this' outside of a class.".to_string()));
    assert_eq!(first_error("var ok = 1; print ok;"), None);
}

#[test]
fn interpreter_rules_take_init_for_the_initializer() {
    // The method named `init` is the initializer: it may not return a value,
    // but a bare `return;` is allowed.
    assert_eq!(
        first_error("class A { init() { return 1; } }"),
        Some("Cannot return a value from an initializer.".to_string())
    );
    assert_eq!(first_error("class A { init() { return; } }"), None);
    // The class's name does not matter.
    assert_eq!(first_error("class init { f() { return; } }"), None);
}
