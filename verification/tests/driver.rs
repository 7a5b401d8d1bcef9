use lox::driver::{error_location, format_report, Lox};
use lox::token::{Token, TokenType};

#[test]
fn report_formats() {
    assert_eq!(format_report(3, "", "Unexpected character."), "[line 3] Error: Unexpected character.");
    assert_eq!(format_report(10, " at 'x'", "Boom."), "[line 10] Error at 'x': Boom.");
    let eof = Token::new(TokenType::Eof, String::new(), None, 2);
    assert_eq!(error_location(&eof), " at end");
    let t = Token::new(TokenType::Identifier, "foo".to_string(), None, 2);
    assert_eq!(error_location(&t), " at 'foo'");
}

#[test]
fn lex_errors_are_reported_first() {
    let mut lox = Lox::new();
    let (reports, program) = lox.run("var a = @; print ;");
    assert_eq!(reports, vec!["[line 1] Error: Unexpected character.".to_string()]);
    assert!(program.is_none());
    assert!(lox.had_error());
    lox.clear_error();
    assert!(!lox.had_error());
}

#[test]
fn parse_errors_are_reported() {
    let mut lox = Lox::new();
    let (reports, program) = lox.run("var a = 1");
    assert_eq!(reports, vec!["[line 1] Error at end: Expect ';' after variable declaration.".to_string()]);
    assert!(program.is_none());
}

#[test]
fn resolve_errors_are_reported() {
    let mut lox = Lox::new();
    let (reports, program) = lox.run("\nreturn 1;");
    assert_eq!(reports, vec!["[line 2] Error at 'return': Can't return from top-level code.".to_string()]);
    assert!(program.is_none());
}

#[test]
fn clean_program_is_handed_on() {
    let mut lox = Lox::new();
    let (reports, program) = lox.run("{ var a = 1; print a; }");
    assert!(reports.is_empty());
    let program = program.unwrap();
    assert_eq!(program.statements.len(), 1);
    assert_eq!(program.locals.len(), 1);
    assert!(!lox.had_error());
}

#[test]
fn prompt_prints_lone_expression() {
    let mut lox = Lox::new();
    lox.set_prompt(true);
    let (reports, program) = lox.run("1 + 2");
    assert!(reports.is_empty());
    let program = program.unwrap();
    assert_eq!(program.statements.len(), 1);
    assert!(matches!(&program.statements[0], lox::ast::Stmt::Print { .. }));
}

#[test]
fn interpreter_front_end_reports_first_resolution_error_plainly() {
    let mut lox = Lox::with_rules(lox::resolver::Rules::Interpreter);
    let (reports, program) = lox.run("return 1;\nprint this;");
    assert_eq!(reports, vec!["[line 1] Error: Cannot return from top-level code.".to_string()]);
    assert!(program.is_none());
    assert!(lox.had_error());
}
