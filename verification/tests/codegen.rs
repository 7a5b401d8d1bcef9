use lox::ast::Stmt;
use lox::codegen::{lower_main, CodeGenError, Instr};
use lox::lexer::Lexer;
use lox::parser::Parser;
use lox::runtime::TAG_NUMBER;

fn parse(source: &str) -> Vec<Stmt> {
    let mut lexer = Lexer::new(source.to_string());
    let (tokens, _) = lexer.scan_tokens();
    let mut parser = Parser::new(tokens);
    parser.parse().expect("parse failed")
}

fn describe(code: &[Instr]) -> Vec<String> {
    code.iter()
        .map(|i| match i {
            Instr::Number(s) => format!("num {s}"),
            Instr::Bool(b) => format!("bool {b}"),
            Instr::Nil => "nil".to_string(),
            Instr::Str(s) => format!("str {s}"),
            Instr::CheckType { tag, line, message } => format!("check {tag} {line} {message}"),
            Instr::Not => "not".to_string(),
            Instr::Negate => "neg".to_string(),
            Instr::Add => "add".to_string(),
            Instr::Subtract => "sub".to_string(),
            Instr::Multiply => "mul".to_string(),
            Instr::Divide => "div".to_string(),
            Instr::Print => "print".to_string(),
        })
        .collect()
}

fn unsupported_message(r: Result<Vec<Instr>, CodeGenError>) -> String {
    match r {
        Err(CodeGenError::Unsupported { token: None, message }) => message,
        other => panic!("expected an unsupported construct, got {:?}", other),
    }
}

#[test]
fn print_arithmetic_lowers_in_order() {
    let code = lower_main(&parse("print 1 + 2 * 3;")).unwrap();
    assert_eq!(describe(&code), vec!["num 1", "num 2", "num 3", "mul", "add", "print"]);
}

#[test]
fn unary_minus_checks_its_operand() {
    let code = lower_main(&parse("print -(4);\nprint !nil;")).unwrap();
    assert_eq!(
        describe(&code),
        vec![
            "num 4".to_string(),
            format!("check {TAG_NUMBER} 1 Operand must be a number."),
            "neg".to_string(),
            "print".to_string(),
            "nil".to_string(),
            "not".to_string(),
            "print".to_string(),
        ]
    );
}

#[test]
fn literals_of_every_kind() {
    let code = lower_main(&parse("print \"hi\"; print true; print 2 / 8 - 1;")).unwrap();
    assert_eq!(
        describe(&code),
        vec!["str hi", "print", "bool true", "print", "num 2", "num 8", "div", "num 1", "sub", "print"]
    );
}

#[test]
fn unsupported_constructs_are_reported() {
    assert_eq!(unsupported_message(lower_main(&parse("var a = 1;"))), "unsupported statement");
    assert_eq!(unsupported_message(lower_main(&parse("print a;"))), "unsupported expression");
    assert_eq!(unsupported_message(lower_main(&parse("print 1 < 2;"))), "unsupported binary operator");
    assert_eq!(unsupported_message(lower_main(&parse("print 1; var b;"))), "unsupported statement");
}

#[test]
fn empty_program_has_no_code() {
    assert!(lower_main(&parse("")).unwrap().is_empty());
}
