use std::collections::HashSet;

use lox::ast::{Expr, Stmt};
use lox::codegen::{lower_main, CodeGenError, Instr};
use lox::lexer::Lexer;
use lox::parser::Parser;
use lox::test_runner::{parse_test, validate_errors, validate_output, Expectations};
use lox::token::{Token, TokenType};

fn tokens(source: &str) -> Vec<Token> {
    Lexer::new(source.to_string()).scan_tokens().0
}

fn parse(source: &str) -> Vec<Stmt> {
    let mut parser = Parser::new(tokens(source));
    parser.parse().expect("parse failed")
}

fn expr_ids(e: &Expr, out: &mut Vec<usize>) {
    match e {
        Expr::Assign { value, id, .. } => {
            expr_ids(value, out);
            out.push(*id);
        }
        Expr::Binary { left, right, id, .. } | Expr::Logical { left, right, id, .. } => {
            expr_ids(left, out);
            expr_ids(right, out);
            out.push(*id);
        }
        Expr::Call { callee, arguments, id, .. } => {
            expr_ids(callee, out);
            for a in arguments {
                expr_ids(a, out);
            }
            out.push(*id);
        }
        Expr::Get { object, id, .. } => {
            expr_ids(object, out);
            out.push(*id);
        }
        Expr::Grouping { expression, id } => {
            expr_ids(expression, out);
            out.push(*id);
        }
        Expr::SetProperty { object, value, id, .. } => {
            expr_ids(object, out);
            expr_ids(value, out);
            out.push(*id);
        }
        Expr::Unary { right, id, .. } => {
            expr_ids(right, out);
            out.push(*id);
        }
        Expr::Ternary { condition, then_branch, else_branch, id } => {
            expr_ids(condition, out);
            expr_ids(then_branch, out);
            expr_ids(else_branch, out);
            out.push(*id);
        }
        Expr::Literal { id, .. } | Expr::Super { id, .. } | Expr::This { id, .. } | Expr::Variable { id, .. } => {
            out.push(*id)
        }
    }
}

fn stmt_ids(s: &Stmt, out: &mut Vec<usize>) {
    match s {
        Stmt::Block { statements } => statements.iter().for_each(|s| stmt_ids(s, out)),
        Stmt::Class { superclass, methods, .. } => {
            if let Some(e) = superclass {
                expr_ids(e, out);
            }
            methods.iter().for_each(|s| stmt_ids(s, out));
        }
        Stmt::Expression { expression } | Stmt::Print { expression } => expr_ids(expression, out),
        Stmt::Function { body, .. } => body.iter().for_each(|s| stmt_ids(s, out)),
        Stmt::If { condition, then_branch, else_branch } => {
            expr_ids(condition, out);
            stmt_ids(then_branch, out);
            if let Some(b) = else_branch {
                stmt_ids(b, out);
            }
        }
        Stmt::Return { value, .. } => {
            if let Some(e) = value {
                expr_ids(e, out);
            }
        }
        Stmt::Var { initializer, .. } => expr_ids(initializer, out),
        Stmt::While { condition, body } => {
            expr_ids(condition, out);
            stmt_ids(body, out);
        }
    }
}

#[test]
fn parsed_ids_are_unique() {
    let program = parse(
        "class B < A { m(x) { return this.f(x, super.g) ? -x : !x; } }\n\
         for (var i = 0; i < 3; i = i + 1) { print i, (i); a.b = c or d and e; }\n\
         for (;;) print 1;",
    );
    let mut ids = Vec::new();
    program.iter().for_each(|s| stmt_ids(s, &mut ids));
    assert!(ids.len() > 20);
    let distinct: HashSet<usize> = ids.iter().copied().collect();
    assert_eq!(distinct.len(), ids.len());
}

#[test]
fn tokens_end_with_one_eof_and_lines_ascend() {
    let source = "var a = \"x\ny\";\n// c\n/* d\n*/ print a;\n";
    let toks = tokens(source);
    assert!(toks.len() <= source.chars().count() + 1);
    assert_eq!(toks.last().unwrap().token_type(), TokenType::Eof);
    assert_eq!(toks.iter().filter(|t| t.token_type() == TokenType::Eof).count(), 1);
    for w in toks.windows(2) {
        assert!(w[0].line() <= w[1].line());
    }
    assert!(toks.iter().all(|t| t.line() >= 1));
    assert_eq!(toks.last().unwrap().line(), 6);
}

#[test]
fn compiled_expressions_leave_one_value() {
    let code = lower_main(&parse("print -(1 + 2) * 3 / !nil; print \"s\";")).unwrap();
    let mut height: i64 = 0;
    for instr in &code {
        let (needs, effect) = match instr {
            Instr::Number(_) | Instr::Bool(_) | Instr::Nil | Instr::Str(_) => (0, 1),
            Instr::CheckType { .. } | Instr::Not | Instr::Negate => (1, 0),
            Instr::Add | Instr::Subtract | Instr::Multiply | Instr::Divide => (2, -1),
            Instr::Print => (1, -1),
        };
        assert!(height >= needs);
        height += effect;
    }
    assert_eq!(height, 0);
}

#[test]
fn exit_code_follows_annotations() {
    assert_eq!(parse_test("print 1; // expect: 1\n", "").unwrap().expected_exit_code, 0);
    assert_eq!(parse_test("x; // Error: bad\n", "").unwrap().expected_exit_code, 65);
    assert_eq!(parse_test("x; // expect runtime error: bad\n", "").unwrap().expected_exit_code, 70);
}

#[test]
fn output_passes_exactly_when_equal() {
    let e = Expectations {
        expected_output: vec![(1, "a".to_string()), (2, "b".to_string())],
        expected_errors: Vec::new(),
        runtime_error: None,
        expected_exit_code: 0,
    };
    for (stdout, passes) in [("a\nb\n", true), ("a\nb", true), ("a\n", false), ("a\nb\nc\n", false), ("b\na\n", false)] {
        let mut failures = Vec::new();
        validate_output(&mut failures, stdout, &e);
        assert_eq!(failures.is_empty(), passes, "stdout {stdout:?}");
    }
}

#[test]
fn errors_pass_exactly_when_all_reported() {
    let e = Expectations {
        expected_output: Vec::new(),
        expected_errors: vec!["[1] Error: a".to_string(), "[2] Error: b".to_string()],
        runtime_error: None,
        expected_exit_code: 65,
    };
    for (stderr, passes) in [
        ("[line 2] Error: b\n\n[line 1] Error: a\n", true),
        ("[line 1] Error: a\n", false),
        ("[line 1] Error: a\n[line 2] Error: b\n[line 3] Error: c\n", false),
        ("[line 1] Error: a\n[line 2] Error: b\nnoise\n", false),
    ] {
        let mut failures = Vec::new();
        validate_errors(&mut failures, stderr, &e);
        assert_eq!(failures.is_empty(), passes, "stderr {stderr:?}");
    }
}

#[test]
fn parse_test_is_no_test_only_when_marked_or_both_kinds() {
    assert!(parse_test("// nontest\nprint 1; // expect: 1\n", "").is_none());
    assert!(parse_test("x; // Error: a\ny; // expect runtime error: b\n", "").is_none());
    let e = parse_test("y; // expect runtime error:\nx; // Error: a\n", "").unwrap();
    assert!(e.runtime_error.is_none());
    assert_eq!(e.expected_errors, vec!["[2] Error: a".to_string()]);
    let e = parse_test("x; // expect runtime error: b\n", "").unwrap();
    assert_eq!(e.runtime_error, Some((1, "b".to_string())));
    assert!(e.expected_errors.is_empty());
}

#[test]
fn error_complaints_capped_at_ten_before_missing() {
    let e = Expectations {
        expected_output: Vec::new(),
        expected_errors: vec!["[1] Error: a".to_string(), "[2] Error: b".to_string()],
        runtime_error: None,
        expected_exit_code: 65,
    };
    let mut stderr = String::new();
    for i in 0..12 {
        stderr.push_str(&format!("noise {i}\n"));
    }
    stderr.push_str("[line 2] Error: b\n");
    let mut failures = Vec::new();
    validate_errors(&mut failures, &stderr, &e);
    let mut expected: Vec<String> = (0..10).map(|i| format!("Unexpected output on stderr: noise {i}")).collect();
    expected.push("Missing expected error: [1] Error: a".to_string());
    assert_eq!(failures, expected);
}

#[test]
fn output_complaints_one_per_differing_line() {
    let e = Expectations {
        expected_output: vec![(1, "a".to_string()), (2, "b".to_string()), (3, "c".to_string()), (4, "d".to_string())],
        expected_errors: Vec::new(),
        runtime_error: None,
        expected_exit_code: 0,
    };
    let mut failures = Vec::new();
    validate_output(&mut failures, "a\nx\nc\n", &e);
    assert_eq!(
        failures,
        vec![
            "Expected output 'b' (from source line 2) but got 'x'.".to_string(),
            "Missing expected output 'd' (from source line 4).".to_string(),
        ]
    );
    let mut failures = Vec::new();
    validate_output(&mut failures, "a\nb\nc\nd\ne\nf\n", &e);
    assert_eq!(
        failures,
        vec!["Got output 'e' when none was expected.".to_string(), "Got output 'f' when none was expected.".to_string()]
    );
}

#[test]
fn eof_line_counts_newlines() {
    let toks = tokens("print 1;\n// c\n\"x\ny\"\n");
    assert_eq!(toks.last().unwrap().token_type(), TokenType::Eof);
    assert_eq!(toks.last().unwrap().line(), 5);
    let (toks, errs) = Lexer::new("\"open\n\n".to_string()).scan_tokens();
    assert_eq!(toks.last().unwrap().line(), 3);
    assert_eq!(errs.len(), 1);
    assert_eq!(errs[0].line, 3);
    let (toks, errs) = Lexer::new("@\n".to_string()).scan_tokens();
    assert_eq!(toks.last().unwrap().line(), 2);
    assert_eq!(errs[0].line, 1);
}

#[test]
fn program_compiles_iff_every_statement_prints_supported_code() {
    let code = lower_main(&parse("print 1; print -2; print (3 + 4) * 5;")).unwrap();
    assert_eq!(code.iter().filter(|i| matches!(i, Instr::Print)).count(), 3);
    for (source, message) in [
        ("print 1; print a; var b;", "unsupported expression"),
        ("print 1; var b; print a;", "unsupported statement"),
        ("print 1 == 2;", "unsupported binary operator"),
    ] {
        match lower_main(&parse(source)) {
            Err(CodeGenError::Unsupported { token: None, message: m }) => assert_eq!(m, message, "{source}"),
            other => panic!("{source}: {other:?}"),
        }
    }
}
