use lox::test_runner::{
    extract_after, parse_bracket_error, parse_error_line, parse_test, validate_errors, validate_exit_code,
    validate_output, Expectations,
};

fn expectations(output: &[(usize, &str)], errors: &[&str], runtime: Option<(usize, &str)>, code: i32) -> Expectations {
    Expectations {
        expected_output: output.iter().map(|(n, s)| (*n, s.to_string())).collect(),
        expected_errors: errors.iter().map(|s| s.to_string()).collect(),
        runtime_error: runtime.map(|(n, s)| (n, s.to_string())),
        expected_exit_code: code,
    }
}

#[test]
fn extract_after_finds_prefix_anywhere() {
    assert_eq!(extract_after("print 1; // expect: 1", "// expect:"), Some(" 1"));
    assert_eq!(extract_after("// expect:", "// expect:"), Some(""));
    assert_eq!(extract_after("print 1;", "// expect:"), None);
}

#[test]
fn bracket_error_bare_and_tagged() {
    assert_eq!(
        parse_bracket_error("// [line 3] Error at 'x': Boom.", ""),
        Some((3, "Error at 'x': Boom.".to_string()))
    );
    assert_eq!(parse_bracket_error("// [java line 7] Error: x", "java"), Some((7, "Error: x".to_string())));
    assert_eq!(parse_bracket_error("// [java line 7] Error: x", "c"), None);
    assert_eq!(parse_bracket_error("// [line 2] Warning", ""), None);
    assert_eq!(parse_bracket_error("// [line x] Error", ""), None);
    assert_eq!(parse_bracket_error("print 1;", ""), None);
}

#[test]
fn error_line_of_interpreter_output() {
    assert_eq!(parse_error_line("[line 12] Error: Boom."), Some((12, "Error: Boom.".to_string())));
    assert_eq!(parse_error_line("  [line 1] Error at end: x"), Some((1, "Error at end: x".to_string())));
    assert_eq!(parse_error_line("[line 1] oops"), None);
    assert_eq!(parse_error_line("line 1] Error"), None);
}

#[test]
fn parse_test_collects_annotations() {
    let content = "print 1; // expect: 1\nprint \"a\"; // expect:  a\nvar x = ; // Error at ';': Expect expression.\n";
    let e = parse_test(content, "").unwrap();
    assert_eq!(e.expected_output, vec![(1, "1".to_string()), (2, " a".to_string())]);
    assert_eq!(e.expected_errors, vec!["[3] Error at ';': Expect expression.".to_string()]);
    assert_eq!(e.runtime_error, None);
    assert_eq!(e.expected_exit_code, 65);
}

#[test]
fn parse_test_runtime_error_and_nontest() {
    let e = parse_test("\n  -nil; // expect runtime error: Operand must be a number.\n", "").unwrap();
    assert_eq!(e.runtime_error, Some((2, "Operand must be a number.".to_string())));
    assert_eq!(e.expected_exit_code, 70);
    assert!(parse_test("// nontest\nprint 1;", "").is_none());
    assert!(parse_test("// [line 1] Error: a\n// expect runtime error: b\n", "").is_none());
}

#[test]
fn parse_test_bracket_error_sets_exit_code() {
    let e = parse_test("// [line 4] Error at 'a': Bad.\n// [line 4] Error at 'a': Bad.\n", "").unwrap();
    assert_eq!(e.expected_errors, vec!["[4] Error at 'a': Bad.".to_string()]);
    assert_eq!(e.expected_exit_code, 65);
}

#[test]
fn validate_errors_matches_expected() {
    let e = expectations(&[], &["[3] Error: Boom."], None, 65);
    let mut failures = Vec::new();
    validate_errors(&mut failures, "[line 3] Error: Boom.\n", &e);
    assert!(failures.is_empty());
    let mut failures = Vec::new();
    validate_errors(&mut failures, "[line 4] Error: Other.\nnoise\n", &e);
    assert_eq!(
        failures,
        vec![
            "Unexpected error: [line 4] Error: Other.".to_string(),
            "Unexpected output on stderr: noise".to_string(),
            "Missing expected error: [3] Error: Boom.".to_string(),
        ]
    );
}

#[test]
fn validate_errors_runtime_inline_and_bare() {
    let e = expectations(&[], &[], Some((5, "Boom.")), 70);
    let mut failures = Vec::new();
    validate_errors(&mut failures, "[line 5] Error: Boom.\n", &e);
    assert!(failures.is_empty());
    let mut failures = Vec::new();
    validate_errors(&mut failures, "[line 6] Error: Boom.\n", &e);
    assert_eq!(failures, vec!["Expected runtime error on line 5 but was reported on line 6.".to_string()]);
    let mut failures = Vec::new();
    validate_errors(&mut failures, "Boom.\n[line 5] in script\n", &e);
    assert!(failures.is_empty());
    let mut failures = Vec::new();
    validate_errors(&mut failures, "Boom.\n[line 9] in script\n", &e);
    assert_eq!(
        failures,
        vec!["Expected runtime error on line 5 but no stack frame references that line.".to_string()]
    );
    let mut failures = Vec::new();
    validate_errors(&mut failures, "other\n", &e);
    assert_eq!(failures, vec!["Expected runtime error 'Boom.' but got:".to_string(), "    other".to_string()]);
}

#[test]
fn validate_exit_code_reports_mismatch() {
    let e = expectations(&[], &[], None, 0);
    let mut failures = Vec::new();
    validate_exit_code(&mut failures, Some(0), "", &e);
    assert!(failures.is_empty());
    let mut failures = Vec::new();
    validate_exit_code(&mut failures, Some(65), "a\nb\n", &e);
    assert_eq!(
        failures,
        vec!["Expected exit code 0 but got 65. Stderr:".to_string(), "    a".to_string(), "    b".to_string()]
    );
    let mut failures = Vec::new();
    validate_exit_code(&mut failures, None, "", &e);
    assert_eq!(
        failures,
        vec!["Expected exit code 0 but the interpreter terminated abnormally (signal/abort).".to_string()]
    );
}

#[test]
fn validate_output_compares_lines() {
    let e = expectations(&[(1, "1"), (2, "2")], &[], None, 0);
    let mut failures = Vec::new();
    validate_output(&mut failures, "1\n2\n", &e);
    assert!(failures.is_empty());
    let mut failures = Vec::new();
    validate_output(&mut failures, "1\n3\n4\n", &e);
    assert_eq!(
        failures,
        vec![
            "Expected output '2' (from source line 2) but got '3'.".to_string(),
            "Got output '4' when none was expected.".to_string(),
        ]
    );
    let mut failures = Vec::new();
    validate_output(&mut failures, "1\n", &e);
    assert_eq!(failures, vec!["Missing expected output '2' (from source line 2).".to_string()]);
}
