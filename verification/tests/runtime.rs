use lox::ast_printer::AstPrinter;
use lox::native::ClockCallable;
use lox::resolver::{ClassType, FunctionType};
use lox::runtime::{bool_value, is_truthy, nil_value, LoxValue, TAG_BOOL, TAG_NIL, TAG_NUMBER, TAG_STRING};

#[test]
fn truthiness_of_values() {
    assert!(!is_truthy(nil_value()));
    assert!(!is_truthy(bool_value(false)));
    assert!(is_truthy(bool_value(true)));
    assert!(is_truthy(LoxValue { tag: TAG_NUMBER, bits: 0 }));
    assert!(is_truthy(LoxValue { tag: TAG_STRING, bits: 0 }));
    assert_eq!(bool_value(true), LoxValue { tag: TAG_BOOL, bits: 1 });
    assert_eq!(nil_value(), LoxValue { tag: TAG_NIL, bits: 0 });
}

#[test]
fn clock_native() {
    let clock = ClockCallable;
    assert_eq!(clock.arity(), 0);
    assert_eq!(clock.to_string(), "<fn clock>");
}

#[test]
fn kinds_compare() {
    assert_eq!(FunctionType::Method, FunctionType::Method);
    assert_ne!(FunctionType::Function, FunctionType::Initializer);
    assert_ne!(ClassType::Class, ClassType::Subclass);
    let _printer = AstPrinter::new();
}
