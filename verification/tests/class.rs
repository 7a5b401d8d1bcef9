use lox::class::{Class, Instance, Property};
use lox::token::Token;

fn class(name: &str, superclass: Option<Class<u32>>, methods: &[(&str, u32)]) -> Class<u32> {
    Class::new(
        name.to_string(),
        superclass.map(Box::new),
        methods.iter().map(|(n, m)| (n.to_string(), *m)).collect(),
    )
}

#[test]
fn methods_are_found_up_the_chain() {
    let base = class("Base", None, &[("a", 1), ("b", 2)]);
    let derived = class("Derived", Some(base), &[("b", 20), ("c", 30)]);
    assert_eq!(derived.find_method("a"), Some(1));
    assert_eq!(derived.find_method("b"), Some(20));
    assert_eq!(derived.find_method("c"), Some(30));
    assert_eq!(derived.find_method("d"), None);
    assert_eq!(derived.to_string(), "<class Derived>");
    assert_eq!(derived.name(), "Derived");
    let copy = derived.clone();
    assert_eq!(copy.find_method("a"), Some(1));
    assert_eq!(copy.name(), "Derived");
}

#[test]
fn instance_fields_shadow_methods() {
    let c = class("Point", None, &[("len", 7)]);
    let mut p: Instance<u32, String> = Instance::new(&c);
    assert_eq!(p.to_string(), "Point instance");
    assert!(matches!(p.get(&Token::identifier("len")), Ok(Property::Method(7))));
    p.set(&Token::identifier("len"), "field".to_string());
    assert!(matches!(p.get(&Token::identifier("len")), Ok(Property::Field(ref s)) if s == "field"));
    match p.get(&Token::identifier("nope")) {
        Err(e) => assert_eq!(e.message, "Undefined property 'nope'."),
        Ok(_) => panic!("expected an error"),
    }
}

#[test]
fn instances_have_only_the_class_own_methods() {
    let base = class("Base", None, &[("inherited", 1)]);
    let derived = class("Derived", Some(base), &[("own", 2)]);
    let i: Instance<u32, u32> = Instance::new(&derived);
    assert!(matches!(i.get(&Token::identifier("own")), Ok(Property::Method(2))));
    assert!(i.get(&Token::identifier("inherited")).is_err());
}
