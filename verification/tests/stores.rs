//! Values, frames, classes and instances.

use jasn::callable::{Callable, Instances, JasnClass, JasnFunction, JasnInstance, NativeFunction, Property};
use jasn::environment::{undefined_variable, Environment};
use jasn::error_handler::Error;
use jasn::statements::Function;
use jasn::token::{LiteralType, Token, TokenType};

fn name(lexeme: &str) -> Token {
    Token::new(TokenType::Identifier, lexeme.to_string(), LiteralType::Null, 3)
}

fn number(value: f64) -> LiteralType {
    LiteralType::Number(value.to_bits())
}

fn text(value: &str) -> LiteralType {
    LiteralType::String(value.to_string())
}

fn as_number(value: &LiteralType) -> f64 {
    match value {
        LiteralType::Number(bits) => f64::from_bits(*bits),
        other => panic!("not a number: {:?}", other),
    }
}

fn message(error: Error) -> (u32, String) {
    match error {
        Error::RuntimeError(line, message) => (line, message),
        other => panic!("not an error of the running program: {:?}", other),
    }
}

#[test]
fn only_false_and_null_are_falsy() {
    assert!(!LiteralType::Bool(false).is_truthy());
    assert!(!LiteralType::Null.is_truthy());
    assert!(LiteralType::Bool(true).is_truthy());
    assert!(number(0.0).is_truthy());
    assert!(text("").is_truthy());
    assert!(LiteralType::Array(vec![]).is_truthy());
    assert!(LiteralType::Callable(Callable::Class(0)).is_truthy());
}

#[test]
fn values_are_equal_by_content() {
    assert!(number(1.0).equals(&number(1.0)));
    assert!(number(0.0).equals(&number(-0.0)));
    assert!(!number(f64::NAN).equals(&number(f64::NAN)));
    assert!(!number(1.0).equals(&text("1")));
    assert!(text("a").equals(&text("a")));
    assert!(!text("a").equals(&text("b")));
    assert!(LiteralType::Null.equals(&LiteralType::Null));
    assert!(!LiteralType::Null.equals(&LiteralType::Bool(false)));
    assert!(LiteralType::Bool(true).equals(&LiteralType::Bool(true)));
    let nested = || LiteralType::Array(vec![number(1.0), LiteralType::Array(vec![text("x")])]);
    assert!(nested().equals(&nested()));
    assert!(!nested().equals(&LiteralType::Array(vec![number(1.0)])));
    assert!(!nested()
        .equals(&LiteralType::Array(vec![number(1.0), LiteralType::Array(vec![text("y")])])));
    assert!(!LiteralType::Array(vec![number(f64::NAN)])
        .equals(&LiteralType::Array(vec![number(f64::NAN)])));
    let native = |function| {
        LiteralType::Callable(Callable::NativeFunction(NativeFunction { arity: 1, function }))
    };
    assert!(native(2).equals(&native(2)));
    assert!(!native(2).equals(&native(3)));
    assert!(LiteralType::Callable(Callable::Instance(4))
        .equals(&LiteralType::Callable(Callable::Instance(4))));
    assert!(!LiteralType::Callable(Callable::Instance(4))
        .equals(&LiteralType::Callable(Callable::Class(4))));
}

#[test]
fn a_copy_has_the_same_content() {
    let value = LiteralType::Array(vec![number(2.0), text("two"), LiteralType::Array(vec![])]);
    let copy = value.duplicate();
    assert!(copy.equals(&value));
    assert_eq!(format!("{:?}", copy), format!("{:?}", value));
    let token = Token::new(TokenType::String, "\"s\"".to_string(), text("s"), 9);
    let copy = token.duplicate();
    assert_eq!(copy.token_type, TokenType::String);
    assert_eq!(copy.lexeme, "\"s\"");
    assert!(copy.literal.equals(&text("s")));
    assert_eq!(copy.line, 9);
}

#[test]
fn the_end_of_file_reports_the_line_before() {
    assert_eq!(name("x").get_line(), 3);
    assert_eq!(Token::new(TokenType::Eof, String::new(), LiteralType::Null, 3).get_line(), 2);
    assert_eq!(Token::new(TokenType::Eof, String::new(), LiteralType::Null, 0).get_line(), 0);
}

#[test]
fn lookup_walks_outward() {
    let mut store = Environment::new();
    assert_eq!(store.count(), 1);
    store.define(0, "a".to_string(), number(1.0));
    let inner = store.nest(0);
    let innermost = store.nest(inner);
    assert_eq!((inner, innermost), (1, 2));
    assert_eq!(store.parent(innermost), Some(inner));
    assert_eq!(store.parent(0), None);
    store.define(inner, "b".to_string(), number(2.0));
    assert_eq!(as_number(&store.get(innermost, &name("a")).unwrap()), 1.0);
    assert_eq!(as_number(&store.get(innermost, &name("b")).unwrap()), 2.0);
    assert_eq!(as_number(&store.get(0, &name("a")).unwrap()), 1.0);
    assert_eq!(
        message(store.get(0, &name("b")).unwrap_err()),
        (3, "Undefined variable 'b'".to_string())
    );
    assert!(store.defines(inner, &"b".to_string()));
    assert!(!store.defines(innermost, &"b".to_string()));
    assert_eq!(
        message(undefined_variable(&name("zed"))),
        (3, "Undefined variable 'zed'".to_string())
    );
}

#[test]
fn lookup_at_a_distance_reads_that_frame_only() {
    let mut store = Environment::new();
    store.define(0, "a".to_string(), number(1.0));
    let inner = store.nest(0);
    store.define(inner, "a".to_string(), number(2.0));
    let key = "a".to_string();
    assert_eq!(as_number(&store.get_at(inner, 0, &key).unwrap()), 2.0);
    assert_eq!(as_number(&store.get_at(inner, 1, &key).unwrap()), 1.0);
    assert_eq!(
        message(store.get_at(inner, 2, &key).unwrap_err()),
        (0, "Environment not found".to_string())
    );
    assert_eq!(
        message(store.get_at(inner, 0, &"b".to_string()).unwrap_err()),
        (0, "Variable not found 'b'".to_string())
    );
}

#[test]
fn a_definition_in_a_nested_frame_shadows() {
    let mut store = Environment::new();
    store.define(0, "a".to_string(), number(1.0));
    let inner = store.nest(0);
    store.define(inner, "a".to_string(), number(2.0));
    assert_eq!(as_number(&store.get(inner, &name("a")).unwrap()), 2.0);
    assert_eq!(as_number(&store.get(0, &name("a")).unwrap()), 1.0);
}

#[test]
fn a_definition_replaces_the_earlier_one() {
    let mut store = Environment::new();
    store.define(0, "a".to_string(), number(1.0));
    store.define(0, "a".to_string(), text("again"));
    assert!(store.get(0, &name("a")).unwrap().equals(&text("again")));
}

#[test]
fn assignment_is_seen_through_every_chain_that_shares_the_frame() {
    let mut store = Environment::new();
    let shared = store.nest(0);
    store.define(shared, "n".to_string(), number(0.0));
    let writer = store.nest(shared);
    let reader = store.nest(shared);
    assert!(store.assign(writer, &name("n"), number(5.0)).is_ok());
    assert_eq!(as_number(&store.get(reader, &name("n")).unwrap()), 5.0);
    assert_eq!(as_number(&store.get(shared, &name("n")).unwrap()), 5.0);
    assert!(!store.defines(writer, &"n".to_string()));
}

#[test]
fn assignment_to_an_unbound_name_changes_nothing() {
    let mut store = Environment::new();
    let inner = store.nest(0);
    let error = store.assign(inner, &name("n"), number(5.0)).unwrap_err();
    assert_eq!(message(error), (3, "Undefined variable 'n'".to_string()));
    assert!(!store.defines(inner, &"n".to_string()));
    assert!(!store.defines(0, &"n".to_string()));
}

#[test]
fn assignment_at_a_distance_binds_in_that_frame() {
    let mut store = Environment::new();
    let inner = store.nest(0);
    let innermost = store.nest(inner);
    assert!(store.assign_at(innermost, 1, &name("n"), number(5.0)).is_ok());
    assert!(store.defines(inner, &"n".to_string()));
    assert!(!store.defines(innermost, &"n".to_string()));
    assert!(!store.defines(0, &"n".to_string()));
    let error = store.assign_at(innermost, 3, &name("n"), number(6.0)).unwrap_err();
    assert_eq!(message(error), (0, "Environment not found".to_string()));
    assert_eq!(as_number(&store.get(innermost, &name("n")).unwrap()), 5.0);
}

fn method(lexeme: &str) -> Function {
    Function { name: name(lexeme), params: vec![], body: vec![] }
}

#[test]
fn a_class_finds_its_methods_by_name() {
    let first = method("area");
    let second = method("name");
    let third = method("area");
    let class = JasnClass::new(
        "Shape".to_string(),
        vec![
            JasnFunction { declaration: &first, closure: 0 },
            JasnFunction { declaration: &second, closure: 1 },
            JasnFunction { declaration: &third, closure: 2 },
        ],
    );
    assert_eq!(class.name, "Shape");
    // Of two methods with one name, the later one counts.
    assert_eq!(class.find_method(&"area".to_string()).unwrap().closure, 2);
    assert_eq!(class.find_method(&"name".to_string()).unwrap().closure, 1);
    assert!(class.find_method(&"missing".to_string()).is_none());
}

#[test]
fn an_instance_reads_fields_before_methods() {
    let shown = method("show");
    let class =
        JasnClass::new("Thing".to_string(), vec![JasnFunction { declaration: &shown, closure: 4 }]);
    let mut instance = JasnInstance::new(7);
    assert_eq!(instance.class, 7);
    match instance.get(&name("show"), &class) {
        Ok(Property::Method(found)) => assert_eq!(found.closure, 4),
        other => panic!("unexpected property: {:?}", other),
    }
    instance.set(&"show".to_string(), number(1.0));
    match instance.get(&name("show"), &class) {
        Ok(Property::Field(value)) => assert_eq!(as_number(&value), 1.0),
        other => panic!("unexpected property: {:?}", other),
    }
    instance.set(&"show".to_string(), number(2.0));
    match instance.get(&name("show"), &class) {
        Ok(Property::Field(value)) => assert_eq!(as_number(&value), 2.0),
        other => panic!("unexpected property: {:?}", other),
    }
    match instance.get(&name("other"), &class) {
        Err(error) => assert_eq!(message(error), (3, "Undefined property 'other'".to_string())),
        other => panic!("unexpected property: {:?}", other),
    }
    let end = Token::new(TokenType::Eof, "other".to_string(), LiteralType::Null, 3);
    match instance.get(&end, &class) {
        Err(error) => assert_eq!(message(error), (2, "Undefined property 'other'".to_string())),
        other => panic!("unexpected property: {:?}", other),
    }
}

#[test]
fn instances_of_one_class_do_not_share_fields() {
    let class = JasnClass::new("Point".to_string(), vec![]);
    let mut instances = Instances::new();
    let first = instances.create(0);
    let second = instances.create(0);
    assert_eq!((first, second, instances.count()), (0, 1, 2));
    assert_eq!(instances.class(first), 0);
    instances.set(first, &"x".to_string(), number(1.0));
    assert!(matches!(instances.get(second, &name("x"), &class), Err(_)));
    instances.set(second, &"x".to_string(), number(2.0));
    instances.set(first, &"x".to_string(), number(3.0));
    match instances.get(first, &name("x"), &class) {
        Ok(Property::Field(value)) => assert_eq!(as_number(&value), 3.0),
        other => panic!("unexpected property: {:?}", other),
    }
    match instances.get(second, &name("x"), &class) {
        Ok(Property::Field(value)) => assert_eq!(as_number(&value), 2.0),
        other => panic!("unexpected property: {:?}", other),
    }
}
