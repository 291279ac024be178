use lox::environment::Environment;
use lox::table::{position, table_get, table_put};
use lox::token::{bytes_concat, bytes_copy, bytes_eq};
use lox::value::Value;

fn text(s: &str) -> Vec<u8> {
    s.as_bytes().to_vec()
}

fn number(x: f64) -> Value {
    Value::Number(x.to_bits())
}

fn read(env: &Environment, name: &str) -> Option<f64> {
    match env.get(&text(name)) {
        Some(Value::Number(bits)) => Some(f64::from_bits(bits)),
        Some(other) => panic!("not a number: {:?}", other),
        None => None,
    }
}

#[test]
fn define_binds_in_the_current_scope_only() {
    let mut env = Environment::default();
    env.define(&text("x"), number(1.0));
    let mut env = env.child();
    env.define(&text("x"), number(2.0));
    env.define(&text("y"), number(3.0));
    assert_eq!(read(&env, "x"), Some(2.0));
    assert_eq!(env.scopes[0].bindings.len(), 1);
    assert_eq!(env.scopes[1].bindings.len(), 2);
    let env = env.into_parent().unwrap();
    assert_eq!(read(&env, "x"), Some(1.0));
    assert_eq!(read(&env, "y"), None);
}

#[test]
fn get_walks_outward_to_the_nearest_binding() {
    let mut env = Environment::default();
    env.define(&text("a"), number(1.0));
    env.define(&text("b"), number(2.0));
    let mut env = env.child();
    env.define(&text("b"), number(20.0));
    let env = env.child();
    assert_eq!(read(&env, "a"), Some(1.0));
    assert_eq!(read(&env, "b"), Some(20.0));
    assert_eq!(read(&env, "c"), None);
    assert_eq!(env.resolve(&text("a")), Some(0));
    assert_eq!(env.resolve(&text("b")), Some(1));
    assert_eq!(env.resolve(&text("c")), None);
}

#[test]
fn assign_overwrites_in_the_scope_that_owns_the_binding() {
    let mut env = Environment::default();
    env.define(&text("a"), number(1.0));
    let mut env = env.child();
    assert!(env.assign(&text("a"), number(5.0)));
    assert!(env.scopes[1].bindings.is_empty());
    let env = env.into_parent().unwrap();
    assert_eq!(read(&env, "a"), Some(5.0));
}

#[test]
fn assign_binds_nothing_new() {
    let mut env = Environment::default().child();
    assert!(!env.assign(&text("a"), number(5.0)));
    assert_eq!(read(&env, "a"), None);
    assert!(env.scopes[0].bindings.is_empty());
    assert!(env.scopes[1].bindings.is_empty());
}

#[test]
fn the_root_has_no_parent() {
    let env = Environment::default();
    assert_eq!(env.current, 0);
    assert!(env.scopes[0].parent.is_none());
    assert!(env.into_parent().is_none());
}

#[test]
fn child_and_into_parent_nest() {
    let env = Environment::default().child().child();
    assert_eq!(env.current, 2);
    assert_eq!(env.scopes[2].parent, Some(1));
    let env = env.into_parent().unwrap();
    assert_eq!(env.current, 1);
    assert_eq!(env.scopes.len(), 2);
    let env = env.into_parent().unwrap();
    assert_eq!(env.current, 0);
    assert_eq!(env.scopes.len(), 1);
    assert!(env.into_parent().is_none());
}

#[test]
fn a_captured_scope_outlives_its_exit() {
    let mut env = Environment::default().child();
    env.define(&text("kept"), number(1.0));
    assert_eq!(env.capture(), 1);
    let mut env = env.into_parent().unwrap();
    assert_eq!(env.current, 0);
    assert_eq!(env.scopes.len(), 2);
    assert!(env.scopes[1].captured);
    assert_eq!(read(&env, "kept"), None);
    let inner = env.enter(Some(1));
    assert_eq!(inner, 2);
    assert_eq!(read(&env, "kept"), Some(1.0));
    env.leave(inner, 0);
    assert_eq!(env.scopes.len(), 2);
    assert_eq!(env.current, 0);
}

#[test]
fn the_first_pair_of_a_name_is_its_entry() {
    let mut pairs = vec![(text("a"), number(1.0)), (text("b"), number(2.0)), (text("a"), number(3.0))];
    assert_eq!(position(&pairs, &text("a")), Some(0));
    assert_eq!(position(&pairs, &text("b")), Some(1));
    assert_eq!(position(&pairs, &text("c")), None);
    assert!(matches!(table_get(&pairs, &text("a")), Some(Value::Number(n)) if n == 1.0f64.to_bits()));
    assert!(table_get(&pairs, &text("c")).is_none());
    table_put(&mut pairs, &text("a"), number(9.0));
    assert_eq!(pairs.len(), 3);
    assert!(matches!(table_get(&pairs, &text("a")), Some(Value::Number(n)) if n == 9.0f64.to_bits()));
    table_put(&mut pairs, &text("c"), number(4.0));
    assert_eq!(pairs.len(), 4);
    assert_eq!(position(&pairs, &text("c")), Some(3));
}

#[test]
fn texts_are_compared_copied_and_joined_byte_by_byte() {
    assert!(bytes_eq(&text("abc"), &text("abc")));
    assert!(!bytes_eq(&text("abc"), &text("abd")));
    assert!(!bytes_eq(&text("abc"), &text("ab")));
    assert!(bytes_eq(&text(""), &text("")));
    assert_eq!(bytes_copy(&text("copy")), text("copy"));
    assert_eq!(bytes_concat(&text("left"), &text("right")), text("leftright"));
    assert_eq!(bytes_concat(&text(""), &text("")), text(""));
}
