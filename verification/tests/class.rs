use lox::class::{init_text, this_text};
use lox::token::{Token, TokenType};
use lox::value::{LoxClass, LoxFn, LoxInstance, Stmt};
use std::rc::Rc;

fn text(s: &str) -> Vec<u8> {
    s.as_bytes().to_vec()
}

fn method(name: &str, params: &[&str]) -> LoxFn {
    let params = params.iter().map(|p| Token::new(TokenType::Identifier, text(p), 1)).collect();
    LoxFn::new(text(name), params, Vec::<Stmt>::new())
}

fn base() -> Rc<LoxClass> {
    Rc::new(LoxClass::new(
        text("Base"),
        None,
        vec![(text("init"), method("init", &["a", "b"])), (text("hello"), method("hello", &[]))],
    ))
}

fn derived(parent: &Rc<LoxClass>) -> LoxClass {
    LoxClass::new(
        text("Derived"),
        Some(Rc::clone(parent)),
        vec![(text("hello"), method("hello", &["x"])), (text("bye"), method("bye", &[]))],
    )
}

#[test]
fn new_keeps_what_it_is_given() {
    let parent = base();
    let class = derived(&parent);
    assert_eq!(class.name, text("Derived"));
    assert!(Rc::ptr_eq(class.superclass.as_ref().unwrap(), &parent));
    assert_eq!(class.methods.len(), 2);
    assert!(parent.superclass.is_none());
}

#[test]
fn find_method_binds_an_own_method_to_the_instance() {
    let parent = base();
    let class = derived(&parent);
    let instance = LoxInstance { id: 3 };
    let m = class.find_method(&instance, &text("bye")).unwrap();
    assert_eq!(m.receiver, Some(instance));
    assert_eq!(m.decl.name, text("bye"));
    assert!(Rc::ptr_eq(&m.decl, &class.methods[1].1.decl));
    assert_eq!(m.closure, 0);
}

#[test]
fn find_method_prefers_the_class_over_its_superclass() {
    let parent = base();
    let class = derived(&parent);
    let m = class.find_method(&LoxInstance { id: 0 }, &text("hello")).unwrap();
    assert_eq!(m.arity(), 1);
    assert!(Rc::ptr_eq(&m.decl, &class.methods[0].1.decl));
}

#[test]
fn find_method_goes_up_the_chain_with_the_same_instance() {
    let parent = base();
    let middle = Rc::new(derived(&parent));
    let leaf = LoxClass::new(text("Leaf"), Some(Rc::clone(&middle)), vec![]);
    let instance = LoxInstance { id: 9 };
    let m = leaf.find_method(&instance, &text("init")).unwrap();
    assert_eq!(m.receiver, Some(instance));
    assert_eq!(m.arity(), 2);
    assert!(Rc::ptr_eq(&m.decl, &parent.methods[0].1.decl));
    let m = leaf.find_method(&instance, &text("bye")).unwrap();
    assert!(Rc::ptr_eq(&m.decl, &middle.methods[1].1.decl));
}

#[test]
fn find_method_finds_nothing_where_the_chain_has_no_such_method() {
    let parent = base();
    let class = derived(&parent);
    assert!(class.find_method(&LoxInstance { id: 0 }, &text("nope")).is_none());
    assert!(parent.find_method(&LoxInstance { id: 0 }, &text("bye")).is_none());
    assert!(class.find_own_method(&text("init")).is_none());
    assert!(parent.find_own_method(&text("init")).is_some());
}

#[test]
fn two_lookups_give_two_functions_with_one_body_and_one_receiver() {
    let parent = base();
    let instance = LoxInstance { id: 1 };
    let a = parent.find_method(&instance, &text("hello")).unwrap();
    let b = parent.find_method(&instance, &text("hello")).unwrap();
    assert!(Rc::ptr_eq(&a.decl, &b.decl));
    assert_eq!(a.receiver, b.receiver);
}

#[test]
fn the_arity_of_a_class_is_that_of_its_own_init() {
    let parent = base();
    assert_eq!(parent.arity(), 2);
    assert_eq!(derived(&parent).arity(), 0);
    assert_eq!(LoxClass::new(text("Empty"), None, vec![]).arity(), 0);
}

#[test]
fn bind_keeps_the_declaration_and_the_scope() {
    let f = method("m", &["p"]);
    let g = f.bind(LoxInstance { id: 5 });
    assert!(f.receiver.is_none());
    assert_eq!(g.receiver, Some(LoxInstance { id: 5 }));
    assert_eq!(g.closure, f.closure);
    assert!(Rc::ptr_eq(&f.decl, &g.decl));
    let h = g.bind(LoxInstance { id: 6 });
    assert_eq!(h.receiver, Some(LoxInstance { id: 6 }));
    assert!(Rc::ptr_eq(&f.decl, &h.duplicate().decl));
}

#[test]
fn the_reserved_names() {
    assert_eq!(init_text(), text("init"));
    assert_eq!(this_text(), text("this"));
}
