use lox::display::Shown;
use lox::error::{decimal_text, ErrorKind, LoxError};
use lox::interpreter::{apply_binary, apply_unary, is_equal, is_truthy, Interpreter};
use lox::token::{Token, TokenType};
use lox::value::{Callable, Expr, LoxClass, LoxFn, LoxInstance, Stmt, Target, Value};
use std::rc::Rc;

fn text(s: &str) -> Vec<u8> {
    s.as_bytes().to_vec()
}

fn tok(ty: TokenType, lexeme: &str) -> Token {
    Token::new(ty, text(lexeme), 1)
}

fn ident(name: &str) -> Token {
    tok(TokenType::Identifier, name)
}

fn num(x: f64) -> Expr {
    Expr::Literal(Value::Number(x.to_bits()))
}

fn string(s: &str) -> Expr {
    Expr::Literal(Value::String(text(s)))
}

fn boolean(b: bool) -> Expr {
    Expr::Literal(Value::Bool(b))
}

fn nil() -> Expr {
    Expr::Literal(Value::Nil)
}

fn var(name: &str) -> Expr {
    Expr::Variable(ident(name))
}

fn assign(name: &str, value: Expr) -> Expr {
    Expr::Assign(ident(name), Box::new(value))
}

fn binary(left: Expr, ty: TokenType, lexeme: &str, right: Expr) -> Expr {
    Expr::Binary(Box::new(left), tok(ty, lexeme), Box::new(right))
}

fn plus(left: Expr, right: Expr) -> Expr {
    binary(left, TokenType::Plus, "+", right)
}

fn logical(left: Expr, ty: TokenType, lexeme: &str, right: Expr) -> Expr {
    Expr::Logical(Box::new(left), tok(ty, lexeme), Box::new(right))
}

fn unary(ty: TokenType, lexeme: &str, right: Expr) -> Expr {
    Expr::Unary(tok(ty, lexeme), Box::new(right))
}

fn call(callee: Expr, args: Vec<Expr>) -> Expr {
    Expr::Call(Box::new(callee), tok(TokenType::RightParen, ")"), args)
}

fn get(object: Expr, name: &str) -> Expr {
    Expr::GetField(Box::new(object), ident(name))
}

fn set(object: Expr, name: &str, value: Expr) -> Expr {
    Expr::SetField(Box::new(object), ident(name), Box::new(value))
}

fn declare(name: &str, value: Expr) -> Stmt {
    Stmt::Var(ident(name), value)
}

fn number_of(v: &Value) -> f64 {
    match v {
        Value::Number(bits) => f64::from_bits(*bits),
        other => panic!("not a number: {:?}", other),
    }
}

fn text_of(v: &Value) -> String {
    match v {
        Value::String(t) => String::from_utf8(t.clone()).unwrap(),
        other => panic!("not a string: {:?}", other),
    }
}

fn printed_number(form: &Shown) -> f64 {
    match form {
        Shown::Number(bits) => f64::from_bits(*bits),
        other => panic!("not a number: {:?}", other),
    }
}

fn printed_text(form: &Shown) -> String {
    match form {
        Shown::Text(t) => String::from_utf8(t.clone()).unwrap(),
        other => panic!("not text: {:?}", other),
    }
}

fn instance_of(v: &Value) -> LoxInstance {
    match v {
        Value::Instance(i) => *i,
        other => panic!("not an instance: {:?}", other),
    }
}

fn define_global(interp: &mut Interpreter, name: &str, value: Value) {
    interp.environment.define(&text(name), value);
}

fn function(name: &str, params: Vec<&str>, body: Vec<Stmt>) -> LoxFn {
    LoxFn::new(text(name), params.into_iter().map(ident).collect(), body)
}

fn class_value(interp: &mut Interpreter, class: &Rc<LoxClass>) -> Value {
    interp.callable(Target::Class(Rc::clone(class))).unwrap()
}

/// class A { init(v) { this.v = v; } twice() { this.v = this.v + this.v; } }
fn class_a() -> Rc<LoxClass> {
    let init = function(
        "init",
        vec!["v"],
        vec![Stmt::Expr(set(var("this"), "v", var("v")))],
    );
    let twice = function(
        "twice",
        vec![],
        vec![Stmt::Expr(set(
            var("this"),
            "v",
            plus(get(var("this"), "v"), get(var("this"), "v")),
        ))],
    );
    Rc::new(LoxClass::new(
        text("A"),
        None,
        vec![(text("init"), init), (text("twice"), twice)],
    ))
}

#[test]
fn one_plus_one_evaluates_to_two() {
    let mut interp = Interpreter::default();
    let v = interp.evaluate(&plus(num(1.0), num(1.0))).unwrap();
    assert_eq!(number_of(&v), 2.0);
}

#[test]
fn two_strings_concatenate() {
    let mut interp = Interpreter::default();
    let v = interp.evaluate(&plus(string("a"), string("b"))).unwrap();
    assert_eq!(text_of(&v), "ab");
}

#[test]
fn a_number_plus_a_string_is_a_type_error() {
    let mut interp = Interpreter::default();
    let e = interp.evaluate(&plus(num(1.0), string("a"))).unwrap_err();
    assert_eq!(e.kind, ErrorKind::ExpectedNumbersOrStrings);
    assert_eq!(e.token, tok(TokenType::Plus, "+"));
    let e = interp.evaluate(&plus(string("a"), nil())).unwrap_err();
    assert_eq!(e.kind, ErrorKind::ExpectedNumbersOrStrings);
}

#[test]
fn arithmetic_follows_the_doubles() {
    let mut interp = Interpreter::default();
    let v = interp.evaluate(&binary(num(7.0), TokenType::Minus, "-", num(0.5))).unwrap();
    assert_eq!(number_of(&v), 6.5);
    let v = interp.evaluate(&binary(num(1.0), TokenType::Slash, "/", num(3.0))).unwrap();
    assert_eq!(number_of(&v), 1.0 / 3.0);
    let v = interp.evaluate(&binary(num(0.1), TokenType::Star, "*", num(3.0))).unwrap();
    assert_eq!(number_of(&v), 0.1 * 3.0);
    let v = interp.evaluate(&plus(num(0.1), num(0.2))).unwrap();
    assert_eq!(number_of(&v), 0.1 + 0.2);
    let v = interp.evaluate(&binary(num(1.0), TokenType::Slash, "/", num(0.0))).unwrap();
    assert_eq!(number_of(&v), f64::INFINITY);
}

#[test]
fn arithmetic_on_what_is_no_number_is_a_type_error() {
    let mut interp = Interpreter::default();
    for (ty, lexeme) in [
        (TokenType::Minus, "-"),
        (TokenType::Slash, "/"),
        (TokenType::Star, "*"),
        (TokenType::Greater, ">"),
        (TokenType::GreaterEqual, ">="),
        (TokenType::Less, "<"),
        (TokenType::LessEqual, "<="),
    ] {
        let e = interp.evaluate(&binary(num(1.0), ty, lexeme, string("a"))).unwrap_err();
        assert_eq!(e.kind, ErrorKind::ExpectedNumber);
        assert_eq!(e.token, tok(ty, lexeme));
        let e = interp.evaluate(&binary(nil(), ty, lexeme, num(1.0))).unwrap_err();
        assert_eq!(e.kind, ErrorKind::ExpectedNumber);
    }
}

#[test]
fn comparisons_give_booleans() {
    let mut interp = Interpreter::default();
    let cases = [
        (TokenType::Greater, ">", 2.0, 1.0, true),
        (TokenType::Greater, ">", 1.0, 1.0, false),
        (TokenType::GreaterEqual, ">=", 1.0, 1.0, true),
        (TokenType::GreaterEqual, ">=", 0.5, 1.0, false),
        (TokenType::Less, "<", 1.0, 2.0, true),
        (TokenType::Less, "<", 2.0, 2.0, false),
        (TokenType::LessEqual, "<=", 2.0, 2.0, true),
        (TokenType::LessEqual, "<=", 3.0, 2.0, false),
        (TokenType::Less, "<", f64::NAN, 2.0, false),
        (TokenType::GreaterEqual, ">=", f64::NAN, f64::NAN, false),
    ];
    for (ty, lexeme, a, b, want) in cases {
        let v = interp.evaluate(&binary(num(a), ty, lexeme, num(b))).unwrap();
        assert!(matches!(v, Value::Bool(x) if x == want), "{} {} {}", a, lexeme, b);
    }
}

#[test]
fn equality_never_fails_and_crosses_variants() {
    let mut interp = Interpreter::default();
    let eq = |l: Expr, r: Expr| binary(l, TokenType::EqualEqual, "==", r);
    let ne = |l: Expr, r: Expr| binary(l, TokenType::BangEqual, "!=", r);
    assert!(matches!(interp.evaluate(&eq(nil(), nil())).unwrap(), Value::Bool(true)));
    assert!(matches!(interp.evaluate(&eq(num(1.0), num(1.0))).unwrap(), Value::Bool(true)));
    assert!(matches!(interp.evaluate(&eq(num(0.0), num(-0.0))).unwrap(), Value::Bool(true)));
    assert!(matches!(interp.evaluate(&eq(num(1.0), string("1"))).unwrap(), Value::Bool(false)));
    assert!(matches!(interp.evaluate(&ne(num(1.0), string("1"))).unwrap(), Value::Bool(true)));
    assert!(matches!(interp.evaluate(&eq(string("ab"), string("ab"))).unwrap(), Value::Bool(true)));
    assert!(matches!(interp.evaluate(&eq(string("ab"), string("ac"))).unwrap(), Value::Bool(false)));
    assert!(matches!(interp.evaluate(&eq(boolean(false), nil())).unwrap(), Value::Bool(false)));
    assert!(matches!(interp.evaluate(&ne(boolean(true), boolean(true))).unwrap(), Value::Bool(false)));
}

#[test]
fn every_value_but_a_nan_equals_itself() {
    let mut interp = Interpreter::default();
    let class = class_a();
    let c = class_value(&mut interp, &class);
    let f = interp.callable(Target::Function(function("f", vec![], vec![]))).unwrap();
    let i = Value::Instance(interp.instantiate(&class));
    let values = vec![
        Value::Nil,
        Value::Bool(true),
        Value::Bool(false),
        Value::Number(0.0f64.to_bits()),
        Value::Number(f64::INFINITY.to_bits()),
        Value::String(text("")),
        Value::String(text("abc")),
        c,
        f,
        i,
    ];
    for v in &values {
        assert!(is_equal(v.duplicate(), v.duplicate()), "{:?}", v);
    }
    for (i, v) in values.iter().enumerate() {
        for (j, w) in values.iter().enumerate() {
            if i != j {
                assert!(!is_equal(v.duplicate(), w.duplicate()), "{:?} {:?}", v, w);
            }
        }
    }
    let nan = Value::Number(f64::NAN.to_bits());
    assert!(!is_equal(nan.duplicate(), nan));
}

#[test]
fn truthiness_is_false_only_of_nil_and_false() {
    assert!(!is_truthy(&Value::Nil));
    assert!(!is_truthy(&Value::Bool(false)));
    assert!(is_truthy(&Value::Bool(true)));
    assert!(is_truthy(&Value::Number(0.0f64.to_bits())));
    assert!(is_truthy(&Value::String(text(""))));
    assert!(is_truthy(&Value::Instance(LoxInstance { id: 0 })));
}

#[test]
fn unary_operators() {
    let mut interp = Interpreter::default();
    let v = interp.evaluate(&unary(TokenType::Minus, "-", num(2.5))).unwrap();
    assert_eq!(number_of(&v), -2.5);
    let v = interp.evaluate(&unary(TokenType::Bang, "!", nil())).unwrap();
    assert!(matches!(v, Value::Bool(true)));
    let v = interp.evaluate(&unary(TokenType::Bang, "!", num(0.0))).unwrap();
    assert!(matches!(v, Value::Bool(false)));
    let e = interp.evaluate(&unary(TokenType::Minus, "-", string("a"))).unwrap_err();
    assert_eq!(e.kind, ErrorKind::ExpectedNumber);
    assert_eq!(e.token, tok(TokenType::Minus, "-"));
}

#[test]
fn an_operator_node_with_another_token_fails() {
    let mut interp = Interpreter::default();
    let e = interp.evaluate(&binary(num(1.0), TokenType::Comma, ",", num(2.0))).unwrap_err();
    assert_eq!(e.kind, ErrorKind::UnexpectedToken);
    let e = interp.evaluate(&unary(TokenType::Plus, "+", num(2.0))).unwrap_err();
    assert_eq!(e.kind, ErrorKind::UnexpectedToken);
    let e = interp.evaluate(&logical(num(1.0), TokenType::Plus, "+", num(2.0))).unwrap_err();
    assert_eq!(e.kind, ErrorKind::UnexpectedToken);
    assert!(apply_binary(&tok(TokenType::Dot, "."), Value::Nil, Value::Nil).is_err());
    assert!(apply_unary(&tok(TokenType::Dot, "."), Value::Nil).is_err());
}

#[test]
fn grouping_and_literal_give_the_value() {
    let mut interp = Interpreter::default();
    let v = interp.evaluate(&Expr::Grouping(Box::new(string("x")))).unwrap();
    assert_eq!(text_of(&v), "x");
    assert!(matches!(interp.evaluate(&nil()).unwrap(), Value::Nil));
}

#[test]
fn and_gives_the_left_operand_when_it_is_falsy() {
    let mut interp = Interpreter::default();
    define_global(&mut interp, "x", Value::Number(0.0f64.to_bits()));
    let e = logical(nil(), TokenType::And, "and", assign("x", num(1.0)));
    assert!(matches!(interp.evaluate(&e).unwrap(), Value::Nil));
    assert_eq!(number_of(&interp.evaluate(&var("x")).unwrap()), 0.0);
    let e = logical(boolean(false), TokenType::And, "and", num(1.0));
    assert!(matches!(interp.evaluate(&e).unwrap(), Value::Bool(false)));
}

#[test]
fn and_gives_the_right_operand_when_the_left_is_truthy() {
    let mut interp = Interpreter::default();
    define_global(&mut interp, "x", Value::Number(0.0f64.to_bits()));
    let e = logical(num(5.0), TokenType::And, "and", assign("x", num(1.0)));
    assert_eq!(number_of(&interp.evaluate(&e).unwrap()), 1.0);
    assert_eq!(number_of(&interp.evaluate(&var("x")).unwrap()), 1.0);
}

#[test]
fn or_gives_the_left_operand_when_it_is_truthy() {
    let mut interp = Interpreter::default();
    define_global(&mut interp, "x", Value::Number(0.0f64.to_bits()));
    let e = logical(string("yes"), TokenType::Or, "or", assign("x", num(1.0)));
    assert_eq!(text_of(&interp.evaluate(&e).unwrap()), "yes");
    assert_eq!(number_of(&interp.evaluate(&var("x")).unwrap()), 0.0);
}

#[test]
fn or_gives_the_right_operand_when_the_left_is_falsy() {
    let mut interp = Interpreter::default();
    let e = logical(nil(), TokenType::Or, "or", string("no"));
    assert_eq!(text_of(&interp.evaluate(&e).unwrap()), "no");
    let e = logical(boolean(false), TokenType::Or, "or", nil());
    assert!(matches!(interp.evaluate(&e).unwrap(), Value::Nil));
}

#[test]
fn block_scoped_shadowing_does_not_leak() {
    let mut interp = Interpreter::default();
    interp.execute(&declare("x", num(1.0))).unwrap();
    interp.execute(&Stmt::Block(vec![declare("x", num(2.0)), Stmt::Print(var("x"))])).unwrap();
    interp.execute(&Stmt::Print(var("x"))).unwrap();
    let out = interp.take_output();
    assert_eq!(out.len(), 2);
    assert_eq!(printed_number(&out[0]), 2.0);
    assert_eq!(printed_number(&out[1]), 1.0);
    assert!(interp.take_output().is_empty());
}

#[test]
fn a_block_sees_and_assigns_the_enclosing_scope() {
    let mut interp = Interpreter::default();
    interp.execute(&declare("x", num(1.0))).unwrap();
    interp
        .execute(&Stmt::Block(vec![
            Stmt::Expr(assign("x", plus(var("x"), num(1.0)))),
            declare("y", num(5.0)),
        ]))
        .unwrap();
    assert_eq!(number_of(&interp.evaluate(&var("x")).unwrap()), 2.0);
    let e = interp.evaluate(&var("y")).unwrap_err();
    assert_eq!(e.kind, ErrorKind::UndefinedVariable);
    assert_eq!(e.token, ident("y"));
}

#[test]
fn a_block_that_fails_restores_the_scope() {
    let mut interp = Interpreter::default();
    interp.execute(&declare("x", num(1.0))).unwrap();
    let block = Stmt::Block(vec![
        declare("x", num(2.0)),
        Stmt::Block(vec![declare("x", num(3.0)), Stmt::Expr(var("missing"))]),
        Stmt::Print(var("x")),
    ]);
    let e = interp.execute(&block).unwrap_err();
    assert_eq!(e.kind, ErrorKind::UndefinedVariable);
    assert_eq!(interp.environment.current, 0);
    assert_eq!(interp.environment.scopes.len(), 1);
    assert_eq!(number_of(&interp.evaluate(&var("x")).unwrap()), 1.0);
    assert!(interp.take_output().is_empty());
}

#[test]
fn redefining_a_name_in_one_scope_overwrites_it() {
    let mut interp = Interpreter::default();
    interp.execute(&declare("x", num(1.0))).unwrap();
    interp.execute(&declare("x", string("again"))).unwrap();
    assert_eq!(text_of(&interp.evaluate(&var("x")).unwrap()), "again");
    assert_eq!(interp.environment.scopes[0].bindings.len(), 1);
}

#[test]
fn assigning_an_undeclared_name_fails() {
    let mut interp = Interpreter::default();
    let e = interp.execute(&Stmt::Expr(assign("x", num(1.0)))).unwrap_err();
    assert_eq!(e.kind, ErrorKind::UndefinedVariable);
    assert_eq!(e.token, ident("x"));
    assert!(interp.evaluate(&var("x")).is_err());
}

#[test]
fn assignment_is_an_expression_with_the_assigned_value() {
    let mut interp = Interpreter::default();
    interp.execute(&declare("a", nil())).unwrap();
    interp.execute(&declare("b", nil())).unwrap();
    let v = interp.evaluate(&assign("a", assign("b", num(4.0)))).unwrap();
    assert_eq!(number_of(&v), 4.0);
    assert_eq!(number_of(&interp.evaluate(&var("a")).unwrap()), 4.0);
    assert_eq!(number_of(&interp.evaluate(&var("b")).unwrap()), 4.0);
}

#[test]
fn operands_are_evaluated_from_left_to_right() {
    let mut interp = Interpreter::default();
    interp.execute(&declare("x", num(1.0))).unwrap();
    let e = binary(
        assign("x", num(10.0)),
        TokenType::Minus,
        "-",
        assign("x", plus(var("x"), num(1.0))),
    );
    assert_eq!(number_of(&interp.evaluate(&e).unwrap()), -1.0);
    assert_eq!(number_of(&interp.evaluate(&var("x")).unwrap()), 11.0);
}

#[test]
fn the_right_operand_is_evaluated_before_the_types_are_checked() {
    let mut interp = Interpreter::default();
    interp.execute(&declare("x", num(1.0))).unwrap();
    let e = binary(string("a"), TokenType::Minus, "-", assign("x", num(2.0)));
    assert_eq!(interp.evaluate(&e).unwrap_err().kind, ErrorKind::ExpectedNumber);
    assert_eq!(number_of(&interp.evaluate(&var("x")).unwrap()), 2.0);
}

#[test]
fn if_takes_the_branch_of_the_condition() {
    let mut interp = Interpreter::default();
    let stmt = |c: Expr| {
        Stmt::If(
            c,
            Box::new(Stmt::Print(string("then"))),
            Some(Box::new(Stmt::Print(string("else")))),
        )
    };
    interp.execute(&stmt(num(0.0))).unwrap();
    interp.execute(&stmt(nil())).unwrap();
    interp.execute(&Stmt::If(boolean(false), Box::new(Stmt::Print(string("never"))), None)).unwrap();
    let out = interp.take_output();
    assert_eq!(out.len(), 2);
    assert_eq!(printed_text(&out[0]), "then");
    assert_eq!(printed_text(&out[1]), "else");
}

#[test]
fn while_false_runs_the_body_zero_times() {
    let mut interp = Interpreter::default();
    let body = Stmt::Block(vec![Stmt::Print(string("ran")), Stmt::Expr(var("missing"))]);
    interp.execute(&Stmt::While(boolean(false), Box::new(body))).unwrap();
    assert!(interp.take_output().is_empty());
    assert_eq!(interp.environment.scopes.len(), 1);
}

#[test]
fn while_repeats_until_the_condition_is_falsy() {
    let mut interp = Interpreter::default();
    interp.execute(&declare("i", num(0.0))).unwrap();
    interp.execute(&declare("sum", num(0.0))).unwrap();
    let body = Stmt::Block(vec![
        Stmt::Expr(assign("i", plus(var("i"), num(1.0)))),
        Stmt::Expr(assign("sum", plus(var("sum"), var("i")))),
    ]);
    let cond = binary(var("i"), TokenType::Less, "<", num(1000.0));
    interp.execute(&Stmt::While(cond, Box::new(body))).unwrap();
    assert_eq!(number_of(&interp.evaluate(&var("sum")).unwrap()), 500500.0);
    assert_eq!(interp.environment.scopes.len(), 1);
}

#[test]
fn an_error_in_the_body_aborts_the_loop() {
    let mut interp = Interpreter::default();
    interp.execute(&declare("i", num(0.0))).unwrap();
    let body = Stmt::Block(vec![
        Stmt::Expr(assign("i", plus(var("i"), num(1.0)))),
        Stmt::If(
            binary(var("i"), TokenType::EqualEqual, "==", num(3.0)),
            Box::new(Stmt::Expr(unary(TokenType::Minus, "-", nil()))),
            None,
        ),
    ]);
    let e = interp.execute(&Stmt::While(boolean(true), Box::new(body))).unwrap_err();
    assert_eq!(e.kind, ErrorKind::ExpectedNumber);
    assert_eq!(number_of(&interp.evaluate(&var("i")).unwrap()), 3.0);
    assert_eq!(interp.environment.current, 0);
}

#[test]
fn a_loop_without_end_uses_up_the_limit() {
    let mut interp = Interpreter::with_limit(100);
    interp.execute(&declare("i", num(0.0))).unwrap();
    let body = Stmt::Expr(assign("i", plus(var("i"), num(1.0))));
    let e = interp.execute(&Stmt::While(boolean(true), Box::new(body))).unwrap_err();
    assert_eq!(e.kind, ErrorKind::Exhausted);
    assert_eq!(e.token, Token::new(TokenType::While, text("while"), 0));
    assert_eq!(number_of(&interp.evaluate(&var("i")).unwrap()), 101.0);
}

#[test]
fn a_function_runs_its_body_with_its_parameters_and_gives_nil() {
    let mut interp = Interpreter::default();
    let f = function("show", vec!["a", "b"], vec![Stmt::Print(plus(var("a"), var("b")))]);
    let f = interp.callable(Target::Function(f)).unwrap();
    define_global(&mut interp, "show", f);
    let v = interp.evaluate(&call(var("show"), vec![num(1.0), num(2.0)])).unwrap();
    assert!(matches!(v, Value::Nil));
    let out = interp.take_output();
    assert_eq!(out.len(), 1);
    assert_eq!(printed_number(&out[0]), 3.0);
    assert!(interp.evaluate(&var("a")).is_err());
    assert_eq!(interp.environment.current, 0);
    assert_eq!(interp.environment.scopes.len(), 1);
}

#[test]
fn a_call_with_the_wrong_number_of_arguments_fails() {
    let mut interp = Interpreter::default();
    let f = function("f", vec!["a", "b"], vec![Stmt::Print(var("a"))]);
    let f = interp.callable(Target::Function(f)).unwrap();
    define_global(&mut interp, "f", f);
    let e = interp.evaluate(&call(var("f"), vec![num(1.0)])).unwrap_err();
    assert_eq!(e.kind, ErrorKind::Arity { expected: 2, got: 1 });
    assert_eq!(e.token, tok(TokenType::RightParen, ")"));
    let e = interp.evaluate(&call(var("f"), vec![num(1.0), num(2.0), num(3.0)])).unwrap_err();
    assert_eq!(e.kind, ErrorKind::Arity { expected: 2, got: 3 });
    assert!(interp.take_output().is_empty());
}

#[test]
fn calling_a_number_is_a_type_error_and_no_arity_mismatch() {
    let mut interp = Interpreter::default();
    let e = interp.evaluate(&call(num(3.0), vec![])).unwrap_err();
    assert_eq!(e.kind, ErrorKind::NotCallable);
    assert!(!matches!(e.kind, ErrorKind::Arity { .. }));
    let e = interp.evaluate(&call(string("f"), vec![num(1.0)])).unwrap_err();
    assert_eq!(e.kind, ErrorKind::NotCallable);
    let e = interp.evaluate(&call(nil(), vec![])).unwrap_err();
    assert_eq!(e.kind, ErrorKind::NotCallable);
}

#[test]
fn the_arguments_are_evaluated_before_the_callee_is_checked() {
    let mut interp = Interpreter::default();
    interp.execute(&declare("x", num(0.0))).unwrap();
    let e = interp.evaluate(&call(num(3.0), vec![assign("x", num(1.0))])).unwrap_err();
    assert_eq!(e.kind, ErrorKind::NotCallable);
    assert_eq!(number_of(&interp.evaluate(&var("x")).unwrap()), 1.0);
    let e = interp.evaluate(&call(num(3.0), vec![var("missing")])).unwrap_err();
    assert_eq!(e.kind, ErrorKind::UndefinedVariable);
}

#[test]
fn a_function_that_calls_itself_without_end_uses_up_the_limit() {
    let mut interp = Interpreter::with_limit(50);
    interp.execute(&declare("depth", num(0.0))).unwrap();
    let f = function(
        "f",
        vec![],
        vec![
            Stmt::Expr(assign("depth", plus(var("depth"), num(1.0)))),
            Stmt::Expr(call(var("f"), vec![])),
        ],
    );
    let f = interp.callable(Target::Function(f)).unwrap();
    define_global(&mut interp, "f", f);
    let e = interp.evaluate(&call(var("f"), vec![])).unwrap_err();
    assert_eq!(e.kind, ErrorKind::Exhausted);
    assert_eq!(number_of(&interp.evaluate(&var("depth")).unwrap()), 50.0);
    assert_eq!(interp.environment.current, 0);
    assert_eq!(interp.environment.scopes.len(), 1);
}

#[test]
fn a_function_runs_under_the_scope_it_was_defined_in() {
    let mut interp = Interpreter::default();
    interp.execute(&declare("x", string("global"))).unwrap();
    interp.environment.enter(Some(0));
    interp.environment.define(&text("x"), Value::String(text("captured")));
    let f = function("f", vec![], vec![Stmt::Print(var("x"))]);
    let f = interp.close_over(f);
    assert_eq!(f.closure, 1);
    let f = interp.callable(Target::Function(f)).unwrap();
    interp.environment.leave(1, 0);
    assert_eq!(interp.environment.scopes.len(), 2);
    define_global(&mut interp, "f", f);
    interp
        .execute(&Stmt::Block(vec![
            declare("x", string("caller")),
            Stmt::Expr(call(var("f"), vec![])),
        ]))
        .unwrap();
    let out = interp.take_output();
    assert_eq!(out.len(), 1);
    assert_eq!(printed_text(&out[0]), "captured");
    assert_eq!(interp.environment.current, 0);
    assert_eq!(interp.environment.scopes.len(), 2);
}

#[test]
fn a_constructor_call_runs_init_and_gives_the_instance() {
    let mut interp = Interpreter::default();
    let class = class_a();
    let value = class_value(&mut interp, &class);
    define_global(&mut interp, "A", value);
    interp.execute(&declare("a", call(var("A"), vec![num(5.0)]))).unwrap();
    let a = interp.evaluate(&var("a")).unwrap();
    let i = instance_of(&a);
    assert_eq!(i.id, 0);
    assert_eq!(number_of(&interp.evaluate(&get(var("a"), "v")).unwrap()), 5.0);
    assert_eq!(interp.instances.len(), 1);
    assert!(Rc::ptr_eq(&interp.instances[0].class, &class));
}

#[test]
fn a_constructor_call_with_the_wrong_number_of_arguments_fails() {
    let mut interp = Interpreter::default();
    let class = class_a();
    let value = class_value(&mut interp, &class);
    define_global(&mut interp, "A", value);
    let e = interp.evaluate(&call(var("A"), vec![])).unwrap_err();
    assert_eq!(e.kind, ErrorKind::Arity { expected: 1, got: 0 });
    let e = interp.evaluate(&call(var("A"), vec![num(1.0), num(2.0)])).unwrap_err();
    assert_eq!(e.kind, ErrorKind::Arity { expected: 1, got: 2 });
    assert_eq!(interp.instances.len(), 0);
}

#[test]
fn an_error_in_init_fails_the_constructor_call() {
    let mut interp = Interpreter::default();
    let init = function("init", vec![], vec![Stmt::Expr(var("missing"))]);
    let class = Rc::new(LoxClass::new(text("C"), None, vec![(text("init"), init)]));
    let value = class_value(&mut interp, &class);
    define_global(&mut interp, "C", value);
    let e = interp.evaluate(&call(var("C"), vec![])).unwrap_err();
    assert_eq!(e.kind, ErrorKind::UndefinedVariable);
    assert_eq!(interp.environment.current, 0);
}

#[test]
fn a_subclass_without_init_of_its_own_takes_no_arguments() {
    let mut interp = Interpreter::default();
    let a = class_a();
    let b = Rc::new(LoxClass::new(text("B"), Some(Rc::clone(&a)), vec![]));
    assert_eq!(a.arity(), 1);
    assert_eq!(b.arity(), 0);
    let value = class_value(&mut interp, &b);
    define_global(&mut interp, "B", value);
    let e = interp.evaluate(&call(var("B"), vec![num(5.0)])).unwrap_err();
    assert_eq!(e.kind, ErrorKind::Arity { expected: 0, got: 1 });
    interp.execute(&declare("b", call(var("B"), vec![]))).unwrap();
    let e = interp.evaluate(&get(var("b"), "v")).unwrap_err();
    assert_eq!(e.kind, ErrorKind::UndefinedProperty);
    interp.execute(&Stmt::Expr(set(var("b"), "v", num(4.0)))).unwrap();
    interp.execute(&Stmt::Expr(call(get(var("b"), "twice"), vec![]))).unwrap();
    assert_eq!(number_of(&interp.evaluate(&get(var("b"), "v")).unwrap()), 8.0);
}

#[test]
fn two_lookups_of_a_method_are_distinct_and_share_the_receiver() {
    let mut interp = Interpreter::default();
    let class = class_a();
    let value = class_value(&mut interp, &class);
    define_global(&mut interp, "A", value);
    interp.execute(&declare("a", call(var("A"), vec![num(3.0)]))).unwrap();
    interp.execute(&declare("m1", get(var("a"), "twice"))).unwrap();
    interp.execute(&declare("m2", get(var("a"), "twice"))).unwrap();
    let same = interp
        .evaluate(&binary(var("m1"), TokenType::EqualEqual, "==", var("m2")))
        .unwrap();
    assert!(matches!(same, Value::Bool(false)));
    let itself = interp
        .evaluate(&binary(var("m1"), TokenType::EqualEqual, "==", var("m1")))
        .unwrap();
    assert!(matches!(itself, Value::Bool(true)));
    let (m1, m2) = (interp.evaluate(&var("m1")).unwrap(), interp.evaluate(&var("m2")).unwrap());
    match (&m1, &m2) {
        (
            Value::Callable(Callable { id: i1, target: Target::Function(f1) }),
            Value::Callable(Callable { id: i2, target: Target::Function(f2) }),
        ) => {
            assert_ne!(i1, i2);
            assert!(Rc::ptr_eq(&f1.decl, &f2.decl));
            assert_eq!(f1.receiver, Some(LoxInstance { id: 0 }));
            assert_eq!(f2.receiver, Some(LoxInstance { id: 0 }));
        }
        other => panic!("not two bound methods: {:?}", other),
    }
    interp.execute(&Stmt::Expr(call(var("m1"), vec![]))).unwrap();
    assert_eq!(number_of(&interp.evaluate(&get(var("a"), "v")).unwrap()), 6.0);
    interp.execute(&Stmt::Expr(call(var("m2"), vec![]))).unwrap();
    assert_eq!(number_of(&interp.evaluate(&get(var("a"), "v")).unwrap()), 12.0);
}

#[test]
fn two_instances_are_equal_only_if_they_are_the_same() {
    let mut interp = Interpreter::default();
    let class = class_a();
    let value = class_value(&mut interp, &class);
    define_global(&mut interp, "A", value);
    interp.execute(&declare("a", call(var("A"), vec![num(1.0)]))).unwrap();
    interp.execute(&declare("b", call(var("A"), vec![num(1.0)]))).unwrap();
    interp.execute(&declare("c", var("a"))).unwrap();
    let eq = |l: &str, r: &str| binary(var(l), TokenType::EqualEqual, "==", var(r));
    assert!(matches!(interp.evaluate(&eq("a", "b")).unwrap(), Value::Bool(false)));
    assert!(matches!(interp.evaluate(&eq("a", "c")).unwrap(), Value::Bool(true)));
    assert!(matches!(interp.evaluate(&eq("A", "A")).unwrap(), Value::Bool(true)));
    interp.execute(&Stmt::Expr(set(var("c"), "v", num(9.0)))).unwrap();
    assert_eq!(number_of(&interp.evaluate(&get(var("a"), "v")).unwrap()), 9.0);
    assert_eq!(number_of(&interp.evaluate(&get(var("b"), "v")).unwrap()), 1.0);
}

#[test]
fn a_field_shadows_a_method_of_the_same_name() {
    let mut interp = Interpreter::default();
    let class = class_a();
    let value = class_value(&mut interp, &class);
    define_global(&mut interp, "A", value);
    interp.execute(&declare("a", call(var("A"), vec![num(1.0)]))).unwrap();
    let v = interp.evaluate(&set(var("a"), "twice", string("field"))).unwrap();
    assert_eq!(text_of(&v), "field");
    assert_eq!(text_of(&interp.evaluate(&get(var("a"), "twice")).unwrap()), "field");
}

#[test]
fn properties_of_what_is_no_instance_are_a_type_error() {
    let mut interp = Interpreter::default();
    interp.execute(&declare("x", num(0.0))).unwrap();
    let e = interp.evaluate(&get(num(1.0), "v")).unwrap_err();
    assert_eq!(e.kind, ErrorKind::ExpectedInstance);
    assert_eq!(e.token, ident("v"));
    let e = interp.evaluate(&set(string("s"), "v", assign("x", num(1.0)))).unwrap_err();
    assert_eq!(e.kind, ErrorKind::ExpectedInstance);
    assert_eq!(number_of(&interp.evaluate(&var("x")).unwrap()), 0.0);
    let stray = Expr::Literal(Value::Instance(LoxInstance { id: 7 }));
    let e = interp.evaluate(&Expr::GetField(Box::new(stray), ident("v"))).unwrap_err();
    assert_eq!(e.kind, ErrorKind::ExpectedInstance);
}

#[test]
fn values_are_shown_in_their_printable_form() {
    let mut interp = Interpreter::default();
    let class = class_a();
    let c = class_value(&mut interp, &class);
    let f = interp.callable(Target::Function(function("go", vec![], vec![]))).unwrap();
    let i = Value::Instance(interp.instantiate(&class));
    assert_eq!(interp.display(&Value::Nil), Shown::Text(text("nil")));
    assert_eq!(interp.display(&Value::Bool(true)), Shown::Text(text("true")));
    assert_eq!(interp.display(&Value::Bool(false)), Shown::Text(text("false")));
    assert_eq!(interp.display(&Value::String(text("raw \"text\""))), Shown::Text(text("raw \"text\"")));
    assert_eq!(interp.display(&Value::Number(1.5f64.to_bits())), Shown::Number(1.5f64.to_bits()));
    assert_eq!(interp.display(&c), Shown::Text(text("<class A>")));
    assert_eq!(interp.display(&f), Shown::Text(text("<fn go>")));
    assert_eq!(interp.display(&i), Shown::Text(text("A instance")));
}

#[test]
fn a_fresh_interpreter_is_empty() {
    let interp = Interpreter::default();
    assert_eq!(interp.limit, u64::MAX);
    assert_eq!(interp.next_id, 0);
    assert_eq!(interp.environment.current, 0);
    assert_eq!(interp.environment.scopes.len(), 1);
    assert!(interp.environment.scopes[0].bindings.is_empty());
    assert!(interp.instances.is_empty());
    assert!(interp.output.is_empty());
    assert_eq!(Interpreter::with_limit(3).limit, 3);
}

#[test]
fn the_identities_of_callables_run_out_at_the_largest() {
    let mut interp = Interpreter::default();
    interp.next_id = u64::MAX - 1;
    let f = interp.callable(Target::Function(function("f", vec![], vec![])));
    assert!(matches!(f, Some(Value::Callable(Callable { id, .. })) if id == u64::MAX - 1));
    assert!(interp.callable(Target::Function(function("g", vec![], vec![]))).is_none());
    let class = class_a();
    let i = Value::Instance(interp.instantiate(&class));
    define_global(&mut interp, "a", i);
    let e = interp.evaluate(&get(var("a"), "twice")).unwrap_err();
    assert_eq!(e.kind, ErrorKind::Exhausted);
}

fn message_of(kind: ErrorKind, lexeme: &str) -> String {
    let e = LoxError::runtime(&ident(lexeme), kind);
    assert_eq!(e.token, ident(lexeme));
    assert_eq!(e.kind, kind);
    String::from_utf8(e.message()).unwrap()
}

#[test]
fn every_error_has_its_message() {
    assert_eq!(message_of(ErrorKind::ExpectedNumber, "-"), "operand must be a number");
    assert_eq!(message_of(ErrorKind::ExpectedString, "x"), "operand must be a string");
    assert_eq!(
        message_of(ErrorKind::ExpectedNumbersOrStrings, "+"),
        "requires two numbers or two strings"
    );
    assert_eq!(message_of(ErrorKind::ExpectedInstance, "v"), "only instances have properties");
    assert_eq!(message_of(ErrorKind::UndefinedVariable, "count"), "Undefined variable: count");
    assert_eq!(message_of(ErrorKind::UndefinedProperty, "size"), "Undefined property: size");
    assert_eq!(message_of(ErrorKind::NotCallable, ")"), "can only call functions and classes");
    assert_eq!(
        message_of(ErrorKind::Arity { expected: 2, got: 10 }, ")"),
        "expected 2 arguments but got 10"
    );
    assert_eq!(
        message_of(ErrorKind::Arity { expected: 0, got: 1 }, ")"),
        "expected 0 arguments but got 1"
    );
    assert_eq!(message_of(ErrorKind::UnexpectedToken, ","), "unexpected token: ,");
    assert_eq!(message_of(ErrorKind::Exhausted, "while"), "limit reached");
}

#[test]
fn numbers_of_arguments_are_written_in_decimal() {
    assert_eq!(decimal_text(0), text("0"));
    assert_eq!(decimal_text(7), text("7"));
    assert_eq!(decimal_text(10), text("10"));
    assert_eq!(decimal_text(1905), text("1905"));
    assert_eq!(decimal_text(usize::MAX), text(&format!("{}", usize::MAX)));
}

#[test]
fn values_are_narrowed_to_their_variant_or_fail_at_the_operator() {
    let op = tok(TokenType::Minus, "-");
    assert_eq!(Value::Number(3).number(&op), Ok(3));
    assert_eq!(Value::Nil.number(&op).unwrap_err().kind, ErrorKind::ExpectedNumber);
    assert_eq!(Value::Nil.number(&op).unwrap_err().token, op);
    assert_eq!(Value::String(text("s")).string(&op), Ok(text("s")));
    assert_eq!(Value::Bool(true).string(&op).unwrap_err().kind, ErrorKind::ExpectedString);
    let f = Callable { id: 4, target: Target::Function(function("f", vec![], vec![])) };
    assert_eq!(Value::Callable(f).callable(&op).unwrap().id, 4);
    assert_eq!(Value::Number(1).callable(&op).unwrap_err().kind, ErrorKind::NotCallable);
    assert!(Value::Nil == Value::Nil);
    assert!(Value::Number(f64::NAN.to_bits()) != Value::Number(f64::NAN.to_bits()));
    assert!(Value::Number(0.0f64.to_bits()) == Value::Number((-0.0f64).to_bits()));
    assert!(Value::String(text("a")) != Value::Bool(true));
}

#[test]
fn print_hands_the_printable_form_to_the_output() {
    let mut interp = Interpreter::default();
    let class = class_a();
    let value = class_value(&mut interp, &class);
    define_global(&mut interp, "A", value);
    interp.execute(&Stmt::Print(nil())).unwrap();
    interp.execute(&Stmt::Print(boolean(true))).unwrap();
    interp.execute(&Stmt::Print(num(0.5))).unwrap();
    interp.execute(&Stmt::Print(string("text"))).unwrap();
    interp.execute(&Stmt::Print(var("A"))).unwrap();
    interp.execute(&Stmt::Print(call(var("A"), vec![num(1.0)]))).unwrap();
    let e = interp.execute(&Stmt::Print(var("missing"))).unwrap_err();
    assert_eq!(e.kind, ErrorKind::UndefinedVariable);
    let out = interp.take_output();
    assert_eq!(
        out,
        vec![
            Shown::Text(text("nil")),
            Shown::Text(text("true")),
            Shown::Number(0.5f64.to_bits()),
            Shown::Text(text("text")),
            Shown::Text(text("<class A>")),
            Shown::Text(text("A instance")),
        ]
    );
}
