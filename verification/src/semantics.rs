//! What evaluation means: the language's rules as functions on a model of the
//! interpreter's state.
//!
//! A run is bounded by a limit on the depth of nested calls and on the rounds
//! of a loop. A call runs its body under a limit one lower, and so does each
//! further round of a loop; where the limit is used up the run fails.

use vstd::prelude::*;
use crate::class::{init_name, this_name};
use crate::display::{shown, ShownView};
use crate::environment::EnvView;
use crate::error::{ErrorKind, ErrorView};
use crate::number::{
    number_add, number_div, number_eq, number_le, number_lt, number_mul, number_neg, number_sub,
};
use crate::token::{Token, TokenType, TokenView};
use crate::value::{Callable, Expr, LoxClass, LoxFn, LoxInstance, Stmt, Target, ValueView};

verus! {

/// An instance: its class and its fields.
pub ghost struct InstanceView {
    pub class: LoxClass,
    pub fields: Map<Seq<u8>, ValueView>,
}

/// The state of an interpreter: the scopes, the instances made so far, the
/// identity that the next callable will get, and what has been printed, each
/// value in its printable form.
pub ghost struct State {
    pub env: EnvView,
    pub instances: Seq<InstanceView>,
    pub next_id: u64,
    pub output: Seq<ShownView>,
}

/// The state in which a run ended, and the value or the error it ended with.
pub type Evaluated = (State, Result<ValueView, ErrorView>);

/// The state in which a run ended, and the error if it ended with one.
pub type Executed = (State, Result<(), ErrorView>);

impl State {
    /// The state of a fresh interpreter.
    pub open spec fn initial() -> State {
        State { env: EnvView::initial(), instances: Seq::empty(), next_id: 0, output: Seq::empty() }
    }

    /// The state with another environment.
    pub open spec fn with_env(self, env: EnvView) -> State {
        State { env, instances: self.instances, next_id: self.next_id, output: self.output }
    }
}

/// Truthiness: nil and false are falsy, everything else is truthy.
pub open spec fn truthy(v: ValueView) -> bool {
    match v {
        ValueView::Nil => false,
        ValueView::Bool(b) => b,
        _ => true,
    }
}

/// Equality of values: nil equals nil; booleans, numbers and strings are
/// compared by value, numbers as doubles; callables and instances by
/// identity; values of different variants are never equal.
pub open spec fn values_equal(a: ValueView, b: ValueView) -> bool {
    match (a, b) {
        (ValueView::Nil, ValueView::Nil) => true,
        (ValueView::Bool(x), ValueView::Bool(y)) => x == y,
        (ValueView::Number(x), ValueView::Number(y)) => number_eq(x, y),
        (ValueView::String(x), ValueView::String(y)) => x == y,
        (ValueView::Callable(x), ValueView::Callable(y)) => x.id == y.id,
        (ValueView::Instance(x), ValueView::Instance(y)) => x.id == y.id,
        _ => false,
    }
}

/// The error of the given kind at the given token.
pub open spec fn failure(token: TokenView, kind: ErrorKind) -> ErrorView {
    ErrorView { token, kind }
}

/// The result of a unary operator on the value of its operand.
pub open spec fn unary(op: TokenView, v: ValueView) -> Result<ValueView, ErrorView> {
    match op.ty {
        TokenType::Minus => match v {
            ValueView::Number(n) => Ok(ValueView::Number(number_neg(n))),
            _ => Err(failure(op, ErrorKind::ExpectedNumber)),
        },
        TokenType::Bang => Ok(ValueView::Bool(!truthy(v))),
        _ => Err(failure(op, ErrorKind::UnexpectedToken)),
    }
}

/// The two operands as numbers, or the type error of the operator.
pub open spec fn operands_as_numbers(op: TokenView, l: ValueView, r: ValueView) -> Result<
    (u64, u64),
    ErrorView,
> {
    match (l, r) {
        (ValueView::Number(a), ValueView::Number(b)) => Ok((a, b)),
        _ => Err(failure(op, ErrorKind::ExpectedNumber)),
    }
}

/// The result of an arithmetic or comparison operator on two numbers.
pub open spec fn numeric(ty: TokenType, a: u64, b: u64) -> ValueView {
    match ty {
        TokenType::Minus => ValueView::Number(number_sub(a, b)),
        TokenType::Slash => ValueView::Number(number_div(a, b)),
        TokenType::Star => ValueView::Number(number_mul(a, b)),
        TokenType::Greater => ValueView::Bool(number_lt(b, a)),
        TokenType::GreaterEqual => ValueView::Bool(number_le(b, a)),
        TokenType::Less => ValueView::Bool(number_lt(a, b)),
        _ => ValueView::Bool(number_le(a, b)),
    }
}

/// The result of a binary operator on the values of its operands.
pub open spec fn binary(op: TokenView, l: ValueView, r: ValueView) -> Result<
    ValueView,
    ErrorView,
> {
    match op.ty {
        TokenType::Minus
        | TokenType::Slash
        | TokenType::Star
        | TokenType::Greater
        | TokenType::GreaterEqual
        | TokenType::Less
        | TokenType::LessEqual => match operands_as_numbers(op, l, r) {
            Ok((a, b)) => Ok(numeric(op.ty, a, b)),
            Err(e) => Err(e),
        },
        TokenType::Plus => match (l, r) {
            (ValueView::Number(a), ValueView::Number(b)) => Ok(
                ValueView::Number(number_add(a, b)),
            ),
            (ValueView::String(a), ValueView::String(b)) => Ok(ValueView::String(a + b)),
            _ => Err(failure(op, ErrorKind::ExpectedNumbersOrStrings)),
        },
        TokenType::BangEqual => Ok(ValueView::Bool(!values_equal(l, r))),
        TokenType::EqualEqual => Ok(ValueView::Bool(values_equal(l, r))),
        _ => Err(failure(op, ErrorKind::UnexpectedToken)),
    }
}

/// The number of arguments that a call of the value must give, or the error
/// of calling what is not callable.
pub open spec fn arity_of(callee: ValueView, paren: TokenView) -> Result<usize, ErrorView> {
    match callee {
        ValueView::Callable(c) => match c.target {
            Target::Function(f) => Ok(f.decl.params.len()),
            Target::Class(class) => Ok(class.constructor_arity()),
        },
        _ => Err(failure(paren, ErrorKind::NotCallable)),
    }
}

/// The environment after the parameters from place `i` on are defined, each
/// as the argument at its place.
pub open spec fn bind_parameters(env: EnvView, params: Seq<Token>, args: Seq<ValueView>, i: int) -> EnvView
    decreases params.len() - i,
{
    if i < 0 || i >= params.len() || i >= args.len() {
        env
    } else {
        bind_parameters(env.define(params[i].lexeme@, args[i]), params, args, i + 1)
    }
}

/// The environment in which the body of `f` starts to run: a new scope under
/// the scope that `f` was defined in, with the receiver, if there is one,
/// under `this`, and the parameters defined from the arguments.
pub open spec fn call_env(env: EnvView, f: LoxFn, args: Seq<ValueView>) -> EnvView {
    let entered = env.enter(Some(f.closure as nat));
    let with_receiver = match f.receiver {
        Some(instance) => entered.define(this_name(), ValueView::Instance(instance)),
        None => entered,
    };
    bind_parameters(with_receiver, f.decl.params@, args, 0)
}

/// The token that stands for a loop where the limit is used up.
pub open spec fn loop_token() -> TokenView {
    TokenView {
        ty: TokenType::While,
        lexeme: seq![119u8, 104u8, 105u8, 108u8, 101u8],
        line: 0,
    }
}

/// Reading property `name` of the value `object`.
///
/// A field of that name comes first. Failing that, the method of that name
/// of the instance's class is bound to the instance and becomes a callable
/// with a fresh identity.
pub open spec fn get_property(s: State, object: ValueView, name: TokenView) -> Evaluated {
    match object {
        ValueView::Instance(i) => if i.id < s.instances.len() {
            let instance = s.instances[i.id as int];
            if instance.fields.dom().contains(name.lexeme) {
                (s, Ok(instance.fields[name.lexeme]))
            } else {
                match instance.class.bound_method(i, name.lexeme) {
                    Some(m) => if s.next_id < u64::MAX {
                        (
                            State {
                                env: s.env,
                                instances: s.instances,
                                next_id: (s.next_id + 1) as u64,
                                output: s.output,
                            },
                            Ok(
                                ValueView::Callable(
                                    Callable { id: s.next_id, target: Target::Function(m) },
                                ),
                            ),
                        )
                    } else {
                        (s, Err(failure(name, ErrorKind::Exhausted)))
                    },
                    None => (s, Err(failure(name, ErrorKind::UndefinedProperty))),
                }
            }
        } else {
            (s, Err(failure(name, ErrorKind::ExpectedInstance)))
        },
        _ => (s, Err(failure(name, ErrorKind::ExpectedInstance))),
    }
}

/// The instance that a property is written to, or the type error.
pub open spec fn property_owner(s: State, object: ValueView, name: TokenView) -> Result<
    LoxInstance,
    ErrorView,
> {
    match object {
        ValueView::Instance(i) => if i.id < s.instances.len() {
            Ok(i)
        } else {
            Err(failure(name, ErrorKind::ExpectedInstance))
        },
        _ => Err(failure(name, ErrorKind::ExpectedInstance)),
    }
}

/// The state after field `name` of instance `i` is set to `value`.
pub open spec fn set_field(s: State, i: LoxInstance, name: Seq<u8>, value: ValueView) -> State {
    if i.id < s.instances.len() {
        State {
            env: s.env,
            instances: s.instances.update(
                i.id as int,
                InstanceView {
                    class: s.instances[i.id as int].class,
                    fields: s.instances[i.id as int].fields.insert(name, value),
                },
            ),
            next_id: s.next_id,
            output: s.output,
        }
    } else {
        s
    }
}

/// The state with a new instance of `class`, without fields.
pub open spec fn allocate(s: State, class: LoxClass) -> State {
    State {
        env: s.env,
        instances: s.instances.push(InstanceView { class, fields: Map::empty() }),
        next_id: s.next_id,
        output: s.output,
    }
}

/// The state with the printable form of one more value in the output.
pub open spec fn print(s: State, v: ValueView) -> State {
    State {
        env: s.env,
        instances: s.instances,
        next_id: s.next_id,
        output: s.output.push(shown(s, v)),
    }
}

/// Evaluating an expression: the state after it, and its value or the error
/// that stopped it. Operands are evaluated once each, from left to right.
pub open spec fn eval(s: State, e: Expr, fuel: nat) -> Evaluated
    decreases fuel, e, 3nat,
{
    match e {
        Expr::Literal(v) => (s, Ok(v@)),
        Expr::Grouping(inner) => eval(s, *inner, fuel),
        Expr::Variable(name) => match s.env.get(name.lexeme@) {
            Some(v) => (s, Ok(v)),
            None => (s, Err(failure(name@, ErrorKind::UndefinedVariable))),
        },
        Expr::Assign(name, value) => {
            let (s1, r) = eval(s, *value, fuel);
            match r {
                Ok(v) => match s1.env.assign(name.lexeme@, v) {
                    Some(env) => (s1.with_env(env), Ok(v)),
                    None => (s1, Err(failure(name@, ErrorKind::UndefinedVariable))),
                },
                Err(err) => (s1, Err(err)),
            }
        },
        Expr::Unary(op, right) => {
            let (s1, r) = eval(s, *right, fuel);
            match r {
                Ok(v) => (s1, unary(op@, v)),
                Err(err) => (s1, Err(err)),
            }
        },
        Expr::Binary(left, op, right) => {
            let (s1, l) = eval(s, *left, fuel);
            match l {
                Ok(a) => {
                    let (s2, r) = eval(s1, *right, fuel);
                    match r {
                        Ok(b) => (s2, binary(op@, a, b)),
                        Err(err) => (s2, Err(err)),
                    }
                },
                Err(err) => (s1, Err(err)),
            }
        },
        Expr::Logical(left, op, right) => {
            let (s1, l) = eval(s, *left, fuel);
            match l {
                Ok(a) => match op.ty {
                    TokenType::And => if truthy(a) {
                        eval(s1, *right, fuel)
                    } else {
                        (s1, Ok(a))
                    },
                    TokenType::Or => if truthy(a) {
                        (s1, Ok(a))
                    } else {
                        eval(s1, *right, fuel)
                    },
                    _ => (s1, Err(failure(op@, ErrorKind::UnexpectedToken))),
                },
                Err(err) => (s1, Err(err)),
            }
        },
        Expr::Call(callee, paren, args) => {
            let (s1, c) = eval(s, *callee, fuel);
            match c {
                Ok(f) => {
                    let (s2, a) = eval_args(s1, args, 0, Seq::empty(), fuel);
                    match a {
                        Ok(values) => invoke(s2, f, values, e, fuel),
                        Err(err) => (s2, Err(err)),
                    }
                },
                Err(err) => (s1, Err(err)),
            }
        },
        Expr::GetField(object, name) => {
            let (s1, o) = eval(s, *object, fuel);
            match o {
                Ok(v) => get_property(s1, v, name@),
                Err(err) => (s1, Err(err)),
            }
        },
        Expr::SetField(object, name, value) => {
            let (s1, o) = eval(s, *object, fuel);
            match o {
                Ok(target) => match property_owner(s1, target, name@) {
                    Ok(i) => {
                        let (s2, r) = eval(s1, *value, fuel);
                        match r {
                            Ok(v) => (set_field(s2, i, name.lexeme@, v), Ok(v)),
                            Err(err) => (s2, Err(err)),
                        }
                    },
                    Err(err) => (s1, Err(err)),
                },
                Err(err) => (s1, Err(err)),
            }
        },
    }
}

/// Evaluating the arguments of a call from place `i` on, after `done`.
pub open spec fn eval_args(s: State, args: Vec<Expr>, i: nat, done: Seq<ValueView>, fuel: nat) -> (
    State,
    Result<Seq<ValueView>, ErrorView>,
)
    decreases fuel, args, args.len() - i,
{
    if i >= args.len() {
        (s, Ok(done))
    } else {
        let (s1, r) = eval(s, args[i as int], fuel);
        match r {
            Ok(v) => eval_args(s1, args, i + 1, done.push(v), fuel),
            Err(err) => (s1, Err(err)),
        }
    }
}

/// Calling `callee` with `args` at the call expression `site`.
///
/// The callee must be callable and the number of arguments must equal its
/// arity. A function runs its body and gives nil; a class constructs an
/// instance. The closing parenthesis of `site` is the token of the errors;
/// where `site` is no call expression nothing is done.
pub open spec fn invoke(s: State, callee: ValueView, args: Seq<ValueView>, site: Expr, fuel: nat) -> Evaluated
    decreases fuel, site, 2nat,
{
    match site {
        Expr::Call(_, paren, _) => match arity_of(callee, paren@) {
            Ok(arity) => if args.len() != arity {
                (
                    s,
                    Err(
                        failure(
                            paren@,
                            ErrorKind::Arity { expected: arity, got: args.len() as usize },
                        ),
                    ),
                )
            } else {
                match callee {
                    ValueView::Callable(c) => match c.target {
                        Target::Function(f) => run(s, f, args, site, fuel),
                        Target::Class(class) => construct(s, *class, args, site, fuel),
                    },
                    _ => (s, Err(failure(paren@, ErrorKind::NotCallable))),
                }
            },
            Err(err) => (s, Err(err)),
        },
        _ => (s, Ok(ValueView::Nil)),
    }
}

/// Calling a class: a new instance is made; the class's own `init`, if it has
/// one, is bound to the instance and run on the arguments; and the instance
/// is the value of the call, whatever `init` gave, unless `init` failed.
pub open spec fn construct(s: State, class: LoxClass, args: Seq<ValueView>, site: Expr, fuel: nat) -> Evaluated
    decreases fuel, site, 1nat,
{
    let instance = LoxInstance { id: s.instances.len() as usize };
    let s1 = allocate(s, class);
    match class.own_method(init_name()) {
        Some(init) => {
            let (s2, r) = run(s1, init.bound(instance), args, site, fuel);
            match r {
                Ok(_) => (s2, Ok(ValueView::Instance(instance))),
                Err(err) => (s2, Err(err)),
            }
        },
        None => (s1, Ok(ValueView::Instance(instance))),
    }
}

/// Running function `f` on `args`: its body in a new scope, under a limit
/// one lower; then the scope is left and the cursor is back where it was,
/// whether the body failed or not.
pub open spec fn run(s: State, f: LoxFn, args: Seq<ValueView>, site: Expr, fuel: nat) -> Evaluated
    decreases fuel, site, 0nat,
{
    match site {
        Expr::Call(_, paren, _) => if fuel == 0 {
            (s, Err(failure(paren@, ErrorKind::Exhausted)))
        } else {
            let scope = s.env.scopes.len();
            let (s1, r) = exec_items(
                s.with_env(call_env(s.env, f, args)),
                f.decl.body,
                0,
                (fuel - 1) as nat,
            );
            let s2 = s1.with_env(s1.env.leave(scope, s.env.current));
            match r {
                Ok(_) => (s2, Ok(ValueView::Nil)),
                Err(err) => (s2, Err(err)),
            }
        },
        _ => (s, Ok(ValueView::Nil)),
    }
}

/// Executing a statement: the state after it, and the error if one stopped
/// it.
pub open spec fn exec(s: State, stmt: Stmt, fuel: nat) -> Executed
    decreases fuel, stmt, 1nat,
{
    match stmt {
        Stmt::Block(stmts) => exec_block(s, stmts, fuel),
        Stmt::Expr(e) => {
            let (s1, r) = eval(s, e, fuel);
            match r {
                Ok(_) => (s1, Ok(())),
                Err(err) => (s1, Err(err)),
            }
        },
        Stmt::If(cond, then, otherwise) => {
            let (s1, c) = eval(s, cond, fuel);
            match c {
                Ok(v) => if truthy(v) {
                    exec(s1, *then, fuel)
                } else {
                    match otherwise {
                        Some(other) => exec(s1, *other, fuel),
                        None => (s1, Ok(())),
                    }
                },
                Err(err) => (s1, Err(err)),
            }
        },
        Stmt::Print(e) => {
            let (s1, r) = eval(s, e, fuel);
            match r {
                Ok(v) => (print(s1, v), Ok(())),
                Err(err) => (s1, Err(err)),
            }
        },
        Stmt::Var(name, e) => {
            let (s1, r) = eval(s, e, fuel);
            match r {
                Ok(v) => (s1.with_env(s1.env.define(name.lexeme@, v)), Ok(())),
                Err(err) => (s1, Err(err)),
            }
        },
        Stmt::While(_, _) => exec_while(s, stmt, fuel),
    }
}

/// Executing the statements of a block in a new child scope; then the scope
/// is left and the cursor is back where it was, whether a statement failed
/// or not.
pub open spec fn exec_block(s: State, stmts: Vec<Stmt>, fuel: nat) -> Executed
    decreases fuel, stmts, stmts.len() + 1,
{
    let scope = s.env.scopes.len();
    let (s1, r) = exec_items(s.with_env(s.env.child()), stmts, 0, fuel);
    (s1.with_env(s1.env.leave(scope, s.env.current)), r)
}

/// Executing statements in order from place `i` on, up to the first that
/// fails.
pub open spec fn exec_items(s: State, stmts: Vec<Stmt>, i: nat, fuel: nat) -> Executed
    decreases fuel, stmts, stmts.len() - i,
{
    if i >= stmts.len() {
        (s, Ok(()))
    } else {
        let (s1, r) = exec(s, stmts[i as int], fuel);
        match r {
            Ok(_) => exec_items(s1, stmts, i + 1, fuel),
            Err(err) => (s1, Err(err)),
        }
    }
}

/// Executing a loop: the condition is evaluated, and while it is truthy the
/// body is executed and the loop goes round again, under a limit one lower.
pub open spec fn exec_while(s: State, stmt: Stmt, fuel: nat) -> Executed
    decreases fuel, stmt, 0nat,
{
    match stmt {
        Stmt::While(cond, body) => {
            let (s1, c) = eval(s, cond, fuel);
            match c {
                Ok(v) => if truthy(v) {
                    let (s2, r) = exec(s1, *body, fuel);
                    match r {
                        Ok(_) => if fuel == 0 {
                            (s2, Err(failure(loop_token(), ErrorKind::Exhausted)))
                        } else {
                            exec_while(s2, stmt, (fuel - 1) as nat)
                        },
                        Err(err) => (s2, Err(err)),
                    }
                } else {
                    (s1, Ok(()))
                },
                Err(err) => (s1, Err(err)),
            }
        },
        _ => (s, Ok(())),
    }
}

} // verus!
