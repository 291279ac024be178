//! The evaluator: a recursive walk over the tree that does what the rules of
//! `semantics` say.

use std::rc::Rc;
use vstd::prelude::*;
use crate::class::{init_text, this_text};
use crate::display::{Shown, ShownView};
use crate::environment::Environment;
use crate::error::{ErrorKind, ErrorView, LoxError};
use crate::number;
use crate::semantics::{
    allocate, arity_of, binary, bind_parameters, call_env, construct, eval, eval_args, exec, exec_block,
    exec_items, exec_while, failure, get_property, invoke, loop_token, numeric, operands_as_numbers,
    print, property_owner, run, set_field, truthy, unary, values_equal, InstanceView, State,
};
use crate::table::{table_get, table_put, table_view};
use crate::theorems::{evaluation_extends_the_state, execution_extends_the_state, extends};
use crate::token::{bytes_concat, LoxStr, Token, TokenType};
use crate::value::{Callable, Expr, LoxClass, LoxFn, LoxInstance, Stmt, Target, Value, ValueView, share};

verus! {

/// An instance: its class and its fields.
#[derive(Debug)]
pub struct InstanceData {
    pub class: Rc<LoxClass>,
    pub fields: Vec<(LoxStr, Value)>,
}

impl View for InstanceData {
    type V = InstanceView;

    open spec fn view(&self) -> InstanceView {
        InstanceView { class: *self.class, fields: table_view(self.fields@) }
    }
}

/// The interpreter: the scopes, the instances made so far, the identity that
/// the next callable will get, what has been printed and not yet taken, and
/// the limit on nested calls and loop rounds.
#[derive(Debug)]
pub struct Interpreter {
    pub environment: Environment,
    pub instances: Vec<InstanceData>,
    pub next_id: u64,
    pub output: Vec<Shown>,
    pub limit: u64,
}

/// The views of a list of values.
pub open spec fn values_view(values: Seq<Value>) -> Seq<ValueView> {
    Seq::new(values.len(), |i: int| values[i]@)
}

/// The views of a list of printable forms.
pub open spec fn output_view(output: Seq<Shown>) -> Seq<ShownView> {
    Seq::new(output.len(), |i: int| output[i]@)
}

impl View for Interpreter {
    type V = State;

    open spec fn view(&self) -> State {
        State {
            env: self.environment@,
            instances: Seq::new(self.instances.len() as nat, |i: int| self.instances[i]@),
            next_id: self.next_id,
            output: output_view(self.output@),
        }
    }
}

/// The view of a value or an error.
pub open spec fn value_result(r: Result<Value, LoxError>) -> Result<ValueView, ErrorView> {
    match r {
        Ok(v) => Ok(v@),
        Err(e) => Err(e@),
    }
}

/// The view of an error, if there is one.
pub open spec fn unit_result(r: Result<(), LoxError>) -> Result<(), ErrorView> {
    match r {
        Ok(_) => Ok(()),
        Err(e) => Err(e@),
    }
}

/// Tells whether a value counts as true: everything but nil and false does.
pub fn is_truthy(v: &Value) -> (r: bool)
    ensures
        r == truthy(v@),
{
    match v {
        Value::Nil => false,
        Value::Bool(b) => *b,
        _ => true,
    }
}

/// Tells whether two values are equal.
pub fn is_equal(left: Value, right: Value) -> (r: bool)
    ensures
        r == values_equal(left@, right@),
{
    left == right
}

/// The operand as a number, or the type error of the operator.
pub fn number_operand(op: &Token, right: Value) -> (r: Result<u64, LoxError>)
    ensures
        match r {
            Ok(n) => right@ == ValueView::Number(n),
            Err(e) => !(right@ is Number) && e@ == failure(op@, ErrorKind::ExpectedNumber),
        },
{
    right.number(op)
}

/// Both operands as numbers, or the type error of the operator.
pub fn number_operands(op: &Token, left: Value, right: Value) -> (r: Result<(u64, u64), LoxError>)
    ensures
        match r {
            Ok(p) => operands_as_numbers(op@, left@, right@) == Ok::<
                (u64, u64),
                ErrorView,
            >(p),
            Err(e) => operands_as_numbers(op@, left@, right@) == Err::<
                (u64, u64),
                ErrorView,
            >(e@),
        },
{
    let a = match number_operand(op, left) {
        Ok(n) => n,
        Err(e) => {
            return Err(e);
        },
    };
    let b = match number_operand(op, right) {
        Ok(n) => n,
        Err(e) => {
            return Err(e);
        },
    };
    Ok((a, b))
}

/// Applies a unary operator to the value of its operand.
pub fn apply_unary(op: &Token, v: Value) -> (r: Result<Value, LoxError>)
    ensures
        value_result(r) == unary(op@, v@),
{
    match op.ty {
        TokenType::Minus => match number_operand(op, v) {
            Ok(n) => Ok(Value::Number(number::neg(n))),
            Err(e) => Err(e),
        },
        TokenType::Bang => Ok(Value::Bool(!is_truthy(&v))),
        _ => Err(LoxError::runtime(op, ErrorKind::UnexpectedToken)),
    }
}

/// Applies an arithmetic or comparison operator to two numbers.
fn apply_numeric(ty: TokenType, a: u64, b: u64) -> (r: Value)
    ensures
        r@ == numeric(ty, a, b),
{
    match ty {
        TokenType::Minus => Value::Number(number::sub(a, b)),
        TokenType::Slash => Value::Number(number::div(a, b)),
        TokenType::Star => Value::Number(number::mul(a, b)),
        TokenType::Greater => Value::Bool(number::lt(b, a)),
        TokenType::GreaterEqual => Value::Bool(number::le(b, a)),
        TokenType::Less => Value::Bool(number::lt(a, b)),
        _ => Value::Bool(number::le(a, b)),
    }
}

/// Applies a binary operator to the values of its operands.
pub fn apply_binary(op: &Token, left: Value, right: Value) -> (r: Result<Value, LoxError>)
    ensures
        value_result(r) == binary(op@, left@, right@),
{
    match op.ty {
        TokenType::Minus
        | TokenType::Slash
        | TokenType::Star
        | TokenType::Greater
        | TokenType::GreaterEqual
        | TokenType::Less
        | TokenType::LessEqual => match number_operands(op, left, right) {
            Ok((a, b)) => Ok(apply_numeric(op.ty, a, b)),
            Err(e) => Err(e),
        },
        TokenType::Plus => match (left, right) {
            (Value::Number(a), Value::Number(b)) => Ok(Value::Number(number::add(a, b))),
            (Value::String(a), Value::String(b)) => Ok(Value::String(bytes_concat(&a, &b))),
            _ => Err(LoxError::runtime(op, ErrorKind::ExpectedNumbersOrStrings)),
        },
        TokenType::BangEqual => Ok(Value::Bool(!is_equal(left, right))),
        TokenType::EqualEqual => Ok(Value::Bool(is_equal(left, right))),
        _ => Err(LoxError::runtime(op, ErrorKind::UnexpectedToken)),
    }
}

/// The arity of what is called, or the error of calling what is not
/// callable.
pub fn callee_arity(callee: &Value, paren: &Token) -> (r: Result<usize, LoxError>)
    ensures
        match r {
            Ok(n) => arity_of(callee@, paren@) == Ok::<usize, ErrorView>(n),
            Err(e) => arity_of(callee@, paren@) == Err::<usize, ErrorView>(e@),
        },
{
    match callee {
        Value::Callable(c) => match &c.target {
            Target::Function(f) => Ok(f.arity()),
            Target::Class(class) => Ok(class.arity()),
        },
        _ => Err(LoxError::runtime(paren, ErrorKind::NotCallable)),
    }
}


impl Default for Interpreter {
    /// A fresh interpreter: the global scope alone, and no limit to speak of.
    fn default() -> (interp: Interpreter)
        ensures
            interp@ == State::initial(),
            interp.limit == u64::MAX,
    {
        let interp = Interpreter {
            environment: Environment::default(),
            instances: Vec::new(),
            next_id: 0,
            output: Vec::new(),
            limit: u64::MAX,
        };
        proof {
            assert(interp@.instances =~= State::initial().instances);
            assert(interp@.output =~= State::initial().output);
        }
        interp
    }
}

impl Interpreter {
    /// A fresh interpreter that lets calls nest and loops go round `limit`
    /// times.
    pub fn with_limit(limit: u64) -> (interp: Interpreter)
        ensures
            interp@ == State::initial(),
            interp.limit == limit,
    {
        let mut interp = Interpreter::default();
        interp.limit = limit;
        interp
    }

    /// Makes a callable value of `target`, with an identity that no callable
    /// made here before has; nothing where the identities have run out.
    pub fn callable(&mut self, target: Target) -> (r: Option<Value>)
        ensures
            match r {
                Some(v) => old(self).next_id < u64::MAX && v@ == ValueView::Callable(
                    Callable { id: old(self).next_id, target },
                ) && final(self).next_id == old(self).next_id + 1,
                None => old(self).next_id == u64::MAX && final(self).next_id == old(self).next_id,
            },
            final(self).environment == old(self).environment,
            final(self).instances == old(self).instances,
            final(self).output == old(self).output,
            final(self).limit == old(self).limit,
    {
        if self.next_id < u64::MAX {
            let id = self.next_id;
            self.next_id = id + 1;
            Some(Value::Callable(Callable { id, target }))
        } else {
            None
        }
    }

    /// Makes `f` a closure over the current scope: the function will run
    /// under that scope, and the scope is kept when it is left.
    pub fn close_over(&mut self, f: LoxFn) -> (g: LoxFn)
        ensures
            g == (LoxFn { decl: f.decl, closure: old(self).environment.current, receiver: f.receiver }),
            final(self)@ == old(self)@.with_env(old(self)@.env.capture()),
            final(self).limit == old(self).limit,
    {
        let scope = self.environment.capture();
        LoxFn { decl: f.decl, closure: scope, receiver: f.receiver }
    }

    /// Makes a new instance of `class`, without fields.
    pub fn instantiate(&mut self, class: &Rc<LoxClass>) -> (instance: LoxInstance)
        ensures
            final(self)@ == allocate(old(self)@, **class),
            instance.id == old(self).instances.len(),
            final(self).limit == old(self).limit,
    {
        let id = self.instances.len();
        self.instances.push(InstanceData { class: share(class), fields: Vec::new() });
        proof {
            assert(table_view(self.instances[id as int].fields@) =~= Map::empty());
            assert(self@.instances =~= allocate(old(self)@, **class).instances);
        }
        LoxInstance { id }
    }

    /// Reads a property of a value: a field of the instance or, failing
    /// that, a method of its class bound to it.
    pub fn read_property(&mut self, object: Value, name: &Token) -> (r: Result<Value, LoxError>)
        ensures
            (final(self)@, value_result(r)) == get_property(old(self)@, object@, name@),
            final(self).limit == old(self).limit,
    {
        let i = match object {
            Value::Instance(i) => i,
            _ => {
                return Err(LoxError::runtime(name, ErrorKind::ExpectedInstance));
            },
        };
        if i.id >= self.instances.len() {
            return Err(LoxError::runtime(name, ErrorKind::ExpectedInstance));
        }
        assert(self@.instances[i.id as int] == self.instances[i.id as int]@);
        match table_get(&self.instances[i.id].fields, &name.lexeme) {
            Some(v) => {
                return Ok(v);
            },
            None => {},
        }
        match self.instances[i.id].class.find_method(&i, &name.lexeme) {
            Some(m) => {
                if self.next_id < u64::MAX {
                    let id = self.next_id;
                    self.next_id = id + 1;
                    Ok(Value::Callable(Callable { id, target: Target::Function(m) }))
                } else {
                    Err(LoxError::runtime(name, ErrorKind::Exhausted))
                }
            },
            None => Err(LoxError::runtime(name, ErrorKind::UndefinedProperty)),
        }
    }

    /// The instance that a property is written to, or the type error.
    pub fn owner(&self, object: &Value, name: &Token) -> (r: Result<LoxInstance, LoxError>)
        ensures
            match r {
                Ok(i) => property_owner(self@, object@, name@) == Ok::<LoxInstance, ErrorView>(i),
                Err(e) => property_owner(self@, object@, name@) == Err::<LoxInstance, ErrorView>(
                    e@,
                ),
            },
    {
        match object {
            Value::Instance(i) => {
                if i.id < self.instances.len() {
                    Ok(*i)
                } else {
                    Err(LoxError::runtime(name, ErrorKind::ExpectedInstance))
                }
            },
            _ => Err(LoxError::runtime(name, ErrorKind::ExpectedInstance)),
        }
    }

    /// Sets a field of an instance, new or not.
    pub fn write_field(&mut self, instance: LoxInstance, name: &LoxStr, value: Value)
        ensures
            final(self)@ == set_field(old(self)@, instance, name@, value@),
            final(self).limit == old(self).limit,
    {
        if instance.id < self.instances.len() {
            table_put(&mut self.instances[instance.id].fields, name, value);
            proof {
                assert(self@.instances =~= set_field(
                    old(self)@,
                    instance,
                    name@,
                    value@,
                ).instances);
            }
        }
    }

    /// Hands the printable form of a value to the output.
    pub fn emit(&mut self, value: &Value)
        ensures
            final(self)@ == print(old(self)@, value@),
            final(self).limit == old(self).limit,
    {
        let form = self.display(value);
        self.output.push(form);
        proof {
            assert(self@.output =~= print(old(self)@, value@).output);
        }
    }

    /// Takes what has been printed since the output was last taken.
    pub fn take_output(&mut self) -> (printed: Vec<Shown>)
        ensures
            output_view(printed@) == old(self)@.output,
            final(self)@ == (State {
                env: old(self)@.env,
                instances: old(self)@.instances,
                next_id: old(self)@.next_id,
                output: Seq::empty(),
            }),
            final(self).limit == old(self).limit,
    {
        let mut printed: Vec<Shown> = Vec::new();
        std::mem::swap(&mut self.output, &mut printed);
        proof {
            assert(self@.output =~= Seq::empty());
        }
        printed
    }

    /// Opens the scope that the body of `f` runs in: a new scope under the
    /// one `f` was defined in, with the receiver under `this` and the
    /// parameters defined from the arguments.
    pub fn enter_call(&mut self, f: &LoxFn, args: &Vec<Value>) -> (scope: usize)
        ensures
            final(self)@ == old(self)@.with_env(
                call_env(old(self)@.env, *f, values_view(args@)),
            ),
            scope == old(self)@.env.scopes.len(),
            final(self).limit == old(self).limit,
    {
        let scope = self.environment.enter(Some(f.closure));
        match f.receiver {
            Some(instance) => {
                let this = this_text();
                self.environment.define(&this, Value::Instance(instance));
            },
            None => {},
        }
        let ghost start = self.environment@;
        let mut i: usize = 0;
        while i < f.decl.params.len() && i < args.len()
            invariant
                bind_parameters(start, f.decl.params@, values_view(args@), 0) == bind_parameters(
                    self.environment@,
                    f.decl.params@,
                    values_view(args@),
                    i as int,
                ),
                self.instances == old(self).instances,
                self.next_id == old(self).next_id,
                self.output == old(self).output,
                self.limit == old(self).limit,
            decreases f.decl.params.len() - i,
        {
            self.environment.define(&f.decl.params[i].lexeme, args[i].duplicate());
            i = i + 1;
        }
        scope
    }
}


impl Interpreter {
    /// Evaluates an expression in the current scope, under the
    /// interpreter's limit. Whether it fails or not, the cursor ends on the
    /// scope it started on and nothing that was there is lost.
    pub fn evaluate(&mut self, expr: &Expr) -> (r: Result<Value, LoxError>)
        ensures
            (final(self)@, value_result(r)) == eval(old(self)@, *expr, old(self).limit as nat),
            extends(old(self)@, final(self)@),
            final(self).limit == old(self).limit,
    {
        let fuel = self.limit;
        proof {
            evaluation_extends_the_state(self@, *expr, fuel as nat);
        }
        self.visit_expr(expr, fuel)
    }

    /// Executes a statement in the current scope, under the interpreter's
    /// limit. Whether it fails or not, the cursor ends on the scope it
    /// started on and nothing that was there is lost.
    pub fn execute(&mut self, stmt: &Stmt) -> (r: Result<(), LoxError>)
        ensures
            (final(self)@, unit_result(r)) == exec(old(self)@, *stmt, old(self).limit as nat),
            extends(old(self)@, final(self)@),
            final(self).limit == old(self).limit,
    {
        let fuel = self.limit;
        proof {
            execution_extends_the_state(self@, *stmt, fuel as nat);
        }
        self.visit_stmt(stmt, fuel)
    }

    /// Evaluates an expression under the limit `fuel`.
    pub fn visit_expr(&mut self, expr: &Expr, fuel: u64) -> (r: Result<Value, LoxError>)
        ensures
            (final(self)@, value_result(r)) == eval(old(self)@, *expr, fuel as nat),
            final(self).limit == old(self).limit,
        decreases fuel, expr, 3nat,
    {
        match expr {
            Expr::Assign(name, value) => {
                let v = match self.visit_expr(value, fuel) {
                    Ok(v) => v,
                    Err(e) => {
                        return Err(e);
                    },
                };
                if self.environment.assign(&name.lexeme, v.duplicate()) {
                    Ok(v)
                } else {
                    Err(LoxError::runtime(name, ErrorKind::UndefinedVariable))
                }
            },
            Expr::Binary(left, op, right) => {
                let l = match self.visit_expr(left, fuel) {
                    Ok(v) => v,
                    Err(e) => {
                        return Err(e);
                    },
                };
                let r = match self.visit_expr(right, fuel) {
                    Ok(v) => v,
                    Err(e) => {
                        return Err(e);
                    },
                };
                apply_binary(op, l, r)
            },
            Expr::Call(callee, _, args) => {
                let f = match self.visit_expr(callee, fuel) {
                    Ok(v) => v,
                    Err(e) => {
                        return Err(e);
                    },
                };
                let values = match self.visit_args(args, fuel) {
                    Ok(v) => v,
                    Err(e) => {
                        return Err(e);
                    },
                };
                self.call(f, values, expr, fuel)
            },
            Expr::GetField(object, name) => {
                let o = match self.visit_expr(object, fuel) {
                    Ok(v) => v,
                    Err(e) => {
                        return Err(e);
                    },
                };
                self.read_property(o, name)
            },
            Expr::Grouping(inner) => self.visit_expr(inner, fuel),
            Expr::Literal(v) => Ok(v.duplicate()),
            Expr::Logical(left, op, right) => {
                let l = match self.visit_expr(left, fuel) {
                    Ok(v) => v,
                    Err(e) => {
                        return Err(e);
                    },
                };
                match op.ty {
                    TokenType::And => if is_truthy(&l) {
                        self.visit_expr(right, fuel)
                    } else {
                        Ok(l)
                    },
                    TokenType::Or => if is_truthy(&l) {
                        Ok(l)
                    } else {
                        self.visit_expr(right, fuel)
                    },
                    _ => Err(LoxError::runtime(op, ErrorKind::UnexpectedToken)),
                }
            },
            Expr::SetField(object, name, value) => {
                let o = match self.visit_expr(object, fuel) {
                    Ok(v) => v,
                    Err(e) => {
                        return Err(e);
                    },
                };
                let instance = match self.owner(&o, name) {
                    Ok(i) => i,
                    Err(e) => {
                        return Err(e);
                    },
                };
                let v = match self.visit_expr(value, fuel) {
                    Ok(v) => v,
                    Err(e) => {
                        return Err(e);
                    },
                };
                self.write_field(instance, &name.lexeme, v.duplicate());
                Ok(v)
            },
            Expr::Unary(op, right) => {
                let v = match self.visit_expr(right, fuel) {
                    Ok(v) => v,
                    Err(e) => {
                        return Err(e);
                    },
                };
                apply_unary(op, v)
            },
            Expr::Variable(name) => match self.environment.get(&name.lexeme) {
                Some(v) => Ok(v),
                None => Err(LoxError::runtime(name, ErrorKind::UndefinedVariable)),
            },
        }
    }

    /// Evaluates the arguments of a call, from left to right.
    fn visit_args(&mut self, args: &Vec<Expr>, fuel: u64) -> (r: Result<Vec<Value>, LoxError>)
        ensures
            final(self)@ == eval_args(old(self)@, *args, 0, Seq::empty(), fuel as nat).0,
            match r {
                Ok(values) => eval_args(old(self)@, *args, 0, Seq::empty(), fuel as nat).1 == Ok::<
                    Seq<ValueView>,
                    ErrorView,
                >(values_view(values@)),
                Err(e) => eval_args(old(self)@, *args, 0, Seq::empty(), fuel as nat).1 == Err::<
                    Seq<ValueView>,
                    ErrorView,
                >(e@),
            },
            final(self).limit == old(self).limit,
        decreases fuel, args, args.len() + 1,
    {
        let mut values: Vec<Value> = Vec::new();
        let mut i: usize = 0;
        proof {
            assert(values_view(values@) =~= Seq::empty());
        }
        while i < args.len()
            invariant
                i <= args.len(),
                eval_args(old(self)@, *args, 0, Seq::empty(), fuel as nat) == eval_args(
                    self@,
                    *args,
                    i as nat,
                    values_view(values@),
                    fuel as nat,
                ),
                self.limit == old(self).limit,
            decreases args.len() - i,
        {
            let ghost before = values_view(values@);
            match self.visit_expr(&args[i], fuel) {
                Ok(v) => {
                    proof {
                        assert(values_view(values@.push(v)) =~= before.push(v@));
                    }
                    values.push(v);
                },
                Err(e) => {
                    return Err(e);
                },
            }
            i = i + 1;
        }
        Ok(values)
    }

    /// Calls `callee` with `args` at the call expression `site`, whose
    /// closing parenthesis is the token of the errors of the call.
    fn call(&mut self, callee: Value, args: Vec<Value>, site: &Expr, fuel: u64) -> (r: Result<
        Value,
        LoxError,
    >)
        ensures
            (final(self)@, value_result(r)) == invoke(
                old(self)@,
                callee@,
                values_view(args@),
                *site,
                fuel as nat,
            ),
            final(self).limit == old(self).limit,
        decreases fuel, site, 2nat,
    {
        let paren = match site {
            Expr::Call(_, paren, _) => paren,
            _ => {
                return Ok(Value::Nil);
            },
        };
        let arity = match callee_arity(&callee, paren) {
            Ok(n) => n,
            Err(e) => {
                return Err(e);
            },
        };
        if args.len() != arity {
            return Err(
                LoxError::runtime(paren, ErrorKind::Arity { expected: arity, got: args.len() }),
            );
        }
        match callee {
            Value::Callable(c) => match c.target {
                Target::Function(f) => self.run(&f, args, site, fuel),
                Target::Class(class) => self.construct(&class, args, site, fuel),
            },
            _ => Err(LoxError::runtime(paren, ErrorKind::NotCallable)),
        }
    }

    /// Calls a class as its constructor.
    fn construct(&mut self, class: &Rc<LoxClass>, args: Vec<Value>, site: &Expr, fuel: u64) -> (r:
        Result<Value, LoxError>)
        ensures
            (final(self)@, value_result(r)) == construct(
                old(self)@,
                **class,
                values_view(args@),
                *site,
                fuel as nat,
            ),
            final(self).limit == old(self).limit,
        decreases fuel, site, 1nat,
    {
        let instance = self.instantiate(class);
        let name = init_text();
        match class.find_own_method(&name) {
            Some(init) => {
                let bound = init.bind(instance);
                match self.run(&bound, args, site, fuel) {
                    Ok(_) => Ok(Value::Instance(instance)),
                    Err(e) => Err(e),
                }
            },
            None => Ok(Value::Instance(instance)),
        }
    }

    /// Runs the body of `f` on `args` in a new scope and leaves the scope.
    fn run(&mut self, f: &LoxFn, args: Vec<Value>, site: &Expr, fuel: u64) -> (r: Result<
        Value,
        LoxError,
    >)
        ensures
            (final(self)@, value_result(r)) == run(
                old(self)@,
                *f,
                values_view(args@),
                *site,
                fuel as nat,
            ),
            final(self).limit == old(self).limit,
        decreases fuel, site, 0nat,
    {
        let paren = match site {
            Expr::Call(_, paren, _) => paren,
            _ => {
                return Ok(Value::Nil);
            },
        };
        if fuel == 0 {
            return Err(LoxError::runtime(paren, ErrorKind::Exhausted));
        }
        let back = self.environment.current;
        let scope = self.enter_call(f, &args);
        match self.with_env(scope, back, &f.decl.body, fuel - 1) {
            Ok(_) => Ok(Value::Nil),
            Err(e) => Err(e),
        }
    }

    /// Executes statements in the scope that the cursor is on, then leaves
    /// scope `scope` and puts the cursor back on `back`, whether a statement
    /// failed or not.
    pub fn with_env(&mut self, scope: usize, back: usize, stmts: &Vec<Stmt>, fuel: u64) -> (r:
        Result<(), LoxError>)
        ensures
            ({
                let (s1, r1) = exec_items(old(self)@, *stmts, 0, fuel as nat);
                final(self)@ == s1.with_env(s1.env.leave(scope as nat, back as nat)) && unit_result(r) == r1
            }),
            final(self).limit == old(self).limit,
        decreases fuel, stmts, stmts.len() + 1,
    {
        let res = self.visit_items(stmts, fuel);
        self.environment.leave(scope, back);
        res
    }

    /// Executes statements in order, up to the first that fails.
    fn visit_items(&mut self, stmts: &Vec<Stmt>, fuel: u64) -> (r: Result<(), LoxError>)
        ensures
            (final(self)@, unit_result(r)) == exec_items(old(self)@, *stmts, 0, fuel as nat),
            final(self).limit == old(self).limit,
        decreases fuel, stmts, stmts.len(),
    {
        let mut i: usize = 0;
        while i < stmts.len()
            invariant
                i <= stmts.len(),
                exec_items(old(self)@, *stmts, 0, fuel as nat) == exec_items(
                    self@,
                    *stmts,
                    i as nat,
                    fuel as nat,
                ),
                self.limit == old(self).limit,
            decreases stmts.len() - i,
        {
            match self.visit_stmt(&stmts[i], fuel) {
                Ok(_) => {},
                Err(e) => {
                    return Err(e);
                },
            }
            i = i + 1;
        }
        Ok(())
    }

    /// Executes the statements of a block in a new child scope.
    pub fn execute_block(&mut self, stmts: &Vec<Stmt>, fuel: u64) -> (r: Result<(), LoxError>)
        ensures
            (final(self)@, unit_result(r)) == exec_block(old(self)@, *stmts, fuel as nat),
            final(self).limit == old(self).limit,
        decreases fuel, stmts, stmts.len() + 2,
    {
        let back = self.environment.current;
        let scope = self.environment.enter(Some(back));
        self.with_env(scope, back, stmts, fuel)
    }

    /// Executes a statement under the limit `fuel`.
    pub fn visit_stmt(&mut self, stmt: &Stmt, fuel: u64) -> (r: Result<(), LoxError>)
        ensures
            (final(self)@, unit_result(r)) == exec(old(self)@, *stmt, fuel as nat),
            final(self).limit == old(self).limit,
        decreases fuel, stmt, 1nat,
    {
        match stmt {
            Stmt::Block(stmts) => self.execute_block(stmts, fuel),
            Stmt::Expr(expr) => match self.visit_expr(expr, fuel) {
                Ok(_) => Ok(()),
                Err(e) => Err(e),
            },
            Stmt::If(cond, then, otherwise) => {
                let c = match self.visit_expr(cond, fuel) {
                    Ok(v) => v,
                    Err(e) => {
                        return Err(e);
                    },
                };
                if is_truthy(&c) {
                    self.visit_stmt(then, fuel)
                } else {
                    match otherwise {
                        Some(other) => self.visit_stmt(other, fuel),
                        None => Ok(()),
                    }
                }
            },
            Stmt::Print(expr) => match self.visit_expr(expr, fuel) {
                Ok(v) => {
                    self.emit(&v);
                    Ok(())
                },
                Err(e) => Err(e),
            },
            Stmt::Var(name, expr) => match self.visit_expr(expr, fuel) {
                Ok(v) => {
                    self.environment.define(&name.lexeme, v);
                    Ok(())
                },
                Err(e) => Err(e),
            },
            Stmt::While(_, _) => self.visit_while(stmt, fuel),
        }
    }

    /// Executes a loop under the limit `fuel`.
    fn visit_while(&mut self, stmt: &Stmt, fuel: u64) -> (r: Result<(), LoxError>)
        ensures
            (final(self)@, unit_result(r)) == exec_while(old(self)@, *stmt, fuel as nat),
            final(self).limit == old(self).limit,
        decreases fuel, stmt, 0nat,
    {
        let (cond, body) = match stmt {
            Stmt::While(cond, body) => (cond, body),
            _ => {
                return Ok(());
            },
        };
        let mut left: u64 = fuel;
        loop
            invariant
                left <= fuel,
                stmt == Stmt::While(*cond, *body),
                exec_while(old(self)@, *stmt, fuel as nat) == exec_while(self@, *stmt, left as nat),
                self.limit == old(self).limit,
            decreases left,
        {
            let c = match self.visit_expr(cond, left) {
                Ok(v) => v,
                Err(e) => {
                    return Err(e);
                },
            };
            if !is_truthy(&c) {
                return Ok(());
            }
            match self.visit_stmt(body, left) {
                Ok(_) => {},
                Err(e) => {
                    return Err(e);
                },
            }
            if left == 0 {
                let token = Token::new(TokenType::While, loop_text(), 0);
                return Err(LoxError::runtime(&token, ErrorKind::Exhausted));
            }
            left = left - 1;
        }
    }
}

/// The text `while`.
fn loop_text() -> (r: LoxStr)
    ensures
        r@ == loop_token().lexeme,
{
    let r: LoxStr = vec![119u8, 104u8, 105u8, 108u8, 101u8];
    assert(r@ =~= loop_token().lexeme);
    r
}

} // verus!
