//! What holds of every run: theorems about the rules of `semantics`.

use vstd::prelude::*;
use crate::error::{ErrorKind, ErrorView};
use crate::number::is_nan;
use crate::environment::EnvView;
use crate::semantics::{
    bind_parameters, call_env, construct, eval, eval_args, exec, exec_block, exec_items,
    exec_while, failure, get_property, invoke, run, truthy, values_equal, State,
};
use crate::token::Token;
use crate::value::{Expr, LoxClass, LoxFn, LoxInstance, Stmt, Target, Value, ValueView};

verus! {

/// Every value is equal to itself: nil, booleans, strings and numbers by
/// value, callables and instances by identity. The one exception is a number
/// that is a NaN, which as a double is equal to nothing.
pub proof fn equality_is_reflexive(v: ValueView)
    requires
        !(v matches ValueView::Number(n) && is_nan(n)),
    ensures
        values_equal(v, v),
{
}

/// Equality does not depend on the order of its operands.
pub proof fn equality_is_symmetric(a: ValueView, b: ValueView)
    ensures
        values_equal(a, b) == values_equal(b, a),
{
}

/// Values of different variants are never equal.
pub proof fn equality_needs_one_variant(a: ValueView, b: ValueView)
    requires
        values_equal(a, b),
    ensures
        a is Nil <==> b is Nil,
        a is Bool <==> b is Bool,
        a is Number <==> b is Number,
        a is String <==> b is String,
        a is Callable <==> b is Callable,
        a is Instance <==> b is Instance,
{
}

/// Assigning to a name that no scope in the chain binds fails with the
/// undefined-variable error at that name, once the right-hand side has been
/// evaluated, and binds nothing.
pub proof fn assignment_to_an_undeclared_name_fails(s: State, name: Token, value: Expr, fuel: nat)
    requires
        eval(s, value, fuel).1 is Ok,
        eval(s, value, fuel).0.env.resolve(
            eval(s, value, fuel).0.env.current as int,
            name.lexeme@,
        ) is None,
    ensures
        eval(s, Expr::Assign(name, Box::new(value)), fuel) == (
            eval(s, value, fuel).0,
            Err::<ValueView, ErrorView>(failure(name@, ErrorKind::UndefinedVariable)),
        ),
{
}

/// A loop whose condition is the literal `false` executes its body zero
/// times and does not fail: it leaves the state as it was, whatever the
/// body is.
pub proof fn a_loop_on_false_does_nothing(s: State, body: Stmt, fuel: nat)
    ensures
        exec(s, Stmt::While(Expr::Literal(Value::Bool(false)), Box::new(body)), fuel) == (
            s,
            Ok::<(), ErrorView>(()),
        ),
{
    let cond = Expr::Literal(Value::Bool(false));
    let stmt = Stmt::While(cond, Box::new(body));
    assert(eval(s, cond, fuel) == (s, Ok::<ValueView, ErrorView>(ValueView::Bool(false))));
    assert(crate::semantics::exec_while(s, stmt, fuel) == (s, Ok::<(), ErrorView>(())));
}

/// A loop whose condition evaluates to something falsy executes its body
/// zero times: what it does is what evaluating the condition does.
pub proof fn a_loop_on_a_falsy_condition_only_evaluates_it(
    s: State,
    cond: Expr,
    body: Stmt,
    fuel: nat,
)
    requires
        eval(s, cond, fuel).1 matches Ok(v) && !truthy(v),
    ensures
        exec(s, Stmt::While(cond, Box::new(body)), fuel) == (
            eval(s, cond, fuel).0,
            Ok::<(), ErrorView>(()),
        ),
{
    let stmt = Stmt::While(cond, Box::new(body));
    assert(crate::semantics::exec_while(s, stmt, fuel) == (
        eval(s, cond, fuel).0,
        Ok::<(), ErrorView>(()),
    ));
}

/// Calling a value that is not callable fails with the not-callable error at
/// the call's closing parenthesis, whatever the arguments are and however
/// many: never with an arity mismatch. The state is left as it was.
pub proof fn calling_what_is_not_callable_fails(
    s: State,
    callee: ValueView,
    args: Seq<ValueView>,
    target: Expr,
    paren: Token,
    operands: Vec<Expr>,
    fuel: nat,
)
    requires
        !(callee is Callable),
    ensures
        invoke(s, callee, args, Expr::Call(Box::new(target), paren, operands), fuel) == (
            s,
            Err::<ValueView, ErrorView>(failure(paren@, ErrorKind::NotCallable)),
        ),
{
}

/// Two lookups of one method on one instance, one after the other, give two
/// callables that are not equal, and that run the same function on the same
/// receiver: calling the one does in every state what calling the other
/// does.
pub proof fn two_lookups_of_a_method_differ_in_identity_only(
    s: State,
    instance: LoxInstance,
    name: Token,
    args: Seq<ValueView>,
    then: State,
    site: Expr,
    fuel: nat,
)
    requires
        instance.id < s.instances.len(),
        !s.instances[instance.id as int].fields.dom().contains(name.lexeme@),
        s.instances[instance.id as int].class.method(name.lexeme@) is Some,
        s.next_id + 1 < u64::MAX,
    ensures
        ({
            let (s1, first) = get_property(s, ValueView::Instance(instance), name@);
            let (s2, second) = get_property(s1, ValueView::Instance(instance), name@);
            &&& first matches Ok(ValueView::Callable(a))
            &&& second matches Ok(ValueView::Callable(b))
            &&& !values_equal(ValueView::Callable(a), ValueView::Callable(b))
            &&& a.target == b.target
            &&& a.target matches Target::Function(f)
            &&& f.receiver == Some(instance)
            &&& Some(f) == s.instances[instance.id as int].class.bound_method(
                instance,
                name.lexeme@,
            )
            &&& invoke(then, ValueView::Callable(a), args, site, fuel) == invoke(
                then,
                ValueView::Callable(b),
                args,
                site,
                fuel,
            )
        }),
{
}


/// The scopes of `a` are still there in `b`, each with the parent it had and
/// every name it bound, and captured if it was.
pub open spec fn keeps_scopes(a: EnvView, b: EnvView) -> bool {
    &&& a.scopes.len() <= b.scopes.len()
    &&& forall|i: int|
        0 <= i < a.scopes.len() ==> {
            &&& (#[trigger] b.scopes[i]).parent == a.scopes[i].parent
            &&& a.scopes[i].bindings.dom().subset_of(b.scopes[i].bindings.dom())
            &&& a.scopes[i].captured ==> b.scopes[i].captured
        }
}

/// State `t` is what a run can make of state `s`. The cursor is on the scope
/// it was on. No scope that was there is gone, nor has one lost a binding or
/// changed its parent. No instance is gone, nor has one changed its class or
/// lost a field. What was printed is still there, in its order; and no
/// identity that was given to a callable will be given again.
pub open spec fn extends(s: State, t: State) -> bool {
    &&& t.env.current == s.env.current
    &&& keeps_scopes(s.env, t.env)
    &&& s.instances.len() <= t.instances.len()
    &&& forall|i: int|
        0 <= i < s.instances.len() ==> {
            &&& (#[trigger] t.instances[i]).class == s.instances[i].class
            &&& s.instances[i].fields.dom().subset_of(t.instances[i].fields.dom())
        }
    &&& s.next_id <= t.next_id
    &&& s.output.len() <= t.output.len()
    &&& forall|i: int| 0 <= i < s.output.len() ==> #[trigger] t.output[i] == s.output[i]
}

/// Scopes kept twice over are kept.
proof fn lemma_keeps_scopes_transitive(a: EnvView, b: EnvView, c: EnvView)
    requires
        keeps_scopes(a, b),
        keeps_scopes(b, c),
    ensures
        keeps_scopes(a, c),
{
    assert forall|i: int| 0 <= i < a.scopes.len() implies {
        &&& (#[trigger] c.scopes[i]).parent == a.scopes[i].parent
        &&& a.scopes[i].bindings.dom().subset_of(c.scopes[i].bindings.dom())
        &&& a.scopes[i].captured ==> c.scopes[i].captured
    } by {
        assert(b.scopes[i].parent == a.scopes[i].parent);
    }
}

/// What a run can make of what a run can make of a state, a run can make of
/// that state.
pub proof fn extends_is_transitive(a: State, b: State, c: State)
    requires
        extends(a, b),
        extends(b, c),
    ensures
        extends(a, c),
{
    lemma_keeps_scopes_transitive(a.env, b.env, c.env);
    assert forall|i: int| 0 <= i < a.instances.len() implies {
        &&& (#[trigger] c.instances[i]).class == a.instances[i].class
        &&& a.instances[i].fields.dom().subset_of(c.instances[i].fields.dom())
    } by {
        assert(b.instances[i].class == a.instances[i].class);
    }
    assert forall|i: int| 0 <= i < a.output.len() implies #[trigger] c.output[i]
        == a.output[i] by {
        assert(b.output[i] == a.output[i]);
    }
}

/// Binding a name in a scope keeps every scope.
proof fn lemma_bind_keeps_scopes(env: EnvView, i: int, name: Seq<u8>, value: ValueView)
    requires
        0 <= i < env.scopes.len(),
    ensures
        keeps_scopes(env, env.bind(i, name, value)),
        env.bind(i, name, value).scopes.len() == env.scopes.len(),
        env.bind(i, name, value).current == env.current,
{
}

/// Defining the parameters of a call keeps every scope and the cursor.
proof fn lemma_bind_parameters_keeps_scopes(
    env: EnvView,
    params: Seq<Token>,
    args: Seq<ValueView>,
    i: int,
)
    ensures
        keeps_scopes(env, bind_parameters(env, params, args, i)),
        bind_parameters(env, params, args, i).scopes.len() == env.scopes.len(),
        bind_parameters(env, params, args, i).current == env.current,
    decreases params.len() - i,
{
    if !(i < 0 || i >= params.len() || i >= args.len()) {
        let next = env.define(params[i].lexeme@, args[i]);
        if env.current < env.scopes.len() {
            lemma_bind_keeps_scopes(env, env.current as int, params[i].lexeme@, args[i]);
        }
        lemma_bind_parameters_keeps_scopes(next, params, args, i + 1);
        lemma_keeps_scopes_transitive(env, next, bind_parameters(next, params, args, i + 1));
    }
}

/// The scope of a call is one new scope at the end of the list, with the
/// cursor on it.
proof fn lemma_call_env(env: EnvView, f: LoxFn, args: Seq<ValueView>)
    ensures
        keeps_scopes(env, call_env(env, f, args)),
        call_env(env, f, args).scopes.len() == env.scopes.len() + 1,
        call_env(env, f, args).current == env.scopes.len(),
{
    let entered = env.enter(Some(f.closure as nat));
    let with_receiver = match f.receiver {
        Some(instance) => entered.define(crate::class::this_name(), ValueView::Instance(instance)),
        None => entered,
    };
    assert(keeps_scopes(env, entered));
    if f.receiver is Some {
        lemma_bind_keeps_scopes(
            entered,
            entered.current as int,
            crate::class::this_name(),
            ValueView::Instance(f.receiver.unwrap()),
        );
    }
    lemma_keeps_scopes_transitive(env, entered, with_receiver);
    lemma_bind_parameters_keeps_scopes(with_receiver, f.decl.params@, args, 0);
    lemma_keeps_scopes_transitive(env, with_receiver, call_env(env, f, args));
}

/// Leaving the scope that was entered at the end of the list puts the state
/// back among those that a run can make of the state before the scope was
/// entered.
proof fn lemma_leave(s: State, inner: State, after: State)
    requires
        keeps_scopes(s.env, inner.env),
        inner.env.scopes.len() == s.env.scopes.len() + 1,
        inner.instances == s.instances,
        inner.next_id == s.next_id,
        inner.output == s.output,
        extends(inner, after),
    ensures
        extends(
            s,
            after.with_env(after.env.leave(s.env.scopes.len(), s.env.current)),
        ),
{
    let left = after.env.leave(s.env.scopes.len(), s.env.current);
    lemma_keeps_scopes_transitive(s.env, inner.env, after.env);
    assert(keeps_scopes(s.env, left));
}

/// Evaluating an expression makes of a state only what a run can make of it:
/// above all, the cursor ends on the scope it started on, whether the
/// evaluation failed or not.
pub proof fn evaluation_extends_the_state(s: State, e: Expr, fuel: nat)
    ensures
        extends(s, eval(s, e, fuel).0),
    decreases fuel, e, 3nat,
{
    match e {
        Expr::Literal(_) => {},
        Expr::Variable(_) => {},
        Expr::Grouping(inner) => {
            evaluation_extends_the_state(s, *inner, fuel);
        },
        Expr::Assign(name, value) => {
            evaluation_extends_the_state(s, *value, fuel);
            let (s1, r) = eval(s, *value, fuel);
            if let Ok(v) = r {
                if let Some(i) = s1.env.resolve(s1.env.current as int, name.lexeme@) {
                    lemma_resolve_in_range(s1.env, s1.env.current as int, name.lexeme@);
                    lemma_bind_keeps_scopes(s1.env, i, name.lexeme@, v);
                    extends_is_transitive(s, s1, eval(s, e, fuel).0);
                }
            }
        },
        Expr::Unary(_, right) => {
            evaluation_extends_the_state(s, *right, fuel);
        },
        Expr::Binary(left, _, right) => {
            evaluation_extends_the_state(s, *left, fuel);
            let (s1, l) = eval(s, *left, fuel);
            if l is Ok {
                evaluation_extends_the_state(s1, *right, fuel);
                extends_is_transitive(s, s1, eval(s1, *right, fuel).0);
            }
        },
        Expr::Logical(left, _, right) => {
            evaluation_extends_the_state(s, *left, fuel);
            let (s1, l) = eval(s, *left, fuel);
            if l is Ok {
                evaluation_extends_the_state(s1, *right, fuel);
                extends_is_transitive(s, s1, eval(s1, *right, fuel).0);
            }
        },
        Expr::Call(callee, _, args) => {
            evaluation_extends_the_state(s, *callee, fuel);
            let (s1, c) = eval(s, *callee, fuel);
            if let Ok(f) = c {
                arguments_extend_the_state(s1, args, 0, Seq::empty(), fuel);
                let (s2, a) = eval_args(s1, args, 0, Seq::empty(), fuel);
                extends_is_transitive(s, s1, s2);
                if let Ok(values) = a {
                    a_call_extends_the_state(s2, f, values, e, fuel);
                    extends_is_transitive(s, s2, invoke(s2, f, values, e, fuel).0);
                }
            }
        },
        Expr::GetField(object, _) => {
            evaluation_extends_the_state(s, *object, fuel);
            let (s1, o) = eval(s, *object, fuel);
            if o is Ok {
                extends_is_transitive(s, s1, eval(s, e, fuel).0);
            }
        },
        Expr::SetField(object, name, value) => {
            evaluation_extends_the_state(s, *object, fuel);
            let (s1, o) = eval(s, *object, fuel);
            if let Ok(target) = o {
                if crate::semantics::property_owner(s1, target, name@) is Ok {
                    evaluation_extends_the_state(s1, *value, fuel);
                    let (s2, r) = eval(s1, *value, fuel);
                    extends_is_transitive(s, s1, s2);
                    if r is Ok {
                        extends_is_transitive(s, s2, eval(s, e, fuel).0);
                    }
                }
            }
        },
    }
}

/// The statements that a function runs.
pub open spec fn body_of(f: LoxFn) -> Vec<Stmt> {
    f.decl.body
}

/// The class that a constructor call makes an instance of.
pub open spec fn class_of(target: Target) -> LoxClass
    recommends
        target is Class,
{
    *target->Class_0
}

/// The scope that a name resolves to is in the list.
proof fn lemma_resolve_in_range(env: EnvView, from: int, name: Seq<u8>)
    ensures
        env.resolve(from, name) matches Some(i) ==> 0 <= i < env.scopes.len(),
    decreases from,
{
    if !(from < 0 || from >= env.scopes.len()) && !env.scopes[from].bindings.dom().contains(name) {
        if let Some(p) = env.scopes[from].parent {
            if p < from {
                lemma_resolve_in_range(env, p as int, name);
            }
        }
    }
}

/// Evaluating the arguments of a call makes of a state only what a run can
/// make of it.
pub proof fn arguments_extend_the_state(
    s: State,
    args: Vec<Expr>,
    i: nat,
    done: Seq<ValueView>,
    fuel: nat,
)
    ensures
        extends(s, eval_args(s, args, i, done, fuel).0),
    decreases fuel, args, args.len() - i,
{
    if i < args.len() {
        evaluation_extends_the_state(s, args[i as int], fuel);
        let (s1, r) = eval(s, args[i as int], fuel);
        if let Ok(v) = r {
            arguments_extend_the_state(s1, args, i + 1, done.push(v), fuel);
            extends_is_transitive(s, s1, eval_args(s1, args, i + 1, done.push(v), fuel).0);
        }
    }
}

/// A call makes of a state only what a run can make of it.
pub proof fn a_call_extends_the_state(
    s: State,
    callee: ValueView,
    args: Seq<ValueView>,
    site: Expr,
    fuel: nat,
)
    ensures
        extends(s, invoke(s, callee, args, site, fuel).0),
    decreases fuel, site, 2nat,
{
    if let Expr::Call(_, paren, _) = site {
        if let Ok(arity) = crate::semantics::arity_of(callee, paren@) {
            if args.len() == arity {
                if let ValueView::Callable(c) = callee {
                    match c.target {
                        Target::Function(f) => {
                            a_function_extends_the_state(s, f, args, site, fuel);
                        },
                        Target::Class(class) => {
                            a_constructor_extends_the_state(s, class_of(c.target), args, site, fuel);
                        },
                    }
                }
            }
        }
    }
}

/// A constructor call makes of a state only what a run can make of it.
pub proof fn a_constructor_extends_the_state(
    s: State,
    class: LoxClass,
    args: Seq<ValueView>,
    site: Expr,
    fuel: nat,
)
    ensures
        extends(s, construct(s, class, args, site, fuel).0),
    decreases fuel, site, 1nat,
{
    let instance = LoxInstance { id: s.instances.len() as usize };
    let s1 = crate::semantics::allocate(s, class);
    assert(extends(s, s1));
    if let Some(init) = class.own_method(crate::class::init_name()) {
        a_function_extends_the_state(s1, init.bound(instance), args, site, fuel);
        extends_is_transitive(s, s1, run(s1, init.bound(instance), args, site, fuel).0);
    }
}

/// Running a function makes of a state only what a run can make of it: the
/// scope of the call is left, and the cursor is back on the caller's scope,
/// whether the body failed or not.
pub proof fn a_function_extends_the_state(
    s: State,
    f: LoxFn,
    args: Seq<ValueView>,
    site: Expr,
    fuel: nat,
)
    ensures
        extends(s, run(s, f, args, site, fuel).0),
    decreases fuel, site, 0nat,
{
    if let Expr::Call(_, _, _) = site {
        if fuel > 0 {
            lemma_call_env(s.env, f, args);
            let inner = s.with_env(call_env(s.env, f, args));
            statements_extend_the_state(inner, body_of(f), 0, (fuel - 1) as nat);
            let after = exec_items(inner, body_of(f), 0, (fuel - 1) as nat).0;
            lemma_leave(s, inner, after);
        }
    }
}


/// Executing a statement makes of a state only what a run can make of it:
/// above all, the cursor ends on the scope it started on, whether the
/// statement failed or not.
pub proof fn execution_extends_the_state(s: State, stmt: Stmt, fuel: nat)
    ensures
        extends(s, exec(s, stmt, fuel).0),
    decreases fuel, stmt, 1nat,
{
    match stmt {
        Stmt::Block(stmts) => {
            a_block_extends_the_state(s, stmts, fuel);
        },
        Stmt::Expr(e) => {
            evaluation_extends_the_state(s, e, fuel);
        },
        Stmt::If(cond, then, otherwise) => {
            evaluation_extends_the_state(s, cond, fuel);
            let (s1, c) = eval(s, cond, fuel);
            if let Ok(v) = c {
                if truthy(v) {
                    execution_extends_the_state(s1, *then, fuel);
                    extends_is_transitive(s, s1, exec(s1, *then, fuel).0);
                } else if let Some(other) = otherwise {
                    execution_extends_the_state(s1, *other, fuel);
                    extends_is_transitive(s, s1, exec(s1, *other, fuel).0);
                }
            }
        },
        Stmt::Print(e) => {
            evaluation_extends_the_state(s, e, fuel);
            let (s1, r) = eval(s, e, fuel);
            if let Ok(v) = r {
                assert(extends(s1, crate::semantics::print(s1, v)));
                extends_is_transitive(s, s1, crate::semantics::print(s1, v));
            }
        },
        Stmt::Var(name, e) => {
            evaluation_extends_the_state(s, e, fuel);
            let (s1, r) = eval(s, e, fuel);
            if let Ok(v) = r {
                if s1.env.current < s1.env.scopes.len() {
                    lemma_bind_keeps_scopes(s1.env, s1.env.current as int, name.lexeme@, v);
                }
                extends_is_transitive(s, s1, exec(s, stmt, fuel).0);
            }
        },
        Stmt::While(_, _) => {
            a_loop_extends_the_state(s, stmt, fuel);
        },
    }
}

/// Executing a block makes of a state only what a run can make of it: the
/// scope of the block is left, and the cursor is back on the enclosing
/// scope, whether a statement failed or not.
pub proof fn a_block_extends_the_state(s: State, stmts: Vec<Stmt>, fuel: nat)
    ensures
        extends(s, exec_block(s, stmts, fuel).0),
    decreases fuel, stmts, stmts.len() + 1,
{
    let inner = s.with_env(s.env.child());
    assert(keeps_scopes(s.env, inner.env));
    statements_extend_the_state(inner, stmts, 0, fuel);
    lemma_leave(s, inner, exec_items(inner, stmts, 0, fuel).0);
}

/// Executing statements in order makes of a state only what a run can make
/// of it.
pub proof fn statements_extend_the_state(s: State, stmts: Vec<Stmt>, i: nat, fuel: nat)
    ensures
        extends(s, exec_items(s, stmts, i, fuel).0),
    decreases fuel, stmts, stmts.len() - i,
{
    if i < stmts.len() {
        execution_extends_the_state(s, stmts[i as int], fuel);
        let (s1, r) = exec(s, stmts[i as int], fuel);
        if r is Ok {
            statements_extend_the_state(s1, stmts, i + 1, fuel);
            extends_is_transitive(s, s1, exec_items(s1, stmts, i + 1, fuel).0);
        }
    }
}

/// Executing a loop makes of a state only what a run can make of it.
pub proof fn a_loop_extends_the_state(s: State, stmt: Stmt, fuel: nat)
    ensures
        extends(s, exec_while(s, stmt, fuel).0),
    decreases fuel, stmt, 0nat,
{
    if let Stmt::While(cond, body) = stmt {
        evaluation_extends_the_state(s, cond, fuel);
        let (s1, c) = eval(s, cond, fuel);
        if let Ok(v) = c {
            if truthy(v) {
                execution_extends_the_state(s1, *body, fuel);
                let (s2, r) = exec(s1, *body, fuel);
                extends_is_transitive(s, s1, s2);
                if r is Ok && fuel > 0 {
                    a_loop_extends_the_state(s2, stmt, (fuel - 1) as nat);
                    extends_is_transitive(s, s2, exec_while(s2, stmt, (fuel - 1) as nat).0);
                }
            }
        }
    }
}

} // verus!
