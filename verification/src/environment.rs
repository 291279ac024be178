//! Lexical scopes.
//!
//! The scopes of a run live in one list. A scope names its parent by the
//! parent's place in the list, and a parent always stands before its
//! children, so a chain of scopes is walked towards the front. The
//! environment is the list with a cursor on the innermost scope.

use vstd::prelude::*;
use crate::table::{option_view, position, table_get, table_put, table_view};
use crate::token::LoxStr;
use crate::value::{Value, ValueView};

verus! {

/// One scope: its bindings, its parent, and whether a function has captured
/// it and may run in it later.
#[derive(Debug)]
pub struct Scope {
    pub bindings: Vec<(LoxStr, Value)>,
    pub parent: Option<usize>,
    pub captured: bool,
}

/// A scope as a mapping from names to values.
pub ghost struct ScopeView {
    pub bindings: Map<Seq<u8>, ValueView>,
    pub parent: Option<nat>,
    pub captured: bool,
}

/// The place of a parent, if there is one, as a natural number.
pub open spec fn place(parent: Option<usize>) -> Option<nat> {
    match parent {
        Some(p) => Some(p as nat),
        None => None,
    }
}

impl View for Scope {
    type V = ScopeView;

    open spec fn view(&self) -> ScopeView {
        ScopeView {
            bindings: table_view(self.bindings@),
            parent: place(self.parent),
            captured: self.captured,
        }
    }
}

/// The scopes of a run and the cursor on the current one.
#[derive(Debug)]
pub struct Environment {
    pub scopes: Vec<Scope>,
    pub current: usize,
}

/// An environment as a sequence of mappings and a cursor.
pub ghost struct EnvView {
    pub scopes: Seq<ScopeView>,
    pub current: nat,
}

impl View for Environment {
    type V = EnvView;

    open spec fn view(&self) -> EnvView {
        EnvView {
            scopes: Seq::new(self.scopes.len() as nat, |i: int| self.scopes[i]@),
            current: self.current as nat,
        }
    }
}

impl EnvView {
    /// The environment of a fresh run: the global scope alone.
    pub open spec fn initial() -> EnvView {
        EnvView {
            scopes: seq![ScopeView { bindings: Map::empty(), parent: None, captured: false }],
            current: 0,
        }
    }

    /// Every scope's parent stands before it, and the cursor is on a scope.
    pub open spec fn wf(self) -> bool {
        &&& self.current < self.scopes.len()
        &&& forall|i: int|
            0 <= i < self.scopes.len() ==> match (#[trigger] self.scopes[i]).parent {
                Some(p) => p < i,
                None => true,
            }
    }

    /// The nearest scope that binds `name`, walking outward from scope `from`.
    pub open spec fn resolve(self, from: int, name: Seq<u8>) -> Option<int>
        decreases from,
    {
        if from < 0 || from >= self.scopes.len() {
            None
        } else if self.scopes[from].bindings.dom().contains(name) {
            Some(from)
        } else {
            match self.scopes[from].parent {
                Some(p) => if p < from {
                    self.resolve(p as int, name)
                } else {
                    None
                },
                None => None,
            }
        }
    }

    /// The nearest binding of `name` as seen from the current scope.
    pub open spec fn get(self, name: Seq<u8>) -> Option<ValueView> {
        match self.resolve(self.current as int, name) {
            Some(i) => Some(self.scopes[i].bindings[name]),
            None => None,
        }
    }

    /// Scope `i` with `name` bound to `value`, the others as they were.
    pub open spec fn bind(self, i: int, name: Seq<u8>, value: ValueView) -> EnvView {
        EnvView {
            scopes: self.scopes.update(
                i,
                ScopeView {
                    bindings: self.scopes[i].bindings.insert(name, value),
                    parent: self.scopes[i].parent,
                    captured: self.scopes[i].captured,
                },
            ),
            current: self.current,
        }
    }

    /// `name` bound to `value` in the current scope, whatever it was bound
    /// to there or further out.
    pub open spec fn define(self, name: Seq<u8>, value: ValueView) -> EnvView {
        if self.current < self.scopes.len() {
            self.bind(self.current as int, name, value)
        } else {
            self
        }
    }

    /// The nearest binding of `name` overwritten in the scope that owns it;
    /// nothing where no scope in the chain binds the name.
    pub open spec fn assign(self, name: Seq<u8>, value: ValueView) -> Option<EnvView> {
        match self.resolve(self.current as int, name) {
            Some(i) => Some(self.bind(i, name, value)),
            None => None,
        }
    }

    /// A new empty scope under `parent`, with the cursor on it.
    pub open spec fn enter(self, parent: Option<nat>) -> EnvView {
        EnvView {
            scopes: self.scopes.push(
                ScopeView { bindings: Map::empty(), parent, captured: false },
            ),
            current: self.scopes.len(),
        }
    }

    /// The cursor set back to `back` on leaving scope `scope`. The scope is
    /// discarded if it is the newest and no function has captured it.
    pub open spec fn leave(self, scope: nat, back: nat) -> EnvView {
        if self.scopes.len() == scope + 1 && !self.scopes[scope as int].captured {
            EnvView { scopes: self.scopes.drop_last(), current: back }
        } else {
            EnvView { scopes: self.scopes, current: back }
        }
    }

    /// The current scope marked as captured.
    pub open spec fn capture(self) -> EnvView {
        if self.current < self.scopes.len() {
            EnvView {
                scopes: self.scopes.update(
                    self.current as int,
                    ScopeView {
                        bindings: self.scopes[self.current as int].bindings,
                        parent: self.scopes[self.current as int].parent,
                        captured: true,
                    },
                ),
                current: self.current,
            }
        } else {
            self
        }
    }

    /// A child of the current scope, with the cursor on it.
    pub open spec fn child(self) -> EnvView {
        self.enter(Some(self.current))
    }

    /// The current scope left for its parent; nothing at the root.
    pub open spec fn into_parent(self) -> Option<EnvView> {
        if self.current < self.scopes.len() {
            match self.scopes[self.current as int].parent {
                Some(p) => Some(self.leave(self.current, p)),
                None => None,
            }
        } else {
            None
        }
    }
}

impl Default for Environment {
    fn default() -> (e: Environment)
        ensures
            e@ == EnvView::initial(),
            e@.wf(),
    {
        let mut scopes: Vec<Scope> = Vec::new();
        scopes.push(Scope { bindings: Vec::new(), parent: None, captured: false });
        let e = Environment { scopes, current: 0 };
        proof {
            assert(table_view(e.scopes[0].bindings@) =~= Map::empty());
            assert(e@.scopes =~= EnvView::initial().scopes);
        }
        e
    }
}

impl Environment {
    /// Finds the nearest scope that binds `name`.
    pub fn resolve(&self, name: &LoxStr) -> (r: Option<usize>)
        ensures
            match r {
                Some(i) => self@.resolve(self.current as int, name@) == Some(i as int) && i
                    < self.scopes.len() && self@.scopes[i as int].bindings.dom().contains(name@),
                None => self@.resolve(self.current as int, name@) is None,
            },
    {
        let mut idx: usize = self.current;
        loop
            invariant
                self@.resolve(self.current as int, name@) == self@.resolve(idx as int, name@),
            decreases idx,
        {
            if idx >= self.scopes.len() {
                return None;
            }
            assert(self@.scopes[idx as int] == self.scopes[idx as int]@);
            if position(&self.scopes[idx].bindings, name).is_some() {
                return Some(idx);
            }
            match self.scopes[idx].parent {
                Some(p) => {
                    if p < idx {
                        idx = p;
                    } else {
                        return None;
                    }
                },
                None => {
                    return None;
                },
            }
        }
    }

    /// Binds `name` to `value` in the current scope only, over any binding
    /// the name has there.
    pub fn define(&mut self, name: &LoxStr, value: Value)
        ensures
            final(self)@ == old(self)@.define(name@, value@),
            old(self)@.wf() ==> final(self)@.wf(),
    {
        let at = self.current;
        if at < self.scopes.len() {
            self.bind(at, name, value);
        }
    }

    /// Binds `name` to `value` in scope `i`.
    fn bind(&mut self, i: usize, name: &LoxStr, value: Value)
        requires
            i < old(self).scopes.len(),
        ensures
            final(self)@ == old(self)@.bind(i as int, name@, value@),
            old(self)@.wf() ==> final(self)@.wf(),
    {
        table_put(&mut self.scopes[i].bindings, name, value);
        proof {
            assert(self@.scopes =~= old(self)@.bind(i as int, name@, value@).scopes);
        }
    }

    /// Reads the nearest binding of `name`, walking outward from the current
    /// scope; nothing if no scope in the chain binds it.
    pub fn get(&self, name: &LoxStr) -> (r: Option<Value>)
        ensures
            option_view(r) == self@.get(name@),
    {
        match self.resolve(name) {
            Some(i) => {
                assert(self@.scopes[i as int] == self.scopes[i as int]@);
                table_get(&self.scopes[i].bindings, name)
            },
            None => None,
        }
    }

    /// Overwrites the nearest binding of `name` in the scope that owns it and
    /// tells whether there was one; binds nothing new.
    pub fn assign(&mut self, name: &LoxStr, value: Value) -> (found: bool)
        ensures
            match old(self)@.assign(name@, value@) {
                Some(e) => found && final(self)@ == e,
                None => !found && final(self)@ == old(self)@,
            },
            old(self)@.wf() ==> final(self)@.wf(),
    {
        match self.resolve(name) {
            Some(i) => {
                self.bind(i, name, value);
                true
            },
            None => false,
        }
    }

    /// Opens a new empty scope under `parent`, moves the cursor to it and
    /// returns its place.
    pub fn enter(&mut self, parent: Option<usize>) -> (scope: usize)
        ensures
            final(self)@ == old(self)@.enter(place(parent)),
            scope == old(self).scopes.len(),
            scope == final(self).current,
            old(self)@.wf() && (parent matches Some(p) ==> p < old(self).scopes.len())
                ==> final(self)@.wf(),
    {
        let scope = self.scopes.len();
        self.scopes.push(Scope { bindings: Vec::new(), parent, captured: false });
        self.current = scope;
        proof {
            assert(table_view(self.scopes[scope as int].bindings@) =~= Map::empty());
            assert(self@.scopes =~= old(self)@.enter(place(parent)).scopes);
        }
        scope
    }

    /// Leaves scope `scope` and puts the cursor back on `back`. The scope is
    /// discarded if it is the newest and no function has captured it.
    pub fn leave(&mut self, scope: usize, back: usize)
        ensures
            final(self)@ == old(self)@.leave(scope as nat, back as nat),
            old(self)@.wf() && back < scope < old(self).scopes.len() ==> final(self)@.wf(),
    {
        let n = self.scopes.len();
        if n > 0 && n - 1 == scope && !self.scopes[scope].captured {
            self.scopes.pop();
            proof {
                assert(self@.scopes =~= old(self)@.scopes.drop_last());
            }
        }
        self.current = back;
    }

    /// Marks the current scope as captured, so that leaving it keeps it, and
    /// returns its place.
    pub fn capture(&mut self) -> (scope: usize)
        ensures
            final(self)@ == old(self)@.capture(),
            scope == old(self).current,
            old(self)@.wf() ==> final(self)@.wf(),
    {
        let at = self.current;
        if at < self.scopes.len() {
            self.scopes[at].captured = true;
            proof {
                assert(self@.scopes =~= old(self)@.capture().scopes);
            }
        }
        at
    }

    /// Wraps the environment in a new child scope.
    pub fn child(self) -> (e: Environment)
        ensures
            e@ == self@.child(),
            self@.wf() ==> e@.wf(),
    {
        let mut e = self;
        let parent = e.current;
        e.enter(Some(parent));
        e
    }

    /// Dismantles the current scope and gives back the environment with the
    /// cursor on the parent; nothing at the root.
    pub fn into_parent(self) -> (r: Option<Environment>)
        ensures
            match r {
                Some(e) => self@.into_parent() == Some(e@) && (self@.wf() ==> e@.wf()),
                None => self@.into_parent() is None,
            },
    {
        let mut e = self;
        let at = e.current;
        if at < e.scopes.len() {
            assert(e@.scopes[at as int] == e.scopes[at as int]@);
            match e.scopes[at].parent {
                Some(p) => {
                    e.leave(at, p);
                    Some(e)
                },
                None => None,
            }
        } else {
            None
        }
    }
}

} // verus!
