//! Classes and methods: single inheritance, and the binding of a method to
//! the instance it was looked up on.

use std::rc::Rc;
use vstd::prelude::*;
use crate::table::{first, keys, position};
use crate::token::{LoxStr, Token};
use crate::value::{FnDecl, LoxClass, LoxFn, LoxInstance, Stmt};

verus! {

/// The name of the method that a constructor call runs: `init`.
pub open spec fn init_name() -> Seq<u8> {
    seq![105u8, 110u8, 105u8, 116u8]
}

/// The name under which a method's body finds its receiver: `this`.
pub open spec fn this_name() -> Seq<u8> {
    seq![116u8, 104u8, 105u8, 115u8]
}

/// The text `init`.
pub fn init_text() -> (r: LoxStr)
    ensures
        r@ == init_name(),
{
    let r: LoxStr = vec![105u8, 110u8, 105u8, 116u8];
    assert(r@ =~= init_name());
    r
}

/// The text `this`.
pub fn this_text() -> (r: LoxStr)
    ensures
        r@ == this_name(),
{
    let r: LoxStr = vec![116u8, 104u8, 105u8, 115u8];
    assert(r@ =~= this_name());
    r
}

impl LoxFn {
    /// A function of the given declaration, defined in the global scope and
    /// bound to nothing.
    pub fn new(name: LoxStr, params: Vec<Token>, body: Vec<Stmt>) -> (f: LoxFn)
        ensures
            f.decl.name == name,
            f.decl.params == params,
            f.decl.body == body,
            f.closure == 0,
            f.receiver is None,
    {
        LoxFn { decl: Rc::new(FnDecl { name, params, body }), closure: 0, receiver: None }
    }

    /// The function with `instance` as its receiver.
    pub open spec fn bound(self, instance: LoxInstance) -> LoxFn {
        LoxFn { decl: self.decl, closure: self.closure, receiver: Some(instance) }
    }

    /// Binds the function to `instance`: the result shares the declaration
    /// and the defining scope, and its receiver is that instance.
    pub fn bind(&self, instance: LoxInstance) -> (f: LoxFn)
        ensures
            f == self.bound(instance),
    {
        LoxFn {
            decl: crate::value::share(&self.decl),
            closure: self.closure,
            receiver: Some(instance),
        }
    }

    /// The number of arguments that a call must give.
    pub fn arity(&self) -> (n: usize)
        ensures
            n == self.decl.params.len(),
    {
        self.decl.params.len()
    }
}

impl LoxClass {
    /// The method of that name in the class's own table.
    pub open spec fn own_method(self, name: Seq<u8>) -> Option<LoxFn> {
        match first(keys(self.methods@), name, 0) {
            Some(i) => Some(self.methods[i].1),
            None => None,
        }
    }

    /// The method of that name in the class's own table or, failing that,
    /// in the nearest superclass that has one.
    pub open spec fn method(self, name: Seq<u8>) -> Option<LoxFn>
        decreases self,
    {
        match self.own_method(name) {
            Some(m) => Some(m),
            None => match self.superclass {
                Some(parent) => parent.method(name),
                None => None,
            },
        }
    }

    /// The method of that name, bound to `instance`.
    pub open spec fn bound_method(self, instance: LoxInstance, name: Seq<u8>) -> Option<LoxFn> {
        match self.method(name) {
            Some(m) => Some(m.bound(instance)),
            None => None,
        }
    }

    /// The number of arguments that a constructor call must give: the arity
    /// of the class's own `init`, or none where it has no `init` of its own.
    pub open spec fn constructor_arity(self) -> usize {
        match self.own_method(init_name()) {
            Some(m) => m.decl.params.len(),
            None => 0,
        }
    }

    /// A class of the given name, superclass and methods.
    pub fn new(name: LoxStr, superclass: Option<Rc<LoxClass>>, methods: Vec<(LoxStr, LoxFn)>) -> (c:
        LoxClass)
        ensures
            c.name == name,
            c.superclass == superclass,
            c.methods == methods,
    {
        LoxClass { name, superclass, methods }
    }

    /// Looks `name` up in the class's own methods.
    pub fn find_own_method(&self, name: &LoxStr) -> (r: Option<&LoxFn>)
        ensures
            match r {
                Some(m) => self.own_method(name@) == Some(*m),
                None => self.own_method(name@) is None,
            },
    {
        match position(&self.methods, name) {
            Some(i) => Some(&self.methods[i].1),
            None => None,
        }
    }

    /// Looks `name` up in the class's own methods, then up the chain of
    /// superclasses, and binds what it finds to `instance`.
    pub fn find_method(&self, instance: &LoxInstance, name: &LoxStr) -> (r: Option<LoxFn>)
        ensures
            r == self.bound_method(*instance, name@),
        decreases self,
    {
        match self.find_own_method(name) {
            Some(m) => Some(m.bind(*instance)),
            None => match &self.superclass {
                Some(parent) => parent.find_method(instance, name),
                None => None,
            },
        }
    }

    /// The number of arguments that a constructor call must give.
    pub fn arity(&self) -> (n: usize)
        ensures
            n == self.constructor_arity(),
    {
        let name = init_text();
        match self.find_own_method(&name) {
            Some(m) => m.arity(),
            None => 0,
        }
    }
}

} // verus!
