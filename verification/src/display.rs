//! The printable form of a value.
//!
//! Everything but a number is turned into text here. A number is handed out
//! as it is: its digits are the host's to write.

use vstd::prelude::*;
use crate::interpreter::Interpreter;
use crate::semantics::State;
use crate::token::{bytes_concat, bytes_copy, LoxStr};
use crate::value::{Target, Value, ValueView};

verus! {

/// The printable form of a value: text, or a number still to be written.
#[derive(Debug, PartialEq, Eq)]
pub enum Shown {
    Text(LoxStr),
    Number(u64),
}

/// A printable form with its text as a sequence of bytes.
pub ghost enum ShownView {
    Text(Seq<u8>),
    Number(u64),
}

impl View for Shown {
    type V = ShownView;

    open spec fn view(&self) -> ShownView {
        match self {
            Shown::Text(t) => ShownView::Text(t@),
            Shown::Number(n) => ShownView::Number(*n),
        }
    }
}

/// `nil`
pub open spec fn nil_text() -> Seq<u8> {
    seq![110u8, 105u8, 108u8]
}

/// `true`
pub open spec fn true_text() -> Seq<u8> {
    seq![116u8, 114u8, 117u8, 101u8]
}

/// `false`
pub open spec fn false_text() -> Seq<u8> {
    seq![102u8, 97u8, 108u8, 115u8, 101u8]
}

/// `<fn `
pub open spec fn function_open() -> Seq<u8> {
    seq![60u8, 102u8, 110u8, 32u8]
}

/// `<class `
pub open spec fn class_open() -> Seq<u8> {
    seq![60u8, 99u8, 108u8, 97u8, 115u8, 115u8, 32u8]
}

/// `>`
pub open spec fn close() -> Seq<u8> {
    seq![62u8]
}

/// ` instance`
pub open spec fn instance_suffix() -> Seq<u8> {
    seq![32u8, 105u8, 110u8, 115u8, 116u8, 97u8, 110u8, 99u8, 101u8]
}

/// The printable form of a value: `nil`; `true` or `false`; a number; the
/// raw text of a string; `<fn NAME>`; `<class NAME>`; `NAME instance`, with
/// the name of the instance's class.
pub open spec fn shown(s: State, v: ValueView) -> ShownView {
    match v {
        ValueView::Nil => ShownView::Text(nil_text()),
        ValueView::Bool(b) => ShownView::Text(
            if b {
                true_text()
            } else {
                false_text()
            },
        ),
        ValueView::Number(n) => ShownView::Number(n),
        ValueView::String(t) => ShownView::Text(t),
        ValueView::Callable(c) => match c.target {
            Target::Function(f) => ShownView::Text(function_open() + f.decl.name@ + close()),
            Target::Class(class) => ShownView::Text(class_open() + class.name@ + close()),
        },
        ValueView::Instance(i) => ShownView::Text(
            if i.id < s.instances.len() {
                s.instances[i.id as int].class.name@ + instance_suffix()
            } else {
                instance_suffix()
            },
        ),
    }
}

impl Interpreter {
    /// The printable form of a value.
    pub fn display(&self, v: &Value) -> (r: Shown)
        ensures
            r@ == shown(self@, v@),
    {
        match v {
            Value::Nil => {
                let t: LoxStr = vec![110u8, 105u8, 108u8];
                assert(t@ =~= nil_text());
                Shown::Text(t)
            },
            Value::Bool(b) => {
                if *b {
                    let t: LoxStr = vec![116u8, 114u8, 117u8, 101u8];
                    assert(t@ =~= true_text());
                    Shown::Text(t)
                } else {
                    let t: LoxStr = vec![102u8, 97u8, 108u8, 115u8, 101u8];
                    assert(t@ =~= false_text());
                    Shown::Text(t)
                }
            },
            Value::Number(n) => Shown::Number(*n),
            Value::String(t) => Shown::Text(bytes_copy(t)),
            Value::Callable(c) => {
                let end: LoxStr = vec![62u8];
                assert(end@ =~= close());
                match &c.target {
                    Target::Function(f) => {
                        let start: LoxStr = vec![60u8, 102u8, 110u8, 32u8];
                        assert(start@ =~= function_open());
                        Shown::Text(bytes_concat(&bytes_concat(&start, &f.decl.name), &end))
                    },
                    Target::Class(class) => {
                        let start: LoxStr = vec![60u8, 99u8, 108u8, 97u8, 115u8, 115u8, 32u8];
                        assert(start@ =~= class_open());
                        Shown::Text(bytes_concat(&bytes_concat(&start, &class.name), &end))
                    },
                }
            },
            Value::Instance(i) => {
                let suffix: LoxStr = vec![
                    32u8,
                    105u8,
                    110u8,
                    115u8,
                    116u8,
                    97u8,
                    110u8,
                    99u8,
                    101u8,
                ];
                assert(suffix@ =~= instance_suffix());
                if i.id < self.instances.len() {
                    assert(self@.instances[i.id as int] == self.instances[i.id as int]@);
                    Shown::Text(bytes_concat(&self.instances[i.id].class.name, &suffix))
                } else {
                    Shown::Text(suffix)
                }
            },
        }
    }
}

} // verus!
