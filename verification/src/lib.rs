//! A small Lisp-family interpreter: a tokenizer, a reader that builds a
//! symbolic-expression tree, an environment with one global namespace and a
//! stack of call-local namespaces, and an evaluator with a fixed table of
//! builtin functions.  Host applications can drive it through `Lsp::read` and
//! `Lsp::eval` and can expose native objects as opaque extension values.

use vstd::prelude::*;

pub mod builtins;
pub mod display;
pub mod env;
pub mod errors;
pub mod frame;
pub mod interp;
pub mod keymap;
pub mod lambda;
pub mod reader;
pub mod text;
pub mod tokenizer;
pub mod value;

pub use crate::env::Namespace;
pub use crate::errors::{EvalError, SyntaxError, TypeMismatch};
pub use crate::frame::{Content, Frame, FrameCmd, FrameProxy};
pub use crate::interp::Lsp;
pub use crate::keymap::{BasicEvent, Event, EventModifiers, Keymap, UserEvent};
pub use crate::lambda::{ArgSpec, ArgSpecs, EvalOption, UserFunc};
pub use crate::value::{Extension, Inner, Sexp};

verus! {

/// The bracket character that pairs with `c`: the closer for an opener and
/// the opener for a closer.  The character `R` marks the synthetic root
/// expression of a whole program and pairs with itself.
pub open spec fn spec_inv_brk(c: char) -> char {
    match c {
        '(' => ')',
        ')' => '(',
        '[' => ']',
        ']' => '[',
        _ => 'R',
    }
}

/// The opener/closer that pairs with `c`.
pub fn inv_brk(c: char) -> (r: char)
    ensures
        r == spec_inv_brk(c),
{
    match c {
        '(' => ')',
        ')' => '(',
        '[' => ']',
        ']' => '[',
        _ => 'R',
    }
}

} // verus!
