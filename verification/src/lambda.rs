//! User-defined functions: parameter specifications and the closure value
//! built by the `lambda` builtin.  A closure is immutable after
//! construction; its body lives in a shared cell of the interpreter's cell
//! store, so copies of the closure share one body.

use vstd::prelude::*;

use crate::errors::EvalError;
use crate::value::{view_elems, Inner, Sexp, ValueV};

verus! {

/// Whether a callable's arguments are evaluated before the call or handed
/// over as raw syntax.
#[derive(Clone, Copy, Debug, PartialEq, Eq, Structural)]
pub enum EvalOption {
    /// Every argument expression is evaluated, left to right, before the
    /// call.
    Evaluated,
    /// The callable receives the argument syntax untouched.
    Unevaluated,
}

/// The view of a closure: its name, its parameter names in order, and the
/// index of its body's cell.
pub struct LambdaV {
    pub name: Seq<char>,
    pub params: Seq<Seq<char>>,
    pub body: nat,
}

/// One formal parameter: its name.
#[derive(Debug)]
pub struct ArgSpec {
    pub name: String,
}

impl View for ArgSpec {
    type V = Seq<char>;

    open spec fn view(&self) -> Seq<char> {
        self.name@
    }
}

impl ArgSpec {
    /// A parameter with the given name.
    pub fn new(name: String) -> (r: ArgSpec)
        ensures
            r@ == name@,
    {
        ArgSpec { name }
    }

    /// The parameter's name.
    pub fn name(&self) -> (r: &String)
        ensures
            r@ == self@,
    {
        &self.name
    }
}

impl Clone for ArgSpec {
    /// A clone has the same name.
    fn clone(&self) -> (r: Self)
        ensures
            r@ == self@,
    {
        ArgSpec { name: self.name.clone() }
    }
}

/// An ordered list of formal parameters.
#[derive(Debug)]
pub struct ArgSpecs(pub Vec<ArgSpec>);

/// The views of a parameter list's names, in order.
pub open spec fn view_params(l: Seq<ArgSpec>) -> Seq<Seq<char>> {
    Seq::new(l.len(), |i: int| l[i]@)
}

impl View for ArgSpecs {
    type V = Seq<Seq<char>>;

    open spec fn view(&self) -> Seq<Seq<char>> {
        view_params(self.0@)
    }
}

impl ArgSpecs {
    /// The number of parameters.
    pub fn len(&self) -> (r: usize)
        ensures
            r == self@.len(),
    {
        self.0.len()
    }

    /// The parameter at `i`.
    pub fn get(&self, i: usize) -> (r: &ArgSpec)
        requires
            i < self@.len(),
        ensures
            r@ == self@[i as int],
    {
        &self.0[i]
    }
}

impl Clone for ArgSpecs {
    /// A clone has the same parameter names.
    fn clone(&self) -> (r: Self)
        ensures
            r@ == self@,
    {
        let mut lst: Vec<ArgSpec> = Vec::new();
        let mut i: usize = 0;
        while i < self.0.len()
            invariant
                0 <= i <= self.0.len(),
                lst@.len() == i as int,
                forall|j: int| 0 <= j < i ==> #[trigger] lst@[j]@ == self.0@[j]@,
            decreases self.0.len() - i,
        {
            lst.push(self.0[i].clone());
            i = i + 1;
        }
        let r = ArgSpecs(lst);
        proof {
            assert forall|j: int| 0 <= j < self.0@.len() implies r@[j] == self@[j] by {
                assert(r.0@[j]@ == self.0@[j]@);
            }
            assert(r@ =~= self@);
        }
        r
    }
}

/// A function created by the user with the `lambda` builtin: an ordered
/// parameter list and a shared reference to its unevaluated body.
#[derive(Debug)]
pub struct UserFunc {
    pub name: String,
    pub args: ArgSpecs,
    pub body: usize,
}

impl View for UserFunc {
    type V = LambdaV;

    open spec fn view(&self) -> LambdaV {
        LambdaV { name: self.name@, params: self.args@, body: self.body as nat }
    }
}

impl Clone for UserFunc {
    /// A clone has the same name and parameters and shares the same body
    /// cell.
    fn clone(&self) -> (r: Self)
        ensures
            r@ == self@,
    {
        UserFunc { name: self.name.clone(), args: self.args.clone(), body: self.body }
    }
}

impl UserFunc {
    /// A closure with the given name, parameters, and body cell.
    pub fn new(name: String, args: Vec<ArgSpec>, body: usize) -> (r: UserFunc)
        ensures
            r@ == (LambdaV { name: name@, params: view_params(args@), body: body as nat }),
    {
        UserFunc { name, args: ArgSpecs(args), body }
    }

    /// The canonical name of this function; empty for an anonymous lambda.
    pub fn name(&self) -> (r: &String)
        ensures
            r@ == self@.name,
    {
        &self.name
    }

    /// Whether the raw forms of a `lambda` call are well formed: at least a
    /// parameter list of symbols and a body form.
    pub open spec fn lambda_args_ok(args: Seq<ValueV>) -> bool {
        &&& args.len() >= 2
        &&& args[0] is Sxp
        &&& forall|i: int|
            0 <= i < args[0]->Sxp_0.lst.len() ==> (#[trigger] args[0]->Sxp_0.lst[i]) is Sym
    }

    /// What the `lambda` builtin promises about the closure it builds from
    /// the raw forms `args`: the parameter names are the symbols of the
    /// first form, and the body cell is the second form's cell if that form
    /// is already a reference, or a fresh cell holding the second form; on
    /// malformed forms it fails and touches nothing.
    pub open spec fn lambda_spec(
        args: Seq<ValueV>,
        cells: Seq<ValueV>,
        r: Result<Inner, EvalError>,
        cells_after: Seq<ValueV>,
    ) -> bool {
        if Self::lambda_args_ok(args) {
            let ps = args[0]->Sxp_0;
            &&& r matches Ok(v)
            &&& v@ matches ValueV::Lambda(f)
            &&& f.name == Seq::<char>::empty()
            &&& f.params == Seq::new(ps.lst.len(), |i: int| ps.lst[i]->Sym_0)
            &&& match args[1] {
                ValueV::Ref(c) => f.body == c && cells_after == cells,
                _ => f.body == cells.len() && cells_after == cells.push(args[1]),
            }
        } else {
            &&& r matches Err(e)
            &&& e == EvalError::MalformedLambda
            &&& cells_after == cells
        }
    }

    /// Build a closure from the raw argument forms of a `lambda` call: a
    /// parameter list of symbols followed by a body form.  `cells` is the
    /// interpreter's cell store, which receives the body unless the body is
    /// already a shared reference.
    pub fn lambda(args: &Sexp, cells: &mut Vec<Inner>) -> (r: Result<Inner, EvalError>)
        ensures
            Self::lambda_spec(
                args@.lst,
                view_elems(old(cells)@),
                r,
                view_elems(final(cells)@),
            ),
    {
        if args.len() < 2 {
            return Err(EvalError::MalformedLambda);
        }
        let params = match args.get(0) {
            Inner::Sxp(ps) => ps,
            _ => {
                return Err(EvalError::MalformedLambda);
            },
        };
        proof {
            assert(params@ == args@.lst[0]->Sxp_0);
        }
        let mut specs: Vec<ArgSpec> = Vec::new();
        let mut i: usize = 0;
        while i < params.len()
            invariant
                0 <= i <= params@.lst.len(),
                args@.lst.len() >= 2,
                args@.lst[0] is Sxp,
                params@ == args@.lst[0]->Sxp_0,
                specs@.len() == i as int,
                forall|j: int| 0 <= j < i ==> (#[trigger] params@.lst[j]) is Sym,
                forall|j: int| 0 <= j < i ==> #[trigger] specs@[j]@ == params@.lst[j]->Sym_0,
            decreases params@.lst.len() - i,
        {
            match params.get(i) {
                Inner::Sym(name) => {
                    specs.push(ArgSpec::new(name.clone()));
                },
                other => {
                    proof {
                        assert(other@ == args@.lst[0]->Sxp_0.lst[i as int]);
                        assert(!(other@ is Sym));
                        assert(!Self::lambda_args_ok(args@.lst));
                    }
                    return Err(EvalError::MalformedLambda);
                },
            }
            i = i + 1;
        }
        let body_idx: usize = match args.get(1) {
            Inner::Ref(c) => *c,
            other => {
                let idx = cells.len();
                cells.push(other.clone());
                proof {
                    crate::value::lemma_view_elems(cells@);
                    crate::value::lemma_view_elems(old(cells)@);
                    assert(view_elems(cells@) =~= view_elems(old(cells)@).push(args@.lst[1]));
                }
                idx
            },
        };
        let f = UserFunc { name: String::new(), args: ArgSpecs(specs), body: body_idx };
        proof {
            let ps = args@.lst[0]->Sxp_0;
            assert forall|j: int| 0 <= j < ps.lst.len() implies f@.params[j] == Seq::new(
                ps.lst.len(),
                |k: int| ps.lst[k]->Sym_0,
            )[j] by {
                assert(f.args.0@[j]@ == ps.lst[j]->Sym_0);
            }
            assert(f@.params =~= Seq::new(ps.lst.len(), |k: int| ps.lst[k]->Sym_0));
        }
        Ok(Inner::Lambda(f))
    }
}

} // verus!
