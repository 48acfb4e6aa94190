//! The fixed set of primitive functions.  Each one declares whether its
//! arguments are pre-evaluated or handed over as raw syntax, and the pure
//! ones are specified exactly here; the ones that drive evaluation (`if`,
//! `progn`, `quote`, `lambda`, `defalias`, `print`) run inside the
//! evaluator.

use vstd::prelude::*;

use crate::errors::{EvalError, TypeMismatch};
use crate::lambda::EvalOption;
use crate::value::{view_elems, Inner, Sexp, SexpV, ValueV};

verus! {

/// One primitive function of the global table.
#[derive(Clone, Copy, Debug, PartialEq, Eq, Structural)]
pub enum BuiltinId {
    Plus,
    Minus,
    Quote,
    Lambda,
    Defalias,
    Print,
    Exit,
    Progn,
    If,
    Eq,
    Cons,
    Car,
    Cdr,
    Listp,
    Keymapp,
    DefineKey,
}

/// Whether a primitive's arguments are pre-evaluated or raw syntax.
pub open spec fn spec_eval_option(b: BuiltinId) -> EvalOption {
    match b {
        BuiltinId::Quote => EvalOption::Unevaluated,
        BuiltinId::Lambda => EvalOption::Unevaluated,
        BuiltinId::If => EvalOption::Unevaluated,
        BuiltinId::Progn => EvalOption::Unevaluated,
        _ => EvalOption::Evaluated,
    }
}

impl BuiltinId {
    /// Whether this primitive's arguments are pre-evaluated or raw syntax.
    pub fn eval_args(&self) -> (r: EvalOption)
        ensures
            r == spec_eval_option(*self),
    {
        match self {
            BuiltinId::Quote => EvalOption::Unevaluated,
            BuiltinId::Lambda => EvalOption::Unevaluated,
            BuiltinId::If => EvalOption::Unevaluated,
            BuiltinId::Progn => EvalOption::Unevaluated,
            _ => EvalOption::Evaluated,
        }
    }
}

/// The integer a value stands for: an integer itself, or a reference to a
/// cell holding one.
pub open spec fn int_of(cells: Seq<ValueV>, v: ValueV) -> Option<i32> {
    match v {
        ValueV::Int(i) => Some(i),
        ValueV::Ref(c) => if c < cells.len() {
            match cells[c as int] {
                ValueV::Int(i) => Some(i),
                _ => None,
            }
        } else {
            None
        },
        _ => None,
    }
}

/// The list a value stands for: a list itself, the symbol `nil` (the empty
/// list), or a reference to a cell holding a list.
pub open spec fn list_of(cells: Seq<ValueV>, v: ValueV) -> Option<SexpV> {
    match v {
        ValueV::Sxp(s) => Some(s),
        ValueV::Sym(n) => if n == "nil"@ {
            Some(SexpV { delim: '(', lst: Seq::empty() })
        } else {
            None
        },
        ValueV::Ref(c) => if c < cells.len() {
            match cells[c as int] {
                ValueV::Sxp(s) => Some(s),
                _ => None,
            }
        } else {
            None
        },
        _ => None,
    }
}

/// The integer a value stands for, read through the cell store.
pub fn int_of_val(cells: &Vec<Inner>, v: &Inner) -> (r: Option<i32>)
    ensures
        r == int_of(view_elems(cells@), v@),
{
    proof {
        crate::value::lemma_view_elems(cells@);
    }
    match v {
        Inner::Int(i) => Some(*i),
        Inner::Ref(c) => {
            if *c < cells.len() {
                match &cells[*c] {
                    Inner::Int(i) => Some(*i),
                    _ => None,
                }
            } else {
                None
            }
        },
        _ => None,
    }
}

/// The list a value stands for, read through the cell store; the list
/// comes back as a fresh copy.
pub fn list_of_val(cells: &Vec<Inner>, v: &Inner) -> (r: Option<Sexp>)
    ensures
        match list_of(view_elems(cells@), v@) {
            Some(s) => r matches Some(rs) && rs@ == s,
            None => r is None,
        },
{
    proof {
        crate::value::lemma_view_elems(cells@);
    }
    match v {
        Inner::Sxp(s) => Some(s.clone()),
        Inner::Sym(n) => {
            if crate::value::string_eq_str(n, "nil") {
                Some(Sexp::nil())
            } else {
                None
            }
        },
        Inner::Ref(c) => {
            if *c < cells.len() {
                match &cells[*c] {
                    Inner::Sxp(s) => Some(s.clone()),
                    _ => None,
                }
            } else {
                None
            }
        },
        _ => None,
    }
}

/// The wrapped sum of the arguments, or a type failure on the first one
/// that is no integer.  No arguments sum to zero.
pub open spec fn spec_sum(cells: Seq<ValueV>, args: Seq<ValueV>) -> Result<i32, EvalError>
    decreases args.len(),
{
    if args.len() == 0 {
        Ok(0i32)
    } else {
        match spec_sum(cells, args.drop_last()) {
            Ok(acc) => match int_of(cells, args.last()) {
                Some(i) => Ok(acc.wrapping_add(i)),
                None => Err(EvalError::Type(TypeMismatch::ExpectedInteger)),
            },
            Err(e) => Err(e),
        }
    }
}

/// The wrapped left fold of subtraction over the arguments.
pub open spec fn spec_sub_fold(cells: Seq<ValueV>, args: Seq<ValueV>) -> Result<i32, EvalError>
    decreases args.len(),
{
    if args.len() == 0 {
        Ok(0i32)
    } else if args.len() == 1 {
        match int_of(cells, args[0]) {
            Some(i) => Ok(i),
            None => Err(EvalError::Type(TypeMismatch::ExpectedInteger)),
        }
    } else {
        match spec_sub_fold(cells, args.drop_last()) {
            Ok(acc) => match int_of(cells, args.last()) {
                Some(i) => Ok(acc.wrapping_sub(i)),
                None => Err(EvalError::Type(TypeMismatch::ExpectedInteger)),
            },
            Err(e) => Err(e),
        }
    }
}

/// What `-` returns: zero for no arguments, the wrapped negation of a
/// single argument, else the wrapped left fold of subtraction.
pub open spec fn spec_minus(cells: Seq<ValueV>, args: Seq<ValueV>) -> Result<i32, EvalError> {
    if args.len() == 1 {
        match int_of(cells, args[0]) {
            Some(i) => Ok(0i32.wrapping_sub(i)),
            None => Err(EvalError::Type(TypeMismatch::ExpectedInteger)),
        }
    } else {
        spec_sub_fold(cells, args)
    }
}

/// What `eq` returns on its two arguments: only integers compare; two
/// equal integers give the truthy constant, two unequal ones the empty
/// list, and a first argument that is no integer is a type failure, while
/// a non-integer second argument merely compares unequal.
pub open spec fn spec_eq(cells: Seq<ValueV>, a: ValueV, b: ValueV) -> Result<ValueV, EvalError> {
    match int_of(cells, a) {
        Some(x) => match int_of(cells, b) {
            Some(y) => if x == y {
                Ok(ValueV::t())
            } else {
                Ok(ValueV::nil())
            },
            None => Ok(ValueV::nil()),
        },
        None => Err(EvalError::Type(TypeMismatch::ExpectedInteger)),
    }
}

/// What `cons` returns: its first argument prepended to the list its
/// second stands for; a second argument that is no list becomes the
/// single further element, so the head is always recoverable.
pub open spec fn spec_cons(cells: Seq<ValueV>, a: ValueV, d: ValueV) -> ValueV {
    match list_of(cells, d) {
        Some(s) => ValueV::Sxp(SexpV { delim: '(', lst: seq![a] + s.lst }),
        None => ValueV::Sxp(SexpV { delim: '(', lst: seq![a, d] }),
    }
}

/// What `car` returns: the head of the list the argument stands for, the
/// empty list if it is empty, and a type failure on a non-list.
pub open spec fn spec_car(cells: Seq<ValueV>, v: ValueV) -> Result<ValueV, EvalError> {
    match list_of(cells, v) {
        Some(s) => if s.lst.len() == 0 {
            Ok(ValueV::nil())
        } else {
            Ok(s.lst[0])
        },
        None => Err(EvalError::Type(TypeMismatch::ExpectedList)),
    }
}

/// What `cdr` returns: the tail of the list the argument stands for as a
/// fresh list, the empty list if it is empty, and a type failure on a
/// non-list.
pub open spec fn spec_cdr(cells: Seq<ValueV>, v: ValueV) -> Result<ValueV, EvalError> {
    match list_of(cells, v) {
        Some(s) => if s.lst.len() == 0 {
            Ok(ValueV::nil())
        } else {
            Ok(ValueV::Sxp(SexpV { delim: '(', lst: s.lst.skip(1) }))
        },
        None => Err(EvalError::Type(TypeMismatch::ExpectedList)),
    }
}

/// List construction and decomposition round-trip, for all values: taking
/// `car` of a `cons` gives the first argument back unchanged, whatever the
/// tail was, and taking `cdr` of a value consed onto the empty list gives
/// the empty list.
pub proof fn lemma_cons_car_cdr(cells: Seq<ValueV>, a: ValueV, d: ValueV)
    ensures
        spec_car(cells, spec_cons(cells, a, d)) == Ok::<ValueV, EvalError>(a),
        spec_cdr(cells, spec_cons(cells, a, ValueV::nil())) == Ok::<ValueV, EvalError>(
            ValueV::nil(),
        ),
{
    match list_of(cells, d) {
        Some(s) => {
            assert((seq![a] + s.lst)[0] == a);
        },
        None => {
            assert((seq![a, d])[0] == a);
        },
    }
    assert(list_of(cells, ValueV::nil()) == Some(SexpV { delim: '(', lst: Seq::empty() }));
    let consed = spec_cons(cells, a, ValueV::nil());
    assert(consed->Sxp_0.lst =~= seq![a]);
    assert(consed->Sxp_0.lst.skip(1) =~= Seq::<ValueV>::empty());
}

/// The sum builtin.
pub fn builtin_plus(cells: &Vec<Inner>, args: &Vec<Inner>) -> (r: Result<Inner, EvalError>)
    ensures
        match spec_sum(view_elems(cells@), view_elems(args@)) {
            Ok(i) => r matches Ok(v) && v@ == ValueV::Int(i),
            Err(e) => r == Err::<Inner, EvalError>(e),
        },
{
    let ghost cv = view_elems(cells@);
    let ghost av = view_elems(args@);
    proof {
        crate::value::lemma_view_elems(args@);
    }
    let mut acc: i32 = 0;
    let mut i: usize = 0;
    while i < args.len()
        invariant
            0 <= i <= args@.len(),
            cv == view_elems(cells@),
            av == view_elems(args@),
            av.len() == args@.len(),
            forall|j: int| 0 <= j < av.len() ==> av[j] == #[trigger] args@[j]@,
            spec_sum(cv, av.take(i as int)) == Ok::<i32, EvalError>(acc),
        decreases args@.len() - i,
    {
        match int_of_val(cells, &args[i]) {
            Some(x) => {
                proof {
                    assert(av.take(i as int + 1).drop_last() =~= av.take(i as int));
                    assert(av.take(i as int + 1).last() == av[i as int]);
                }
                acc = acc.wrapping_add(x);
            },
            None => {
                proof {
                    assert(av.take(i as int + 1).drop_last() =~= av.take(i as int));
                    assert(av.take(i as int + 1).last() == av[i as int]);
                    lemma_sum_err(cv, av, i as int + 1);
                }
                return Err(EvalError::Type(TypeMismatch::ExpectedInteger));
            },
        }
        i = i + 1;
    }
    proof {
        assert(av.take(args@.len() as int) =~= av);
    }
    Ok(Inner::Int(acc))
}

/// A failing prefix fails the whole sum.
proof fn lemma_sum_err(cells: Seq<ValueV>, args: Seq<ValueV>, k: int)
    requires
        0 <= k <= args.len(),
        spec_sum(cells, args.take(k)) is Err,
    ensures
        spec_sum(cells, args) == spec_sum(cells, args.take(k)),
    decreases args.len() - k,
{
    if k < args.len() {
        assert(args.take(k + 1).drop_last() =~= args.take(k));
        lemma_sum_err(cells, args, k + 1);
    } else {
        assert(args.take(k) =~= args);
    }
}

/// A failing prefix fails the whole subtraction fold.
proof fn lemma_sub_err(cells: Seq<ValueV>, args: Seq<ValueV>, k: int)
    requires
        1 <= k <= args.len(),
        spec_sub_fold(cells, args.take(k)) is Err,
    ensures
        spec_sub_fold(cells, args) == spec_sub_fold(cells, args.take(k)),
    decreases args.len() - k,
{
    if k < args.len() {
        assert(args.take(k + 1).drop_last() =~= args.take(k));
        lemma_sub_err(cells, args, k + 1);
    } else {
        assert(args.take(k) =~= args);
    }
}

/// The difference builtin.
pub fn builtin_minus(cells: &Vec<Inner>, args: &Vec<Inner>) -> (r: Result<Inner, EvalError>)
    ensures
        match spec_minus(view_elems(cells@), view_elems(args@)) {
            Ok(i) => r matches Ok(v) && v@ == ValueV::Int(i),
            Err(e) => r == Err::<Inner, EvalError>(e),
        },
{
    let ghost cv = view_elems(cells@);
    let ghost av = view_elems(args@);
    proof {
        crate::value::lemma_view_elems(args@);
    }
    if args.len() == 0 {
        return Ok(Inner::Int(0));
    }
    let first = match int_of_val(cells, &args[0]) {
        Some(x) => x,
        None => {
            proof {
                if av.len() > 1 {
                    assert(av.take(1).drop_last() =~= av.take(0));
                    assert(av.take(1).last() == av[0]);
                    assert(spec_sub_fold(cv, av.take(1)) is Err);
                    lemma_sub_err(cv, av, 1);
                }
            }
            return Err(EvalError::Type(TypeMismatch::ExpectedInteger));
        },
    };
    if args.len() == 1 {
        return Ok(Inner::Int(0i32.wrapping_sub(first)));
    }
    let mut acc: i32 = first;
    let mut i: usize = 1;
    proof {
        assert(av.take(1).len() == 1);
        assert(av.take(1)[0] == av[0]);
    }
    while i < args.len()
        invariant
            1 <= i <= args@.len(),
            args@.len() >= 2,
            cv == view_elems(cells@),
            av == view_elems(args@),
            av.len() == args@.len(),
            forall|j: int| 0 <= j < av.len() ==> av[j] == #[trigger] args@[j]@,
            spec_sub_fold(cv, av.take(i as int)) == Ok::<i32, EvalError>(acc),
        decreases args@.len() - i,
    {
        match int_of_val(cells, &args[i]) {
            Some(x) => {
                proof {
                    assert(av.take(i as int + 1).drop_last() =~= av.take(i as int));
                    assert(av.take(i as int + 1).last() == av[i as int]);
                }
                acc = acc.wrapping_sub(x);
            },
            None => {
                proof {
                    assert(av.take(i as int + 1).drop_last() =~= av.take(i as int));
                    assert(av.take(i as int + 1).last() == av[i as int]);
                    lemma_sub_err(cv, av, i as int + 1);
                }
                return Err(EvalError::Type(TypeMismatch::ExpectedInteger));
            },
        }
        i = i + 1;
    }
    proof {
        assert(av.take(args@.len() as int) =~= av);
    }
    Ok(Inner::Int(acc))
}

/// The integer-equality builtin over its first two arguments.
pub fn builtin_eq(cells: &Vec<Inner>, args: &Vec<Inner>) -> (r: Result<Inner, EvalError>)
    ensures
        view_elems(args@).len() < 2 ==> r == Err::<Inner, EvalError>(EvalError::MissingArgument),
        view_elems(args@).len() >= 2 ==> (match spec_eq(
            view_elems(cells@),
            view_elems(args@)[0],
            view_elems(args@)[1],
        ) {
            Ok(v) => r matches Ok(rv) && rv@ == v,
            Err(e) => r == Err::<Inner, EvalError>(e),
        }),
{
    proof {
        crate::value::lemma_view_elems(args@);
    }
    if args.len() < 2 {
        return Err(EvalError::MissingArgument);
    }
    match int_of_val(cells, &args[0]) {
        Some(x) => match int_of_val(cells, &args[1]) {
            Some(y) => {
                if x == y {
                    Ok(Inner::t())
                } else {
                    Ok(Inner::nil())
                }
            },
            None => Ok(Inner::nil()),
        },
        None => Err(EvalError::Type(TypeMismatch::ExpectedInteger)),
    }
}

/// The list-construction builtin over its first two arguments.
pub fn builtin_cons(cells: &Vec<Inner>, args: &Vec<Inner>) -> (r: Result<Inner, EvalError>)
    ensures
        view_elems(args@).len() < 2 ==> r == Err::<Inner, EvalError>(EvalError::MissingArgument),
        view_elems(args@).len() >= 2 ==> (r matches Ok(v) && v@ == spec_cons(
            view_elems(cells@),
            view_elems(args@)[0],
            view_elems(args@)[1],
        )),
{
    proof {
        crate::value::lemma_view_elems(args@);
    }
    if args.len() < 2 {
        return Err(EvalError::MissingArgument);
    }
    let a = args[0].clone();
    match list_of_val(cells, &args[1]) {
        Some(s) => {
            let mut lst: Vec<Inner> = Vec::new();
            lst.push(a);
            let mut i: usize = 0;
            while i < s.lst.len()
                invariant
                    0 <= i <= s.lst@.len(),
                    lst@.len() == i + 1,
                    lst@[0]@ == args@[0 as int]@,
                    forall|j: int| 1 <= j < lst@.len() ==> #[trigger] lst@[j]@ == s.lst@[j - 1]@,
                decreases s.lst@.len() - i,
            {
                proof {
                    assert(decreases_to!(s.lst => s.lst[i as int]));
                }
                lst.push(s.lst[i].clone());
                i = i + 1;
            }
            let r = Sexp { delim: '(', lst };
            proof {
                crate::value::lemma_view_elems(r.lst@);
                crate::value::lemma_view_elems(s.lst@);
                crate::value::lemma_view_elems(args@);
                let want = seq![view_elems(args@)[0]] + view_elems(s.lst@);
                assert(r@.lst.len() == want.len());
                assert forall|j: int| 0 <= j < want.len() implies r@.lst[j] == want[j] by {
                    if j == 0 {
                        assert(r.lst@[0]@ == args@[0 as int]@);
                    } else {
                        assert(r.lst@[j]@ == s.lst@[j - 1]@);
                    }
                }
                assert(r@.lst =~= seq![view_elems(args@)[0]] + s@.lst);
            }
            Ok(Inner::Sxp(r))
        },
        None => {
            let mut lst: Vec<Inner> = Vec::new();
            lst.push(a);
            lst.push(args[1].clone());
            let r = Sexp { delim: '(', lst };
            proof {
                crate::value::lemma_view_elems(r.lst@);
                assert(r@.lst =~= seq![view_elems(args@)[0], view_elems(args@)[1]]);
            }
            Ok(Inner::Sxp(r))
        },
    }
}

/// The head-decomposition builtin over its first argument.
pub fn builtin_car(cells: &Vec<Inner>, args: &Vec<Inner>) -> (r: Result<Inner, EvalError>)
    ensures
        view_elems(args@).len() < 1 ==> r == Err::<Inner, EvalError>(EvalError::MissingArgument),
        view_elems(args@).len() >= 1 ==> (match spec_car(
            view_elems(cells@),
            view_elems(args@)[0],
        ) {
            Ok(v) => r matches Ok(rv) && rv@ == v,
            Err(e) => r == Err::<Inner, EvalError>(e),
        }),
{
    proof {
        crate::value::lemma_view_elems(args@);
    }
    if args.len() < 1 {
        return Err(EvalError::MissingArgument);
    }
    match list_of_val(cells, &args[0]) {
        Some(s) => Ok(s.car()),
        None => Err(EvalError::Type(TypeMismatch::ExpectedList)),
    }
}

/// The tail-decomposition builtin over its first argument.
pub fn builtin_cdr(cells: &Vec<Inner>, args: &Vec<Inner>) -> (r: Result<Inner, EvalError>)
    ensures
        view_elems(args@).len() < 1 ==> r == Err::<Inner, EvalError>(EvalError::MissingArgument),
        view_elems(args@).len() >= 1 ==> (match spec_cdr(
            view_elems(cells@),
            view_elems(args@)[0],
        ) {
            Ok(v) => r matches Ok(rv) && rv@ == v,
            Err(e) => r == Err::<Inner, EvalError>(e),
        }),
{
    proof {
        crate::value::lemma_view_elems(args@);
    }
    if args.len() < 1 {
        return Err(EvalError::MissingArgument);
    }
    match list_of_val(cells, &args[0]) {
        Some(s) => Ok(s.cdr()),
        None => Err(EvalError::Type(TypeMismatch::ExpectedList)),
    }
}

/// The list-predicate builtin over its first argument: the truthy constant
/// on anything standing for a list, else the empty list.
pub fn builtin_listp(cells: &Vec<Inner>, args: &Vec<Inner>) -> (r: Result<Inner, EvalError>)
    ensures
        view_elems(args@).len() < 1 ==> r == Err::<Inner, EvalError>(EvalError::MissingArgument),
        view_elems(args@).len() >= 1 ==> (r matches Ok(v) && v@ == (if list_of(
            view_elems(cells@),
            view_elems(args@)[0],
        ) is Some {
            ValueV::t()
        } else {
            ValueV::nil()
        })),
{
    proof {
        crate::value::lemma_view_elems(args@);
    }
    if args.len() < 1 {
        return Err(EvalError::MissingArgument);
    }
    match list_of_val(cells, &args[0]) {
        Some(_) => Ok(Inner::t()),
        None => Ok(Inner::nil()),
    }
}

} // verus!
