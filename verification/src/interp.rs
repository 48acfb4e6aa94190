//! The interpreter: one global namespace, a strict LIFO stack of
//! call-local namespaces, the shared-cell store, and the host-side keymap
//! registry, driven by the evaluator.
//!
//! Evaluation carries a recursion budget: nesting deeper than the budget
//! reports a failure instead of exhausting the host stack.  Every public
//! entry keeps the interpreter invariant: cells refer only to strictly
//! earlier cells, and every binding refers only to existing cells.

use vstd::prelude::*;

use crate::builtins::{
    builtin_car, builtin_cdr, builtin_cons, builtin_eq, builtin_listp, builtin_minus,
    builtin_plus, list_of, BuiltinId,
};
use crate::env::{assoc_find, FuncObj, FuncObjV, Namespace, NamespaceV};
use crate::errors::{EvalErrV, EvalError, SyntaxError, TypeMismatch};
use crate::keymap::{Event, Keymap};
use crate::lambda::{EvalOption, UserFunc};
use crate::reader::{read_view, spec_read};
use crate::value::{view_elems, wf_list, Extension, Inner, Sexp, SexpV, ValueV};

verus! {

/// The evaluator's default recursion budget, in evaluation steps: every
/// nested evaluator entry (one per expression level, plus a handful per
/// function call) consumes one unit, so this allows user-level call
/// nesting on the order of a hundred and fifty frames while staying well
/// inside a small native stack.  Exhausting it reports a failure instead
/// of overrunning the host stack; a host with a deeper stack can call
/// `eval_sexp` with a budget of its own choosing.
pub const DEFAULT_FUEL: u64 = 1024;

/// The view of the whole interpreter state.
pub struct LspV {
    pub globals: NamespaceV,
    pub locals: Seq<NamespaceV>,
    pub cells: Seq<ValueV>,
    pub keymaps: Seq<Seq<(Event, ValueV)>>,
}

/// The interpreter.
pub struct Lsp {
    pub globals: Namespace,
    pub locals: Vec<Namespace>,
    pub cells: Vec<Inner>,
    pub keymaps: Vec<Keymap>,
}

impl View for Lsp {
    type V = LspV;

    open spec fn view(&self) -> LspV {
        LspV {
            globals: self.globals@,
            locals: Seq::new(self.locals@.len(), |i: int| self.locals@[i]@),
            cells: view_elems(self.cells@),
            keymaps: Seq::new(self.keymaps@.len(), |i: int| self.keymaps@[i]@),
        }
    }
}

/// Every bound value refers only to existing cells.
pub open spec fn binds_wf(vars: Seq<(Seq<char>, ValueV)>, n: nat) -> bool {
    forall|i: int| 0 <= i < vars.len() ==> (#[trigger] vars[i]).1.wf(n)
}

/// Every bound closure's body is an existing cell.
pub open spec fn funcs_wf(fs: Seq<(Seq<char>, FuncObjV)>, n: nat) -> bool {
    forall|i: int|
        0 <= i < fs.len() ==> match (#[trigger] fs[i]).1 {
            FuncObjV::User(f) => f.body < n,
            FuncObjV::Builtin(_) => true,
        }
}

/// A whole scope level refers only to existing cells.
pub open spec fn ns_wf(ns: NamespaceV, n: nat) -> bool {
    binds_wf(ns.vars, n) && funcs_wf(ns.funcs, n)
}

/// Every keymap action refers only to existing cells.
pub open spec fn keymap_wf(km: Seq<(Event, ValueV)>, n: nat) -> bool {
    forall|i: int| 0 <= i < km.len() ==> (#[trigger] km[i]).1.wf(n)
}

/// The interpreter invariant: every cell refers only to strictly earlier
/// cells, and every binding, local frame and keymap action refers only to
/// existing cells.
pub open spec fn state_inv(s: LspV) -> bool {
    &&& forall|i: int| 0 <= i < s.cells.len() ==> (#[trigger] s.cells[i]).wf(i as nat)
    &&& ns_wf(s.globals, s.cells.len())
    &&& forall|j: int| 0 <= j < s.locals.len() ==> ns_wf(#[trigger] s.locals[j], s.cells.len())
    &&& forall|j: int| 0 <= j < s.keymaps.len() ==> keymap_wf(
        #[trigger] s.keymaps[j],
        s.cells.len(),
    )
}

/// How one evaluation step may change the state: the local stack and the
/// global variables come back as they were, cells are only appended, and
/// no keymap appears or disappears.
pub open spec fn evolves(a: LspV, b: LspV) -> bool {
    &&& b.locals == a.locals
    &&& b.globals.vars == a.globals.vars
    &&& a.cells.len() <= b.cells.len()
    &&& forall|i: int| 0 <= i < a.cells.len() ==> a.cells[i] == #[trigger] b.cells[i]
    &&& b.keymaps.len() == a.keymaps.len()
}

/// Evolution chains.
pub proof fn lemma_evolves_trans(a: LspV, b: LspV, c: LspV)
    requires
        evolves(a, b),
        evolves(b, c),
    ensures
        evolves(a, c),
{
    assert forall|i: int| 0 <= i < a.cells.len() implies a.cells[i] == #[trigger] c.cells[i] by {
        assert(a.cells[i] == b.cells[i]);
    }
}

/// A found binding is one of the list's entries.
pub proof fn lemma_assoc_find_some<K, V>(l: Seq<(K, V)>, k: K)
    requires
        assoc_find(l, k) is Some,
    ensures
        exists|i: int|
            0 <= i < l.len() && #[trigger] l[i] == (k, assoc_find(l, k)->Some_0),
    decreases l.len(),
{
    if l.len() > 0 {
        if l.last().0 == k {
            assert(l[l.len() - 1] == (k, assoc_find(l, k)->Some_0));
        } else {
            lemma_assoc_find_some(l.drop_last(), k);
            let i = choose|i: int|
                0 <= i < l.drop_last().len() && #[trigger] l.drop_last()[i] == (
                    k,
                    assoc_find(l.drop_last(), k)->Some_0,
                );
            assert(l[i] == l.drop_last()[i]);
        }
    }
}

/// The variable a symbol resolves to among the local frames, innermost
/// first.
pub open spec fn lookup_locals(locals: Seq<NamespaceV>, name: Seq<char>) -> Option<ValueV>
    decreases locals.len(),
{
    if locals.len() == 0 {
        None
    } else {
        match assoc_find(locals.last().vars, name) {
            Some(v) => Some(v),
            None => lookup_locals(locals.drop_last(), name),
        }
    }
}

/// The variable a symbol resolves to: the innermost local binding, else
/// the global one.
pub open spec fn lookup_var_spec(s: LspV, name: Seq<char>) -> Option<ValueV> {
    match lookup_locals(s.locals, name) {
        Some(v) => Some(v),
        None => assoc_find(s.globals.vars, name),
    }
}

/// A value found among well-formed frames is well formed.
proof fn lemma_lookup_locals_wf(locals: Seq<NamespaceV>, name: Seq<char>, n: nat)
    requires
        forall|j: int| 0 <= j < locals.len() ==> ns_wf(#[trigger] locals[j], n),
        lookup_locals(locals, name) is Some,
    ensures
        lookup_locals(locals, name)->Some_0.wf(n),
    decreases locals.len(),
{
    if locals.len() > 0 {
        match assoc_find(locals.last().vars, name) {
            Some(v) => {
                lemma_assoc_find_some(locals.last().vars, name);
                assert(ns_wf(locals[locals.len() - 1], n));
            },
            None => {
                lemma_lookup_locals_wf(locals.drop_last(), name, n);
            },
        }
    }
}

/// Anything a list stands for under a well-formed store is made of
/// well-formed values.
pub proof fn lemma_list_of_wf(cells: Seq<ValueV>, v: ValueV, n: nat)
    requires
        forall|i: int| 0 <= i < cells.len() ==> (#[trigger] cells[i]).wf(i as nat),
        cells.len() <= n,
        v.wf(n),
        list_of(cells, v) is Some,
    ensures
        wf_list(list_of(cells, v)->Some_0.lst, n),
{
    match v {
        ValueV::Sxp(s) => {},
        ValueV::Sym(_) => {},
        ValueV::Ref(c) => {
            assert(cells[c as int].wf(c as nat));
            match cells[c as int] {
                ValueV::Sxp(s) => {
                    crate::value::lemma_wf_list_grow(s.lst, c as nat, n);
                },
                _ => {},
            }
        },
        _ => {},
    }
}

/// Growing the store keeps a binding list well formed.
proof fn lemma_binds_wf_grow(vars: Seq<(Seq<char>, ValueV)>, n: nat, m: nat)
    requires
        binds_wf(vars, n),
        n <= m,
    ensures
        binds_wf(vars, m),
{
    assert forall|i: int| 0 <= i < vars.len() implies (#[trigger] vars[i]).1.wf(m) by {
        assert(vars[i].1.wf(n));
        vars[i].1.lemma_wf_grow(n, m);
    }
}

/// Growing the store keeps a scope level well formed.
proof fn lemma_ns_wf_grow(ns: NamespaceV, n: nat, m: nat)
    requires
        ns_wf(ns, n),
        n <= m,
    ensures
        ns_wf(ns, m),
{
    lemma_binds_wf_grow(ns.vars, n, m);
    assert forall|i: int| 0 <= i < ns.funcs.len() implies match (#[trigger] ns.funcs[i]).1 {
        FuncObjV::User(f) => f.body < m,
        FuncObjV::Builtin(_) => true,
    } by {
        assert(match ns.funcs[i].1 {
            FuncObjV::User(f) => f.body < n,
            FuncObjV::Builtin(_) => true,
        });
    }
}

/// Growing the store keeps a keymap well formed.
proof fn lemma_keymap_wf_grow(km: Seq<(Event, ValueV)>, n: nat, m: nat)
    requires
        keymap_wf(km, n),
        n <= m,
    ensures
        keymap_wf(km, m),
{
    assert forall|i: int| 0 <= i < km.len() implies (#[trigger] km[i]).1.wf(m) by {
        assert(km[i].1.wf(n));
        km[i].1.lemma_wf_grow(n, m);
    }
}

/// Growing the store by well-formed cells keeps the whole invariant.
proof fn lemma_state_inv_grow(a: LspV, b: LspV)
    requires
        state_inv(a),
        b.globals == a.globals,
        b.locals == a.locals,
        b.keymaps == a.keymaps,
        a.cells.len() <= b.cells.len(),
        forall|i: int| 0 <= i < a.cells.len() ==> a.cells[i] == #[trigger] b.cells[i],
        forall|i: int|
            a.cells.len() <= i < b.cells.len() ==> (#[trigger] b.cells[i]).wf(i as nat),
    ensures
        state_inv(b),
{
    assert forall|i: int| 0 <= i < b.cells.len() implies (#[trigger] b.cells[i]).wf(i as nat) by {
        if i < a.cells.len() {
            assert(a.cells[i].wf(i as nat));
        }
    }
    lemma_ns_wf_grow(b.globals, a.cells.len(), b.cells.len());
    assert forall|j: int| 0 <= j < b.locals.len() implies ns_wf(
        #[trigger] b.locals[j],
        b.cells.len(),
    ) by {
        assert(ns_wf(a.locals[j], a.cells.len()));
        lemma_ns_wf_grow(a.locals[j], a.cells.len(), b.cells.len());
    }
    assert forall|j: int| 0 <= j < b.keymaps.len() implies keymap_wf(
        #[trigger] b.keymaps[j],
        b.cells.len(),
    ) by {
        assert(keymap_wf(a.keymaps[j], a.cells.len()));
        lemma_keymap_wf_grow(a.keymaps[j], a.cells.len(), b.cells.len());
    }
}

/// A runtime result, seen at the view level.
pub open spec fn res_view(r: Result<Inner, EvalError>) -> Result<ValueV, EvalErrV> {
    match r {
        Ok(v) => Ok(v@),
        Err(e) => Err(e@),
    }
}

/// A failure carried over unchanged, or further results put in front of
/// the ones already gathered.
pub open spec fn rest_prepend(
    pre: Seq<ValueV>,
    t: (Result<Seq<ValueV>, EvalErrV>, LspV),
) -> (Result<Seq<ValueV>, EvalErrV>, LspV) {
    match t.0 {
        Ok(vs) => (Ok(pre + vs), t.1),
        Err(e) => (Err(e), t.1),
    }
}

/// Bindings already made put in front of the ones still to make.
pub open spec fn bind_prepend(
    pre: Seq<(Seq<char>, ValueV)>,
    t: (Seq<(Seq<char>, ValueV)>, Seq<ValueV>),
) -> (Seq<(Seq<char>, ValueV)>, Seq<ValueV>) {
    (pre + t.0, t.1)
}

/// One parameter list bound positionally over the argument values: a list
/// value is wrapped in a fresh shared cell, anything else is bound as it
/// is.  Gives the new scope's bindings and the grown cell store.
pub open spec fn spec_bind(
    params: Seq<Seq<char>>,
    args: Seq<ValueV>,
    cells: Seq<ValueV>,
) -> (Seq<(Seq<char>, ValueV)>, Seq<ValueV>)
    decreases params.len(),
{
    if params.len() == 0 {
        (Seq::empty(), cells)
    } else {
        let (hd, cells1) = if args[0] is Sxp {
            ((params[0], ValueV::Ref(cells.len())), cells.push(args[0]))
        } else {
            ((params[0], args[0]), cells)
        };
        let (rest, cells2) = spec_bind(params.skip(1), args.skip(1), cells1);
        (seq![hd] + rest, cells2)
    }
}

/// What the `lambda` builtin computes over the raw forms: the closure of
/// `UserFunc::lambda_spec`, with the cell store it leaves behind.
pub open spec fn spec_lambda_builtin(s: LspV, forms: Seq<ValueV>) -> (
    Result<ValueV, EvalErrV>,
    LspV,
) {
    if UserFunc::lambda_args_ok(forms) {
        let ps = forms[0]->Sxp_0;
        let params = Seq::new(ps.lst.len(), |i: int| ps.lst[i]->Sym_0);
        match forms[1] {
            ValueV::Ref(c) => (
                Ok(
                    ValueV::Lambda(
                        crate::lambda::LambdaV { name: Seq::empty(), params, body: c },
                    ),
                ),
                s,
            ),
            _ => (
                Ok(
                    ValueV::Lambda(
                        crate::lambda::LambdaV {
                            name: Seq::empty(),
                            params,
                            body: s.cells.len(),
                        },
                    ),
                ),
                LspV { cells: s.cells.push(forms[1]), ..s },
            ),
        }
    } else {
        (Err(EvalErrV::MalformedLambda), s)
    }
}

/// What building a closure from a `(lambda ...)` list value computes.
pub open spec fn spec_lambda_from_list(s: LspV, sx: SexpV) -> (
    Result<crate::lambda::LambdaV, EvalErrV>,
    LspV,
) {
    if sx.lst.len() < 1 {
        (Err(EvalErrV::MalformedLambda), s)
    } else if !(sx.lst[0] is Sym && sx.lst[0]->Sym_0 == "lambda"@) {
        (Err(EvalErrV::Type(TypeMismatch::NotApplicable)), s)
    } else {
        let (r, s1) = spec_lambda_builtin(s, sx.lst.skip(1));
        match r {
            Ok(v) => (Ok(v->Lambda_0), s1),
            Err(e) => (Err(e), s1),
        }
    }
}

/// What `defalias`/`fset` computes: a closure definition bound under a
/// symbol in the global function table, the symbol handed back.
pub open spec fn spec_defalias(s: LspV, args: Seq<ValueV>) -> (Result<ValueV, EvalErrV>, LspV) {
    if args.len() < 2 {
        (Err(EvalErrV::MissingArgument), s)
    } else if !(args[0] is Sym) {
        (Err(EvalErrV::Type(TypeMismatch::ExpectedSymbol)), s)
    } else {
        let name = args[0]->Sym_0;
        let (lr, s1) = match args[1] {
            ValueV::Lambda(f) => (Ok(f), s),
            ValueV::Sxp(sx) => spec_lambda_from_list(s, sx),
            ValueV::Ref(c) => if c < s.cells.len() {
                match s.cells[c as int] {
                    ValueV::Sxp(sx) => spec_lambda_from_list(s, sx),
                    _ => (Err(EvalErrV::Type(TypeMismatch::NotApplicable)), s),
                }
            } else {
                (Err(EvalErrV::Type(TypeMismatch::NotApplicable)), s)
            },
            _ => (Err(EvalErrV::Type(TypeMismatch::NotApplicable)), s),
        };
        match lr {
            Ok(f) => (
                Ok(ValueV::Sym(name)),
                LspV {
                    globals: NamespaceV {
                        funcs: s1.globals.funcs.push(
                            (
                                name,
                                FuncObjV::User(
                                    crate::lambda::LambdaV {
                                        name,
                                        params: f.params,
                                        body: f.body,
                                    },
                                ),
                            ),
                        ),
                        vars: s1.globals.vars,
                    },
                    ..s1
                },
            ),
            Err(e) => (Err(e), s1),
        }
    }
}

/// What `keymapp` answers: the truthy constant on a keymap extension
/// value or on a list headed by the symbol `keymap`, else the empty list.
pub open spec fn spec_keymapp(cells: Seq<ValueV>, args: Seq<ValueV>) -> Result<
    ValueV,
    EvalErrV,
> {
    if args.len() < 1 {
        Err(EvalErrV::MissingArgument)
    } else if args[0] matches ValueV::Ext(e) && e.name == "keymap"@ {
        Ok(ValueV::t())
    } else {
        match list_of(cells, args[0]) {
            Some(sx) => if sx.lst.len() >= 1 && sx.lst[0] is Sym && sx.lst[0]->Sym_0
                == "keymap"@ {
                Ok(ValueV::t())
            } else {
                Ok(ValueV::nil())
            },
            None => Ok(ValueV::nil()),
        }
    }
}

/// What `define-key` computes: downcast the keymap handle, read the key
/// description, wrap a bare action in a fresh shared cell, bind it, and
/// hand the stored action back.
pub open spec fn spec_define_key(s: LspV, args: Seq<ValueV>) -> (Result<ValueV, EvalErrV>, LspV) {
    if args.len() < 3 {
        (Err(EvalErrV::MissingArgument), s)
    } else if !(args[0] matches ValueV::Ext(e) && e.name == "keymap"@ && e.handle
        < s.keymaps.len()) {
        (Err(EvalErrV::Type(TypeMismatch::DowncastTag)), s)
    } else if !(args[1] is Str) {
        (Err(EvalErrV::Type(TypeMismatch::ExpectedString)), s)
    } else {
        let idx = args[0]->Ext_0.handle;
        match crate::keymap::spec_parse_key(args[1]->Str_0) {
            Err(e) => (Err(EvalErrV::Syntax(e)), s),
            Ok(ev) => {
                let (act, s1) = if args[2] is Ref {
                    (args[2], s)
                } else {
                    (ValueV::Ref(s.cells.len()), LspV { cells: s.cells.push(args[2]), ..s })
                };
                (
                    Ok(act),
                    LspV {
                        keymaps: s1.keymaps.update(
                            idx as int,
                            s1.keymaps[idx as int].push((ev, act)),
                        ),
                        ..s1
                    },
                )
            },
        }
    }
}

/// How many elements from `i` on are still to be walked; never negative.
pub open spec fn remaining(len: int, i: int) -> int {
    if i < len {
        len - i
    } else {
        0
    }
}

/// One evaluation step of a single value: a symbol by scoped lookup, a
/// list as a call, a reference through its cell, anything else itself.
pub open spec fn spec_eval_inner(s: LspV, v: ValueV, fuel: nat) -> (
    Result<ValueV, EvalErrV>,
    LspV,
)
    decreases fuel, 0int,
{
    if fuel == 0 {
        (Err(EvalErrV::DepthExceeded), s)
    } else {
        match v {
            ValueV::Sym(n) => (
                match lookup_var_spec(s, n) {
                    Some(w) => Ok(w),
                    None => Err(EvalErrV::UnboundVariable(n)),
                },
                s,
            ),
            ValueV::Sxp(x) => spec_eval_sexp(s, x, (fuel - 1) as nat),
            ValueV::Ref(c) => if c < s.cells.len() {
                spec_eval_inner(s, s.cells[c as int], (fuel - 1) as nat)
            } else {
                (Err(EvalErrV::Type(TypeMismatch::ExpectedList)), s)
            },
            other => (Ok(other), s),
        }
    }
}

/// The argument expressions of a call, evaluated left to right from
/// element `i` on; the first failure stops the rest.  The budget case of
/// the guard is never reached from `spec_eval_rest`, which checks the
/// budget first; it only keeps the recursion's measure meaningful.
pub open spec fn spec_eval_rest_from(s: LspV, lst: Seq<ValueV>, i: int, fuel: nat) -> (
    Result<Seq<ValueV>, EvalErrV>,
    LspV,
)
    decreases fuel, remaining(lst.len() as int, i),
{
    if i < 0 || i >= lst.len() || fuel == 0 {
        (Ok(Seq::empty()), s)
    } else {
        let (r, s1) = spec_eval_inner(s, lst[i], (fuel - 1) as nat);
        match r {
            Err(e) => (Err(e), s1),
            Ok(v) => {
                let (rr, s2) = spec_eval_rest_from(s1, lst, i + 1, fuel);
                match rr {
                    Ok(vs) => (Ok(seq![v] + vs), s2),
                    Err(e) => (Err(e), s2),
                }
            },
        }
    }
}

/// A sequence of forms evaluated in order, the last result kept; no forms
/// give the empty-list constant.  The budget case of the guard is never
/// reached from `spec_eval_seq`, which checks the budget first.
pub open spec fn spec_eval_seq_from(
    s: LspV,
    lst: Seq<ValueV>,
    i: int,
    fuel: nat,
    last: ValueV,
) -> (Result<ValueV, EvalErrV>, LspV)
    decreases fuel, remaining(lst.len() as int, i),
{
    if i < 0 || i >= lst.len() || fuel == 0 {
        (Ok(last), s)
    } else {
        let (r, s1) = spec_eval_inner(s, lst[i], (fuel - 1) as nat);
        match r {
            Err(e) => (Err(e), s1),
            Ok(v) => spec_eval_seq_from(s1, lst, i + 1, fuel, v),
        }
    }
}

/// A user-defined closure applied to argument values: arity checked
/// against the parameter list (extras ignored), the parameters bound
/// positionally in a fresh scope, the shared body cell evaluated there,
/// the scope popped again.
pub open spec fn spec_call_user(s: LspV, f: crate::lambda::LambdaV, args: Seq<ValueV>, fuel: nat) -> (
    Result<ValueV, EvalErrV>,
    LspV,
)
    decreases fuel, 0int,
{
    if f.params.len() > args.len() {
        (Err(EvalErrV::Arity(f.name, f.params[args.len() as int])), s)
    } else if fuel == 0 {
        (Err(EvalErrV::DepthExceeded), s)
    } else if f.body >= s.cells.len() {
        (Err(EvalErrV::Type(TypeMismatch::NotApplicable)), s)
    } else {
        let (binds, cells1) = spec_bind(f.params, args, s.cells);
        let ns = NamespaceV { funcs: Seq::empty(), vars: binds };
        let s1 = LspV { cells: cells1, locals: s.locals.push(ns), ..s };
        let (r, s2) = spec_eval_inner(s1, s1.cells[f.body as int], (fuel - 1) as nat);
        (r, LspV { locals: s2.locals.drop_last(), ..s2 })
    }
}

/// One primitive applied to a call's raw syntax: pre-evaluated arguments
/// where its protocol says so, raw forms for the special forms.
pub open spec fn spec_call_builtin(s: LspV, b: BuiltinId, ast: SexpV, fuel: nat) -> (
    Result<ValueV, EvalErrV>,
    LspV,
)
    decreases fuel, 1int,
{
    if fuel == 0 {
        (Err(EvalErrV::DepthExceeded), s)
    } else {
        match crate::builtins::spec_eval_option(b) {
            EvalOption::Evaluated => {
                let (ar, s1) = spec_eval_rest(s, ast.lst, 1, (fuel - 1) as nat);
                match ar {
                    Err(e) => (Err(e), s1),
                    Ok(vs) => match b {
                        BuiltinId::Plus => (
                            match crate::builtins::spec_sum(s1.cells, vs) {
                                Ok(i) => Ok(ValueV::Int(i)),
                                Err(e) => Err(e@),
                            },
                            s1,
                        ),
                        BuiltinId::Minus => (
                            match crate::builtins::spec_minus(s1.cells, vs) {
                                Ok(i) => Ok(ValueV::Int(i)),
                                Err(e) => Err(e@),
                            },
                            s1,
                        ),
                        BuiltinId::Eq => (
                            if vs.len() < 2 {
                                Err(EvalErrV::MissingArgument)
                            } else {
                                match crate::builtins::spec_eq(s1.cells, vs[0], vs[1]) {
                                    Ok(v) => Ok(v),
                                    Err(e) => Err(e@),
                                }
                            },
                            s1,
                        ),
                        BuiltinId::Cons => (
                            if vs.len() < 2 {
                                Err(EvalErrV::MissingArgument)
                            } else {
                                Ok(crate::builtins::spec_cons(s1.cells, vs[0], vs[1]))
                            },
                            s1,
                        ),
                        BuiltinId::Car => (
                            if vs.len() < 1 {
                                Err(EvalErrV::MissingArgument)
                            } else {
                                match crate::builtins::spec_car(s1.cells, vs[0]) {
                                    Ok(v) => Ok(v),
                                    Err(e) => Err(e@),
                                }
                            },
                            s1,
                        ),
                        BuiltinId::Cdr => (
                            if vs.len() < 1 {
                                Err(EvalErrV::MissingArgument)
                            } else {
                                match crate::builtins::spec_cdr(s1.cells, vs[0]) {
                                    Ok(v) => Ok(v),
                                    Err(e) => Err(e@),
                                }
                            },
                            s1,
                        ),
                        BuiltinId::Listp => (
                            if vs.len() < 1 {
                                Err(EvalErrV::MissingArgument)
                            } else if list_of(s1.cells, vs[0]) is Some {
                                Ok(ValueV::t())
                            } else {
                                Ok(ValueV::nil())
                            },
                            s1,
                        ),
                        BuiltinId::Exit => (Ok(ValueV::Sym("exit"@)), s1),
                        BuiltinId::Print => (
                            if vs.len() < 1 {
                                Err(EvalErrV::MissingArgument)
                            } else {
                                Ok(vs[0])
                            },
                            s1,
                        ),
                        BuiltinId::Defalias => spec_defalias(s1, vs),
                        BuiltinId::Keymapp => (spec_keymapp(s1.cells, vs), s1),
                        BuiltinId::DefineKey => spec_define_key(s1, vs),
                        _ => (Err(EvalErrV::Type(TypeMismatch::NotApplicable)), s1),
                    },
                }
            },
            EvalOption::Unevaluated => match b {
                BuiltinId::Quote => (
                    if ast.lst.len() < 2 {
                        Err(EvalErrV::MissingArgument)
                    } else {
                        Ok(ast.lst[1])
                    },
                    s,
                ),
                BuiltinId::Progn => spec_eval_seq(s, ast.lst, 1, (fuel - 1) as nat),
                BuiltinId::If => if ast.lst.len() < 3 {
                    (Err(EvalErrV::MissingArgument), s)
                } else {
                    let (cr, s1) = spec_eval_inner(s, ast.lst[1], (fuel - 1) as nat);
                    match cr {
                        Err(e) => (Err(e), s1),
                        Ok(c) => if !spec_nil_like(s1.cells, c) {
                            spec_eval_inner(s1, ast.lst[2], (fuel - 1) as nat)
                        } else {
                            spec_eval_seq(s1, ast.lst, 3, (fuel - 1) as nat)
                        },
                    }
                },
                BuiltinId::Lambda => spec_lambda_builtin(s, ast.lst.skip(1)),
                _ => (Err(EvalErrV::Type(TypeMismatch::NotApplicable)), s),
            },
        }
    }
}

/// The argument expressions of a call, with the evaluator's own entry
/// fuel check.
pub open spec fn spec_eval_rest(s: LspV, lst: Seq<ValueV>, i: int, fuel: nat) -> (
    Result<Seq<ValueV>, EvalErrV>,
    LspV,
)
    decreases fuel, remaining(lst.len() as int, i) + 1,
{
    if fuel == 0 {
        (Err(EvalErrV::DepthExceeded), s)
    } else {
        spec_eval_rest_from(s, lst, i, fuel)
    }
}

/// A sequence of forms, with the evaluator's own entry fuel check.
pub open spec fn spec_eval_seq(s: LspV, lst: Seq<ValueV>, i: int, fuel: nat) -> (
    Result<ValueV, EvalErrV>,
    LspV,
)
    decreases fuel, remaining(lst.len() as int, i) + 1,
{
    if fuel == 0 {
        (Err(EvalErrV::DepthExceeded), s)
    } else {
        spec_eval_seq_from(s, lst, i, fuel, ValueV::nil())
    }
}

/// A call resolved through its head symbol: the global function table
/// alone decides it, an absent name is the unbound-function error, and
/// the named primitive or closure is applied to the remaining elements.
pub open spec fn spec_eval_fn(s: LspV, name: Seq<char>, ast: SexpV, fuel: nat) -> (
    Result<ValueV, EvalErrV>,
    LspV,
)
    decreases fuel, 2int,
{
    match assoc_find(s.globals.funcs, name) {
        None => (Err(EvalErrV::UnboundFunction(name)), s),
        Some(fo) => if fuel == 0 {
            (Err(EvalErrV::DepthExceeded), s)
        } else {
            match fo {
                FuncObjV::Builtin(b) => spec_call_builtin(s, b, ast, (fuel - 1) as nat),
                FuncObjV::User(f) => {
                    let (ar, s1) = spec_eval_rest(s, ast.lst, 1, (fuel - 1) as nat);
                    match ar {
                        Err(e) => (Err(e), s1),
                        Ok(vs) => spec_call_user(s1, f, vs, (fuel - 1) as nat),
                    }
                },
            }
        },
    }
}

/// One whole expression: empty is the empty-list constant; a symbol head
/// resolves in the global function table; an expression head is evaluated
/// first and must yield a closure, which is applied under the evaluated
/// protocol; anything else in function position is not applicable.
pub open spec fn spec_eval_sexp(s: LspV, ast: SexpV, fuel: nat) -> (
    Result<ValueV, EvalErrV>,
    LspV,
)
    decreases fuel, 3int,
{
    if fuel == 0 {
        (Err(EvalErrV::DepthExceeded), s)
    } else if ast.lst.len() == 0 {
        (Ok(ValueV::nil()), s)
    } else {
        match ast.lst[0] {
            ValueV::Sym(name) => spec_eval_fn(s, name, ast, (fuel - 1) as nat),
            ValueV::Sxp(h) => {
                let (hr, s1) = spec_eval_sexp(s, h, (fuel - 1) as nat);
                match hr {
                    Err(e) => (Err(e), s1),
                    Ok(hv) => match hv {
                        ValueV::Lambda(f) => {
                            let (ar, s2) = spec_eval_rest(s1, ast.lst, 1, (fuel - 1) as nat);
                            match ar {
                                Err(e) => (Err(e), s2),
                                Ok(vs) => spec_call_user(s2, f, vs, (fuel - 1) as nat),
                            }
                        },
                        _ => (Err(EvalErrV::Type(TypeMismatch::NotApplicable)), s1),
                    },
                }
            },
            _ => (Err(EvalErrV::Type(TypeMismatch::NotApplicable)), s),
        }
    }
}

/// A whole program under the default recursion budget.
pub open spec fn spec_eval(s: LspV, ast: SexpV) -> (Result<ValueV, EvalErrV>, LspV) {
    spec_eval_sexp(s, ast, DEFAULT_FUEL as nat)
}

/// The `lambda` builtin's relational promise coincides with the
/// functional description `spec_lambda_builtin`.
proof fn lemma_lambda_spec_fun(s: LspV, forms: Seq<ValueV>, r: Result<Inner, EvalError>, s2: LspV)
    requires
        UserFunc::lambda_spec(forms, s.cells, r, s2.cells),
        s2.globals == s.globals,
        s2.locals == s.locals,
        s2.keymaps == s.keymaps,
    ensures
        ({
            let (er, es) = spec_lambda_builtin(s, forms);
            &&& res_view(r) == er
            &&& s2 == es
        }),
{
    let (er, es) = spec_lambda_builtin(s, forms);
    if UserFunc::lambda_args_ok(forms) {
        let ps = forms[0]->Sxp_0;
        let params = Seq::new(ps.lst.len(), |i: int| ps.lst[i]->Sym_0);
        let v = r->Ok_0;
        let f = v@->Lambda_0;
        assert(f.params =~= params);
        assert(f.name =~= Seq::<char>::empty());
        match forms[1] {
            ValueV::Ref(c) => {
                assert(s2 == es);
            },
            _ => {
                assert(es.cells == s.cells.push(forms[1]));
                assert(s2 == es);
            },
        }
        assert(v@ == er->Ok_0);
    } else {
        assert(s2 == es);
    }
}

/// Whether a value counts as false, read through the cell store: the
/// symbol `nil`, an empty list, or a reference to a cell holding either.
pub open spec fn spec_nil_like(cells: Seq<ValueV>, v: ValueV) -> bool {
    v.is_nil() || (v matches ValueV::Ref(c) && c < cells.len() && cells[c as int].is_nil())
}

/// What `cons`, `car` and `cdr` hand back is well formed: it is built
/// from the well-formed arguments and from lists that the well-formed
/// store stands behind.
proof fn lemma_ops_wf(cells: Seq<ValueV>, a: ValueV, d: ValueV)
    requires
        forall|i: int| 0 <= i < cells.len() ==> (#[trigger] cells[i]).wf(i as nat),
        a.wf(cells.len()),
        d.wf(cells.len()),
    ensures
        crate::builtins::spec_cons(cells, a, d).wf(cells.len()),
        crate::builtins::spec_car(cells, d) matches Ok(v) ==> v.wf(cells.len()),
        crate::builtins::spec_cdr(cells, d) matches Ok(v) ==> v.wf(cells.len()),
{
    let n = cells.len();
    match list_of(cells, d) {
        Some(s) => {
            lemma_list_of_wf(cells, d, n);
            crate::value::lemma_wf_list(s.lst, n);
            crate::value::lemma_wf_list(seq![a] + s.lst, n);
            assert forall|i: int| 0 <= i < (seq![a] + s.lst).len() implies (#[trigger] (seq![a]
                + s.lst)[i]).wf(n) by {
                if i > 0 {
                    assert((seq![a] + s.lst)[i] == s.lst[i - 1]);
                }
            }
            if s.lst.len() > 0 {
                crate::value::lemma_wf_list(s.lst.skip(1), n);
                assert forall|i: int| 0 <= i < s.lst.skip(1).len() implies (
                #[trigger] s.lst.skip(1)[i]).wf(n) by {
                    assert(s.lst.skip(1)[i] == s.lst[i + 1]);
                }
            }
        },
        None => {
            crate::value::lemma_wf_list(seq![a, d], n);
            assert((seq![a, d])[0] == a && (seq![a, d])[1] == d);
        },
    }
}

impl Lsp {
    /// Whether a value counts as false, read through the cell store.
    fn is_nil_value(&self, v: &Inner) -> (r: bool)
        ensures
            r == spec_nil_like(self@.cells, v@),
    {
        proof {
            crate::value::lemma_view_elems(self.cells@);
        }
        if v.is_nil() {
            return true;
        }
        match v {
            Inner::Ref(c) => {
                if *c < self.cells.len() {
                    self.cells[*c].is_nil()
                } else {
                    false
                }
            },
            _ => false,
        }
    }

    /// Put a value into a fresh shared cell and hand its index back.
    #[verifier::loop_isolation(false)]
    fn alloc_cell(&mut self, v: Inner) -> (idx: usize)
        requires
            state_inv(old(self)@),
            v@.wf(old(self)@.cells.len()),
        ensures
            state_inv(final(self)@),
            evolves(old(self)@, final(self)@),
            final(self)@.cells == old(self)@.cells.push(v@),
            final(self)@.globals == old(self)@.globals,
            final(self)@.keymaps == old(self)@.keymaps,
            idx == old(self)@.cells.len(),
    {
        let idx = self.cells.len();
        proof {
            crate::value::lemma_view_elems(self.cells@);
        }
        let ghost vv = v@;
        self.cells.push(v);
        proof {
            crate::value::lemma_view_elems(self.cells@);
            assert(final(self)@.cells =~= old(self)@.cells.push(vv));
            lemma_state_inv_grow(old(self)@, final(self)@);
        }
        idx
    }

    /// Resolve a symbol: the innermost local binding wins, then the global
    /// namespace; an unbound name is reported as such.
    #[verifier::loop_isolation(false)]
    pub fn eval_sym(&self, sym: &String) -> (r: Result<Inner, EvalError>)
        requires
            state_inv(self@),
        ensures
            match lookup_var_spec(self@, sym@) {
                Some(v) => r matches Ok(rv) && rv@ == v,
                None => r matches Err(e) && e matches EvalError::UnboundVariable(n) && n@
                    == sym@,
            },
            r matches Ok(rv) ==> rv@.wf(self@.cells.len()),
    {
        let mut i: usize = self.locals.len();
        proof {
            assert(self@.locals.take(self.locals@.len() as int) =~= self@.locals);
        }
        while i > 0
            invariant
                0 <= i <= self.locals@.len(),
                lookup_locals(self@.locals, sym@) == lookup_locals(
                    self@.locals.take(i as int),
                    sym@,
                ),
            decreases i,
        {
            i = i - 1;
            proof {
                assert(self@.locals.take(i as int + 1).last() == self@.locals[i as int]);
                assert(self@.locals.take(i as int + 1).drop_last() =~= self@.locals.take(
                    i as int,
                ));
                assert(self@.locals[i as int] == self.locals@[i as int]@);
            }
            match self.locals[i].lookup_var(sym) {
                Some(v) => {
                    proof {
                        lemma_lookup_locals_wf(self@.locals, sym@, self@.cells.len());
                    }
                    return Ok(v);
                },
                None => {},
            }
        }
        proof {
            assert(self@.locals.take(0) =~= Seq::<NamespaceV>::empty());
        }
        match self.globals.lookup_var(sym) {
            Some(v) => {
                proof {
                    lemma_assoc_find_some(self@.globals.vars, sym@);
                }
                Ok(v)
            },
            None => Err(EvalError::UnboundVariable(sym.clone())),
        }
    }

    /// Evaluate one value: a symbol by lookup, a list as a call, a
    /// reference through its cell; anything else is itself.
    pub fn eval_inner(&mut self, ast: &Inner, fuel: u64) -> (r: Result<Inner, EvalError>)
        requires
            state_inv(old(self)@),
            ast@.wf(old(self)@.cells.len()),
        ensures
            state_inv(final(self)@),
            evolves(old(self)@, final(self)@),
            r matches Ok(v) ==> v@.wf(final(self)@.cells.len()),
            ({
                let (er, es) = spec_eval_inner(old(self)@, ast@, fuel as nat);
                &&& res_view(r) == er
                &&& final(self)@ == es
            }),
        decreases fuel,
    {
        if fuel == 0 {
            return Err(EvalError::DepthExceeded);
        }
        match ast {
            Inner::Sym(s) => {
                let rr = self.eval_sym(s);
                proof {
                    assert(ast@ == ValueV::Sym(s@));
                    match lookup_var_spec(self@, s@) {
                        Some(w) => {
                            assert(res_view(rr) == Ok::<ValueV, EvalErrV>(w));
                        },
                        None => {
                            assert(rr matches Err(e) && e matches EvalError::UnboundVariable(
                                n,
                            ) && n@ == s@);
                            assert(res_view(rr) == Err::<ValueV, EvalErrV>(
                                EvalErrV::UnboundVariable(s@),
                            ));
                        },
                    }
                }
                rr
            },
            Inner::Sxp(s) => self.eval_sexp(s, fuel - 1),
            Inner::Ref(c) => {
                proof {
                    crate::value::lemma_view_elems(self.cells@);
                    assert(ast@ == ValueV::Ref(*c as nat));
                }
                if *c < self.cells.len() {
                    proof {
                        assert(self@.cells[*c as int].wf(*c as nat));
                        self@.cells[*c as int].lemma_wf_grow(*c as nat, self@.cells.len());
                    }
                    let inner = self.cells[*c].clone();
                    proof {
                        assert(inner@ == self@.cells[*c as int]);
                    }
                    self.eval_inner(&inner, fuel - 1)
                } else {
                    Err(EvalError::Type(TypeMismatch::ExpectedList))
                }
            },
            other => {
                proof {
                    assert(!(ast@ is Sym) && !(ast@ is Sxp) && !(ast@ is Ref));
                }
                let rr = other.clone();
                proof {
                    assert(rr@ == ast@);
                }
                Ok(rr)
            },
        }
    }

    /// Evaluate the argument expressions of a call, left to right, from
    /// element `from` on.
    #[verifier::loop_isolation(false)]
    fn eval_rest(&mut self, ast: &Sexp, from: usize, fuel: u64) -> (r: Result<
        Vec<Inner>,
        EvalError,
    >)
        requires
            state_inv(old(self)@),
            wf_list(ast@.lst, old(self)@.cells.len()),
        ensures
            state_inv(final(self)@),
            evolves(old(self)@, final(self)@),
            r matches Ok(vs) ==> wf_list(view_elems(vs@), final(self)@.cells.len()),
            ({
                let (er, es) = spec_eval_rest(old(self)@, ast@.lst, from as int, fuel as nat);
                &&& (match r {
                    Ok(vs) => er == Ok::<Seq<ValueV>, EvalErrV>(view_elems(vs@)),
                    Err(e) => er == Err::<Seq<ValueV>, EvalErrV>(e@),
                })
                &&& final(self)@ == es
            }),
        decreases fuel,
    {
        if fuel == 0 {
            return Err(EvalError::DepthExceeded);
        }
        let mut out: Vec<Inner> = Vec::new();
        let mut i: usize = from;
        let n = ast.len();
        proof {
            crate::value::lemma_wf_list(ast@.lst, old(self)@.cells.len());
            let t = spec_eval_rest_from(self@, ast@.lst, from as int, fuel as nat);
            if t.0 is Ok {
                assert(Seq::<ValueV>::empty() + t.0->Ok_0 =~= t.0->Ok_0);
            }
            crate::value::lemma_view_elems(out@);
            assert(view_elems(out@) =~= Seq::<ValueV>::empty());
        }
        while i < n
            invariant
                from <= i <= n || i == from,
                n == ast@.lst.len(),
                fuel >= 1,
                state_inv(self@),
                evolves(old(self)@, self@),
                forall|j: int| 0 <= j < out@.len() ==> (#[trigger] out@[j]@).wf(
                    self@.cells.len(),
                ),
                spec_eval_rest_from(old(self)@, ast@.lst, from as int, fuel as nat)
                    == rest_prepend(
                    view_elems(out@),
                    spec_eval_rest_from(self@, ast@.lst, i as int, fuel as nat),
                ),
            decreases n - i,
        {
            proof {
                assert(ast@.lst[i as int].wf(old(self)@.cells.len()));
                ast@.lst[i as int].lemma_wf_grow(
                    old(self)@.cells.len(),
                    self@.cells.len(),
                );
            }
            let ghost pre = self@;
            let ghost out0 = out@;
            let v = match self.eval_inner(ast.get(i), fuel - 1) {
                Ok(v) => v,
                Err(e) => {
                    return Err(e);
                },
            };
            proof {
                lemma_evolves_trans(old(self)@, pre, self@);
                assert forall|j: int| 0 <= j < out@.len() implies (#[trigger] out@[j]@).wf(
                    self@.cells.len(),
                ) by {
                    assert(out@[j]@.wf(pre.cells.len()));
                    out@[j]@.lemma_wf_grow(pre.cells.len(), self@.cells.len());
                }
            }
            out.push(v);
            proof {
                crate::value::lemma_view_elems(out@);
                crate::value::lemma_view_elems(out0);
                assert(view_elems(out@) =~= view_elems(out0).push(v@));
                let t2 = spec_eval_rest_from(self@, ast@.lst, i as int + 1, fuel as nat);
                if t2.0 is Ok {
                    assert(view_elems(out0) + (seq![v@] + t2.0->Ok_0) =~= view_elems(out@)
                        + t2.0->Ok_0);
                }
            }
            i = i + 1;
        }
        proof {
            let t = spec_eval_rest_from(self@, ast@.lst, i as int, fuel as nat);
            assert(t == (Ok::<Seq<ValueV>, EvalErrV>(Seq::<ValueV>::empty()), self@));
            assert(view_elems(out@) + Seq::<ValueV>::empty() =~= view_elems(out@));
            crate::value::lemma_view_elems(out@);
            assert forall|j: int| 0 <= j < view_elems(out@).len() implies (
            #[trigger] view_elems(out@)[j]).wf(self@.cells.len()) by {
                assert(view_elems(out@)[j] == out@[j]@);
                assert(out@[j]@.wf(self@.cells.len()));
            }
            crate::value::lemma_wf_list(view_elems(out@), self@.cells.len());
        }
        Ok(out)
    }

    /// Evaluate a sequence of forms, returning the last result, or the
    /// empty list if there are none.
    #[verifier::loop_isolation(false)]
    fn eval_seq(&mut self, ast: &Sexp, from: usize, fuel: u64) -> (r: Result<Inner, EvalError>)
        requires
            state_inv(old(self)@),
            wf_list(ast@.lst, old(self)@.cells.len()),
        ensures
            state_inv(final(self)@),
            evolves(old(self)@, final(self)@),
            r matches Ok(v) ==> v@.wf(final(self)@.cells.len()),
            ({
                let (er, es) = spec_eval_seq(old(self)@, ast@.lst, from as int, fuel as nat);
                &&& res_view(r) == er
                &&& final(self)@ == es
            }),
        decreases fuel,
    {
        if fuel == 0 {
            return Err(EvalError::DepthExceeded);
        }
        let mut last = Inner::nil();
        let mut i: usize = from;
        let n = ast.len();
        proof {
            crate::value::lemma_wf_list(ast@.lst, old(self)@.cells.len());
        }
        while i < n
            invariant
                from <= i <= n || i == from,
                n == ast@.lst.len(),
                fuel >= 1,
                state_inv(self@),
                evolves(old(self)@, self@),
                last@.wf(self@.cells.len()),
                spec_eval_seq_from(
                    old(self)@,
                    ast@.lst,
                    from as int,
                    fuel as nat,
                    ValueV::nil(),
                ) == spec_eval_seq_from(self@, ast@.lst, i as int, fuel as nat, last@),
            decreases n - i,
        {
            proof {
                assert(ast@.lst[i as int].wf(old(self)@.cells.len()));
                ast@.lst[i as int].lemma_wf_grow(
                    old(self)@.cells.len(),
                    self@.cells.len(),
                );
            }
            let ghost pre = self@;
            last = match self.eval_inner(ast.get(i), fuel - 1) {
                Ok(v) => v,
                Err(e) => {
                    return Err(e);
                },
            };
            proof {
                lemma_evolves_trans(old(self)@, pre, self@);
            }
            i = i + 1;
        }
        Ok(last)
    }

    /// Apply a user-defined closure: bind its parameters positionally in a
    /// fresh local namespace (failing with an arity error naming the first
    /// unsatisfied parameter, and ignoring extra arguments), evaluate the
    /// body in that scope, and pop the scope whether the body succeeded or
    /// failed.
    #[verifier::loop_isolation(false)]
    fn call_user(&mut self, f: &UserFunc, args: &Vec<Inner>, fuel: u64) -> (r: Result<
        Inner,
        EvalError,
    >)
        requires
            state_inv(old(self)@),
            f@.body < old(self)@.cells.len(),
            wf_list(view_elems(args@), old(self)@.cells.len()),
        ensures
            state_inv(final(self)@),
            evolves(old(self)@, final(self)@),
            r matches Ok(v) ==> v@.wf(final(self)@.cells.len()),
            f@.params.len() > args@.len() ==> ({
                &&& r matches Err(e)
                &&& e matches EvalError::Arity(fname, pname)
                &&& fname@ == f@.name
                &&& pname@ == f@.params[args@.len() as int]
            }),
            ({
                let (er, es) = spec_call_user(old(self)@, f@, view_elems(args@), fuel as nat);
                &&& res_view(r) == er
                &&& final(self)@ == es
            }),
        decreases fuel,
    {
        proof {
            crate::value::lemma_view_elems(args@);
            crate::value::lemma_wf_list(view_elems(args@), old(self)@.cells.len());
        }
        if f.args.len() > args.len() {
            let pname = f.args.get(args.len()).name().clone();
            return Err(EvalError::Arity(f.name.clone(), pname));
        }
        if fuel == 0 {
            return Err(EvalError::DepthExceeded);
        }
        let mut ns = Namespace::new();
        let np = f.args.len();
        let mut i: usize = 0;
        proof {
            assert(f@.params.skip(0) =~= f@.params);
            assert(view_elems(args@).skip(0) =~= view_elems(args@));
            let t = spec_bind(f@.params, view_elems(args@), self@.cells);
            assert(Seq::<(Seq<char>, ValueV)>::empty() + t.0 =~= t.0);
        }
        while i < np
            invariant
                0 <= i <= np,
                np == f@.params.len(),
                np <= args@.len(),
                state_inv(self@),
                evolves(old(self)@, self@),
                self@.globals == old(self)@.globals,
                self@.keymaps == old(self)@.keymaps,
                binds_wf(ns@.vars, self@.cells.len()),
                ns@.funcs.len() == 0,
                spec_bind(f@.params, view_elems(args@), old(self)@.cells) == bind_prepend(
                    ns@.vars,
                    spec_bind(
                        f@.params.skip(i as int),
                        view_elems(args@).skip(i as int),
                        self@.cells,
                    ),
                ),
            decreases np - i,
        {
            proof {
                assert(view_elems(args@)[i as int].wf(old(self)@.cells.len()));
                assert(view_elems(args@)[i as int] == args@[i as int]@);
                args@[i as int]@.lemma_wf_grow(old(self)@.cells.len(), self@.cells.len());
                assert(f@.params.skip(i as int)[0] == f@.params[i as int]);
                assert(view_elems(args@).skip(i as int)[0] == view_elems(args@)[i as int]);
                assert(f@.params.skip(i as int).skip(1) =~= f@.params.skip(i as int + 1));
                assert(view_elems(args@).skip(i as int).skip(1) =~= view_elems(args@).skip(
                    i as int + 1,
                ));
            }
            let name = f.args.get(i).name().clone();
            let ghost pre = self@;
            let ghost nsv0 = ns@;
            let ghost prevec = self.cells@;
            ns.reg_var(name, &args[i], &mut self.cells);
            proof {
                crate::value::lemma_view_elems(self.cells@);
                crate::value::lemma_view_elems(prevec);
                match args@[i as int]@ {
                    ValueV::Sxp(_) => {
                        assert(self@.cells =~= pre.cells.push(args@[i as int]@));
                        assert(self@.globals == pre.globals);
                        assert(self@.locals == pre.locals);
                        assert(self@.keymaps == pre.keymaps);
                        lemma_state_inv_grow(pre, self@);
                        lemma_evolves_trans(old(self)@, pre, self@);
                        assert(ns@.vars =~= nsv0.vars.push(
                            (name@, ValueV::Ref(pre.cells.len())),
                        ));
                    },
                    _ => {
                        assert(self@.cells =~= pre.cells);
                        assert(self@ == pre) by {
                            assert(self@.cells =~= pre.cells);
                        }
                        assert(ns@.vars =~= nsv0.vars.push((name@, args@[i as int]@)));
                    },
                }
                assert forall|j: int| 0 <= j < ns@.vars.len() implies (
                #[trigger] ns@.vars[j]).1.wf(self@.cells.len()) by {
                    if j < nsv0.vars.len() {
                        assert(nsv0.vars[j].1.wf(pre.cells.len()));
                        nsv0.vars[j].1.lemma_wf_grow(pre.cells.len(), self@.cells.len());
                        assert(ns@.vars[j] == nsv0.vars[j]);
                    } else {
                        match args@[i as int]@ {
                            ValueV::Sxp(_) => {
                                assert(ns@.vars[j].1 == ValueV::Ref(pre.cells.len()));
                                assert(self@.cells.len() == pre.cells.len() + 1);
                            },
                            _ => {
                                assert(ns@.vars[j].1 == args@[i as int]@);
                                assert(args@[i as int]@.wf(self@.cells.len()));
                            },
                        }
                    }
                }
                let tnext = spec_bind(
                    f@.params.skip(i as int + 1),
                    view_elems(args@).skip(i as int + 1),
                    self@.cells,
                );
                assert(nsv0.vars + (seq![
                    (f@.params[i as int], ns@.vars.last().1),
                ] + tnext.0) =~= ns@.vars + tnext.0);
            }
            i = i + 1;
        }
        proof {
            assert(f@.params.skip(np as int) =~= Seq::<Seq<char>>::empty());
            let tend = spec_bind(
                f@.params.skip(np as int),
                view_elems(args@).skip(np as int),
                self@.cells,
            );
            assert(tend == (Seq::<(Seq<char>, ValueV)>::empty(), self@.cells));
            assert(ns@.vars + Seq::<(Seq<char>, ValueV)>::empty() =~= ns@.vars);
            assert(spec_bind(f@.params, view_elems(args@), old(self)@.cells) == (
                ns@.vars,
                self@.cells,
            ));
            assert(ns@ == NamespaceV { funcs: Seq::empty(), vars: ns@.vars }) by {
                assert(ns@.funcs =~= Seq::<(Seq<char>, FuncObjV)>::empty());
            }
        }
        let ghost before_push = self@;
        self.locals.push(ns);
        proof {
            assert(self@.locals =~= before_push.locals.push(
                self.locals@[self.locals@.len() - 1]@,
            ));
            assert(self@.cells == before_push.cells);
            assert(self@.globals == before_push.globals);
            assert(self@.keymaps == before_push.keymaps);
            assert forall|j: int| 0 <= j < self@.locals.len() implies ns_wf(
                #[trigger] self@.locals[j],
                self@.cells.len(),
            ) by {
                if j < before_push.locals.len() {
                    assert(self@.locals[j] == before_push.locals[j]);
                    assert(ns_wf(before_push.locals[j], before_push.cells.len()));
                }
            }
            assert(state_inv(self@));
            assert(f@.body < self@.cells.len());
            assert(self@.cells[f@.body as int].wf(f@.body));
            self@.cells[f@.body as int].lemma_wf_grow(f@.body, self@.cells.len());
            crate::value::lemma_view_elems(self.cells@);
            assert(self@ == LspV {
                cells: spec_bind(f@.params, view_elems(args@), old(self)@.cells).1,
                locals: old(self)@.locals.push(
                    NamespaceV {
                        funcs: Seq::empty(),
                        vars: spec_bind(f@.params, view_elems(args@), old(self)@.cells).0,
                    },
                ),
                ..old(self)@
            });
        }
        let body = self.cells[f.body].clone();
        let ghost mid = self@;
        proof {
            assert(body@ == mid.cells[f@.body as int]);
        }
        let ret = self.eval_inner(&body, fuel - 1);
        proof {
            assert(self@.locals == mid.locals);
        }
        let ghost before_pop = self@;
        let _ = self.locals.pop();
        proof {
            assert(self@.locals =~= before_pop.locals.drop_last());
            assert(self@.locals =~= old(self)@.locals);
            assert(self@.cells == before_pop.cells);
            assert(self@.globals == before_pop.globals);
            assert(self@.keymaps == before_pop.keymaps);
            assert forall|j: int| 0 <= j < self@.locals.len() implies ns_wf(
                #[trigger] self@.locals[j],
                self@.cells.len(),
            ) by {
                assert(self@.locals[j] == before_pop.locals[j]);
                assert(ns_wf(before_pop.locals[j], before_pop.cells.len()));
            }
            assert(state_inv(self@));
            assert(evolves(old(self)@, self@));
            assert(self@ == LspV { locals: before_pop.locals.drop_last(), ..before_pop });
        }
        ret
    }

    /// Evaluate an expression: an empty list is the empty-list constant; a
    /// symbol head names a global function; an expression head is
    /// evaluated first and must yield a closure; anything else in function
    /// position is not applicable.
    pub fn eval_sexp(&mut self, ast: &Sexp, fuel: u64) -> (r: Result<Inner, EvalError>)
        requires
            state_inv(old(self)@),
            wf_list(ast@.lst, old(self)@.cells.len()),
        ensures
            state_inv(final(self)@),
            evolves(old(self)@, final(self)@),
            r matches Ok(v) ==> v@.wf(final(self)@.cells.len()),
            (ast@.lst.len() == 0 && fuel > 0) ==> ({
                &&& *final(self) == *old(self)
                &&& r matches Ok(v)
                &&& v@ == ValueV::nil()
            }),
            (ast@.lst.len() > 0 && ast@.lst[0] is Sym && assoc_find(
                old(self)@.globals.funcs,
                ast@.lst[0]->Sym_0,
            ) is None && fuel > 0) ==> ({
                &&& *final(self) == *old(self)
                &&& r matches Err(e)
                &&& e matches EvalError::UnboundFunction(n)
                &&& n@ == ast@.lst[0]->Sym_0
            }),
            ({
                let (er, es) = spec_eval_sexp(old(self)@, ast@, fuel as nat);
                &&& res_view(r) == er
                &&& final(self)@ == es
            }),
        decreases fuel,
    {
        if fuel == 0 {
            return Err(EvalError::DepthExceeded);
        }
        let n = ast.len();
        if n == 0 {
            return Ok(Inner::nil());
        }
        proof {
            crate::value::lemma_wf_list(ast@.lst, old(self)@.cells.len());
        }
        match ast.get(0) {
            Inner::Sym(s) => {
                proof {
                    assert(ast@.lst[0] == ValueV::Sym(s@));
                }
                self.eval_fn(s, ast, fuel - 1)
            },
            Inner::Sxp(h) => {
                proof {
                    assert(ast@.lst[0].wf(old(self)@.cells.len()));
                    assert(ast@.lst[0] == ValueV::Sxp(h@));
                }
                let ghost pre = self@;
                let head = match self.eval_sexp(h, fuel - 1) {
                    Ok(v) => v,
                    Err(e) => {
                        return Err(e);
                    },
                };
                match head {
                    Inner::Lambda(f) => {
                        proof {
                            assert(head@ == ValueV::Lambda(f@));
                            crate::value::lemma_wf_list_grow(
                                ast@.lst,
                                old(self)@.cells.len(),
                                self@.cells.len(),
                            );
                        }
                        let ghost mid = self@;
                        let args = match self.eval_rest(ast, 1, fuel - 1) {
                            Ok(vs) => vs,
                            Err(e) => {
                                proof {
                                    lemma_evolves_trans(old(self)@, mid, self@);
                                }
                                return Err(e);
                            },
                        };
                        proof {
                            lemma_evolves_trans(old(self)@, mid, self@);
                            assert(f@.body < mid.cells.len());
                        }
                        let ghost mid2 = self@;
                        let ret = self.call_user(&f, &args, fuel - 1);
                        proof {
                            lemma_evolves_trans(old(self)@, mid2, self@);
                        }
                        ret
                    },
                    other => {
                        proof {
                            assert(!(other@ is Lambda));
                        }
                        Err(EvalError::Type(TypeMismatch::NotApplicable))
                    },
                }
            },
            other => {
                proof {
                    assert(ast@.lst[0] == other@);
                    assert(!(ast@.lst[0] is Sym) && !(ast@.lst[0] is Sxp));
                }
                Err(EvalError::Type(TypeMismatch::NotApplicable))
            },
        }
    }

    /// Resolve the head symbol of a call in the global function table and
    /// apply what it names.
    fn eval_fn(&mut self, name: &String, ast: &Sexp, fuel: u64) -> (r: Result<Inner, EvalError>)
        requires
            state_inv(old(self)@),
            wf_list(ast@.lst, old(self)@.cells.len()),
            ast@.lst.len() >= 1,
        ensures
            state_inv(final(self)@),
            evolves(old(self)@, final(self)@),
            r matches Ok(v) ==> v@.wf(final(self)@.cells.len()),
            assoc_find(old(self)@.globals.funcs, name@) is None ==> ({
                &&& *final(self) == *old(self)
                &&& r matches Err(e)
                &&& e matches EvalError::UnboundFunction(n)
                &&& n@ == name@
            }),
            ({
                let (er, es) = spec_eval_fn(old(self)@, name@, ast@, fuel as nat);
                &&& res_view(r) == er
                &&& final(self)@ == es
            }),
        decreases fuel,
    {
        let fun = match self.globals.lookup_fn(name) {
            Some(f) => f,
            None => {
                return Err(EvalError::UnboundFunction(name.clone()));
            },
        };
        proof {
            lemma_assoc_find_some(self@.globals.funcs, name@);
            assert(assoc_find(self@.globals.funcs, name@) == Some(fun@));
        }
        if fuel == 0 {
            return Err(EvalError::DepthExceeded);
        }
        match fun {
            FuncObj::Builtin(b) => self.call_builtin(b, ast, fuel - 1),
            FuncObj::User(f) => {
                proof {
                    assert(fun@ == FuncObjV::User(f@));
                }
                let ghost mid = self@;
                let args = match self.eval_rest(ast, 1, fuel - 1) {
                    Ok(vs) => vs,
                    Err(e) => {
                        return Err(e);
                    },
                };
                proof {
                    assert(f@.body < old(self)@.cells.len());
                }
                let ghost mid2 = self@;
                let ret = self.call_user(&f, &args, fuel - 1);
                proof {
                    lemma_evolves_trans(old(self)@, mid2, self@);
                }
                ret
            },
        }
    }

    /// Run one primitive: pre-evaluate the arguments where its protocol
    /// says so, and hand raw syntax to the special forms.
    #[verifier::loop_isolation(false)]
    fn call_builtin(&mut self, b: BuiltinId, ast: &Sexp, fuel: u64) -> (r: Result<
        Inner,
        EvalError,
    >)
        requires
            state_inv(old(self)@),
            wf_list(ast@.lst, old(self)@.cells.len()),
            ast@.lst.len() >= 1,
        ensures
            state_inv(final(self)@),
            evolves(old(self)@, final(self)@),
            r matches Ok(v) ==> v@.wf(final(self)@.cells.len()),
            ({
                let (er, es) = spec_call_builtin(old(self)@, b, ast@, fuel as nat);
                &&& res_view(r) == er
                &&& final(self)@ == es
            }),
        decreases fuel,
    {
        if fuel == 0 {
            return Err(EvalError::DepthExceeded);
        }
        proof {
            crate::value::lemma_wf_list(ast@.lst, old(self)@.cells.len());
        }
        match b.eval_args() {
            EvalOption::Evaluated => {
                let args = match self.eval_rest(ast, 1, fuel - 1) {
                    Ok(vs) => vs,
                    Err(e) => {
                        return Err(e);
                    },
                };
                proof {
                    crate::value::lemma_wf_list(view_elems(args@), self@.cells.len());
                    crate::value::lemma_view_elems(args@);
                }
                let ghost mid = self@;
                let ghost vs = view_elems(args@);
                let ret = match b {
                    BuiltinId::Plus => builtin_plus(&self.cells, &args),
                    BuiltinId::Minus => builtin_minus(&self.cells, &args),
                    BuiltinId::Eq => builtin_eq(&self.cells, &args),
                    BuiltinId::Cons => {
                        let r = builtin_cons(&self.cells, &args);
                        proof {
                            if args@.len() >= 2 {
                                lemma_ops_wf(mid.cells, vs[0], vs[1]);
                            }
                        }
                        r
                    },
                    BuiltinId::Car => {
                        let r = builtin_car(&self.cells, &args);
                        proof {
                            if args@.len() >= 1 {
                                lemma_ops_wf(mid.cells, vs[0], vs[0]);
                            }
                        }
                        r
                    },
                    BuiltinId::Cdr => {
                        let r = builtin_cdr(&self.cells, &args);
                        proof {
                            if args@.len() >= 1 {
                                lemma_ops_wf(mid.cells, vs[0], vs[0]);
                            }
                        }
                        r
                    },
                    BuiltinId::Listp => builtin_listp(&self.cells, &args),
                    BuiltinId::Exit => Ok(Inner::sym("exit")),
                    BuiltinId::Print => {
                        if args.len() < 1 {
                            Err(EvalError::MissingArgument)
                        } else {
                            let text = crate::display::display_string(&self.cells, &args[0]);
                            crate::text::print_line(&text);
                            let out = args[0].clone();
                            proof {
                                assert(out@ == vs[0]);
                            }
                            Ok(out)
                        }
                    },
                    BuiltinId::Defalias => self.defalias(&args),
                    BuiltinId::Keymapp => self.keymapp(&args),
                    BuiltinId::DefineKey => self.define_key_builtin(&args),
                    _ => Err(EvalError::Type(TypeMismatch::NotApplicable)),
                };
                proof {
                    lemma_evolves_trans(old(self)@, mid, self@);
                }
                ret
            },
            EvalOption::Unevaluated => {
                match b {
                    BuiltinId::Quote => {
                        if ast.len() < 2 {
                            Err(EvalError::MissingArgument)
                        } else {
                            proof {
                                assert(ast@.lst[1].wf(old(self)@.cells.len()));
                            }
                            let out = ast.get(1).clone();
                            proof {
                                assert(out@ == ast@.lst[1]);
                            }
                            Ok(out)
                        }
                    },
                    BuiltinId::Progn => self.eval_seq(ast, 1, fuel - 1),
                    BuiltinId::If => {
                        if ast.len() < 3 {
                            return Err(EvalError::MissingArgument);
                        }
                        let cond = match self.eval_inner(ast.get(1), fuel - 1) {
                            Ok(v) => v,
                            Err(e) => {
                                return Err(e);
                            },
                        };
                        proof {
                            crate::value::lemma_wf_list_grow(
                                ast@.lst,
                                old(self)@.cells.len(),
                                self@.cells.len(),
                            );
                            crate::value::lemma_wf_list(ast@.lst, self@.cells.len());
                        }
                        let ghost mid = self@;
                        let ret = if !self.is_nil_value(&cond) {
                            self.eval_inner(ast.get(2), fuel - 1)
                        } else {
                            self.eval_seq(ast, 3, fuel - 1)
                        };
                        proof {
                            lemma_evolves_trans(old(self)@, mid, self@);
                        }
                        ret
                    },
                    BuiltinId::Lambda => {
                        let mut forms: Vec<Inner> = Vec::new();
                        let mut i: usize = 1;
                        let n = ast.len();
                        while i < n
                            invariant
                                1 <= i,
                                i <= n || i == 1,
                                n == ast@.lst.len(),
                                forms@.len() == i - 1,
                                forall|j: int| 0 <= j < forms@.len() ==> (
                                #[trigger] forms@[j]@).wf(old(self)@.cells.len()),
                                forall|j: int| 0 <= j < forms@.len() ==> #[trigger] forms@[j]@
                                    == ast@.lst[j + 1],
                            decreases n - i,
                        {
                            proof {
                                assert(ast@.lst[i as int].wf(old(self)@.cells.len()));
                            }
                            forms.push(ast.get(i).clone());
                            i = i + 1;
                        }
                        let ghost fv = forms@;
                        let fsx = Sexp::from_vec(forms);
                        let ghost pre = self@;
                        let ret = UserFunc::lambda(&fsx, &mut self.cells);
                        proof {
                            crate::value::lemma_view_elems(fv);
                            assert(fsx@.lst == view_elems(fv));
                            assert forall|j: int| 0 <= j < fsx@.lst.len() implies (
                            #[trigger] fsx@.lst[j]).wf(pre.cells.len()) by {
                                assert(view_elems(fv)[j] == fv[j]@);
                                assert(fv[j]@.wf(pre.cells.len()));
                            }
                            assert forall|j: int| 0 <= j < fsx@.lst.len() implies fsx@.lst[j]
                                == ast@.lst.skip(1)[j] by {
                                assert(view_elems(fv)[j] == fv[j]@);
                                assert(fv[j]@ == ast@.lst[j + 1]);
                            }
                            assert(fsx@.lst =~= ast@.lst.skip(1));
                            crate::value::lemma_view_elems(self.cells@);
                            crate::value::lemma_view_elems(old(self).cells@);
                            if self@.cells.len() > pre.cells.len() {
                                assert(self@.cells == pre.cells.push(fsx@.lst[1]));
                                assert(self@.cells.last() == fsx@.lst[1]);
                                assert(self@.cells.last().wf(pre.cells.len()));
                                assert(self@.globals == pre.globals);
                                assert(self@.locals == pre.locals);
                                assert(self@.keymaps == pre.keymaps);
                                lemma_state_inv_grow(pre, self@);
                            } else {
                                assert(self@.cells =~= pre.cells);
                                assert(self@ == pre);
                            }
                            if crate::lambda::UserFunc::lambda_args_ok(fsx@.lst) {
                                assert(fsx@.lst[1].wf(pre.cells.len()));
                            }
                            lemma_lambda_spec_fun(pre, fsx@.lst, ret, self@);
                            assert(ret matches Ok(v) ==> v@.wf(self@.cells.len()));
                        }
                        ret
                    },
                    _ => Err(EvalError::Type(TypeMismatch::NotApplicable)),
                }
            },
        }
    }

    /// Build a closure from a `(lambda ...)` list value.
    #[verifier::loop_isolation(false)]
    fn lambda_from_list(&mut self, s: &Sexp) -> (r: Result<UserFunc, EvalError>)
        requires
            state_inv(old(self)@),
            wf_list(s@.lst, old(self)@.cells.len()),
        ensures
            state_inv(final(self)@),
            evolves(old(self)@, final(self)@),
            r matches Ok(f) ==> f@.body < final(self)@.cells.len(),
            ({
                let (er, es) = spec_lambda_from_list(old(self)@, s@);
                &&& (match r {
                    Ok(f) => er == Ok::<crate::lambda::LambdaV, EvalErrV>(f@),
                    Err(e) => er == Err::<crate::lambda::LambdaV, EvalErrV>(e@),
                })
                &&& final(self)@ == es
            }),
        decreases 1u64,
    {
        proof {
            crate::value::lemma_wf_list(s@.lst, old(self)@.cells.len());
        }
        if s.len() < 1 {
            return Err(EvalError::MalformedLambda);
        }
        let head_ok = match s.get(0) {
            Inner::Sym(h) => crate::value::string_eq_str(h, "lambda"),
            _ => false,
        };
        if !head_ok {
            return Err(EvalError::Type(TypeMismatch::NotApplicable));
        }
        let mut forms: Vec<Inner> = Vec::new();
        let mut i: usize = 1;
        let n = s.len();
        while i < n
            invariant
                1 <= i,
                i <= n || i == 1,
                n == s@.lst.len(),
                forms@.len() == i - 1,
                forall|j: int| 0 <= j < forms@.len() ==> (#[trigger] forms@[j]@).wf(
                    old(self)@.cells.len(),
                ),
                forall|j: int| 0 <= j < forms@.len() ==> #[trigger] forms@[j]@ == s@.lst[j + 1],
            decreases n - i,
        {
            proof {
                assert(s@.lst[i as int].wf(old(self)@.cells.len()));
            }
            forms.push(s.get(i).clone());
            i = i + 1;
        }
        let ghost fv = forms@;
        let fsx = Sexp::from_vec(forms);
        let ghost pre = self@;
        let built = UserFunc::lambda(&fsx, &mut self.cells);
        proof {
            crate::value::lemma_view_elems(fv);
            assert(fsx@.lst == view_elems(fv));
            assert forall|j: int| 0 <= j < fsx@.lst.len() implies (#[trigger] fsx@.lst[j]).wf(
                pre.cells.len(),
            ) by {
                assert(view_elems(fv)[j] == fv[j]@);
                assert(fv[j]@.wf(pre.cells.len()));
            }
            if self@.cells.len() > pre.cells.len() {
                assert(self@.cells == pre.cells.push(fsx@.lst[1]));
                assert(self@.cells.last() == fsx@.lst[1]);
                assert(self@.cells.last().wf(pre.cells.len()));
                assert(self@.globals == pre.globals);
                assert(self@.locals == pre.locals);
                assert(self@.keymaps == pre.keymaps);
                lemma_state_inv_grow(pre, self@);
            } else {
                assert(self@.cells =~= pre.cells);
                assert(self@ == pre);
            }
            if crate::lambda::UserFunc::lambda_args_ok(fsx@.lst) {
                assert(fsx@.lst[1].wf(pre.cells.len()));
            }
        }
        proof {
            assert forall|j: int| 0 <= j < fsx@.lst.len() implies fsx@.lst[j] == s@.lst.skip(
                1,
            )[j] by {
                assert(view_elems(fv)[j] == fv[j]@);
                assert(fv[j]@ == s@.lst[j + 1]);
            }
            assert(fsx@.lst =~= s@.lst.skip(1));
            lemma_lambda_spec_fun(pre, fsx@.lst, built, self@);
        }
        match built {
            Ok(v) => match v {
                Inner::Lambda(f) => {
                    proof {
                        assert(v@.wf(self@.cells.len()));
                        assert(v@ == ValueV::Lambda(f@));
                    }
                    Ok(f)
                },
                _ => Err(EvalError::MalformedLambda),
            },
            Err(e) => Err(e),
        }
    }

    /// The `defalias`/`fset` builtin: bind a function definition under a
    /// symbol in the global function table, silently shadowing any earlier
    /// binding, and hand the symbol back.
    fn defalias(&mut self, args: &Vec<Inner>) -> (r: Result<Inner, EvalError>)
        requires
            state_inv(old(self)@),
            wf_list(view_elems(args@), old(self)@.cells.len()),
        ensures
            state_inv(final(self)@),
            evolves(old(self)@, final(self)@),
            r matches Ok(v) ==> v@.wf(final(self)@.cells.len()),
            ({
                let (er, es) = spec_defalias(old(self)@, view_elems(args@));
                &&& res_view(r) == er
                &&& final(self)@ == es
            }),
        decreases 2u64,
    {
        proof {
            crate::value::lemma_view_elems(args@);
            crate::value::lemma_wf_list(view_elems(args@), old(self)@.cells.len());
        }
        if args.len() < 2 {
            return Err(EvalError::MissingArgument);
        }
        let name = match &args[0] {
            Inner::Sym(s) => {
                proof {
                    assert(view_elems(args@)[0] == args@[0]@);
                }
                s.clone()
            },
            other => {
                proof {
                    assert(view_elems(args@)[0] == args@[0]@);
                    assert(other@ == args@[0]@);
                }
                return Err(EvalError::Type(TypeMismatch::ExpectedSymbol));
            },
        };
        let lam: UserFunc = match &args[1] {
            Inner::Lambda(f) => {
                proof {
                    assert(view_elems(args@)[1].wf(old(self)@.cells.len()));
                    assert(view_elems(args@)[1] == args@[1]@);
                }
                f.clone()
            },
            Inner::Sxp(s) => {
                proof {
                    assert(view_elems(args@)[1].wf(old(self)@.cells.len()));
                    assert(view_elems(args@)[1] == args@[1]@);
                }
                match self.lambda_from_list(s) {
                    Ok(f) => f,
                    Err(e) => {
                        return Err(e);
                    },
                }
            },
            Inner::Ref(c) => {
                proof {
                    assert(view_elems(args@)[1] == args@[1]@);
                    crate::value::lemma_view_elems(self.cells@);
                }
                if *c >= self.cells.len() {
                    return Err(EvalError::Type(TypeMismatch::NotApplicable));
                }
                proof {
                    assert(self@.cells[*c as int].wf(*c as nat));
                    self@.cells[*c as int].lemma_wf_grow(*c as nat, self@.cells.len());
                }
                let cell = self.cells[*c].clone();
                proof {
                    assert(cell@ == self@.cells[*c as int]);
                }
                match cell {
                    Inner::Sxp(s) => {
                        match self.lambda_from_list(&s) {
                            Ok(f) => f,
                            Err(e) => {
                                return Err(e);
                            },
                        }
                    },
                    _ => {
                        return Err(EvalError::Type(TypeMismatch::NotApplicable));
                    },
                }
            },
            other => {
                proof {
                    assert(view_elems(args@)[1] == args@[1]@);
                    assert(other@ == args@[1]@);
                }
                return Err(EvalError::Type(TypeMismatch::NotApplicable));
            },
        };
        let named = UserFunc { name: name.clone(), args: lam.args.clone(), body: lam.body };
        let ghost namedv = named@;
        let ghost pre = self@;
        self.globals.reg_fn(name.clone(), FuncObj::User(named));
        proof {
            assert(self@.globals.vars == pre.globals.vars);
            assert(self@.locals =~= pre.locals);
            assert(self@.keymaps =~= pre.keymaps);
            assert(self@.cells == pre.cells);
            assert(self@.globals.funcs == pre.globals.funcs.push((name@, FuncObjV::User(namedv))));
            assert(self@ == LspV {
                globals: NamespaceV {
                    funcs: pre.globals.funcs.push((name@, FuncObjV::User(namedv))),
                    vars: pre.globals.vars,
                },
                ..pre
            });
            assert forall|i: int| 0 <= i < self@.globals.funcs.len() implies match (
            #[trigger] self@.globals.funcs[i]).1 {
                FuncObjV::User(f) => f.body < self@.cells.len(),
                FuncObjV::Builtin(_) => true,
            } by {
                if i < pre.globals.funcs.len() {
                    assert(self@.globals.funcs[i] == pre.globals.funcs[i]);
                    assert(funcs_wf(pre.globals.funcs, pre.cells.len()));
                }
            }
            assert(state_inv(self@));
        }
        Ok(Inner::Sym(name))
    }

    /// The `keymapp` builtin: the truthy constant on a keymap extension
    /// value or on a list whose head is the symbol `keymap`, else the
    /// empty list.
    fn keymapp(&self, args: &Vec<Inner>) -> (r: Result<Inner, EvalError>)
        requires
            state_inv(self@),
        ensures
            r matches Ok(v) ==> v@.wf(self@.cells.len()),
            res_view(r) == spec_keymapp(self@.cells, view_elems(args@)),
    {
        proof {
            crate::value::lemma_view_elems(args@);
        }
        if args.len() < 1 {
            return Err(EvalError::MissingArgument);
        }
        match &args[0] {
            Inner::Ext(e) => {
                if Keymap::is_keymap(e) {
                    return Ok(Inner::t());
                }
            },
            _ => {},
        }
        match crate::builtins::list_of_val(&self.cells, &args[0]) {
            Some(s) => {
                if s.len() >= 1 {
                    let hit = match s.get(0) {
                        Inner::Sym(h) => crate::value::string_eq_str(h, "keymap"),
                        _ => false,
                    };
                    if hit {
                        return Ok(Inner::t());
                    }
                }
                Ok(Inner::nil())
            },
            None => Ok(Inner::nil()),
        }
    }

    /// The `define-key` builtin: downcast the keymap extension value (a
    /// tag mismatch is a type failure, not a crash), read the key
    /// description, wrap a bare action in a fresh shared cell, bind it,
    /// and hand the stored action back.
    fn define_key_builtin(&mut self, args: &Vec<Inner>) -> (r: Result<Inner, EvalError>)
        requires
            state_inv(old(self)@),
            wf_list(view_elems(args@), old(self)@.cells.len()),
        ensures
            state_inv(final(self)@),
            evolves(old(self)@, final(self)@),
            r matches Ok(v) ==> v@.wf(final(self)@.cells.len()),
            ({
                let (er, es) = spec_define_key(old(self)@, view_elems(args@));
                &&& res_view(r) == er
                &&& final(self)@ == es
            }),
    {
        proof {
            crate::value::lemma_view_elems(args@);
            crate::value::lemma_wf_list(view_elems(args@), old(self)@.cells.len());
        }
        if args.len() < 3 {
            return Err(EvalError::MissingArgument);
        }
        let idx: usize = match &args[0] {
            Inner::Ext(e) => {
                if Keymap::is_keymap(e) && e.handle < self.keymaps.len() {
                    e.handle
                } else {
                    return Err(EvalError::Type(TypeMismatch::DowncastTag));
                }
            },
            _ => {
                return Err(EvalError::Type(TypeMismatch::DowncastTag));
            },
        };
        let evt: Event = match &args[1] {
            Inner::Str(s) => {
                match self.keymaps[idx].parse_key(s.as_str()) {
                    Ok(ev) => ev,
                    Err(e) => {
                        return Err(EvalError::Syntax(e));
                    },
                }
            },
            _ => {
                return Err(EvalError::Type(TypeMismatch::ExpectedString));
            },
        };
        let act: Inner = match &args[2] {
            Inner::Ref(c) => {
                proof {
                    assert(view_elems(args@)[2].wf(old(self)@.cells.len()));
                    assert(view_elems(args@)[2] == args@[2]@);
                }
                args[2].clone()
            },
            other => {
                proof {
                    assert(view_elems(args@)[2].wf(old(self)@.cells.len()));
                    assert(view_elems(args@)[2] == args@[2]@);
                }
                let c = self.alloc_cell(other.clone());
                proof {
                    assert(self@ == LspV {
                        cells: old(self)@.cells.push(args@[2]@),
                        ..old(self)@
                    });
                }
                Inner::Ref(c)
            },
        };
        let ghost pre = self@;
        let ghost actv = act@;
        proof {
            assert(actv.wf(pre.cells.len()));
        }
        let mut km = self.keymaps.remove(idx);
        km.define_key(evt, act.clone());
        self.keymaps.insert(idx, km);
        proof {
            assert(self@.cells == pre.cells);
            assert(self@.globals == pre.globals);
            assert(self@.locals =~= pre.locals);
            assert(self@.keymaps =~= pre.keymaps.update(
                idx as int,
                pre.keymaps[idx as int].push((evt, actv)),
            ));
            assert forall|j: int| 0 <= j < self@.keymaps.len() implies keymap_wf(
                #[trigger] self@.keymaps[j],
                self@.cells.len(),
            ) by {
                assert(keymap_wf(pre.keymaps[j], pre.cells.len()));
                if j == idx {
                    let updated = pre.keymaps[idx as int].push((evt, actv));
                    assert forall|t: int| 0 <= t < updated.len() implies (
                    #[trigger] updated[t]).1.wf(self@.cells.len()) by {
                        if t < updated.len() - 1 {
                            assert(updated[t] == pre.keymaps[idx as int][t]);
                        }
                    }
                }
            }
            assert(state_inv(self@));
            lemma_evolves_trans(old(self)@, pre, self@);
            assert(self@ == LspV {
                keymaps: pre.keymaps.update(
                    idx as int,
                    pre.keymaps[idx as int].push((evt, actv)),
                ),
                ..pre
            });
        }
        Ok(act)
    }

    /// The builtin table: every primitive bound under its canonical name
    /// (the aliasing builtin under both of its names), and nothing else.
    #[verifier::rlimit(100)]
    fn builtin_table() -> (g: Namespace)
        ensures
            g@.vars == Seq::<(Seq<char>, ValueV)>::empty(),
            funcs_wf(g@.funcs, 0),
            assoc_find(g@.funcs, "+"@) == Some(FuncObjV::Builtin(BuiltinId::Plus)),
            assoc_find(g@.funcs, "-"@) == Some(FuncObjV::Builtin(BuiltinId::Minus)),
            assoc_find(g@.funcs, "quote"@) == Some(FuncObjV::Builtin(BuiltinId::Quote)),
            assoc_find(g@.funcs, "lambda"@) == Some(FuncObjV::Builtin(BuiltinId::Lambda)),
            assoc_find(g@.funcs, "defalias"@) == Some(FuncObjV::Builtin(BuiltinId::Defalias)),
            assoc_find(g@.funcs, "fset"@) == Some(FuncObjV::Builtin(BuiltinId::Defalias)),
            assoc_find(g@.funcs, "print"@) == Some(FuncObjV::Builtin(BuiltinId::Print)),
            assoc_find(g@.funcs, "exit"@) == Some(FuncObjV::Builtin(BuiltinId::Exit)),
            assoc_find(g@.funcs, "progn"@) == Some(FuncObjV::Builtin(BuiltinId::Progn)),
            assoc_find(g@.funcs, "if"@) == Some(FuncObjV::Builtin(BuiltinId::If)),
            assoc_find(g@.funcs, "eq"@) == Some(FuncObjV::Builtin(BuiltinId::Eq)),
            assoc_find(g@.funcs, "cons"@) == Some(FuncObjV::Builtin(BuiltinId::Cons)),
            assoc_find(g@.funcs, "car"@) == Some(FuncObjV::Builtin(BuiltinId::Car)),
            assoc_find(g@.funcs, "cdr"@) == Some(FuncObjV::Builtin(BuiltinId::Cdr)),
            assoc_find(g@.funcs, "listp"@) == Some(FuncObjV::Builtin(BuiltinId::Listp)),
            assoc_find(g@.funcs, "keymapp"@) == Some(FuncObjV::Builtin(BuiltinId::Keymapp)),
            assoc_find(g@.funcs, "define-key"@) == Some(FuncObjV::Builtin(BuiltinId::DefineKey)),
    {
        let mut g = Namespace::new();
        g.reg_fn(String::from_str("+"), FuncObj::Builtin(BuiltinId::Plus));
        g.reg_fn(String::from_str("-"), FuncObj::Builtin(BuiltinId::Minus));
        g.reg_fn(String::from_str("quote"), FuncObj::Builtin(BuiltinId::Quote));
        g.reg_fn(String::from_str("lambda"), FuncObj::Builtin(BuiltinId::Lambda));
        g.reg_fn(String::from_str("defalias"), FuncObj::Builtin(BuiltinId::Defalias));
        g.reg_fn(String::from_str("fset"), FuncObj::Builtin(BuiltinId::Defalias));
        g.reg_fn(String::from_str("print"), FuncObj::Builtin(BuiltinId::Print));
        g.reg_fn(String::from_str("exit"), FuncObj::Builtin(BuiltinId::Exit));
        g.reg_fn(String::from_str("progn"), FuncObj::Builtin(BuiltinId::Progn));
        g.reg_fn(String::from_str("if"), FuncObj::Builtin(BuiltinId::If));
        g.reg_fn(String::from_str("eq"), FuncObj::Builtin(BuiltinId::Eq));
        g.reg_fn(String::from_str("cons"), FuncObj::Builtin(BuiltinId::Cons));
        g.reg_fn(String::from_str("car"), FuncObj::Builtin(BuiltinId::Car));
        g.reg_fn(String::from_str("cdr"), FuncObj::Builtin(BuiltinId::Cdr));
        g.reg_fn(String::from_str("listp"), FuncObj::Builtin(BuiltinId::Listp));
        g.reg_fn(String::from_str("keymapp"), FuncObj::Builtin(BuiltinId::Keymapp));
        g.reg_fn(String::from_str("define-key"), FuncObj::Builtin(BuiltinId::DefineKey));
        proof {
            reveal_strlit("+");
            reveal_strlit("-");
            reveal_strlit("quote");
            reveal_strlit("lambda");
            reveal_strlit("defalias");
            reveal_strlit("fset");
            reveal_strlit("print");
            reveal_strlit("exit");
            reveal_strlit("progn");
            reveal_strlit("if");
            reveal_strlit("eq");
            reveal_strlit("cons");
            reveal_strlit("car");
            reveal_strlit("cdr");
            reveal_strlit("listp");
            reveal_strlit("keymapp");
            reveal_strlit("define-key");
            assert("+"@.len() == 1);
            assert("-"@.len() == 1);
            assert("quote"@.len() == 5);
            assert("lambda"@.len() == 6);
            assert("defalias"@.len() == 8);
            assert("fset"@.len() == 4);
            assert("print"@.len() == 5);
            assert("exit"@.len() == 4);
            assert("progn"@.len() == 5);
            assert("if"@.len() == 2);
            assert("eq"@.len() == 2);
            assert("cons"@.len() == 4);
            assert("car"@.len() == 3);
            assert("cdr"@.len() == 3);
            assert("listp"@.len() == 5);
            assert("keymapp"@.len() == 7);
            assert("define-key"@.len() == 10);
            assert("+"@[0] == '+');
            assert("-"@[0] == '-');
            assert("eq"@[0] == 'e');
            assert("if"@[0] == 'i');
            assert("car"@[1] == 'a');
            assert("cdr"@[1] == 'd');
            assert("cons"@[0] == 'c');
            assert("exit"@[0] == 'e');
            assert("fset"@[0] == 'f');
            assert("quote"@[0] == 'q');
            assert("listp"@[0] == 'l');
            assert("progn"@[0] == 'p');
            assert("print"@[0] == 'p');
            assert("progn"@[2] == 'o');
            assert("print"@[2] == 'i');
            let ghost tbl0 = Seq::<(Seq<char>, FuncObjV)>::empty();
            let ghost tbl1 = tbl0.push(("+"@, FuncObjV::Builtin(BuiltinId::Plus)));
            let ghost tbl2 = tbl1.push(("-"@, FuncObjV::Builtin(BuiltinId::Minus)));
            let ghost tbl3 = tbl2.push(("quote"@, FuncObjV::Builtin(BuiltinId::Quote)));
            let ghost tbl4 = tbl3.push(("lambda"@, FuncObjV::Builtin(BuiltinId::Lambda)));
            let ghost tbl5 = tbl4.push(("defalias"@, FuncObjV::Builtin(BuiltinId::Defalias)));
            let ghost tbl6 = tbl5.push(("fset"@, FuncObjV::Builtin(BuiltinId::Defalias)));
            let ghost tbl7 = tbl6.push(("print"@, FuncObjV::Builtin(BuiltinId::Print)));
            let ghost tbl8 = tbl7.push(("exit"@, FuncObjV::Builtin(BuiltinId::Exit)));
            let ghost tbl9 = tbl8.push(("progn"@, FuncObjV::Builtin(BuiltinId::Progn)));
            let ghost tbl10 = tbl9.push(("if"@, FuncObjV::Builtin(BuiltinId::If)));
            let ghost tbl11 = tbl10.push(("eq"@, FuncObjV::Builtin(BuiltinId::Eq)));
            let ghost tbl12 = tbl11.push(("cons"@, FuncObjV::Builtin(BuiltinId::Cons)));
            let ghost tbl13 = tbl12.push(("car"@, FuncObjV::Builtin(BuiltinId::Car)));
            let ghost tbl14 = tbl13.push(("cdr"@, FuncObjV::Builtin(BuiltinId::Cdr)));
            let ghost tbl15 = tbl14.push(("listp"@, FuncObjV::Builtin(BuiltinId::Listp)));
            let ghost tbl16 = tbl15.push(("keymapp"@, FuncObjV::Builtin(BuiltinId::Keymapp)));
            let ghost tbl17 = tbl16.push(("define-key"@, FuncObjV::Builtin(BuiltinId::DefineKey)));
            assert(g@.funcs == tbl17);
            crate::env::lemma_assoc_find_push(tbl16, ("define-key"@, FuncObjV::Builtin(BuiltinId::DefineKey)), "+"@);
            crate::env::lemma_assoc_find_push(tbl15, ("keymapp"@, FuncObjV::Builtin(BuiltinId::Keymapp)), "+"@);
            crate::env::lemma_assoc_find_push(tbl14, ("listp"@, FuncObjV::Builtin(BuiltinId::Listp)), "+"@);
            crate::env::lemma_assoc_find_push(tbl13, ("cdr"@, FuncObjV::Builtin(BuiltinId::Cdr)), "+"@);
            crate::env::lemma_assoc_find_push(tbl12, ("car"@, FuncObjV::Builtin(BuiltinId::Car)), "+"@);
            crate::env::lemma_assoc_find_push(tbl11, ("cons"@, FuncObjV::Builtin(BuiltinId::Cons)), "+"@);
            crate::env::lemma_assoc_find_push(tbl10, ("eq"@, FuncObjV::Builtin(BuiltinId::Eq)), "+"@);
            crate::env::lemma_assoc_find_push(tbl9, ("if"@, FuncObjV::Builtin(BuiltinId::If)), "+"@);
            crate::env::lemma_assoc_find_push(tbl8, ("progn"@, FuncObjV::Builtin(BuiltinId::Progn)), "+"@);
            crate::env::lemma_assoc_find_push(tbl7, ("exit"@, FuncObjV::Builtin(BuiltinId::Exit)), "+"@);
            crate::env::lemma_assoc_find_push(tbl6, ("print"@, FuncObjV::Builtin(BuiltinId::Print)), "+"@);
            crate::env::lemma_assoc_find_push(tbl5, ("fset"@, FuncObjV::Builtin(BuiltinId::Defalias)), "+"@);
            crate::env::lemma_assoc_find_push(tbl4, ("defalias"@, FuncObjV::Builtin(BuiltinId::Defalias)), "+"@);
            crate::env::lemma_assoc_find_push(tbl3, ("lambda"@, FuncObjV::Builtin(BuiltinId::Lambda)), "+"@);
            crate::env::lemma_assoc_find_push(tbl2, ("quote"@, FuncObjV::Builtin(BuiltinId::Quote)), "+"@);
            crate::env::lemma_assoc_find_push(tbl1, ("-"@, FuncObjV::Builtin(BuiltinId::Minus)), "+"@);
            crate::env::lemma_assoc_find_push(tbl0, ("+"@, FuncObjV::Builtin(BuiltinId::Plus)), "+"@);
            crate::env::lemma_assoc_find_push(tbl16, ("define-key"@, FuncObjV::Builtin(BuiltinId::DefineKey)), "-"@);
            crate::env::lemma_assoc_find_push(tbl15, ("keymapp"@, FuncObjV::Builtin(BuiltinId::Keymapp)), "-"@);
            crate::env::lemma_assoc_find_push(tbl14, ("listp"@, FuncObjV::Builtin(BuiltinId::Listp)), "-"@);
            crate::env::lemma_assoc_find_push(tbl13, ("cdr"@, FuncObjV::Builtin(BuiltinId::Cdr)), "-"@);
            crate::env::lemma_assoc_find_push(tbl12, ("car"@, FuncObjV::Builtin(BuiltinId::Car)), "-"@);
            crate::env::lemma_assoc_find_push(tbl11, ("cons"@, FuncObjV::Builtin(BuiltinId::Cons)), "-"@);
            crate::env::lemma_assoc_find_push(tbl10, ("eq"@, FuncObjV::Builtin(BuiltinId::Eq)), "-"@);
            crate::env::lemma_assoc_find_push(tbl9, ("if"@, FuncObjV::Builtin(BuiltinId::If)), "-"@);
            crate::env::lemma_assoc_find_push(tbl8, ("progn"@, FuncObjV::Builtin(BuiltinId::Progn)), "-"@);
            crate::env::lemma_assoc_find_push(tbl7, ("exit"@, FuncObjV::Builtin(BuiltinId::Exit)), "-"@);
            crate::env::lemma_assoc_find_push(tbl6, ("print"@, FuncObjV::Builtin(BuiltinId::Print)), "-"@);
            crate::env::lemma_assoc_find_push(tbl5, ("fset"@, FuncObjV::Builtin(BuiltinId::Defalias)), "-"@);
            crate::env::lemma_assoc_find_push(tbl4, ("defalias"@, FuncObjV::Builtin(BuiltinId::Defalias)), "-"@);
            crate::env::lemma_assoc_find_push(tbl3, ("lambda"@, FuncObjV::Builtin(BuiltinId::Lambda)), "-"@);
            crate::env::lemma_assoc_find_push(tbl2, ("quote"@, FuncObjV::Builtin(BuiltinId::Quote)), "-"@);
            crate::env::lemma_assoc_find_push(tbl1, ("-"@, FuncObjV::Builtin(BuiltinId::Minus)), "-"@);
            crate::env::lemma_assoc_find_push(tbl16, ("define-key"@, FuncObjV::Builtin(BuiltinId::DefineKey)), "quote"@);
            crate::env::lemma_assoc_find_push(tbl15, ("keymapp"@, FuncObjV::Builtin(BuiltinId::Keymapp)), "quote"@);
            crate::env::lemma_assoc_find_push(tbl14, ("listp"@, FuncObjV::Builtin(BuiltinId::Listp)), "quote"@);
            crate::env::lemma_assoc_find_push(tbl13, ("cdr"@, FuncObjV::Builtin(BuiltinId::Cdr)), "quote"@);
            crate::env::lemma_assoc_find_push(tbl12, ("car"@, FuncObjV::Builtin(BuiltinId::Car)), "quote"@);
            crate::env::lemma_assoc_find_push(tbl11, ("cons"@, FuncObjV::Builtin(BuiltinId::Cons)), "quote"@);
            crate::env::lemma_assoc_find_push(tbl10, ("eq"@, FuncObjV::Builtin(BuiltinId::Eq)), "quote"@);
            crate::env::lemma_assoc_find_push(tbl9, ("if"@, FuncObjV::Builtin(BuiltinId::If)), "quote"@);
            crate::env::lemma_assoc_find_push(tbl8, ("progn"@, FuncObjV::Builtin(BuiltinId::Progn)), "quote"@);
            crate::env::lemma_assoc_find_push(tbl7, ("exit"@, FuncObjV::Builtin(BuiltinId::Exit)), "quote"@);
            crate::env::lemma_assoc_find_push(tbl6, ("print"@, FuncObjV::Builtin(BuiltinId::Print)), "quote"@);
            crate::env::lemma_assoc_find_push(tbl5, ("fset"@, FuncObjV::Builtin(BuiltinId::Defalias)), "quote"@);
            crate::env::lemma_assoc_find_push(tbl4, ("defalias"@, FuncObjV::Builtin(BuiltinId::Defalias)), "quote"@);
            crate::env::lemma_assoc_find_push(tbl3, ("lambda"@, FuncObjV::Builtin(BuiltinId::Lambda)), "quote"@);
            crate::env::lemma_assoc_find_push(tbl2, ("quote"@, FuncObjV::Builtin(BuiltinId::Quote)), "quote"@);
            crate::env::lemma_assoc_find_push(tbl16, ("define-key"@, FuncObjV::Builtin(BuiltinId::DefineKey)), "lambda"@);
            crate::env::lemma_assoc_find_push(tbl15, ("keymapp"@, FuncObjV::Builtin(BuiltinId::Keymapp)), "lambda"@);
            crate::env::lemma_assoc_find_push(tbl14, ("listp"@, FuncObjV::Builtin(BuiltinId::Listp)), "lambda"@);
            crate::env::lemma_assoc_find_push(tbl13, ("cdr"@, FuncObjV::Builtin(BuiltinId::Cdr)), "lambda"@);
            crate::env::lemma_assoc_find_push(tbl12, ("car"@, FuncObjV::Builtin(BuiltinId::Car)), "lambda"@);
            crate::env::lemma_assoc_find_push(tbl11, ("cons"@, FuncObjV::Builtin(BuiltinId::Cons)), "lambda"@);
            crate::env::lemma_assoc_find_push(tbl10, ("eq"@, FuncObjV::Builtin(BuiltinId::Eq)), "lambda"@);
            crate::env::lemma_assoc_find_push(tbl9, ("if"@, FuncObjV::Builtin(BuiltinId::If)), "lambda"@);
            crate::env::lemma_assoc_find_push(tbl8, ("progn"@, FuncObjV::Builtin(BuiltinId::Progn)), "lambda"@);
            crate::env::lemma_assoc_find_push(tbl7, ("exit"@, FuncObjV::Builtin(BuiltinId::Exit)), "lambda"@);
            crate::env::lemma_assoc_find_push(tbl6, ("print"@, FuncObjV::Builtin(BuiltinId::Print)), "lambda"@);
            crate::env::lemma_assoc_find_push(tbl5, ("fset"@, FuncObjV::Builtin(BuiltinId::Defalias)), "lambda"@);
            crate::env::lemma_assoc_find_push(tbl4, ("defalias"@, FuncObjV::Builtin(BuiltinId::Defalias)), "lambda"@);
            crate::env::lemma_assoc_find_push(tbl3, ("lambda"@, FuncObjV::Builtin(BuiltinId::Lambda)), "lambda"@);
            crate::env::lemma_assoc_find_push(tbl16, ("define-key"@, FuncObjV::Builtin(BuiltinId::DefineKey)), "defalias"@);
            crate::env::lemma_assoc_find_push(tbl15, ("keymapp"@, FuncObjV::Builtin(BuiltinId::Keymapp)), "defalias"@);
            crate::env::lemma_assoc_find_push(tbl14, ("listp"@, FuncObjV::Builtin(BuiltinId::Listp)), "defalias"@);
            crate::env::lemma_assoc_find_push(tbl13, ("cdr"@, FuncObjV::Builtin(BuiltinId::Cdr)), "defalias"@);
            crate::env::lemma_assoc_find_push(tbl12, ("car"@, FuncObjV::Builtin(BuiltinId::Car)), "defalias"@);
            crate::env::lemma_assoc_find_push(tbl11, ("cons"@, FuncObjV::Builtin(BuiltinId::Cons)), "defalias"@);
            crate::env::lemma_assoc_find_push(tbl10, ("eq"@, FuncObjV::Builtin(BuiltinId::Eq)), "defalias"@);
            crate::env::lemma_assoc_find_push(tbl9, ("if"@, FuncObjV::Builtin(BuiltinId::If)), "defalias"@);
            crate::env::lemma_assoc_find_push(tbl8, ("progn"@, FuncObjV::Builtin(BuiltinId::Progn)), "defalias"@);
            crate::env::lemma_assoc_find_push(tbl7, ("exit"@, FuncObjV::Builtin(BuiltinId::Exit)), "defalias"@);
            crate::env::lemma_assoc_find_push(tbl6, ("print"@, FuncObjV::Builtin(BuiltinId::Print)), "defalias"@);
            crate::env::lemma_assoc_find_push(tbl5, ("fset"@, FuncObjV::Builtin(BuiltinId::Defalias)), "defalias"@);
            crate::env::lemma_assoc_find_push(tbl4, ("defalias"@, FuncObjV::Builtin(BuiltinId::Defalias)), "defalias"@);
            crate::env::lemma_assoc_find_push(tbl16, ("define-key"@, FuncObjV::Builtin(BuiltinId::DefineKey)), "fset"@);
            crate::env::lemma_assoc_find_push(tbl15, ("keymapp"@, FuncObjV::Builtin(BuiltinId::Keymapp)), "fset"@);
            crate::env::lemma_assoc_find_push(tbl14, ("listp"@, FuncObjV::Builtin(BuiltinId::Listp)), "fset"@);
            crate::env::lemma_assoc_find_push(tbl13, ("cdr"@, FuncObjV::Builtin(BuiltinId::Cdr)), "fset"@);
            crate::env::lemma_assoc_find_push(tbl12, ("car"@, FuncObjV::Builtin(BuiltinId::Car)), "fset"@);
            crate::env::lemma_assoc_find_push(tbl11, ("cons"@, FuncObjV::Builtin(BuiltinId::Cons)), "fset"@);
            crate::env::lemma_assoc_find_push(tbl10, ("eq"@, FuncObjV::Builtin(BuiltinId::Eq)), "fset"@);
            crate::env::lemma_assoc_find_push(tbl9, ("if"@, FuncObjV::Builtin(BuiltinId::If)), "fset"@);
            crate::env::lemma_assoc_find_push(tbl8, ("progn"@, FuncObjV::Builtin(BuiltinId::Progn)), "fset"@);
            crate::env::lemma_assoc_find_push(tbl7, ("exit"@, FuncObjV::Builtin(BuiltinId::Exit)), "fset"@);
            crate::env::lemma_assoc_find_push(tbl6, ("print"@, FuncObjV::Builtin(BuiltinId::Print)), "fset"@);
            crate::env::lemma_assoc_find_push(tbl5, ("fset"@, FuncObjV::Builtin(BuiltinId::Defalias)), "fset"@);
            crate::env::lemma_assoc_find_push(tbl16, ("define-key"@, FuncObjV::Builtin(BuiltinId::DefineKey)), "print"@);
            crate::env::lemma_assoc_find_push(tbl15, ("keymapp"@, FuncObjV::Builtin(BuiltinId::Keymapp)), "print"@);
            crate::env::lemma_assoc_find_push(tbl14, ("listp"@, FuncObjV::Builtin(BuiltinId::Listp)), "print"@);
            crate::env::lemma_assoc_find_push(tbl13, ("cdr"@, FuncObjV::Builtin(BuiltinId::Cdr)), "print"@);
            crate::env::lemma_assoc_find_push(tbl12, ("car"@, FuncObjV::Builtin(BuiltinId::Car)), "print"@);
            crate::env::lemma_assoc_find_push(tbl11, ("cons"@, FuncObjV::Builtin(BuiltinId::Cons)), "print"@);
            crate::env::lemma_assoc_find_push(tbl10, ("eq"@, FuncObjV::Builtin(BuiltinId::Eq)), "print"@);
            crate::env::lemma_assoc_find_push(tbl9, ("if"@, FuncObjV::Builtin(BuiltinId::If)), "print"@);
            crate::env::lemma_assoc_find_push(tbl8, ("progn"@, FuncObjV::Builtin(BuiltinId::Progn)), "print"@);
            crate::env::lemma_assoc_find_push(tbl7, ("exit"@, FuncObjV::Builtin(BuiltinId::Exit)), "print"@);
            crate::env::lemma_assoc_find_push(tbl6, ("print"@, FuncObjV::Builtin(BuiltinId::Print)), "print"@);
            crate::env::lemma_assoc_find_push(tbl16, ("define-key"@, FuncObjV::Builtin(BuiltinId::DefineKey)), "exit"@);
            crate::env::lemma_assoc_find_push(tbl15, ("keymapp"@, FuncObjV::Builtin(BuiltinId::Keymapp)), "exit"@);
            crate::env::lemma_assoc_find_push(tbl14, ("listp"@, FuncObjV::Builtin(BuiltinId::Listp)), "exit"@);
            crate::env::lemma_assoc_find_push(tbl13, ("cdr"@, FuncObjV::Builtin(BuiltinId::Cdr)), "exit"@);
            crate::env::lemma_assoc_find_push(tbl12, ("car"@, FuncObjV::Builtin(BuiltinId::Car)), "exit"@);
            crate::env::lemma_assoc_find_push(tbl11, ("cons"@, FuncObjV::Builtin(BuiltinId::Cons)), "exit"@);
            crate::env::lemma_assoc_find_push(tbl10, ("eq"@, FuncObjV::Builtin(BuiltinId::Eq)), "exit"@);
            crate::env::lemma_assoc_find_push(tbl9, ("if"@, FuncObjV::Builtin(BuiltinId::If)), "exit"@);
            crate::env::lemma_assoc_find_push(tbl8, ("progn"@, FuncObjV::Builtin(BuiltinId::Progn)), "exit"@);
            crate::env::lemma_assoc_find_push(tbl7, ("exit"@, FuncObjV::Builtin(BuiltinId::Exit)), "exit"@);
            crate::env::lemma_assoc_find_push(tbl16, ("define-key"@, FuncObjV::Builtin(BuiltinId::DefineKey)), "progn"@);
            crate::env::lemma_assoc_find_push(tbl15, ("keymapp"@, FuncObjV::Builtin(BuiltinId::Keymapp)), "progn"@);
            crate::env::lemma_assoc_find_push(tbl14, ("listp"@, FuncObjV::Builtin(BuiltinId::Listp)), "progn"@);
            crate::env::lemma_assoc_find_push(tbl13, ("cdr"@, FuncObjV::Builtin(BuiltinId::Cdr)), "progn"@);
            crate::env::lemma_assoc_find_push(tbl12, ("car"@, FuncObjV::Builtin(BuiltinId::Car)), "progn"@);
            crate::env::lemma_assoc_find_push(tbl11, ("cons"@, FuncObjV::Builtin(BuiltinId::Cons)), "progn"@);
            crate::env::lemma_assoc_find_push(tbl10, ("eq"@, FuncObjV::Builtin(BuiltinId::Eq)), "progn"@);
            crate::env::lemma_assoc_find_push(tbl9, ("if"@, FuncObjV::Builtin(BuiltinId::If)), "progn"@);
            crate::env::lemma_assoc_find_push(tbl8, ("progn"@, FuncObjV::Builtin(BuiltinId::Progn)), "progn"@);
            crate::env::lemma_assoc_find_push(tbl16, ("define-key"@, FuncObjV::Builtin(BuiltinId::DefineKey)), "if"@);
            crate::env::lemma_assoc_find_push(tbl15, ("keymapp"@, FuncObjV::Builtin(BuiltinId::Keymapp)), "if"@);
            crate::env::lemma_assoc_find_push(tbl14, ("listp"@, FuncObjV::Builtin(BuiltinId::Listp)), "if"@);
            crate::env::lemma_assoc_find_push(tbl13, ("cdr"@, FuncObjV::Builtin(BuiltinId::Cdr)), "if"@);
            crate::env::lemma_assoc_find_push(tbl12, ("car"@, FuncObjV::Builtin(BuiltinId::Car)), "if"@);
            crate::env::lemma_assoc_find_push(tbl11, ("cons"@, FuncObjV::Builtin(BuiltinId::Cons)), "if"@);
            crate::env::lemma_assoc_find_push(tbl10, ("eq"@, FuncObjV::Builtin(BuiltinId::Eq)), "if"@);
            crate::env::lemma_assoc_find_push(tbl9, ("if"@, FuncObjV::Builtin(BuiltinId::If)), "if"@);
            crate::env::lemma_assoc_find_push(tbl16, ("define-key"@, FuncObjV::Builtin(BuiltinId::DefineKey)), "eq"@);
            crate::env::lemma_assoc_find_push(tbl15, ("keymapp"@, FuncObjV::Builtin(BuiltinId::Keymapp)), "eq"@);
            crate::env::lemma_assoc_find_push(tbl14, ("listp"@, FuncObjV::Builtin(BuiltinId::Listp)), "eq"@);
            crate::env::lemma_assoc_find_push(tbl13, ("cdr"@, FuncObjV::Builtin(BuiltinId::Cdr)), "eq"@);
            crate::env::lemma_assoc_find_push(tbl12, ("car"@, FuncObjV::Builtin(BuiltinId::Car)), "eq"@);
            crate::env::lemma_assoc_find_push(tbl11, ("cons"@, FuncObjV::Builtin(BuiltinId::Cons)), "eq"@);
            crate::env::lemma_assoc_find_push(tbl10, ("eq"@, FuncObjV::Builtin(BuiltinId::Eq)), "eq"@);
            crate::env::lemma_assoc_find_push(tbl16, ("define-key"@, FuncObjV::Builtin(BuiltinId::DefineKey)), "cons"@);
            crate::env::lemma_assoc_find_push(tbl15, ("keymapp"@, FuncObjV::Builtin(BuiltinId::Keymapp)), "cons"@);
            crate::env::lemma_assoc_find_push(tbl14, ("listp"@, FuncObjV::Builtin(BuiltinId::Listp)), "cons"@);
            crate::env::lemma_assoc_find_push(tbl13, ("cdr"@, FuncObjV::Builtin(BuiltinId::Cdr)), "cons"@);
            crate::env::lemma_assoc_find_push(tbl12, ("car"@, FuncObjV::Builtin(BuiltinId::Car)), "cons"@);
            crate::env::lemma_assoc_find_push(tbl11, ("cons"@, FuncObjV::Builtin(BuiltinId::Cons)), "cons"@);
            crate::env::lemma_assoc_find_push(tbl16, ("define-key"@, FuncObjV::Builtin(BuiltinId::DefineKey)), "car"@);
            crate::env::lemma_assoc_find_push(tbl15, ("keymapp"@, FuncObjV::Builtin(BuiltinId::Keymapp)), "car"@);
            crate::env::lemma_assoc_find_push(tbl14, ("listp"@, FuncObjV::Builtin(BuiltinId::Listp)), "car"@);
            crate::env::lemma_assoc_find_push(tbl13, ("cdr"@, FuncObjV::Builtin(BuiltinId::Cdr)), "car"@);
            crate::env::lemma_assoc_find_push(tbl12, ("car"@, FuncObjV::Builtin(BuiltinId::Car)), "car"@);
            crate::env::lemma_assoc_find_push(tbl16, ("define-key"@, FuncObjV::Builtin(BuiltinId::DefineKey)), "cdr"@);
            crate::env::lemma_assoc_find_push(tbl15, ("keymapp"@, FuncObjV::Builtin(BuiltinId::Keymapp)), "cdr"@);
            crate::env::lemma_assoc_find_push(tbl14, ("listp"@, FuncObjV::Builtin(BuiltinId::Listp)), "cdr"@);
            crate::env::lemma_assoc_find_push(tbl13, ("cdr"@, FuncObjV::Builtin(BuiltinId::Cdr)), "cdr"@);
            crate::env::lemma_assoc_find_push(tbl16, ("define-key"@, FuncObjV::Builtin(BuiltinId::DefineKey)), "listp"@);
            crate::env::lemma_assoc_find_push(tbl15, ("keymapp"@, FuncObjV::Builtin(BuiltinId::Keymapp)), "listp"@);
            crate::env::lemma_assoc_find_push(tbl14, ("listp"@, FuncObjV::Builtin(BuiltinId::Listp)), "listp"@);
            crate::env::lemma_assoc_find_push(tbl16, ("define-key"@, FuncObjV::Builtin(BuiltinId::DefineKey)), "keymapp"@);
            crate::env::lemma_assoc_find_push(tbl15, ("keymapp"@, FuncObjV::Builtin(BuiltinId::Keymapp)), "keymapp"@);
            crate::env::lemma_assoc_find_push(tbl16, ("define-key"@, FuncObjV::Builtin(BuiltinId::DefineKey)), "define-key"@);
            assert forall|i: int| 0 <= i < g@.funcs.len() implies match (
            #[trigger] g@.funcs[i]).1 {
                FuncObjV::User(f) => f.body < 0,
                FuncObjV::Builtin(_) => true,
            } by {}
        }
        g
    }

    /// A fresh interpreter: the builtin table, the truthy and empty-list
    /// constants, no local frames, and no keymaps.
    pub fn new() -> (r: Lsp)
        ensures
            state_inv(r@),
            r@.locals.len() == 0,
            r@.keymaps.len() == 0,
            r@.cells == seq![ValueV::nil()],
            lookup_var_spec(r@, "t"@) == Some(ValueV::t()),
            lookup_var_spec(r@, "nil"@) == Some(ValueV::Ref(0)),
            assoc_find(r@.globals.funcs, "+"@) == Some(FuncObjV::Builtin(BuiltinId::Plus)),
            assoc_find(r@.globals.funcs, "-"@) == Some(FuncObjV::Builtin(BuiltinId::Minus)),
            assoc_find(r@.globals.funcs, "quote"@) == Some(FuncObjV::Builtin(BuiltinId::Quote)),
            assoc_find(r@.globals.funcs, "lambda"@) == Some(FuncObjV::Builtin(BuiltinId::Lambda)),
            assoc_find(r@.globals.funcs, "defalias"@) == Some(FuncObjV::Builtin(BuiltinId::Defalias)),
            assoc_find(r@.globals.funcs, "fset"@) == Some(FuncObjV::Builtin(BuiltinId::Defalias)),
            assoc_find(r@.globals.funcs, "print"@) == Some(FuncObjV::Builtin(BuiltinId::Print)),
            assoc_find(r@.globals.funcs, "exit"@) == Some(FuncObjV::Builtin(BuiltinId::Exit)),
            assoc_find(r@.globals.funcs, "progn"@) == Some(FuncObjV::Builtin(BuiltinId::Progn)),
            assoc_find(r@.globals.funcs, "if"@) == Some(FuncObjV::Builtin(BuiltinId::If)),
            assoc_find(r@.globals.funcs, "eq"@) == Some(FuncObjV::Builtin(BuiltinId::Eq)),
            assoc_find(r@.globals.funcs, "cons"@) == Some(FuncObjV::Builtin(BuiltinId::Cons)),
            assoc_find(r@.globals.funcs, "car"@) == Some(FuncObjV::Builtin(BuiltinId::Car)),
            assoc_find(r@.globals.funcs, "cdr"@) == Some(FuncObjV::Builtin(BuiltinId::Cdr)),
            assoc_find(r@.globals.funcs, "listp"@) == Some(FuncObjV::Builtin(BuiltinId::Listp)),
            assoc_find(r@.globals.funcs, "keymapp"@) == Some(FuncObjV::Builtin(BuiltinId::Keymapp)),
            assoc_find(r@.globals.funcs, "define-key"@) == Some(FuncObjV::Builtin(BuiltinId::DefineKey)),
    {
        let mut g = Self::builtin_table();
        let ghost table = g@.funcs;
        let mut cells: Vec<Inner> = Vec::new();
        g.reg_var(String::from_str("t"), &Inner::t(), &mut cells);
        g.reg_var(String::from_str("nil"), &Inner::nil(), &mut cells);
        let r = Lsp { globals: g, locals: Vec::new(), cells, keymaps: Vec::new() };
        proof {
            reveal_strlit("t");
            reveal_strlit("nil");
            assert("t"@.len() == 1);
            assert("nil"@.len() == 3);
            crate::value::lemma_view_elems(r.cells@);
            assert(r@.cells =~= seq![ValueV::nil()]);
            assert(r@.locals =~= Seq::<NamespaceV>::empty());
            assert(r@.keymaps =~= Seq::<Seq<(Event, ValueV)>>::empty());
            assert(r@.globals.funcs == table);
            let ghost v0 = Seq::<(Seq<char>, ValueV)>::empty();
            let ghost v1 = v0.push(("t"@, ValueV::t()));
            let ghost v2 = v1.push(("nil"@, ValueV::Ref(0)));
            assert(r@.globals.vars == v2);
            crate::env::lemma_assoc_find_push(v1, ("nil"@, ValueV::Ref(0)), "t"@);
            crate::env::lemma_assoc_find_push(v0, ("t"@, ValueV::t()), "t"@);
            crate::env::lemma_assoc_find_push(v1, ("nil"@, ValueV::Ref(0)), "nil"@);
            crate::env::lemma_assoc_find_push(v0, ("t"@, ValueV::t()), "nil"@);
            assert(lookup_locals(r@.locals, "t"@) is None);
            assert(lookup_locals(r@.locals, "nil"@) is None);
            assert forall|i: int| 0 <= i < r@.cells.len() implies (#[trigger] r@.cells[i]).wf(
                i as nat,
            ) by {
                assert(r@.cells[0] == ValueV::nil());
            }
            assert forall|i: int| 0 <= i < r@.globals.funcs.len() implies match (
            #[trigger] r@.globals.funcs[i]).1 {
                FuncObjV::User(f) => f.body < r@.cells.len(),
                FuncObjV::Builtin(_) => true,
            } by {
                assert(funcs_wf(table, 0));
            }
            assert forall|i: int| 0 <= i < r@.globals.vars.len() implies (
            #[trigger] r@.globals.vars[i]).1.wf(r@.cells.len()) by {}
            assert(state_inv(r@));
        }
        r
    }

    /// Read a source text into a tree rooted at a synthetic `progn`
    /// expression.
    pub fn read(&self, input: &String) -> (r: Result<Sexp, SyntaxError>)
        ensures
            read_view(r) == spec_read(input@),
    {
        crate::reader::read_source(input)
    }

    /// Evaluate a tree under the default recursion budget.
    ///
    /// The local-namespace stack comes back exactly as deep as it was,
    /// whether evaluation succeeded or failed; global variable bindings
    /// are untouched; cells are only added.  An empty expression is the
    /// empty-list constant, and an unbound head symbol is reported without
    /// changing anything.
    pub fn eval(&mut self, ast: &Sexp) -> (r: Result<Inner, EvalError>)
        requires
            state_inv(old(self)@),
            wf_list(ast@.lst, old(self)@.cells.len()),
        ensures
            state_inv(final(self)@),
            evolves(old(self)@, final(self)@),
            r matches Ok(v) ==> v@.wf(final(self)@.cells.len()),
            ast@.lst.len() == 0 ==> ({
                &&& *final(self) == *old(self)
                &&& r matches Ok(v)
                &&& v@ == ValueV::nil()
            }),
            (ast@.lst.len() > 0 && ast@.lst[0] is Sym && assoc_find(
                old(self)@.globals.funcs,
                ast@.lst[0]->Sym_0,
            ) is None) ==> ({
                &&& *final(self) == *old(self)
                &&& r matches Err(e)
                &&& e matches EvalError::UnboundFunction(n)
                &&& n@ == ast@.lst[0]->Sym_0
            }),
            ({
                let (er, es) = spec_eval(old(self)@, ast@);
                &&& res_view(r) == er
                &&& final(self)@ == es
            }),
    {
        self.eval_sexp(ast, DEFAULT_FUEL)
    }

    /// How deep the local-namespace stack currently is: one level per
    /// active call.
    pub fn local_depth(&self) -> (r: usize)
        ensures
            r == self@.locals.len(),
    {
        self.locals.len()
    }

    /// Make a fresh, empty keymap and hand back the extension value that
    /// stands for it inside the language.
    pub fn make_keymap(&mut self) -> (r: Inner)
        requires
            state_inv(old(self)@),
        ensures
            state_inv(final(self)@),
            final(self)@.keymaps == old(self)@.keymaps.push(
                Seq::<(Event, ValueV)>::empty(),
            ),
            final(self)@.cells == old(self)@.cells,
            final(self)@.locals == old(self)@.locals,
            final(self)@.globals == old(self)@.globals,
            r@ == ValueV::Ext(
                crate::value::ExtV {
                    tag: "keymap::Keymap"@,
                    name: "keymap"@,
                    handle: old(self)@.keymaps.len(),
                },
            ),
    {
        let idx = self.keymaps.len();
        self.keymaps.push(Keymap::new());
        proof {
            assert(final(self)@.keymaps =~= old(self)@.keymaps.push(
                Seq::<(Event, ValueV)>::empty(),
            ));
            assert(self@.locals =~= old(self)@.locals);
            assert forall|j: int| 0 <= j < self@.keymaps.len() implies keymap_wf(
                #[trigger] self@.keymaps[j],
                self@.cells.len(),
            ) by {
                if j < old(self)@.keymaps.len() {
                    assert(self@.keymaps[j] == old(self)@.keymaps[j]);
                    assert(keymap_wf(old(self)@.keymaps[j], old(self)@.cells.len()));
                }
            }
            assert(state_inv(self@));
        }
        Inner::Ext(
            Extension {
                tag: String::from_str("keymap::Keymap"),
                name: String::from_str("keymap"),
                handle: idx,
            },
        )
    }

    /// Bind a value under a name in the global namespace, as hosts do to
    /// expose native objects; a bare list is wrapped in a fresh shared
    /// cell.
    pub fn set_global(&mut self, name: String, var: &Inner)
        requires
            state_inv(old(self)@),
            var@.wf(old(self)@.cells.len()),
        ensures
            state_inv(final(self)@),
            final(self)@.locals == old(self)@.locals,
            final(self)@.keymaps == old(self)@.keymaps,
            final(self)@.globals.funcs == old(self)@.globals.funcs,
            final(self)@.globals.vars == (match var@ {
                ValueV::Sxp(_) => old(self)@.globals.vars.push(
                    (name@, ValueV::Ref(old(self)@.cells.len())),
                ),
                _ => old(self)@.globals.vars.push((name@, var@)),
            }),
            final(self)@.cells == (match var@ {
                ValueV::Sxp(_) => old(self)@.cells.push(var@),
                _ => old(self)@.cells,
            }),
    {
        let ghost pre = self@;
        self.globals.reg_var(name, var, &mut self.cells);
        proof {
            crate::value::lemma_view_elems(self.cells@);
            crate::value::lemma_view_elems(old(self).cells@);
            assert(self@.locals =~= pre.locals);
            assert(self@.keymaps =~= pre.keymaps);
            match var@ {
                ValueV::Sxp(_) => {
                    assert(self@.cells =~= pre.cells.push(var@));
                },
                _ => {
                    assert(self@.cells =~= pre.cells);
                },
            }
            assert forall|i: int| 0 <= i < self@.cells.len() implies (
            #[trigger] self@.cells[i]).wf(i as nat) by {
                if i < pre.cells.len() {
                    assert(self@.cells[i] == pre.cells[i]);
                    assert(pre.cells[i].wf(i as nat));
                }
            }
            assert forall|i: int| 0 <= i < self@.globals.vars.len() implies (
            #[trigger] self@.globals.vars[i]).1.wf(self@.cells.len()) by {
                if i < pre.globals.vars.len() {
                    assert(self@.globals.vars[i] == pre.globals.vars[i]);
                    assert(pre.globals.vars[i].1.wf(pre.cells.len()));
                    pre.globals.vars[i].1.lemma_wf_grow(
                        pre.cells.len(),
                        self@.cells.len(),
                    );
                }
            }
            assert forall|i: int| 0 <= i < self@.globals.funcs.len() implies match (
            #[trigger] self@.globals.funcs[i]).1 {
                FuncObjV::User(f) => f.body < self@.cells.len(),
                FuncObjV::Builtin(_) => true,
            } by {
                assert(funcs_wf(pre.globals.funcs, pre.cells.len()));
            }
            assert forall|j: int| 0 <= j < self@.locals.len() implies ns_wf(
                #[trigger] self@.locals[j],
                self@.cells.len(),
            ) by {
                assert(ns_wf(pre.locals[j], pre.cells.len()));
                lemma_ns_wf_grow(pre.locals[j], pre.cells.len(), self@.cells.len());
            }
            assert forall|j: int| 0 <= j < self@.keymaps.len() implies keymap_wf(
                #[trigger] self@.keymaps[j],
                self@.cells.len(),
            ) by {
                assert(keymap_wf(pre.keymaps[j], pre.cells.len()));
                lemma_keymap_wf_grow(pre.keymaps[j], pre.cells.len(), self@.cells.len());
            }
            assert(state_inv(self@));
        }
    }
}

} // verus!
