//! Namespaces: one scope level's function and variable bindings.  The
//! global namespace holds both mappings; call-local namespaces hold only
//! variable bindings.  A binding list is searched newest first, so a later
//! binding of the same name shadows an earlier one.

use vstd::prelude::*;

use crate::builtins::BuiltinId;
use crate::lambda::{LambdaV, UserFunc};
use crate::value::{view_elems, Inner, ValueV};

verus! {

/// Search a binding list, newest binding first.
pub open spec fn assoc_find<K, V>(l: Seq<(K, V)>, k: K) -> Option<V>
    decreases l.len(),
{
    if l.len() == 0 {
        None
    } else if l.last().0 == k {
        Some(l.last().1)
    } else {
        assoc_find(l.drop_last(), k)
    }
}

/// Searching past a freshly pushed binding: the new binding answers its
/// own name, anything else falls through to the older bindings.
pub broadcast proof fn lemma_assoc_find_push<K, V>(l: Seq<(K, V)>, e: (K, V), k: K)
    ensures
        #[trigger] assoc_find(l.push(e), k) == (if e.0 == k {
            Some(e.1)
        } else {
            assoc_find(l, k)
        }),
{
    assert(l.push(e).drop_last() =~= l);
    assert(l.push(e).last() == e);
}

/// A callable bound in the global function table: a primitive or a
/// user-defined closure.
#[derive(Debug)]
pub enum FuncObj {
    Builtin(BuiltinId),
    User(UserFunc),
}

/// The view of a bound callable.
pub enum FuncObjV {
    Builtin(BuiltinId),
    User(LambdaV),
}

impl View for FuncObj {
    type V = FuncObjV;

    open spec fn view(&self) -> FuncObjV {
        match self {
            FuncObj::Builtin(b) => FuncObjV::Builtin(*b),
            FuncObj::User(f) => FuncObjV::User(f@),
        }
    }
}

impl Clone for FuncObj {
    /// A clone has the same view.
    fn clone(&self) -> (r: Self)
        ensures
            r@ == self@,
    {
        match self {
            FuncObj::Builtin(b) => FuncObj::Builtin(*b),
            FuncObj::User(f) => FuncObj::User(f.clone()),
        }
    }
}

/// The view of one scope level: its function and variable binding lists,
/// oldest first.
pub struct NamespaceV {
    pub funcs: Seq<(Seq<char>, FuncObjV)>,
    pub vars: Seq<(Seq<char>, ValueV)>,
}

/// One scope level: name-to-function and name-to-value bindings.
#[derive(Debug)]
pub struct Namespace {
    pub funcs: Vec<(String, FuncObj)>,
    pub vars: Vec<(String, Inner)>,
}

/// The views of a function binding list.
pub open spec fn view_fn_binds(l: Seq<(String, FuncObj)>) -> Seq<(Seq<char>, FuncObjV)> {
    Seq::new(l.len(), |i: int| (l[i].0@, l[i].1@))
}

/// The views of a variable binding list.
pub open spec fn view_var_binds(l: Seq<(String, Inner)>) -> Seq<(Seq<char>, ValueV)> {
    Seq::new(l.len(), |i: int| (l[i].0@, l[i].1@))
}

impl View for Namespace {
    type V = NamespaceV;

    open spec fn view(&self) -> NamespaceV {
        NamespaceV { funcs: view_fn_binds(self.funcs@), vars: view_var_binds(self.vars@) }
    }
}

impl Namespace {
    /// An empty scope level.
    pub fn new() -> (r: Namespace)
        ensures
            r@.funcs == Seq::<(Seq<char>, FuncObjV)>::empty(),
            r@.vars == Seq::<(Seq<char>, ValueV)>::empty(),
    {
        let r = Namespace { funcs: Vec::new(), vars: Vec::new() };
        proof {
            assert(r@.funcs =~= Seq::<(Seq<char>, FuncObjV)>::empty());
            assert(r@.vars =~= Seq::<(Seq<char>, ValueV)>::empty());
        }
        r
    }

    /// Bind a callable under a name.  A name already bound is silently
    /// shadowed: the newest binding wins on lookup.
    pub fn reg_fn(&mut self, name: String, f: FuncObj)
        ensures
            final(self)@.funcs == old(self)@.funcs.push((name@, f@)),
            final(self)@.vars == old(self)@.vars,
    {
        let ghost n = name@;
        let ghost fv = f@;
        self.funcs.push((name, f));
        proof {
            assert(final(self)@.funcs =~= old(self)@.funcs.push((n, fv)));
            assert(final(self)@.vars =~= old(self)@.vars);
        }
    }

    /// Bind a value under a name, wrapping a bare list in a fresh shared
    /// cell of `cells` so that further bindings of the same list alias one
    /// another.  A name already bound is silently shadowed.
    pub fn reg_var(&mut self, name: String, var: &Inner, cells: &mut Vec<Inner>)
        ensures
            final(self)@.funcs == old(self)@.funcs,
            final(self)@.vars == (match var@ {
                ValueV::Sxp(_) => old(self)@.vars.push(
                    (name@, ValueV::Ref(old(cells)@.len() as nat)),
                ),
                _ => old(self)@.vars.push((name@, var@)),
            }),
            view_elems(final(cells)@) == (match var@ {
                ValueV::Sxp(_) => view_elems(old(cells)@).push(var@),
                _ => view_elems(old(cells)@),
            }),
    {
        let ghost n = name@;
        let stored = match var {
            Inner::Sxp(_) => {
                let idx = cells.len();
                cells.push(var.clone());
                proof {
                    crate::value::lemma_view_elems(cells@);
                    crate::value::lemma_view_elems(old(cells)@);
                    assert(view_elems(cells@) =~= view_elems(old(cells)@).push(var@));
                }
                Inner::Ref(idx)
            },
            other => other.clone(),
        };
        let ghost sv = stored@;
        self.vars.push((name, stored));
        proof {
            assert(final(self)@.vars =~= old(self)@.vars.push((n, sv)));
            assert(final(self)@.funcs =~= old(self)@.funcs);
        }
    }

    /// Look a variable up in this scope, newest binding first.
    pub fn lookup_var(&self, name: &String) -> (r: Option<Inner>)
        ensures
            match assoc_find(self@.vars, name@) {
                Some(v) => r matches Some(rv) && rv@ == v,
                None => r is None,
            },
    {
        let mut i: usize = self.vars.len();
        proof {
            assert(self@.vars.take(self.vars@.len() as int) =~= self@.vars);
        }
        while i > 0
            invariant
                0 <= i <= self.vars@.len(),
                assoc_find(self@.vars, name@) == assoc_find(
                    self@.vars.take(i as int),
                    name@,
                ),
            decreases i,
        {
            i = i - 1;
            proof {
                assert(self@.vars.take(i as int + 1).last() == self@.vars[i as int]);
                assert(self@.vars.take(i as int + 1).drop_last() =~= self@.vars.take(i as int));
            }
            if self.vars[i].0 == *name {
                return Some(self.vars[i].1.clone());
            }
        }
        proof {
            assert(self@.vars.take(0) =~= Seq::<(Seq<char>, ValueV)>::empty());
        }
        None
    }

    /// Look a function up in this scope, newest binding first.
    pub fn lookup_fn(&self, name: &String) -> (r: Option<FuncObj>)
        ensures
            match assoc_find(self@.funcs, name@) {
                Some(v) => r matches Some(rv) && rv@ == v,
                None => r is None,
            },
    {
        let mut i: usize = self.funcs.len();
        proof {
            assert(self@.funcs.take(self.funcs@.len() as int) =~= self@.funcs);
        }
        while i > 0
            invariant
                0 <= i <= self.funcs@.len(),
                assoc_find(self@.funcs, name@) == assoc_find(
                    self@.funcs.take(i as int),
                    name@,
                ),
            decreases i,
        {
            i = i - 1;
            proof {
                assert(self@.funcs.take(i as int + 1).last() == self@.funcs[i as int]);
                assert(self@.funcs.take(i as int + 1).drop_last() =~= self@.funcs.take(i as int));
            }
            if self.funcs[i].0 == *name {
                return Some(self.funcs[i].1.clone());
            }
        }
        proof {
            assert(self@.funcs.take(0) =~= Seq::<(Seq<char>, FuncObjV)>::empty());
        }
        None
    }
}

} // verus!
