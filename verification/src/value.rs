//! The runtime value model: the tagged union `Inner`, the ordered expression
//! list `Sexp` with its remembered opening delimiter, and the opaque
//! `Extension` handle for host-native objects.
//!
//! Reference cells are modelled as indices into the interpreter's cell
//! store: two `Inner::Ref` values holding the same index alias one cell, and
//! a mutation through one is visible through the other.  Plain values are
//! always deep-copied on bind or pass; `Ref` is the only aliasing mechanism.

use vstd::prelude::*;

use crate::lambda::{LambdaV, UserFunc};

verus! {

broadcast use vstd::seq::axiom_seq_index_decreases, vstd::std_specs::vec::axiom_vec_decreases_to_view;

/// The mathematical view of an `Inner` value: text as character sequences,
/// lists as sequences of views.
pub enum ValueV {
    Int(i32),
    Str(Seq<char>),
    Sym(Seq<char>),
    Sxp(SexpV),
    Lambda(LambdaV),
    Ref(nat),
    Ext(ExtV),
}

/// The view of an expression list: its delimiter and its elements' views.
pub struct SexpV {
    pub delim: char,
    pub lst: Seq<ValueV>,
}

/// The view of an extension handle.
pub struct ExtV {
    pub tag: Seq<char>,
    pub name: Seq<char>,
    pub handle: nat,
}

/// A runtime value.
#[derive(Debug)]
pub enum Inner {
    /// An exact machine integer.
    Int(i32),
    /// An immutable text literal.
    Str(String),
    /// A name, evaluated by lookup unless it is a reserved literal.
    Sym(String),
    /// An ordered, possibly empty sequence of values; both list data and
    /// call syntax.
    Sxp(Sexp),
    /// A user-defined function value.
    Lambda(UserFunc),
    /// A shared, mutably aliasable cell: an index into the interpreter's
    /// cell store.
    Ref(usize),
    /// An opaque handle to a host-native object, carrying a type tag for
    /// safe downcasting.
    Ext(Extension),
}

/// An ordered expression list plus the opening delimiter that produced it:
/// `(` or `[` for bracketed lists, `R` for the synthetic root of a whole
/// program.
#[derive(Debug)]
pub struct Sexp {
    pub delim: char,
    pub lst: Vec<Inner>,
}

/// An opaque handle to a host-native object.  `tag` identifies the native
/// type for downcasting, `name` is the language-level display name tested by
/// predicate builtins, and `handle` addresses the object in its host-side
/// registry.
#[derive(Debug)]
pub struct Extension {
    pub tag: String,
    pub name: String,
    pub handle: usize,
}

impl View for Extension {
    type V = ExtV;

    open spec fn view(&self) -> ExtV {
        ExtV { tag: self.tag@, name: self.name@, handle: self.handle as nat }
    }
}

/// The view of a value, element by element.
pub open spec fn view_inner(v: Inner) -> ValueV
    decreases v,
{
    match v {
        Inner::Int(i) => ValueV::Int(i),
        Inner::Str(s) => ValueV::Str(s@),
        Inner::Sym(s) => ValueV::Sym(s@),
        Inner::Sxp(s) => ValueV::Sxp(view_sexp(s)),
        Inner::Lambda(f) => ValueV::Lambda(f@),
        Inner::Ref(i) => ValueV::Ref(i as nat),
        Inner::Ext(e) => ValueV::Ext(e@),
    }
}

/// The view of an expression list.
pub open spec fn view_sexp(s: Sexp) -> SexpV
    decreases s,
{
    SexpV { delim: s.delim, lst: view_elems(s.lst@) }
}

/// The views of a sequence of values, element by element.
pub open spec fn view_elems(l: Seq<Inner>) -> Seq<ValueV>
    decreases l,
{
    if l.len() == 0 {
        Seq::empty()
    } else {
        view_elems(l.drop_last()).push(view_inner(l.last()))
    }
}

/// `view_elems` maps the view over the sequence: it keeps the length and
/// views each element in place.
pub broadcast proof fn lemma_view_elems(l: Seq<Inner>)
    ensures
        #![trigger view_elems(l)]
        view_elems(l).len() == l.len(),
        forall|i: int| 0 <= i < l.len() ==> view_elems(l)[i] == view_inner(l[i]),
    decreases l.len(),
{
    if l.len() > 0 {
        lemma_view_elems(l.drop_last());
        assert forall|i: int| 0 <= i < l.len() implies view_elems(l)[i] == view_inner(l[i]) by {
            if i < l.len() - 1 {
                assert(l.drop_last()[i] == l[i]);
            }
        }
    }
}

impl View for Inner {
    type V = ValueV;

    open spec fn view(&self) -> ValueV {
        view_inner(*self)
    }
}

impl View for Sexp {
    type V = SexpV;

    open spec fn view(&self) -> SexpV {
        view_sexp(*self)
    }
}

impl ValueV {
    /// The view of the empty-list constant.
    pub open spec fn nil() -> ValueV {
        ValueV::Sxp(SexpV { delim: '(', lst: Seq::empty() })
    }

    /// The view of the truthy constant.
    pub open spec fn t() -> ValueV {
        ValueV::Sym("t"@)
    }

    /// Whether this value counts as false: the symbol `nil` or an empty
    /// list.
    pub open spec fn is_nil(self) -> bool {
        match self {
            ValueV::Sym(s) => s == "nil"@,
            ValueV::Sxp(s) => s.lst.len() == 0,
            _ => false,
        }
    }

    /// Every value is well formed with respect to a cell-store length:
    /// every reference it holds, directly or inside a list, addresses an
    /// existing cell, as does every closure body.
    pub open spec fn wf(self, cells: nat) -> bool
        decreases self,
    {
        match self {
            ValueV::Ref(i) => i < cells,
            ValueV::Lambda(f) => f.body < cells,
            ValueV::Sxp(s) => wf_list(s.lst, cells),
            _ => true,
        }
    }

    /// Well-formedness only widens as the cell store grows.
    pub proof fn lemma_wf_grow(self, cells: nat, more: nat)
        requires
            self.wf(cells),
            cells <= more,
        ensures
            self.wf(more),
        decreases self,
    {
        match self {
            ValueV::Sxp(s) => {
                lemma_wf_list_grow(s.lst, cells, more);
            },
            _ => {},
        }
    }
}

/// Every value of the list is well formed with respect to the cell-store
/// length.
pub open spec fn wf_list(l: Seq<ValueV>, cells: nat) -> bool
    decreases l,
{
    l.len() == 0 || (wf_list(l.drop_last(), cells) && l.last().wf(cells))
}

/// A well-formed list is well formed element by element, and conversely.
pub proof fn lemma_wf_list(l: Seq<ValueV>, cells: nat)
    ensures
        wf_list(l, cells) <==> (forall|i: int| 0 <= i < l.len() ==> #[trigger] l[i].wf(cells)),
    decreases l,
{
    if l.len() > 0 {
        lemma_wf_list(l.drop_last(), cells);
        if wf_list(l, cells) {
            assert forall|i: int| 0 <= i < l.len() implies #[trigger] l[i].wf(cells) by {
                if i < l.len() - 1 {
                    assert(l.drop_last()[i] == l[i]);
                    assert(l.drop_last()[i].wf(cells));
                }
            }
        }
        if forall|i: int| 0 <= i < l.len() ==> #[trigger] l[i].wf(cells) {
            assert forall|i: int| 0 <= i < l.drop_last().len() implies #[trigger] l.drop_last()[i].wf(
                cells,
            ) by {
                assert(l.drop_last()[i] == l[i]);
            }
            assert(l.last().wf(cells));
        }
    }
}

/// List well-formedness only widens as the cell store grows.
pub proof fn lemma_wf_list_grow(l: Seq<ValueV>, cells: nat, more: nat)
    requires
        wf_list(l, cells),
        cells <= more,
    ensures
        wf_list(l, more),
    decreases l,
{
    if l.len() > 0 {
        lemma_wf_list_grow(l.drop_last(), cells, more);
        l.last().lemma_wf_grow(cells, more);
    }
}

/// Compare a string against a string slice by contents.
pub fn string_eq_str(s: &String, lit: &str) -> (r: bool)
    ensures
        r == (s@ == lit@),
{
    let o: String = lit.to_owned();
    *s == o
}

impl Inner {
    /// The empty-list constant.
    pub fn nil() -> (r: Inner)
        ensures
            r@ == ValueV::nil(),
    {
        Inner::Sxp(Sexp::nil())
    }

    /// The truthy constant.
    pub fn t() -> (r: Inner)
        ensures
            r@ == ValueV::t(),
    {
        Inner::Sym(String::from_str("t"))
    }

    /// A symbol value with the given name.
    pub fn sym(name: &str) -> (r: Inner)
        ensures
            r@ == ValueV::Sym(name@),
    {
        Inner::Sym(name.to_owned())
    }

    /// Whether this value counts as false: the symbol `nil` or an empty
    /// list.
    pub fn is_nil(&self) -> (r: bool)
        ensures
            r == self@.is_nil(),
    {
        match self {
            Inner::Sym(s) => string_eq_str(s, "nil"),
            Inner::Sxp(s) => {
                proof {
                    lemma_view_elems(s.lst@);
                }
                s.lst.len() == 0
            },
            _ => false,
        }
    }
}

impl Clone for Inner {
    /// A clone has the same view as the original; a cloned `Ref` shares the
    /// original's cell.
    fn clone(&self) -> (r: Self)
        ensures
            r@ == self@,
        decreases *self,
    {
        match self {
            Inner::Int(i) => Inner::Int(*i),
            Inner::Str(s) => Inner::Str(s.clone()),
            Inner::Sym(s) => Inner::Sym(s.clone()),
            Inner::Sxp(s) => Inner::Sxp(s.clone()),
            Inner::Lambda(f) => Inner::Lambda(f.clone()),
            Inner::Ref(i) => Inner::Ref(*i),
            Inner::Ext(e) => Inner::Ext(e.clone()),
        }
    }
}

impl Clone for Sexp {
    /// A clone has the same view as the original, element by element.
    fn clone(&self) -> (r: Self)
        ensures
            r@ == self@,
        decreases *self,
    {
        let mut lst: Vec<Inner> = Vec::new();
        let mut i: usize = 0;
        while i < self.lst.len()
            invariant
                0 <= i <= self.lst.len(),
                lst@.len() == i as int,
                forall|j: int| 0 <= j < i ==> #[trigger] lst@[j]@ == self.lst@[j]@,
            decreases self.lst.len() - i,
        {
            proof {
                assert(decreases_to!(*self => self.lst));
                assert(decreases_to!(self.lst => self.lst[i as int]));
            }
            lst.push(self.lst[i].clone());
            i = i + 1;
        }
        let r = Sexp { delim: self.delim, lst };
        proof {
            lemma_view_elems(r.lst@);
            lemma_view_elems(self.lst@);
            assert forall|j: int| 0 <= j < self.lst@.len() implies r@.lst[j] == self@.lst[j] by {
                assert(r.lst@[j]@ == self.lst@[j]@);
            }
            assert(r@.lst =~= self@.lst);
        }
        r
    }
}

impl Clone for Extension {
    /// A clone has the same view as the original and addresses the same
    /// host object.
    fn clone(&self) -> (r: Self)
        ensures
            r@ == self@,
    {
        Extension { tag: self.tag.clone(), name: self.name.clone(), handle: self.handle }
    }
}

impl Sexp {
    /// The synthetic root expression of a whole program: delimiter `R`,
    /// first element the sequencing function's name.
    pub fn root(func: String) -> (r: Sexp)
        ensures
            r@.delim == 'R',
            r@.lst == seq![ValueV::Sym(func@)],
    {
        let mut lst: Vec<Inner> = Vec::new();
        lst.push(Inner::Sym(func));
        let r = Sexp { delim: 'R', lst };
        proof {
            lemma_view_elems(r.lst@);
            assert(r@.lst =~= seq![ValueV::Sym(func@)]);
        }
        r
    }

    /// The empty list.
    pub fn nil() -> (r: Sexp)
        ensures
            r@ == (SexpV { delim: '(', lst: Seq::<ValueV>::empty() }),
    {
        let r = Sexp { delim: '(', lst: Vec::new() };
        proof {
            lemma_view_elems(r.lst@);
            assert(r@.lst =~= Seq::<ValueV>::empty());
        }
        r
    }

    /// An empty expression list that remembers its opening delimiter.
    pub fn new(delim: char) -> (r: Sexp)
        ensures
            r@ == (SexpV { delim, lst: Seq::<ValueV>::empty() }),
    {
        let r = Sexp { delim, lst: Vec::new() };
        proof {
            lemma_view_elems(r.lst@);
            assert(r@.lst =~= Seq::<ValueV>::empty());
        }
        r
    }

    /// A round-bracket list holding the given elements.
    pub fn from_vec(lst: Vec<Inner>) -> (r: Sexp)
        ensures
            r@.delim == '(',
            r@.lst == view_elems(lst@),
    {
        let r = Sexp { delim: '(', lst };
        proof {
            assert(r@.lst == view_elems(r.lst@));
        }
        r
    }

    /// The remembered opening delimiter.
    pub fn delim(&self) -> (r: char)
        ensures
            r == self@.delim,
    {
        self.delim
    }

    /// The number of elements.
    pub fn len(&self) -> (r: usize)
        ensures
            r == self@.lst.len(),
    {
        proof {
            lemma_view_elems(self.lst@);
            assert(self@.lst == view_elems(self.lst@));
        }
        self.lst.len()
    }

    /// The element at `i`.
    pub fn get(&self, i: usize) -> (r: &Inner)
        requires
            i < self@.lst.len(),
        ensures
            r@ == self@.lst[i as int],
    {
        proof {
            lemma_view_elems(self.lst@);
        }
        &self.lst[i]
    }

    /// Append a child at the end.
    pub fn push(&mut self, child: Inner)
        ensures
            final(self)@.delim == old(self)@.delim,
            final(self)@.lst == old(self)@.lst.push(child@),
    {
        self.lst.push(child);
        proof {
            lemma_view_elems(self.lst@);
            lemma_view_elems(old(self).lst@);
            assert(self@.lst =~= old(self)@.lst.push(child@));
        }
    }

    /// The head of the list, or the empty-list constant if it has none.
    /// The original is not changed.
    pub fn car(&self) -> (r: Inner)
        ensures
            r@ == (if self@.lst.len() == 0 {
                ValueV::nil()
            } else {
                self@.lst[0]
            }),
    {
        proof {
            lemma_view_elems(self.lst@);
        }
        if self.lst.len() == 0 {
            Inner::nil()
        } else {
            self.lst[0].clone()
        }
    }

    /// The tail of the list as a fresh round-bracket list, or the
    /// empty-list constant if it has no elements.  The original is not
    /// changed.
    pub fn cdr(&self) -> (r: Inner)
        ensures
            r@ == (if self@.lst.len() == 0 {
                ValueV::nil()
            } else {
                ValueV::Sxp(SexpV { delim: '(', lst: self@.lst.skip(1) })
            }),
    {
        proof {
            lemma_view_elems(self.lst@);
        }
        if self.lst.len() == 0 {
            Inner::nil()
        } else {
            let mut lst: Vec<Inner> = Vec::new();
            let mut i: usize = 1;
            while i < self.lst.len()
                invariant
                    1 <= i <= self.lst.len(),
                    lst@.len() == i as int - 1,
                    forall|j: int| 0 <= j < i - 1 ==> #[trigger] lst@[j]@ == self.lst@[j + 1]@,
                decreases self.lst.len() - i,
            {
                proof {
                    assert(decreases_to!(self.lst => self.lst[i as int]));
                }
                lst.push(self.lst[i].clone());
                i = i + 1;
            }
            let tail = Sexp { delim: '(', lst };
            proof {
                lemma_view_elems(tail.lst@);
                lemma_view_elems(self.lst@);
                assert forall|j: int| 0 <= j < tail.lst@.len() implies tail@.lst[j]
                    == self@.lst.skip(1)[j] by {
                    assert(tail.lst@[j]@ == self.lst@[j + 1]@);
                }
                assert(tail@.lst =~= self@.lst.skip(1));
            }
            Inner::Sxp(tail)
        }
    }
}

} // verus!
