//! The reader: a token sequence to a tree of values.  The tree is built
//! with an explicit ancestor stack of currently open expressions rather
//! than call-stack recursion, because quote sugar must wrap the next form
//! in a synthetic `(quote ...)` node without a closing token of its own.

use vstd::prelude::*;

use crate::errors::SyntaxError;
use crate::spec_inv_brk;
use crate::text::chars_to_string;
use crate::tokenizer::{spec_tokenize, tokenize, view_tokens, Token, TokenV};
use crate::value::{view_elems, Inner, Sexp, SexpV, ValueV};

verus! {

/// A decimal digit.
pub open spec fn spec_is_digit(c: char) -> bool {
    48 <= c as u32 <= 57
}

/// Whether every character is a decimal digit.
pub open spec fn all_digits(s: Seq<char>) -> bool {
    forall|i: int| 0 <= i < s.len() ==> #[trigger] spec_is_digit(s[i])
}

/// The value of a digit string, read left to right.
pub open spec fn digits_val(s: Seq<char>) -> int
    decreases s.len(),
{
    if s.len() == 0 {
        0
    } else {
        digits_val(s.drop_last()) * 10 + (s.last() as u32 - 48)
    }
}

/// A digit string's value is never negative.
proof fn lemma_digits_nonneg(s: Seq<char>)
    requires
        all_digits(s),
    ensures
        digits_val(s) >= 0,
    decreases s.len(),
{
    if s.len() > 0 {
        assert forall|i: int| 0 <= i < s.drop_last().len() implies #[trigger] spec_is_digit(
            s.drop_last()[i],
        ) by {
            assert(s.drop_last()[i] == s[i]);
        }
        lemma_digits_nonneg(s.drop_last());
        assert(spec_is_digit(s.last()));
    }
}

/// A longer digit string never has a smaller value.
proof fn lemma_digits_prefix(s: Seq<char>, k: int)
    requires
        0 <= k <= s.len(),
        all_digits(s),
    ensures
        digits_val(s.take(k)) <= digits_val(s),
    decreases s.len() - k,
{
    if k < s.len() {
        lemma_digits_prefix(s, k + 1);
        assert forall|i: int| 0 <= i < s.take(k).len() implies #[trigger] spec_is_digit(
            s.take(k)[i],
        ) by {
            assert(s.take(k)[i] == s[i]);
        }
        lemma_digits_nonneg(s.take(k));
        assert(s.take(k + 1).drop_last() =~= s.take(k));
        assert(s.take(k + 1).last() == s[k]);
        assert(spec_is_digit(s[k]));
        assert(digits_val(s.take(k + 1)) == digits_val(s.take(k)) * 10 + (s.take(k + 1).last()
            as u32 - 48));
    } else {
        assert(s.take(k) =~= s);
    }
}

/// An atom read as an optionally signed base-10 integer: `Some` exactly
/// when there is at least one digit, nothing but digits after the optional
/// sign, and the value fits a 32-bit signed integer.
pub open spec fn spec_parse_int(s: Seq<char>) -> Option<i32> {
    let neg = s.len() > 0 && s[0] == '-';
    let signed = s.len() > 0 && (s[0] == '-' || s[0] == '+');
    let ds = if signed {
        s.skip(1)
    } else {
        s
    };
    if ds.len() > 0 && all_digits(ds) {
        let sv = if neg {
            -digits_val(ds)
        } else {
            digits_val(ds)
        };
        if i32::MIN <= sv <= i32::MAX {
            Some(sv as i32)
        } else {
            None
        }
    } else {
        None
    }
}

/// Read an atom as an integer if it is one.
pub fn parse_int(s: &Vec<char>) -> (r: Option<i32>)
    ensures
        r == spec_parse_int(s@),
{
    let n = s.len();
    if n == 0 {
        return None;
    }
    let c0 = s[0];
    let signed = c0 == '-' || c0 == '+';
    let neg = c0 == '-';
    let start: usize = if signed {
        1
    } else {
        0
    };
    let ghost ds = if signed {
        s@.skip(1)
    } else {
        s@
    };
    if n == start {
        return None;
    }
    let mut acc: u64 = 0;
    let mut k: usize = start;
    while k < n
        invariant
            start <= k <= n,
            n == s@.len(),
            n > 0,
            signed == (s@[0] == '-' || s@[0] == '+'),
            neg == (s@[0] == '-'),
            n > start,
            start == (if signed {
                1int
            } else {
                0int
            }),
            ds == (if signed {
                s@.skip(1)
            } else {
                s@
            }),
            forall|j: int| 0 <= j < k - start ==> #[trigger] spec_is_digit(ds[j]),
            acc == digits_val(ds.take(k - start)),
            acc <= 0x8000_0000u64,
        decreases n - k,
    {
        let c = s[k];
        let cu = c as u32;
        proof {
            assert(ds[k - start] == s@[k as int]);
        }
        if cu < 48 || cu > 57 {
            proof {
                assert(!spec_is_digit(ds[k - start]));
                assert(!all_digits(ds));
            }
            return None;
        }
        let d = (cu - 48) as u64;
        acc = acc * 10 + d;
        proof {
            assert(ds.take(k - start + 1).drop_last() =~= ds.take(k - start));
            assert(ds.take(k - start + 1).last() == ds[k - start]);
            assert(acc == digits_val(ds.take(k - start + 1)));
        }
        k = k + 1;
        if acc > 0x8000_0000u64 {
            proof {
                if all_digits(ds) {
                    lemma_digits_prefix(ds, k - start);
                    assert(digits_val(ds) > 0x8000_0000);
                }
            }
            return None;
        }
    }
    proof {
        assert(ds.take(n - start) =~= ds);
        assert(acc == digits_val(ds));
        assert(all_digits(ds));
    }
    if neg {
        if acc == 0x8000_0000u64 {
            Some(i32::MIN)
        } else {
            Some(-(acc as i32))
        }
    } else {
        if acc == 0x8000_0000u64 {
            None
        } else {
            Some(acc as i32)
        }
    }
}

/// The value an atom denotes: an integer when it reads as one, else a
/// symbol.  Numeric reading takes priority: a fully numeric atom is never
/// a symbol.
pub open spec fn atom_value(s: Seq<char>) -> ValueV {
    match spec_parse_int(s) {
        Some(i) => ValueV::Int(i),
        None => ValueV::Sym(s),
    }
}

/// The view of one open expression on the reader's ancestor stack: its
/// delimiter, the children read so far, and whether it is a synthetic
/// quote wrapper that closes after one more form.
pub struct FrameV {
    pub delim: char,
    pub items: Seq<ValueV>,
    pub quote: bool,
}

/// One open expression on the reader's ancestor stack.
pub struct Frame {
    pub delim: char,
    pub items: Vec<Inner>,
    pub quote: bool,
}

impl View for Frame {
    type V = FrameV;

    open spec fn view(&self) -> FrameV {
        FrameV { delim: self.delim, items: view_elems(self.items@), quote: self.quote }
    }
}

/// The views of the ancestor stack, bottom first.
pub open spec fn view_frames(l: Seq<Frame>) -> Seq<FrameV> {
    Seq::new(l.len(), |i: int| l[i]@)
}

/// The reader's initial stack: one synthetic root expression, delimiter
/// `R`, holding the sequencing function's name.
pub open spec fn init_stack() -> Seq<FrameV> {
    seq![FrameV { delim: 'R', items: seq![ValueV::Sym("progn"@)], quote: false }]
}

/// Append a completed form to the innermost open expression.  A quote
/// wrapper closes as soon as it receives its one form: the wrapper itself
/// then becomes a completed form appended to its own parent, cascading
/// through nested quotes.
pub open spec fn spec_append(st: Seq<FrameV>, v: ValueV) -> Seq<FrameV>
    decreases st.len(),
{
    if st.len() == 0 {
        st
    } else {
        let top = st.last();
        if top.quote && st.len() > 1 {
            spec_append(
                st.drop_last(),
                ValueV::Sxp(SexpV { delim: top.delim, lst: top.items.push(v) }),
            )
        } else {
            st.drop_last().push(
                FrameV { delim: top.delim, items: top.items.push(v), quote: top.quote },
            )
        }
    }
}

/// Appending never empties the stack and never changes its bottom frames
/// other than the ones it closes.
pub proof fn lemma_spec_append_len(st: Seq<FrameV>, v: ValueV)
    requires
        st.len() >= 1,
    ensures
        spec_append(st, v).len() >= 1,
        spec_append(st, v).len() <= st.len(),
    decreases st.len(),
{
    let top = st.last();
    if top.quote && st.len() > 1 {
        lemma_spec_append_len(
            st.drop_last(),
            ValueV::Sxp(SexpV { delim: top.delim, lst: top.items.push(v) }),
        );
    }
}

/// One reader step on one token.
///
/// An opener pushes a fresh open expression.  A closer must close a
/// matching, non-root, non-quote expression, which then becomes a
/// completed form of its parent.  An atom becomes an integer or a symbol,
/// a string token a string value.  A quote marker pushes a synthetic
/// wrapper already holding the symbol `quote`.
pub open spec fn spec_step(st: Seq<FrameV>, t: TokenV) -> Result<Seq<FrameV>, SyntaxError> {
    match t {
        TokenV::Lbr(c) => Ok(st.push(FrameV { delim: c, items: Seq::empty(), quote: false })),
        TokenV::Rbr(c) => {
            let top = st.last();
            if st.len() <= 1 {
                Err(SyntaxError::ExtraCloser(c))
            } else if top.delim != spec_inv_brk(c) {
                Err(SyntaxError::Mismatch(top.delim, c))
            } else if top.quote {
                Err(SyntaxError::QuotedCloser(c))
            } else {
                Ok(
                    spec_append(
                        st.drop_last(),
                        ValueV::Sxp(SexpV { delim: top.delim, lst: top.items }),
                    ),
                )
            }
        },
        TokenV::Atm(s) => Ok(spec_append(st, atom_value(s))),
        TokenV::Str(s) => Ok(spec_append(st, ValueV::Str(s))),
        TokenV::Qot => Ok(
            st.push(FrameV { delim: '(', items: seq![ValueV::Sym("quote"@)], quote: true }),
        ),
    }
}

/// Fold the reader steps over a token sequence.
pub open spec fn spec_parse_toks(st: Seq<FrameV>, toks: Seq<TokenV>) -> Result<
    Seq<FrameV>,
    SyntaxError,
> decreases toks.len() {
    if toks.len() == 0 {
        Ok(st)
    } else {
        match spec_step(st, toks[0]) {
            Ok(st2) => spec_parse_toks(st2, toks.skip(1)),
            Err(e) => Err(e),
        }
    }
}

/// At end of input only the root may be open; otherwise the innermost
/// still-open expression names the dangling opener.
pub open spec fn spec_finish(st: Seq<FrameV>) -> Result<SexpV, SyntaxError> {
    if st.len() == 1 {
        Ok(SexpV { delim: st[0].delim, lst: st[0].items })
    } else {
        Err(SyntaxError::UnmatchedOpener(st.last().delim))
    }
}

/// The tree a token sequence reads as.
pub open spec fn spec_parse(toks: Seq<TokenV>) -> Result<SexpV, SyntaxError> {
    match spec_parse_toks(init_stack(), toks) {
        Ok(st) => spec_finish(st),
        Err(e) => Err(e),
    }
}

/// The tree a text reads as: tokenize, then parse.
pub open spec fn spec_read(s: Seq<char>) -> Result<SexpV, SyntaxError> {
    match spec_tokenize(s) {
        Ok(toks) => spec_parse(toks),
        Err(e) => Err(e),
    }
}

/// A reader result, seen at the view level.
pub open spec fn read_view(r: Result<Sexp, SyntaxError>) -> Result<SexpV, SyntaxError> {
    match r {
        Ok(s) => Ok(s@),
        Err(e) => Err(e),
    }
}

/// Append a completed form to the innermost open expression, closing
/// quote wrappers as they fill.
fn append_form(stack: &mut Vec<Frame>, v: Inner)
    requires
        old(stack)@.len() >= 1,
    ensures
        view_frames(final(stack)@) == spec_append(view_frames(old(stack)@), v@),
    decreases old(stack)@.len(),
{
    let ghost st0 = view_frames(stack@);
    match stack.pop() {
        Some(mut top) => {
            let ghost topv = top@;
            proof {
                assert(st0.last() == topv);
                assert(view_frames(stack@) =~= st0.drop_last());
            }
            if top.quote && stack.len() >= 1 {
                top.items.push(v);
                proof {
                    crate::value::lemma_view_elems(top.items@);
                    crate::value::lemma_view_elems(top.items@.drop_last());
                    assert(top.items@.drop_last() =~= old(stack)@.last().items@);
                    assert(view_elems(top.items@) =~= topv.items.push(v@));
                }
                let wrapped = Inner::Sxp(Sexp { delim: top.delim, lst: top.items });
                proof {
                    assert(wrapped@ == ValueV::Sxp(
                        SexpV { delim: topv.delim, lst: topv.items.push(v@) },
                    ));
                }
                append_form(stack, wrapped);
            } else {
                top.items.push(v);
                proof {
                    crate::value::lemma_view_elems(top.items@);
                    crate::value::lemma_view_elems(top.items@.drop_last());
                    assert(top.items@.drop_last() =~= old(stack)@.last().items@);
                    assert(view_elems(top.items@) =~= topv.items.push(v@));
                }
                stack.push(top);
                proof {
                    assert(view_frames(stack@) =~= st0.drop_last().push(
                        FrameV {
                            delim: topv.delim,
                            items: topv.items.push(v@),
                            quote: topv.quote,
                        },
                    ));
                }
            }
        },
        None => {},
    }
}

/// Read a token sequence into a tree rooted at a synthetic `progn`
/// expression.
pub fn parse_tokens(toks: &Vec<Token>) -> (r: Result<Sexp, SyntaxError>)
    ensures
        read_view(r) == spec_parse(view_tokens(toks@)),
{
    let ghost tv = view_tokens(toks@);
    let mut stack: Vec<Frame> = Vec::new();
    let mut root_items: Vec<Inner> = Vec::new();
    root_items.push(Inner::sym("progn"));
    stack.push(Frame { delim: 'R', items: root_items, quote: false });
    proof {
        crate::value::lemma_view_elems(stack@[0].items@);
        assert(view_elems(stack@[0].items@) =~= seq![ValueV::Sym("progn"@)]);
        assert(stack@[0]@ == init_stack()[0]);
        assert(view_frames(stack@) =~= init_stack());
        assert(tv.skip(0) =~= tv);
    }
    let n = toks.len();
    let mut i: usize = 0;
    while i < n
        invariant
            0 <= i <= n,
            n == toks@.len(),
            tv == view_tokens(toks@),
            stack@.len() >= 1,
            spec_parse_toks(init_stack(), tv) == spec_parse_toks(
                view_frames(stack@),
                tv.skip(i as int),
            ),
        decreases n - i,
    {
        let ghost st0 = view_frames(stack@);
        proof {
            assert(tv[i as int] == toks@[i as int]@);
            assert(tv.skip(i as int)[0] == tv[i as int]);
            assert(tv.skip(i as int).skip(1) =~= tv.skip(i as int + 1));
        }
        match &toks[i] {
            Token::Lbr(c) => {
                stack.push(Frame { delim: *c, items: Vec::new(), quote: false });
                proof {
                    assert(stack@.last().items@ =~= Seq::<Inner>::empty());
                    crate::value::lemma_view_elems(stack@.last().items@);
                    assert(view_elems(stack@.last().items@) =~= Seq::<ValueV>::empty());
                    assert(stack@.last()@ == (FrameV {
                        delim: *c,
                        items: Seq::empty(),
                        quote: false,
                    }));
                    assert(view_frames(stack@) =~= st0.push(
                        FrameV { delim: *c, items: Seq::empty(), quote: false },
                    ));
                }
            },
            Token::Rbr(c) => {
                let nst = stack.len();
                let top_delim = stack[nst - 1].delim;
                let top_quote = stack[nst - 1].quote;
                proof {
                    assert(st0.last() == stack@[nst - 1]@);
                }
                if nst <= 1 {
                    return Err(SyntaxError::ExtraCloser(*c));
                }
                if top_delim != crate::inv_brk(*c) {
                    return Err(SyntaxError::Mismatch(top_delim, *c));
                }
                if top_quote {
                    return Err(SyntaxError::QuotedCloser(*c));
                }
                match stack.pop() {
                    Some(top) => {
                        let closed = Inner::Sxp(Sexp { delim: top.delim, lst: top.items });
                        proof {
                            assert(view_frames(stack@) =~= st0.drop_last());
                            assert(closed@ == ValueV::Sxp(
                                SexpV { delim: st0.last().delim, lst: st0.last().items },
                            ));
                        }
                        append_form(&mut stack, closed);
                        proof {
                            lemma_spec_append_len(
                                st0.drop_last(),
                                ValueV::Sxp(SexpV { delim: st0.last().delim, lst: st0.last().items }),
                            );
                        }
                    },
                    None => {},
                }
            },
            Token::Atm(s) => {
                let v = match parse_int(s) {
                    Some(x) => Inner::Int(x),
                    None => Inner::Sym(chars_to_string(s)),
                };
                proof {
                    assert(v@ == atom_value(s@));
                }
                append_form(&mut stack, v);
                proof {
                    lemma_spec_append_len(st0, atom_value(s@));
                }
            },
            Token::Str(s) => {
                let v = Inner::Str(chars_to_string(s));
                append_form(&mut stack, v);
                proof {
                    lemma_spec_append_len(st0, ValueV::Str(s@));
                }
            },
            Token::Qot => {
                let mut items: Vec<Inner> = Vec::new();
                items.push(Inner::sym("quote"));
                stack.push(Frame { delim: '(', items, quote: true });
                proof {
                    crate::value::lemma_view_elems(stack@.last().items@);
                    assert(view_elems(stack@.last().items@) =~= seq![ValueV::Sym("quote"@)]);
                    assert(stack@.last()@ == (FrameV {
                        delim: '(',
                        items: seq![ValueV::Sym("quote"@)],
                        quote: true,
                    }));
                    assert(view_frames(stack@) =~= st0.push(
                        FrameV { delim: '(', items: seq![ValueV::Sym("quote"@)], quote: true },
                    ));
                }
            },
        }
        i = i + 1;
    }
    proof {
        assert(tv.skip(n as int) =~= Seq::<TokenV>::empty());
    }
    let ghost stv = view_frames(stack@);
    if stack.len() == 1 {
        match stack.pop() {
            Some(root) => {
                let r = Sexp { delim: root.delim, lst: root.items };
                proof {
                    assert(stv[0] == root@);
                    assert(r@ == SexpV { delim: stv[0].delim, lst: stv[0].items });
                }
                Ok(r)
            },
            None => Err(SyntaxError::UnmatchedOpener('R')),
        }
    } else {
        let top_delim = stack[stack.len() - 1].delim;
        proof {
            assert(view_frames(stack@).last() == stack@.last()@);
        }
        Err(SyntaxError::UnmatchedOpener(top_delim))
    }
}

/// Read a text into a tree rooted at a synthetic `progn` expression.
pub fn read_source(input: &String) -> (r: Result<Sexp, SyntaxError>)
    ensures
        read_view(r) == spec_read(input@),
{
    let chars = crate::text::str_to_chars(input.as_str());
    match tokenize(&chars) {
        Ok(toks) => parse_tokens(&toks),
        Err(e) => Err(e),
    }
}


/// The number of leaves (integers, strings, symbols) in a value.
pub open spec fn leaves(v: ValueV) -> nat
    decreases v,
{
    match v {
        ValueV::Int(_) => 1,
        ValueV::Str(_) => 1,
        ValueV::Sym(_) => 1,
        ValueV::Sxp(s) => leaves_list(s.lst),
        _ => 0,
    }
}

/// The number of leaves in a list of values.
pub open spec fn leaves_list(l: Seq<ValueV>) -> nat
    decreases l,
{
    if l.len() == 0 {
        0
    } else {
        leaves_list(l.drop_last()) + leaves(l.last())
    }
}

/// The number of leaves held anywhere in the open stack.
pub open spec fn stack_leaves(st: Seq<FrameV>) -> nat
    decreases st.len(),
{
    if st.len() == 0 {
        0
    } else {
        stack_leaves(st.drop_last()) + leaves_list(st.last().items)
    }
}

/// The number of atom and string tokens.
pub open spec fn leaf_toks(toks: Seq<TokenV>) -> nat
    decreases toks.len(),
{
    if toks.len() == 0 {
        0
    } else {
        (match toks[0] {
            TokenV::Atm(_) => 1nat,
            TokenV::Str(_) => 1nat,
            _ => 0nat,
        }) + leaf_toks(toks.skip(1))
    }
}

/// The number of quote-marker tokens.
pub open spec fn qot_toks(toks: Seq<TokenV>) -> nat
    decreases toks.len(),
{
    if toks.len() == 0 {
        0
    } else {
        (if toks[0] is Qot {
            1nat
        } else {
            0nat
        }) + qot_toks(toks.skip(1))
    }
}

/// Whether the brackets of the tokens balance, starting from the open
/// delimiters `pending` (innermost last): every closer matches the
/// innermost opener, and nothing stays open at the end.
pub open spec fn scan(pending: Seq<char>, toks: Seq<TokenV>) -> bool
    decreases toks.len(),
{
    if toks.len() == 0 {
        pending.len() == 0
    } else {
        match toks[0] {
            TokenV::Lbr(c) => scan(pending.push(c), toks.skip(1)),
            TokenV::Rbr(c) => pending.len() > 0 && pending.last() == spec_inv_brk(c) && scan(
                pending.drop_last(),
                toks.skip(1),
            ),
            _ => scan(pending, toks.skip(1)),
        }
    }
}

/// Whether every quote marker stands directly before a form: never last,
/// and never before a closing bracket.
pub open spec fn quotes_ok(toks: Seq<TokenV>) -> bool {
    forall|i: int|
        0 <= i < toks.len() && (#[trigger] toks[i]) is Qot ==> i + 1 < toks.len() && !(toks[i
            + 1] is Rbr)
}

/// Dropping the first token keeps the quote condition.
proof fn lemma_quotes_ok_skip(toks: Seq<TokenV>)
    requires
        quotes_ok(toks),
        toks.len() > 0,
    ensures
        quotes_ok(toks.skip(1)),
{
    let rest = toks.skip(1);
    assert forall|i: int|
        0 <= i < rest.len() && (#[trigger] rest[i]) is Qot implies i + 1 < rest.len() && !(rest[i
        + 1] is Rbr) by {
        assert(rest[i] == toks[i + 1]);
        assert(toks[i + 1] is Qot);
        assert(rest[i + 1] == toks[i + 2]);
    }
}

/// The shape of the open stack against the open delimiters: below any
/// quote wrappers, the open bracketed expressions carry exactly the
/// pending openers, in order, over a single non-quote root.
pub open spec fn shape(st: Seq<FrameV>, pending: Seq<char>) -> bool
    decreases st.len(),
{
    if st.len() == 0 {
        false
    } else if st.len() == 1 {
        pending.len() == 0 && !st[0].quote
    } else {
        let top = st.last();
        if top.quote {
            shape(st.drop_last(), pending)
        } else {
            pending.len() > 0 && top.delim == pending.last() && shape(
                st.drop_last(),
                pending.drop_last(),
            )
        }
    }
}

/// Appending a form keeps the stack's shape, leaves a non-quote frame on
/// top, and adds exactly the form's leaves.
proof fn lemma_append_shape(st: Seq<FrameV>, pending: Seq<char>, v: ValueV)
    requires
        shape(st, pending),
    ensures
        shape(spec_append(st, v), pending),
        !spec_append(st, v).last().quote,
        spec_append(st, v).len() >= 1,
        stack_leaves(spec_append(st, v)) == stack_leaves(st) + leaves(v),
    decreases st.len(),
{
    let top = st.last();
    if top.quote && st.len() > 1 {
        let wrapped = ValueV::Sxp(SexpV { delim: top.delim, lst: top.items.push(v) });
        assert(top.items.push(v).drop_last() =~= top.items);
        assert(leaves(wrapped) == leaves_list(top.items) + leaves(v));
        lemma_append_shape(st.drop_last(), pending, wrapped);
    } else {
        let nf = FrameV { delim: top.delim, items: top.items.push(v), quote: top.quote };
        let r = st.drop_last().push(nf);
        assert(r.last() == nf);
        assert(r.drop_last() =~= st.drop_last());
        assert(top.items.push(v).drop_last() =~= top.items);
        assert(leaves_list(nf.items) == leaves_list(top.items) + leaves(v));
        if st.len() == 1 {
            assert(!st[0].quote);
            assert(r.len() == 1 && r[0] == nf);
            assert(shape(r, pending));
        } else {
            assert(shape(r, pending));
        }
    }
}

/// An atom token's value is a single leaf.
proof fn lemma_atom_value_leaf(s: Seq<char>)
    ensures
        leaves(atom_value(s)) == 1,
{
}

/// Folding the reader over balanced tokens with well-placed quotes
/// succeeds, closes everything back down to the single root, and grows
/// the leaf count by one per atom, string and quote token.
proof fn lemma_parse_toks_ok(st: Seq<FrameV>, pending: Seq<char>, toks: Seq<TokenV>)
    requires
        shape(st, pending),
        scan(pending, toks),
        quotes_ok(toks),
        st.last().quote ==> toks.len() > 0 && !(toks[0] is Rbr),
    ensures
        spec_parse_toks(st, toks) matches Ok(fin) && fin.len() == 1 && stack_leaves(fin)
            == stack_leaves(st) + leaf_toks(toks) + qot_toks(toks),
    decreases toks.len(),
{
    if toks.len() == 0 {
        assert(pending.len() == 0);
        if st.len() > 1 {
            assert(!st.last().quote);
            assert(false);
        }
    } else {
        let rest = toks.skip(1);
        lemma_quotes_ok_skip(toks);
        match toks[0] {
            TokenV::Lbr(c) => {
                let st2 = st.push(FrameV { delim: c, items: Seq::empty(), quote: false });
                assert(st2.drop_last() =~= st);
                assert(st2.last().delim == c);
                assert(shape(st2, pending.push(c))) by {
                    assert(pending.push(c).drop_last() =~= pending);
                }
                assert(stack_leaves(st2) == stack_leaves(st));
                lemma_parse_toks_ok(st2, pending.push(c), rest);
            },
            TokenV::Rbr(c) => {
                assert(!st.last().quote);
                assert(st.len() > 1) by {
                    if st.len() == 1 {
                        assert(pending.len() == 0);
                    }
                }
                let top = st.last();
                assert(pending.len() > 0 && top.delim == pending.last());
                assert(top.delim == spec_inv_brk(c));
                let closed = ValueV::Sxp(SexpV { delim: top.delim, lst: top.items });
                assert(shape(st.drop_last(), pending.drop_last()));
                lemma_append_shape(st.drop_last(), pending.drop_last(), closed);
                let st2 = spec_append(st.drop_last(), closed);
                assert(stack_leaves(st2) == stack_leaves(st)) by {
                    assert(leaves(closed) == leaves_list(top.items));
                }
                lemma_parse_toks_ok(st2, pending.drop_last(), rest);
            },
            TokenV::Atm(s) => {
                lemma_append_shape(st, pending, atom_value(s));
                lemma_atom_value_leaf(s);
                let st2 = spec_append(st, atom_value(s));
                lemma_parse_toks_ok(st2, pending, rest);
            },
            TokenV::Str(s) => {
                lemma_append_shape(st, pending, ValueV::Str(s));
                let st2 = spec_append(st, ValueV::Str(s));
                lemma_parse_toks_ok(st2, pending, rest);
            },
            TokenV::Qot => {
                let qf = FrameV { delim: '(', items: seq![ValueV::Sym("quote"@)], quote: true };
                let st2 = st.push(qf);
                assert(st2.drop_last() =~= st);
                assert(st2.len() > 1);
                assert(st2.last() == qf);
                assert(shape(st2.drop_last(), pending));
                assert(shape(st2, pending));
                assert(leaves_list(qf.items) == 1) by {
                    assert(leaves_list(Seq::<ValueV>::empty()) == 0);
                    assert(leaves(ValueV::Sym("quote"@)) == 1);
                    assert(qf.items.drop_last() =~= Seq::<ValueV>::empty());
                    assert(qf.items.last() == ValueV::Sym("quote"@));
                }
                assert(stack_leaves(st2) == stack_leaves(st) + 1);
                assert(rest.len() > 0 && !(rest[0] is Rbr)) by {
                    assert(toks[0] is Qot);
                    assert(rest[0] == toks[1]);
                }
                lemma_parse_toks_ok(st2, pending, rest);
            },
        }
    }
}

/// Reader round-trip on well-formed input: for every token sequence whose
/// brackets balance and whose quote markers each stand directly before a
/// form, reading succeeds, and beside the root's own head symbol the tree
/// holds exactly one leaf per atom token, string token, and quote marker
/// (each quote marker becomes a synthetic `quote` symbol).
pub proof fn lemma_reader_round_trip(toks: Seq<TokenV>)
    requires
        scan(Seq::empty(), toks),
        quotes_ok(toks),
    ensures
        spec_parse(toks) matches Ok(root) && leaves_list(root.lst) == 1 + leaf_toks(toks)
            + qot_toks(toks),
{
    let st = init_stack();
    assert(shape(st, Seq::empty()));
    assert(stack_leaves(st) == 1) by {
        assert(stack_leaves(Seq::<FrameV>::empty()) == 0);
        assert(leaves_list(Seq::<ValueV>::empty()) == 0);
        assert(st[0].items.drop_last() =~= Seq::<ValueV>::empty());
        assert(leaves(ValueV::Sym("progn"@)) == 1);
        assert(st[0].items.last() == ValueV::Sym("progn"@));
        assert(leaves_list(st[0].items) == 1);
        assert(st.drop_last() =~= Seq::<FrameV>::empty());
        assert(st.last() == st[0]);
    }
    lemma_parse_toks_ok(st, Seq::empty(), toks);
    let fin = spec_parse_toks(st, toks)->Ok_0;
    assert(fin.len() == 1);
    assert(fin.drop_last() =~= Seq::<FrameV>::empty());
    assert(stack_leaves(fin.drop_last()) == 0);
    assert(stack_leaves(fin) == stack_leaves(fin.drop_last()) + leaves_list(fin.last().items));
    assert(fin.last() == fin[0]);
}

/// Reader round-trip without quote sugar: for every quote-free token
/// sequence with balanced brackets, reading succeeds and the tree's leaf
/// count beside the root's head symbol equals the number of atom and
/// string tokens.  (With quote sugar the sugar itself adds one `quote`
/// symbol per marker, as the general law above states.)
pub proof fn lemma_reader_round_trip_plain(toks: Seq<TokenV>)
    requires
        scan(Seq::empty(), toks),
        forall|i: int| 0 <= i < toks.len() ==> !((#[trigger] toks[i]) is Qot),
    ensures
        spec_parse(toks) matches Ok(root) && leaves_list(root.lst) == 1 + leaf_toks(toks),
{
    lemma_qot_free_count(toks);
    lemma_reader_round_trip(toks);
}

/// A quote-free token sequence has no quote markers to count.
proof fn lemma_qot_free_count(toks: Seq<TokenV>)
    requires
        forall|i: int| 0 <= i < toks.len() ==> !((#[trigger] toks[i]) is Qot),
    ensures
        qot_toks(toks) == 0,
    decreases toks.len(),
{
    if toks.len() > 0 {
        assert forall|i: int|
            0 <= i < toks.skip(1).len() implies !((#[trigger] toks.skip(1)[i]) is Qot) by {
            assert(toks.skip(1)[i] == toks[i + 1]);
        }
        lemma_qot_free_count(toks.skip(1));
    }
}


/// Reader round-trip from source text: when a text tokenizes, its
/// brackets balance, and each quote marker stands directly before a form,
/// reading the text succeeds, with the leaf count the token-level law
/// gives.
pub proof fn lemma_read_source_ok(s: Seq<char>, toks: Seq<TokenV>)
    requires
        spec_tokenize(s) == Ok::<Seq<TokenV>, SyntaxError>(toks),
        scan(Seq::empty(), toks),
        quotes_ok(toks),
    ensures
        spec_read(s) matches Ok(root) && leaves_list(root.lst) == 1 + leaf_toks(toks)
            + qot_toks(toks),
{
    lemma_reader_round_trip(toks);
}

} // verus!
