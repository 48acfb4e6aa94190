//! Rendering values back to text: integers in decimal, strings quoted,
//! lists bracketed and space-separated (the empty list prints as `nil`),
//! closures in their `('name . (lambda ...))` shape, references through
//! their cell.

use vstd::prelude::*;

use crate::value::{view_elems, Inner, ValueV};

verus! {

broadcast use vstd::seq::axiom_seq_index_decreases, vstd::std_specs::vec::axiom_vec_decreases_to_view, vstd::std_specs::vec::axiom_vec_index_decreases;

/// The decimal digits of a natural number, most significant first.
pub open spec fn nat_chars(n: nat) -> Seq<char>
    decreases n,
{
    if n < 10 {
        seq![((48 + n) as u32) as char]
    } else {
        nat_chars(n / 10).push(((48 + n % 10) as u32) as char)
    }
}

/// The decimal rendering of an integer, `-` first when negative.
pub open spec fn int_chars(i: int) -> Seq<char> {
    if i < 0 {
        seq!['-'] + nat_chars((-i) as nat)
    } else {
        nat_chars(i as nat)
    }
}

/// Join rendered parts: `nil` for none, else the bracket, the parts
/// separated by single spaces, and the matching closer.
pub open spec fn spec_fmt_iter(brk: char, parts: Seq<Seq<char>>) -> Seq<char> {
    if parts.len() == 0 {
        "nil"@
    } else {
        seq![brk] + parts[0] + join_rest(parts.skip(1)) + seq![crate::spec_inv_brk(brk)]
    }
}

/// The tail of a joined rendering: a space before each further part.
pub open spec fn join_rest(parts: Seq<Seq<char>>) -> Seq<char>
    decreases parts.len(),
{
    if parts.len() == 0 {
        Seq::empty()
    } else {
        seq![' '] + parts[0] + join_rest(parts.skip(1))
    }
}

/// The rendering of a value.  A reference renders as its cell's contents;
/// the cell store handed down is truncated below the cell so the
/// recursion follows the strictly earlier cells that a well-formed store
/// guarantees.
pub open spec fn spec_display(cells: Seq<ValueV>, v: ValueV) -> Seq<char>
    decreases cells.len(), v,
{
    match v {
        ValueV::Int(i) => int_chars(i as int),
        ValueV::Str(s) => seq!['"'] + s + seq!['"'],
        ValueV::Sym(s) => s,
        ValueV::Sxp(sv) => spec_fmt_iter('(', items_render(cells, sv.lst)),
        ValueV::Lambda(f) => seq!['(', '\''] + f.name + " . (lambda "@ + spec_fmt_iter(
            '[',
            f.params,
        ) + seq![' '] + (if f.body < cells.len() {
            spec_display(cells.take(f.body as int), cells[f.body as int])
        } else {
            "nil"@
        }) + seq![')', ')'],
        ValueV::Ref(c) => if c < cells.len() {
            spec_display(cells.take(c as int), cells[c as int])
        } else {
            "nil"@
        },
        ValueV::Ext(e) => seq!['#', '<'] + e.name + seq!['>'],
    }
}

/// The renderings of a list's elements, in order.
pub open spec fn items_render(cells: Seq<ValueV>, l: Seq<ValueV>) -> Seq<Seq<char>>
    decreases cells.len(), l,
{
    if l.len() == 0 {
        Seq::empty()
    } else {
        items_render(cells, l.drop_last()).push(spec_display(cells, l.last()))
    }
}

/// `items_render` renders element by element.
pub proof fn lemma_items_render(cells: Seq<ValueV>, l: Seq<ValueV>)
    ensures
        items_render(cells, l).len() == l.len(),
        forall|i: int|
            0 <= i < l.len() ==> items_render(cells, l)[i] == spec_display(cells, l[i]),
    decreases l.len(),
{
    if l.len() > 0 {
        lemma_items_render(cells, l.drop_last());
        assert forall|i: int| 0 <= i < l.len() implies items_render(cells, l)[i] == spec_display(
            cells,
            l[i],
        ) by {
            if i < l.len() - 1 {
                assert(l.drop_last()[i] == l[i]);
            }
        }
    }
}

/// The character of one decimal digit.
pub fn digit_char(d: u32) -> (c: char)
    requires
        d < 10,
    ensures
        c == (((48 + d) as u32) as char),
{
    match d {
        0 => '0',
        1 => '1',
        2 => '2',
        3 => '3',
        4 => '4',
        5 => '5',
        6 => '6',
        7 => '7',
        8 => '8',
        _ => '9',
    }
}

/// The decimal digits of a natural number, most significant first.
pub fn nat_to_chars(n: u32) -> (r: Vec<char>)
    ensures
        r@ == nat_chars(n as nat),
    decreases n,
{
    if n < 10 {
        let c = digit_char(n);
        let mut v: Vec<char> = Vec::new();
        v.push(c);
        proof {
            assert(v@ =~= nat_chars(n as nat));
        }
        v
    } else {
        let mut v = nat_to_chars(n / 10);
        let c = digit_char(n % 10);
        v.push(c);
        v
    }
}

/// The decimal rendering of an integer.
pub fn int_to_chars(i: i32) -> (r: Vec<char>)
    ensures
        r@ == int_chars(i as int),
{
    if i < 0 {
        let mag: u32 = (-(i as i64)) as u32;
        let mut v: Vec<char> = Vec::new();
        v.push('-');
        let ds = nat_to_chars(mag);
        let mut k: usize = 0;
        while k < ds.len()
            invariant
                0 <= k <= ds@.len(),
                ds@ == nat_chars((-(i as int)) as nat),
                v@ == seq!['-'] + ds@.take(k as int),
            decreases ds@.len() - k,
        {
            v.push(ds[k]);
            proof {
                assert(v@ =~= seq!['-'] + ds@.take(k as int + 1));
            }
            k = k + 1;
        }
        proof {
            assert(ds@.take(ds@.len() as int) =~= ds@);
        }
        v
    } else {
        nat_to_chars(i as u32)
    }
}

/// Join rendered parts with single spaces inside the bracket pair; no
/// parts render as `nil`.
pub fn fmt_iter(brk: char, parts: &Vec<Vec<char>>) -> (r: Vec<char>)
    ensures
        r@ == spec_fmt_iter(brk, parts@.map_values(|p: Vec<char>| p@)),
{
    let ghost pv = parts@.map_values(|p: Vec<char>| p@);
    if parts.len() == 0 {
        let r = crate::text::str_to_chars("nil");
        return r;
    }
    let mut r: Vec<char> = Vec::new();
    r.push(brk);
    let mut k: usize = 0;
    let mut first = true;
    while k < parts.len()
        invariant
            0 <= k <= parts@.len(),
            parts@.len() >= 1,
            pv == parts@.map_values(|p: Vec<char>| p@),
            pv.len() == parts@.len(),
            first == (k == 0),
            k > 0 ==> r@ == seq![brk] + pv[0] + join_prefix(pv.skip(1), k as int - 1),
            k == 0 ==> r@ == seq![brk],
        decreases parts@.len() - k,
    {
        if !first {
            r.push(' ');
        }
        let mut j: usize = 0;
        let ghost r0 = r@;
        while j < parts[k].len()
            invariant
                0 <= j <= parts@[k as int]@.len(),
                k < parts@.len(),
                r@ == r0 + parts@[k as int]@.take(j as int),
            decreases parts@[k as int]@.len() - j,
        {
            r.push(parts[k][j]);
            proof {
                assert(r@ =~= r0 + parts@[k as int]@.take(j as int + 1));
            }
            j = j + 1;
        }
        proof {
            assert(parts@[k as int]@.take(parts@[k as int]@.len() as int) =~= parts@[
                k as int
            ]@);
            assert(pv[k as int] == parts@[k as int]@);
            if k == 0 {
                assert(join_prefix(pv.skip(1), 0) =~= Seq::<char>::empty());
                assert(r@ =~= seq![brk] + pv[0] + join_prefix(pv.skip(1), 0));
            } else {
                assert(pv.skip(1)[k as int - 1] == pv[k as int]);
                lemma_join_prefix_step(pv.skip(1), k as int - 1);
                assert(r@ =~= seq![brk] + pv[0] + join_prefix(pv.skip(1), k as int));
            }
        }
        first = false;
        k = k + 1;
    }
    r.push(crate::inv_brk(brk));
    proof {
        lemma_join_prefix_all(pv.skip(1));
        assert(r@ =~= seq![brk] + pv[0] + join_rest(pv.skip(1)) + seq![crate::spec_inv_brk(
            brk,
        )]);
    }
    r
}

/// The joined tail, cut off after the first `k` parts.
pub open spec fn join_prefix(parts: Seq<Seq<char>>, k: int) -> Seq<char>
    decreases k,
{
    if k <= 0 || parts.len() == 0 {
        Seq::empty()
    } else {
        seq![' '] + parts[0] + join_prefix(parts.skip(1), k - 1)
    }
}

/// Extending the cut by one appends one more separated part.
proof fn lemma_join_prefix_step(parts: Seq<Seq<char>>, k: int)
    requires
        0 <= k < parts.len(),
    ensures
        join_prefix(parts, k + 1) == join_prefix(parts, k) + (seq![' '] + parts[k]),
    decreases k,
{
    if k == 0 {
        assert(join_prefix(parts.skip(1), 0) == Seq::<char>::empty());
        assert(join_prefix(parts, 0) == Seq::<char>::empty());
        assert(join_prefix(parts, 1) =~= seq![' '] + parts[0] + join_prefix(parts.skip(1), 0));
        assert(join_prefix(parts, 1) =~= join_prefix(parts, 0) + (seq![' '] + parts[0]));
    } else {
        lemma_join_prefix_step(parts.skip(1), k - 1);
        assert(parts.skip(1)[k - 1] == parts[k]);
        assert(join_prefix(parts, k + 1) =~= seq![' '] + parts[0] + join_prefix(
            parts.skip(1),
            k,
        ));
        assert(join_prefix(parts, k) + (seq![' '] + parts[k]) =~= seq![' '] + parts[0] + (
        join_prefix(parts.skip(1), k - 1) + (seq![' '] + parts.skip(1)[k - 1])));
    }
}

/// The full cut is the whole joined tail.
proof fn lemma_join_prefix_all(parts: Seq<Seq<char>>)
    ensures
        join_prefix(parts, parts.len() as int) == join_rest(parts),
    decreases parts.len(),
{
    if parts.len() > 0 {
        lemma_join_prefix_all(parts.skip(1));
        assert(join_prefix(parts, parts.len() as int) =~= seq![' '] + parts[0] + join_prefix(
            parts.skip(1),
            parts.len() as int - 1,
        ));
        assert(join_rest(parts) =~= seq![' '] + parts[0] + join_rest(parts.skip(1)));
    }
}

/// Render a value, following references through cells below `bound`.
#[verifier::loop_isolation(false)]
pub fn display_val(cells: &Vec<Inner>, bound: usize, v: &Inner) -> (r: Vec<char>)
    requires
        bound <= cells@.len(),
    ensures
        r@ == spec_display(view_elems(cells@).take(bound as int), v@),
    decreases bound, *v,
{
    let ghost cv = view_elems(cells@).take(bound as int);
    proof {
        crate::value::lemma_view_elems(cells@);
    }
    match v {
        Inner::Int(i) => int_to_chars(*i),
        Inner::Str(s) => {
            let cs = crate::text::str_to_chars(s.as_str());
            let mut r: Vec<char> = Vec::new();
            r.push('"');
            let mut j: usize = 0;
            let ghost r0 = r@;
            while j < cs.len()
                invariant
                    0 <= j <= cs@.len(),
                    r@ == r0 + cs@.take(j as int),
                decreases cs@.len() - j,
            {
                r.push(cs[j]);
                proof {
                    assert(r@ =~= r0 + cs@.take(j as int + 1));
                }
                j = j + 1;
            }
            r.push('"');
            proof {
                assert(cs@.take(cs@.len() as int) =~= cs@);
                assert(r@ =~= seq!['"'] + s@ + seq!['"']);
            }
            r
        },
        Inner::Sym(s) => crate::text::str_to_chars(s.as_str()),
        Inner::Sxp(sx) => {
            let mut parts: Vec<Vec<char>> = Vec::new();
            let mut j: usize = 0;
            while j < sx.lst.len()
                invariant
                    0 <= j <= sx.lst@.len(),
                    bound <= cells@.len(),
                    cv == view_elems(cells@).take(bound as int),
                    parts@.len() == j as int,
                    forall|t: int|
                        0 <= t < j ==> #[trigger] parts@[t]@ == spec_display(
                            cv,
                            sx.lst@[t]@,
                        ),
                decreases sx.lst@.len() - j,
            {
                proof {
                    assert(decreases_to!(*v => *sx));
                    assert(decreases_to!(*sx => sx.lst));
                    assert(decreases_to!(sx.lst => sx.lst[j as int]));
                }
                let part = display_val(cells, bound, &sx.lst[j]);
                parts.push(part);
                j = j + 1;
            }
            let r = fmt_iter('(', &parts);
            proof {
                crate::value::lemma_view_elems(sx.lst@);
                lemma_items_render(cv, view_elems(sx.lst@));
                assert(parts@.map_values(|p: Vec<char>| p@) =~= items_render(
                    cv,
                    view_elems(sx.lst@),
                ));
            }
            r
        },
        Inner::Lambda(f) => {
            let mut r: Vec<char> = Vec::new();
            r.push('(');
            r.push('\'');
            let name_cs = crate::text::str_to_chars(f.name.as_str());
            let mut j: usize = 0;
            let ghost r0 = r@;
            while j < name_cs.len()
                invariant
                    0 <= j <= name_cs@.len(),
                    r@ == r0 + name_cs@.take(j as int),
                decreases name_cs@.len() - j,
            {
                r.push(name_cs[j]);
                proof {
                    assert(r@ =~= r0 + name_cs@.take(j as int + 1));
                }
                j = j + 1;
            }
            proof {
                assert(name_cs@.take(name_cs@.len() as int) =~= name_cs@);
            }
            let mid = crate::text::str_to_chars(" . (lambda ");
            let mut j2: usize = 0;
            let ghost r1 = r@;
            while j2 < mid.len()
                invariant
                    0 <= j2 <= mid@.len(),
                    r@ == r1 + mid@.take(j2 as int),
                decreases mid@.len() - j2,
            {
                r.push(mid[j2]);
                proof {
                    assert(r@ =~= r1 + mid@.take(j2 as int + 1));
                }
                j2 = j2 + 1;
            }
            proof {
                assert(mid@.take(mid@.len() as int) =~= mid@);
            }
            let mut parts: Vec<Vec<char>> = Vec::new();
            let mut j3: usize = 0;
            while j3 < f.args.len()
                invariant
                    0 <= j3 <= f.args@.len(),
                    parts@.len() == j3 as int,
                    forall|t: int| 0 <= t < j3 ==> #[trigger] parts@[t]@ == f.args@[t],
                decreases f.args@.len() - j3,
            {
                let part = crate::text::str_to_chars(f.args.get(j3).name().as_str());
                parts.push(part);
                j3 = j3 + 1;
            }
            let ps = fmt_iter('[', &parts);
            let mut j4: usize = 0;
            let ghost r2 = r@;
            while j4 < ps.len()
                invariant
                    0 <= j4 <= ps@.len(),
                    r@ == r2 + ps@.take(j4 as int),
                decreases ps@.len() - j4,
            {
                r.push(ps[j4]);
                proof {
                    assert(r@ =~= r2 + ps@.take(j4 as int + 1));
                }
                j4 = j4 + 1;
            }
            proof {
                assert(ps@.take(ps@.len() as int) =~= ps@);
                assert(parts@.map_values(|p: Vec<char>| p@) =~= f.args@);
            }
            r.push(' ');
            let body = if f.body < bound {
                display_val(cells, f.body, &cells[f.body].clone())
            } else {
                crate::text::str_to_chars("nil")
            };
            let mut j5: usize = 0;
            let ghost r3 = r@;
            while j5 < body.len()
                invariant
                    0 <= j5 <= body@.len(),
                    r@ == r3 + body@.take(j5 as int),
                decreases body@.len() - j5,
            {
                r.push(body[j5]);
                proof {
                    assert(r@ =~= r3 + body@.take(j5 as int + 1));
                }
                j5 = j5 + 1;
            }
            proof {
                assert(body@.take(body@.len() as int) =~= body@);
            }
            r.push(')');
            r.push(')');
            proof {
                if f.body < bound {
                    assert(cv.take(f.body as int) =~= view_elems(cells@).take(f.body as int));
                    assert(cv[f.body as int] == cells@[f.body as int]@);
                }
                assert(r@ =~= spec_display(cv, v@));
            }
            r
        },
        Inner::Ref(c) => {
            if *c < bound {
                let inner = cells[*c].clone();
                let r = display_val(cells, *c, &inner);
                proof {
                    assert(cv.take(*c as int) =~= view_elems(cells@).take(*c as int));
                    assert(cv[*c as int] == cells@[*c as int]@);
                }
                r
            } else {
                crate::text::str_to_chars("nil")
            }
        },
        Inner::Ext(e) => {
            let mut r: Vec<char> = Vec::new();
            r.push('#');
            r.push('<');
            let name_cs = crate::text::str_to_chars(e.name.as_str());
            let mut j: usize = 0;
            let ghost r0 = r@;
            while j < name_cs.len()
                invariant
                    0 <= j <= name_cs@.len(),
                    r@ == r0 + name_cs@.take(j as int),
                decreases name_cs@.len() - j,
            {
                r.push(name_cs[j]);
                proof {
                    assert(r@ =~= r0 + name_cs@.take(j as int + 1));
                }
                j = j + 1;
            }
            r.push('>');
            proof {
                assert(name_cs@.take(name_cs@.len() as int) =~= name_cs@);
                assert(r@ =~= seq!['#', '<'] + e.name@ + seq!['>']);
            }
            r
        },
    }
}

/// Render a value as a string, following references through the whole
/// cell store.
pub fn display_string(cells: &Vec<Inner>, v: &Inner) -> (r: String)
    ensures
        r@ == spec_display(view_elems(cells@), v@),
{
    let cs = display_val(cells, cells.len(), v);
    proof {
        crate::value::lemma_view_elems(cells@);
        assert(view_elems(cells@).take(view_elems(cells@).len() as int) =~= view_elems(
            cells@,
        ));
    }
    crate::text::chars_to_string(&cs)
}

} // verus!
