//! The tokenizer: raw text to a flat sequence of lexical tokens.  Whitespace
//! separates tokens and is never emitted.  The only failure here is an
//! unterminated string literal; bracket balance is the reader's job.

use vstd::prelude::*;

use crate::errors::SyntaxError;

verus! {

/// The view of a token: text as character sequences.
pub enum TokenV {
    Lbr(char),
    Rbr(char),
    Atm(Seq<char>),
    Str(Seq<char>),
    Qot,
}

/// One lexical token.  Brackets carry the specific character so mismatches
/// can be reported precisely; an atom is a maximal run of plain characters;
/// a string token carries its contents only; `Qot` is the quote-sugar
/// marker.
#[derive(Debug)]
pub enum Token {
    /// An opening bracket.
    Lbr(char),
    /// A closing bracket.
    Rbr(char),
    /// A maximal run of non-whitespace, non-bracket, non-quote characters.
    Atm(Vec<char>),
    /// A string literal's contents.
    Str(Vec<char>),
    /// The quote-sugar marker.
    Qot,
}

impl View for Token {
    type V = TokenV;

    open spec fn view(&self) -> TokenV {
        match self {
            Token::Lbr(c) => TokenV::Lbr(*c),
            Token::Rbr(c) => TokenV::Rbr(*c),
            Token::Atm(s) => TokenV::Atm(s@),
            Token::Str(s) => TokenV::Str(s@),
            Token::Qot => TokenV::Qot,
        }
    }
}

/// The views of a token sequence.
pub open spec fn view_tokens(l: Seq<Token>) -> Seq<TokenV> {
    Seq::new(l.len(), |i: int| l[i]@)
}

/// Whitespace separates tokens.
pub open spec fn spec_is_space(c: char) -> bool {
    c == ' ' || c == '\t' || c == '\n' || c == '\r'
}

/// An opening bracket.
pub open spec fn spec_is_opener(c: char) -> bool {
    c == '(' || c == '['
}

/// A closing bracket.
pub open spec fn spec_is_closer(c: char) -> bool {
    c == ')' || c == ']'
}

/// A character that can stand in an atom: anything but whitespace,
/// brackets, the quote marker and the string delimiter.
pub open spec fn spec_is_atom_char(c: char) -> bool {
    !spec_is_space(c) && !spec_is_opener(c) && !spec_is_closer(c) && c != '\'' && c != '"'
}

fn is_space(c: char) -> (r: bool)
    ensures
        r == spec_is_space(c),
{
    c == ' ' || c == '\t' || c == '\n' || c == '\r'
}

fn is_opener(c: char) -> (r: bool)
    ensures
        r == spec_is_opener(c),
{
    c == '(' || c == '['
}

fn is_closer(c: char) -> (r: bool)
    ensures
        r == spec_is_closer(c),
{
    c == ')' || c == ']'
}

fn is_atom_char(c: char) -> (r: bool)
    ensures
        r == spec_is_atom_char(c),
{
    !is_space(c) && !is_opener(c) && !is_closer(c) && c != '\'' && c != '"'
}

/// The length of the maximal atom run at the front of `s`.
pub open spec fn atom_len(s: Seq<char>) -> nat
    decreases s.len(),
{
    if s.len() > 0 && spec_is_atom_char(s[0]) {
        1 + atom_len(s.skip(1))
    } else {
        0
    }
}

/// The atom run is never longer than the text.
pub proof fn lemma_atom_len(s: Seq<char>)
    ensures
        atom_len(s) <= s.len(),
    decreases s.len(),
{
    if s.len() > 0 && spec_is_atom_char(s[0]) {
        lemma_atom_len(s.skip(1));
    }
}

/// The position of the first `"` in `s`, if any.
pub open spec fn find_dquote(s: Seq<char>) -> Option<nat>
    decreases s.len(),
{
    if s.len() == 0 {
        None
    } else if s[0] == '"' {
        Some(0nat)
    } else {
        match find_dquote(s.skip(1)) {
            Some(k) => Some((k + 1) as nat),
            None => None,
        }
    }
}

/// A found `"` lies inside the text and is the first one.
pub proof fn lemma_find_dquote(s: Seq<char>)
    ensures
        match find_dquote(s) {
            Some(k) => k < s.len() && s[k as int] == '"' && forall|j: int|
                0 <= j < k ==> s[j] != '"',
            None => forall|j: int| 0 <= j < s.len() ==> s[j] != '"',
        },
    decreases s.len(),
{
    if s.len() > 0 && s[0] != '"' {
        lemma_find_dquote(s.skip(1));
        match find_dquote(s.skip(1)) {
            Some(k) => {
                assert forall|j: int| 0 <= j < k + 1 implies s[j] != '"' by {
                    if j > 0 {
                        assert(s.skip(1)[j - 1] != '"');
                    }
                }
            },
            None => {
                assert forall|j: int| 0 <= j < s.len() implies s[j] != '"' by {
                    if j > 0 {
                        assert(s.skip(1)[j - 1] != '"');
                    }
                }
            },
        }
    }
}

/// Prepend a token to a tokenizing result, keeping a failure as it is.
pub open spec fn tok_cons(
    t: TokenV,
    rest: Result<Seq<TokenV>, SyntaxError>,
) -> Result<Seq<TokenV>, SyntaxError> {
    match rest {
        Ok(ts) => Ok(seq![t] + ts),
        Err(e) => Err(e),
    }
}

/// The token sequence of a text: whitespace is dropped, brackets and the
/// quote marker are single characters, a `"` opens a string that runs to
/// the next `"` (failing if there is none), and anything else starts a
/// maximal atom.
pub open spec fn spec_tokenize(s: Seq<char>) -> Result<Seq<TokenV>, SyntaxError>
    decreases s.len(),
    via spec_tokenize_decreases
{
    if s.len() == 0 {
        Ok(Seq::empty())
    } else if spec_is_space(s[0]) {
        spec_tokenize(s.skip(1))
    } else if spec_is_opener(s[0]) {
        tok_cons(TokenV::Lbr(s[0]), spec_tokenize(s.skip(1)))
    } else if spec_is_closer(s[0]) {
        tok_cons(TokenV::Rbr(s[0]), spec_tokenize(s.skip(1)))
    } else if s[0] == '\'' {
        tok_cons(TokenV::Qot, spec_tokenize(s.skip(1)))
    } else if s[0] == '"' {
        match find_dquote(s.skip(1)) {
            Some(k) => tok_cons(
                TokenV::Str(s.skip(1).take(k as int)),
                spec_tokenize(s.skip(k as int + 2)),
            ),
            None => Err(SyntaxError::UnterminatedString),
        }
    } else {
        tok_cons(TokenV::Atm(s.take(atom_len(s) as int)), spec_tokenize(s.skip(atom_len(s) as int)))
    }
}

#[via_fn]
proof fn spec_tokenize_decreases(s: Seq<char>) {
    if s.len() > 0 {
        if s[0] == '"' {
            lemma_find_dquote(s.skip(1));
        }
        lemma_atom_len(s);
    }
}

/// The result of tokenizing, seen at the view level.
pub open spec fn tokens_view(r: Result<Vec<Token>, SyntaxError>) -> Result<
    Seq<TokenV>,
    SyntaxError,
> {
    match r {
        Ok(v) => Ok(view_tokens(v@)),
        Err(e) => Err(e),
    }
}

/// Tokenize a text, already split into characters.
pub fn tokenize(chars: &Vec<char>) -> (r: Result<Vec<Token>, SyntaxError>)
    ensures
        tokens_view(r) == spec_tokenize(chars@),
{
    let n = chars.len();
    let mut toks: Vec<Token> = Vec::new();
    let mut i: usize = 0;
    proof {
        assert(chars@.skip(0) =~= chars@);
        if let Ok(rest) = spec_tokenize(chars@) {
            assert(view_tokens(toks@) + rest =~= rest);
        }
    }
    while i < n
        invariant
            0 <= i <= n,
            n == chars@.len(),
            spec_tokenize(chars@) == (match spec_tokenize(chars@.skip(i as int)) {
                Ok(rest) => Ok::<Seq<TokenV>, SyntaxError>(view_tokens(toks@) + rest),
                Err(e) => Err(e),
            }),
        decreases n - i,
    {
        let ghost pre = chars@.skip(i as int);
        let c = chars[i];
        proof {
            assert(pre[0] == c);
        }
        if is_space(c) {
            proof {
                assert(pre.skip(1) =~= chars@.skip(i as int + 1));
            }
            i = i + 1;
        } else if is_opener(c) || is_closer(c) || c == '\'' {
            let t = if is_opener(c) {
                Token::Lbr(c)
            } else if is_closer(c) {
                Token::Rbr(c)
            } else {
                Token::Qot
            };
            proof {
                assert(pre.skip(1) =~= chars@.skip(i as int + 1));
                assert(spec_tokenize(pre) == tok_cons(t@, spec_tokenize(chars@.skip(i as int + 1))));
            }
            let ghost toks0 = toks@;
            toks.push(t);
            proof {
                assert(view_tokens(toks@) =~= view_tokens(toks0).push(t@));
                if let Ok(rest) = spec_tokenize(chars@.skip(i as int + 1)) {
                    assert(view_tokens(toks@) + rest =~= view_tokens(toks0) + (seq![t@] + rest));
                }
            }
            i = i + 1;
        } else if c == '"' {
            proof {
                lemma_find_dquote(pre.skip(1));
            }
            let mut j: usize = i + 1;
            while j < n && chars[j] != '"'
                invariant
                    i + 1 <= j <= n,
                    n == chars@.len(),
                    forall|k: int| i + 1 <= k < j ==> chars@[k] != '"',
                decreases n - j,
            {
                j = j + 1;
            }
            if j == n {
                proof {
                    lemma_find_dquote(pre.skip(1));
                    assert forall|k: int| 0 <= k < pre.skip(1).len() implies pre.skip(1)[k]
                        != '"' by {
                        assert(pre.skip(1)[k] == chars@[i + 1 + k]);
                    }
                    assert(find_dquote(pre.skip(1)) is None);
                }
                return Err(SyntaxError::UnterminatedString);
            }
            proof {
                lemma_find_dquote(pre.skip(1));
                assert(pre.skip(1)[j - i - 1] == chars@[j as int]);
                assert forall|k: int| 0 <= k < j - i - 1 implies pre.skip(1)[k] != '"' by {
                    assert(pre.skip(1)[k] == chars@[i + 1 + k]);
                }
                match find_dquote(pre.skip(1)) {
                    Some(fk) => {
                        assert(!(fk < j - i - 1)) by {
                            if fk < j - i - 1 {
                                assert(pre.skip(1)[fk as int] == '"');
                            }
                        }
                        assert(!(fk > j - i - 1)) by {
                            if fk > j - i - 1 {
                                assert(pre.skip(1)[j - i - 1] != '"');
                            }
                        }
                        assert(fk == j - i - 1);
                    },
                    None => {
                        assert(pre.skip(1)[j - i - 1] != '"');
                        assert(false);
                    },
                }
            }
            let mut sub: Vec<char> = Vec::new();
            let mut k: usize = i + 1;
            while k < j
                invariant
                    i + 1 <= k <= j <= n,
                    n == chars@.len(),
                    sub@ == chars@.subrange(i as int + 1, k as int),
                decreases j - k,
            {
                sub.push(chars[k]);
                proof {
                    assert(sub@ =~= chars@.subrange(i as int + 1, k as int + 1));
                }
                k = k + 1;
            }
            let t = Token::Str(sub);
            proof {
                assert(t@ == TokenV::Str(pre.skip(1).take(j - i - 1))) by {
                    assert(chars@.subrange(i as int + 1, j as int) =~= pre.skip(1).take(
                        j - i - 1,
                    ));
                }
                assert(pre.skip(j - i + 1) =~= chars@.skip(j as int + 1));
                assert(spec_tokenize(pre) == tok_cons(t@, spec_tokenize(chars@.skip(j as int + 1))));
            }
            let ghost toks0 = toks@;
            toks.push(t);
            proof {
                assert(view_tokens(toks@) =~= view_tokens(toks0).push(t@));
                if let Ok(rest) = spec_tokenize(chars@.skip(j as int + 1)) {
                    assert(view_tokens(toks@) + rest =~= view_tokens(toks0) + (seq![t@] + rest));
                }
            }
            i = j + 1;
        } else {
            let mut j: usize = i;
            while j < n && is_atom_char(chars[j])
                invariant
                    i <= j <= n,
                    n == chars@.len(),
                    atom_len(chars@.skip(i as int)) == (j - i) + atom_len(chars@.skip(j as int)),
                    forall|k: int| i <= k < j ==> spec_is_atom_char(chars@[k]),
                decreases n - j,
            {
                proof {
                    let sj = chars@.skip(j as int);
                    assert(sj[0] == chars@[j as int]);
                    assert(sj.skip(1) =~= chars@.skip(j as int + 1));
                    assert(atom_len(sj) == 1 + atom_len(chars@.skip(j as int + 1)));
                }
                j = j + 1;
            }
            proof {
                let sj = chars@.skip(j as int);
                if j < n {
                    assert(sj[0] == chars@[j as int]);
                    assert(atom_len(sj) == 0);
                } else {
                    assert(sj.len() == 0);
                    assert(atom_len(sj) == 0);
                }
                assert(atom_len(pre) == j - i);
            }
            let mut sub: Vec<char> = Vec::new();
            let mut k: usize = i;
            while k < j
                invariant
                    i <= k <= j <= n,
                    n == chars@.len(),
                    sub@ == chars@.subrange(i as int, k as int),
                decreases j - k,
            {
                sub.push(chars[k]);
                proof {
                    assert(sub@ =~= chars@.subrange(i as int, k as int + 1));
                }
                k = k + 1;
            }
            let t = Token::Atm(sub);
            proof {
                assert(t@ == TokenV::Atm(pre.take(atom_len(pre) as int))) by {
                    assert(chars@.subrange(i as int, j as int) =~= pre.take(j - i));
                }
                assert(pre.skip(j - i) =~= chars@.skip(j as int));
                assert(spec_tokenize(pre) == tok_cons(t@, spec_tokenize(chars@.skip(j as int))));
            }
            let ghost toks0 = toks@;
            toks.push(t);
            proof {
                assert(view_tokens(toks@) =~= view_tokens(toks0).push(t@));
                if let Ok(rest) = spec_tokenize(chars@.skip(j as int)) {
                    assert(view_tokens(toks@) + rest =~= view_tokens(toks0) + (seq![t@] + rest));
                }
            }
            i = j;
        }
    }
    proof {
        assert(chars@.skip(n as int) =~= Seq::<char>::empty());
        assert(view_tokens(toks@) + Seq::<TokenV>::empty() =~= view_tokens(toks@));
    }
    Ok(toks)
}

} // verus!
