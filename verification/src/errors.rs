//! The error taxonomy: reader failures and evaluation failures.  Every
//! engine operation returns a `Result` whose error is one of these typed
//! failures; nothing in the engine panics or aborts.

use vstd::prelude::*;

verus! {

/// A failure raised by the tokenizer, the reader, or the key-description
/// parser.  Each variant carries the characters needed to report it
/// precisely.
#[derive(Clone, Copy, Debug, PartialEq, Eq, Structural)]
pub enum SyntaxError {
    /// A string literal was opened but never closed.
    UnterminatedString,
    /// A closing bracket appeared with no matching opener; carries the
    /// closer.
    ExtraCloser(char),
    /// A closing bracket did not pair with the innermost opener; carries the
    /// open delimiter found and the closer seen.
    Mismatch(char, char),
    /// A quote marker stood immediately before a closing bracket; carries
    /// the closer.
    QuotedCloser(char),
    /// At end of input a bracket was still open; carries the unmatched
    /// opener.
    UnmatchedOpener(char),
    /// A key description used an escape other than `\C`, `\S`, `\M` or
    /// `\\`; carries the offending character.
    UnknownEscape(char),
    /// A key description ended directly after a backslash.
    TruncatedEscape,
    /// A key-description modifier was not followed by `-`.
    ExpectedDash,
    /// A key description named no key at all.
    EmptyKey,
    /// A key description continued after its key character.
    TrailingKey,
}

/// A kind of type mismatch found during evaluation: a non-callable value in
/// function position, a builtin handed the wrong variant, or a failed
/// downcast of a host extension value.
#[derive(Clone, Copy, Debug, PartialEq, Eq, Structural)]
pub enum TypeMismatch {
    /// The head of a call evaluated to a value that cannot be applied.
    NotApplicable,
    /// An arithmetic or equality builtin received a non-integer.
    ExpectedInteger,
    /// A list builtin received a value it cannot decompose.
    ExpectedList,
    /// A definition builtin expected a symbol to bind.
    ExpectedSymbol,
    /// A key-binding builtin expected a key-description string.
    ExpectedString,
    /// An extension downcast found a different type tag than the one asked
    /// for.
    DowncastTag,
}

/// A failure raised while evaluating an expression.
#[derive(Debug, PartialEq, Eq)]
pub enum EvalError {
    /// A symbol in value position had no binding in any local namespace nor
    /// in the global one; carries the symbol's name.
    UnboundVariable(String),
    /// A symbol in function position named no global function; carries the
    /// name.
    UnboundFunction(String),
    /// A closure call ran out of arguments before its parameters were
    /// satisfied; carries the function's name and the first unsatisfied
    /// parameter's name.
    Arity(String, String),
    /// A value of the wrong kind reached a builtin or the function
    /// position.
    Type(TypeMismatch),
    /// The `lambda` builtin received a malformed parameter list or no body.
    MalformedLambda,
    /// A builtin required an argument that was not supplied.
    MissingArgument,
    /// A builtin parsed text (a key description) and found it ill-formed.
    Syntax(SyntaxError),
    /// Evaluation nested deeper than the engine's recursion budget.
    DepthExceeded,
}


/// The view of an evaluation failure: names as character sequences.
pub enum EvalErrV {
    UnboundVariable(Seq<char>),
    UnboundFunction(Seq<char>),
    Arity(Seq<char>, Seq<char>),
    Type(TypeMismatch),
    MalformedLambda,
    MissingArgument,
    Syntax(SyntaxError),
    DepthExceeded,
}

impl View for EvalError {
    type V = EvalErrV;

    open spec fn view(&self) -> EvalErrV {
        match self {
            EvalError::UnboundVariable(n) => EvalErrV::UnboundVariable(n@),
            EvalError::UnboundFunction(n) => EvalErrV::UnboundFunction(n@),
            EvalError::Arity(f, p) => EvalErrV::Arity(f@, p@),
            EvalError::Type(t) => EvalErrV::Type(*t),
            EvalError::MalformedLambda => EvalErrV::MalformedLambda,
            EvalError::MissingArgument => EvalErrV::MissingArgument,
            EvalError::Syntax(e) => EvalErrV::Syntax(*e),
            EvalError::DepthExceeded => EvalErrV::DepthExceeded,
        }
    }
}

} // verus!
