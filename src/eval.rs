//! One statement, end to end: the `;;` boundary, tokens, syntax tree,
//! evaluation and the line the toplevel prints.

use vstd::prelude::*;

use crate::bounds::Bounds;
use crate::eval_ast::{eval_ast, eval_expr, output_text, Env, EvalError, Fault};
use crate::lexer::{lex, tokenize, LexError};
use crate::parser::{parse, parse_spec, ParseError};

verus! {

/// Why a statement could not be evaluated.
#[derive(Debug, PartialEq, Eq)]
pub enum Error {
    /// The input holds no `;;`.
    Boundary,
    Lex(LexError),
    Parse(ParseError),
    Eval(EvalError),
}

/// What a statement failure stands for.
pub enum Failure {
    Boundary,
    Lex(Seq<char>),
    Parse(ParseError),
    Eval(Fault),
}

impl Error {
    pub open spec fn failure(&self) -> Failure {
        match self {
            Error::Boundary => Failure::Boundary,
            Error::Lex(e) => Failure::Lex(e.rest@),
            Error::Parse(e) => Failure::Parse(*e),
            Error::Eval(e) => Failure::Eval(e.fault()),
        }
    }
}

/// The message for a parse failure.
pub open spec fn parse_error_text(e: ParseError) -> Seq<char> {
    match e {
        ParseError::ExpectedIdent => "Expected an identifier"@,
        ParseError::ExpectedEq => "Expected = after the head of a binding"@,
        ParseError::ListSeparator => "; is required as a delimiter"@,
        ParseError::ListElement => "Failed to parse a list"@,
        ParseError::UnclosedParen => "Expected )"@,
        ParseError::ExpectedPrimary => "Failed to parse a primary"@,
        ParseError::ExtraTokens => "Found extra tokens"@,
    }
}

/// The message for a statement failure, as the toplevel prints it after
/// `Error: `.
pub open spec fn failure_text(f: Failure) -> Seq<char> {
    match f {
        Failure::Boundary => "\";;\" is required at the end of an expression"@,
        Failure::Lex(rest) => "Failed to tokenize \""@ + rest + "\""@,
        Failure::Parse(e) => parse_error_text(e),
        Failure::Eval(Fault::TypeMismatch) => "This expression has a type other than expected"@,
        Failure::Eval(Fault::Unbound(name)) => "Unbound value "@ + name,
        Failure::Eval(Fault::DivisionByZero) => "Division by zero"@,
    }
}

impl Error {
    /// The message for this failure, as `failure_text` gives it.
    pub fn message(&self) -> (r: String)
        ensures
            r@ == failure_text(self.failure()),
    {
        proof {
            reveal_strlit("\";;\" is required at the end of an expression");
            reveal_strlit("Failed to tokenize \"");
            reveal_strlit("\"");
            reveal_strlit("Expected an identifier");
            reveal_strlit("Expected = after the head of a binding");
            reveal_strlit("; is required as a delimiter");
            reveal_strlit("Failed to parse a list");
            reveal_strlit("Expected )");
            reveal_strlit("Failed to parse a primary");
            reveal_strlit("Found extra tokens");
            reveal_strlit("This expression has a type other than expected");
            reveal_strlit("Unbound value ");
            reveal_strlit("Division by zero");
        }
        match self {
            Error::Boundary => String::from_str("\";;\" is required at the end of an expression"),
            Error::Lex(e) => {
                let mut s = String::from_str("Failed to tokenize \"");
                s.append(e.rest.as_str());
                s.append("\"");
                s
            },
            Error::Parse(e) => String::from_str(
                match e {
                    ParseError::ExpectedIdent => "Expected an identifier",
                    ParseError::ExpectedEq => "Expected = after the head of a binding",
                    ParseError::ListSeparator => "; is required as a delimiter",
                    ParseError::ListElement => "Failed to parse a list",
                    ParseError::UnclosedParen => "Expected )",
                    ParseError::ExpectedPrimary => "Failed to parse a primary",
                    ParseError::ExtraTokens => "Found extra tokens",
                },
            ),
            Error::Eval(EvalError::TypeMismatch) => String::from_str("This expression has a type other than expected"),
            Error::Eval(EvalError::Unbound(name)) => {
                let mut s = String::from_str("Unbound value ");
                s.append(name.as_str());
                s
            },
            Error::Eval(EvalError::DivisionByZero) => String::from_str("Division by zero"),
        }
    }
}

/// `;;` starts at `i`.
pub open spec fn terminator_at(s: Seq<char>, i: int) -> bool {
    0 <= i && i + 1 < s.len() && s[i] == ';' && s[i + 1] == ';'
}

/// The first `;;` at or after `i`.
pub open spec fn find_terminator(s: Seq<char>, i: int) -> Option<int>
    decreases s.len() - i,
{
    if i < 0 || i + 1 >= s.len() {
        None
    } else if terminator_at(s, i) {
        Some(i)
    } else {
        find_terminator(s, i + 1)
    }
}

/// A character of the Unicode `White_Space` property, the characters that
/// `str::trim` removes.
pub open spec fn is_white_space(c: char) -> bool {
    ('\t' <= c && c <= '\r') || c == ' ' || c == '\u{85}' || c == '\u{A0}' || c == '\u{1680}'
        || ('\u{2000}' <= c && c <= '\u{200A}') || c == '\u{2028}' || c == '\u{2029}' || c == '\u{202F}'
        || c == '\u{205F}' || c == '\u{3000}'
}

fn is_white_space_char(c: char) -> (r: bool)
    ensures
        r == is_white_space(c),
{
    ('\t' <= c && c <= '\r') || c == ' ' || c == '\u{85}' || c == '\u{A0}' || c == '\u{1680}'
        || ('\u{2000}' <= c && c <= '\u{200A}') || c == '\u{2028}' || c == '\u{2029}' || c == '\u{202F}'
        || c == '\u{205F}' || c == '\u{3000}'
}

/// `s` without its leading whitespace.
pub open spec fn trim_start(s: Seq<char>) -> Seq<char>
    decreases s.len(),
{
    if s.len() > 0 && is_white_space(s[0]) {
        trim_start(s.drop_first())
    } else {
        s
    }
}

/// `s` without its trailing whitespace.
pub open spec fn trim_end(s: Seq<char>) -> Seq<char>
    decreases s.len(),
{
    if s.len() > 0 && is_white_space(s.last()) {
        trim_end(s.drop_last())
    } else {
        s
    }
}

/// The statement in `input`: the text before the first `;;`, trimmed.
pub open spec fn statement(input: Seq<char>) -> Option<Seq<char>> {
    match find_terminator(input, 0) {
        Some(i) => Some(trim_end(trim_start(input.take(i)))),
        None => None,
    }
}

/// Evaluates one statement against `env`: the environment after it, and
/// the line the toplevel prints.
pub open spec fn run(input: Seq<char>, env: Env) -> (Env, Result<Seq<char>, Failure>) {
    match statement(input) {
        None => (env, Err(Failure::Boundary)),
        Some(text) => match lex(text) {
            Err(rest) => (env, Err(Failure::Lex(rest))),
            Ok(toks) => match parse_spec(toks) {
                Err(e) => (env, Err(Failure::Parse(e))),
                Ok(e) => {
                    let (env2, r) = eval_expr(e, env);
                    (
                        env2,
                        match r {
                            Ok(res) => Ok(output_text(res)),
                            Err(f) => Err(Failure::Eval(f)),
                        },
                    )
                },
            },
        },
    }
}

/// What an executable statement result stands for.
pub open spec fn printed(r: Result<String, Error>) -> Result<Seq<char>, Failure> {
    match r {
        Ok(s) => Ok(s@),
        Err(e) => Err(e.failure()),
    }
}

/// Finds the first `;;` in `s`.
fn find_end(s: &str) -> (r: Option<usize>)
    ensures
        match r {
            Some(i) => find_terminator(s@, 0) == Some(i as int) && terminator_at(s@, i as int),
            None => find_terminator(s@, 0) is None,
        },
{
    let n = s.unicode_len();
    let mut i: usize = 0;
    while n > 0 && i < n - 1
        invariant
            n == s@.len(),
            i <= n,
            find_terminator(s@, 0) == find_terminator(s@, i as int),
        decreases n - i,
    {
        if s.get_char(i) == ';' && s.get_char(i + 1) == ';' {
            return Some(i);
        }
        i = i + 1;
    }
    None
}

/// `s` without its leading and trailing whitespace.
fn trim(s: &str) -> (r: &str)
    ensures
        r@ == trim_end(trim_start(s@)),
{
    let n = s.unicode_len();
    let mut lo: usize = 0;
    assert(s@.skip(0) =~= s@);
    while lo < n && is_white_space_char(s.get_char(lo))
        invariant
            n == s@.len(),
            lo <= n,
            trim_start(s@) == trim_start(s@.skip(lo as int)),
        decreases n - lo,
    {
        assert(s@.skip(lo as int).drop_first() =~= s@.skip(lo + 1));
        lo = lo + 1;
    }
    let mut hi: usize = n;
    while hi > lo && is_white_space_char(s.get_char(hi - 1))
        invariant
            n == s@.len(),
            lo <= hi <= n,
            trim_start(s@) == s@.skip(lo as int),
            trim_end(trim_start(s@)) == trim_end(s@.subrange(lo as int, hi as int)),
        decreases hi,
    {
        assert(s@.subrange(lo as int, hi as int).drop_last() =~= s@.subrange(lo as int, hi - 1));
        hi = hi - 1;
    }
    s.substring_char(lo, hi)
}

/// Evaluates one statement, terminated by `;;`, against the environment, and
/// gives the line the toplevel prints. Only the global bindings that the
/// statement makes change the environment.
pub fn eval(input: String, bounds: &mut Bounds) -> (r: Result<String, Error>)
    ensures
        (final(bounds)@, printed(r)) == run(input@, old(bounds)@),
{
    let end = match find_end(input.as_str()) {
        Some(i) => i,
        None => {
            return Err(Error::Boundary);
        },
    };
    let text = trim(input.as_str().substring_char(0, end));
    let toks = match tokenize(text) {
        Ok(toks) => toks,
        Err(e) => {
            return Err(Error::Lex(e));
        },
    };
    let node = match parse(toks.as_slice()) {
        Ok(node) => node,
        Err(e) => {
            return Err(Error::Parse(e));
        },
    };
    match eval_ast(&node, bounds) {
        Ok(out) => Ok(out.to_string()),
        Err(e) => Err(Error::Eval(e)),
    }
}

} // verus!
