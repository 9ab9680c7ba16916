//! Splitting a statement into tokens.

use vstd::prelude::*;

verus! {

/// A keyword of the language.
#[derive(Debug, Clone, Copy, PartialEq, Eq, Structural)]
pub enum KwKind {
    Let,
    In,
    True,
    False,
}

/// A token as the lexer hands it to the parser.
#[derive(Debug, PartialEq, Eq)]
pub enum Token {
    Int(i64),
    Punct(String),
    Kw(KwKind),
    Ident(String),
}

/// What a token stands for, with its text as a sequence of characters.
pub enum Tok {
    Int(i64),
    Punct(Seq<char>),
    Kw(KwKind),
    Ident(Seq<char>),
}

impl View for Token {
    type V = Tok;

    open spec fn view(&self) -> Tok {
        match self {
            Token::Int(i) => Tok::Int(*i),
            Token::Punct(p) => Tok::Punct(p@),
            Token::Kw(k) => Tok::Kw(*k),
            Token::Ident(name) => Tok::Ident(name@),
        }
    }
}

/// What a sequence of tokens stands for.
pub open spec fn toks_of(ts: Seq<Token>) -> Seq<Tok> {
    ts.map_values(|t: Token| t@)
}

pub proof fn lemma_toks_of(ts: Seq<Token>)
    ensures
        toks_of(ts).len() == ts.len(),
        forall|i: int| 0 <= i < ts.len() ==> #[trigger] toks_of(ts)[i] == ts[i]@,
{
}

/// The input could not be split into tokens; `rest` is the input from the
/// point where it failed on.
#[derive(Debug, PartialEq, Eq)]
pub struct LexError {
    pub rest: String,
}

pub open spec fn is_space(c: char) -> bool {
    c == ' ' || c == '\t' || c == '\n' || c == '\r' || c == '\x0C'
}

pub open spec fn is_digit(c: char) -> bool {
    '0' <= c <= '9'
}

pub open spec fn is_alpha(c: char) -> bool {
    ('a' <= c <= 'z') || ('A' <= c <= 'Z')
}

pub open spec fn digit_value(c: char) -> int {
    c as int - '0' as int
}

/// A punctuator of one character.
pub open spec fn is_single_punct(c: char) -> bool {
    c == '+' || c == '-' || c == '*' || c == '/' || c == '=' || c == '[' || c == ']' || c == ';'
        || c == '(' || c == ')'
}

/// `==` or `!=` starts at `i`.
pub open spec fn is_double_punct(s: Seq<char>, i: int) -> bool {
    0 <= i && i + 1 < s.len() && (s[i] == '=' || s[i] == '!') && s[i + 1] == '='
}

/// A run of letters: a keyword, or else an identifier.
pub open spec fn word_tok(w: Seq<char>) -> Tok {
    if w == "let"@ {
        Tok::Kw(KwKind::Let)
    } else if w == "in"@ {
        Tok::Kw(KwKind::In)
    } else if w == "true"@ {
        Tok::Kw(KwKind::True)
    } else if w == "false"@ {
        Tok::Kw(KwKind::False)
    } else {
        Tok::Ident(w)
    }
}

/// `t` in front of the tokens of `r`, where `r` succeeded.
pub open spec fn prepend(t: Tok, r: Result<Seq<Tok>, Seq<char>>) -> Result<Seq<Tok>, Seq<char>> {
    match r {
        Ok(ts) => Ok(seq![t] + ts),
        Err(rest) => Err(rest),
    }
}

/// `prefix` in front of the tokens of `r`, where `r` succeeded.
pub open spec fn prepend_all(prefix: Seq<Tok>, r: Result<Seq<Tok>, Seq<char>>) -> Result<
    Seq<Tok>,
    Seq<char>,
> {
    match r {
        Ok(ts) => Ok(prefix + ts),
        Err(rest) => Err(rest),
    }
}

/// The tokens of `s` from position `i` on, or the remainder of `s` from the
/// first character that no token can start with (or from the start of a
/// digit run that does not fit in an `i64`).
pub open spec fn lex_from(s: Seq<char>, i: int) -> Result<Seq<Tok>, Seq<char>>
    decreases s.len() - i, 0int,
{
    if i < 0 || i >= s.len() {
        Ok(Seq::empty())
    } else if is_space(s[i]) {
        lex_from(s, i + 1)
    } else if is_digit(s[i]) {
        lex_int(s, i, i + 1, digit_value(s[i]))
    } else if is_double_punct(s, i) {
        prepend(Tok::Punct(s.subrange(i, i + 2)), lex_from(s, i + 2))
    } else if is_single_punct(s[i]) {
        prepend(Tok::Punct(seq![s[i]]), lex_from(s, i + 1))
    } else if is_alpha(s[i]) {
        lex_word(s, i, i + 1)
    } else {
        Err(s.skip(i))
    }
}

/// Within a digit run that started at `start`, at `j`, with the value `acc`
/// of the digits before `j`.
pub open spec fn lex_int(s: Seq<char>, start: int, j: int, acc: int) -> Result<
    Seq<Tok>,
    Seq<char>,
>
    decreases s.len() - j, 1int,
{
    if 0 <= j < s.len() && is_digit(s[j]) {
        if acc * 10 + digit_value(s[j]) > i64::MAX {
            Err(s.skip(start))
        } else {
            lex_int(s, start, j + 1, acc * 10 + digit_value(s[j]))
        }
    } else if j < 0 || j > s.len() {
        Ok(Seq::empty())
    } else {
        prepend(Tok::Int(acc as i64), lex_from(s, j))
    }
}

/// Within a run of letters that started at `start`, at `j`.
pub open spec fn lex_word(s: Seq<char>, start: int, j: int) -> Result<Seq<Tok>, Seq<char>>
    decreases s.len() - j, 1int,
{
    if 0 <= j < s.len() && is_alpha(s[j]) {
        lex_word(s, start, j + 1)
    } else if j < 0 || j > s.len() {
        Ok(Seq::empty())
    } else {
        prepend(word_tok(s.subrange(start, j)), lex_from(s, j))
    }
}

/// The tokens of a whole statement.
pub open spec fn lex(s: Seq<char>) -> Result<Seq<Tok>, Seq<char>> {
    lex_from(s, 0)
}


proof fn lemma_prepend_all(prefix: Seq<Tok>, t: Tok, r: Result<Seq<Tok>, Seq<char>>)
    ensures
        prepend_all(prefix, prepend(t, r)) == prepend_all(prefix.push(t), r),
{
    match r {
        Ok(ts) => {
            assert(prefix + (seq![t] + ts) =~= prefix.push(t) + ts);
        },
        Err(_) => {},
    }
}

fn is_space_char(c: char) -> (r: bool)
    ensures
        r == is_space(c),
{
    c == ' ' || c == '\t' || c == '\n' || c == '\r' || c == '\x0C'
}

fn is_digit_char(c: char) -> (r: bool)
    ensures
        r == is_digit(c),
{
    '0' <= c && c <= '9'
}

fn is_alpha_char(c: char) -> (r: bool)
    ensures
        r == is_alpha(c),
{
    ('a' <= c && c <= 'z') || ('A' <= c && c <= 'Z')
}

fn is_single_punct_char(c: char) -> (r: bool)
    ensures
        r == is_single_punct(c),
{
    c == '+' || c == '-' || c == '*' || c == '/' || c == '=' || c == '[' || c == ']' || c == ';'
        || c == '(' || c == ')'
}

/// Whether `w` and `k` hold the same characters.
pub(crate) fn same_text(w: &str, k: &str) -> (r: bool)
    ensures
        r == (w@ == k@),
{
    let n = w.unicode_len();
    if n != k.unicode_len() {
        return false;
    }
    let mut i: usize = 0;
    while i < n
        invariant
            n == w@.len(),
            n == k@.len(),
            i <= n,
            forall|j: int| 0 <= j < i ==> w@[j] == k@[j],
        decreases n - i,
    {
        if w.get_char(i) != k.get_char(i) {
            return false;
        }
        i = i + 1;
    }
    assert(w@ =~= k@);
    true
}

/// The token for a run of letters: a keyword, or else an identifier.
fn word_token(w: String) -> (t: Token)
    ensures
        t@ == word_tok(w@),
{
    if same_text(w.as_str(), "let") {
        Token::Kw(KwKind::Let)
    } else if same_text(w.as_str(), "in") {
        Token::Kw(KwKind::In)
    } else if same_text(w.as_str(), "true") {
        Token::Kw(KwKind::True)
    } else if same_text(w.as_str(), "false") {
        Token::Kw(KwKind::False)
    } else {
        Token::Ident(w)
    }
}

/// The number that a run of decimal digits stands for.
pub open spec fn digits_value(d: Seq<char>) -> int
    decreases d.len(),
{
    if d.len() == 0 {
        0
    } else {
        digits_value(d.drop_last()) * 10 + digit_value(d.last())
    }
}

/// The end of the digit run that reaches position `i`.
pub open spec fn digit_run_end(s: Seq<char>, i: int) -> int
    decreases s.len() - i,
{
    if 0 <= i < s.len() && is_digit(s[i]) {
        digit_run_end(s, i + 1)
    } else {
        i
    }
}

/// From `j` on, the digit run that reaches `j` ends where `digit_run_end`
/// says: digits up to it, then the end of input or a non-digit.
proof fn lemma_digit_run_end(s: Seq<char>, j: int)
    requires
        0 <= j <= s.len(),
    ensures
        j <= digit_run_end(s, j) <= s.len(),
        forall|k: int| j <= k < digit_run_end(s, j) ==> is_digit(#[trigger] s[k]),
        digit_run_end(s, j) == s.len() || !is_digit(s[digit_run_end(s, j)]),
    decreases s.len() - j,
{
    if j < s.len() && is_digit(s[j]) {
        lemma_digit_run_end(s, j + 1);
    }
}

/// A digit run is worth at least as much as any of its prefixes.
proof fn lemma_digits_value_grows(s: Seq<char>, start: int, j: int, k: int)
    requires
        0 <= start <= j <= k <= s.len(),
        forall|q: int| start <= q < k ==> is_digit(#[trigger] s[q]),
    ensures
        digits_value(s.subrange(start, j)) <= digits_value(s.subrange(start, k)),
        0 <= digits_value(s.subrange(start, k)),
    decreases k - start,
{
    if k > start {
        lemma_digits_value_grows(s, start, if j < k { j } else { k - 1 }, k - 1);
        assert(s.subrange(start, k).drop_last() =~= s.subrange(start, k - 1));
        assert(s.subrange(start, k).last() == s[k - 1]);
    } else {
        assert(s.subrange(start, k).len() == 0);
    }
}

/// Reads the digit run that starts at `start` as an `i64`, and gives the
/// position after it; fails where the run's value does not fit.
fn take_integer_from(s: &str, start: usize) -> (r: Result<(i64, usize), LexError>)
    requires
        start < s@.len(),
        is_digit(s@[start as int]),
    ensures
        match r {
            Ok((v, j)) => {
                &&& start < j <= s@.len()
                &&& forall|k: int| start <= k < j ==> is_digit(#[trigger] s@[k])
                &&& j == s@.len() || !is_digit(s@[j as int])
                &&& v == digits_value(s@.subrange(start as int, j as int))
                &&& lex_from(s@, start as int) == prepend(Tok::Int(v), lex_from(s@, j as int))
            },
            Err(e) => {
                &&& e.rest@ == s@.skip(start as int)
                &&& digits_value(s@.subrange(start as int, digit_run_end(s@, start as int)))
                    > i64::MAX
                &&& lex_from(s@, start as int) == Err::<Seq<Tok>, Seq<char>>(e.rest@)
            },
        },
{
    let n = s.unicode_len();
    let mut acc: i64 = (s.get_char(start) as u32 - '0' as u32) as i64;
    let mut j: usize = start + 1;
    proof {
        let first = s@.subrange(start as int, j as int);
        assert(first.drop_last().len() == 0);
        assert(digits_value(first.drop_last()) == 0);
        assert(first.last() == s@[start as int]);
        assert(acc == digit_value(s@[start as int]));
    }
    while j < n && is_digit_char(s.get_char(j))
        invariant
            n == s@.len(),
            start < j <= n,
            0 <= acc,
            forall|k: int| start <= k < j ==> is_digit(#[trigger] s@[k]),
            acc == digits_value(s@.subrange(start as int, j as int)),
            lex_from(s@, start as int) == lex_int(s@, start as int, j as int, acc as int),
        decreases n - j,
    {
        let d = (s.get_char(j) as u32 - '0' as u32) as i64;
        let ghost whole = s@.subrange(start as int, j + 1);
        assert(whole.drop_last() =~= s@.subrange(start as int, j as int));
        assert(whole.last() == s@[j as int]);
        let next = match acc.checked_mul(10) {
            Some(m) => m.checked_add(d),
            None => None,
        };
        match next {
            Some(x) => {
                acc = x;
            },
            None => {
                proof {
                    assert(forall|k: int| start <= k < j + 1 ==> is_digit(#[trigger] s@[k]));
                    lemma_digit_run_end(s@, start as int);
                    let e = digit_run_end(s@, start as int);
                    assert(e >= j + 1) by {
                        if e < j + 1 {
                            assert(is_digit(s@[e]));
                        }
                    }
                    lemma_digits_value_grows(s@, start as int, j + 1, e);
                }
                return Err(LexError { rest: s.substring_char(start, n).to_owned() });
            },
        }
        j = j + 1;
    }
    Ok((acc, j))
}

/// Reads the run of letters that starts at `start`, and gives it and the
/// position after it; gives nothing where no letter stands at `start`.
fn take_identifier_from(s: &str, start: usize) -> (r: Option<(String, usize)>)
    requires
        start <= s@.len(),
    ensures
        r is None <==> (start == s@.len() || !is_alpha(s@[start as int])),
        match r {
            Some((w, j)) => {
                &&& start < j <= s@.len()
                &&& forall|k: int| start <= k < j ==> is_alpha(#[trigger] s@[k])
                &&& j == s@.len() || !is_alpha(s@[j as int])
                &&& w@ == s@.subrange(start as int, j as int)
                &&& lex_from(s@, start as int) == prepend(word_tok(w@), lex_from(s@, j as int))
            },
            None => true,
        },
{
    let n = s.unicode_len();
    if start == n || !is_alpha_char(s.get_char(start)) {
        return None;
    }
    let mut j: usize = start + 1;
    while j < n && is_alpha_char(s.get_char(j))
        invariant
            n == s@.len(),
            start < j <= n,
            forall|k: int| start <= k < j ==> is_alpha(#[trigger] s@[k]),
            lex_from(s@, start as int) == lex_word(s@, start as int, j as int),
        decreases n - j,
    {
        j = j + 1;
    }
    Some((s.substring_char(start, j).to_owned(), j))
}

/// Splits a statement into tokens.
pub fn tokenize(s: &str) -> (r: Result<Vec<Token>, LexError>)
    ensures
        match r {
            Ok(ts) => lex(s@) == Ok::<Seq<Tok>, Seq<char>>(toks_of(ts@)),
            Err(e) => lex(s@) == Err::<Seq<Tok>, Seq<char>>(e.rest@),
        },
{
    let n = s.unicode_len();
    let mut toks: Vec<Token> = Vec::new();
    let mut i: usize = 0;
    while i < n
        invariant
            n == s@.len(),
            i <= n,
            lex(s@) == prepend_all(toks_of(toks@), lex_from(s@, i as int)),
        decreases n - i,
    {
        let c = s.get_char(i);
        let ghost before = toks@;
        if is_space_char(c) {
            i = i + 1;
        } else if is_digit_char(c) {
            match take_integer_from(s, i) {
                Ok((v, j)) => {
                    toks.push(Token::Int(v));
                    proof {
                        lemma_prepend_all(toks_of(before), Tok::Int(v), lex_from(s@, j as int));
                        assert(toks_of(toks@) =~= toks_of(before).push(Tok::Int(v)));
                    }
                    i = j;
                },
                Err(e) => {
                    return Err(e);
                },
            }
        } else if (c == '=' || c == '!') && i + 1 < n && s.get_char(i + 1) == '=' {
            let p = s.substring_char(i, i + 2).to_owned();
            let ghost t = Tok::Punct(p@);
            toks.push(Token::Punct(p));
            proof {
                lemma_prepend_all(toks_of(before), t, lex_from(s@, i + 2));
                assert(toks_of(toks@) =~= toks_of(before).push(t));
            }
            i = i + 2;
        } else if is_single_punct_char(c) {
            let p = s.substring_char(i, i + 1).to_owned();
            let ghost t = Tok::Punct(p@);
            assert(p@ =~= seq![c]);
            toks.push(Token::Punct(p));
            proof {
                lemma_prepend_all(toks_of(before), t, lex_from(s@, i + 1));
                assert(toks_of(toks@) =~= toks_of(before).push(t));
            }
            i = i + 1;
        } else {
            match take_identifier_from(s, i) {
                Some((w, j)) => {
                    let ghost t = word_tok(w@);
                    let tok = word_token(w);
                    toks.push(tok);
                    proof {
                        lemma_prepend_all(toks_of(before), t, lex_from(s@, j as int));
                        assert(toks_of(toks@) =~= toks_of(before).push(t));
                    }
                    i = j;
                },
                None => {
                    return Err(LexError { rest: s.substring_char(i, n).to_owned() });
                },
            }
        }
    }
    assert(toks_of(toks@) + Seq::<Tok>::empty() =~= toks_of(toks@));
    Ok(toks)
}

} // verus!
