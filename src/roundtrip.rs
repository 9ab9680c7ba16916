//! How the text of a list literal, alone or with an integer added to it,
//! lexes, parses and is found as a statement.

use vstd::prelude::*;
use vstd::arithmetic::div_mod::lemma_fundamental_div_mod;

use crate::lexer::{
    digit_value, is_digit, is_double_punct, is_space, lex_from, lex_int, prepend, prepend_all, Tok,
};
use crate::lexer::lex;
use crate::parser::{
    is_punct, p_add, p_add_rest, p_bind, p_equal, p_equal_rest, p_expr, p_list_items,
    p_mul, p_mul_rest, p_primary, parse_spec, BinOp, Expr,
};
use crate::text::{decimal, digit_char, digits, items_text, list_text};
use crate::eval::{find_terminator, statement, terminator_at, trim_end, trim_start};
use crate::value::List;

verus! {

proof fn lemma_digit_char(d: nat)
    requires
        d < 10,
    ensures
        is_digit(digit_char(d)),
        digit_value(digit_char(d)) == d,
{
}

proof fn lemma_digits_len(n: nat)
    ensures
        digits(n).len() >= 1,
        forall|k: int| 0 <= k < digits(n).len() ==> is_digit(#[trigger] digits(n)[k]),
    decreases n,
{
    if n < 10 {
        lemma_digit_char(n);
    } else {
        lemma_digits_len(n / 10);
        lemma_digit_char(n % 10);
        let a = digits(n / 10);
        let b = seq![digit_char(n % 10)];
        assert forall|k: int| 0 <= k < digits(n).len() implies is_digit(#[trigger] digits(n)[k]) by {
            if k < a.len() {
                assert(digits(n)[k] == a[k]);
            } else {
                assert(digits(n)[k] == b[k - a.len()]);
            }
        }
    }
}

/// Within a digit run, reading the digits of `n` from `j` on with nothing
/// read before takes the accumulated value to `n`.
proof fn lemma_lex_digits(s: Seq<char>, start: int, j: int, n: nat)
    requires
        0 <= j,
        j + digits(n).len() <= s.len(),
        s.subrange(j, j + digits(n).len()) == digits(n),
        n <= i64::MAX,
    ensures
        lex_int(s, start, j, 0) == lex_int(s, start, j + digits(n).len(), n as int),
    decreases n,
{
    if n < 10 {
        lemma_digit_char(n);
        assert(s[j] == s.subrange(j, j + 1)[0]);
    } else {
        let m = n / 10;
        let d = n % 10;
        let a = digits(m);
        lemma_fundamental_div_mod(n as int, 10);
        assert(s.subrange(j, j + a.len()) =~= a) by {
            assert forall|k: int| 0 <= k < a.len() implies s.subrange(j, j + a.len())[k] == a[k] by {
                assert(s.subrange(j, j + digits(n).len())[k] == digits(n)[k]);
            }
        }
        lemma_lex_digits(s, start, j, m);
        lemma_digit_char(d);
        let p = j + a.len();
        assert(s[p] == s.subrange(j, j + digits(n).len())[a.len() as int]);
        assert(s[p] == digit_char(d));
        assert(m * 10 + d == n);
    }
}

/// The digits of `n`, followed by something other than a digit, lex to
/// the integer `n`.
proof fn lemma_lex_number(s: Seq<char>, i: int, n: nat)
    requires
        0 <= i,
        i + digits(n).len() <= s.len(),
        s.subrange(i, i + digits(n).len()) == digits(n),
        n <= i64::MAX,
        i + digits(n).len() == s.len() || !is_digit(s[i + digits(n).len()]),
    ensures
        lex_from(s, i) == prepend(Tok::Int(n as i64), lex_from(s, i + digits(n).len())),
{
    lemma_digits_len(n);
    assert(s[i] == s.subrange(i, i + digits(n).len())[0]);
    assert(is_digit(s[i]));
    assert(lex_int(s, i, i, 0) == lex_int(s, i, i + 1, digit_value(s[i])));
    lemma_lex_digits(s, i, i, n);
}

/// The tokens of the elements of a list literal: each an integer, after a
/// `;` for all but the first.
pub open spec fn items_toks(items: Seq<i64>, first: bool) -> Seq<Tok>
    decreases items.len(),
{
    if items.len() == 0 {
        Seq::empty()
    } else {
        (if first { Seq::empty() } else { seq![Tok::Punct(seq![';'])] }) + seq![Tok::Int(items[0])]
            + items_toks(items.drop_first(), false)
    }
}

/// The elements of a list as the toplevel writes them lex back to their
/// tokens, where the text is followed by `]`.
proof fn lemma_lex_items(s: Seq<char>, i: int, items: Seq<i64>, first: bool)
    requires
        0 <= i,
        i + items_text(items, first).len() < s.len(),
        s.subrange(i, i + items_text(items, first).len()) == items_text(items, first),
        s[i + items_text(items, first).len()] == ']',
        forall|k: int| 0 <= k < items.len() ==> items[k] >= 0,
    ensures
        lex_from(s, i) == prepend_all(
            items_toks(items, first),
            lex_from(s, i + items_text(items, first).len()),
        ),
    decreases items.len(),
{
    let t = items_text(items, first);
    if items.len() == 0 {
        assert(items_toks(items, first) =~= Seq::<Tok>::empty());
        match lex_from(s, i) {
            Ok(ts) => {
                assert(Seq::<Tok>::empty() + ts =~= ts);
            },
            Err(_) => {},
        }
    } else {
        let x = items[0];
        let rest = items.drop_first();
        let sep: Seq<char> = if first { Seq::empty() } else { seq![';', ' '] };
        let num = decimal(x as int);
        let t2 = items_text(rest, false);
        assert(num == digits(x as nat));
        assert(t == sep + num + t2);
        let j = i + sep.len();
        let k = j + num.len();
        assert forall|q: int| 0 <= q < t.len() implies s[i + q] == #[trigger] t[q] by {
            assert(s.subrange(i, i + t.len())[q] == t[q]);
        }
        assert(s.subrange(j, k) =~= num) by {
            assert forall|q: int| 0 <= q < num.len() implies s.subrange(j, k)[q] == num[q] by {
                assert(s[i + (sep.len() + q)] == t[sep.len() + q]);
            }
        }
        assert(s.subrange(k, k + t2.len()) =~= t2) by {
            assert forall|q: int| 0 <= q < t2.len() implies s.subrange(k, k + t2.len())[q] == t2[q] by {
                assert(s[i + (sep.len() + num.len() + q)] == t[sep.len() + num.len() + q]);
            }
        }
        if rest.len() == 0 {
            assert(t2.len() == 0);
            assert(s[k] == ']');
        } else {
            assert(t2[0] == ';');
            assert(s[k] == t[(sep.len() + num.len()) as int]);
        }
        lemma_lex_number(s, j, x as nat);
        lemma_lex_items(s, k, rest, false);
        let r = lex_from(s, k + t2.len());
        let body = seq![Tok::Int(x)] + items_toks(rest, false);
        if first {
            assert(items_toks(items, first) =~= body);
            match r {
                Ok(ts) => {
                    assert(seq![Tok::Int(x)] + (items_toks(rest, false) + ts) =~= body + ts);
                },
                Err(_) => {},
            }
        } else {
            assert(t[0] == ';' && t[1] == ' ');
            assert(s[i + 0] == t[0] && s[i + 1] == t[1]);
            assert(s[i] == ';' && s[i + 1] == ' ');
            assert(!is_double_punct(s, i));
            assert(i + 1 < s.len());
            assert(is_space(s[i + 1]));
            assert(lex_from(s, i + 1) == lex_from(s, i + 2));
            assert(items_toks(items, first) =~= seq![Tok::Punct(seq![';'])] + body);
            assert(s.subrange(i, i + 1) =~= seq![';']);
            match r {
                Ok(ts) => {
                    assert(seq![Tok::Punct(seq![';'])] + (seq![Tok::Int(x)] + (items_toks(rest, false) + ts))
                        =~= seq![Tok::Punct(seq![';'])] + body + ts);
                },
                Err(_) => {},
            }
        }
    }
}


/// The tokens of a list literal.
pub open spec fn list_toks(items: Seq<i64>) -> Seq<Tok> {
    seq![Tok::Punct(seq!['['])] + items_toks(items, true) + seq![Tok::Punct(seq![']'])]
}

pub(crate) proof fn lemma_lex_list(items: Seq<i64>)
    requires
        forall|k: int| 0 <= k < items.len() ==> items[k] >= 0,
    ensures
        lex(list_text(items)) == Ok::<Seq<Tok>, Seq<char>>(list_toks(items)),
{
    let s = list_text(items);
    let t = items_text(items, true);
    let e: int = 1 + t.len() as int;
    assert(s == seq!['['] + t + seq![']']);
    assert(s.subrange(1, e) =~= t);
    assert(s[e] == ']');
    assert(s[0] == '[');
    assert(!is_double_punct(s, 0));
    assert(s.subrange(0, 1) =~= seq!['[']);
    lemma_lex_items(s, 1, items, true);
    assert(!is_double_punct(s, e));
    assert(lex_from(s, e + 1) == Ok::<Seq<Tok>, Seq<char>>(Seq::empty()));
    assert(seq![Tok::Punct(seq![']'])] + Seq::<Tok>::empty() =~= seq![Tok::Punct(seq![']'])]);
    assert(seq![Tok::Punct(seq!['['])] + (items_toks(items, true) + seq![Tok::Punct(seq![']'])])
        =~= list_toks(items));
}

/// The tokens of the elements, followed by `]`, parse to a list that holds
/// the elements read before and these.
proof fn lemma_parse_items(t: Seq<Tok>, i: int, acc: Seq<i64>, items: Seq<i64>, first: bool)
    requires
        0 <= i,
        i + items_toks(items, first).len() < t.len(),
        t.subrange(i, i + items_toks(items, first).len()) == items_toks(items, first),
        t[i + items_toks(items, first).len()] == Tok::Punct(seq![']']),
    ensures
        p_list_items(t, i, acc, first) == Ok::<(Expr, int), crate::parser::ParseError>(
            (Expr::List(acc + items), i + items_toks(items, first).len() + 1),
        ),
    decreases items.len(),
{
    reveal_strlit("]");
    reveal_strlit(";");
    let it = items_toks(items, first);
    assert("]"@ =~= seq![']']);
    if items.len() == 0 {
        assert(it.len() == 0);
        assert(acc + items =~= acc);
    } else {
        let x = items[0];
        let rest = items.drop_first();
        let rt = items_toks(rest, false);
        let sep: Seq<Tok> = if first { Seq::empty() } else { seq![Tok::Punct(seq![';'])] };
        assert(it == sep + seq![Tok::Int(x)] + rt);
        let j = i + sep.len();
        assert(t[i + 0] == t.subrange(i, i + it.len())[0]);
        assert(t[j] == t.subrange(i, i + it.len())[sep.len() as int]);
        assert(t[j] == Tok::Int(x));
        assert(t.subrange(j + 1, j + 1 + rt.len()) =~= rt) by {
            assert forall|q: int| 0 <= q < rt.len() implies t.subrange(j + 1, j + 1 + rt.len())[q]
                == rt[q] by {
                assert(t.subrange(i, i + it.len())[sep.len() + 1 + q] == it[sep.len() + 1 + q]);
            }
        }
        lemma_parse_items(t, j + 1, acc.push(x), rest, false);
        assert(acc.push(x) + rest =~= acc + items);
        if first {
            assert(it[0] == Tok::Int(x));
            assert(!is_punct(t, i, "]"@));
        } else {
            assert(it[0] == Tok::Punct(seq![';']));
            assert(t[i] == Tok::Punct(seq![';']));
            assert("]"@[0] == ']');
            assert(!is_punct(t, i, "]"@));
            assert(";"@ =~= seq![';']);
            assert(is_punct(t, i, ";"@));
        }
    }
}

#[verifier::rlimit(40)]
pub(crate) proof fn lemma_parse_list(items: Seq<i64>)
    ensures
        parse_spec(list_toks(items)) == Ok::<Expr, crate::parser::ParseError>(Expr::List(items)),
{
    reveal_strlit("[");
    reveal_strlit("]");
    assert("["@ =~= seq!['[']);
    assert("]"@ =~= seq![']']);
    let t = list_toks(items);
    let it = items_toks(items, true);
    let n: int = t.len() as int;
    assert(n == it.len() + 2);
    assert(t.subrange(1, 1 + it.len() as int) =~= it);
    assert(t[1 + it.len() as int] == Tok::Punct(seq![']']));
    lemma_parse_items(t, 1, Seq::empty(), items, true);
    assert(Seq::<i64>::empty() + items =~= items);
    let l = Expr::List(items);
    assert(t[0] == Tok::Punct(seq!['[']));
    assert(p_primary(t, 0) == Ok::<(Expr, int), crate::parser::ParseError>((l, n)));
    assert(p_equal_rest(t, l, n) == Ok::<(Expr, int), crate::parser::ParseError>((l, n)));
    assert(p_equal(t, 0) == Ok::<(Expr, int), crate::parser::ParseError>((l, n)));
    assert(p_mul_rest(t, l, n) == Ok::<(Expr, int), crate::parser::ParseError>((l, n)));
    assert(p_mul(t, 0) == Ok::<(Expr, int), crate::parser::ParseError>((l, n)));
    assert(p_add_rest(t, l, n) == Ok::<(Expr, int), crate::parser::ParseError>((l, n)));
    assert(p_add(t, 0) == Ok::<(Expr, int), crate::parser::ParseError>((l, n)));
    assert(p_bind(t, 0) == Ok::<(Expr, int), crate::parser::ParseError>((l, n)));
    assert(p_expr(t, 0) == Ok::<(Expr, int), crate::parser::ParseError>((l, n)));
}

pub(crate) proof fn lemma_of_items(items: Seq<i64>)
    ensures
        List::of_items(items)@ == items,
    decreases items.len(),
{
    if items.len() > 0 {
        lemma_of_items(items.drop_first());
        assert(seq![items[0]] + items.drop_first() =~= items);
    }
}


proof fn lemma_items_text_separators(items: Seq<i64>, first: bool)
    ensures
        forall|q: int|
            0 <= q < items_text(items, first).len() && #[trigger] items_text(items, first)[q] == ';'
                ==> q + 1 < items_text(items, first).len() && items_text(items, first)[q + 1] == ' ',
    decreases items.len(),
{
    if items.len() > 0 {
        let rest = items.drop_first();
        lemma_items_text_separators(rest, false);
        let sep: Seq<char> = if first { Seq::empty() } else { seq![';', ' '] };
        let num = decimal(items[0] as int);
        let t2 = items_text(rest, false);
        let t = items_text(items, first);
        assert(t == sep + num + t2);
        assert(num == digits(items[0] as nat) || items[0] < 0);
        assert forall|q: int| 0 <= q < t.len() && #[trigger] t[q] == ';' implies q + 1 < t.len()
            && t[q + 1] == ' ' by {
            if q < sep.len() {
            } else if q < sep.len() + num.len() {
                if items[0] >= 0 {
                    lemma_digits_len(items[0] as nat);
                    assert(num[q - sep.len()] == t[q]);
                } else {
                    lemma_digits_len((-items[0]) as nat);
                    if q == sep.len() {
                        assert(num[0] == '-');
                    } else {
                        assert(num[q - sep.len()] == digits((-items[0]) as nat)[q - sep.len() - 1]);
                    }
                }
            } else {
                assert(t2[q - sep.len() - num.len()] == t[q]);
                assert(t[q + 1] == t2[q + 1 - sep.len() - num.len()]);
            }
        }
    }
}

proof fn lemma_no_terminator_before(s: Seq<char>, p: int, end: int)
    requires
        0 <= p <= end,
        terminator_at(s, end),
        forall|q: int| p <= q < end ==> !terminator_at(s, q),
    ensures
        find_terminator(s, p) == Some(end),
    decreases end - p,
{
    if p < end {
        lemma_no_terminator_before(s, p + 1, end);
    }
}

/// The text of a list followed by `;;` is a statement whose text is the list.
pub(crate) proof fn lemma_list_statement(items: Seq<i64>)
    ensures
        statement(list_text(items) + ";;"@) == Some(list_text(items)),
{
    reveal_strlit(";;");
    let lt = list_text(items);
    let t = items_text(items, true);
    let s = lt + ";;"@;
    let end = lt.len() as int;
    assert(lt == seq!['['] + t + seq![']']);
    lemma_items_text_separators(items, true);
    assert(terminator_at(s, end));
    assert forall|q: int| 0 <= q < end implies !terminator_at(s, q) by {
        if terminator_at(s, q) {
            if q == 0 {
                assert(s[0] == '[');
            } else if q < end - 1 {
                assert(s[q] == t[q - 1]);
                assert(s[q + 1] == lt[q + 1]);
                if q + 1 < end - 1 {
                    assert(lt[q + 1] == t[q]);
                } else {
                    assert(lt[q + 1] == ']');
                }
            } else {
                assert(s[q] == ']');
            }
        }
    }
    lemma_no_terminator_before(s, 0, end);
    assert(s.take(end) =~= lt);
    assert(lt[0] == '[');
    assert(trim_start(lt) == lt);
    assert(lt.last() == ']');
    assert(trim_end(lt) == lt);
}


/// The text of a sum whose left operand is a list literal: `[1; 2] + 3`.
pub open spec fn list_plus_text(items: Seq<i64>, k: nat) -> Seq<char> {
    list_text(items) + seq![' ', '+', ' '] + digits(k)
}

/// The tokens of such a sum.
pub open spec fn list_plus_toks(items: Seq<i64>, k: nat) -> Seq<Tok> {
    list_toks(items) + seq![Tok::Punct(seq!['+']), Tok::Int(k as i64)]
}

pub(crate) proof fn lemma_lex_list_plus(items: Seq<i64>, k: nat)
    requires
        forall|q: int| 0 <= q < items.len() ==> items[q] >= 0,
        k <= i64::MAX,
    ensures
        lex(list_plus_text(items, k)) == Ok::<Seq<Tok>, Seq<char>>(list_plus_toks(items, k)),
{
    let lt = list_text(items);
    let t = items_text(items, true);
    let s = list_plus_text(items, k);
    let ll: int = lt.len() as int;
    let e: int = 1 + t.len() as int;
    let dk = digits(k);
    lemma_digits_len(k);
    assert(lt == seq!['['] + t + seq![']']);
    assert(ll == e + 1);
    assert(s.len() == ll + 3 + dk.len());
    assert forall|q: int| 0 <= q < ll implies s[q] == lt[q] by {}
    assert(s.subrange(1, e) =~= t) by {
        assert forall|q: int| 0 <= q < t.len() implies s.subrange(1, e)[q] == t[q] by {
            assert(s[1 + q] == lt[1 + q]);
        }
    }
    assert(s[e] == lt[e]);
    assert(s[e] == ']');
    assert(s[0] == lt[0]);
    assert(s[0] == '[');
    assert(!is_double_punct(s, 0));
    assert(s.subrange(0, 1) =~= seq!['[']);
    lemma_lex_items(s, 1, items, true);
    assert(s[ll] == ' ' && s[ll + 1] == '+' && s[ll + 2] == ' ');
    assert(!is_double_punct(s, e));
    assert(s.subrange(e, e + 1) =~= seq![']']);
    assert(!is_double_punct(s, ll + 1));
    assert(s.subrange(ll + 1, ll + 2) =~= seq!['+']);
    assert(s.subrange(ll + 3, ll + 3 + dk.len()) =~= dk);
    lemma_lex_number(s, ll + 3, k);
    let end = ll + 3 + dk.len();
    assert(lex_from(s, end) == Ok::<Seq<Tok>, Seq<char>>(Seq::empty()));
    assert(lex_from(s, ll + 2) == lex_from(s, ll + 3));
    assert(lex_from(s, ll) == lex_from(s, ll + 1));
    let tail = seq![Tok::Punct(seq!['+']), Tok::Int(k as i64)];
    assert(lex_from(s, ll) == Ok::<Seq<Tok>, Seq<char>>(tail)) by {
        assert(seq![Tok::Int(k as i64)] + Seq::<Tok>::empty() =~= seq![Tok::Int(k as i64)]);
        assert(seq![Tok::Punct(seq!['+'])] + seq![Tok::Int(k as i64)] =~= tail);
    }
    assert(seq![Tok::Punct(seq!['['])] + (items_toks(items, true) + (seq![Tok::Punct(seq![']'])]
        + tail)) =~= list_plus_toks(items, k));
}


#[verifier::rlimit(60)]
pub(crate) proof fn lemma_parse_list_plus(items: Seq<i64>, k: nat)
    ensures
        parse_spec(list_plus_toks(items, k)) == Ok::<Expr, crate::parser::ParseError>(
            Expr::Bin(BinOp::Add, Box::new(Expr::List(items)), Box::new(Expr::Int(k as i64))),
        ),
{
    reveal_strlit("[");
    reveal_strlit("]");
    reveal_strlit("+");
    reveal_strlit("-");
    reveal_strlit("*");
    reveal_strlit("/");
    reveal_strlit("==");
    reveal_strlit("!=");
    assert("["@ =~= seq!['[']);
    assert("]"@ =~= seq![']']);
    assert("+"@ =~= seq!['+']);
    assert("-"@[0] == '-');
    assert("*"@[0] == '*');
    assert("/"@[0] == '/');
    assert("=="@.len() == 2);
    assert("!="@.len() == 2);
    let t = list_plus_toks(items, k);
    let it = items_toks(items, true);
    let n: int = it.len() as int + 2;
    assert(t.len() == n + 2);
    assert(t.subrange(1, 1 + it.len() as int) =~= it) by {
        assert forall|q: int| 0 <= q < it.len() implies t.subrange(1, 1 + it.len() as int)[q] == it[q] by {
            assert(t[1 + q] == list_toks(items)[1 + q]);
        }
    }
    assert(t[1 + it.len() as int] == list_toks(items)[1 + it.len() as int]);
    assert(t[1 + it.len() as int] == Tok::Punct(seq![']']));
    lemma_parse_items(t, 1, Seq::empty(), items, true);
    assert(Seq::<i64>::empty() + items =~= items);
    let l = Expr::List(items);
    let r = Expr::Int(k as i64);
    let sum = Expr::Bin(BinOp::Add, Box::new(l), Box::new(r));
    assert(t[0] == list_toks(items)[0]);
    assert(t[0] == Tok::Punct(seq!['[']));
    assert(t[n] == Tok::Punct(seq!['+']));
    assert(t[n + 1] == Tok::Int(k as i64));
    assert(!is_punct(t, n, "=="@) && !is_punct(t, n, "!="@));
    assert(!is_punct(t, n, "*"@) && !is_punct(t, n, "/"@));
    assert(is_punct(t, n, "+"@));
    assert(p_primary(t, 0) == Ok::<(Expr, int), crate::parser::ParseError>((l, n)));
    assert(p_equal_rest(t, l, n) == Ok::<(Expr, int), crate::parser::ParseError>((l, n)));
    assert(p_equal(t, 0) == Ok::<(Expr, int), crate::parser::ParseError>((l, n)));
    assert(p_mul_rest(t, l, n) == Ok::<(Expr, int), crate::parser::ParseError>((l, n)));
    assert(p_mul(t, 0) == Ok::<(Expr, int), crate::parser::ParseError>((l, n)));
    assert(p_primary(t, n + 1) == Ok::<(Expr, int), crate::parser::ParseError>((r, n + 2)));
    assert(p_equal_rest(t, r, n + 2) == Ok::<(Expr, int), crate::parser::ParseError>((r, n + 2)));
    assert(p_equal(t, n + 1) == Ok::<(Expr, int), crate::parser::ParseError>((r, n + 2)));
    assert(p_mul_rest(t, r, n + 2) == Ok::<(Expr, int), crate::parser::ParseError>((r, n + 2)));
    assert(p_mul(t, n + 1) == Ok::<(Expr, int), crate::parser::ParseError>((r, n + 2)));
    assert(p_add_rest(t, sum, n + 2) == Ok::<(Expr, int), crate::parser::ParseError>((sum, n + 2)));
    assert(p_add_rest(t, l, n) == Ok::<(Expr, int), crate::parser::ParseError>((sum, n + 2)));
    assert(p_add(t, 0) == Ok::<(Expr, int), crate::parser::ParseError>((sum, n + 2)));
    assert(p_bind(t, 0) == Ok::<(Expr, int), crate::parser::ParseError>((sum, n + 2)));
    assert(p_expr(t, 0) == Ok::<(Expr, int), crate::parser::ParseError>((sum, n + 2)));
}


pub(crate) proof fn lemma_list_plus_statement(items: Seq<i64>, k: nat)
    ensures
        statement(list_plus_text(items, k) + ";;"@) == Some(list_plus_text(items, k)),
{
    reveal_strlit(";;");
    let lt = list_text(items);
    let t = items_text(items, true);
    let text = list_plus_text(items, k);
    let dk = digits(k);
    let s = text + ";;"@;
    let ll = lt.len() as int;
    let end = text.len() as int;
    lemma_digits_len(k);
    assert(lt == seq!['['] + t + seq![']']);
    assert(end == ll + 3 + dk.len());
    lemma_items_text_separators(items, true);
    assert(terminator_at(s, end));
    assert forall|q: int| 0 <= q < end implies !terminator_at(s, q) by {
        if terminator_at(s, q) {
            if q < ll {
                assert(s[q] == lt[q]);
                if q == 0 {
                    assert(lt[0] == '[');
                } else if q < ll - 1 {
                    assert(lt[q] == t[q - 1]);
                    if q + 1 < ll - 1 {
                        assert(s[q + 1] == lt[q + 1]);
                        assert(lt[q + 1] == t[q]);
                    } else {
                        assert(s[q + 1] == lt[q + 1]);
                    }
                } else {
                    assert(lt[q] == ']');
                }
            } else if q < ll + 3 {
                assert(s[q] == seq![' ', '+', ' '][q - ll]);
            } else {
                assert(s[q] == dk[q - ll - 3]);
                assert(is_digit(dk[q - ll - 3]));
            }
        }
    }
    lemma_no_terminator_before(s, 0, end);
    assert(s.take(end) =~= text);
    assert(text[0] == lt[0]);
    assert(trim_start(text) == text);
    assert(text.last() == dk[dk.len() - 1]);
    assert(is_digit(dk[dk.len() - 1]));
    assert(trim_end(text) == text);
}

} // verus!
