//! Properties of the language, stated over the evaluation model and proved.

use vstd::prelude::*;
use vstd::arithmetic::div_mod::lemma_fundamental_div_mod;
use vstd::wrapping::i64_specs;

use crate::eval::{run, Failure};
use crate::eval_ast::{eval_expr, quotient, trunc_div, Env, Fault};
use crate::lexer::lex;
use crate::parser::parse_spec;
use crate::roundtrip::{
    lemma_lex_list, lemma_lex_list_plus, lemma_list_plus_statement, lemma_list_statement,
    lemma_of_items, lemma_parse_list, lemma_parse_list_plus, list_plus_text,
};
use crate::text::list_text;
use crate::parser::{BinOp, Expr};
use crate::value::Value;

verus! {

/// Division truncates toward zero: for a nonzero divisor, `a / b` evaluates
/// to the `q` whose remainder `a - q * b` is smaller than the divisor in
/// magnitude and has the sign of `a` (or is zero), as Rust's `i64` division
/// gives it. The one quotient outside the range of `i64`, `i64::MIN / -1`,
/// wraps around to `i64::MIN`. The environment is left as it was.
pub proof fn lemma_division_truncates(a: i64, b: i64, env: Env)
    requires
        b != 0,
    ensures
        eval_expr(Expr::Bin(BinOp::Div, Box::new(Expr::Int(a)), Box::new(Expr::Int(b))), env) == (
            env,
            Ok::<(Option<Seq<char>>, Value), Fault>((None, Value::Int(quotient(a, b)))),
        ),
        !(a == i64::MIN && b == -1) ==> {
            let q = quotient(a, b) as int;
            let r = a - q * b;
            &&& (if r < 0 { -r } else { r }) < (if b < 0 { -b } else { b as int })
            &&& (r == 0 || (r < 0) == (a < 0))
        },
        a == i64::MIN && b == -1 ==> quotient(a, b) == i64::MIN,
{
    reveal_with_fuel(eval_expr, 2);
    if !(a == i64::MIN && b == -1) {
        let x: int = if a < 0 { -a } else { a as int };
        let d: int = if b < 0 { -b } else { b as int };
        let q0 = x / d;
        let r0 = x % d;
        lemma_fundamental_div_mod(x, d);
        assert(0 <= r0 < d);
        assert(q0 >= 0) by (nonlinear_arith)
            requires
                x >= 0,
                d >= 1,
                q0 == x / d,
        ;
        assert(q0 <= x) by (nonlinear_arith)
            requires
                x >= 0,
                d >= 1,
                q0 == x / d,
        ;
        assert(trunc_div(a as int, b as int) == if (a < 0) == (b < 0) { q0 } else { -q0 });
        if d == 1 {
            assert(q0 == x) by (nonlinear_arith)
                requires
                    d == 1,
                    q0 == x / d,
            ;
        } else {
            assert(q0 <= x / 2) by (nonlinear_arith)
                requires
                    x >= 0,
                    d >= 2,
                    q0 == x / d,
            ;
        }
        let t = trunc_div(a as int, b as int);
        assert(x <= 0x8000_0000_0000_0000);
        if d == 1 {
            if (a < 0) == (b < 0) {
                assert(t == x);
                assert(x <= i64::MAX);
            } else {
                assert(t == -x);
            }
        } else {
            assert(q0 <= 0x4000_0000_0000_0000);
        }
        assert(i64::MIN <= t <= i64::MAX);
        let q = quotient(a, b) as int;
        assert(q == t);
        if a >= 0 && b > 0 {
            assert(q * b == d * q0) by (nonlinear_arith)
                requires
                    q == q0,
                    b == d,
            ;
            assert(a - q * b == r0);
        } else if a < 0 && b < 0 {
            assert(q * b == -(d * q0)) by (nonlinear_arith)
                requires
                    q == q0,
                    b == -d,
            ;
            assert(a - q * b == -r0);
        } else if a < 0 {
            assert(q * b == -(d * q0)) by (nonlinear_arith)
                requires
                    q == -q0,
                    b == d,
            ;
            assert(a - q * b == -r0);
        } else {
            assert(q * b == d * q0) by (nonlinear_arith)
                requires
                    q == -q0,
                    b == -d,
            ;
            assert(a - q * b == r0);
        }
    }
}

/// Rebinding a global name replaces its value: binding `name` to `x` and
/// then to `y` leaves the environment as binding it to `y` alone would, with
/// one entry for `name`; from an empty environment, that entry is all there is.
pub proof fn lemma_rebinding_replaces(env: Env, name: Seq<char>, x: i64, y: i64)
    ensures
        ({
            let first = eval_expr(
                Expr::Bind(name, Seq::empty(), Box::new(Expr::Int(x))),
                env,
            ).0;
            let (after, r) = eval_expr(
                Expr::Bind(name, Seq::empty(), Box::new(Expr::Int(y))),
                first,
            );
            &&& after == env.insert(name, Value::Int(y))
            &&& r == Ok::<(Option<Seq<char>>, Value), Fault>((Some(name), Value::Int(y)))
            &&& env == Map::<Seq<char>, Value>::empty() ==> after == Map::<Seq<char>, Value>::empty().insert(
                name,
                Value::Int(y),
            )
        }),
{
    reveal_with_fuel(eval_expr, 2);
    let first = env.insert(name, Value::Int(x));
    assert(first.insert(name, Value::Int(y)) =~= env.insert(name, Value::Int(y)));
}

/// A local binding does not outlive its scope: the environment after
/// `let name args = rhs in scope` is the one that the right-hand side left
/// (the one before, when the binding defines a function), whatever the scope
/// did; and where the right-hand side is a literal, the environment is
/// unchanged.
pub proof fn lemma_local_binding_does_not_leak(
    env: Env,
    name: Seq<char>,
    args: Seq<Seq<char>>,
    rhs: Expr,
    scope: Expr,
)
    ensures
        eval_expr(Expr::LocalBind(name, args, Box::new(rhs), Box::new(scope)), env).0 == (if args.len()
            > 0 {
            env
        } else {
            eval_expr(rhs, env).0
        }),
        (rhs is Int || rhs is Bool || rhs is List) ==> eval_expr(
            Expr::LocalBind(name, args, Box::new(rhs), Box::new(scope)),
            env,
        ).0 == env,
{
    reveal_with_fuel(eval_expr, 2);
}

/// A local binding shadows a global one of the same name within its scope
/// only: `let name = v in name + k` gives `v + k` (wrapping, as `+` does)
/// whatever `name` is bound to globally, and leaves the environment as it was.
pub proof fn lemma_local_binding_shadows(env: Env, name: Seq<char>, v: i64, k: i64)
    ensures
        eval_expr(
            Expr::LocalBind(
                name,
                Seq::empty(),
                Box::new(Expr::Int(v)),
                Box::new(
                    Expr::Bin(BinOp::Add, Box::new(Expr::Ident(name)), Box::new(Expr::Int(k))),
                ),
            ),
            env,
        ) == (env, Ok::<(Option<Seq<char>>, Value), Fault>(
            (None, Value::Int(i64_specs::wrapping_add(v, k))),
        )),
{
    reveal_with_fuel(eval_expr, 4);
    let local = env.insert(name, Value::Int(v));
    assert(local.contains_key(name) && local[name] == Value::Int(v));
}

/// An operator with a list operand is a type mismatch: `items op k` fails,
/// and the environment is left as it was.
pub proof fn lemma_list_operand_mismatch(env: Env, op: BinOp, items: Seq<i64>, k: i64)
    ensures
        eval_expr(Expr::Bin(op, Box::new(Expr::List(items)), Box::new(Expr::Int(k))), env) == (
            env,
            Err::<(Option<Seq<char>>, Value), Fault>(Fault::TypeMismatch),
        ),
{
    reveal_with_fuel(eval_expr, 2);
}


/// A list literal round-trips: the text of a list of non-negative integers,
/// as the toplevel writes it, parses back to the same elements, and
/// evaluating it as a statement prints the same text as an `int list`,
/// leaving the environment as it was (`[1; 2; 3];;` prints
/// `- : int list = [1; 2; 3]`, `[];;` prints `- : int list = []`). A negative
/// element has no literal: `-1` reads as a minus sign and `1`.
pub proof fn lemma_list_round_trip(items: Seq<i64>, env: Env)
    requires
        forall|k: int| 0 <= k < items.len() ==> items[k] >= 0,
    ensures
        match lex(list_text(items)) {
            Ok(toks) => parse_spec(toks) == Ok::<Expr, crate::parser::ParseError>(Expr::List(items)),
            Err(_) => false,
        },
        run(list_text(items) + ";;"@, env) == (env, Ok::<Seq<char>, Failure>(
            "- : int list = "@ + list_text(items),
        )),
{
    lemma_list_statement(items);
    lemma_lex_list(items);
    lemma_parse_list(items);
    lemma_of_items(items);
    reveal_strlit("- : ");
    reveal_strlit("int list = ");
    reveal_strlit("- : int list = ");
    assert("- : "@ + ("int list = "@ + list_text(items)) =~= "- : int list = "@ + list_text(items));
}


/// A statement that adds an integer to a list literal fails with a type
/// mismatch and leaves the environment as it was: `[1; 2] + 3;;` is one. The
/// list's elements and the integer are non-negative, as literals are.
pub proof fn lemma_list_plus_int_statement(items: Seq<i64>, k: nat, env: Env)
    requires
        forall|q: int| 0 <= q < items.len() ==> items[q] >= 0,
        k <= i64::MAX,
    ensures
        run(list_plus_text(items, k) + ";;"@, env) == (env, Err::<Seq<char>, Failure>(
            Failure::Eval(Fault::TypeMismatch),
        )),
{
    lemma_list_plus_statement(items, k);
    lemma_lex_list_plus(items, k);
    lemma_parse_list_plus(items, k);
    lemma_list_operand_mismatch(env, BinOp::Add, items, k as i64);
}

} // verus!
