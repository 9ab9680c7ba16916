//! Evaluation of a syntax tree against an environment, and how a result
//! is written.

use vstd::prelude::*;
use vstd::wrapping::i64_specs;

use crate::bounds::Bounds;
use crate::parser::{BinOp, Expr, Node};
use crate::value::{value_text, List, Value};

verus! {

/// What an evaluation produces: the name it bound, if it is a binding, and
/// the value.
#[derive(Debug, PartialEq, Eq)]
pub struct Output {
    pub name: Option<String>,
    pub value: Value,
}

/// An evaluation result as the toplevel writes it: `val foo : int = 42`
/// for a binding, `- : int = 42` otherwise.
pub open spec fn output_text(res: Res) -> Seq<char> {
    (match res.0 {
        Some(n) => "val "@ + n + " : "@,
        None => "- : "@,
    }) + value_text(res.1)
}

impl Output {
    pub fn to_string(&self) -> (r: String)
        ensures
            r@ == output_text(self.res()),
    {
        proof {
            reveal_strlit("val ");
            reveal_strlit(" : ");
            reveal_strlit("- : ");
        }
        let mut s = String::new();
        match &self.name {
            Some(n) => {
                s.append("val ");
                s.append(n.as_str());
                s.append(" : ");
            },
            None => {
                s.append("- : ");
            },
        }
        self.value.push_text(&mut s);
        assert(s@ =~= output_text(self.res()));
        s
    }
}

/// A failure of evaluation.
#[derive(Debug, PartialEq, Eq)]
pub enum EvalError {
    /// An operator met an operand of a type it does not take, or a binding
    /// where a plain value is needed.
    TypeMismatch,
    /// A name that the environment does not bind.
    Unbound(String),
    /// Integer division by zero.
    DivisionByZero,
}

/// What an evaluation failure stands for.
pub enum Fault {
    TypeMismatch,
    Unbound(Seq<char>),
    DivisionByZero,
}

/// The environment as a map from names to values.
pub type Env = Map<Seq<char>, Value>;

/// What an evaluation produces, with the bound name as characters.
pub type Res = (Option<Seq<char>>, Value);

impl Output {
    pub open spec fn res(&self) -> Res {
        (
            match self.name {
                Some(n) => Some(n@),
                None => None,
            },
            self.value,
        )
    }
}

impl EvalError {
    pub open spec fn fault(&self) -> Fault {
        match self {
            EvalError::TypeMismatch => Fault::TypeMismatch,
            EvalError::Unbound(n) => Fault::Unbound(n@),
            EvalError::DivisionByZero => Fault::DivisionByZero,
        }
    }
}

/// What an executable evaluation result stands for.
pub open spec fn outcome(r: Result<Output, EvalError>) -> Result<Res, Fault> {
    match r {
        Ok(o) => Ok(o.res()),
        Err(e) => Err(e.fault()),
    }
}

/// Division that truncates toward zero.
pub open spec fn trunc_div(a: int, b: int) -> int {
    let q = (if a < 0 { -a } else { a }) / (if b < 0 { -b } else { b });
    if (a < 0) == (b < 0) {
        q
    } else {
        -q
    }
}

/// The quotient of `x` by a nonzero `y`, truncated toward zero; the one
/// quotient that does not fit, `i64::MIN / -1`, wraps around to `i64::MIN`.
pub open spec fn quotient(x: i64, y: i64) -> i64 {
    if x == i64::MIN && y == -1 {
        i64::MIN
    } else {
        trunc_div(x as int, y as int) as i64
    }
}

/// An operator applied to two plain values.
pub open spec fn apply_values(op: BinOp, a: Value, b: Value) -> Result<Res, Fault> {
    match (a, b) {
        (Value::Int(x), Value::Int(y)) => match op {
            BinOp::Add => Ok((None, Value::Int(i64_specs::wrapping_add(x, y)))),
            BinOp::Sub => Ok((None, Value::Int(i64_specs::wrapping_sub(x, y)))),
            BinOp::Mul => Ok((None, Value::Int(i64_specs::wrapping_mul(x, y)))),
            BinOp::Div => if y == 0 {
                Err(Fault::DivisionByZero)
            } else {
                Ok((None, Value::Int(quotient(x, y))))
            },
            BinOp::Eq => Ok((None, Value::Bool(x == y))),
            BinOp::Neq => Ok((None, Value::Bool(x != y))),
        },
        (Value::Bool(x), Value::Bool(y)) => match op {
            BinOp::Eq => Ok((None, Value::Bool(x == y))),
            BinOp::Neq => Ok((None, Value::Bool(x != y))),
            _ => Err(Fault::TypeMismatch),
        },
        _ => Err(Fault::TypeMismatch),
    }
}

/// An operator applied to two results: both must be unnamed.
pub open spec fn apply(op: BinOp, a: Res, b: Res) -> Result<Res, Fault> {
    if a.0 is None && b.0 is None {
        apply_values(op, a.1, b.1)
    } else {
        Err(Fault::TypeMismatch)
    }
}

/// The value a binding gives its name: the function marker where it has
/// arguments, else the plain value of its right-hand side.
pub open spec fn bound_value(args: Seq<Seq<char>>, rhs: Result<Res, Fault>) -> Result<Value, Fault> {
    if args.len() > 0 {
        Ok(Value::Fn)
    } else {
        match rhs {
            Ok((None, v)) => Ok(v),
            Ok((Some(_), _)) => Err(Fault::TypeMismatch),
            Err(f) => Err(f),
        }
    }
}

/// Evaluates `e` in `env`: the environment after it, and the result.
/// Operands are evaluated left before right, and evaluation stops at the
/// first failure. A global binding writes its name into the environment; a
/// local one evaluates its scope in a copy that holds its name, and the copy
/// is dropped.
pub open spec fn eval_expr(e: Expr, env: Env) -> (Env, Result<Res, Fault>)
    decreases e,
{
    match e {
        Expr::Int(i) => (env, Ok((None, Value::Int(i)))),
        Expr::Bool(b) => (env, Ok((None, Value::Bool(b)))),
        Expr::List(items) => (env, Ok((None, Value::List(List::of_items(items))))),
        Expr::Bin(op, l, r) => {
            let (env1, a) = eval_expr(*l, env);
            match a {
                Err(f) => (env1, Err(f)),
                Ok(x) => {
                    let (env2, b) = eval_expr(*r, env1);
                    match b {
                        Err(f) => (env2, Err(f)),
                        Ok(y) => (env2, apply(op, x, y)),
                    }
                },
            }
        },
        Expr::Ident(name) => if env.contains_key(name) {
            (env, Ok((None, env[name])))
        } else {
            (env, Err(Fault::Unbound(name)))
        },
        Expr::Bind(name, args, rhs) => {
            let (env1, r) = if args.len() > 0 {
                (env, Ok((None, Value::Fn)))
            } else {
                eval_expr(*rhs, env)
            };
            match bound_value(args, r) {
                Ok(v) => (env1.insert(name, v), Ok((Some(name), v))),
                Err(f) => (env1, Err(f)),
            }
        },
        Expr::LocalBind(name, args, rhs, scope) => {
            let (env1, r) = if args.len() > 0 {
                (env, Ok((None, Value::Fn)))
            } else {
                eval_expr(*rhs, env)
            };
            match bound_value(args, r) {
                Ok(v) => (env1, eval_expr(*scope, env1.insert(name, v)).1),
                Err(f) => (env1, Err(f)),
            }
        },
    }
}


/// `x / y` for a nonzero `y`, as `quotient` says.
fn divide(x: i64, y: i64) -> (r: i64)
    requires
        y != 0,
    ensures
        r == quotient(x, y),
{
    if x == i64::MIN && y == -1 {
        return i64::MIN;
    }
    proof {
        let a: int = if x < 0 { -x } else { x as int };
        let b: int = if y < 0 { -y } else { y as int };
        assert(b >= 1);
        assert(a / b <= a) by (nonlinear_arith)
            requires
                a >= 0,
                b >= 1,
        ;
        assert(a / b >= 0) by (nonlinear_arith)
            requires
                a >= 0,
                b >= 1,
        ;
        if b == 1 {
            assert(a / b == a) by (nonlinear_arith)
                requires
                    b == 1,
            ;
        } else {
            assert(a / b <= a / 2) by (nonlinear_arith)
                requires
                    a >= 0,
                    b >= 2,
            ;
        }
    }
    match x.checked_div(y) {
        Some(q) => q,
        None => i64::MIN,
    }
}

/// Applies `op` to the values of two results, as `apply` says.
fn apply_op(op: BinOp, a: Output, b: Output) -> (r: Result<Output, EvalError>)
    ensures
        outcome(r) == apply(op, a.res(), b.res()),
{
    if a.name.is_some() || b.name.is_some() {
        return Err(EvalError::TypeMismatch);
    }
    let value = match (a.value, b.value) {
        (Value::Int(x), Value::Int(y)) => match op {
            BinOp::Add => Value::Int(x.wrapping_add(y)),
            BinOp::Sub => Value::Int(x.wrapping_sub(y)),
            BinOp::Mul => Value::Int(x.wrapping_mul(y)),
            BinOp::Div => {
                if y == 0 {
                    return Err(EvalError::DivisionByZero);
                }
                Value::Int(divide(x, y))
            },
            BinOp::Eq => Value::Bool(x == y),
            BinOp::Neq => Value::Bool(x != y),
        },
        (Value::Bool(x), Value::Bool(y)) => match op {
            BinOp::Eq => Value::Bool(x == y),
            BinOp::Neq => Value::Bool(x != y),
            _ => {
                return Err(EvalError::TypeMismatch);
            },
        },
        _ => {
            return Err(EvalError::TypeMismatch);
        },
    };
    Ok(Output { name: None, value })
}

/// Evaluates a syntax tree against the environment, as `eval_expr` says.
pub fn eval_ast(node: &Node, bounds: &mut Bounds) -> (r: Result<Output, EvalError>)
    ensures
        (final(bounds)@, outcome(r)) == eval_expr(node@, old(bounds)@),
    decreases node,
{
    match node {
        Node::Int(i) => Ok(Output { name: None, value: Value::Int(*i) }),
        Node::Bool(b) => Ok(Output { name: None, value: Value::Bool(*b) }),
        Node::List(l) => Ok(Output { name: None, value: Value::List(List::from_literal(l)) }),
        Node::Add(l, r) => {
            let a = eval_ast(l, bounds)?;
            let b = eval_ast(r, bounds)?;
            apply_op(BinOp::Add, a, b)
        },
        Node::Sub(l, r) => {
            let a = eval_ast(l, bounds)?;
            let b = eval_ast(r, bounds)?;
            apply_op(BinOp::Sub, a, b)
        },
        Node::Mul(l, r) => {
            let a = eval_ast(l, bounds)?;
            let b = eval_ast(r, bounds)?;
            apply_op(BinOp::Mul, a, b)
        },
        Node::Div(l, r) => {
            let a = eval_ast(l, bounds)?;
            let b = eval_ast(r, bounds)?;
            apply_op(BinOp::Div, a, b)
        },
        Node::Eql(l, r) => {
            let a = eval_ast(l, bounds)?;
            let b = eval_ast(r, bounds)?;
            apply_op(BinOp::Eq, a, b)
        },
        Node::Neql(l, r) => {
            let a = eval_ast(l, bounds)?;
            let b = eval_ast(r, bounds)?;
            apply_op(BinOp::Neq, a, b)
        },
        Node::Ident(name) => match bounds.get(name) {
            Some(v) => Ok(Output { name: None, value: v.duplicate() }),
            None => Err(EvalError::Unbound(name.clone())),
        },
        Node::Bind(b) => {
            let value = if b.args.len() > 0 {
                Value::Fn
            } else {
                let out = eval_ast(&b.expr, bounds)?;
                if out.name.is_some() {
                    return Err(EvalError::TypeMismatch);
                }
                out.value
            };
            bounds.bind(b.name.clone(), value.duplicate());
            Ok(Output { name: Some(b.name.clone()), value })
        },
        Node::LocalBind(lb) => {
            let value = if lb.bind.args.len() > 0 {
                Value::Fn
            } else {
                let out = eval_ast(&lb.bind.expr, bounds)?;
                if out.name.is_some() {
                    return Err(EvalError::TypeMismatch);
                }
                out.value
            };
            let mut local = bounds.duplicate();
            local.bind(lb.bind.name.clone(), value);
            eval_ast(&lb.scope, &mut local)
        },
    }
}

} // verus!
