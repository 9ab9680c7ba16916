//! Recursive-descent parsing of tokens into a syntax tree.

use vstd::prelude::*;

use crate::lexer::{lemma_toks_of, same_text, toks_of, KwKind, Tok, Token};
use crate::list::ListStruct;

verus! {

/// A node of the syntax tree.
#[derive(Debug, PartialEq, Eq)]
pub enum Node {
    Int(i64),
    Bool(bool),
    List(ListStruct),
    Add(Box<Node>, Box<Node>),
    Sub(Box<Node>, Box<Node>),
    Mul(Box<Node>, Box<Node>),
    Div(Box<Node>, Box<Node>),
    Eql(Box<Node>, Box<Node>),
    Neql(Box<Node>, Box<Node>),
    Ident(String),
    /// `let name args = expr`
    Bind(Box<BindStruct>),
    /// `let name args = expr in scope`
    LocalBind(Box<LocalBindStruct>),
}

/// The head and right-hand side of a binding; a binding with arguments
/// defines a function.
#[derive(Debug, PartialEq, Eq)]
pub struct BindStruct {
    pub name: String,
    pub args: Vec<String>,
    pub expr: Node,
}

/// A binding and the expression it scopes over.
#[derive(Debug, PartialEq, Eq)]
pub struct LocalBindStruct {
    pub bind: BindStruct,
    pub scope: Node,
}

/// A binary operator.
#[derive(Debug, Clone, Copy, PartialEq, Eq, Structural)]
pub enum BinOp {
    Add,
    Sub,
    Mul,
    Div,
    Eq,
    Neq,
}

/// What a syntax tree stands for: names as character sequences, a list
/// literal as its elements.
pub enum Expr {
    Int(i64),
    Bool(bool),
    List(Seq<i64>),
    Bin(BinOp, Box<Expr>, Box<Expr>),
    Ident(Seq<char>),
    Bind(Seq<char>, Seq<Seq<char>>, Box<Expr>),
    LocalBind(Seq<char>, Seq<Seq<char>>, Box<Expr>, Box<Expr>),
}

pub open spec fn names_of(names: Seq<String>) -> Seq<Seq<char>> {
    names.map_values(|n: String| n@)
}

impl Node {
    pub open spec fn expr(&self) -> Expr
        decreases self,
    {
        match self {
            Node::Int(i) => Expr::Int(*i),
            Node::Bool(b) => Expr::Bool(*b),
            Node::List(l) => Expr::List(l@),
            Node::Add(l, r) => Expr::Bin(BinOp::Add, Box::new(l.expr()), Box::new(r.expr())),
            Node::Sub(l, r) => Expr::Bin(BinOp::Sub, Box::new(l.expr()), Box::new(r.expr())),
            Node::Mul(l, r) => Expr::Bin(BinOp::Mul, Box::new(l.expr()), Box::new(r.expr())),
            Node::Div(l, r) => Expr::Bin(BinOp::Div, Box::new(l.expr()), Box::new(r.expr())),
            Node::Eql(l, r) => Expr::Bin(BinOp::Eq, Box::new(l.expr()), Box::new(r.expr())),
            Node::Neql(l, r) => Expr::Bin(BinOp::Neq, Box::new(l.expr()), Box::new(r.expr())),
            Node::Ident(name) => Expr::Ident(name@),
            Node::Bind(b) => Expr::Bind(b.name@, names_of(b.args@), Box::new(b.expr.expr())),
            Node::LocalBind(lb) => Expr::LocalBind(
                lb.bind.name@,
                names_of(lb.bind.args@),
                Box::new(lb.bind.expr.expr()),
                Box::new(lb.scope.expr()),
            ),
        }
    }

    /// Every list literal in the tree is well formed: full nodes ending in
    /// the empty marker.
    pub open spec fn lists_wf(&self) -> bool
        decreases self,
    {
        match self {
            Node::List(l) => l.wf(),
            Node::Add(l, r) => l.lists_wf() && r.lists_wf(),
            Node::Sub(l, r) => l.lists_wf() && r.lists_wf(),
            Node::Mul(l, r) => l.lists_wf() && r.lists_wf(),
            Node::Div(l, r) => l.lists_wf() && r.lists_wf(),
            Node::Eql(l, r) => l.lists_wf() && r.lists_wf(),
            Node::Neql(l, r) => l.lists_wf() && r.lists_wf(),
            Node::Bind(b) => b.expr.lists_wf(),
            Node::LocalBind(lb) => lb.bind.expr.lists_wf() && lb.scope.lists_wf(),
            _ => true,
        }
    }
}

impl View for Node {
    type V = Expr;

    open spec fn view(&self) -> Expr {
        self.expr()
    }
}


/// A grammar violation.
#[derive(Debug, Clone, Copy, PartialEq, Eq, Structural)]
pub enum ParseError {
    /// `let` is not followed by a name.
    ExpectedIdent,
    /// The head of a binding is not followed by `=`.
    ExpectedEq,
    /// Two list elements are not separated by `;`, or the list is not closed.
    ListSeparator,
    /// A list element is not an integer.
    ListElement,
    /// A parenthesized expression is not closed.
    UnclosedParen,
    /// No expression stands where one is required.
    ExpectedPrimary,
    /// Tokens are left after a complete expression.
    ExtraTokens,
}

/// The result of parsing from some position: the tree and the position after it.
pub type Parsed = Result<(Expr, int), ParseError>;

/// Token `i` is the punctuator `p`.
pub open spec fn is_punct(t: Seq<Tok>, i: int, p: Seq<char>) -> bool {
    0 <= i < t.len() && t[i] == Tok::Punct(p)
}

/// Token `i` is the keyword `k`.
pub open spec fn is_kw(t: Seq<Tok>, i: int, k: KwKind) -> bool {
    0 <= i < t.len() && t[i] == Tok::Kw(k)
}

/// A parse from `i` that ends at `k` used at least one token. Every parse
/// that succeeds does (the parsing functions below prove it); the definitions
/// test it only so that they are well founded.
pub open spec fn moves_on(t: Seq<Tok>, i: int, k: int) -> bool {
    i < k <= t.len()
}

/// `expr := bind`
pub open spec fn p_expr(t: Seq<Tok>, i: int) -> Parsed
    decreases t.len() - i, 9int,
{
    p_bind(t, i)
}

/// `bind := "let" ident ident* "=" add ("in" expr)? | add`
pub open spec fn p_bind(t: Seq<Tok>, i: int) -> Parsed
    decreases t.len() - i, 8int,
{
    if is_kw(t, i, KwKind::Let) {
        if i + 1 < t.len() && t[i + 1] is Ident {
            p_bind_args(t, i + 2, t[i + 1]->Ident_0, Seq::empty())
        } else {
            Err(ParseError::ExpectedIdent)
        }
    } else {
        p_add(t, i)
    }
}

/// Within the head of a binding of `name`, after the arguments `args`, at `j`.
pub open spec fn p_bind_args(t: Seq<Tok>, j: int, name: Seq<char>, args: Seq<Seq<char>>) -> Parsed
    decreases t.len() - j, 7int,
{
    if 0 <= j < t.len() && t[j] is Ident {
        p_bind_args(t, j + 1, name, args.push(t[j]->Ident_0))
    } else if is_punct(t, j, "="@) {
        match p_add(t, j + 1) {
            Ok((rhs, k)) => {
                if !moves_on(t, j, k) {
                    Err(ParseError::ExpectedPrimary)
                } else if is_kw(t, k, KwKind::In) {
                    match p_expr(t, k + 1) {
                        Ok((scope, m)) => Ok(
                            (Expr::LocalBind(name, args, Box::new(rhs), Box::new(scope)), m),
                        ),
                        Err(e) => Err(e),
                    }
                } else {
                    Ok((Expr::Bind(name, args, Box::new(rhs)), k))
                }
            },
            Err(e) => Err(e),
        }
    } else {
        Err(ParseError::ExpectedEq)
    }
}

/// `add := mul (("+" | "-") mul)*`
pub open spec fn p_add(t: Seq<Tok>, i: int) -> Parsed
    decreases t.len() - i, 6int,
{
    match p_mul(t, i) {
        Ok((lhs, k)) => if !moves_on(t, i, k) {
            Err(ParseError::ExpectedPrimary)
        } else {
            p_add_rest(t, lhs, k)
        },
        Err(e) => Err(e),
    }
}

/// After the sum `lhs`, at `k`.
pub open spec fn p_add_rest(t: Seq<Tok>, lhs: Expr, k: int) -> Parsed
    decreases t.len() - k, 5int,
{
    if is_punct(t, k, "+"@) || is_punct(t, k, "-"@) {
        match p_mul(t, k + 1) {
            Ok((rhs, m)) => if !moves_on(t, k, m) {
                Err(ParseError::ExpectedPrimary)
            } else if is_punct(t, k, "+"@) {
                p_add_rest(t, Expr::Bin(BinOp::Add, Box::new(lhs), Box::new(rhs)), m)
            } else {
                p_add_rest(t, Expr::Bin(BinOp::Sub, Box::new(lhs), Box::new(rhs)), m)
            },
            Err(e) => Err(e),
        }
    } else {
        Ok((lhs, k))
    }
}

/// `mul := equality (("*" | "/") equality)*`
pub open spec fn p_mul(t: Seq<Tok>, i: int) -> Parsed
    decreases t.len() - i, 4int,
{
    match p_equal(t, i) {
        Ok((lhs, k)) => if !moves_on(t, i, k) {
            Err(ParseError::ExpectedPrimary)
        } else {
            p_mul_rest(t, lhs, k)
        },
        Err(e) => Err(e),
    }
}

/// After the product `lhs`, at `k`.
pub open spec fn p_mul_rest(t: Seq<Tok>, lhs: Expr, k: int) -> Parsed
    decreases t.len() - k, 3int,
{
    if is_punct(t, k, "*"@) || is_punct(t, k, "/"@) {
        match p_equal(t, k + 1) {
            Ok((rhs, m)) => if !moves_on(t, k, m) {
                Err(ParseError::ExpectedPrimary)
            } else if is_punct(t, k, "*"@) {
                p_mul_rest(t, Expr::Bin(BinOp::Mul, Box::new(lhs), Box::new(rhs)), m)
            } else {
                p_mul_rest(t, Expr::Bin(BinOp::Div, Box::new(lhs), Box::new(rhs)), m)
            },
            Err(e) => Err(e),
        }
    } else {
        Ok((lhs, k))
    }
}

/// `equality := primary (("==" | "!=") primary)*`
pub open spec fn p_equal(t: Seq<Tok>, i: int) -> Parsed
    decreases t.len() - i, 2int,
{
    match p_primary(t, i) {
        Ok((lhs, k)) => if !moves_on(t, i, k) {
            Err(ParseError::ExpectedPrimary)
        } else {
            p_equal_rest(t, lhs, k)
        },
        Err(e) => Err(e),
    }
}

/// After the comparison `lhs`, at `k`.
pub open spec fn p_equal_rest(t: Seq<Tok>, lhs: Expr, k: int) -> Parsed
    decreases t.len() - k, 1int,
{
    if is_punct(t, k, "=="@) || is_punct(t, k, "!="@) {
        match p_primary(t, k + 1) {
            Ok((rhs, m)) => if !moves_on(t, k, m) {
                Err(ParseError::ExpectedPrimary)
            } else if is_punct(t, k, "=="@) {
                p_equal_rest(t, Expr::Bin(BinOp::Eq, Box::new(lhs), Box::new(rhs)), m)
            } else {
                p_equal_rest(t, Expr::Bin(BinOp::Neq, Box::new(lhs), Box::new(rhs)), m)
            },
            Err(e) => Err(e),
        }
    } else {
        Ok((lhs, k))
    }
}

/// `primary := int | "true" | "false" | ident | list | "(" expr ")"`
pub open spec fn p_primary(t: Seq<Tok>, i: int) -> Parsed
    decreases t.len() - i, 0int,
{
    if i < 0 || i >= t.len() {
        Err(ParseError::ExpectedPrimary)
    } else {
        match t[i] {
            Tok::Int(v) => Ok((Expr::Int(v), i + 1)),
            Tok::Kw(KwKind::True) => Ok((Expr::Bool(true), i + 1)),
            Tok::Kw(KwKind::False) => Ok((Expr::Bool(false), i + 1)),
            Tok::Ident(name) => Ok((Expr::Ident(name), i + 1)),
            Tok::Punct(p) => if p == "["@ {
                p_list_items(t, i + 1, Seq::empty(), true)
            } else if p == "("@ {
                match p_expr(t, i + 1) {
                    Ok((e, k)) => if is_punct(t, k, ")"@) {
                        Ok((e, k + 1))
                    } else {
                        Err(ParseError::UnclosedParen)
                    },
                    Err(e) => Err(e),
                }
            } else {
                Err(ParseError::ExpectedPrimary)
            },
            _ => Err(ParseError::ExpectedPrimary),
        }
    }
}

/// `list := "[" (int (";" int)*)? "]"`: within the list, after the elements
/// `items`, at `i`; `first` says that no element was read yet.
pub open spec fn p_list_items(t: Seq<Tok>, i: int, items: Seq<i64>, first: bool) -> Parsed
    decreases t.len() - i, 1int,
{
    if is_punct(t, i, "]"@) {
        Ok((Expr::List(items), i + 1))
    } else if first {
        p_list_elem(t, i, items)
    } else if is_punct(t, i, ";"@) {
        p_list_elem(t, i + 1, items)
    } else {
        Err(ParseError::ListSeparator)
    }
}

/// Within a list, where an element must stand.
pub open spec fn p_list_elem(t: Seq<Tok>, i: int, items: Seq<i64>) -> Parsed
    decreases t.len() - i, 0int,
{
    if 0 <= i < t.len() && t[i] is Int {
        p_list_items(t, i + 1, items.push(t[i]->Int_0), false)
    } else {
        Err(ParseError::ListElement)
    }
}

/// The tree of a whole statement: one expression that uses every token.
pub open spec fn parse_spec(t: Seq<Tok>) -> Result<Expr, ParseError> {
    match p_expr(t, 0) {
        Ok((e, k)) => if k == t.len() {
            Ok(e)
        } else {
            Err(ParseError::ExtraTokens)
        },
        Err(e) => Err(e),
    }
}


/// What an executable parse result stands for.
pub open spec fn parsed(r: Result<(Node, usize), ParseError>) -> Parsed {
    match r {
        Ok((n, k)) => Ok((n@, k as int)),
        Err(e) => Err(e),
    }
}

/// A parse from `i` that succeeded used at least one token, and its list
/// literals are well formed.
pub open spec fn advanced(r: Result<(Node, usize), ParseError>, i: int, len: int) -> bool {
    match r {
        Ok((n, k)) => i < k <= len && n.lists_wf(),
        Err(_) => true,
    }
}

fn is_punct_at(toks: &[Token], i: usize, p: &str) -> (r: bool)
    ensures
        r == is_punct(toks_of(toks@), i as int, p@),
{
    proof {
        lemma_toks_of(toks@);
    }
    if i < toks.len() {
        match &toks[i] {
            Token::Punct(q) => same_text(q.as_str(), p),
            _ => false,
        }
    } else {
        false
    }
}

fn is_kw_at(toks: &[Token], i: usize, k: KwKind) -> (r: bool)
    ensures
        r == is_kw(toks_of(toks@), i as int, k),
{
    proof {
        lemma_toks_of(toks@);
    }
    if i < toks.len() {
        match &toks[i] {
            Token::Kw(q) => *q == k,
            _ => false,
        }
    } else {
        false
    }
}

/// Parses a whole statement: one expression that uses every token.
pub fn parse(toks: &[Token]) -> (r: Result<Node, ParseError>)
    ensures
        match r {
            Ok(n) => parse_spec(toks_of(toks@)) == Ok::<Expr, ParseError>(n@) && n.lists_wf(),
            Err(e) => parse_spec(toks_of(toks@)) == Err::<Expr, ParseError>(e),
        },
{
    proof {
        lemma_toks_of(toks@);
    }
    let (node, rest) = parse_expr(toks, 0)?;
    if rest != toks.len() {
        return Err(ParseError::ExtraTokens);
    }
    Ok(node)
}

fn parse_expr(toks: &[Token], i: usize) -> (r: Result<(Node, usize), ParseError>)
    requires
        i <= toks@.len(),
    ensures
        parsed(r) == p_expr(toks_of(toks@), i as int),
        advanced(r, i as int, toks@.len() as int),
    decreases toks@.len() - i, 9int,
{
    parse_bind(toks, i)
}

fn parse_bind(toks: &[Token], i: usize) -> (r: Result<(Node, usize), ParseError>)
    requires
        i <= toks@.len(),
    ensures
        parsed(r) == p_bind(toks_of(toks@), i as int),
        advanced(r, i as int, toks@.len() as int),
    decreases toks@.len() - i, 8int,
{
    let ghost t = toks_of(toks@);
    let n = toks.len();
    proof {
        lemma_toks_of(toks@);
    }
    if !is_kw_at(toks, i, KwKind::Let) {
        return parse_add(toks, i);
    }
    let name = if i + 1 < n {
        match &toks[i + 1] {
            Token::Ident(name) => name.clone(),
            _ => {
                return Err(ParseError::ExpectedIdent);
            },
        }
    } else {
        return Err(ParseError::ExpectedIdent);
    };
    let mut args: Vec<String> = Vec::new();
    let mut j: usize = i + 2;
    assert(names_of(args@) =~= Seq::<Seq<char>>::empty());
    loop
        invariant
            i + 2 <= j <= toks@.len(),
            t == toks_of(toks@),
            t.len() == toks@.len(),
            n == toks@.len(),
            p_bind(t, i as int) == p_bind_args(t, j as int, name@, names_of(args@)),
        ensures
            !(j < t.len() && t[j as int] is Ident),
        decreases toks@.len() - j,
    {
        if j < toks.len() {
            match &toks[j] {
                Token::Ident(arg) => {
                    let ghost before = args@;
                    args.push(arg.clone());
                    assert(names_of(args@) =~= names_of(before).push(t[j as int]->Ident_0));
                    j = j + 1;
                    continue;
                },
                _ => {},
            }
        }
        break;
    }
    if !is_punct_at(toks, j, "=") {
        return Err(ParseError::ExpectedEq);
    }
    let (rhs, k) = parse_add(toks, j + 1)?;
    let bind = BindStruct { name, args, expr: rhs };
    if is_kw_at(toks, k, KwKind::In) {
        let (scope, m) = parse_expr(toks, k + 1)?;
        Ok((Node::LocalBind(Box::new(LocalBindStruct { bind, scope })), m))
    } else {
        Ok((Node::Bind(Box::new(bind)), k))
    }
}

fn parse_add(toks: &[Token], i: usize) -> (r: Result<(Node, usize), ParseError>)
    requires
        i <= toks@.len(),
    ensures
        parsed(r) == p_add(toks_of(toks@), i as int),
        advanced(r, i as int, toks@.len() as int),
    decreases toks@.len() - i, 6int,
{
    let ghost t = toks_of(toks@);
    let n = toks.len();
    proof {
        lemma_toks_of(toks@);
    }
    let (mut node, mut k) = parse_mul(toks, i)?;
    loop
        invariant
            i < k <= toks@.len(),
            t == toks_of(toks@),
            t.len() == toks@.len(),
            n == toks@.len(),
            p_add(t, i as int) == p_add_rest(t, node@, k as int),
            node.lists_wf(),
        ensures
            !is_punct(t, k as int, "+"@) && !is_punct(t, k as int, "-"@),
        decreases toks@.len() - k,
    {
        let plus = is_punct_at(toks, k, "+");
        if !plus && !is_punct_at(toks, k, "-") {
            break;
        }
        let (rhs, m) = parse_mul(toks, k + 1)?;
        node = if plus {
            Node::Add(Box::new(node), Box::new(rhs))
        } else {
            Node::Sub(Box::new(node), Box::new(rhs))
        };
        k = m;
    }
    Ok((node, k))
}

fn parse_mul(toks: &[Token], i: usize) -> (r: Result<(Node, usize), ParseError>)
    requires
        i <= toks@.len(),
    ensures
        parsed(r) == p_mul(toks_of(toks@), i as int),
        advanced(r, i as int, toks@.len() as int),
    decreases toks@.len() - i, 4int,
{
    let ghost t = toks_of(toks@);
    let n = toks.len();
    proof {
        lemma_toks_of(toks@);
    }
    let (mut node, mut k) = parse_equal(toks, i)?;
    loop
        invariant
            i < k <= toks@.len(),
            t == toks_of(toks@),
            t.len() == toks@.len(),
            n == toks@.len(),
            p_mul(t, i as int) == p_mul_rest(t, node@, k as int),
            node.lists_wf(),
        ensures
            !is_punct(t, k as int, "*"@) && !is_punct(t, k as int, "/"@),
        decreases toks@.len() - k,
    {
        let times = is_punct_at(toks, k, "*");
        if !times && !is_punct_at(toks, k, "/") {
            break;
        }
        let (rhs, m) = parse_equal(toks, k + 1)?;
        node = if times {
            Node::Mul(Box::new(node), Box::new(rhs))
        } else {
            Node::Div(Box::new(node), Box::new(rhs))
        };
        k = m;
    }
    Ok((node, k))
}

fn parse_equal(toks: &[Token], i: usize) -> (r: Result<(Node, usize), ParseError>)
    requires
        i <= toks@.len(),
    ensures
        parsed(r) == p_equal(toks_of(toks@), i as int),
        advanced(r, i as int, toks@.len() as int),
    decreases toks@.len() - i, 2int,
{
    let ghost t = toks_of(toks@);
    let n = toks.len();
    proof {
        lemma_toks_of(toks@);
    }
    let (mut node, mut k) = parse_primary(toks, i)?;
    loop
        invariant
            i < k <= toks@.len(),
            t == toks_of(toks@),
            t.len() == toks@.len(),
            n == toks@.len(),
            p_equal(t, i as int) == p_equal_rest(t, node@, k as int),
            node.lists_wf(),
        ensures
            !is_punct(t, k as int, "=="@) && !is_punct(t, k as int, "!="@),
        decreases toks@.len() - k,
    {
        let eq = is_punct_at(toks, k, "==");
        if !eq && !is_punct_at(toks, k, "!=") {
            break;
        }
        let (rhs, m) = parse_primary(toks, k + 1)?;
        node = if eq {
            Node::Eql(Box::new(node), Box::new(rhs))
        } else {
            Node::Neql(Box::new(node), Box::new(rhs))
        };
        k = m;
    }
    Ok((node, k))
}

fn parse_primary(toks: &[Token], i: usize) -> (r: Result<(Node, usize), ParseError>)
    requires
        i <= toks@.len(),
    ensures
        parsed(r) == p_primary(toks_of(toks@), i as int),
        advanced(r, i as int, toks@.len() as int),
    decreases toks@.len() - i, 0int,
{
    proof {
        lemma_toks_of(toks@);
    }
    if i >= toks.len() {
        return Err(ParseError::ExpectedPrimary);
    }
    match &toks[i] {
        Token::Int(v) => Ok((Node::Int(*v), i + 1)),
        Token::Kw(KwKind::True) => Ok((Node::Bool(true), i + 1)),
        Token::Kw(KwKind::False) => Ok((Node::Bool(false), i + 1)),
        Token::Ident(name) => Ok((Node::Ident(name.clone()), i + 1)),
        Token::Punct(p) => {
            if same_text(p.as_str(), "[") {
                parse_list(toks, i + 1)
            } else if same_text(p.as_str(), "(") {
                let (e, k) = parse_expr(toks, i + 1)?;
                if is_punct_at(toks, k, ")") {
                    Ok((e, k + 1))
                } else {
                    Err(ParseError::UnclosedParen)
                }
            } else {
                Err(ParseError::ExpectedPrimary)
            }
        },
        _ => Err(ParseError::ExpectedPrimary),
    }
}

/// Parses the elements of a list literal and its closing bracket; `i` is
/// the position after the opening one.
fn parse_list(toks: &[Token], i: usize) -> (r: Result<(Node, usize), ParseError>)
    requires
        i <= toks@.len(),
    ensures
        parsed(r) == p_list_items(toks_of(toks@), i as int, Seq::empty(), true),
        advanced(r, i as int, toks@.len() as int),
{
    let ghost t = toks_of(toks@);
    let n = toks.len();
    proof {
        lemma_toks_of(toks@);
    }
    let mut items: Vec<i64> = Vec::new();
    let mut first = true;
    let mut j: usize = i;
    loop
        invariant
            i <= j <= toks@.len(),
            t == toks_of(toks@),
            t.len() == toks@.len(),
            n == toks@.len(),
            p_list_items(t, i as int, Seq::empty(), true) == p_list_items(t, j as int, items@, first),
        decreases toks@.len() - j,
    {
        if is_punct_at(toks, j, "]") {
            let list = ListStruct::from_vec(&items);
            return Ok((Node::List(list), j + 1));
        }
        if !first {
            if is_punct_at(toks, j, ";") {
                j = j + 1;
            } else {
                return Err(ParseError::ListSeparator);
            }
        }
        if j < toks.len() {
            match &toks[j] {
                Token::Int(v) => {
                    items.push(*v);
                    j = j + 1;
                    first = false;
                    continue;
                },
                _ => {},
            }
        }
        return Err(ParseError::ListElement);
    }
}

} // verus!
