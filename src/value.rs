//! Values of the language: integers, booleans, integer lists and the
//! function marker.

use vstd::prelude::*;

use crate::list::ListStruct;
use crate::text::{decimal, items_text, list_text, push_int};

verus! {

/// A cons-list of integers as a runtime value: a node holds a head and an
/// owned tail; the empty marker holds neither.
#[derive(Debug, PartialEq, Eq)]
pub struct List(pub Option<i64>, pub Option<Box<List>>);

impl List {
    /// The elements, front to back. A node that is not a full `(head, tail)`
    /// pair ends the list.
    pub open spec fn items(&self) -> Seq<i64>
        decreases self,
    {
        match self {
            List(Some(head), Some(rest)) => seq![*head] + rest.items(),
            _ => Seq::empty(),
        }
    }

    /// Every node is a full pair, and the chain ends in the empty marker.
    pub open spec fn wf(&self) -> bool
        decreases self,
    {
        match self {
            List(None, None) => true,
            List(Some(_), Some(rest)) => rest.wf(),
            _ => false,
        }
    }

    pub fn new() -> (r: Self)
        ensures
            r.wf(),
            r@ == Seq::<i64>::empty(),
    {
        List(None, None)
    }

    pub fn cons(&mut self, head: i64)
        ensures
            final(self)@ == seq![head] + old(self)@,
            old(self).wf() ==> final(self).wf(),
            *final(self) == List(Some(head), Some(Box::new(*old(self)))),
    {
        let mut rest = List(None, None);
        core::mem::swap(self, &mut rest);
        *self = List(Some(head), Some(Box::new(rest)));
    }

    /// A list that holds `items`, front to back, in well-formed shape.
    pub open spec fn of_items(items: Seq<i64>) -> List
        decreases items.len(),
    {
        if items.len() == 0 {
            List(None, None)
        } else {
            List(Some(items[0]), Some(Box::new(List::of_items(items.drop_first()))))
        }
    }

    /// A node-for-node copy.
    pub fn duplicate(&self) -> (r: Self)
        ensures
            r == *self,
        decreases self,
    {
        match self {
            List(head, None) => List(*head, None),
            List(head, Some(rest)) => List(*head, Some(Box::new(rest.duplicate()))),
        }
    }

    /// Builds the list by prepending the elements from the last to the first.
    pub fn from_vec(items: &Vec<i64>) -> (r: Self)
        ensures
            r.wf(),
            r@ == items@,
            r == List::of_items(items@),
    {
        let mut lst = List::new();
        let mut i: usize = items.len();
        while i > 0
            invariant
                i <= items.len(),
                lst.wf(),
                lst@ == items@.skip(i as int),
                lst == List::of_items(items@.skip(i as int)),
            decreases i,
        {
            i = i - 1;
            lst.cons(items[i]);
            assert(items@.skip(i as int).drop_first() =~= items@.skip(i + 1));
            assert(seq![items@[i as int]] + items@.skip(i + 1) =~= items@.skip(i as int));
        }
        assert(items@.skip(0) =~= items@);
        lst
    }

    /// The list as the toplevel writes it, `[1; 2; 3]`.
    pub fn to_string(&self) -> (r: String)
        ensures
            r@ == list_text(self@),
    {
        proof {
            reveal_strlit("[");
            reveal_strlit("]");
        }
        let mut s = String::from_str("[");
        self.push_items(&mut s, true);
        s.append("]");
        s
    }

    fn push_items(&self, s: &mut String, first: bool)
        ensures
            final(s)@ == old(s)@ + items_text(self@, first),
        decreases self,
    {
        match self {
            List(Some(head), Some(rest)) => {
                if !first {
                    proof {
                        reveal_strlit("; ");
                    }
                    s.append("; ");
                }
                push_int(s, *head);
                rest.push_items(s, false);
                assert(self@.drop_first() =~= rest@);
                assert(s@ =~= old(s)@ + items_text(self@, first));
            },
            _ => {
                assert(s@ =~= old(s)@ + items_text(self@, first));
            },
        }
    }
}

impl<'a> From<&'a Vec<i64>> for List {
    fn from(items: &'a Vec<i64>) -> (r: Self)
        ensures
            r == List::of_items(items@),
    {
        List::from_vec(items)
    }
}

impl<'a> vstd::std_specs::convert::FromSpecImpl<&'a Vec<i64>> for List {
    open spec fn obeys_from_spec() -> bool {
        true
    }

    open spec fn from_spec(items: &'a Vec<i64>) -> Self {
        List::of_items(items@)
    }
}

impl Clone for List {
    fn clone(&self) -> (r: Self)
        ensures
            r == *self,
    {
        self.duplicate()
    }
}

impl View for List {
    type V = Seq<i64>;

    open spec fn view(&self) -> Seq<i64> {
        self.items()
    }
}


impl List {
    /// The value of a list literal: the same elements, in well-formed shape.
    pub fn from_literal(lit: &ListStruct) -> (r: List)
        ensures
            r.wf(),
            r@ == lit@,
            r == List::of_items(lit@),
        decreases lit,
    {
        match lit {
            ListStruct(Some(head), Some(rest)) => {
                let mut r = List::from_literal(rest);
                r.cons(*head);
                assert(lit@.drop_first() =~= rest@);
                r
            },
            _ => List::new(),
        }
    }
}

/// A value of the language, with its type.
#[derive(Debug, PartialEq, Eq)]
pub enum Value {
    Int(i64),
    Bool(bool),
    List(List),
    /// A function: an opaque marker, never applied.
    Fn,
}

/// The type and value as the toplevel writes them after the colon:
/// `int = 42`, `bool = true`, `int list = [1; 2]`, `... = <fun>`.
pub open spec fn value_text(v: Value) -> Seq<char> {
    match v {
        Value::Int(i) => "int = "@ + decimal(i as int),
        Value::Bool(b) => "bool = "@ + (if b { "true"@ } else { "false"@ }),
        Value::List(l) => "int list = "@ + list_text(l@),
        Value::Fn => "... = <fun>"@,
    }
}

impl Value {
    pub fn duplicate(&self) -> (r: Value)
        ensures
            r == *self,
    {
        match self {
            Value::Int(i) => Value::Int(*i),
            Value::Bool(b) => Value::Bool(*b),
            Value::List(l) => Value::List(l.duplicate()),
            Value::Fn => Value::Fn,
        }
    }

    /// Appends the type and the value, as `value_text` gives them.
    pub fn push_text(&self, s: &mut String)
        ensures
            final(s)@ == old(s)@ + value_text(*self),
    {
        proof {
            reveal_strlit("int = ");
            reveal_strlit("bool = ");
            reveal_strlit("true");
            reveal_strlit("false");
            reveal_strlit("int list = ");
            reveal_strlit("... = <fun>");
        }
        match self {
            Value::Int(i) => {
                s.append("int = ");
                push_int(s, *i);
            },
            Value::Bool(b) => {
                s.append("bool = ");
                if *b {
                    s.append("true");
                } else {
                    s.append("false");
                }
            },
            Value::List(l) => {
                s.append("int list = ");
                let t = l.to_string();
                s.append(t.as_str());
            },
            Value::Fn => {
                s.append("... = <fun>");
            },
        }
        assert(s@ =~= old(s)@ + value_text(*self));
    }
}

impl List {
    /// Whether the two lists are the same, node for node.
    pub fn same(&self, other: &List) -> (r: bool)
        ensures
            r == (*self == *other),
        decreases self,
    {
        let heads = match (self.0, other.0) {
            (Some(a), Some(b)) => a == b,
            (None, None) => true,
            _ => false,
        };
        if !heads {
            return false;
        }
        match (&self.1, &other.1) {
            (Some(a), Some(b)) => a.same(b),
            (None, None) => true,
            _ => false,
        }
    }
}

impl Value {
    /// Whether the two values are the same.
    pub fn same(&self, other: &Value) -> (r: bool)
        ensures
            r == (*self == *other),
    {
        match (self, other) {
            (Value::Int(a), Value::Int(b)) => *a == *b,
            (Value::Bool(a), Value::Bool(b)) => *a == *b,
            (Value::List(a), Value::List(b)) => a.same(b),
            (Value::Fn, Value::Fn) => true,
            _ => false,
        }
    }
}

impl Clone for Value {
    fn clone(&self) -> (r: Self)
        ensures
            r == *self,
    {
        self.duplicate()
    }
}

} // verus!
