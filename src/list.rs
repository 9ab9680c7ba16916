//! The integer cons-list that a list literal builds.

use vstd::prelude::*;

use crate::text::{items_text, list_text, push_int};

verus! {

/// A cons-list of integers as it stands in a list literal: a node holds a
/// head and an owned tail; the empty marker holds neither.
#[derive(Debug, PartialEq, Eq)]
pub struct ListStruct(pub Option<i64>, pub Option<Box<ListStruct>>);

impl ListStruct {
    /// The elements, front to back. A node that is not a full `(head, tail)`
    /// pair ends the list.
    pub open spec fn items(&self) -> Seq<i64>
        decreases self,
    {
        match self {
            ListStruct(Some(head), Some(rest)) => seq![*head] + rest.items(),
            _ => Seq::empty(),
        }
    }

    /// Every node is a full pair, and the chain ends in the empty marker.
    pub open spec fn wf(&self) -> bool
        decreases self,
    {
        match self {
            ListStruct(None, None) => true,
            ListStruct(Some(_), Some(rest)) => rest.wf(),
            _ => false,
        }
    }

    pub fn new() -> (r: Self)
        ensures
            r.wf(),
            r@ == Seq::<i64>::empty(),
    {
        ListStruct(None, None)
    }

    pub fn cons(&mut self, head: i64)
        ensures
            final(self)@ == seq![head] + old(self)@,
            old(self).wf() ==> final(self).wf(),
            *final(self) == ListStruct(Some(head), Some(Box::new(*old(self)))),
    {
        let mut rest = ListStruct(None, None);
        core::mem::swap(self, &mut rest);
        *self = ListStruct(Some(head), Some(Box::new(rest)));
    }

    /// A list that holds `items`, front to back, in well-formed shape.
    pub open spec fn of_items(items: Seq<i64>) -> ListStruct
        decreases items.len(),
    {
        if items.len() == 0 {
            ListStruct(None, None)
        } else {
            ListStruct(Some(items[0]), Some(Box::new(ListStruct::of_items(items.drop_first()))))
        }
    }

    /// A node-for-node copy.
    pub fn duplicate(&self) -> (r: Self)
        ensures
            r == *self,
        decreases self,
    {
        match self {
            ListStruct(head, None) => ListStruct(*head, None),
            ListStruct(head, Some(rest)) => ListStruct(*head, Some(Box::new(rest.duplicate()))),
        }
    }

    /// Builds the list by prepending the elements from the last to the first.
    pub fn from_vec(items: &Vec<i64>) -> (r: Self)
        ensures
            r.wf(),
            r@ == items@,
            r == ListStruct::of_items(items@),
    {
        let mut lst = ListStruct::new();
        let mut i: usize = items.len();
        while i > 0
            invariant
                i <= items.len(),
                lst.wf(),
                lst@ == items@.skip(i as int),
                lst == ListStruct::of_items(items@.skip(i as int)),
            decreases i,
        {
            i = i - 1;
            lst.cons(items[i]);
            assert(items@.skip(i as int).drop_first() =~= items@.skip(i + 1));
            assert(seq![items@[i as int]] + items@.skip(i + 1) =~= items@.skip(i as int));
        }
        assert(items@.skip(0) =~= items@);
        lst
    }

    /// The list as the toplevel writes it, `[1; 2; 3]`.
    pub fn to_string(&self) -> (r: String)
        ensures
            r@ == list_text(self@),
    {
        proof {
            reveal_strlit("[");
            reveal_strlit("]");
        }
        let mut s = String::from_str("[");
        self.push_items(&mut s, true);
        s.append("]");
        s
    }

    fn push_items(&self, s: &mut String, first: bool)
        ensures
            final(s)@ == old(s)@ + items_text(self@, first),
        decreases self,
    {
        match self {
            ListStruct(Some(head), Some(rest)) => {
                if !first {
                    proof {
                        reveal_strlit("; ");
                    }
                    s.append("; ");
                }
                push_int(s, *head);
                rest.push_items(s, false);
                assert(self@.drop_first() =~= rest@);
                assert(s@ =~= old(s)@ + items_text(self@, first));
            },
            _ => {
                assert(s@ =~= old(s)@ + items_text(self@, first));
            },
        }
    }
}

impl<'a> From<&'a Vec<i64>> for ListStruct {
    fn from(items: &'a Vec<i64>) -> (r: Self)
        ensures
            r == ListStruct::of_items(items@),
    {
        ListStruct::from_vec(items)
    }
}

impl<'a> vstd::std_specs::convert::FromSpecImpl<&'a Vec<i64>> for ListStruct {
    open spec fn obeys_from_spec() -> bool {
        true
    }

    open spec fn from_spec(items: &'a Vec<i64>) -> Self {
        ListStruct::of_items(items@)
    }
}

impl Clone for ListStruct {
    fn clone(&self) -> (r: Self)
        ensures
            r == *self,
    {
        self.duplicate()
    }
}

impl View for ListStruct {
    type V = Seq<i64>;

    open spec fn view(&self) -> Seq<i64> {
        self.items()
    }
}

} // verus!
