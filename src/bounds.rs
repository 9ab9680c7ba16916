//! The environment: the names a session has bound, and their values.

use vstd::prelude::*;

use vstd::set_lib::lemma_subset_equality;

use crate::value::Value;

verus! {

/// Some entry of `e` binds `name`.
pub open spec fn binds(e: Seq<(String, Value)>, name: Seq<char>) -> bool {
    exists|i: int| 0 <= i < e.len() && (#[trigger] e[i]).0@ == name
}

/// The entry of `e` that binds `name`, where one does.
pub open spec fn slot(e: Seq<(String, Value)>, name: Seq<char>) -> int {
    choose|i: int| 0 <= i < e.len() && (#[trigger] e[i]).0@ == name
}

/// No name is bound by two entries of `e`.
pub open spec fn names_unique(e: Seq<(String, Value)>) -> bool {
    forall|i: int, j: int|
        0 <= i < e.len() && 0 <= j < e.len() && i != j ==> (#[trigger] e[i]).0@ != (#[trigger] e[j]).0@
}

/// The map from names to values that the entries of `e` give.
pub open spec fn map_of(e: Seq<(String, Value)>) -> Map<Seq<char>, Value> {
    Map::new(|k: Seq<char>| binds(e, k), |k: Seq<char>| e[slot(e, k)].1)
}

/// The environment: names bound to values, each name at most once. Two
/// environments are equal when they bind the same names to the same values.
///
/// The entries are held in a `Vec` with unique names rather than in a
/// `HashMap<String, Value>`: vstd's `HashMap` contracts hold only for keys that
/// obey its key model (`obeys_key_model`), which vstd establishes for integer
/// and `bool` keys but not for `String`; for names it could only be assumed.
#[derive(Debug)]
pub struct Bounds {
    entries: Vec<(String, Value)>,
}

proof fn lemma_map_of_len(e: Seq<(String, Value)>)
    requires
        names_unique(e),
    ensures
        map_of(e).dom().finite(),
        map_of(e).len() == e.len(),
{
    let names = e.map_values(|x: (String, Value)| x.0@);
    assert forall|i: int, j: int| 0 <= i < names.len() && 0 <= j < names.len() && i != j
        implies names[i] != names[j] by {
        assert(e[i].0@ != e[j].0@);
    }
    assert(names.no_duplicates());
    names.unique_seq_to_set();
    assert forall|k: Seq<char>| names.to_set().contains(k) <==> map_of(e).dom().contains(k) by {
        if binds(e, k) {
            let i = choose|i: int| 0 <= i < e.len() && (#[trigger] e[i]).0@ == k;
            assert(names[i] == k);
        }
        if names.contains(k) {
            let i = choose|i: int| 0 <= i < names.len() && names[i] == k;
            assert(e[i].0@ == k);
        }
    }
    assert(names.to_set() =~= map_of(e).dom());
}

/// Where entry `i` binds `name`, it is the entry that the map reads.
proof fn lemma_slot(e: Seq<(String, Value)>, i: int, name: Seq<char>)
    requires
        names_unique(e),
        0 <= i < e.len(),
        e[i].0@ == name,
    ensures
        binds(e, name),
        slot(e, name) == i,
        map_of(e).contains_key(name),
        map_of(e)[name] == e[i].1,
{
    assert(binds(e, name));
    let k = slot(e, name);
    assert(e[k].0@ == name);
}

impl Bounds {
    #[verifier::type_invariant]
    spec fn wf(self) -> bool {
        names_unique(self.entries@)
    }

    pub fn new() -> (r: Self)
        ensures
            r@ == Map::<Seq<char>, Value>::empty(),
    {
        let r = Bounds { entries: Vec::new() };
        assert(r@ =~= Map::<Seq<char>, Value>::empty());
        r
    }

    /// The number of bound names.
    pub fn len(&self) -> (r: usize)
        ensures
            r == self@.len(),
    {
        proof {
            use_type_invariant(self);
            lemma_map_of_len(self.entries@);
        }
        self.entries.len()
    }

    /// Finds the entry that binds `name`.
    fn find(&self, name: &String) -> (r: Option<usize>)
        ensures
            match r {
                Some(i) => i < self.entries@.len() && self.entries@[i as int].0@ == name@,
                None => !binds(self.entries@, name@),
            },
    {
        let mut i: usize = 0;
        while i < self.entries.len()
            invariant
                i <= self.entries@.len(),
                forall|j: int| 0 <= j < i ==> (#[trigger] self.entries@[j]).0@ != name@,
            decreases self.entries@.len() - i,
        {
            if self.entries[i].0 == *name {
                return Some(i);
            }
            i = i + 1;
        }
        None
    }

    /// The value bound to `name`, if any.
    pub fn get(&self, name: &String) -> (r: Option<&Value>)
        ensures
            match r {
                Some(v) => self@.contains_key(name@) && *v == self@[name@],
                None => !self@.contains_key(name@),
            },
    {
        proof {
            use_type_invariant(self);
        }
        match self.find(name) {
            Some(i) => {
                proof {
                    lemma_slot(self.entries@, i as int, name@);
                }
                Some(&self.entries[i].1)
            },
            None => None,
        }
    }

    /// Binds `name` to `value`, replacing what `name` was bound to.
    pub fn bind(&mut self, name: String, value: Value)
        ensures
            final(self)@ == old(self)@.insert(name@, value),
    {
        proof {
            use_type_invariant(&*self);
        }
        let ghost key = name@;
        let ghost v = value;
        let ghost before = self.entries@;
        let found = self.find(&name);
        let mut entries: Vec<(String, Value)> = Vec::new();
        core::mem::swap(&mut entries, &mut self.entries);
        match found {
            Some(i) => {
                entries.set(i, (name, value));
                proof {
                    let after = entries@;
                    assert(names_unique(after)) by {
                        assert forall|a: int, b: int|
                            0 <= a < after.len() && 0 <= b < after.len() && a != b
                            implies (#[trigger] after[a]).0@ != (#[trigger] after[b]).0@ by {
                            assert(before[a].0@ != before[b].0@);
                        }
                    }
                    assert forall|k: Seq<char>|
                        #![auto]
                        map_of(after).dom().contains(k) <==> map_of(before).insert(key, v).dom().contains(k) by {
                        if binds(before, k) {
                            let j = choose|j: int| 0 <= j < before.len() && (#[trigger] before[j]).0@ == k;
                            assert(after[j].0@ == k);
                        }
                        if binds(after, k) {
                            let j = choose|j: int| 0 <= j < after.len() && (#[trigger] after[j]).0@ == k;
                            assert(before[j].0@ == k || j == i);
                        }
                    }
                    assert forall|k: Seq<char>|
                        #![auto]
                        map_of(after).dom().contains(k) implies map_of(after)[k] == map_of(
                            before,
                        ).insert(key, v)[k] by {
                        let j = slot(after, k);
                        if k != key {
                            let jo = slot(before, k);
                            assert(before[jo].0@ == k);
                            lemma_slot(after, j, k);
                            assert(j != i);
                            lemma_slot(before, j, k);
                        } else {
                            lemma_slot(after, i as int, k);
                        }
                    }
                    assert(map_of(after) =~= map_of(before).insert(key, v));
                }
            },
            None => {
                entries.push((name, value));
                proof {
                    let after = entries@;
                    let n = before.len() as int;
                    assert(after[n].0@ == key);
                    assert(names_unique(after)) by {
                        assert forall|a: int, b: int|
                            0 <= a < after.len() && 0 <= b < after.len() && a != b
                            implies (#[trigger] after[a]).0@ != (#[trigger] after[b]).0@ by {
                            if a < n && b < n {
                                assert(before[a].0@ != before[b].0@);
                            } else if a < n {
                                assert(before[a] == after[a]);
                            } else {
                                assert(before[b] == after[b]);
                            }
                        }
                    }
                    assert forall|k: Seq<char>|
                        #![auto]
                        map_of(after).dom().contains(k) <==> map_of(before).insert(key, v).dom().contains(k) by {
                        if binds(before, k) {
                            let j = choose|j: int| 0 <= j < before.len() && (#[trigger] before[j]).0@ == k;
                            assert(after[j].0@ == k);
                        }
                        if binds(after, k) {
                            let j = choose|j: int| 0 <= j < after.len() && (#[trigger] after[j]).0@ == k;
                            if j < n {
                                assert(before[j].0@ == k);
                            }
                        }
                    }
                    assert forall|k: Seq<char>|
                        #![auto]
                        map_of(after).dom().contains(k) implies map_of(after)[k] == map_of(
                            before,
                        ).insert(key, v)[k] by {
                        if k != key {
                            let jo = slot(before, k);
                            assert(before[jo].0@ == k);
                            lemma_slot(before, jo, k);
                            assert(after[jo] == before[jo]);
                            lemma_slot(after, jo, k);
                        } else {
                            lemma_slot(after, n, k);
                        }
                    }
                    assert(map_of(after) =~= map_of(before).insert(key, v));
                }
            },
        }
        self.entries = entries;
    }

    /// A copy of the environment, entry for entry.
    pub fn duplicate(&self) -> (r: Bounds)
        ensures
            r@ == self@,
    {
        proof {
            use_type_invariant(self);
        }
        let mut entries: Vec<(String, Value)> = Vec::new();
        let mut i: usize = 0;
        while i < self.entries.len()
            invariant
                i <= self.entries@.len(),
                entries@ == self.entries@.take(i as int),
            decreases self.entries@.len() - i,
        {
            let e = &self.entries[i];
            entries.push((e.0.clone(), e.1.duplicate()));
            assert(entries@ =~= self.entries@.take(i + 1));
            i = i + 1;
        }
        assert(entries@ =~= self.entries@);
        Bounds { entries }
    }
}

impl View for Bounds {
    type V = Map<Seq<char>, Value>;

    closed spec fn view(&self) -> Map<Seq<char>, Value> {
        map_of(self.entries@)
    }
}

impl PartialEq for Bounds {
    fn eq(&self, other: &Bounds) -> (r: bool)
        ensures
            r == (self@ == other@),
    {
        proof {
            use_type_invariant(self);
            use_type_invariant(other);
            lemma_map_of_len(self.entries@);
            lemma_map_of_len(other.entries@);
        }
        if self.entries.len() != other.entries.len() {
            return false;
        }
        let mut i: usize = 0;
        while i < self.entries.len()
            invariant
                names_unique(self.entries@),
                names_unique(other.entries@),
                i <= self.entries@.len(),
                forall|j: int|
                    0 <= j < i ==> other@.contains_key(#[trigger] self.entries@[j].0@)
                        && other@[self.entries@[j].0@] == self.entries@[j].1,
            decreases self.entries@.len() - i,
        {
            let e = &self.entries[i];
            match other.get(&e.0) {
                Some(w) => {
                    if !e.1.same(w) {
                        proof {
                            lemma_slot(self.entries@, i as int, e.0@);
                        }
                        return false;
                    }
                },
                None => {
                    proof {
                        lemma_slot(self.entries@, i as int, e.0@);
                    }
                    return false;
                },
            }
            i = i + 1;
        }
        proof {
            assert forall|k: Seq<char>| self@.contains_key(k) implies other@.contains_key(k)
                && other@[k] == self@[k] by {
                let j = slot(self.entries@, k);
                assert(self.entries@[j].0@ == k);
            }
            lemma_subset_equality(self@.dom(), other@.dom());
            assert(self@ =~= other@);
        }
        true
    }
}

impl vstd::std_specs::cmp::PartialEqSpecImpl for Bounds {
    open spec fn obeys_eq_spec() -> bool {
        true
    }

    open spec fn eq_spec(&self, other: &Bounds) -> bool {
        self@ == other@
    }
}

} // verus!
