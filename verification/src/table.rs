//! A table from names to entries, as each scope keeps two of.
use vstd::prelude::*;
use crate::text::same_text;

verus! {

/// A name and what is bound to it.
#[derive(Debug)]
pub struct Binding<T> {
    name: Vec<char>,
    value: T,
}

/// A finite mapping from names to entries. No name is held twice.
#[derive(Debug)]
pub struct Table<T> {
    bindings: Vec<Binding<T>>,
}

impl<T> Table<T> {
    /// Whether the binding at place `i` bears the name `name`.
    spec fn names(&self, i: int, name: Seq<char>) -> bool {
        0 <= i < self.bindings.len() && self.bindings[i].name@ == name
    }

    /// No two bindings bear the same name.
    pub closed spec fn wf(&self) -> bool {
        forall|i: int, j: int|
            0 <= i < self.bindings.len() && 0 <= j < self.bindings.len()
                && self.bindings[i].name@ == self.bindings[j].name@ ==> i == j
    }

    /// The mapping that the table stands for.
    pub closed spec fn view(&self) -> Map<Seq<char>, T> {
        Map::new(
            |name: Seq<char>| exists|i: int| self.names(i, name),
            |name: Seq<char>| self.bindings[choose|i: int| self.names(i, name)].value,
        )
    }

    /// The empty table.
    pub fn new() -> (table: Table<T>)
        ensures
            table.wf(),
            table@ == Map::<Seq<char>, T>::empty(),
    {
        let table = Table { bindings: Vec::new() };
        assert(table@ =~= Map::<Seq<char>, T>::empty());
        table
    }

    /// The place of the binding that bears `name`, if there is one.
    fn find(&self, name: &Vec<char>) -> (r: Option<usize>)
        requires
            self.wf(),
        ensures
            match r {
                Some(i) => self.names(i as int, name@) && self@.dom().contains(name@) && self@[name@]
                    == self.bindings[i as int].value,
                None => !self@.dom().contains(name@),
            },
    {
        let mut i: usize = 0;
        while i < self.bindings.len()
            invariant
                self.wf(),
                i <= self.bindings.len(),
                forall|j: int| 0 <= j < i ==> !self.names(j, name@),
            decreases self.bindings.len() - i,
        {
            if same_text(&self.bindings[i].name, name) {
                proof {
                    assert(self.names(i as int, name@));
                    let j = choose|j: int| self.names(j, name@);
                    assert(j == i);
                }
                return Some(i);
            }
            i += 1;
        }
        None
    }

    /// The entry bound to `name`, if there is one.
    pub fn get(&self, name: &Vec<char>) -> (r: Option<&T>)
        requires
            self.wf(),
        ensures
            match r {
                Some(value) => self@.dom().contains(name@) && *value == self@[name@],
                None => !self@.dom().contains(name@),
            },
    {
        match self.find(name) {
            Some(i) => Some(&self.bindings[i].value),
            None => None,
        }
    }

    /// Binds `value` to `name`, in place of what was bound to it before.
    pub fn insert(&mut self, name: Vec<char>, value: T)
        requires
            old(self).wf(),
        ensures
            final(self).wf(),
            final(self)@ == old(self)@.insert(name@, value),
    {
        let found = self.find(&name);
        let ghost key = name@;
        match found {
            Some(i) => {
                self.bindings.set(i, Binding { name, value });
                assert(self.wf());
                assert forall|k: Seq<char>| self@.dom().contains(k) == old(self)@.insert(
                    key,
                    value,
                ).dom().contains(k) by {
                    if self@.dom().contains(k) {
                        let j = choose|j: int| self.names(j, k);
                        assert(old(self).names(j, k));
                    }
                    if old(self)@.dom().contains(k) {
                        let j = choose|j: int| old(self).names(j, k);
                        assert(self.names(j, k));
                    }
                    if k == key {
                        assert(self.names(i as int, k));
                    }
                }
                assert forall|k: Seq<char>| self@.dom().contains(k) implies self@[k] == old(
                    self,
                )@.insert(key, value)[k] by {
                    let j = choose|j: int| self.names(j, k);
                    assert(old(self).names(j, k));
                    if k != key {
                        let j0 = choose|j0: int| old(self).names(j0, k);
                        assert(j0 == j);
                    } else {
                        assert(j == i);
                    }
                }
                assert(self@ =~= old(self)@.insert(key, value));
            },
            None => {
                self.bindings.push(Binding { name, value });
                let ghost last = old(self).bindings.len() as int;
                assert(self.names(last, key));
                assert(self.wf()) by {
                    assert forall|i: int, j: int|
                        0 <= i < self.bindings.len() && 0 <= j < self.bindings.len()
                            && self.bindings[i].name@ == self.bindings[j].name@ implies i == j by {
                        if i < last && j == last {
                            assert(old(self).names(i, key));
                        }
                        if j < last && i == last {
                            assert(old(self).names(j, key));
                        }
                    }
                }
                assert forall|k: Seq<char>| self@.dom().contains(k) == old(self)@.insert(
                    key,
                    value,
                ).dom().contains(k) by {
                    if self@.dom().contains(k) {
                        let j = choose|j: int| self.names(j, k);
                        if j < last {
                            assert(old(self).names(j, k));
                        }
                    }
                    if old(self)@.dom().contains(k) {
                        let j = choose|j: int| old(self).names(j, k);
                        assert(self.names(j, k));
                    }
                }
                assert forall|k: Seq<char>| self@.dom().contains(k) implies self@[k] == old(
                    self,
                )@.insert(key, value)[k] by {
                    let j = choose|j: int| self.names(j, k);
                    if k != key {
                        assert(j < last);
                        assert(old(self).names(j, k));
                        let j0 = choose|j0: int| old(self).names(j0, k);
                        assert(j0 == j);
                    } else {
                        assert(j == last);
                    }
                }
                assert(self@ =~= old(self)@.insert(key, value));
            },
        }
    }
}

} // verus!
