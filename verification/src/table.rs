//! A table from names to values, as the assembler keeps its labels and its
//! variables. No name occurs twice.

use vstd::prelude::*;

verus! {

/// The place of `name` among the names, if it is one of them.
pub open spec fn place<V>(entries: Seq<(String, V)>, name: Seq<char>) -> int {
    choose|i: int| 0 <= i < entries.len() && (#[trigger] entries[i]).0@ == name
}

/// Whether `name` is one of the names.
pub open spec fn named<V>(entries: Seq<(String, V)>, name: Seq<char>) -> bool {
    exists|i: int| 0 <= i < entries.len() && (#[trigger] entries[i]).0@ == name
}

/// No name occurs twice.
pub open spec fn distinct<V>(entries: Seq<(String, V)>) -> bool {
    forall|i: int, j: int|
        0 <= i < j < entries.len() ==> (#[trigger] entries[i]).0@ != (#[trigger] entries[j]).0@
}

/// The map that the entries stand for.
pub open spec fn mapping<V>(entries: Seq<(String, V)>) -> Map<Seq<char>, V> {
    Map::new(|name: Seq<char>| named(entries, name), |name: Seq<char>| entries[place(entries, name)].1)
}

/// With distinct names, each entry is found under its name.
pub proof fn lemma_place<V>(entries: Seq<(String, V)>, i: int)
    requires
        distinct(entries),
        0 <= i < entries.len(),
    ensures
        named(entries, entries[i].0@),
        place(entries, entries[i].0@) == i,
        mapping(entries)[entries[i].0@] == entries[i].1,
{
    let name = entries[i].0@;
    let found = place(entries, name);
    assert(0 <= found < entries.len() && entries[found].0@ == name);
    if found < i {
        assert(entries[found].0@ != entries[i].0@);
    } else if i < found {
        assert(entries[i].0@ != entries[found].0@);
    }
}

/// The names of distinct entries are as many as the entries.
pub proof fn lemma_names_counted<V>(entries: Seq<(String, V)>)
    requires
        distinct(entries),
    ensures
        mapping(entries).dom().finite(),
        mapping(entries).dom().len() == entries.len(),
    decreases entries.len(),
{
    let names = mapping(entries).dom();
    if entries.len() == 0 {
        assert(names =~= Set::<Seq<char>>::empty());
    } else {
        let before = entries.drop_last();
        let last = entries.last().0@;
        lemma_names_counted(before);
        assert forall|name: Seq<char>| names.contains(name) <==> mapping(before).dom().insert(
            last,
        ).contains(name) by {
            if named(entries, name) {
                let i = place(entries, name);
                if i < before.len() {
                    assert(before[i].0@ == name);
                }
            }
            if named(before, name) {
                let i = place(before, name);
                assert(entries[i].0@ == name);
            }
            if name == last {
                assert(entries[entries.len() - 1].0@ == name);
            }
        }
        assert(names =~= mapping(before).dom().insert(last));
        if named(before, last) {
            let i = place(before, last);
            assert(entries[i].0@ == entries[entries.len() - 1].0@);
        }
    }
}

/// A table from names to values.
pub struct Table<V> {
    entries: Vec<(String, V)>,
}

impl<V> View for Table<V> {
    type V = Map<Seq<char>, V>;

    closed spec fn view(&self) -> Map<Seq<char>, V> {
        mapping(self.entries@)
    }
}

impl<V> Table<V> {
    /// The invariant of the table: no name occurs twice.
    pub closed spec fn wf(&self) -> bool {
        distinct(self.entries@)
    }

    /// A table without entries.
    pub fn new() -> (r: Table<V>)
        ensures
            r@ == Map::<Seq<char>, V>::empty(),
            r.wf(),
    {
        let r = Table { entries: Vec::new() };
        proof {
            assert(r@ =~= Map::<Seq<char>, V>::empty());
        }
        r
    }

    /// A table holds finitely many names.
    pub proof fn lemma_finite(&self)
        requires
            self.wf(),
        ensures
            self@.dom().finite(),
    {
        lemma_names_counted(self.entries@);
    }

    /// How many names the table holds.
    pub fn len(&self) -> (r: usize)
        requires
            self.wf(),
        ensures
            self@.dom().finite(),
            r == self@.dom().len(),
    {
        proof {
            lemma_names_counted(self.entries@);
        }
        self.entries.len()
    }

    /// Where the name stands among the entries.
    fn find(&self, name: &str) -> (r: Option<usize>)
        ensures
            match r {
                Some(i) => i < self.entries@.len() && self.entries@[i as int].0@ == name@,
                None => !named(self.entries@, name@),
            },
    {
        let wanted = String::from_str(name);
        let mut at: usize = 0;
        while at < self.entries.len()
            invariant
                at <= self.entries@.len(),
                wanted@ == name@,
                forall|i: int| 0 <= i < at ==> (#[trigger] self.entries@[i]).0@ != name@,
            decreases self.entries@.len() - at,
        {
            if self.entries[at].0 == wanted {
                return Some(at);
            }
            at += 1;
        }
        None
    }

    /// Whether the table holds the name.
    pub fn contains_key(&self, name: &str) -> (r: bool)
        ensures
            r == self@.dom().contains(name@),
    {
        self.find(name).is_some()
    }

    /// What stands under the name.
    pub fn get(&self, name: &str) -> (r: Option<&V>)
        requires
            self.wf(),
        ensures
            match r {
                Some(value) => self@.dom().contains(name@) && *value == self@[name@],
                None => !self@.dom().contains(name@),
            },
    {
        match self.find(name) {
            Some(i) => {
                proof {
                    lemma_place(self.entries@, i as int);
                }
                Some(&self.entries[i].1)
            },
            None => None,
        }
    }

    /// Puts the value under the name, in place of what stood there.
    pub fn insert(&mut self, name: &str, value: V)
        requires
            old(self).wf(),
        ensures
            final(self)@ == old(self)@.insert(name@, value),
            final(self).wf(),
    {
        let ghost before = self.entries@;
        match self.find(name) {
            Some(i) => {
                let key = String::from_str(name);
                self.entries.set(i, (key, value));
                proof {
                    let after = self.entries@;
                    assert forall|a: int, b: int| 0 <= a < b < after.len() implies (
                    #[trigger] after[a]).0@ != (#[trigger] after[b]).0@ by {
                        assert(before[a].0@ != before[b].0@);
                    }
                    assert forall|n: Seq<char>| named(after, n) <==> named(before, n) by {
                        if named(after, n) {
                            let k = place(after, n);
                            assert(before[k].0@ == n);
                        }
                        if named(before, n) {
                            let k = place(before, n);
                            assert(after[k].0@ == n);
                        }
                    }
                    assert forall|n: Seq<char>| named(after, n) implies mapping(after)[n]
                        == mapping(before).insert(name@, value)[n] by {
                        let k = place(after, n);
                        lemma_place(after, k);
                        if k != i {
                            lemma_place(before, k);
                        }
                    }
                    lemma_place(before, i as int);
                    assert(mapping(after) =~= mapping(before).insert(name@, value));
                }
            },
            None => {
                let key = String::from_str(name);
                self.entries.push((key, value));
                proof {
                    let after = self.entries@;
                    assert forall|a: int, b: int| 0 <= a < b < after.len() implies (
                    #[trigger] after[a]).0@ != (#[trigger] after[b]).0@ by {
                        if b < before.len() {
                            assert(before[a].0@ != before[b].0@);
                        } else {
                            assert(before[a].0@ != name@);
                        }
                    }
                    assert forall|n: Seq<char>| named(after, n) <==> (named(before, n) || n
                        == name@) by {
                        if named(after, n) {
                            let k = place(after, n);
                            if k < before.len() {
                                assert(before[k].0@ == n);
                            }
                        }
                        if named(before, n) {
                            let k = place(before, n);
                            assert(after[k].0@ == n);
                        }
                        if n == name@ {
                            assert(after[after.len() - 1].0@ == n);
                        }
                    }
                    assert forall|n: Seq<char>| named(after, n) implies mapping(after)[n]
                        == mapping(before).insert(name@, value)[n] by {
                        let k = place(after, n);
                        lemma_place(after, k);
                        if k < before.len() {
                            lemma_place(before, k);
                        }
                    }
                    assert(mapping(after) =~= mapping(before).insert(name@, value));
                }
            },
        }
    }

    /// Takes the name out of the table, and gives what stood under it.
    pub fn remove(&mut self, name: &str) -> (r: Option<V>)
        requires
            old(self).wf(),
        ensures
            final(self).wf(),
            final(self)@ == old(self)@.remove(name@),
            r == (if old(self)@.dom().contains(name@) {
                Some(old(self)@[name@])
            } else {
                None
            }),
    {
        let ghost before = self.entries@;
        match self.find(name) {
            Some(i) => {
                let entry = self.entries.remove(i);
                proof {
                    let after = self.entries@;
                    lemma_place(before, i as int);
                    assert forall|a: int, b: int| 0 <= a < b < after.len() implies (
                    #[trigger] after[a]).0@ != (#[trigger] after[b]).0@ by {
                        let a0 = if a < i { a } else { a + 1 };
                        let b0 = if b < i { b } else { b + 1 };
                        assert(before[a0].0@ != before[b0].0@);
                    }
                    assert forall|n: Seq<char>| named(after, n) <==> (named(before, n) && n
                        != name@) by {
                        if named(after, n) {
                            let k = place(after, n);
                            let k0 = if k < i { k } else { k + 1 };
                            assert(before[k0].0@ == n);
                            if k0 < i {
                                assert(before[k0].0@ != before[i as int].0@);
                            } else {
                                assert(before[i as int].0@ != before[k0].0@);
                            }
                        }
                        if named(before, n) && n != name@ {
                            let k = place(before, n);
                            let k1 = if k < i { k } else { k - 1 };
                            assert(after[k1].0@ == n);
                        }
                    }
                    assert forall|n: Seq<char>| named(after, n) implies mapping(after)[n]
                        == mapping(before)[n] by {
                        let k = place(after, n);
                        lemma_place(after, k);
                        let k0 = if k < i { k } else { k + 1 };
                        lemma_place(before, k0);
                    }
                    assert(mapping(after) =~= mapping(before).remove(name@));
                }
                Some(entry.1)
            },
            None => {
                proof {
                    assert(mapping(before) =~= mapping(before).remove(name@));
                }
                None
            },
        }
    }
}

} // verus!
