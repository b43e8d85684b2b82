//! An insertion-ordered table from names to values, in which no name occurs
//! twice.

use vstd::prelude::*;

verus! {

/// One entry of a [`Table`].
pub struct Entry<V> {
    pub key: String,
    pub value: V,
}

/// A table from names to values. Entries stay in the order in which their
/// names were first inserted.
pub struct Table<V> {
    pub entries: Vec<Entry<V>>,
}

impl<V> Table<V> {
    /// The names, in order.
    pub open spec fn keys(&self) -> Seq<Seq<char>> {
        Seq::new(self.entries@.len(), |i: int| self.entries@[i].key@)
    }

    /// The values, in the order of their names.
    pub open spec fn values(&self) -> Seq<V> {
        Seq::new(self.entries@.len(), |i: int| self.entries@[i].value)
    }

    /// No name occurs twice.
    pub open spec fn wf(&self) -> bool {
        forall|i: int, j: int|
            0 <= i < j < self.entries@.len() ==> self.entries@[i].key@ != self.entries@[j].key@
    }

    /// Whether `key` has an entry.
    pub open spec fn has(&self, key: Seq<char>) -> bool {
        exists|i: int| 0 <= i < self.entries@.len() && self.entries@[i].key@ == key
    }

    /// The position of the entry of `key`.
    pub open spec fn index_of(&self, key: Seq<char>) -> int {
        choose|i: int| 0 <= i < self.entries@.len() && self.entries@[i].key@ == key
    }

    /// The value of `key`, for a key that has an entry.
    pub open spec fn value_of(&self, key: Seq<char>) -> V {
        self.entries@[self.index_of(key)].value
    }

    /// A table without entries.
    pub fn new() -> (r: Table<V>)
        ensures
            r.entries@.len() == 0,
            r.wf(),
            forall|k: Seq<char>| !r.has(k),
    {
        Table { entries: Vec::new() }
    }

    /// The number of entries.
    pub fn len(&self) -> (r: usize)
        ensures
            r == self.entries@.len(),
    {
        self.entries.len()
    }

    /// The position of the entry of `key`, if it has one.
    pub fn position(&self, key: &str) -> (r: Option<usize>)
        ensures
            r is Some <==> self.has(key@),
            r matches Some(i) ==> i < self.entries@.len() && self.entries@[i as int].key@ == key@,
            self.wf() && r is Some ==> r->0 == self.index_of(key@),
    {
        let mut i: usize = 0;
        while i < self.entries.len()
            invariant
                i <= self.entries@.len(),
                forall|k: int| 0 <= k < i ==> self.entries@[k].key@ != key@,
            decreases self.entries.len() - i,
        {
            if crate::common::text::str_eq(self.entries[i].key.as_str(), key) {
                return Some(i);
            }
            i += 1;
        }
        None
    }

    /// Binds `key` to `value`: in place where the key has an entry, at the
    /// end where it has none.
    pub fn insert(&mut self, key: String, value: V)
        requires
            old(self).wf(),
        ensures
            final(self).wf(),
            final(self).has(key@),
            final(self).value_of(key@) == value,
            forall|k: Seq<char>| k != key@ ==> final(self).has(k) == old(self).has(k),
            forall|k: Seq<char>|
                k != key@ && old(self).has(k) ==> final(self).value_of(k) == old(self).value_of(k),
            old(self).has(key@) ==> final(self).keys() == old(self).keys() && final(self).values()
                == old(self).values().update(old(self).index_of(key@), value),
            !old(self).has(key@) ==> final(self).keys() == old(self).keys().push(key@)
                && final(self).values() == old(self).values().push(value),
    {
        let found = self.position(key.as_str());
        match found {
            Some(i) => {
                let ghost before = self.entries@;
                self.entries[i] = Entry { key, value };
                proof {
                    let after = self.entries@;
                    assert(after.len() == before.len());
                    assert(forall|k: int| 0 <= k < after.len() ==> after[k].key@ == before[k].key@);
                    assert(self.keys() =~= old(self).keys());
                    assert(self.values() =~= old(self).values().update(i as int, value));
                    assert(after[i as int].key@ == key@);
                    assert(self.index_of(key@) == i);
                    assert forall|k: Seq<char>| k != key@ implies self.has(k) == old(self).has(k) by {
                        if old(self).has(k) {
                            let w = old(self).index_of(k);
                            assert(after[w].key@ == k);
                        }
                        if self.has(k) {
                            let w = self.index_of(k);
                            assert(before[w].key@ == k);
                        }
                    }
                    assert forall|k: Seq<char>| k != key@
                        && old(self).has(k) implies self.value_of(k) == old(self).value_of(k) by {
                        let w = old(self).index_of(k);
                        assert(after[w].key@ == k);
                        let w2 = self.index_of(k);
                        assert(before[w2].key@ == k);
                        assert(w == w2);
                    }
                }
            },
            None => {
                let ghost before = self.entries@;
                self.entries.push(Entry { key, value });
                proof {
                    let after = self.entries@;
                    let n = before.len() as int;
                    assert(after[n].key@ == key@);
                    assert(self.keys() =~= old(self).keys().push(key@));
                    assert(self.values() =~= old(self).values().push(value));
                    assert(self.has(key@));
                    assert(self.index_of(key@) == n);
                    assert forall|k: Seq<char>| k != key@ implies self.has(k) == old(self).has(k) by {
                        if old(self).has(k) {
                            let w = old(self).index_of(k);
                            assert(after[w].key@ == k);
                        }
                        if self.has(k) {
                            let w = self.index_of(k);
                            assert(before[w].key@ == k);
                        }
                    }
                    assert forall|k: Seq<char>| k != key@
                        && old(self).has(k) implies self.value_of(k) == old(self).value_of(k) by {
                        let w = old(self).index_of(k);
                        assert(after[w].key@ == k);
                        let w2 = self.index_of(k);
                        assert(before[w2].key@ == k);
                        assert(w == w2);
                    }
                }
            },
        }
    }
}

} // verus!
