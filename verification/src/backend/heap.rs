//! The heap of shared containers: two arenas addressed by index, each with
//! a stack of indices that are free for reuse.

use vstd::prelude::*;
use crate::backend::table::Table;
use crate::backend::value::{DataType, Node, Value};

verus! {

/// A lexical frame: names bound to values, or declared without one.
pub type Scope = Table<Option<DataType>>;

/// A record of the heap.
pub type Record = Table<DataType>;

/// The arenas of lists and records.
///
/// A handle `List(i)` or `NamelessRecord(i)` names the slot `i` of its
/// arena. Slots never move and the arenas never shrink; a slot whose index
/// is on the free stack holds nothing that is in use.
pub struct Heap {
    pub lists: Vec<Vec<DataType>>,
    pub free_lists: Vec<usize>,
    pub nameless_records: Vec<Record>,
    pub free_nameless_records: Vec<usize>,
    /// Elements and fields allocated since the last collection.
    pub total_allocated_object_count: usize,
}

/// What a heap holds, as a program sees it: the values of each list, the
/// keys and the values of each record in their order, the free stacks, and
/// how much was allocated since the last collection.
pub struct HeapView {
    pub lists: Seq<Seq<Value>>,
    pub free_lists: Seq<usize>,
    pub records: Seq<(Seq<Seq<char>>, Seq<Value>)>,
    pub free_records: Seq<usize>,
    pub allocated: usize,
}

impl View for Heap {
    type V = HeapView;

    open spec fn view(&self) -> HeapView {
        HeapView {
            lists: Seq::new(self.lists@.len(), |i: int| list_values(self.lists@[i]@)),
            free_lists: self.free_lists@,
            records: Seq::new(
                self.nameless_records@.len(),
                |i: int| (self.nameless_records@[i].keys(),
                    record_values(self.nameless_records@[i])),
            ),
            free_records: self.free_nameless_records@,
            allocated: self.total_allocated_object_count,
        }
    }
}

/// The position of the first of `keys` that is `key`, or -1.
pub open spec fn key_position(keys: Seq<Seq<char>>, key: Seq<char>) -> int
    decreases keys.len(),
{
    if keys.len() == 0 {
        -1
    } else if key_position(keys.drop_last(), key) >= 0 {
        key_position(keys.drop_last(), key)
    } else if keys.last() == key {
        keys.len() - 1
    } else {
        -1
    }
}

/// The keys of a record once `key` is bound: as they were where it was
/// bound before, and with `key` behind them where it was not.
pub open spec fn keys_with(keys: Seq<Seq<char>>, key: Seq<char>) -> Seq<Seq<char>> {
    if key_position(keys, key) >= 0 {
        keys
    } else {
        keys.push(key)
    }
}

/// The values of a record once `key` is bound to `value`: in the place of
/// the old value where it was bound before, and behind them where it was
/// not.
pub open spec fn values_with(
    keys: Seq<Seq<char>>,
    values: Seq<Value>,
    key: Seq<char>,
    value: Value,
) -> Seq<Value> {
    if key_position(keys, key) >= 0 {
        values.update(key_position(keys, key), value)
    } else {
        values.push(value)
    }
}

/// The position of a key is that of the first key that is the same.
pub proof fn lemma_key_position(keys: Seq<Seq<char>>, key: Seq<char>)
    ensures
        -1 <= key_position(keys, key) < keys.len(),
        key_position(keys, key) >= 0 ==> keys[key_position(keys, key)] == key,
        forall|i: int| 0 <= i < keys.len() && keys[i] == key ==> 0 <= key_position(keys, key) <= i,
    decreases keys.len(),
{
    if keys.len() > 0 {
        lemma_key_position(keys.drop_last(), key);
        assert forall|i: int| 0 <= i < keys.len() && keys[i] == key implies 0 <= key_position(
            keys,
            key,
        ) <= i by {
            if i < keys.len() - 1 {
                assert(keys.drop_last()[i] == key);
            }
        }
    }
}

/// In a record the position of a key among the keys is the position of
/// its entry.
pub proof fn lemma_record_position(record: Record, key: Seq<char>)
    requires
        record.wf(),
    ensures
        record.has(key) == (key_position(record.keys(), key) >= 0),
        record.has(key) ==> record.index_of(key) == key_position(record.keys(), key),
        record.has(key) ==> record.value_of(key)@ == record_values(record)[key_position(
            record.keys(),
            key,
        )],
{
    lemma_key_position(record.keys(), key);
    if record.has(key) {
        let i = record.index_of(key);
        assert(record.keys()[i] == key);
        let p = key_position(record.keys(), key);
        assert(record.keys()[p] == record.entries@[p].key@);
    } else if key_position(record.keys(), key) >= 0 {
        let p = key_position(record.keys(), key);
        assert(record.entries@[p].key@ == record.keys()[p]);
    }
}

/// Binding a key in a record shows in its keys and values as
/// [`keys_with`] and [`values_with`] say.
pub proof fn lemma_record_bound(before: Record, after: Record, key: Seq<char>, value: DataType)
    requires
        before.wf(),
        before.has(key) ==> after.keys() == before.keys() && after.values()
            == before.values().update(before.index_of(key), value),
        !before.has(key) ==> after.keys() == before.keys().push(key) && after.values()
            == before.values().push(value),
    ensures
        after.keys() == keys_with(before.keys(), key),
        record_values(after) == values_with(before.keys(), record_values(before), key, value@),
{
    lemma_record_position(before, key);
    assert(after.values().len() == after.entries@.len());
    assert(before.values().len() == before.entries@.len());
    assert(after.keys().len() == after.entries@.len());
    assert(before.keys().len() == before.entries@.len());
    let want = values_with(before.keys(), record_values(before), key, value@);
    assert(record_values(after).len() == want.len());
    assert forall|j: int| 0 <= j < want.len() implies record_values(after)[j] == want[j] by {
        assert(after.values()[j] == after.entries@[j].value);
        if j < before.entries@.len() {
            assert(before.values()[j] == before.entries@[j].value);
        }
    }
    assert(record_values(after) =~= want);
}

impl HeapView {
    /// The index that the next record is given: the one on top of the
    /// free stack, or the one behind the last record.
    pub open spec fn next_record(self) -> int {
        if self.free_records.len() > 0 {
            self.free_records.last() as int
        } else {
            self.records.len() as int
        }
    }

    /// The heap with a new record of `keys` and `values`.
    pub open spec fn with_record(self, keys: Seq<Seq<char>>, values: Seq<Value>) -> HeapView {
        HeapView {
            records: if self.free_records.len() > 0 {
                self.records.update(self.next_record(), (keys, values))
            } else {
                self.records.push((keys, values))
            },
            free_records: if self.free_records.len() > 0 {
                self.free_records.drop_last()
            } else {
                self.free_records
            },
            allocated: capped_sum(self.allocated, keys.len()),
            ..self
        }
    }

    /// The heap with `key` bound to `value` in the record `r`.
    pub open spec fn with_field(self, r: int, key: Seq<char>, value: Value) -> HeapView {
        HeapView {
            records: self.records.update(
                r,
                (
                    keys_with(self.records[r].0, key),
                    values_with(self.records[r].0, self.records[r].1, key, value),
                ),
            ),
            ..self
        }
    }

    /// The index that the next list is given: the one on top of the free
    /// stack, or the one behind the last list.
    pub open spec fn next_list(self) -> int {
        if self.free_lists.len() > 0 {
            self.free_lists.last() as int
        } else {
            self.lists.len() as int
        }
    }

    /// The heap with `value` as the element `j` of the list `i`.
    pub open spec fn with_element(self, i: int, j: int, value: Value) -> HeapView {
        HeapView { lists: self.lists.update(i, self.lists[i].update(j, value)), ..self }
    }

    /// The heap with a new list of `values`.
    pub open spec fn with_list(self, values: Seq<Value>) -> HeapView {
        HeapView {
            lists: if self.free_lists.len() > 0 {
                self.lists.update(self.next_list(), values)
            } else {
                self.lists.push(values)
            },
            free_lists: if self.free_lists.len() > 0 {
                self.free_lists.drop_last()
            } else {
                self.free_lists
            },
            allocated: capped_sum(self.allocated, values.len()),
            ..self
        }
    }
}

/// The views of the values of a list.
pub open spec fn list_values(list: Seq<DataType>) -> Seq<Value> {
    Seq::new(list.len(), |j: int| list[j]@)
}

/// The views of the values of a record, in the order of its keys.
pub open spec fn record_values(record: Record) -> Seq<Value> {
    Seq::new(record.entries@.len(), |j: int| record.entries@[j].value@)
}

/// `a + b`, capped at the largest `usize`.
pub open spec fn capped_sum(a: usize, b: nat) -> usize {
    if a + b > usize::MAX {
        usize::MAX
    } else {
        (a + b) as usize
    }
}

/// No index occurs twice.
pub open spec fn distinct(s: Seq<usize>) -> bool {
    forall|i: int, j: int| 0 <= i < j < s.len() ==> s[i] != s[j]
}

impl Heap {
    /// The slot of `n` exists.
    pub open spec fn has_node(&self, n: Node) -> bool {
        match n {
            Node::List(i) => i < self.lists@.len(),
            Node::Record(i) => i < self.nameless_records@.len(),
        }
    }

    /// The slot of `n` is on the free stack of its arena.
    pub open spec fn is_free(&self, n: Node) -> bool {
        match n {
            Node::List(i) => self.free_lists@.contains(i),
            Node::Record(i) => self.free_nameless_records@.contains(i),
        }
    }

    /// A value that is a handle names an existing slot that is not free.
    pub open spec fn live(&self, v: Value) -> bool {
        v.node() matches Some(n) ==> self.has_node(n) && !self.is_free(n)
    }

    /// The values that the container `n` holds.
    pub open spec fn contents(&self, n: Node) -> Seq<Value> {
        match n {
            Node::List(i) => list_values(self.lists@[i as int]@),
            Node::Record(i) => record_values(self.nameless_records@[i as int]),
        }
    }

    /// The container `a` holds a handle to the container `b`.
    pub open spec fn points_to(&self, a: Node, b: Node) -> bool {
        self.has_node(a) && exists|j: int|
            0 <= j < self.contents(a).len() && #[trigger] self.contents(a)[j].node() == Some(b)
    }

    /// The invariant of the heap: the free stacks hold existing slots, each
    /// once; no record has a key twice; every handle stored in a container is
    /// live.
    pub open spec fn wf(&self) -> bool {
        &&& distinct(self.free_lists@)
        &&& distinct(self.free_nameless_records@)
        &&& forall|k: int|
            0 <= k < self.free_lists@.len() ==> #[trigger] self.free_lists@[k]
                < self.lists@.len()
        &&& forall|k: int|
            0 <= k < self.free_nameless_records@.len()
                ==> #[trigger] self.free_nameless_records@[k] < self.nameless_records@.len()
        &&& forall|i: int|
            0 <= i < self.nameless_records@.len() ==> #[trigger] self.nameless_records@[i].wf()
        &&& forall|n: Node, j: int|
            self.has_node(n) && 0 <= j < self.contents(n).len() ==> self.live(
                #[trigger] self.contents(n)[j],
            )
    }

    /// `self` comes from `before` without a collection in between: no slot
    /// was lost and none was freed.
    pub open spec fn extends(&self, before: &Heap) -> bool {
        &&& before.lists@.len() <= self.lists@.len()
        &&& before.nameless_records@.len() <= self.nameless_records@.len()
        &&& forall|i: usize| self.free_lists@.contains(i) ==> before.free_lists@.contains(i)
        &&& forall|i: usize|
            self.free_nameless_records@.contains(i) ==> before.free_nameless_records@.contains(i)
    }

    /// `self` comes from `before` by new lists alone: no slot was lost or
    /// freed, the records are what they were, and so is every list of
    /// `before` that is in use.
    pub open spec fn keeps(&self, before: &Heap) -> bool {
        &&& self.extends(before)
        &&& self.nameless_records == before.nameless_records
        &&& self.free_nameless_records == before.free_nameless_records
        &&& forall|i: int|
            0 <= i < before.lists@.len() && !before.free_lists@.contains(i as usize)
                ==> #[trigger] self.lists@[i] == before.lists@[i]
    }

    /// What two rounds of new lists keep, one after the other, is kept
    /// over both.
    pub proof fn lemma_keeps_twice(&self, middle: &Heap, before: &Heap)
        requires
            self.keeps(middle),
            middle.keeps(before),
        ensures
            self.keeps(before),
    {
        assert forall|i: int|
            0 <= i < before.lists@.len() && !before.free_lists@.contains(
                i as usize,
            ) implies #[trigger] self.lists@[i] == before.lists@[i] by {
            assert(middle.lists@[i] == before.lists@[i]);
            assert(!middle.free_lists@.contains(i as usize));
        }
    }

    /// The index that the next list is given.
    pub open spec fn next_list_index(&self) -> int {
        if self.free_lists@.len() > 0 {
            self.free_lists@.last() as int
        } else {
            self.lists@.len() as int
        }
    }

    /// The index that the next record is given.
    pub open spec fn next_record_index(&self) -> int {
        if self.free_nameless_records@.len() > 0 {
            self.free_nameless_records@.last() as int
        } else {
            self.nameless_records@.len() as int
        }
    }

    /// A value that is live stays live while the heap only extends.
    pub proof fn lemma_live_extends(&self, before: &Heap, v: Value)
        requires
            self.extends(before),
            before.live(v),
        ensures
            self.live(v),
    {
    }

    /// An empty heap.
    pub fn new() -> (r: Heap)
        ensures
            r.wf(),
            r.lists@.len() == 0,
            r.nameless_records@.len() == 0,
            r.free_lists@.len() == 0,
            r.free_nameless_records@.len() == 0,
            r.total_allocated_object_count == 0,
    {
        Heap {
            lists: Vec::new(),
            free_lists: Vec::new(),
            nameless_records: Vec::new(),
            free_nameless_records: Vec::new(),
            total_allocated_object_count: 0,
        }
    }

    /// Puts a new list on the heap and returns its handle: in the slot on
    /// top of the free stack where there is one, else in a new slot at the
    /// end of the arena. The allocation count grows by the list's length.
    pub fn create_new_list_datatype(&mut self, new_list: Vec<DataType>) -> (r: DataType)
        requires
            old(self).wf(),
            forall|j: int| 0 <= j < new_list@.len() ==> old(self).live(#[trigger] new_list@[j]@),
        ensures
            final(self).wf(),
            final(self).extends(old(self)),
            final(self).keeps(old(self)),
            r@ == Value::List(old(self).next_list_index() as usize),
            r@->List_0 == old(self).next_list_index() < final(self).lists@.len(),
            final(self)@ == old(self)@.with_list(list_values(new_list@)),
            final(self).live(r@),
            final(self).lists@[old(self).next_list_index()] == new_list,
            old(self).free_lists@.len() > 0 ==> final(self).lists@ == old(self).lists@.update(
                old(self).next_list_index(),
                new_list,
            ) && final(self).free_lists@ == old(self).free_lists@.drop_last(),
            old(self).free_lists@.len() == 0 ==> final(self).lists@ == old(self).lists@.push(
                new_list,
            ) && final(self).free_lists@ == old(self).free_lists@,
            final(self).nameless_records == old(self).nameless_records,
            final(self).free_nameless_records == old(self).free_nameless_records,
            final(self).total_allocated_object_count == capped_sum(
                old(self).total_allocated_object_count,
                new_list@.len(),
            ),
    {
        self.total_allocated_object_count = self.total_allocated_object_count.saturating_add(
            new_list.len(),
        );
        if self.free_lists.len() > 0 {
            let free_index = self.free_lists.pop().unwrap();
            proof {
                let k = old(self).free_lists@.len() - 1;
                assert(old(self).free_lists@[k] == free_index);
                assert(self.free_lists@ =~= old(self).free_lists@.drop_last());
                assert forall|i: usize| self.free_lists@.contains(i) implies old(self).free_lists@.contains(i) && i != free_index by {
                    let w = choose|w: int| 0 <= w < self.free_lists@.len()
                        && self.free_lists@[w] == i;
                    assert(old(self).free_lists@[w] == i);
                }
            }
            self.lists[free_index] = new_list;
            proof {
                let me = *self;
                let before = *old(self);
                assert forall|n: Node, j: int|
                    me.has_node(n) && 0 <= j < me.contents(n).len() implies me.live(
                    #[trigger] me.contents(n)[j],
                ) by {
                    if n == Node::List(free_index) {
                        assert(me.contents(n)[j] == new_list@[j]@);
                        assert(before.live(new_list@[j]@));
                    } else {
                        assert(before.has_node(n));
                        assert(me.contents(n) =~= before.contents(n));
                        assert(before.live(before.contents(n)[j]));
                    }
                }
            }
            proof {
                assert(self@.lists =~= old(self)@.with_list(list_values(new_list@)).lists);
                assert(self@.records =~= old(self)@.records);
            }
            DataType::List(free_index)
        } else {
            self.lists.push(new_list);
            proof {
                let me = *self;
                let before = *old(self);
                let fresh = before.lists.len();
                assert forall|n: Node, j: int|
                    me.has_node(n) && 0 <= j < me.contents(n).len() implies me.live(
                    #[trigger] me.contents(n)[j],
                ) by {
                    if n == Node::List(fresh) {
                        assert(me.contents(n)[j] == new_list@[j]@);
                        assert(before.live(new_list@[j]@));
                    } else {
                        assert(before.has_node(n));
                        assert(me.contents(n) =~= before.contents(n));
                        assert(before.live(before.contents(n)[j]));
                    }
                }
            }
            proof {
                assert(self@.lists =~= old(self)@.with_list(list_values(new_list@)).lists);
                assert(self@.records =~= old(self)@.records);
            }
            DataType::List(self.lists.len() - 1)
        }
    }

    /// Puts a new record on the heap and returns its handle, as
    /// [`Heap::create_new_list_datatype`] does for a list.
    pub fn create_new_nameless_record_datatype(&mut self, new_record: Record) -> (r: DataType)
        requires
            old(self).wf(),
            new_record.wf(),
            forall|j: int|
                0 <= j < new_record.entries@.len() ==> old(self).live(
                    #[trigger] new_record.entries@[j].value@,
                ),
        ensures
            final(self).wf(),
            final(self).extends(old(self)),
            r@ == Value::NamelessRecord(old(self).next_record_index() as usize),
            r@->NamelessRecord_0 == old(self).next_record_index() < final(self).nameless_records@.len(),
            final(self)@ == old(self)@.with_record(new_record.keys(), record_values(new_record)),
            final(self).live(r@),
            final(self).nameless_records@[old(self).next_record_index()] == new_record,
            old(self).free_nameless_records@.len() > 0
                ==> final(self).nameless_records@ == old(self).nameless_records@.update(
                old(self).next_record_index(),
                new_record,
            ) && final(self).free_nameless_records@ == old(self).free_nameless_records@.drop_last(),
            old(self).free_nameless_records@.len() == 0
                ==> final(self).nameless_records@ == old(self).nameless_records@.push(new_record)
                    && final(self).free_nameless_records@ == old(self).free_nameless_records@,
            final(self).lists == old(self).lists,
            final(self).free_lists == old(self).free_lists,
            final(self).total_allocated_object_count == capped_sum(
                old(self).total_allocated_object_count,
                new_record.entries@.len(),
            ),
    {
        self.total_allocated_object_count = self.total_allocated_object_count.saturating_add(
            new_record.len(),
        );
        if self.free_nameless_records.len() > 0 {
            let free_index = self.free_nameless_records.pop().unwrap();
            proof {
                let k = old(self).free_nameless_records@.len() - 1;
                assert(old(self).free_nameless_records@[k] == free_index);
                assert(self.free_nameless_records@ =~= old(self).free_nameless_records@.drop_last());
                assert forall|i: usize| self.free_nameless_records@.contains(i) implies old(self).free_nameless_records@.contains(i) && i != free_index by {
                    let w = choose|w: int|
                        0 <= w < self.free_nameless_records@.len()
                            && self.free_nameless_records@[w] == i;
                    assert(old(self).free_nameless_records@[w] == i);
                }
            }
            self.nameless_records[free_index] = new_record;
            proof {
                let me = *self;
                let before = *old(self);
                assert forall|n: Node, j: int|
                    me.has_node(n) && 0 <= j < me.contents(n).len() implies me.live(
                    #[trigger] me.contents(n)[j],
                ) by {
                    if n == Node::Record(free_index) {
                        assert(me.contents(n)[j] == new_record.entries@[j].value@);
                        assert(before.live(new_record.entries@[j].value@));
                    } else {
                        assert(before.has_node(n));
                        assert(me.contents(n) =~= before.contents(n));
                        assert(before.live(before.contents(n)[j]));
                    }
                }
            }
            proof {
                assert(new_record.keys().len() == new_record.entries@.len());
                assert(self@.records =~= old(self)@.with_record(
                    new_record.keys(),
                    record_values(new_record),
                ).records);
                assert(self@.lists =~= old(self)@.lists);
            }
            DataType::NamelessRecord(free_index)
        } else {
            self.nameless_records.push(new_record);
            proof {
                let me = *self;
                let before = *old(self);
                let fresh = before.nameless_records.len();
                assert forall|n: Node, j: int|
                    me.has_node(n) && 0 <= j < me.contents(n).len() implies me.live(
                    #[trigger] me.contents(n)[j],
                ) by {
                    if n == Node::Record(fresh) {
                        assert(me.contents(n)[j] == new_record.entries@[j].value@);
                        assert(before.live(new_record.entries@[j].value@));
                    } else {
                        assert(before.has_node(n));
                        assert(me.contents(n) =~= before.contents(n));
                        assert(before.live(before.contents(n)[j]));
                    }
                }
            }
            proof {
                assert(new_record.keys().len() == new_record.entries@.len());
                assert(self@.records =~= old(self)@.with_record(
                    new_record.keys(),
                    record_values(new_record),
                ).records);
                assert(self@.lists =~= old(self)@.lists);
            }
            DataType::NamelessRecord(self.nameless_records.len() - 1)
        }
    }
    /// `self` is `before` but for the list at `i`.
    pub open spec fn only_list_changed(&self, before: &Heap, i: usize) -> bool {
        &&& self.lists@.len() == before.lists@.len()
        &&& forall|k: int| 0 <= k < self.lists@.len() && k != i
            ==> self.lists@[k] == before.lists@[k]
        &&& self.nameless_records == before.nameless_records
        &&& self.free_lists == before.free_lists
        &&& self.free_nameless_records == before.free_nameless_records
        &&& self.total_allocated_object_count == before.total_allocated_object_count
    }

    /// `self` is `before` but for the record at `i`.
    pub open spec fn only_record_changed(&self, before: &Heap, i: usize) -> bool {
        &&& self.nameless_records@.len() == before.nameless_records@.len()
        &&& forall|k: int|
            0 <= k < self.nameless_records@.len() && k != i ==> self.nameless_records@[k]
                == before.nameless_records@[k]
        &&& self.lists == before.lists
        &&& self.free_lists == before.free_lists
        &&& self.free_nameless_records == before.free_nameless_records
        &&& self.total_allocated_object_count == before.total_allocated_object_count
    }

    proof fn lemma_list_change_keeps_wf(&self, before: &Heap, i: usize)
        requires
            before.wf(),
            self.only_list_changed(before, i),
            i < before.lists@.len(),
            forall|j: int|
                0 <= j < self.lists@[i as int]@.len() ==> before.live(
                    #[trigger] self.lists@[i as int]@[j]@,
                ),
        ensures
            self.wf(),
            self.extends(before),
    {
        let me = *self;
        let b = *before;
        assert forall|n: Node, j: int|
            me.has_node(n) && 0 <= j < me.contents(n).len() implies me.live(
            #[trigger] me.contents(n)[j],
        ) by {
            if n == Node::List(i) {
                assert(me.contents(n)[j] == me.lists@[i as int]@[j]@);
                assert(b.live(me.lists@[i as int]@[j]@));
            } else {
                assert(b.has_node(n));
                assert(me.contents(n) =~= b.contents(n));
                assert(b.live(b.contents(n)[j]));
            }
        }
    }

    proof fn lemma_record_change_keeps_wf(&self, before: &Heap, i: usize)
        requires
            before.wf(),
            self.only_record_changed(before, i),
            i < before.nameless_records@.len(),
            self.nameless_records@[i as int].wf(),
            forall|j: int|
                0 <= j < self.nameless_records@[i as int].entries@.len() ==> before.live(
                    #[trigger] self.nameless_records@[i as int].entries@[j].value@,
                ),
        ensures
            self.wf(),
            self.extends(before),
    {
        let me = *self;
        let b = *before;
        assert forall|n: Node, j: int|
            me.has_node(n) && 0 <= j < me.contents(n).len() implies me.live(
            #[trigger] me.contents(n)[j],
        ) by {
            if n == Node::Record(i) {
                assert(me.contents(n)[j] == me.nameless_records@[i as int].entries@[j].value@);
                assert(b.live(me.nameless_records@[i as int].entries@[j].value@));
            } else {
                assert(b.has_node(n));
                assert(me.contents(n) =~= b.contents(n));
                assert(b.live(b.contents(n)[j]));
            }
        }
    }

    /// The length of the list at `i`.
    pub fn list_len(&self, i: usize) -> (r: usize)
        requires
            i < self.lists@.len(),
        ensures
            r == self.lists@[i as int]@.len(),
    {
        self.lists[i].len()
    }

    /// A copy of the element `j` of the list at `i`.
    pub fn list_get(&self, i: usize, j: usize) -> (r: DataType)
        requires
            self.wf(),
            i < self.lists@.len(),
            j < self.lists@[i as int]@.len(),
        ensures
            r@ == self.lists@[i as int]@[j as int]@,
            self.live(r@),
    {
        proof {
            assert(self.has_node(Node::List(i)));
            assert(self.contents(Node::List(i))[j as int] == self.lists@[i as int]@[j as int]@);
        }
        self.lists[i][j].clone()
    }

    /// Replaces the element `j` of the list at `i`.
    pub fn list_set(&mut self, i: usize, j: usize, value: DataType)
        requires
            old(self).wf(),
            i < old(self).lists@.len(),
            j < old(self).lists@[i as int]@.len(),
            old(self).live(value@),
        ensures
            final(self).wf(),
            final(self).extends(old(self)),
            final(self).only_list_changed(old(self), i),
            final(self).lists@[i as int]@ == old(self).lists@[i as int]@.update(j as int, value),
    {
        let mut list = Vec::new();
        std::mem::swap(&mut list, &mut self.lists[i]);
        list[j] = value;
        self.lists[i] = list;
        proof {
            assert forall|k: int| 0 <= k < self.lists@[i as int]@.len() implies old(self).live(
                #[trigger] self.lists@[i as int]@[k]@,
            ) by {
                if k != j {
                    assert(old(self).has_node(Node::List(i)));
                    assert(old(self).contents(Node::List(i))[k] == old(self).lists@[i as int]@[k]@);
                }
            }
            self.lemma_list_change_keeps_wf(old(self), i);
        }
    }

    /// Inserts `value` before the element `at` of the list at `i`; with
    /// `at` the list's length, at its end.
    pub fn list_insert(&mut self, i: usize, at: usize, value: DataType)
        requires
            old(self).wf(),
            i < old(self).lists@.len(),
            at <= old(self).lists@[i as int]@.len(),
            old(self).live(value@),
        ensures
            final(self).wf(),
            final(self).extends(old(self)),
            final(self).only_list_changed(old(self), i),
            final(self).lists@[i as int]@ == old(self).lists@[i as int]@.insert(at as int, value),
    {
        let mut list = Vec::new();
        std::mem::swap(&mut list, &mut self.lists[i]);
        list.insert(at, value);
        self.lists[i] = list;
        proof {
            assert forall|k: int| 0 <= k < self.lists@[i as int]@.len() implies old(self).live(
                #[trigger] self.lists@[i as int]@[k]@,
            ) by {
                assert(old(self).has_node(Node::List(i)));
                if k < at {
                    assert(old(self).contents(Node::List(i))[k] == old(self).lists@[i as int]@[k]@);
                } else if k > at {
                    assert(old(self).contents(Node::List(i))[k - 1] == old(self).lists@[i as int]@[k
                        - 1]@);
                }
            }
            self.lemma_list_change_keeps_wf(old(self), i);
        }
    }

    /// Removes the element `at` of the list at `i`; the elements behind it
    /// move down by one.
    pub fn list_remove(&mut self, i: usize, at: usize)
        requires
            old(self).wf(),
            i < old(self).lists@.len(),
            at < old(self).lists@[i as int]@.len(),
        ensures
            final(self).wf(),
            final(self).extends(old(self)),
            final(self).only_list_changed(old(self), i),
            final(self).lists@[i as int]@ == old(self).lists@[i as int]@.remove(at as int),
    {
        let mut list = Vec::new();
        std::mem::swap(&mut list, &mut self.lists[i]);
        let _ = list.remove(at);
        self.lists[i] = list;
        proof {
            assert forall|k: int| 0 <= k < self.lists@[i as int]@.len() implies old(self).live(
                #[trigger] self.lists@[i as int]@[k]@,
            ) by {
                assert(old(self).has_node(Node::List(i)));
                if k < at {
                    assert(old(self).contents(Node::List(i))[k] == old(self).lists@[i as int]@[k]@);
                } else {
                    assert(old(self).contents(Node::List(i))[k + 1] == old(self).lists@[i as int]@[k
                        + 1]@);
                }
            }
            self.lemma_list_change_keeps_wf(old(self), i);
        }
    }

    /// A copy of the value of `key` in the record at `i`, if the record has
    /// the key.
    pub fn record_get(&self, i: usize, key: &str) -> (r: Option<DataType>)
        requires
            self.wf(),
            i < self.nameless_records@.len(),
        ensures
            r is Some <==> self.nameless_records@[i as int].has(key@),
            r matches Some(v) ==> v@ == self.nameless_records@[i as int].value_of(key@)@
                && self.live(v@),
    {
        let record = &self.nameless_records[i];
        match record.position(key) {
            Some(j) => {
                proof {
                    assert(self.has_node(Node::Record(i)));
                    assert(self.contents(Node::Record(i))[j as int] == record.entries@[j as int].value@);
                }
                Some(record.entries[j].value.clone())
            },
            None => None,
        }
    }

    /// Binds `key` to `value` in the record at `i`.
    pub fn record_insert(&mut self, i: usize, key: String, value: DataType)
        requires
            old(self).wf(),
            i < old(self).nameless_records@.len(),
            old(self).live(value@),
        ensures
            final(self).wf(),
            final(self).extends(old(self)),
            final(self).only_record_changed(old(self), i),
            final(self)@ == old(self)@.with_field(i as int, key@, value@),
            final(self).nameless_records@[i as int].has(key@),
            final(self).nameless_records@[i as int].value_of(key@) == value,
            forall|k: Seq<char>|
                k != key@ ==> final(self).nameless_records@[i as int].has(k) == old(self).nameless_records@[i as int].has(k),
            forall|k: Seq<char>|
                k != key@ && old(self).nameless_records@[i as int].has(k)
                    ==> final(self).nameless_records@[i as int].value_of(k) == old(self).nameless_records@[i as int].value_of(k),
    {
        let mut record = Table::new();
        std::mem::swap(&mut record, &mut self.nameless_records[i]);
        let ghost before = record;
        record.insert(key, value);
        let ghost after = record;
        self.nameless_records[i] = record;
        proof {
            assert(after.values().len() == after.entries@.len());
            assert(before.values().len() == before.entries@.len());
            assert(before == old(self).nameless_records@[i as int]);
            assert forall|k: int| 0 <= k < after.entries@.len() implies old(self).live(
                #[trigger] after.entries@[k].value@,
            ) by {
                assert(old(self).has_node(Node::Record(i)));
                assert(after.values()[k] == after.entries@[k].value);
                if before.has(key@) {
                    let w = before.index_of(key@);
                    if k != w {
                        assert(before.values()[k] == before.entries@[k].value);
                        assert(old(self).contents(Node::Record(i))[k] == before.entries@[k].value@);
                    }
                } else {
                    if k < before.entries@.len() {
                        assert(before.values()[k] == before.entries@[k].value);
                        assert(old(self).contents(Node::Record(i))[k] == before.entries@[k].value@);
                    }
                }
            }
            self.lemma_record_change_keeps_wf(old(self), i);
            lemma_record_bound(before, after, key@, value);
            assert(self@.records =~= old(self)@.with_field(i as int, key@, value@).records);
            assert(self@.lists =~= old(self)@.lists);
        }
    }
}

/// The mathematical content of an index of an assignment.
pub enum IndexView {
    List(usize),
    NamelessRecord(Seq<char>),
}

/// Why an index cannot be applied to a value.
pub enum Fault {
    /// The value is no container, or the index is of the other kind.
    Kind,
    /// The list is too short, or the record lacks the key.
    Missing,
}

impl Heap {
    /// The element of `container` at `index`, where there is one.
    pub open spec fn element(&self, container: Value, index: IndexView) -> Option<Value> {
        match (container, index) {
            (Value::List(i), IndexView::List(j)) => if i < self.lists@.len() && j
                < self.lists@[i as int]@.len() {
                Some(self.lists@[i as int]@[j as int]@)
            } else {
                None
            },
            (Value::NamelessRecord(r), IndexView::NamelessRecord(k)) => if r
                < self.nameless_records@.len() && self.nameless_records@[r as int].has(k) {
                Some(self.nameless_records@[r as int].value_of(k)@)
            } else {
                None
            },
            _ => None,
        }
    }

    /// Why `container` has no element at `index`.
    pub open spec fn fault(container: Value, index: IndexView) -> Fault {
        match (container, index) {
            (Value::List(_), IndexView::List(_)) => Fault::Missing,
            (Value::NamelessRecord(_), IndexView::NamelessRecord(_)) => Fault::Missing,
            _ => Fault::Kind,
        }
    }

    /// The value reached from `container` by applying the indexes in turn,
    /// or why the first index that cannot be applied cannot.
    pub open spec fn walk(&self, container: Value, indexes: Seq<IndexView>) -> Result<Value, Fault>
        decreases indexes.len(),
    {
        if indexes.len() == 0 {
            Ok(container)
        } else {
            match self.element(container, indexes[0]) {
                Some(v) => self.walk(v, indexes.drop_first()),
                None => Err(Self::fault(container, indexes[0])),
            }
        }
    }

    /// New lists change no walk from a value that was live: the same
    /// indexes lead to the same value, which was live too, and what can be
    /// stored there is the same.
    pub proof fn lemma_keeps_walk(&self, before: &Heap, container: Value, indexes: Seq<IndexView>)
        requires
            before.wf(),
            self.keeps(before),
            before.live(container),
        ensures
            self.walk(container, indexes) == before.walk(container, indexes),
            before.walk(container, indexes) matches Ok(target) ==> before.live(target) && forall|
                index: IndexView,
            |
                self.store_fault(target, index) == before.store_fault(target, index),
        decreases indexes.len(),
    {
        if let Some(n) = container.node() {
            assert(before.has_node(n) && !before.is_free(n));
            match n {
                Node::List(i) => {
                    assert(self.lists@[i as int] == before.lists@[i as int]);
                },
                Node::Record(i) => {},
            }
        }
        if indexes.len() > 0 {
            assert(self.element(container, indexes[0]) == before.element(container, indexes[0]));
            match before.element(container, indexes[0]) {
                Some(v) => {
                    match (container, indexes[0]) {
                        (Value::List(i), IndexView::List(j)) => {
                            assert(before.has_node(Node::List(i)));
                            assert(before.contents(Node::List(i))[j as int] == v);
                        },
                        (Value::NamelessRecord(r), IndexView::NamelessRecord(k)) => {
                            let at = before.nameless_records@[r as int].index_of(k);
                            assert(before.has_node(Node::Record(r)));
                            assert(before.contents(Node::Record(r))[at] == v);
                        },
                        _ => {},
                    }
                    self.lemma_keeps_walk(before, v, indexes.drop_first());
                },
                None => {},
            }
        }
    }

    /// A value stored in a list shows in what the heap holds as that
    /// element, and as nothing else.
    pub proof fn lemma_stored_in_list(&self, before: &Heap, i: usize, j: usize, value: DataType)
        requires
            self.stored(before, Value::List(i), IndexView::List(j), value),
            i < before.lists@.len(),
            j < before.lists@[i as int]@.len(),
        ensures
            self@ == before@.with_element(i as int, j as int, value@),
    {
        let want = before@.with_element(i as int, j as int, value@);
        assert(self@.lists.len() == want.lists.len());
        assert forall|k: int| 0 <= k < self@.lists.len() implies self@.lists[k]
            == want.lists[k] by {
            if k == i {
                assert(self@.lists[k] =~= want.lists[k]);
            } else {
                assert(self.lists@[k] == before.lists@[k]);
            }
        }
        assert(self@.lists =~= want.lists);
        assert(self@.records =~= want.records);
    }

    /// Why nothing can be stored in `container` at `index`, if so: a list
    /// takes a value at a position that it has, a record at any key.
    pub open spec fn store_fault(&self, container: Value, index: IndexView) -> Option<Fault> {
        match (container, index) {
            (Value::List(i), IndexView::List(j)) => if i < self.lists@.len() && j
                < self.lists@[i as int]@.len() {
                None
            } else {
                Some(Fault::Missing)
            },
            (Value::NamelessRecord(r), IndexView::NamelessRecord(_)) => if r
                < self.nameless_records@.len() {
                None
            } else {
                Some(Fault::Missing)
            },
            _ => Some(Fault::Kind),
        }
    }

    /// `self` is `before` with `value` stored in `container` at `index`.
    pub open spec fn stored(
        &self,
        before: &Heap,
        container: Value,
        index: IndexView,
        value: DataType,
    ) -> bool {
        match (container, index) {
            (Value::List(i), IndexView::List(j)) => self.only_list_changed(before, i)
                && self.lists@[i as int]@ == before.lists@[i as int]@.update(j as int, value),
            (Value::NamelessRecord(r), IndexView::NamelessRecord(k)) => {
                &&& self.only_record_changed(before, r)
                &&& self.nameless_records@[r as int].has(k)
                &&& self.nameless_records@[r as int].value_of(k) == value
                &&& forall|o: Seq<char>|
                    o != k ==> self.nameless_records@[r as int].has(o)
                        == before.nameless_records@[r as int].has(o)
                &&& forall|o: Seq<char>|
                    o != k && before.nameless_records@[r as int].has(o)
                        ==> self.nameless_records@[r as int].value_of(o)
                        == before.nameless_records@[r as int].value_of(o)
            },
            _ => false,
        }
    }
}

} // verus!
