//! The mark-and-sweep collector of the heap.
//!
//! Roots are the values bound in the scopes. Marking follows the handles
//! that containers hold, entering each container once; sweeping empties the
//! containers that were not marked and puts their slots on the free stacks.

use vstd::prelude::*;
use crate::backend::heap::{distinct, Heap, Record, Scope};
use crate::backend::table::Table;
use crate::backend::value::{DataType, Node, Value};

verus! {

/// The container that a binding refers to, if its value is a handle.
pub open spec fn bound_node(value: Option<DataType>) -> Option<Node> {
    match value {
        Some(v) => v@.node(),
        None => None,
    }
}

/// Some scope binds a name to a handle of the container `n`.
pub open spec fn is_root(envs: Seq<Scope>, n: Node) -> bool {
    exists|s: int, j: int|
        0 <= s < envs.len() && 0 <= j < envs[s].entries@.len() && bound_node(
            #[trigger] envs[s].entries@[j].value,
        ) == Some(n)
}

/// Each container of `path` holds a handle to the next.
pub open spec fn is_path(heap: &Heap, path: Seq<Node>) -> bool {
    forall|k: int| 0 <= k < path.len() - 1 ==> heap.points_to(#[trigger] path[k], path[k + 1])
}

/// The container `n` can be reached from a scope through handles.
pub open spec fn reachable(envs: Seq<Scope>, heap: &Heap, n: Node) -> bool {
    exists|path: Seq<Node>|
        path.len() > 0 && is_root(envs, path[0]) && #[trigger] path.last() == n && is_path(
            heap,
            path,
        )
}

/// Every handle bound in a scope is live.
pub open spec fn scopes_live(envs: Seq<Scope>, heap: &Heap) -> bool {
    forall|s: int, j: int|
        0 <= s < envs.len() && 0 <= j < envs[s].entries@.len() ==> (bound_node(
            #[trigger] envs[s].entries@[j].value,
        ) matches Some(n) ==> heap.has_node(n) && !heap.is_free(n))
}

/// The mark of the container `n`.
pub open spec fn marked(ml: Seq<bool>, mr: Seq<bool>, n: Node) -> bool {
    match n {
        Node::List(i) => i < ml.len() && ml[i as int],
        Node::Record(i) => i < mr.len() && mr[i as int],
    }
}

/// The container that the value refers to, if it is a handle, is marked.
pub open spec fn target_marked(ml: Seq<bool>, mr: Seq<bool>, v: Value) -> bool {
    match v.node() {
        Some(b) => marked(ml, mr, b),
        None => true,
    }
}

/// Every container that `a` holds a handle to is marked.
pub open spec fn closed(heap: &Heap, ml: Seq<bool>, mr: Seq<bool>, a: Node) -> bool {
    forall|b: Node| #[trigger] heap.points_to(a, b) ==> marked(ml, mr, b)
}

/// How many entries are `false`.
pub open spec fn count_false(s: Seq<bool>) -> nat
    decreases s.len(),
{
    if s.len() == 0 {
        0
    } else {
        count_false(s.drop_last()) + if s.last() {
            0nat
        } else {
            1nat
        }
    }
}

proof fn lemma_count_false_update(s: Seq<bool>, i: int)
    requires
        0 <= i < s.len(),
        !s[i],
    ensures
        count_false(s.update(i, true)) + 1 == count_false(s),
    decreases s.len(),
{
    let t = s.update(i, true);
    if i == s.len() - 1 {
        assert(t.drop_last() =~= s.drop_last());
    } else {
        assert(t.drop_last() =~= s.drop_last().update(i, true));
        lemma_count_false_update(s.drop_last(), i);
    }
}

/// A root is reachable.
pub proof fn lemma_root_reachable(envs: Seq<Scope>, heap: &Heap, n: Node)
    requires
        is_root(envs, n),
    ensures
        reachable(envs, heap, n),
{
    let path = seq![n];
    assert(path.last() == n);
    assert(is_path(heap, path));
}

/// What a reachable container holds a handle to is reachable.
pub proof fn lemma_step_reachable(envs: Seq<Scope>, heap: &Heap, a: Node, b: Node)
    requires
        reachable(envs, heap, a),
        heap.points_to(a, b),
    ensures
        reachable(envs, heap, b),
{
    let p = choose|path: Seq<Node>|
        path.len() > 0 && is_root(envs, path[0]) && #[trigger] path.last() == a && is_path(
            heap,
            path,
        );
    let q = p.push(b);
    assert(q[0] == p[0]);
    assert(q.last() == b);
    assert forall|k: int| 0 <= k < q.len() - 1 implies heap.points_to(
        #[trigger] q[k],
        q[k + 1],
    ) by {
        if k < p.len() - 1 {
            assert(q[k] == p[k] && q[k + 1] == p[k + 1]);
            assert(heap.points_to(p[k], p[k + 1]));
        } else {
            assert(q[k] == a && q[k + 1] == b);
        }
    }
    assert(is_path(heap, q));
}

proof fn lemma_path_marked(
    envs: Seq<Scope>,
    heap: &Heap,
    ml: Seq<bool>,
    mr: Seq<bool>,
    path: Seq<Node>,
    k: int,
)
    requires
        forall|n: Node| is_root(envs, n) ==> marked(ml, mr, n),
        forall|n: Node| marked(ml, mr, n) ==> closed(heap, ml, mr, n),
        path.len() > 0,
        is_root(envs, path[0]),
        is_path(heap, path),
        0 <= k < path.len(),
    ensures
        marked(ml, mr, path[k]),
    decreases k,
{
    if k > 0 {
        lemma_path_marked(envs, heap, ml, mr, path, k - 1);
        assert(heap.points_to(path[k - 1], path[k - 1 + 1]));
        assert(closed(heap, ml, mr, path[k - 1]));
    }
}

/// Marks that hold of every root, and with a container of everything it
/// holds a handle to, hold of every reachable container.
pub proof fn lemma_closed_marks_cover(
    envs: Seq<Scope>,
    heap: &Heap,
    ml: Seq<bool>,
    mr: Seq<bool>,
    n: Node,
)
    requires
        forall|r: Node| is_root(envs, r) ==> marked(ml, mr, r),
        forall|a: Node| marked(ml, mr, a) ==> closed(heap, ml, mr, a),
        reachable(envs, heap, n),
    ensures
        marked(ml, mr, n),
{
    let p = choose|path: Seq<Node>|
        path.len() > 0 && is_root(envs, path[0]) && #[trigger] path.last() == n && is_path(
            heap,
            path,
        );
    lemma_path_marked(envs, heap, ml, mr, p, p.len() - 1);
}

/// In a well-formed heap under live scopes, a reachable container exists
/// and is not free.
pub proof fn lemma_reachable_live(envs: Seq<Scope>, heap: &Heap, n: Node)
    requires
        heap.wf(),
        scopes_live(envs, heap),
        reachable(envs, heap, n),
    ensures
        heap.has_node(n),
        !heap.is_free(n),
{
    let p = choose|path: Seq<Node>|
        path.len() > 0 && is_root(envs, path[0]) && #[trigger] path.last() == n && is_path(
            heap,
            path,
        );
    if p.len() == 1 {
        let (s, j) = choose|s: int, j: int|
            0 <= s < envs.len() && 0 <= j < envs[s].entries@.len() && bound_node(
                #[trigger] envs[s].entries@[j].value,
            ) == Some(n);
        assert(bound_node(envs[s].entries@[j].value) == Some(n));
    } else {
        let a = p[p.len() - 2];
        assert(heap.points_to(a, p[p.len() - 2 + 1]));
        let j = choose|j: int|
            0 <= j < heap.contents(a).len() && #[trigger] heap.contents(a)[j].node() == Some(n);
        assert(heap.live(heap.contents(a)[j]));
    }
}

fn child_count(heap: &Heap, node: &Node) -> (r: usize)
    requires
        heap.has_node(*node),
    ensures
        r == heap.contents(*node).len(),
{
    match node {
        Node::List(i) => heap.lists[*i].len(),
        Node::Record(i) => heap.nameless_records[*i].len(),
    }
}

fn child<'a>(heap: &'a Heap, node: &Node, j: usize) -> (r: &'a DataType)
    requires
        heap.has_node(*node),
        j < heap.contents(*node).len(),
    ensures
        r@ == heap.contents(*node)[j as int],
{
    match node {
        Node::List(i) => &heap.lists[*i][j],
        Node::Record(i) => &heap.nameless_records[*i].entries[j].value,
    }
}

/// Marks every container that can be reached from the container `node`
/// through containers that are not marked yet. `node` itself is marked
/// already.
fn mark_all_reachable_from(
    heap: &Heap,
    node: Node,
    marked_lists: &mut Vec<bool>,
    marked_records: &mut Vec<bool>,
    Ghost(envs): Ghost<Seq<Scope>>,
)
    requires
        heap.wf(),
        old(marked_lists)@.len() == heap.lists@.len(),
        old(marked_records)@.len() == heap.nameless_records@.len(),
        heap.has_node(node),
        marked(old(marked_lists)@, old(marked_records)@, node),
        forall|x: Node|
            marked(old(marked_lists)@, old(marked_records)@, x) ==> reachable(envs, heap, x),
    ensures
        final(marked_lists)@.len() == heap.lists@.len(),
        final(marked_records)@.len() == heap.nameless_records@.len(),
        forall|x: Node|
            marked(old(marked_lists)@, old(marked_records)@, x) ==> marked(
                final(marked_lists)@,
                final(marked_records)@,
                x,
            ),
        forall|x: Node|
            marked(final(marked_lists)@, final(marked_records)@, x) ==> reachable(envs, heap, x),
        closed(heap, final(marked_lists)@, final(marked_records)@, node),
        forall|x: Node|
            marked(final(marked_lists)@, final(marked_records)@, x) && !marked(
                old(marked_lists)@,
                old(marked_records)@,
                x,
            ) ==> closed(heap, final(marked_lists)@, final(marked_records)@, x),
        count_false(final(marked_lists)@) + count_false(final(marked_records)@) <= count_false(
            old(marked_lists)@,
        ) + count_false(old(marked_records)@),
    decreases count_false(old(marked_lists)@) + count_false(old(marked_records)@),
{
    let n = child_count(heap, &node);
    let mut j: usize = 0;
    while j < n
        invariant
            heap.wf(),
            heap.has_node(node),
            n == heap.contents(node).len(),
            j <= n,
            marked_lists@.len() == heap.lists@.len(),
            marked_records@.len() == heap.nameless_records@.len(),
            marked(marked_lists@, marked_records@, node),
            forall|x: Node|
                marked(old(marked_lists)@, old(marked_records)@, x) ==> marked(
                    marked_lists@,
                    marked_records@,
                    x,
                ),
            forall|x: Node| marked(marked_lists@, marked_records@, x) ==> reachable(envs, heap, x),
            forall|x: Node|
                marked(marked_lists@, marked_records@, x) && !marked(
                    old(marked_lists)@,
                    old(marked_records)@,
                    x,
                ) ==> closed(heap, marked_lists@, marked_records@, x),
            forall|k: int|
                0 <= k < j ==> target_marked(
                    marked_lists@,
                    marked_records@,
                    #[trigger] heap.contents(node)[k],
                ),
            count_false(marked_lists@) + count_false(marked_records@) <= count_false(
                old(marked_lists)@,
            ) + count_false(old(marked_records)@),
        decreases n - j,
    {
        let elem = child(heap, &node, j);
        let ghost ml0 = marked_lists@;
        let ghost mr0 = marked_records@;
        let target: Option<Node> = match elem {
            DataType::List(index) => Some(Node::List(*index)),
            DataType::NamelessRecord(index) => Some(Node::Record(*index)),
            _ => None,
        };
        assert(target == elem@.node());
        if let Some(b) = target {
            proof {
                assert(heap.live(heap.contents(node)[j as int]));
                assert(heap.points_to(node, b));
                lemma_step_reachable(envs, heap, node, b);
            }
            let already = match b {
                Node::List(index) => marked_lists[index],
                Node::Record(index) => marked_records[index],
            };
            // A container that is marked already is not entered again.
            if !already {
                match b {
                    Node::List(index) => {
                        marked_lists[index] = true;
                        proof {
                            lemma_count_false_update(ml0, index as int);
                        }
                    },
                    Node::Record(index) => {
                        marked_records[index] = true;
                        proof {
                            lemma_count_false_update(mr0, index as int);
                        }
                    },
                }
                let ghost ml1 = marked_lists@;
                let ghost mr1 = marked_records@;
                assert(forall|x: Node| marked(ml1, mr1, x) <==> (marked(ml0, mr0, x) || x == b));
                mark_all_reachable_from(heap, b, marked_lists, marked_records, Ghost(envs));
                proof {
                    let ml2 = marked_lists@;
                    let mr2 = marked_records@;
                    assert forall|x: Node|
                        marked(ml2, mr2, x) && !marked(
                            old(marked_lists)@,
                            old(marked_records)@,
                            x,
                        ) implies closed(heap, ml2, mr2, x) by {
                        if marked(ml1, mr1, x) {
                            if x != b {
                                assert(closed(heap, ml0, mr0, x));
                            }
                        }
                    }
                }
            }
        }
        j += 1;
    }
    proof {
        assert forall|b: Node| #[trigger] heap.points_to(node, b) implies marked(
            marked_lists@,
            marked_records@,
            b,
        ) by {
            let k = choose|k: int|
                0 <= k < heap.contents(node).len() && #[trigger] heap.contents(node)[k].node()
                    == Some(b);
            assert(target_marked(marked_lists@, marked_records@, heap.contents(node)[k]));
        }
    }
}

/// Marks every container that can be reached from the list at `index`,
/// which is marked already.
fn mark_all_reachable_from_list(
    heap: &Heap,
    index: usize,
    marked_lists: &mut Vec<bool>,
    marked_records: &mut Vec<bool>,
    Ghost(envs): Ghost<Seq<Scope>>,
)
    requires
        heap.wf(),
        old(marked_lists)@.len() == heap.lists@.len(),
        old(marked_records)@.len() == heap.nameless_records@.len(),
        index < heap.lists@.len(),
        old(marked_lists)@[index as int],
        forall|x: Node|
            marked(old(marked_lists)@, old(marked_records)@, x) ==> reachable(envs, heap, x),
    ensures
        final(marked_lists)@.len() == heap.lists@.len(),
        final(marked_records)@.len() == heap.nameless_records@.len(),
        forall|x: Node|
            marked(old(marked_lists)@, old(marked_records)@, x) ==> marked(
                final(marked_lists)@,
                final(marked_records)@,
                x,
            ),
        forall|x: Node|
            marked(final(marked_lists)@, final(marked_records)@, x) ==> reachable(envs, heap, x),
        closed(heap, final(marked_lists)@, final(marked_records)@, Node::List(index)),
        forall|x: Node|
            marked(final(marked_lists)@, final(marked_records)@, x) && !marked(
                old(marked_lists)@,
                old(marked_records)@,
                x,
            ) ==> closed(heap, final(marked_lists)@, final(marked_records)@, x),
{
    mark_all_reachable_from(heap, Node::List(index), marked_lists, marked_records, Ghost(envs));
}

/// Marks every container that can be reached from the record at `index`,
/// which is marked already.
fn mark_all_reachable_from_record(
    heap: &Heap,
    index: usize,
    marked_lists: &mut Vec<bool>,
    marked_records: &mut Vec<bool>,
    Ghost(envs): Ghost<Seq<Scope>>,
)
    requires
        heap.wf(),
        old(marked_lists)@.len() == heap.lists@.len(),
        old(marked_records)@.len() == heap.nameless_records@.len(),
        index < heap.nameless_records@.len(),
        old(marked_records)@[index as int],
        forall|x: Node|
            marked(old(marked_lists)@, old(marked_records)@, x) ==> reachable(envs, heap, x),
    ensures
        final(marked_lists)@.len() == heap.lists@.len(),
        final(marked_records)@.len() == heap.nameless_records@.len(),
        forall|x: Node|
            marked(old(marked_lists)@, old(marked_records)@, x) ==> marked(
                final(marked_lists)@,
                final(marked_records)@,
                x,
            ),
        forall|x: Node|
            marked(final(marked_lists)@, final(marked_records)@, x) ==> reachable(envs, heap, x),
        closed(heap, final(marked_lists)@, final(marked_records)@, Node::Record(index)),
        forall|x: Node|
            marked(final(marked_lists)@, final(marked_records)@, x) && !marked(
                old(marked_lists)@,
                old(marked_records)@,
                x,
            ) ==> closed(heap, final(marked_lists)@, final(marked_records)@, x),
{
    mark_all_reachable_from(heap, Node::Record(index), marked_lists, marked_records, Ghost(envs));
}

/// The handle of a binding, if it binds one, is among the roots found.
pub open spec fn covered(root_lists: Seq<usize>, root_records: Seq<usize>,
    value: Option<DataType>) -> bool {
    match bound_node(value) {
        Some(Node::List(i)) => root_lists.contains(i),
        Some(Node::Record(i)) => root_records.contains(i),
        None => true,
    }
}

/// The handles bound in the scopes: the indices of the lists and those of
/// the records.
fn find_root_objects(envs: &Vec<Scope>) -> (r: (Vec<usize>, Vec<usize>))
    ensures
        forall|i: usize| r.0@.contains(i) <==> is_root(envs@, Node::List(i)),
        forall|i: usize| r.1@.contains(i) <==> is_root(envs@, Node::Record(i)),
{
    let mut root_lists: Vec<usize> = Vec::new();
    let mut root_records: Vec<usize> = Vec::new();
    let mut s: usize = 0;
    while s < envs.len()
        invariant
            s <= envs@.len(),
            forall|i: usize| root_lists@.contains(i) ==> is_root(envs@, Node::List(i)),
            forall|i: usize| root_records@.contains(i) ==> is_root(envs@, Node::Record(i)),
            forall|a: int, b: int|
                0 <= a < s && 0 <= b < envs@[a].entries@.len() ==> covered(
                    root_lists@,
                    root_records@,
                    #[trigger] envs@[a].entries@[b].value,
                ),
        decreases envs.len() - s,
    {
        let env = &envs[s];
        let mut j: usize = 0;
        while j < env.entries.len()
            invariant
                s < envs@.len(),
                *env == envs@[s as int],
                j <= env.entries@.len(),
                forall|i: usize| root_lists@.contains(i) ==> is_root(envs@, Node::List(i)),
                forall|i: usize| root_records@.contains(i) ==> is_root(envs@, Node::Record(i)),
                forall|a: int, b: int|
                0 <= a < s && 0 <= b < envs@[a].entries@.len() ==> covered(
                    root_lists@,
                    root_records@,
                    #[trigger] envs@[a].entries@[b].value,
                ),
                forall|b: int|
                    0 <= b < j ==> covered(
                        root_lists@,
                        root_records@,
                        #[trigger] env.entries@[b].value,
                    ),
            decreases env.entries.len() - j,
        {
            let ghost rl0 = root_lists@;
            let ghost rr0 = root_records@;
            if let Some(data_type) = &env.entries[j].value {
                match data_type {
                    DataType::List(index) => {
                        root_lists.push(*index);
                        proof {
                            assert(bound_node(envs@[s as int].entries@[j as int].value) == Some(
                                Node::List(*index),
                            ));
                            assert(root_lists@[rl0.len() as int] == *index);
                            assert forall|i: usize| rl0.contains(i) implies root_lists@.contains(
                                i,
                            ) by {
                                let w = choose|w: int| 0 <= w < rl0.len() && rl0[w] == i;
                                assert(root_lists@[w] == i);
                            }
                            assert forall|i: usize| root_lists@.contains(i) implies is_root(
                                envs@,
                                Node::List(i),
                            ) by {
                                let w = choose|w: int|
                                    0 <= w < root_lists@.len() && root_lists@[w] == i;
                                if w < rl0.len() {
                                    assert(rl0[w] == i);
                                    assert(rl0.contains(i));
                                } else {
                                    assert(i == *index);
                                    assert(bound_node(envs@[s as int].entries@[j as int].value)
                                        == Some(Node::List(i)));
                                }
                            }
                        }
                    },
                    DataType::NamelessRecord(index) => {
                        root_records.push(*index);
                        proof {
                            assert(bound_node(envs@[s as int].entries@[j as int].value) == Some(
                                Node::Record(*index),
                            ));
                            assert(root_records@[rr0.len() as int] == *index);
                            assert forall|i: usize| rr0.contains(i) implies root_records@.contains(
                                i,
                            ) by {
                                let w = choose|w: int| 0 <= w < rr0.len() && rr0[w] == i;
                                assert(root_records@[w] == i);
                            }
                            assert forall|i: usize| root_records@.contains(i) implies is_root(
                                envs@,
                                Node::Record(i),
                            ) by {
                                let w = choose|w: int|
                                    0 <= w < root_records@.len() && root_records@[w] == i;
                                if w < rr0.len() {
                                    assert(rr0[w] == i);
                                    assert(rr0.contains(i));
                                } else {
                                    assert(i == *index);
                                    assert(bound_node(envs@[s as int].entries@[j as int].value)
                                        == Some(Node::Record(i)));
                                }
                            }
                        }
                    },
                    _ => {},
                }
            }
            j += 1;
        }
        s += 1;
    }
    proof {
        assert forall|i: usize| is_root(envs@, Node::List(i)) implies root_lists@.contains(i) by {
            let (a, b) = choose|a: int, b: int|
                0 <= a < envs@.len() && 0 <= b < envs@[a].entries@.len() && bound_node(
                    #[trigger] envs@[a].entries@[b].value,
                ) == Some(Node::List(i));
            assert(covered(root_lists@, root_records@, envs@[a].entries@[b].value));
        }
        assert forall|i: usize| is_root(envs@, Node::Record(i)) implies root_records@.contains(
            i,
        ) by {
            let (a, b) = choose|a: int, b: int|
                0 <= a < envs@.len() && 0 <= b < envs@[a].entries@.len() && bound_node(
                    #[trigger] envs@[a].entries@[b].value,
                ) == Some(Node::Record(i));
            assert(covered(root_lists@, root_records@, envs@[a].entries@[b].value));
        }
    }
    (root_lists, root_records)
}

fn all_false(n: usize) -> (r: Vec<bool>)
    ensures
        r@.len() == n,
        forall|i: int| 0 <= i < n ==> !r@[i],
{
    let mut r: Vec<bool> = Vec::new();
    let mut i: usize = 0;
    while i < n
        invariant
            i <= n,
            r@.len() == i,
            forall|k: int| 0 <= k < i ==> !r@[k],
        decreases n - i,
    {
        r.push(false);
        i += 1;
    }
    r
}

/// The mark phase: the marks of the lists and those of the records. A
/// container is marked if and only if it can be reached from a scope.
pub fn gc_mark(envs: &Vec<Scope>, heap: &Heap) -> (r: (Vec<bool>, Vec<bool>))
    requires
        heap.wf(),
        scopes_live(envs@, heap),
    ensures
        r.0@.len() == heap.lists@.len(),
        r.1@.len() == heap.nameless_records@.len(),
        forall|n: Node| marked(r.0@, r.1@, n) <==> reachable(envs@, heap, n),
{
    let mut marked_lists = all_false(heap.lists.len());
    let mut marked_records = all_false(heap.nameless_records.len());
    let (root_lists, root_records) = find_root_objects(envs);
    let ghost e = envs@;

    let mut k: usize = 0;
    while k < root_lists.len()
        invariant
            heap.wf(),
            scopes_live(e, heap),
            e == envs@,
            k <= root_lists@.len(),
            marked_lists@.len() == heap.lists@.len(),
            marked_records@.len() == heap.nameless_records@.len(),
            forall|i: usize| root_lists@.contains(i) <==> is_root(e, Node::List(i)),
            forall|x: Node| marked(marked_lists@, marked_records@, x) ==> reachable(e, heap, x),
            forall|x: Node|
                marked(marked_lists@, marked_records@, x) ==> closed(
                    heap,
                    marked_lists@,
                    marked_records@,
                    x,
                ),
            forall|w: int|
                0 <= w < k ==> marked(
                    marked_lists@,
                    marked_records@,
                    Node::List(#[trigger] root_lists@[w]),
                ),
        decreases root_lists.len() - k,
    {
        let root_list_index = root_lists[k];
        let ghost ml0 = marked_lists@;
        let ghost mr0 = marked_records@;
        proof {
            assert(root_lists@.contains(root_list_index));
            lemma_root_reachable(e, heap, Node::List(root_list_index));
            lemma_reachable_live(e, heap, Node::List(root_list_index));
        }
        marked_lists[root_list_index] = true;
        assert(forall|x: Node|
            marked(marked_lists@, marked_records@, x) <==> (marked(ml0, mr0, x) || x == Node::List(
                root_list_index,
            )));
        let ghost ml1 = marked_lists@;
        mark_all_reachable_from_list(
            heap,
            root_list_index,
            &mut marked_lists,
            &mut marked_records,
            Ghost(e),
        );
        proof {
            assert forall|x: Node| marked(marked_lists@, marked_records@, x) implies closed(
                heap,
                marked_lists@,
                marked_records@,
                x,
            ) by {
                if marked(ml1, mr0, x) && x != Node::List(root_list_index) {
                    assert(marked(ml0, mr0, x));
                    assert(closed(heap, ml0, mr0, x));
                }
            }
        }
        k += 1;
    }

    let mut k: usize = 0;
    while k < root_records.len()
        invariant
            heap.wf(),
            scopes_live(e, heap),
            e == envs@,
            k <= root_records@.len(),
            marked_lists@.len() == heap.lists@.len(),
            marked_records@.len() == heap.nameless_records@.len(),
            forall|i: usize| root_lists@.contains(i) <==> is_root(e, Node::List(i)),
            forall|i: usize| root_records@.contains(i) <==> is_root(e, Node::Record(i)),
            forall|x: Node| marked(marked_lists@, marked_records@, x) ==> reachable(e, heap, x),
            forall|x: Node|
                marked(marked_lists@, marked_records@, x) ==> closed(
                    heap,
                    marked_lists@,
                    marked_records@,
                    x,
                ),
            forall|w: int|
                0 <= w < root_lists@.len() ==> marked(
                    marked_lists@,
                    marked_records@,
                    Node::List(#[trigger] root_lists@[w]),
                ),
            forall|w: int|
                0 <= w < k ==> marked(
                    marked_lists@,
                    marked_records@,
                    Node::Record(#[trigger] root_records@[w]),
                ),
        decreases root_records.len() - k,
    {
        let root_record_index = root_records[k];
        let ghost ml0 = marked_lists@;
        let ghost mr0 = marked_records@;
        proof {
            assert(root_records@.contains(root_record_index));
            lemma_root_reachable(e, heap, Node::Record(root_record_index));
            lemma_reachable_live(e, heap, Node::Record(root_record_index));
        }
        marked_records[root_record_index] = true;
        assert(forall|x: Node|
            marked(marked_lists@, marked_records@, x) <==> (marked(ml0, mr0, x) || x
                == Node::Record(root_record_index)));
        let ghost mr1 = marked_records@;
        mark_all_reachable_from_record(
            heap,
            root_record_index,
            &mut marked_lists,
            &mut marked_records,
            Ghost(e),
        );
        proof {
            assert forall|x: Node| marked(marked_lists@, marked_records@, x) implies closed(
                heap,
                marked_lists@,
                marked_records@,
                x,
            ) by {
                if marked(ml0, mr1, x) && x != Node::Record(root_record_index) {
                    assert(marked(ml0, mr0, x));
                    assert(closed(heap, ml0, mr0, x));
                }
            }
        }
        k += 1;
    }

    proof {
        assert forall|n: Node| is_root(e, n) implies marked(marked_lists@, marked_records@, n) by {
            match n {
                Node::List(i) => {
                    assert(root_lists@.contains(i));
                    let w = choose|w: int| 0 <= w < root_lists@.len() && root_lists@[w] == i;
                    assert(marked(marked_lists@, marked_records@, Node::List(root_lists@[w])));
                },
                Node::Record(i) => {
                    assert(root_records@.contains(i));
                    let w = choose|w: int| 0 <= w < root_records@.len() && root_records@[w] == i;
                    assert(marked(marked_lists@, marked_records@, Node::Record(root_records@[w])));
                },
            }
        }
        assert forall|n: Node| reachable(e, heap, n) implies marked(
            marked_lists@,
            marked_records@,
            n,
        ) by {
            lemma_closed_marks_cover(e, heap, marked_lists@, marked_records@, n);
        }
    }
    (marked_lists, marked_records)
}

/// Whether `x` occurs in `v`.
pub fn contains_index(v: &Vec<usize>, x: usize) -> (r: bool)
    ensures
        r == v@.contains(x),
{
    let mut i: usize = 0;
    while i < v.len()
        invariant
            i <= v@.len(),
            forall|k: int| 0 <= k < i ==> v@[k] != x,
        decreases v.len() - i,
    {
        if v[i] == x {
            return true;
        }
        i += 1;
    }
    false
}

/// The free stack after a sweep of the slots below `upto`: each slot
/// without a mark is pushed, in rising order, unless the stack holds it
/// already.
pub open spec fn swept_free(free: Seq<usize>, marks: Seq<bool>, upto: nat) -> Seq<usize>
    decreases upto,
{
    if upto == 0 {
        free
    } else {
        let f = swept_free(free, marks, (upto - 1) as nat);
        if !marks[upto - 1] && !f.contains((upto - 1) as usize) {
            f.push((upto - 1) as usize)
        } else {
            f
        }
    }
}

/// A swept free stack holds what it held and the slots without a mark, each
/// once.
pub proof fn lemma_swept_free(free: Seq<usize>, marks: Seq<bool>, upto: nat)
    requires
        upto <= marks.len() <= usize::MAX,
        distinct(free),
    ensures
        distinct(swept_free(free, marks, upto)),
        forall|x: usize|
            swept_free(free, marks, upto).contains(x) <==> (free.contains(x) || (x < upto
                && !marks[x as int])),
    decreases upto,
{
    if upto > 0 {
        lemma_swept_free(free, marks, (upto - 1) as nat);
        let f = swept_free(free, marks, (upto - 1) as nat);
        let last = (upto - 1) as usize;
        let g = swept_free(free, marks, upto);
        if !marks[upto - 1] && !f.contains(last) {
            assert(g == f.push(last));
            assert(g[f.len() as int] == last);
            assert forall|x: usize| g.contains(x) <==> (f.contains(x) || x == last) by {
                if f.contains(x) {
                    let w = choose|w: int| 0 <= w < f.len() && f[w] == x;
                    assert(g[w] == x);
                }
                if g.contains(x) {
                    let w = choose|w: int| 0 <= w < g.len() && g[w] == x;
                    if w < f.len() {
                        assert(f[w] == x);
                    }
                }
            }
            assert forall|i: int, j: int| 0 <= i < j < g.len() implies g[i] != g[j] by {
                if j == f.len() {
                    assert(f[i] == g[i]);
                    assert(f.contains(g[i]));
                }
            }
        }
    }
}

/// The sweep phase: a slot without a mark is emptied and, unless it is there
/// already, pushed on the free stack of its arena. A slot with a mark is
/// left as it is.
pub fn gc_sweep(heap: &mut Heap, marked_lists: Vec<bool>, marked_record: Vec<bool>)
    requires
        marked_lists@.len() == old(heap).lists@.len(),
        marked_record@.len() == old(heap).nameless_records@.len(),
    ensures
        final(heap).lists@.len() == old(heap).lists@.len(),
        final(heap).nameless_records@.len() == old(heap).nameless_records@.len(),
        forall|i: int|
            0 <= i < marked_lists@.len() && marked_lists@[i] ==> #[trigger] final(heap).lists@[i]
                == old(heap).lists@[i],
        forall|i: int|
            0 <= i < marked_lists@.len() && !marked_lists@[i]
                ==> (#[trigger] final(heap).lists@[i])@.len() == 0,
        forall|i: int|
            0 <= i < marked_record@.len() && marked_record@[i]
                ==> #[trigger] final(heap).nameless_records@[i] == old(heap).nameless_records@[i],
        forall|i: int|
            0 <= i < marked_record@.len() && !marked_record@[i]
                ==> (#[trigger] final(heap).nameless_records@[i]).entries@.len() == 0,
        final(heap).free_lists@ == swept_free(
            old(heap).free_lists@,
            marked_lists@,
            marked_lists@.len(),
        ),
        final(heap).free_nameless_records@ == swept_free(
            old(heap).free_nameless_records@,
            marked_record@,
            marked_record@.len(),
        ),
        final(heap).total_allocated_object_count == old(heap).total_allocated_object_count,
{
    let mut index: usize = 0;
    while index < marked_lists.len()
        invariant
            index <= marked_lists@.len(),
            marked_lists@.len() == heap.lists@.len(),
            heap.nameless_records == old(heap).nameless_records,
            heap.free_nameless_records == old(heap).free_nameless_records,
            heap.total_allocated_object_count == old(heap).total_allocated_object_count,
            heap.lists@.len() == old(heap).lists@.len(),
            forall|i: int|
                0 <= i < index && marked_lists@[i]
                    ==> #[trigger] heap.lists@[i] == old(heap).lists@[i],
            forall|i: int| 0 <= i < index && !marked_lists@[i]
                ==> (#[trigger] heap.lists@[i])@.len() == 0,
            forall|i: int|
                index <= i < marked_lists@.len()
                    ==> #[trigger] heap.lists@[i] == old(heap).lists@[i],
            heap.free_lists@ == swept_free(old(heap).free_lists@, marked_lists@, index as nat),
        decreases marked_lists.len() - index,
    {
        if !marked_lists[index] {
            // The slot holds an empty list until it is used again.
            heap.lists[index] = Vec::new();
            if !contains_index(&heap.free_lists, index) {
                heap.free_lists.push(index);
            }
        }
        index += 1;
    }
    let mut index: usize = 0;
    while index < marked_record.len()
        invariant
            index <= marked_record@.len(),
            marked_record@.len() == heap.nameless_records@.len(),
            heap.total_allocated_object_count == old(heap).total_allocated_object_count,
            heap.nameless_records@.len() == old(heap).nameless_records@.len(),
            heap.lists@.len() == old(heap).lists@.len(),
            forall|i: int|
                0 <= i < marked_lists@.len() && marked_lists@[i] ==> #[trigger] heap.lists@[i]
                    == old(heap).lists@[i],
            forall|i: int|
                0 <= i < marked_lists@.len() && !marked_lists@[i] ==> (
                #[trigger] heap.lists@[i])@.len() == 0,
            heap.free_lists@ == swept_free(
                old(heap).free_lists@,
                marked_lists@,
                marked_lists@.len(),
            ),
            forall|i: int|
                0 <= i < index && marked_record@[i] ==> #[trigger] heap.nameless_records@[i]
                    == old(heap).nameless_records@[i],
            forall|i: int|
                0 <= i < index && !marked_record@[i] ==> (
                #[trigger] heap.nameless_records@[i]).entries@.len() == 0,
            forall|i: int|
                index <= i < marked_record@.len()
                    ==> #[trigger] heap.nameless_records@[i] == old(heap).nameless_records@[i],
            heap.free_nameless_records@ == swept_free(
                old(heap).free_nameless_records@,
                marked_record@,
                index as nat,
            ),
        decreases marked_record.len() - index,
    {
        if !marked_record[index] {
            // The slot holds an empty record until it is used again.
            heap.nameless_records[index] = Table::new();
            if !contains_index(&heap.free_nameless_records, index) {
                heap.free_nameless_records.push(index);
            }
        }
        index += 1;
    }
}

/// The slot of `n` holds in `after` what it holds in `before`.
pub open spec fn same_slot(before: &Heap, after: &Heap, n: Node) -> bool {
    match n {
        Node::List(i) => after.lists@[i as int] == before.lists@[i as int],
        Node::Record(i) => after.nameless_records@[i as int] == before.nameless_records@[i as int],
    }
}

/// `after` is what a collection under the scopes `envs` makes of `before`:
/// a container that can be reached is untouched and not free; one that
/// cannot is empty and free.
pub open spec fn collected(envs: Seq<Scope>, before: &Heap, after: &Heap) -> bool {
    &&& after.lists@.len() == before.lists@.len()
    &&& after.nameless_records@.len() == before.nameless_records@.len()
    &&& after.total_allocated_object_count == before.total_allocated_object_count
    &&& forall|n: Node|
        before.has_node(n) && reachable(envs, before, n) ==> #[trigger] same_slot(
            before,
            after,
            n,
        ) && !after.is_free(n)
    &&& forall|n: Node|
        before.has_node(n) && !reachable(envs, before, n) ==> (#[trigger] after.contents(n)).len()
            == 0 && after.is_free(n)
}

proof fn lemma_path_transfer(envs: Seq<Scope>, from: &Heap, to: &Heap, path: Seq<Node>, k: int)
    requires
        path.len() > 0,
        is_root(envs, path[0]),
        is_path(from, path),
        0 <= k < path.len(),
        forall|a: Node, b: Node|
            reachable(envs, to, a) && #[trigger] from.points_to(a, b) ==> to.points_to(a, b),
    ensures
        reachable(envs, to, path[k]),
    decreases k,
{
    if k == 0 {
        lemma_root_reachable(envs, to, path[0]);
    } else {
        lemma_path_transfer(envs, from, to, path, k - 1);
        assert(from.points_to(path[k - 1], path[k - 1 + 1]));
        lemma_step_reachable(envs, to, path[k - 1], path[k]);
    }
}

proof fn lemma_reachable_transfer(envs: Seq<Scope>, from: &Heap, to: &Heap, n: Node)
    requires
        reachable(envs, from, n),
        forall|a: Node, b: Node|
            reachable(envs, to, a) && #[trigger] from.points_to(a, b) ==> to.points_to(a, b),
    ensures
        reachable(envs, to, n),
{
    let p = choose|path: Seq<Node>|
        path.len() > 0 && is_root(envs, path[0]) && #[trigger] path.last() == n && is_path(
            from,
            path,
        );
    lemma_path_transfer(envs, from, to, p, p.len() - 1);
}

/// A collection changes nothing of what can be reached: the same
/// containers can be reached after it as before it.
pub proof fn lemma_collection_keeps_reachability(
    envs: Seq<Scope>,
    before: &Heap,
    after: &Heap,
    n: Node,
)
    requires
        before.wf(),
        scopes_live(envs, before),
        collected(envs, before, after),
    ensures
        reachable(envs, after, n) == reachable(envs, before, n),
{
    assert forall|a: Node, b: Node|
        reachable(envs, before, a) && #[trigger] after.points_to(a, b) implies before.points_to(
        a,
        b,
    ) by {
        lemma_reachable_live(envs, before, a);
        assert(same_slot(before, after, a));
        assert(after.contents(a) =~= before.contents(a));
    }
    if reachable(envs, after, n) {
        lemma_reachable_transfer(envs, after, before, n);
    }
    assert forall|a: Node, b: Node|
        reachable(envs, after, a) && #[trigger] before.points_to(a, b) implies after.points_to(
        a,
        b,
    ) by {
        lemma_reachable_transfer(envs, after, before, a);
        lemma_reachable_live(envs, before, a);
        assert(same_slot(before, after, a));
        assert(after.contents(a) =~= before.contents(a));
    }
    if reachable(envs, before, n) {
        lemma_reachable_transfer(envs, before, after, n);
    }
}

/// For each list of the heap, whether the scopes reach it.
pub open spec fn reached_lists(envs: Seq<Scope>, heap: &Heap) -> Seq<bool> {
    Seq::new(heap.lists@.len(), |i: int| reachable(envs, heap, Node::List(i as usize)))
}

/// For each record of the heap, whether the scopes reach it.
pub open spec fn reached_records(envs: Seq<Scope>, heap: &Heap) -> Seq<bool> {
    Seq::new(
        heap.nameless_records@.len(),
        |i: int| reachable(envs, heap, Node::Record(i as usize)),
    )
}

/// Runs a collection: marks what the scopes reach, then sweeps the rest.
///
/// Every container that can be reached from a scope keeps its slot and its
/// content; every other slot is emptied and is free for reuse afterwards.
/// The slots that become free are pushed on the free stacks in rising
/// order, so the slot given out next is the highest of them.
pub fn collect_garbage(envs: &Vec<Scope>, heap: &mut Heap)
    requires
        old(heap).wf(),
        scopes_live(envs@, old(heap)),
    ensures
        final(heap).wf(),
        scopes_live(envs@, final(heap)),
        collected(envs@, old(heap), final(heap)),
        final(heap).free_lists@ == swept_free(
            old(heap).free_lists@,
            reached_lists(envs@, old(heap)),
            old(heap).lists@.len(),
        ),
        final(heap).free_nameless_records@ == swept_free(
            old(heap).free_nameless_records@,
            reached_records(envs@, old(heap)),
            old(heap).nameless_records@.len(),
        ),
{
    let (marked_lists, marked_nameless_records) = gc_mark(envs, heap);
    let ghost ml = marked_lists@;
    let ghost mr = marked_nameless_records@;
    assert(marked_lists.len() <= usize::MAX && marked_nameless_records.len() <= usize::MAX);
    proof {
        assert forall|i: int| 0 <= i < ml.len() implies ml[i] == reached_lists(envs@, heap)[i] by {
            assert(marked(ml, mr, Node::List(i as usize)) == ml[i]);
        }
        assert(ml =~= reached_lists(envs@, heap));
        assert forall|i: int| 0 <= i < mr.len() implies mr[i] == reached_records(
            envs@,
            heap,
        )[i] by {
            assert(marked(ml, mr, Node::Record(i as usize)) == mr[i]);
        }
        assert(mr =~= reached_records(envs@, heap));
    }
    gc_sweep(heap, marked_lists, marked_nameless_records);
    proof {
        let before = old(heap);
        let after = heap;
        let e = envs@;
        lemma_swept_free(before.free_lists@, ml, ml.len());
        lemma_swept_free(before.free_nameless_records@, mr, mr.len());
        assert forall|n: Node| before.has_node(n)
            && reachable(e, before, n) implies #[trigger] same_slot(
            before,
            after,
            n,
        ) && !after.is_free(n) by {
            assert(marked(ml, mr, n));
            lemma_reachable_live(e, before, n);
        }
        assert forall|n: Node|
            before.has_node(n) && !reachable(e, before, n) implies (#[trigger] after.contents(
            n,
        )).len() == 0 && after.is_free(n) by {
            assert(!marked(ml, mr, n));
        }
        assert forall|n: Node, j: int|
            after.has_node(n) && 0 <= j < after.contents(n).len() implies after.live(
            #[trigger] after.contents(n)[j],
        ) by {
            assert(before.has_node(n));
            if reachable(e, before, n) {
                assert(same_slot(before, after, n));
                assert(after.contents(n) =~= before.contents(n));
                let v = before.contents(n)[j];
                assert(before.live(v));
                if let Some(b) = v.node() {
                    assert(before.points_to(n, b));
                    lemma_step_reachable(e, before, n, b);
                    assert(marked(ml, mr, b));
                }
            } else {
                assert(after.contents(n).len() == 0);
            }
        }
        assert forall|k: int| 0 <= k < after.free_lists@.len() implies #[trigger] after.free_lists@[k]
            < after.lists@.len() by {
            let x = after.free_lists@[k];
            assert(after.free_lists@.contains(x));
            if before.free_lists@.contains(x) {
                let w = choose|w: int| 0 <= w < before.free_lists@.len()
                    && before.free_lists@[w] == x;
                assert(before.free_lists@[w] < before.lists@.len());
            }
        }
        assert forall|k: int|
            0 <= k < after.free_nameless_records@.len() implies #[trigger] after.free_nameless_records@[k]
            < after.nameless_records@.len() by {
            let x = after.free_nameless_records@[k];
            assert(after.free_nameless_records@.contains(x));
            if before.free_nameless_records@.contains(x) {
                let w = choose|w: int|
                    0 <= w < before.free_nameless_records@.len()
                        && before.free_nameless_records@[w] == x;
                assert(before.free_nameless_records@[w] < before.nameless_records@.len());
            }
        }
        assert forall|i: int| 0 <= i < after.nameless_records@.len() implies (
        #[trigger] after.nameless_records@[i]).wf() by {
            if mr[i] {
                assert(after.nameless_records@[i] == before.nameless_records@[i]);
            }
        }
        assert forall|s: int, j: int|
            0 <= s < e.len() && 0 <= j < e[s].entries@.len() implies (bound_node(
            #[trigger] e[s].entries@[j].value,
        ) matches Some(n) ==> after.has_node(n) && !after.is_free(n)) by {
            if let Some(n) = bound_node(e[s].entries@[j].value) {
                assert(is_root(e, n));
                lemma_root_reachable(e, before, n);
                assert(marked(ml, mr, n));
            }
        }
    }
}

/// Reachability through collections: a container that the scopes reach
/// keeps its slot and its content, and stays reachable and not free,
/// through any number of collections under the same scopes.
pub proof fn lemma_collections_keep_reachable(envs: Seq<Scope>, heaps: Seq<Heap>, n: Node)
    requires
        heaps.len() >= 1,
        heaps[0].wf(),
        scopes_live(envs, &heaps[0]),
        forall|k: int|
            0 <= k < heaps.len() - 1 ==> collected(envs, &heaps[k], #[trigger] &heaps[k + 1])
                && heaps[k + 1].wf() && scopes_live(envs, &heaps[k + 1]),
        reachable(envs, &heaps[0], n),
    ensures
        reachable(envs, &heaps.last(), n),
        same_slot(&heaps[0], &heaps.last(), n),
        !heaps.last().is_free(n),
    decreases heaps.len(),
{
    if heaps.len() == 1 {
        lemma_reachable_live(envs, &heaps[0], n);
    } else {
        let shorter = heaps.drop_last();
        assert forall|k: int| 0 <= k < shorter.len() - 1 implies collected(
            envs,
            &shorter[k],
            #[trigger] &shorter[k + 1],
        ) && shorter[k + 1].wf() && scopes_live(envs, &shorter[k + 1]) by {
            assert(shorter[k] == heaps[k]);
            assert(shorter[k + 1] == heaps[k + 1]);
            assert(collected(envs, &heaps[k], &heaps[k + 1]));
        }
        lemma_collections_keep_reachable(envs, shorter, n);
        let before = heaps[heaps.len() - 2];
        let after = heaps[heaps.len() - 2 + 1];
        assert(shorter.last() == before);
        assert(heaps.last() == after);
        assert(before.wf() && scopes_live(envs, &before)) by {
            if heaps.len() > 2 {
                assert(collected(envs, &heaps[heaps.len() - 3], &heaps[heaps.len() - 3 + 1]));
            }
        }
        assert(collected(envs, &before, &after));
        lemma_collection_keeps_reachability(envs, &before, &after, n);
        lemma_reachable_live(envs, &before, n);
        assert(same_slot(&before, &after, n));
    }
}

/// Slot reuse: a list that is put in the slot on top of the free stack
/// leaves every container that the scopes reach as it is.
pub proof fn lemma_reuse_keeps_reachable(
    envs: Seq<Scope>,
    before: &Heap,
    after: &Heap,
    new_list: Vec<DataType>,
    n: Node,
)
    requires
        before.wf(),
        scopes_live(envs, before),
        before.free_lists@.len() > 0,
        after.lists@ == before.lists@.update(before.next_list_index(), new_list),
        after.nameless_records == before.nameless_records,
        reachable(envs, before, n),
    ensures
        n != Node::List(before.next_list_index() as usize),
        same_slot(before, after, n),
{
    lemma_reachable_live(envs, before, n);
    let top = before.free_lists@.len() - 1;
    assert(before.free_lists@[top] == before.next_list_index());
    assert(before.free_lists@.contains(before.free_lists@[top]));
}

} // verus!
