//! The stack of lexical scopes, outermost first.

use vstd::prelude::*;
use crate::backend::heap::Scope;
use crate::backend::value::DataType;

verus! {

/// The index of the innermost scope that has `name`, or -1 where none has.
pub open spec fn resolve(envs: Seq<Scope>, name: Seq<char>) -> int
    decreases envs.len(),
{
    if envs.len() == 0 {
        -1
    } else if envs.last().has(name) {
        envs.len() - 1
    } else {
        resolve(envs.drop_last(), name)
    }
}

/// What `name` is bound to: `None` where no scope has it, `Some(None)`
/// where the innermost scope that has it declares it without a value.
pub open spec fn lookup(envs: Seq<Scope>, name: Seq<char>) -> Option<Option<DataType>> {
    if resolve(envs, name) < 0 {
        None
    } else {
        Some(envs[resolve(envs, name)].value_of(name))
    }
}

/// Every scope is a well-formed table.
pub open spec fn scopes_wf(envs: Seq<Scope>) -> bool {
    forall|i: int| 0 <= i < envs.len() ==> (#[trigger] envs[i]).wf()
}

/// `after` is `before` with `name` bound to `value` in the innermost scope,
/// and nothing else changed.
pub open spec fn declares(
    before: Seq<Scope>,
    after: Seq<Scope>,
    name: Seq<char>,
    value: Option<DataType>,
) -> bool {
    &&& before.len() > 0
    &&& after.len() == before.len()
    &&& forall|i: int| 0 <= i < before.len() - 1 ==> after[i] == before[i]
    &&& after.last().has(name)
    &&& after.last().value_of(name) == value
    &&& forall|k: Seq<char>| k != name ==> after.last().has(k) == before.last().has(k)
    &&& forall|k: Seq<char>|
        k != name && before.last().has(k) ==> after.last().value_of(k) == before.last().value_of(
            k,
        )
}

/// `after` is `before` with `name` bound to `value` in the scope `at`, and
/// nothing else changed.
pub open spec fn rebinds(
    before: Seq<Scope>,
    after: Seq<Scope>,
    at: int,
    name: Seq<char>,
    value: Option<DataType>,
) -> bool {
    &&& 0 <= at < before.len()
    &&& after.len() == before.len()
    &&& forall|i: int| 0 <= i < before.len() && i != at ==> after[i] == before[i]
    &&& after[at].has(name)
    &&& after[at].value_of(name) == value
    &&& forall|k: Seq<char>| k != name ==> after[at].has(k) == before[at].has(k)
    &&& forall|k: Seq<char>|
        k != name && before[at].has(k) ==> after[at].value_of(k) == before[at].value_of(k)
}

/// Scope shadowing: a block that declares `name` hides an outer binding of
/// it while the block lasts; once the block has ended, the scopes are what
/// they were before it, so every name is bound as it was.
pub proof fn lemma_block_shadowing(
    outer: Seq<Scope>,
    entered: Seq<Scope>,
    declared: Seq<Scope>,
    name: Seq<char>,
    value: Option<DataType>,
    other: Seq<char>,
)
    requires
        entered.len() == outer.len() + 1,
        entered.drop_last() == outer,
        declares(entered, declared, name, value),
    ensures
        lookup(declared, name) == Some(value),
        declared.drop_last() == outer,
        lookup(declared.drop_last(), other) == lookup(outer, other),
{
    assert(declared.drop_last() =~= outer) by {
        assert forall|i: int| 0 <= i < outer.len() implies declared.drop_last()[i] == outer[i] by {
            assert(declared[i] == entered[i]);
            assert(entered.drop_last()[i] == entered[i]);
        }
    }
}

/// The innermost scope that has `name`.
pub fn find_var_env_index(envs: &Vec<Scope>, var_key: &str) -> (r: Option<usize>)
    ensures
        r is None <==> resolve(envs@, var_key@) < 0,
        r matches Some(i) ==> i == resolve(envs@, var_key@) && i < envs@.len()
            && envs@[i as int].has(
            var_key@,
        ),
{
    let mut i: usize = envs.len();
    proof {
        assert(envs@.subrange(0, envs@.len() as int) =~= envs@);
    }
    while i > 0
        invariant
            i <= envs@.len(),
            resolve(envs@, var_key@) == resolve(envs@.subrange(0, i as int), var_key@),
        decreases i,
    {
        let ghost prefix = envs@.subrange(0, i as int);
        assert(prefix.last() == envs@[i - 1]);
        assert(prefix.drop_last() =~= envs@.subrange(0, i - 1));
        if envs[i - 1].position(var_key).is_some() {
            return Some(i - 1);
        }
        i -= 1;
    }
    None
}

} // verus!
