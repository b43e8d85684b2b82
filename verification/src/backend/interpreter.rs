//! The evaluator: one statement at a time over a flat list of statements,
//! with its own scope stack, return addresses and loop frames.
//!
//! Operands are evaluated left to right, whatever the operator. Equality of
//! lists and of records is equality of their handles.

use vstd::prelude::*;
use crate::backend::built_ins::{
    all_live,
    prefixed,
    BuiltInError,
    BuiltInFunctionList,
};
use crate::backend::heap::{Fault, Heap, HeapView, IndexView, Record, Scope};
use crate::backend::mark_sweep::{bound_node, collect_garbage, scopes_live};
use crate::backend::operators::{
    apply_and,
    apply_comparison,
    apply_equality,
    apply_muldiv,
    apply_or,
    apply_unary,
    bn_num_text,
    concat,
    concat_lists,
    to_bn_bool,
};
use crate::backend::scope::{declares, find_var_env_index, rebinds, resolve, scopes_wf};
use crate::backend::table::Table;
use crate::backend::value::{Node, Value};
use crate::common::io::{Piece, IO};
use crate::common::pakhi_error::{PakhiErr, PakhiErrView};
use crate::common::platform::Platform;
use crate::common::text::{str_eq, string_from_chars};
use crate::frontend::lexer::{Token, TokenKind};
use crate::frontend::parser::{
    Assignment,
    AssignmentKind,
    Binary,
    Expr,
    FunctionCall,
    Primary,
    Stmt,
    Unary,
};

pub use crate::backend::value::{DataType, Func};

verus! {

/// How many elements and fields may be allocated before the next statement
/// is preceded by a collection.
pub const GC_THRESHOLD: usize = 1000;

/// A loop that is running: where its body starts and how many scopes there
/// were when it was entered.
pub struct LoopEnv {
    pub start: usize,
    pub total_envs_at_loop_creation: usize,
}

/// An evaluated index of an assignment to an element.
pub enum Index {
    List(usize),
    NamelessRecord(String),
}

impl View for Index {
    type V = IndexView;

    open spec fn view(&self) -> IndexView {
        match self {
            Index::List(i) => IndexView::List(*i),
            Index::NamelessRecord(k) => IndexView::NamelessRecord(k@),
        }
    }
}

/// The views of the indexes.
pub open spec fn index_views(indexes: Seq<Index>) -> Seq<IndexView> {
    Seq::new(indexes.len(), |k: int| indexes[k]@)
}

/// Every handle bound in the table is live.
pub open spec fn table_live(scope: Scope, heap: &Heap) -> bool {
    forall|j: int|
        0 <= j < scope.entries@.len()
            ==> (bound_node(#[trigger] scope.entries@[j].value) matches Some(
            n,
        ) ==> heap.has_node(n) && !heap.is_free(n))
}

/// The value of a literal.
pub open spec fn literal_value(p: Primary) -> Option<Value> {
    match p {
        Primary::Nil => Some(Value::Nil),
        Primary::Bool(b) => Some(Value::Bool(b)),
        Primary::Num(n) => Some(Value::Num(n)),
        Primary::String(s) => Some(Value::String(s@)),
        _ => None,
    }
}

/// The value of an expression that is a literal.
pub open spec fn literal_of(e: Expr) -> Option<Value> {
    match e {
        Expr::Primary(p, _, _) => literal_value(p),
        _ => None,
    }
}

/// What the built-in functions that ask nothing of the platform give and
/// do to the heap, each under its name.
pub open spec fn built_in_stated(
    name: Seq<char>,
    arguments: Seq<DataType>,
    before: &Heap,
    after: &Heap,
    outcome: Result<DataType, BuiltInError>,
) -> bool {
    &&& name == "_লিস্ট-পুশ"@ ==> BuiltInFunctionList::list_pushed(
        arguments,
        before,
        after,
        outcome,
    )
    &&& name == "_লিস্ট-পপ"@ ==> BuiltInFunctionList::list_popped(
        arguments,
        before,
        after,
        outcome,
    )
    &&& name == "_লিস্ট-লেন"@ ==> BuiltInFunctionList::list_measured(
        arguments,
        before,
        outcome,
    ) && *after == *before
    &&& name == "_এরর"@ ==> (outcome matches Err(e) && e@ == BuiltInFunctionList::error_raised(
        arguments,
    )) && *after == *before
    &&& name == "_স্ট্রিং-স্প্লিট"@ ==> BuiltInFunctionList::string_split(
        arguments,
        before,
        after,
        outcome,
    )
    &&& name == "_স্ট্রিং-জয়েন"@ ==> BuiltInFunctionList::strings_joined(
        arguments,
        before,
        outcome,
    ) && *after == *before
    &&& name == "_টাইপ"@ ==> BuiltInFunctionList::kind_named(arguments, outcome)
        && *after == *before
}

/// Whether the expression is a literal or a variable: what is evaluated
/// without a change of the state.
pub open spec fn is_plain(e: Expr) -> bool {
    literal_of(e) is Some || variable_name(e) is Some
}

/// The value of a literal, or of a variable that `envs` binds to a value.
pub open spec fn plain_value(envs: Seq<Scope>, e: Expr) -> Option<Value> {
    if literal_of(e) is Some {
        literal_of(e)
    } else if variable_name(e) is Some {
        match crate::backend::scope::lookup(envs, variable_name(e)->0) {
            Some(Some(v)) => Some(v@),
            _ => None,
        }
    } else {
        None
    }
}

/// Whether every expression is a literal or a variable.
pub open spec fn all_plain(es: Seq<Expr>) -> bool {
    forall|k: int| 0 <= k < es.len() ==> is_plain(#[trigger] es[k])
}

/// Whether every expression is a literal or a variable that `envs` binds
/// to a value.
pub open spec fn all_bound(envs: Seq<Scope>, es: Seq<Expr>) -> bool {
    forall|k: int| 0 <= k < es.len() ==> plain_value(envs, #[trigger] es[k]) is Some
}

/// The values of literals and bound variables.
pub open spec fn plain_values(envs: Seq<Scope>, es: Seq<Expr>) -> Seq<Value> {
    Seq::new(es.len(), |k: int| plain_value(envs, es[k])->0)
}

/// Whether the expression only reads: it is a literal, a variable, or an
/// element of what only reads at an index that only reads.
pub open spec fn reads_only(e: Expr) -> bool
    decreases e,
{
    match e {
        Expr::Indexing(container, index, _, _) => reads_only(*container) && reads_only(*index),
        _ => is_plain(e),
    }
}

/// The values of the items of a list that is written with literals and
/// variables that `envs` binds to values.
pub open spec fn plain_list(envs: Seq<Scope>, p: Primary) -> Option<Seq<Value>> {
    match p {
        Primary::List(items) => if all_plain(items@) && all_bound(envs, items@) {
            Some(plain_values(envs, items@))
        } else {
            None
        },
        _ => None,
    }
}

/// Whether a record is written with keys that are strings, and values,
/// that are all literals and variables that `envs` binds to values. Values
/// beyond the keys do not count.
pub open spec fn plain_record(envs: Seq<Scope>, p: Primary) -> bool {
    p is NamelessRecord && {
        let keys = p->NamelessRecord_0.0@;
        let values = p->NamelessRecord_0.1@;
        &&& keys.len() <= values.len()
        &&& forall|k: int|
            0 <= k < keys.len() ==> is_plain(#[trigger] keys[k]) && plain_value(envs, keys[k])
                is Some && plain_value(envs, keys[k])->0 is String
        &&& forall|k: int|
            0 <= k < keys.len() ==> is_plain(#[trigger] values[k]) && plain_value(
                envs,
                values[k],
            ) is Some
    }
}

/// The keys of such a record, in the order written.
pub open spec fn record_keys(envs: Seq<Scope>, p: Primary) -> Seq<Seq<char>> {
    Seq::new(
        p->NamelessRecord_0.0@.len(),
        |k: int| plain_value(envs, p->NamelessRecord_0.0@[k])->0->String_0,
    )
}

/// The values of such a record, in the order written.
pub open spec fn record_fields(envs: Seq<Scope>, p: Primary) -> Seq<Value> {
    Seq::new(
        p->NamelessRecord_0.0@.len(),
        |k: int| plain_value(envs, p->NamelessRecord_0.1@[k])->0,
    )
}

/// The keys of a record that is written with the keys `keys`, up to the
/// one at `upto`: each key once, in the order in which it is first written.
pub open spec fn built_keys(keys: Seq<Seq<char>>, upto: int) -> Seq<Seq<char>>
    decreases upto,
{
    if upto <= 0 {
        Seq::empty()
    } else {
        crate::backend::heap::keys_with(built_keys(keys, upto - 1), keys[upto - 1])
    }
}

/// The values of that record: for each key the value written last for it.
pub open spec fn built_values(keys: Seq<Seq<char>>, values: Seq<Value>, upto: int) -> Seq<Value>
    decreases upto,
{
    if upto <= 0 {
        Seq::empty()
    } else {
        crate::backend::heap::values_with(
            built_keys(keys, upto - 1),
            built_values(keys, values, upto - 1),
            keys[upto - 1],
            values[upto - 1],
        )
    }
}

/// The index that brackets around literals and bound variables stand for:
/// the value of the first of them, a number, rounded toward zero, or a
/// string.
pub open spec fn bracket_index(envs: Seq<Scope>, e: Expr) -> Option<IndexView> {
    match e {
        Expr::Primary(p, _, _) => match plain_list(envs, p) {
            Some(values) => if values.len() > 0 {
                match values[0] {
                    Value::Num(n) => Some(IndexView::List(n.index())),
                    Value::String(k) => Some(IndexView::NamelessRecord(k)),
                    _ => None,
                }
            } else {
                None
            },
            None => None,
        },
        _ => None,
    }
}

/// Whether every expression is an index in brackets around literals and
/// bound variables.
pub open spec fn all_bracketed(envs: Seq<Scope>, es: Seq<Expr>) -> bool {
    forall|k: int| 0 <= k < es.len() ==> bracket_index(envs, #[trigger] es[k]) is Some
}

/// The indexes that the bracketed expressions stand for.
pub open spec fn bracket_indexes(envs: Seq<Scope>, es: Seq<Expr>) -> Seq<IndexView> {
    Seq::new(es.len(), |k: int| bracket_index(envs, es[k])->0)
}

/// Whether the expression is a literal string or a literal truth value:
/// what a print statement writes without asking anyone.
pub open spec fn shows_at_once(e: Expr) -> bool {
    literal_of(e) is Some && (literal_of(e)->0 is String || literal_of(e)->0 is Bool)
}

/// Whether both operands are literals.
pub open spec fn literal_operands(left: Expr, right: Expr) -> bool {
    literal_of(left) is Some && literal_of(right) is Some
}

/// The name that an expression is, if it is a variable.
pub open spec fn variable_name(e: Expr) -> Option<Seq<char>> {
    match e {
        Expr::Primary(Primary::Var(t), _, _) => Some(t.lexeme@),
        _ => None,
    }
}

/// The name and the parameters of the function that the header of a
/// definition names: the header is written as a call of the function with
/// its parameters as arguments.
pub open spec fn header_of(s: Stmt) -> Option<(Seq<char>, Seq<Seq<char>>)> {
    match s {
        Stmt::Expression(Expr::Call(f, _, _), _, _) => if variable_name(*f.expr) is Some
            && forall|i: int|
            0 <= i < f.arguments@.len() ==> variable_name(#[trigger] f.arguments@[i]) is Some {
            Some(
                (
                    variable_name(*f.expr)->0,
                    Seq::new(f.arguments@.len(), |i: int| variable_name(f.arguments@[i])->0),
                ),
            )
        } else {
            None
        },
        _ => None,
    }
}

/// The text that is written for a boolean or a string.
pub open spec fn text_of(v: Value) -> Seq<char> {
    match v {
        Value::Bool(b) => crate::backend::operators::bool_text(b),
        Value::String(s) => s,
        _ => Seq::empty(),
    }
}

/// The pieces written for a list up to its element `upto`: the `[`, the
/// text of each element, and `, ` behind each but the last of the list.
pub open spec fn list_pieces(items: Seq<Value>, upto: int) -> Seq<Piece>
    decreases upto,
{
    if upto <= 0 {
        seq![("["@, false)]
    } else {
        let so_far = list_pieces(items, upto - 1).push((text_of(items[upto - 1]), false));
        if upto < items.len() {
            so_far.push((", "@, false))
        } else {
            so_far
        }
    }
}

/// The pieces written for a record up to its field `upto`: the `@{`, and
/// for each field its key in quotes with a `:`, the text of its value, and
/// a `,`.
pub open spec fn record_pieces(keys: Seq<Seq<char>>, values: Seq<Value>, upto: int) -> Seq<
    Piece,
>
    decreases upto,
{
    if upto <= 0 {
        seq![("@{"@, false)]
    } else {
        record_pieces(keys, values, upto - 1).push(
            ("\""@ + keys[upto - 1] + "\":"@, false),
        ).push((text_of(values[upto - 1]), false)).push((","@, false))
    }
}

/// The pieces that are written for `v`, the last of them with `end_line`:
/// the text of a boolean or a string; for a list of booleans and strings
/// the bracket form `[a, b]`; for a record of them the brace form
/// `@{"k":a,}`. `None` for every other value: the text of a number is the
/// platform's, and a function and nil are not written.
pub open spec fn shown(heap: &Heap, v: Value, end_line: bool) -> Option<Seq<Piece>> {
    match v {
        Value::Bool(_) => Some(seq![(text_of(v), end_line)]),
        Value::String(_) => Some(seq![(text_of(v), end_line)]),
        Value::List(i) => if i < heap.lists@.len() && all_texts(heap.contents(Node::List(i))) {
            Some(
                list_pieces(
                    heap.contents(Node::List(i)),
                    heap.contents(Node::List(i)).len() as int,
                ).push(("]"@, end_line)),
            )
        } else {
            None
        },
        Value::NamelessRecord(i) => if i < heap.nameless_records@.len() && all_texts(
            heap.contents(Node::Record(i)),
        ) {
            Some(
                record_pieces(
                    heap.nameless_records@[i as int].keys(),
                    heap.contents(Node::Record(i)),
                    heap.contents(Node::Record(i)).len() as int,
                ).push(("}"@, end_line)),
            )
        } else {
            None
        },
        _ => None,
    }
}

/// What is written for `v` in a heap that holds `heap`, as [`shown`] says
/// it of the heap itself.
pub open spec fn shown_in(heap: HeapView, v: Value, end_line: bool) -> Option<Seq<Piece>> {
    match v {
        Value::Bool(_) => Some(seq![(text_of(v), end_line)]),
        Value::String(_) => Some(seq![(text_of(v), end_line)]),
        Value::List(i) => if i < heap.lists.len() && all_texts(heap.lists[i as int]) {
            Some(
                list_pieces(heap.lists[i as int], heap.lists[i as int].len() as int).push(
                    ("]"@, end_line),
                ),
            )
        } else {
            None
        },
        Value::NamelessRecord(i) => if i < heap.records.len() && all_texts(
            heap.records[i as int].1,
        ) {
            Some(
                record_pieces(
                    heap.records[i as int].0,
                    heap.records[i as int].1,
                    heap.records[i as int].1.len() as int,
                ).push(("}"@, end_line)),
            )
        } else {
            None
        },
        _ => None,
    }
}

/// What is written for a value is a matter of what the heap holds.
pub proof fn lemma_shown_view(heap: &Heap, v: Value, end_line: bool)
    ensures
        shown(heap, v, end_line) == shown_in(heap@, v, end_line),
{
}

/// Whether `after` is `before` and one piece more, the text of a number in
/// Bangla digits, with `end_line`.
pub open spec fn number_written(before: Seq<Piece>, after: Seq<Piece>, end_line: bool) -> bool {
    &&& after.len() == before.len() + 1
    &&& after.drop_last() == before
    &&& after.last().1 == end_line
    &&& forall|i: int|
        0 <= i < after.last().0.len() ==> crate::backend::operators::is_bn_number_char(
            #[trigger] after.last().0[i],
        )
}

/// Whether every value of `items` is a boolean or a string: what is written
/// without a look at the platform or into another container.
pub open spec fn all_texts(items: Seq<Value>) -> bool {
    forall|k: int| 0 <= k < items.len() ==> (#[trigger] items[k]) is Bool || items[k] is String
}

/// Whether the statements behind the `FuncDef` at `at` make a definition:
/// a header, then a body whose block ends, then the `Return` that closes
/// the definition.
pub open spec fn closes_definition(stmts: Seq<Stmt>, at: int) -> bool {
    &&& at + 1 < stmts.len()
    &&& header_of(stmts[at + 1]) is Some
    &&& block_end(stmts, at + 2, 0) is Some
    &&& block_end(stmts, at + 2, 0)->0 < stmts.len()
    &&& stmts[block_end(stmts, at + 2, 0)->0] is Return
}

/// The name of the function that a header names.
pub open spec fn header_name(s: Stmt) -> Seq<char> {
    let (name, _) = header_of(s)->0;
    name
}

/// The parameters that a header names.
pub open spec fn header_parameters(s: Stmt) -> Seq<Seq<char>> {
    let (_, parameters) = header_of(s)->0;
    parameters
}

/// The position of the last parameter of that name, or -1.
pub open spec fn last_parameter(params: Seq<Seq<char>>, name: Seq<char>) -> int
    decreases params.len(),
{
    if params.len() == 0 {
        -1
    } else if params.last() == name {
        params.len() - 1
    } else {
        last_parameter(params.drop_last(), name)
    }
}

/// The position of the last parameter of a name lies among the
/// parameters.
pub proof fn lemma_last_parameter_bounds(params: Seq<Seq<char>>)
    ensures
        forall|name: Seq<char>| -1 <= #[trigger] last_parameter(params, name) < params.len(),
    decreases params.len(),
{
    if params.len() > 0 {
        lemma_last_parameter_bounds(params.drop_last());
        assert forall|name: Seq<char>| -1 <= #[trigger] last_parameter(params, name)
            < params.len() by {
            let shorter = last_parameter(params.drop_last(), name);
            assert(-1 <= shorter < params.len() - 1);
        }
    }
}

/// The value that the parameter at position `i` is bound to: the argument
/// at that position, or nil where the call has none.
pub open spec fn argument_for(values: Seq<DataType>, i: int) -> Value {
    if 0 <= i < values.len() {
        values[i]@
    } else {
        Value::Nil
    }
}

/// Every name of the scope is bound to nil or to a value that is one of
/// `values`.
pub open spec fn from_arguments(scope: Scope, values: Seq<DataType>) -> bool {
    forall|j: int|
        0 <= j < scope.entries@.len() ==> (#[trigger] scope.entries@[j].value) is Some && (
        scope.entries@[j].value->0@ == Value::Nil || exists|k: int|
            0 <= k < values.len() && (#[trigger] values[k])@ == scope.entries@[j].value->0@)
}

/// A scope made of live arguments binds live values only.
pub proof fn lemma_call_scope_live(scope: Scope, values: Seq<DataType>, heap: &Heap)
    requires
        from_arguments(scope, values),
        all_live(heap, values),
    ensures
        table_live(scope, heap),
{
    assert forall|j: int| 0 <= j < scope.entries@.len() implies (bound_node(
        #[trigger] scope.entries@[j].value,
    ) matches Some(n) ==> heap.has_node(n) && !heap.is_free(n)) by {
        let v = scope.entries@[j].value->0;
        if v@ != Value::Nil {
            let k = choose|k: int| 0 <= k < values.len() && (#[trigger] values[k])@ == v@;
            assert(heap.live(values[k]@));
        }
    }
}

/// The scope of a call: each parameter bound to its argument, or to nil
/// where the call has too few. Where two parameters share a name, the
/// later one counts.
pub fn call_scope(params: &Vec<String>, values: &Vec<DataType>) -> (r: Scope)
    ensures
        r.wf(),
        from_arguments(r, values@),
        forall|name: Seq<char>|
            #[trigger] r.has(name) == (last_parameter(crate::common::text::views(params@), name)
                >= 0),
        forall|name: Seq<char>|
            #[trigger] r.has(name) ==> r.value_of(name) is Some && r.value_of(name)->0@
                == argument_for(
                values@,
                last_parameter(crate::common::text::views(params@), name),
            ),
{
    let mut root_env: Scope = Table::new();
    let mut i: usize = 0;
    let ghost all = crate::common::text::views(params@);
    while i < params.len()
        invariant
            i <= params@.len(),
            all == crate::common::text::views(params@),
            root_env.wf(),
            from_arguments(root_env, values@),
            forall|name: Seq<char>|
                #[trigger] root_env.has(name) == (last_parameter(all.subrange(0, i as int), name)
                    >= 0),
            forall|name: Seq<char>|
                #[trigger] root_env.has(name) ==> root_env.value_of(name) is Some
                    && root_env.value_of(name)->0@ == argument_for(
                    values@,
                    last_parameter(all.subrange(0, i as int), name),
                ),
        decreases params.len() - i,
    {
        let arg = if i < values.len() {
            values[i].clone()
        } else {
            // Too few arguments: the parameter is nil.
            DataType::Nil
        };
        let ghost before = root_env;
        let ghost shorter = all.subrange(0, i as int);
        let ghost longer = all.subrange(0, i + 1);
        proof {
            assert(longer.drop_last() =~= shorter);
            assert(longer.last() == params@[i as int]@);
        }
        root_env.insert(params[i].clone(), Some(arg));
        proof {
            let after = root_env;
            assert(after.values().len() == after.entries@.len());
            assert(before.values().len() == before.entries@.len());
            assert forall|j: int| 0 <= j < after.entries@.len() implies (
            #[trigger] after.entries@[j].value) is Some && (after.entries@[j].value->0@
                == Value::Nil || exists|k: int|
                0 <= k < values@.len() && (#[trigger] values@[k])@
                    == after.entries@[j].value->0@) by {
                assert(after.values()[j] == after.entries@[j].value);
                let fresh = if before.has(params@[i as int]@) {
                    j == before.index_of(params@[i as int]@)
                } else {
                    j == before.entries@.len()
                };
                if fresh {
                    assert(after.entries@[j].value == Some(arg));
                    if i < values@.len() {
                        assert(values@[i as int]@ == arg@);
                    }
                } else {
                    assert(before.values()[j] == before.entries@[j].value);
                    assert(after.entries@[j].value == before.entries@[j].value);
                }
            }
        }
        i += 1;
    }
    proof {
        assert(all.subrange(0, i as int) =~= all);
    }
    root_env
}

/// The state of a run.
pub struct Machine {
    /// The statement that is executed next.
    pub current: usize,
    pub loops: Vec<LoopEnv>,
    pub return_addrs: Vec<usize>,
    /// The scopes, outermost first. The first is the global scope.
    pub envs: Vec<Scope>,
    /// For each `if` whose `else` may still come: whether its block was
    /// taken.
    pub previous_if_was_executed: Vec<bool>,
    pub heap: Heap,
    /// How many statements and nested containers may still be visited.
    pub steps_left: u64,
    pub built_in_functions: BuiltInFunctionList,
}

/// The position behind the end of the block that starts at or behind `p`,
/// with `depth` blocks open: `None` where a block ends that was never
/// started, the number of statements where the block never ends.
pub open spec fn block_end(stmts: Seq<Stmt>, p: int, depth: nat) -> Option<int>
    decreases stmts.len() - p,
{
    if p < 0 || p >= stmts.len() {
        Some(stmts.len() as int)
    } else if stmts[p] is BlockStart {
        block_end(stmts, p + 1, depth + 1)
    } else if stmts[p] is BlockEnd {
        if depth == 0 {
            None
        } else if depth == 1 {
            Some(p + 1)
        } else {
            block_end(stmts, p + 1, (depth - 1) as nat)
        }
    } else {
        block_end(stmts, p + 1, depth)
    }
}

/// The position behind the `Continue` that ends the loop whose body holds
/// `p`, with `depth` inner loops open: `None` where the statements end
/// before it.
pub open spec fn loop_end(stmts: Seq<Stmt>, p: int, depth: nat) -> Option<int>
    decreases stmts.len() - p,
{
    if p < 0 || p >= stmts.len() {
        None
    } else if stmts[p] is Loop {
        loop_end(stmts, p + 1, depth + 1)
    } else if stmts[p] is Continue {
        if depth == 0 {
            Some(p + 1)
        } else {
            loop_end(stmts, p + 1, (depth - 1) as nat)
        }
    } else {
        loop_end(stmts, p + 1, depth)
    }
}

/// A heap that extends one in which the scopes' handles are live keeps them
/// live.
pub proof fn lemma_scopes_live_extends(envs: Seq<Scope>, before: &Heap, after: &Heap)
    requires
        scopes_live(envs, before),
        after.extends(before),
    ensures
        scopes_live(envs, after),
{
    assert forall|s: int, j: int|
        0 <= s < envs.len() && 0 <= j < envs[s].entries@.len() implies (bound_node(
        #[trigger] envs[s].entries@[j].value,
    ) matches Some(n) ==> after.has_node(n) && !after.is_free(n)) by {
        if let Some(n) = bound_node(envs[s].entries@[j].value) {
            assert(before.has_node(n) && !before.is_free(n));
        }
    }
}

/// What a scope binds each of its names to.
pub type Bindings = Map<Seq<char>, Option<Value>>;

/// The bindings of a scope.
pub open spec fn scope_view(scope: Scope) -> Bindings {
    Map::new(
        |k: Seq<char>| scope.has(k),
        |k: Seq<char>|
            match scope.value_of(k) {
                Some(v) => Some(v@),
                None => None,
            },
    )
}

/// The bindings of the scopes, outermost first.
pub open spec fn scope_views(envs: Seq<Scope>) -> Seq<Bindings> {
    Seq::new(envs.len(), |i: int| scope_view(envs[i]))
}

/// The state of a run as a statement sees it: the position, what the
/// scopes bind, the loops that run, the calls that are open, the `if`s
/// that are remembered, the heap and the steps that are left.
pub struct State {
    pub current: usize,
    pub scopes: Seq<Bindings>,
    pub loops: Seq<LoopEnv>,
    pub return_addrs: Seq<usize>,
    pub ifs: Seq<bool>,
    pub heap: HeapView,
    pub steps_left: u64,
}

/// The index of the innermost scope that binds `name`, or -1.
pub open spec fn innermost(scopes: Seq<Bindings>, name: Seq<char>) -> int
    decreases scopes.len(),
{
    if scopes.len() == 0 {
        -1
    } else if scopes.last().dom().contains(name) {
        scopes.len() - 1
    } else {
        innermost(scopes.drop_last(), name)
    }
}

/// The value of a literal, or of a variable that the scopes bind to a
/// value.
pub open spec fn plain_in(scopes: Seq<Bindings>, e: Expr) -> Option<Value> {
    if literal_of(e) is Some {
        literal_of(e)
    } else if variable_name(e) is Some && innermost(scopes, variable_name(e)->0) >= 0 {
        scopes[innermost(scopes, variable_name(e)->0)][variable_name(e)->0]
    } else {
        None
    }
}

/// The values of the items of a list that is written with literals and
/// variables that the scopes bind to values.
pub open spec fn plain_list_in(scopes: Seq<Bindings>, e: Expr) -> Option<Seq<Value>> {
    match e {
        Expr::Primary(Primary::List(items), _, _) => if all_plain(items@) && forall|k: int|
            0 <= k < items@.len() ==> plain_in(scopes, #[trigger] items@[k]) is Some {
            Some(Seq::new(items@.len(), |k: int| plain_in(scopes, items@[k])->0))
        } else {
            None
        },
        _ => None,
    }
}

/// A list of literals and variables has in the views of the scopes the
/// values it has in the scopes.
pub proof fn lemma_plain_list_in(envs: Seq<Scope>, e: Expr)
    ensures
        plain_list_in(scope_views(envs), e) == match e {
            Expr::Primary(p, _, _) => plain_list(envs, p),
            _ => None,
        },
{
    if let Expr::Primary(Primary::List(items), _, _) = e {
        assert forall|k: int| 0 <= k < items@.len() implies plain_in(
            scope_views(envs),
            #[trigger] items@[k],
        ) == plain_value(envs, items@[k]) by {
            lemma_plain_in(envs, items@[k]);
        }
        if plain_list(envs, Primary::List(items)) is Some {
            assert(plain_list_in(scope_views(envs), e)->0 =~= plain_values(envs, items@));
        }
    }
}

/// What the heap holds after an assignment to an element of a list or to
/// a field of a record, where the variable is bound to the list or the
/// record, the value is a literal or a variable, and there is one index in
/// brackets around literals and bound variables: a number at which the
/// list has an element, or a string. The brackets make a list of their
/// own, and the value is the element or the field. `None` for every other
/// assignment.
pub open spec fn element_heap_in(scopes: Seq<Bindings>, heap: HeapView, a: Assignment) -> Option<
    HeapView,
> {
    if a.kind is Reassignment && a.indexes@.len() == 1 && a.init_value is Some && plain_in(
        scopes,
        a.init_value->0,
    ) is Some && plain_list_in(scopes, a.indexes@[0]) is Some && innermost(
        scopes,
        a.var_name.lexeme@,
    ) >= 0 {
        let items = plain_list_in(scopes, a.indexes@[0])->0;
        let made = heap.with_list(items);
        match scopes[innermost(scopes, a.var_name.lexeme@)][a.var_name.lexeme@] {
            Some(Value::List(i)) => if items.len() > 0 && items[0] is Num && i < made.lists.len()
                && items[0]->Num_0.index() < made.lists[i as int].len() {
                Some(
                    made.with_element(
                        i as int,
                        items[0]->Num_0.index() as int,
                        plain_in(scopes, a.init_value->0)->0,
                    ),
                )
            } else {
                None
            },
            Some(Value::NamelessRecord(r)) => if items.len() > 0 && items[0] is String && r
                < heap.records.len() {
                Some(
                    made.with_field(
                        r as int,
                        items[0]->String_0,
                        plain_in(scopes, a.init_value->0)->0,
                    ),
                )
            } else {
                None
            },
            _ => None,
        }
    } else {
        None
    }
}

/// The value of an expression that only reads, in what the scopes bind
/// and the heap holds: that of a literal or a variable, the element of a
/// list at a number, or the field of a record at a string. `None` where it
/// has none.
pub open spec fn read_in(scopes: Seq<Bindings>, heap: HeapView, e: Expr) -> Option<Value>
    decreases e,
{
    match e {
        Expr::Indexing(container, index, _, _) => match (
            read_in(scopes, heap, *container),
            read_in(scopes, heap, *index),
        ) {
            (Some(Value::List(i)), Some(Value::Num(n))) => if i < heap.lists.len() && n.index()
                < heap.lists[i as int].len() {
                Some(heap.lists[i as int][n.index() as int])
            } else {
                None
            },
            (Some(Value::NamelessRecord(r)), Some(Value::String(k))) => if r < heap.records.len()
                && crate::backend::heap::key_position(heap.records[r as int].0, k) >= 0 {
                Some(
                    heap.records[r as int].1[crate::backend::heap::key_position(
                        heap.records[r as int].0,
                        k,
                    )],
                )
            } else {
                None
            },
            _ => None,
        },
        _ => plain_in(scopes, e),
    }
}

/// What an expression that only reads has as its value in the views of
/// the scopes and the heap, it has in the machine, and it only reads.
pub proof fn lemma_read_in(machine: &Machine, e: Expr)
    requires
        machine.wf(),
    ensures
        read_in(scope_views(machine.envs@), machine.heap@, e) matches Some(v) ==> reads_only(e)
            && machine.read_value(e) == Some(v),
    decreases e,
{
    match e {
        Expr::Indexing(container, index, _, _) => {
            lemma_read_in(machine, *container);
            lemma_read_in(machine, *index);
            let scopes = scope_views(machine.envs@);
            if read_in(scopes, machine.heap@, *container) is Some && read_in(
                scopes,
                machine.heap@,
                *container,
            )->0 is NamelessRecord && read_in(scopes, machine.heap@, *index) is Some && read_in(
                scopes,
                machine.heap@,
                *index,
            )->0 is String {
                let r = read_in(scopes, machine.heap@, *container)->0->NamelessRecord_0;
                let k = read_in(scopes, machine.heap@, *index)->0->String_0;
                if r < machine.heap.nameless_records@.len() {
                    crate::backend::heap::lemma_record_position(
                        machine.heap.nameless_records@[r as int],
                        k,
                    );
                }
            }
        },
        _ => {
            lemma_plain_in(machine.envs@, e);
        },
    }
}

/// Whether `e` is a record written with keys that are strings, and
/// values, that are all literals and variables that the scopes bind to
/// values.
pub open spec fn plain_record_in(scopes: Seq<Bindings>, e: Expr) -> bool {
    e is Primary && e->Primary_0 is NamelessRecord && {
        let keys = e->Primary_0->NamelessRecord_0.0@;
        let values = e->Primary_0->NamelessRecord_0.1@;
        &&& keys.len() <= values.len()
        &&& forall|k: int|
            0 <= k < keys.len() ==> is_plain(#[trigger] keys[k]) && plain_in(scopes, keys[k])
                is Some && plain_in(scopes, keys[k])->0 is String
        &&& forall|k: int|
            0 <= k < keys.len() ==> is_plain(#[trigger] values[k]) && plain_in(scopes, values[k])
                is Some
    }
}

/// The keys of such a record, in the order written.
pub open spec fn record_keys_in(scopes: Seq<Bindings>, e: Expr) -> Seq<Seq<char>> {
    Seq::new(
        e->Primary_0->NamelessRecord_0.0@.len(),
        |k: int| plain_in(scopes, e->Primary_0->NamelessRecord_0.0@[k])->0->String_0,
    )
}

/// The values of such a record, in the order written.
pub open spec fn record_fields_in(scopes: Seq<Bindings>, e: Expr) -> Seq<Value> {
    Seq::new(
        e->Primary_0->NamelessRecord_0.0@.len(),
        |k: int| plain_in(scopes, e->Primary_0->NamelessRecord_0.1@[k])->0,
    )
}

/// What the heap holds once such a record is made.
pub open spec fn record_heap_in(scopes: Seq<Bindings>, heap: HeapView, e: Expr) -> HeapView {
    heap.with_record(
        built_keys(record_keys_in(scopes, e), record_keys_in(scopes, e).len() as int),
        built_values(
            record_keys_in(scopes, e),
            record_fields_in(scopes, e),
            record_keys_in(scopes, e).len() as int,
        ),
    )
}

/// A record of literals and variables is in the views of the scopes what
/// it is in the scopes.
pub proof fn lemma_plain_record_in(envs: Seq<Scope>, e: Expr)
    requires
        e is Primary,
    ensures
        plain_record_in(scope_views(envs), e) == plain_record(envs, e->Primary_0),
        plain_record(envs, e->Primary_0) ==> record_keys_in(scope_views(envs), e) == record_keys(
            envs,
            e->Primary_0,
        ) && record_fields_in(scope_views(envs), e) == record_fields(envs, e->Primary_0),
{
    if e->Primary_0 is NamelessRecord {
        let keys = e->Primary_0->NamelessRecord_0.0@;
        let values = e->Primary_0->NamelessRecord_0.1@;
        assert forall|k: int| 0 <= k < keys.len() implies plain_in(
            scope_views(envs),
            #[trigger] keys[k],
        ) == plain_value(envs, keys[k]) by {
            lemma_plain_in(envs, keys[k]);
        }
        assert forall|k: int| 0 <= k < values.len() implies plain_in(
            scope_views(envs),
            #[trigger] values[k],
        ) == plain_value(envs, values[k]) by {
            lemma_plain_in(envs, values[k]);
        }
        if plain_record(envs, e->Primary_0) {
            assert(plain_record_in(scope_views(envs), e));
            assert(record_keys_in(scope_views(envs), e) =~= record_keys(envs, e->Primary_0));
            assert(record_fields_in(scope_views(envs), e) =~= record_fields(envs, e->Primary_0));
        }
        if plain_record_in(scope_views(envs), e) {
            assert(plain_record(envs, e->Primary_0));
        }
    }
}

/// The values of arguments that are all literals and variables that the
/// scopes bind to values.
pub open spec fn plain_args_in(scopes: Seq<Bindings>, es: Seq<Expr>) -> Option<Seq<Value>> {
    if all_plain(es) && forall|k: int|
        0 <= k < es.len() ==> plain_in(scopes, #[trigger] es[k]) is Some {
        Some(Seq::new(es.len(), |k: int| plain_in(scopes, es[k])->0))
    } else {
        None
    }
}

/// Arguments that are literals and variables have in the views of the
/// scopes the values they have in the scopes.
pub proof fn lemma_plain_args_in(envs: Seq<Scope>, es: Seq<Expr>)
    ensures
        plain_args_in(scope_views(envs), es) is Some == (all_plain(es) && all_bound(envs, es)),
        plain_args_in(scope_views(envs), es) is Some ==> plain_args_in(scope_views(envs), es)->0
            == plain_values(envs, es),
{
    assert forall|k: int| 0 <= k < es.len() implies plain_in(scope_views(envs), #[trigger] es[k])
        == plain_value(envs, es[k]) by {
        lemma_plain_in(envs, es[k]);
    }
    if plain_args_in(scope_views(envs), es) is Some {
        assert(plain_args_in(scope_views(envs), es)->0 =~= plain_values(envs, es));
    }
}

/// What the heap holds after a call of one of the built-in functions that
/// change a list, with the values `args`: the value is behind the list's
/// elements, or before the given position; or the last element, or the one
/// at the given position, is gone. `None` for every other call, and where
/// the call fails.
pub open spec fn list_call_heap_in(name: Seq<char>, heap: HeapView, args: Seq<Value>) -> Option<
    HeapView,
> {
    if args.len() >= 1 && args[0] is List && args[0]->List_0 < heap.lists.len() {
        let i = args[0]->List_0 as int;
        let was = heap.lists[i];
        if name == "_লিস্ট-পুশ"@ {
            if args.len() == 2 {
                Some(HeapView { lists: heap.lists.update(i, was.push(args[1])), ..heap })
            } else if args.len() == 3 && args[1] is Num && args[1]->Num_0.index() <= was.len() {
                Some(
                    HeapView {
                        lists: heap.lists.update(
                            i,
                            was.insert(args[1]->Num_0.index() as int, args[2]),
                        ),
                        ..heap
                    },
                )
            } else {
                None
            }
        } else if name == "_লিস্ট-পপ"@ {
            if args.len() == 1 {
                Some(
                    HeapView {
                        lists: heap.lists.update(
                            i,
                            if was.len() == 0 {
                                was
                            } else {
                                was.drop_last()
                            },
                        ),
                        ..heap
                    },
                )
            } else if args.len() == 2 && args[1] is Num && args[1]->Num_0.index() < was.len() {
                Some(
                    HeapView {
                        lists: heap.lists.update(i, was.remove(args[1]->Num_0.index() as int)),
                        ..heap
                    },
                )
            } else {
                None
            }
        } else {
            None
        }
    } else {
        None
    }
}

/// What the heap holds after a statement that is such a call, with
/// arguments that are literals and bound variables.
pub open spec fn list_call_in(scopes: Seq<Bindings>, heap: HeapView, e: Expr) -> Option<HeapView> {
    match e {
        Expr::Call(f, _, _) => if variable_name(*f.expr) is Some
            && crate::backend::built_ins::built_in_names().contains(variable_name(*f.expr)->0)
            && plain_args_in(scopes, f.arguments@) is Some {
            list_call_heap_in(
                variable_name(*f.expr)->0,
                heap,
                plain_args_in(scopes, f.arguments@)->0,
            )
        } else {
            None
        },
        _ => None,
    }
}

/// The scopes with `name` bound to `value` in the scope `at`.
pub open spec fn bound_at(scopes: Seq<Bindings>, at: int, name: Seq<char>, value: Value) -> Seq<
    Bindings,
> {
    scopes.update(at, scopes[at].insert(name, Some(value)))
}

/// The views of the scopes answer as the scopes do.
pub proof fn lemma_scope_views(envs: Seq<Scope>, name: Seq<char>)
    ensures
        innermost(scope_views(envs), name) == resolve(envs, name),
    decreases envs.len(),
{
    if envs.len() > 0 {
        assert(scope_views(envs).drop_last() =~= scope_views(envs.drop_last()));
        assert(scope_views(envs).last() == scope_view(envs.last()));
        lemma_scope_views(envs.drop_last(), name);
    }
}

/// A literal or a variable has in the views of the scopes the value it has
/// in the scopes.
pub proof fn lemma_plain_in(envs: Seq<Scope>, e: Expr)
    ensures
        plain_in(scope_views(envs), e) == plain_value(envs, e),
{
    if literal_of(e) is None && variable_name(e) is Some {
        let name = variable_name(e)->0;
        lemma_scope_views(envs, name);
        lemma_resolve_bounds(envs, name);
    }
}

/// The innermost scope that has a name is one of the scopes, and has it.
pub proof fn lemma_resolve_bounds(envs: Seq<Scope>, name: Seq<char>)
    ensures
        resolve(envs, name) < envs.len(),
        resolve(envs, name) >= 0 ==> envs[resolve(envs, name)].has(name),
        resolve(envs, name) >= -1,
    decreases envs.len(),
{
    if envs.len() > 0 && !envs.last().has(name) {
        lemma_resolve_bounds(envs.drop_last(), name);
    }
}

/// Declaring a name changes the views of the scopes in the innermost one.
pub proof fn lemma_declares_view(
    before: Seq<Scope>,
    after: Seq<Scope>,
    name: Seq<char>,
    value: DataType,
)
    requires
        declares(before, after, name, Some(value)),
    ensures
        scope_views(after) == bound_at(scope_views(before), before.len() - 1, name, value@),
{
    let want = bound_at(scope_views(before), before.len() - 1, name, value@);
    assert(scope_view(after.last()) =~= scope_view(before.last()).insert(name, Some(value@)));
    assert(scope_views(after) =~= want);
}

/// Binding a name anew changes the views of the scopes in that scope.
pub proof fn lemma_rebinds_view(
    before: Seq<Scope>,
    after: Seq<Scope>,
    at: int,
    name: Seq<char>,
    value: DataType,
)
    requires
        rebinds(before, after, at, name, Some(value)),
    ensures
        scope_views(after) == bound_at(scope_views(before), at, name, value@),
{
    let want = bound_at(scope_views(before), at, name, value@);
    assert(scope_view(after[at]) =~= scope_view(before[at]).insert(name, Some(value@)));
    assert(scope_views(after) =~= want);
}

/// What the next step makes of the state, for a statement that asks
/// nothing of the platform and makes nothing new in the heap: a block's
/// start or end, a loop's start, `Continue`, `Break`, `If` and `Else`, a
/// function's definition, a declaration or an assignment to a variable
/// whose value is a literal, a variable or a list of them, an assignment to
/// an element of a list or a field of a record, a call of a built-in
/// function that changes a list, a print statement that writes booleans
/// and strings, and a literal that stands as a statement. `None`
/// for every other statement, at the end marker, with no step left, and
/// where a collection is due.
pub open spec fn next(stmts: Seq<Stmt>, s: State) -> Option<State> {
    if s.steps_left == 0 || s.current >= stmts.len() || s.heap.allocated >= GC_THRESHOLD {
        None
    } else {
        let spent = State { steps_left: (s.steps_left - 1) as u64, ..s };
        let onward = State { current: (s.current + 1) as usize, ..spent };
        let in_loop = s.loops.len() > 0 && s.loops.last().total_envs_at_loop_creation
            <= s.scopes.len();
        match stmts[s.current as int] {
            Stmt::BlockStart(_, _) => Some(State { scopes: s.scopes.push(Map::empty()), ..onward }),
            Stmt::BlockEnd(_, _) => if s.scopes.len() >= 2 {
                Some(State { scopes: s.scopes.drop_last(), ..onward })
            } else {
                None
            },
            Stmt::Loop(_, _) => Some(
                State {
                    loops: s.loops.push(
                        LoopEnv {
                            start: (s.current + 1) as usize,
                            total_envs_at_loop_creation: s.scopes.len() as usize,
                        },
                    ),
                    ..onward
                },
            ),
            Stmt::Continue(_, _) => if in_loop {
                Some(
                    State {
                        current: s.loops.last().start,
                        scopes: s.scopes.subrange(
                            0,
                            s.loops.last().total_envs_at_loop_creation as int,
                        ),
                        ..spent
                    },
                )
            } else {
                None
            },
            Stmt::Break(_, _) => if in_loop && loop_end(stmts, s.current + 1, 0) is Some {
                Some(
                    State {
                        current: loop_end(stmts, s.current + 1, 0)->0 as usize,
                        scopes: s.scopes.subrange(
                            0,
                            s.loops.last().total_envs_at_loop_creation as int,
                        ),
                        loops: s.loops.drop_last(),
                        ..spent
                    },
                )
            } else {
                None
            },
            Stmt::If(e, _, _) => if plain_in(s.scopes, e) == Some(Value::Bool(true)) {
                Some(State { ifs: s.ifs.push(true), ..onward })
            } else if plain_in(s.scopes, e) == Some(Value::Bool(false)) && block_end(
                stmts,
                s.current + 1,
                0,
            ) is Some {
                let behind = block_end(stmts, s.current + 1, 0)->0;
                Some(
                    State {
                        current: behind as usize,
                        ifs: if behind < stmts.len() && stmts[behind] is Else {
                            s.ifs.push(false)
                        } else {
                            s.ifs
                        },
                        ..spent
                    },
                )
            } else {
                None
            },
            Stmt::Else(_, _) => if s.ifs.len() > 0 && !s.ifs.last() {
                Some(State { ifs: s.ifs.drop_last(), ..onward })
            } else if s.ifs.len() > 0 && block_end(stmts, s.current + 1, 0) is Some {
                Some(
                    State {
                        current: block_end(stmts, s.current + 1, 0)->0 as usize,
                        ifs: s.ifs.drop_last(),
                        ..spent
                    },
                )
            } else {
                None
            },
            Stmt::FuncDef(_, _) => if closes_definition(stmts, s.current as int) {
                Some(
                    State {
                        current: (block_end(stmts, s.current + 2, 0)->0 + 1) as usize,
                        scopes: bound_at(
                            s.scopes,
                            s.scopes.len() - 1,
                            header_name(stmts[s.current + 1]),
                            Value::Function(
                                (s.current + 2) as usize,
                                header_parameters(stmts[s.current + 1]),
                            ),
                        ),
                        ..spent
                    },
                )
            } else {
                None
            },
            Stmt::Assignment(a, _, _) => if a.kind is FirstAssignment && a.init_value is None {
                Some(
                    State {
                        scopes: bound_at(
                            s.scopes,
                            s.scopes.len() - 1,
                            a.var_name.lexeme@,
                            Value::Nil,
                        ),
                        ..onward
                    },
                )
            } else if a.init_value is Some && plain_in(s.scopes, a.init_value->0) is Some
                && a.indexes@.len() == 0 {
                if a.kind is FirstAssignment {
                    Some(
                        State {
                            scopes: bound_at(
                                s.scopes,
                                s.scopes.len() - 1,
                                a.var_name.lexeme@,
                                plain_in(s.scopes, a.init_value->0)->0,
                            ),
                            ..onward
                        },
                    )
                } else if innermost(s.scopes, a.var_name.lexeme@) >= 0 {
                    Some(
                        State {
                            scopes: bound_at(
                                s.scopes,
                                innermost(s.scopes, a.var_name.lexeme@),
                                a.var_name.lexeme@,
                                plain_in(s.scopes, a.init_value->0)->0,
                            ),
                            ..onward
                        },
                    )
                } else {
                    None
                }
            } else if a.init_value is Some && plain_record_in(s.scopes, a.init_value->0)
                && a.indexes@.len() == 0 && record_heap_in(
                s.scopes,
                s.heap,
                a.init_value->0,
            ).allocated < GC_THRESHOLD {
                let at = if a.kind is FirstAssignment {
                    s.scopes.len() - 1
                } else {
                    innermost(s.scopes, a.var_name.lexeme@)
                };
                if at >= 0 {
                    Some(
                        State {
                            scopes: bound_at(
                                s.scopes,
                                at,
                                a.var_name.lexeme@,
                                Value::NamelessRecord(s.heap.next_record() as usize),
                            ),
                            heap: record_heap_in(s.scopes, s.heap, a.init_value->0),
                            ..onward
                        },
                    )
                } else {
                    None
                }
            } else if element_heap_in(s.scopes, s.heap, a) is Some && element_heap_in(
                s.scopes,
                s.heap,
                a,
            )->0.allocated < GC_THRESHOLD {
                Some(State { heap: element_heap_in(s.scopes, s.heap, a)->0, ..onward })
            } else if a.init_value is Some && plain_list_in(s.scopes, a.init_value->0) is Some
                && a.indexes@.len() == 0 && s.heap.with_list(
                plain_list_in(s.scopes, a.init_value->0)->0,
            ).allocated < GC_THRESHOLD {
                let at = if a.kind is FirstAssignment {
                    s.scopes.len() - 1
                } else {
                    innermost(s.scopes, a.var_name.lexeme@)
                };
                if at >= 0 {
                    Some(
                        State {
                            scopes: bound_at(
                                s.scopes,
                                at,
                                a.var_name.lexeme@,
                                Value::List(s.heap.next_list() as usize),
                            ),
                            heap: s.heap.with_list(plain_list_in(s.scopes, a.init_value->0)->0),
                            ..onward
                        },
                    )
                } else {
                    None
                }
            } else {
                None
            },
            Stmt::Print(e, _, _) => if next_written(stmts, s) is Some {
                Some(onward)
            } else {
                None
            },
            Stmt::PrintNoEOL(e, _, _) => if next_written(stmts, s) is Some {
                Some(onward)
            } else {
                None
            },
            Stmt::Expression(e, _, _) => if literal_of(e) is Some {
                Some(onward)
            } else if list_call_in(s.scopes, s.heap, e) is Some {
                Some(State { heap: list_call_in(s.scopes, s.heap, e)->0, ..onward })
            } else {
                None
            },
            _ => None,
        }
    }
}

/// What a print statement at the current position writes, where it
/// writes the value of a literal or a variable that is a boolean, a
/// string, or a list or a record of them.
pub open spec fn next_written(stmts: Seq<Stmt>, s: State) -> Option<Seq<Piece>> {
    if s.current >= stmts.len() {
        None
    } else {
        match stmts[s.current as int] {
            Stmt::Print(e, _, _) => match read_in(s.scopes, s.heap, e) {
                Some(v) => shown_in(s.heap, v, true),
                None => None,
            },
            Stmt::PrintNoEOL(e, _, _) => match read_in(s.scopes, s.heap, e) {
                Some(v) => shown_in(s.heap, v, false),
                None => None,
            },
            _ => None,
        }
    }
}

/// The state after `n` steps from `s`, where each of them is one that
/// [`next`] knows.
pub open spec fn after(stmts: Seq<Stmt>, s: State, n: nat) -> Option<State>
    decreases n,
{
    if n == 0 {
        Some(s)
    } else {
        match next(stmts, s) {
            Some(m) => after(stmts, m, (n - 1) as nat),
            None => None,
        }
    }
}

/// What `n` steps from `s` write.
pub open spec fn log(stmts: Seq<Stmt>, s: State, n: nat) -> Seq<Piece>
    decreases n,
{
    if n == 0 {
        Seq::empty()
    } else {
        match next(stmts, s) {
            Some(m) => (match next_written(stmts, s) {
                Some(pieces) => pieces,
                None => Seq::empty(),
            }) + log(stmts, m, (n - 1) as nat),
            None => Seq::empty(),
        }
    }
}

/// The message of the error that ends a run whose budget of steps is used
/// up.
pub open spec fn budget_message() -> Seq<char> {
    "Step budget exhausted"@
}

/// The message of the error for a position behind the last statement.
pub open spec fn off_end_message() -> Seq<char> {
    "Unexpected error, probably missing ';'"@
}

impl Machine {
    /// The invariant of a run: the global scope exists; every scope is a
    /// well-formed table; the heap is well-formed; every handle bound in a
    /// scope is live; no loop was entered without a scope.
    pub open spec fn wf(&self) -> bool {
        &&& self.envs@.len() >= 1
        &&& scopes_wf(self.envs@)
        &&& self.heap.wf()
        &&& scopes_live(self.envs@, &self.heap)
        &&& self.built_in_functions.wf()
        &&& forall|k: int|
            0 <= k < self.loops@.len() ==> (#[trigger] self.loops@[k]).total_envs_at_loop_creation
                >= 1
    }

    /// `self` comes from `before` by evaluation alone: it is well-formed,
    /// no slot of the heap was lost or freed, and no step was given back.
    pub open spec fn advances(&self, before: &Machine) -> bool {
        &&& self.wf()
        &&& self.heap.extends(&before.heap)
        &&& self.steps_left <= before.steps_left
    }

    /// `self` stands where `before` stood: at the same statement, with as
    /// many scopes and the same return addresses.
    pub open spec fn settled(&self, before: &Machine) -> bool {
        &&& self.current == before.current
        &&& self.envs@.len() == before.envs@.len()
        &&& self.return_addrs@ == before.return_addrs@
    }

    /// What holds after an expression was evaluated in `before`: the state
    /// advanced, and where a value came back the state is settled and the
    /// value is live.
    pub open spec fn evaluated(&self, before: &Machine, r: Result<DataType, PakhiErr>) -> bool {
        &&& self.advances(before)
        &&& r is Ok ==> self.settled(before) && self.heap.live(r->Ok_0@)
    }

    /// Everything but the scopes is as in `before`.
    pub open spec fn only_envs_changed(&self, before: &Machine) -> bool {
        &&& self.current == before.current
        &&& self.loops == before.loops
        &&& self.return_addrs == before.return_addrs
        &&& self.previous_if_was_executed == before.previous_if_was_executed
        &&& self.heap == before.heap
        &&& self.steps_left == before.steps_left
        &&& self.built_in_functions == before.built_in_functions
    }

    /// Everything but the position is as in `before`.
    pub open spec fn only_current_changed(&self, before: &Machine) -> bool {
        &&& self.envs == before.envs
        &&& self.loops == before.loops
        &&& self.return_addrs == before.return_addrs
        &&& self.previous_if_was_executed == before.previous_if_was_executed
        &&& self.heap == before.heap
        &&& self.steps_left == before.steps_left
        &&& self.built_in_functions == before.built_in_functions
    }

    /// There is a step left and a statement to execute.
    pub open spec fn ready(&self, stmts: Seq<Stmt>) -> bool {
        self.steps_left > 0 && self.current < stmts.len()
    }

    /// A loop is running whose scopes are all there.
    pub open spec fn in_loop(&self) -> bool {
        self.loops@.len() > 0 && self.loops@.last().total_envs_at_loop_creation
            <= self.envs@.len()
    }

    /// A `Loop` statement was executed: the loop's frame is pushed, with
    /// the position of its body and the number of scopes.
    pub open spec fn enters_loop(&self, before: &Machine) -> bool {
        &&& self.current == before.current + 1
        &&& self.loops@.len() == before.loops@.len() + 1
        &&& self.loops@.drop_last() == before.loops@
        &&& self.loops@.last().start == before.current + 1
        &&& self.loops@.last().total_envs_at_loop_creation == before.envs@.len()
        &&& self.envs == before.envs
        &&& self.return_addrs == before.return_addrs
        &&& self.previous_if_was_executed == before.previous_if_was_executed
        &&& self.heap == before.heap
        &&& self.built_in_functions == before.built_in_functions
    }

    /// A `Continue` statement was executed: the scopes made since the loop
    /// was entered are gone and the body starts again.
    pub open spec fn continues(&self, before: &Machine) -> bool {
        &&& before.loops@.len() > 0
        &&& before.loops@.last().total_envs_at_loop_creation <= before.envs@.len()
        &&& self.current == before.loops@.last().start
        &&& self.envs@ == before.envs@.subrange(
            0,
            before.loops@.last().total_envs_at_loop_creation as int,
        )
        &&& self.loops == before.loops
        &&& self.return_addrs == before.return_addrs
        &&& self.previous_if_was_executed == before.previous_if_was_executed
        &&& self.heap == before.heap
        &&& self.built_in_functions == before.built_in_functions
    }

    /// A `Break` statement was executed: the scopes made since the loop was
    /// entered are gone, the loop's frame is gone, and the run goes on
    /// behind the loop.
    pub open spec fn breaks(&self, stmts: Seq<Stmt>, before: &Machine) -> bool {
        &&& before.loops@.len() > 0
        &&& before.loops@.last().total_envs_at_loop_creation <= before.envs@.len()
        &&& loop_end(stmts, before.current + 1, 0) == Some(self.current as int)
        &&& self.envs@ == before.envs@.subrange(
            0,
            before.loops@.last().total_envs_at_loop_creation as int,
        )
        &&& self.loops@ == before.loops@.drop_last()
        &&& self.return_addrs == before.return_addrs
        &&& self.previous_if_was_executed == before.previous_if_was_executed
        &&& self.heap == before.heap
        &&& self.built_in_functions == before.built_in_functions
    }

    /// A `BlockStart` statement was executed: an empty scope is pushed.
    pub open spec fn enters_block(&self, before: &Machine) -> bool {
        &&& self.current == before.current + 1
        &&& self.envs@.len() == before.envs@.len() + 1
        &&& self.envs@.drop_last() == before.envs@
        &&& self.envs@.last().entries@.len() == 0
        &&& self.loops == before.loops
        &&& self.return_addrs == before.return_addrs
        &&& self.previous_if_was_executed == before.previous_if_was_executed
        &&& self.heap == before.heap
        &&& self.built_in_functions == before.built_in_functions
    }

    /// A `BlockEnd` statement was executed: the innermost scope is gone.
    pub open spec fn leaves_block(&self, before: &Machine) -> bool {
        &&& self.current == before.current + 1
        &&& before.envs@.len() >= 2
        &&& self.envs@ == before.envs@.drop_last()
        &&& self.loops == before.loops
        &&& self.return_addrs == before.return_addrs
        &&& self.previous_if_was_executed == before.previous_if_was_executed
        &&& self.heap == before.heap
        &&& self.built_in_functions == before.built_in_functions
    }

    /// A function was entered: the scope of the call is pushed, the
    /// position of the caller is kept for the return, and the run goes on
    /// at the function's body.
    pub open spec fn called(&self, before: &Machine, entry_point: usize, scope: Scope) -> bool {
        &&& self.current == entry_point
        &&& self.envs@ == before.envs@.push(scope)
        &&& self.return_addrs@ == before.return_addrs@.push(before.current)
        &&& self.loops == before.loops
        &&& self.previous_if_was_executed == before.previous_if_was_executed
        &&& self.heap == before.heap
        &&& self.steps_left == before.steps_left
        &&& self.built_in_functions == before.built_in_functions
    }

    /// A function returned to a caller that had `depth` scopes: the
    /// position goes back to the caller, and the scopes above the caller's
    /// are gone.
    pub open spec fn returned(&self, before: &Machine, depth: usize) -> bool {
        &&& before.return_addrs@.len() > 0
        &&& 1 <= depth <= before.envs@.len()
        &&& self.current == before.return_addrs@.last()
        &&& self.return_addrs@ == before.return_addrs@.drop_last()
        &&& self.envs@ == before.envs@.subrange(0, depth as int)
        &&& self.loops == before.loops
        &&& self.previous_if_was_executed == before.previous_if_was_executed
        &&& self.heap == before.heap
        &&& self.steps_left == before.steps_left
        &&& self.built_in_functions == before.built_in_functions
    }

    /// A collection was due and has run: the heap is collected under the
    /// scopes and the allocation count starts again at zero.
    pub open spec fn has_collected(&self, before: &Machine) -> bool {
        &&& self.heap.total_allocated_object_count == 0
        &&& self.heap.lists@.len() == before.heap.lists@.len()
        &&& self.heap.nameless_records@.len() == before.heap.nameless_records@.len()
        &&& forall|n: Node|
            before.heap.has_node(n) && crate::backend::mark_sweep::reachable(
                before.envs@,
                &before.heap,
                n,
            ) ==> #[trigger] crate::backend::mark_sweep::same_slot(&before.heap, &self.heap, n)
                && !self.heap.is_free(n)
        &&& forall|n: Node|
            before.heap.has_node(n) && !crate::backend::mark_sweep::reachable(
                before.envs@,
                &before.heap,
                n,
            ) ==> (#[trigger] self.heap.contents(n)).len() == 0 && self.heap.is_free(n)
        &&& self.current == before.current
        &&& self.envs == before.envs
        &&& self.loops == before.loops
        &&& self.return_addrs == before.return_addrs
        &&& self.previous_if_was_executed == before.previous_if_was_executed
        &&& self.steps_left == before.steps_left
        &&& self.built_in_functions == before.built_in_functions
    }

    /// `self` is `before` with `name` bound to `value` in the scope `at`;
    /// nothing but the scopes has changed.
    pub open spec fn bound_plainly(
        &self,
        before: &Machine,
        at: int,
        name: Seq<char>,
        value: Value,
    ) -> bool {
        &&& self.only_envs_changed(before)
        &&& self.envs@.len() == before.envs@.len()
        &&& scope_views(self.envs@) == bound_at(scope_views(before.envs@), at, name, value)
    }

    /// `self` is `before` with one step of the budget spent.
    pub open spec fn spent(&self) -> Machine {
        Machine { steps_left: (self.steps_left - 1) as u64, ..*self }
    }

    /// What an `If` statement does with the value of its condition: with
    /// true the run goes on into the block, with false behind it, and the
    /// outcome is remembered for an `Else` unless the condition was false
    /// and no `Else` follows. Anything but a truth value is an error.
    pub open spec fn if_taken(
        &self,
        stmts: Seq<Stmt>,
        before: &Machine,
        condition: Option<Value>,
        r: Result<(), PakhiErr>,
    ) -> bool {
        &&& self.envs == before.envs
        &&& self.loops == before.loops
        &&& self.return_addrs == before.return_addrs
        &&& self.heap == before.heap
        &&& self.steps_left == before.steps_left
        &&& self.built_in_functions == before.built_in_functions
        &&& match condition {
            Some(Value::Bool(true)) => r is Ok && self.current == before.current + 1
                && self.previous_if_was_executed@ == before.previous_if_was_executed@.push(true),
            Some(Value::Bool(false)) => ((r is Ok) == (block_end(stmts, before.current + 1, 0)
                is Some)) && (r is Ok ==> block_end(stmts, before.current + 1, 0) == Some(
                self.current as int,
            ) && self.previous_if_was_executed@ == if self.current < stmts.len()
                && stmts[self.current as int] is Else {
                before.previous_if_was_executed@.push(false)
            } else {
                before.previous_if_was_executed@
            }),
            _ => r is Err,
        }
    }

    /// What a print statement does with the value of a literal or a
    /// variable: a value that [`shown`] knows is written so, and the run
    /// goes on at the next statement; a variable without a value is an
    /// error and nothing is written.
    pub open spec fn printed(
        &self,
        before: &Machine,
        value: Option<Value>,
        end_line: bool,
        was: Seq<Piece>,
        now: Seq<Piece>,
        r: Result<(), PakhiErr>,
    ) -> bool {
        match value {
            Some(v) => match shown(&before.heap, v, end_line) {
                Some(pieces) => r is Ok && self.moved_on(before) && now == was + pieces,
                None => (v is Function || v is Nil) ==> r is Err && now == was,
            },
            None => r is Err && now == was,
        }
    }

    /// What a declaration, or an assignment to a variable, does with the
    /// value of a literal or a variable: a declaration binds the name in
    /// the innermost scope, an assignment in the innermost scope that has
    /// the name, and fails where none has; the run goes on at the next
    /// statement and nothing else changes.
    pub open spec fn assigned_plainly(
        &self,
        before: &Machine,
        a: Assignment,
        value: Option<Value>,
        r: Result<(), PakhiErr>,
    ) -> bool {
        match value {
            Some(v) => {
                let at = if a.kind is FirstAssignment {
                    before.envs@.len() - 1
                } else {
                    resolve(before.envs@, a.var_name.lexeme@)
                };
                &&& (r is Ok) == (at >= 0)
                &&& r is Ok ==> self.current == before.current + 1 && Machine {
                    current: before.current,
                    ..*self
                }.bound_plainly(before, at, a.var_name.lexeme@, v)
            },
            None => r is Err,
        }
    }

    /// What an assignment to an element does where the value is a literal
    /// or a variable and every index is written in brackets around
    /// literals and bound variables: it fails and changes nothing where
    /// the value's variable or the assigned variable is unknown, and else
    /// stores the value as [`Machine::element_assigned`] says.
    pub open spec fn element_assigned_plainly(
        &self,
        before: &Machine,
        stmts: Seq<Stmt>,
        a: Assignment,
        r: Result<(), PakhiErr>,
    ) -> bool {
        match plain_value(before.envs@, a.init_value->0) {
            Some(v) => if resolve(before.envs@, a.var_name.lexeme@) >= 0 {
                exists|middle: Machine, d: DataType| #[trigger]
                    self.element_assigned(
                        before,
                        &middle,
                        stmts,
                        a.var_name.lexeme@,
                        resolve(before.envs@, a.var_name.lexeme@),
                        bracket_indexes(before.envs@, a.indexes@),
                        d,
                        r,
                    ) && d@ == v
            } else {
                r is Err
            },
            None => r is Err,
        }
    }

    /// Whether an assignment is one to an element, with a value that is a
    /// literal or a variable and indexes in brackets around literals and
    /// bound variables.
    pub open spec fn assigns_element_plainly(&self, a: Assignment) -> bool {
        a.init_value is Some && is_plain(a.init_value->0) && a.indexes@.len() > 0
            && all_bracketed(self.envs@, a.indexes@)
    }

    /// The state in which the body starts where `f` calls a function of
    /// the program with arguments that are literals and bound variables,
    /// there is a step left, and the body starts with a block. Arguments
    /// beyond the parameters do not count.
    pub open spec fn call_entry(&self, stmts: Seq<Stmt>, f: FunctionCall) -> Option<State> {
        if variable_name(*f.expr) is Some && !crate::backend::built_ins::built_in_names().contains(
            variable_name(*f.expr)->0,
        ) && self.steps_left > 0 {
            match plain_value(self.envs@, *f.expr) {
                Some(Value::Function(start, params)) => {
                    let taken = f.arguments@.subrange(
                        0,
                        if params.len() <= f.arguments@.len() {
                            params.len() as int
                        } else {
                            f.arguments@.len() as int
                        },
                    );
                    if all_plain(taken) && all_bound(self.envs@, taken) && start < stmts.len()
                        && stmts[start as int] is BlockStart {
                        Some(
                            entered(
                                self.state(),
                                start,
                                call_bindings(params, plain_values(self.envs@, taken)),
                            ),
                        )
                    } else {
                        None
                    }
                },
                _ => None,
            }
        } else {
            None
        }
    }

    /// What a call owes that returns after `n` steps from `entry`: its
    /// value is that of the `Return` statement, the state is the one the
    /// call leaves, and what the steps write was written.
    pub open spec fn has_returned(
        &self,
        before: &Machine,
        stmts: Seq<Stmt>,
        entry: State,
        n: nat,
        was: Seq<Piece>,
        now: Seq<Piece>,
        r: Result<DataType, PakhiErr>,
    ) -> bool {
        let at = after(stmts, entry, n)->0;
        &&& r matches Ok(d) && Some(d@) == plain_in(at.scopes, stmts[at.current as int]->Return_0)
        &&& self.state() == left(before.state(), at, before.envs@.len() as int)
        &&& now == was + log(stmts, entry, n)
    }

    /// `self` is `before` with `name` bound to `value` in the scope `at`
    /// and a heap that holds `heap`; nothing else has changed.
    pub open spec fn bound_new(
        &self,
        before: &Machine,
        at: int,
        name: Seq<char>,
        value: Value,
        heap: HeapView,
    ) -> bool {
        &&& self.current == before.current
        &&& self.loops == before.loops
        &&& self.return_addrs == before.return_addrs
        &&& self.previous_if_was_executed == before.previous_if_was_executed
        &&& self.steps_left == before.steps_left
        &&& self.built_in_functions == before.built_in_functions
        &&& self.envs@.len() == before.envs@.len()
        &&& self.heap@ == heap
        &&& scope_views(self.envs@) == bound_at(scope_views(before.envs@), at, name, value)
    }

    /// What a declaration, or an assignment to a variable, does with a
    /// record that is written with literals and bound variables: the
    /// record is made, and the name is bound to it as
    /// [`Machine::assigned_plainly`] says of a plain value.
    pub open spec fn assigned_record(
        &self,
        before: &Machine,
        a: Assignment,
        r: Result<(), PakhiErr>,
    ) -> bool {
        let at = if a.kind is FirstAssignment {
            before.envs@.len() - 1
        } else {
            resolve(before.envs@, a.var_name.lexeme@)
        };
        &&& (r is Ok) == (at >= 0)
        &&& r is Ok ==> self.current == before.current + 1 && self.back().bound_new(
            before,
            at,
            a.var_name.lexeme@,
            Value::NamelessRecord(before.heap@.next_record() as usize),
            record_heap_in(scope_views(before.envs@), before.heap@, a.init_value->0),
        )
    }

    /// `self` is `before` with a new list of `values` in the heap and
    /// `name` bound to it in the scope `at`; nothing else has changed.
    pub open spec fn bound_list(
        &self,
        before: &Machine,
        at: int,
        name: Seq<char>,
        values: Seq<Value>,
    ) -> bool {
        &&& self.current == before.current
        &&& self.loops == before.loops
        &&& self.return_addrs == before.return_addrs
        &&& self.previous_if_was_executed == before.previous_if_was_executed
        &&& self.steps_left == before.steps_left
        &&& self.built_in_functions == before.built_in_functions
        &&& self.envs@.len() == before.envs@.len()
        &&& self.heap@ == before.heap@.with_list(values)
        &&& scope_views(self.envs@) == bound_at(
            scope_views(before.envs@),
            at,
            name,
            Value::List(before.heap@.next_list() as usize),
        )
    }

    /// What a declaration, or an assignment to a variable, does with a
    /// list that is written with literals and bound variables: the list is
    /// made, and the name is bound to it as
    /// [`Machine::assigned_plainly`] says of a plain value.
    pub open spec fn assigned_list(
        &self,
        before: &Machine,
        a: Assignment,
        values: Seq<Value>,
        r: Result<(), PakhiErr>,
    ) -> bool {
        let at = if a.kind is FirstAssignment {
            before.envs@.len() - 1
        } else {
            resolve(before.envs@, a.var_name.lexeme@)
        };
        &&& (r is Ok) == (at >= 0)
        &&& r is Ok ==> self.current == before.current + 1 && Machine {
            current: before.current,
            ..*self
        }.bound_list(before, at, a.var_name.lexeme@, values)
    }

    /// Whether an assignment with the index expressions `indexes` to a
    /// variable that holds `container` sets an element of a list: there is
    /// one index, in brackets around literals and bound variables, a
    /// number, and `container` is a list that has an element there.
    pub open spec fn sets_element(&self, indexes: Seq<Expr>, container: Option<Value>) -> bool {
        indexes.len() == 1 && all_bracketed(self.envs@, indexes) && container is Some
            && container->0 is List && bracket_index(self.envs@, indexes[0])->0 is List && {
            let made = self.heap@.with_list(plain_list(self.envs@, indexes[0]->Primary_0)->0);
            container->0->List_0 < made.lists.len() && bracket_index(
                self.envs@,
                indexes[0],
            )->0->List_0 < made.lists[container->0->List_0 as int].len()
        }
    }

    /// What the heap holds after such an assignment of `value`: the list
    /// that the brackets make, and `value` as the element.
    pub open spec fn element_set(
        &self,
        indexes: Seq<Expr>,
        container: Option<Value>,
        value: Value,
    ) -> HeapView {
        self.heap@.with_list(plain_list(self.envs@, indexes[0]->Primary_0)->0).with_element(
            container->0->List_0 as int,
            bracket_index(self.envs@, indexes[0])->0->List_0 as int,
            value,
        )
    }

    /// `self` with the position one statement back.
    pub open spec fn back(&self) -> Machine {
        Machine { current: (self.current - 1) as usize, ..*self }
    }

    /// Whether an assignment with the index expressions `indexes` to a
    /// variable that holds `container` sets a field of a record: there is
    /// one index, in brackets around literals and bound variables, a
    /// string, and `container` is a record.
    pub open spec fn sets_field(&self, indexes: Seq<Expr>, container: Option<Value>) -> bool {
        indexes.len() == 1 && all_bracketed(self.envs@, indexes) && container is Some
            && container->0 is NamelessRecord && bracket_index(self.envs@, indexes[0])->0
            is NamelessRecord && container->0->NamelessRecord_0 < self.heap@.records.len()
    }

    /// What the heap holds after such an assignment of `value`: the list
    /// that the brackets make, and `value` as the field.
    pub open spec fn field_set(
        &self,
        indexes: Seq<Expr>,
        container: Option<Value>,
        value: Value,
    ) -> HeapView {
        self.heap@.with_list(plain_list(self.envs@, indexes[0]->Primary_0)->0).with_field(
            container->0->NamelessRecord_0 as int,
            bracket_index(self.envs@, indexes[0])->0->NamelessRecord_0,
            value,
        )
    }

    /// `self` is `before` at the next statement.
    pub open spec fn moved_on(&self, before: &Machine) -> bool {
        self.current == before.current + 1 && self.only_current_changed(before)
    }

    /// The state as a statement sees it.
    pub open spec fn state(&self) -> State {
        State {
            current: self.current,
            scopes: scope_views(self.envs@),
            loops: self.loops@,
            return_addrs: self.return_addrs@,
            ifs: self.previous_if_was_executed@,
            heap: self.heap@,
            steps_left: self.steps_left,
        }
    }

    /// The state before anything has run: the first statement is next,
    /// the global scope is there alone and binds nothing, both arenas of the
    /// heap and both free stacks are empty, nothing was allocated, no loop
    /// runs, no call is open and no `if` is remembered.
    pub open spec fn fresh(&self) -> bool {
        &&& self.wf()
        &&& self.current == 0
        &&& self.envs@.len() == 1
        &&& self.envs@[0].entries@.len() == 0
        &&& self.loops@.len() == 0
        &&& self.return_addrs@.len() == 0
        &&& self.previous_if_was_executed@.len() == 0
        &&& self.heap.lists@.len() == 0
        &&& self.heap.nameless_records@.len() == 0
        &&& self.heap.free_lists@.len() == 0
        &&& self.heap.free_nameless_records@.len() == 0
        &&& self.heap.total_allocated_object_count == 0
        &&& self.steps_left == u64::MAX
    }

    /// A machine at the first statement, with the global scope alone, an
    /// empty heap and the largest budget of steps.
    pub fn new() -> (r: Machine)
        ensures
            r.wf(),
            r.current == 0,
            r.envs@.len() == 1,
            r.envs@[0].entries@.len() == 0,
            r.loops@.len() == 0,
            r.return_addrs@.len() == 0,
            r.previous_if_was_executed@.len() == 0,
            r.heap.lists@.len() == 0,
            r.heap.nameless_records@.len() == 0,
            r.steps_left == u64::MAX,
            r.fresh(),
    {
        let mut envs: Vec<Scope> = Vec::new();
        envs.push(Table::new());
        Machine {
            current: 0,
            loops: Vec::new(),
            return_addrs: Vec::new(),
            envs,
            previous_if_was_executed: Vec::new(),
            heap: Heap::new(),
            steps_left: u64::MAX,
            built_in_functions: BuiltInFunctionList::new(),
        }
    }

    /// The line and the file of the statement `i`.
    pub fn extract_err_meta_stmt(&self, stmts: &Vec<Stmt>, i: usize) -> (r: Result<
        (u32, String),
        PakhiErr,
    >)
        ensures
            self.current < stmts@.len() && i < stmts@.len() ==> (r matches Ok(m) && m.0
                == stmts@[i as int].line() && m.1@ == stmts@[i as int].file()),
            !(self.current < stmts@.len() && i < stmts@.len()) ==> (r matches Err(e) && e@
                == PakhiErrView::UnexpectedError(off_end_message())),
    {
        if self.current >= stmts.len() || i >= stmts.len() {
            Err(PakhiErr::unexpected("Unexpected error, probably missing ';'"))
        } else {
            Ok(stmts[i].meta())
        }
    }

    /// A runtime error at the current statement, or the error for a
    /// position behind the last statement.
    pub fn runtime_error_here(&self, stmts: &Vec<Stmt>, message: &str) -> (r: PakhiErr)
        ensures
            self.current < stmts@.len() ==> r@ == PakhiErrView::RuntimeError(
                stmts@[self.current as int].line(),
                stmts@[self.current as int].file(),
                message@,
            ),
            self.current >= stmts@.len() ==> r@ == PakhiErrView::UnexpectedError(off_end_message()),
    {
        match self.extract_err_meta_stmt(stmts, self.current) {
            Ok((line, file_name)) => PakhiErr::runtime(line, &file_name, message),
            Err(e) => e,
        }
    }

    /// A type error at the current statement, or the error for a position
    /// behind the last statement.
    pub fn type_error_here(&self, stmts: &Vec<Stmt>, message: &str) -> (r: PakhiErr)
        ensures
            self.current < stmts@.len() ==> r@ == PakhiErrView::TypeError(
                stmts@[self.current as int].line(),
                stmts@[self.current as int].file(),
                message@,
            ),
            self.current >= stmts@.len() ==> r@ == PakhiErrView::UnexpectedError(off_end_message()),
    {
        match self.extract_err_meta_stmt(stmts, self.current) {
            Ok((line, file_name)) => PakhiErr::type_error(line, &file_name, message),
            Err(e) => e,
        }
    }

    /// Binds `name` to `value` in the scope `at`.
    pub fn bind_at(&mut self, at: usize, name: String, value: DataType)
        requires
            old(self).wf(),
            at < old(self).envs@.len(),
            old(self).heap.live(value@),
        ensures
            final(self).wf(),
            final(self).only_envs_changed(old(self)),
            rebinds(old(self).envs@, final(self).envs@, at as int, name@, Some(value)),
    {
        let mut scope: Scope = Table::new();
        std::mem::swap(&mut scope, &mut self.envs[at]);
        let ghost before = scope;
        scope.insert(name, Some(value));
        let ghost after = scope;
        self.envs[at] = scope;
        proof {
            let e = self.envs@;
            assert(before == old(self).envs@[at as int]);
            assert(after.values().len() == after.entries@.len());
            assert(before.values().len() == before.entries@.len());
            assert forall|s: int, j: int|
                0 <= s < e.len() && 0 <= j < e[s].entries@.len() implies (bound_node(
                #[trigger] e[s].entries@[j].value,
            ) matches Some(n) ==> self.heap.has_node(n) && !self.heap.is_free(n)) by {
                if s == at {
                    assert(after.values()[j] == after.entries@[j].value);
                    if before.has(name@) {
                        let w = before.index_of(name@);
                        if j != w {
                            assert(before.values()[j] == before.entries@[j].value);
                            assert(bound_node(old(self).envs@[s].entries@[j].value) == bound_node(
                                e[s].entries@[j].value,
                            ));
                        }
                    } else {
                        if j < before.entries@.len() {
                            assert(before.values()[j] == before.entries@[j].value);
                            assert(bound_node(old(self).envs@[s].entries@[j].value) == bound_node(
                                e[s].entries@[j].value,
                            ));
                        }
                    }
                } else {
                    assert(e[s] == old(self).envs@[s]);
                    assert(bound_node(old(self).envs@[s].entries@[j].value) == bound_node(
                        e[s].entries@[j].value,
                    ));
                }
            }
            assert forall|i: int| 0 <= i < e.len() implies (#[trigger] e[i]).wf() by {
                if i != at {
                    assert(e[i] == old(self).envs@[i]);
                }
            }
        }
    }

    /// Binds `name` to `value` in the innermost scope, whatever the outer
    /// scopes bind it to.
    pub fn declare(&mut self, name: String, value: DataType)
        requires
            old(self).wf(),
            old(self).heap.live(value@),
        ensures
            final(self).wf(),
            final(self).only_envs_changed(old(self)),
            declares(old(self).envs@, final(self).envs@, name@, Some(value)),
    {
        let env_i = self.envs.len() - 1;
        self.bind_at(env_i, name, value);
    }

    /// Removes the scopes above the first `depth`.
    pub fn pop_scopes_to(&mut self, depth: usize)
        requires
            old(self).wf(),
            1 <= depth <= old(self).envs@.len(),
        ensures
            final(self).wf(),
            final(self).only_envs_changed(old(self)),
            final(self).envs@ == old(self).envs@.subrange(0, depth as int),
    {
        proof {
            assert(self.envs@.subrange(0, self.envs@.len() as int) =~= self.envs@);
        }
        while self.envs.len() > depth
            invariant
                1 <= depth <= self.envs@.len() <= old(self).envs@.len(),
                self.envs@ == old(self).envs@.subrange(0, self.envs@.len() as int),
                self.only_envs_changed(old(self)),
            decreases self.envs.len(),
        {
            self.envs.pop();
            assert(self.envs@ =~= old(self).envs@.subrange(0, self.envs@.len() as int));
        }
        proof {
            let e = self.envs@;
            assert forall|s: int, j: int|
                0 <= s < e.len() && 0 <= j < e[s].entries@.len() implies (bound_node(
                #[trigger] e[s].entries@[j].value,
            ) matches Some(n) ==> self.heap.has_node(n) && !self.heap.is_free(n)) by {
                assert(e[s] == old(self).envs@[s]);
                assert(bound_node(old(self).envs@[s].entries@[j].value) == bound_node(
                    e[s].entries@[j].value,
                ));
            }
            assert forall|i: int| 0 <= i < e.len() implies (#[trigger] e[i]).wf() by {
                assert(e[i] == old(self).envs@[i]);
            }
        }
    }

    /// Enters a function: pushes the scope of the call and the position of
    /// the caller, and moves to the function's body.
    pub fn enter_function(&mut self, entry_point: usize, root_env: Scope)
        requires
            old(self).wf(),
            root_env.wf(),
            table_live(root_env, &old(self).heap),
        ensures
            final(self).wf(),
            final(self).called(old(self), entry_point, root_env),
    {
        self.envs.push(root_env);
        self.return_addrs.push(self.current);
        self.current = entry_point;
        proof {
            let e = self.envs@;
            assert forall|i: int| 0 <= i < e.len() implies (#[trigger] e[i]).wf() by {
                if i < e.len() - 1 {
                    assert(e[i] == old(self).envs@[i]);
                }
            }
            assert forall|s: int, j: int|
                0 <= s < e.len() && 0 <= j < e[s].entries@.len() implies (bound_node(
                #[trigger] e[s].entries@[j].value,
            ) matches Some(n) ==> self.heap.has_node(n) && !self.heap.is_free(n)) by {
                if s < e.len() - 1 {
                    assert(e[s] == old(self).envs@[s]);
                    assert(bound_node(old(self).envs@[s].entries@[j].value) == bound_node(
                        e[s].entries@[j].value,
                    ));
                } else {
                    assert(e[s] == root_env);
                    assert(bound_node(root_env.entries@[j].value) == bound_node(
                        e[s].entries@[j].value,
                    ));
                }
            }
        }
    }

    /// Returns to a caller that had `env_count_before_fn_call` scopes:
    /// takes the position of the caller from the return addresses and
    /// removes every scope above the caller's, from whatever depth of
    /// blocks the function returns.
    pub fn leave_function(&mut self, stmts: &Vec<Stmt>, env_count_before_fn_call: usize) -> (r:
        Result<(), PakhiErr>)
        requires
            old(self).wf(),
            env_count_before_fn_call >= 1,
        ensures
            final(self).wf(),
            final(self).heap == old(self).heap,
            final(self).steps_left == old(self).steps_left,
            (r is Ok) == (old(self).return_addrs@.len() > 0
                && env_count_before_fn_call <= old(self).envs@.len()),
            r is Ok ==> final(self).returned(old(self), env_count_before_fn_call),
            r is Err ==> *final(self) == *old(self),
    {
        if self.return_addrs.len() == 0 || self.envs.len() < env_count_before_fn_call {
            return Err(self.runtime_error_here(stmts, "Error calling function"));
        }
        let address = self.return_addrs.pop().unwrap();
        self.current = address;
        self.pop_scopes_to(env_count_before_fn_call);
        Ok(())
    }

    /// Collects the heap once the allocation count has reached the
    /// threshold; below it nothing changes.
    pub fn collect_if_due(&mut self)
        requires
            old(self).wf(),
        ensures
            final(self).wf(),
            final(self).heap.total_allocated_object_count < GC_THRESHOLD,
            old(self).heap.total_allocated_object_count < GC_THRESHOLD
                ==> *final(self) == *old(self),
            old(self).heap.total_allocated_object_count >= GC_THRESHOLD
                ==> final(self).has_collected(old(self)),
            old(self).heap.total_allocated_object_count >= GC_THRESHOLD ==> final(self).heap.free_lists@ == crate::backend::mark_sweep::swept_free(
                old(self).heap.free_lists@,
                crate::backend::mark_sweep::reached_lists(old(self).envs@, &old(self).heap),
                old(self).heap.lists@.len(),
            ) && final(self).heap.free_nameless_records@
                == crate::backend::mark_sweep::swept_free(
                old(self).heap.free_nameless_records@,
                crate::backend::mark_sweep::reached_records(old(self).envs@, &old(self).heap),
                old(self).heap.nameless_records@.len(),
            ),
    {
        if self.heap.total_allocated_object_count >= GC_THRESHOLD {
            collect_garbage(&self.envs, &mut self.heap);
            let ghost collected = self.heap;
            self.heap.total_allocated_object_count = 0;
            proof {
                let fresh = self.heap;
                assert forall|n: Node, j: int|
                    fresh.has_node(n) && 0 <= j < fresh.contents(n).len() implies fresh.live(
                    #[trigger] fresh.contents(n)[j],
                ) by {
                    assert(collected.has_node(n));
                    assert(fresh.contents(n) =~= collected.contents(n));
                    assert(collected.live(collected.contents(n)[j]));
                }
                assert(fresh.extends(&collected));
                lemma_scopes_live_extends(self.envs@, &collected, &fresh);
                assert forall|n: Node|
                    old(self).heap.has_node(n) && crate::backend::mark_sweep::reachable(
                        old(self).envs@,
                        &old(self).heap,
                        n,
                    ) implies #[trigger] crate::backend::mark_sweep::same_slot(
                    &old(self).heap,
                    &fresh,
                    n,
                ) && !fresh.is_free(n) by {
                    assert(crate::backend::mark_sweep::same_slot(&old(self).heap, &collected, n));
                }
                assert forall|n: Node|
                    old(self).heap.has_node(n) && !crate::backend::mark_sweep::reachable(
                        old(self).envs@,
                        &old(self).heap,
                        n,
                    ) implies (#[trigger] fresh.contents(n)).len() == 0 && fresh.is_free(n) by {
                    assert(collected.contents(n).len() == 0);
                    assert(fresh.contents(n) =~= collected.contents(n));
                }
            }
        }
    }

    /// Moves behind the block that starts at or behind the current
    /// statement; behind the last statement where the block does not end.
    pub fn skip_block(&mut self, stmts: &Vec<Stmt>) -> (r: Result<(), PakhiErr>)
        requires
            old(self).wf(),
        ensures
            final(self).wf(),
            final(self).only_current_changed(old(self)),
            final(self).current <= stmts@.len() || final(self).current == old(self).current,
            match block_end(stmts@, old(self).current as int, 0) {
                Some(p) => r is Ok && (final(self).current == p || (old(self).current
                    > stmts@.len() && final(self).current == old(self).current)),
                None => r matches Err(e) && e@ is RuntimeError,
            },
    {
        let mut depth: usize = 0;
        while self.current < stmts.len()
            invariant
                self.wf(),
                self.only_current_changed(old(self)),
                old(self).current <= self.current,
                self.current <= stmts@.len() || self.current == old(self).current,
                depth <= self.current - old(self).current,
                block_end(stmts@, old(self).current as int, 0) == block_end(
                    stmts@,
                    self.current as int,
                    depth as nat,
                ),
            decreases stmts@.len() - self.current,
        {
            if let Stmt::BlockStart(_, _) = &stmts[self.current] {
                depth += 1;
            } else if let Stmt::BlockEnd(_, _) = &stmts[self.current] {
                if depth == 0 {
                    return Err(self.runtime_error_here(stmts, "Error during function call"));
                }
                depth -= 1;
                if depth == 0 {
                    // The block's own end is passed too.
                    self.current += 1;
                    return Ok(());
                }
            }
            self.current += 1;
        }
        Ok(())
    }

    /// Skips a block of an `if` or an `else`, and forgets the pending `if`
    /// unless an `else` follows.
    pub fn skip_block_in_if(&mut self, stmts: &Vec<Stmt>) -> (r: Result<(), PakhiErr>)
        requires
            old(self).wf(),
        ensures
            final(self).wf(),
            final(self).envs == old(self).envs,
            final(self).loops == old(self).loops,
            final(self).return_addrs == old(self).return_addrs,
            final(self).heap == old(self).heap,
            final(self).steps_left == old(self).steps_left,
            final(self).built_in_functions == old(self).built_in_functions,
            (r is Ok) == (block_end(stmts@, old(self).current as int, 0) is Some),
            r is Ok && old(self).current <= stmts@.len() ==> block_end(
                stmts@,
                old(self).current as int,
                0,
            ) == Some(final(self).current as int),
            r is Ok ==> final(self).previous_if_was_executed@ == if final(self).current
                < stmts@.len() && stmts@[final(self).current as int] is Else {
                old(self).previous_if_was_executed@
            } else if old(self).previous_if_was_executed@.len() == 0 {
                old(self).previous_if_was_executed@
            } else {
                old(self).previous_if_was_executed@.drop_last()
            },
    {
        self.skip_block(stmts)?;
        let else_follows = if self.current < stmts.len() {
            match &stmts[self.current] {
                Stmt::Else(_, _) => true,
                _ => false,
            }
        } else {
            false
        };
        if !else_follows {
            self.previous_if_was_executed.pop();
        }
        Ok(())
    }

    /// Executes a `Loop` statement.
    pub fn interpret_loop_stmt(&mut self, stmts: &Vec<Stmt>)
        requires
            old(self).wf(),
            old(self).current < stmts.len(),
        ensures
            final(self).wf(),
            final(self).enters_loop(old(self)),
            final(self).steps_left == old(self).steps_left,
    {
        self.current += 1;
        // The start is kept for the `Continue` that ends the body.
        self.loops.push(
            LoopEnv { start: self.current, total_envs_at_loop_creation: self.envs.len() },
        );
        assert(self.loops@.drop_last() =~= old(self).loops@);
    }

    /// Executes a `Continue` statement.
    pub fn interpret_continue_stmt(&mut self, stmts: &Vec<Stmt>) -> (r: Result<(), PakhiErr>)
        requires
            old(self).wf(),
        ensures
            final(self).wf(),
            final(self).steps_left == old(self).steps_left,
            r is Ok ==> final(self).continues(old(self)),
            r is Err ==> *final(self) == *old(self),
            (r is Ok) == (old(self).loops@.len() > 0
                && old(self).loops@.last().total_envs_at_loop_creation <= old(self).envs@.len()),
    {
        if self.loops.len() == 0 {
            return Err(self.runtime_error_here(stmts, "Continue outside of a loop"));
        }
        let last_loop_env_index = self.loops.len() - 1;
        let depth = self.loops[last_loop_env_index].total_envs_at_loop_creation;
        if depth > self.envs.len() {
            return Err(self.runtime_error_here(stmts, "Scopes of the loop are gone"));
        }
        self.pop_scopes_to(depth);
        self.current = self.loops[last_loop_env_index].start;
        Ok(())
    }

    /// Executes a `Break` statement.
    pub fn interpret_break_stmt(&mut self, stmts: &Vec<Stmt>) -> (r: Result<(), PakhiErr>)
        requires
            old(self).wf(),
            old(self).current < stmts.len(),
        ensures
            final(self).wf(),
            final(self).steps_left == old(self).steps_left,
            final(self).heap == old(self).heap,
            final(self).return_addrs == old(self).return_addrs,
            r is Ok ==> final(self).breaks(stmts@, old(self)),
            (r is Ok) == (old(self).loops@.len() > 0
                && old(self).loops@.last().total_envs_at_loop_creation <= old(self).envs@.len()
                    && loop_end(
                stmts@,
                old(self).current + 1,
                0,
            ) is Some),
    {
        if self.loops.len() == 0 {
            return Err(self.runtime_error_here(stmts, "Break outside of a loop"));
        }
        let last_loop_env_index = self.loops.len() - 1;
        let depth = self.loops[last_loop_env_index].total_envs_at_loop_creation;
        if depth > self.envs.len() {
            return Err(self.runtime_error_here(stmts, "Scopes of the loop are gone"));
        }
        self.current += 1;
        self.pop_scopes_to(depth);
        self.loops.pop();
        let ghost start = self.current;
        let mut depth: usize = 0;
        while self.current < stmts.len()
            invariant
                self.wf(),
                start == old(self).current + 1,
                old(self).loops@.len() > 0,
                old(self).loops@.last().total_envs_at_loop_creation <= old(self).envs@.len(),
                start <= self.current <= stmts@.len(),
                depth <= self.current - start,
                loop_end(stmts@, start as int, 0) == loop_end(
                    stmts@,
                    self.current as int,
                    depth as nat,
                ),
                self.envs@ == old(self).envs@.subrange(
                    0,
                    old(self).loops@.last().total_envs_at_loop_creation as int,
                ),
                self.loops@ == old(self).loops@.drop_last(),
                self.return_addrs == old(self).return_addrs,
                self.previous_if_was_executed == old(self).previous_if_was_executed,
                self.heap == old(self).heap,
                self.steps_left == old(self).steps_left,
                self.built_in_functions == old(self).built_in_functions,
            decreases stmts@.len() - self.current,
        {
            if let Stmt::Loop(_, _) = &stmts[self.current] {
                depth += 1;
            } else if let Stmt::Continue(_, _) = &stmts[self.current] {
                if depth == 0 {
                    // The loop's own end is passed too.
                    self.current += 1;
                    return Ok(());
                }
                depth -= 1;
            }
            self.current += 1;
        }
        Err(PakhiErr::unexpected("Unexpected error, probably missing ';'"))
    }

    /// Executes a `BlockStart` statement.
    pub fn interpret_block_start(&mut self, stmts: &Vec<Stmt>)
        requires
            old(self).wf(),
            old(self).current < stmts.len(),
        ensures
            final(self).wf(),
            final(self).enters_block(old(self)),
            final(self).steps_left == old(self).steps_left,
    {
        self.current += 1;
        self.envs.push(Table::new());
        proof {
            let e = self.envs@;
            assert(e.drop_last() =~= old(self).envs@);
            assert forall|s: int, j: int|
                0 <= s < e.len() && 0 <= j < e[s].entries@.len() implies (bound_node(
                #[trigger] e[s].entries@[j].value,
            ) matches Some(n) ==> self.heap.has_node(n) && !self.heap.is_free(n)) by {
                assert(e[s] == old(self).envs@[s]);
                assert(bound_node(old(self).envs@[s].entries@[j].value) == bound_node(
                    e[s].entries@[j].value,
                ));
            }
            assert forall|i: int| 0 <= i < e.len() implies (#[trigger] e[i]).wf() by {
                if i < e.len() - 1 {
                    assert(e[i] == old(self).envs@[i]);
                }
            }
        }
    }

    /// Executes a `BlockEnd` statement. The global scope is never removed.
    pub fn interpret_block_end(&mut self, stmts: &Vec<Stmt>) -> (r: Result<(), PakhiErr>)
        requires
            old(self).wf(),
            old(self).current < stmts.len(),
        ensures
            final(self).wf(),
            final(self).steps_left == old(self).steps_left,
            (r is Ok) == (old(self).envs@.len() >= 2),
            r is Ok ==> final(self).leaves_block(old(self)),
            r is Err ==> *final(self) == *old(self),
    {
        if self.envs.len() < 2 {
            return Err(self.runtime_error_here(stmts, "Unexpected end of block"));
        }
        self.current += 1;
        let depth = self.envs.len() - 1;
        self.pop_scopes_to(depth);
        assert(self.envs@ =~= old(self).envs@.drop_last());
        Ok(())
    }
}

impl Machine {
    /// The element of `container` at `index`, or why there is none.
    pub fn element_at(&self, container: &DataType, index: &Index) -> (r: Result<DataType, Fault>)
        requires
            self.heap.wf(),
        ensures
            match self.heap.element(container@, index@) {
                Some(v) => r matches Ok(d) && d@ == v && self.heap.live(d@),
                None => r matches Err(f) && f == Heap::fault(container@, index@),
            },
    {
        match (container, index) {
            (DataType::List(i), Index::List(j)) => {
                if *i < self.heap.lists.len() && *j < self.heap.list_len(*i) {
                    Ok(self.heap.list_get(*i, *j))
                } else {
                    Err(Fault::Missing)
                }
            },
            (DataType::NamelessRecord(r), Index::NamelessRecord(k)) => {
                if *r < self.heap.nameless_records.len() {
                    match self.heap.record_get(*r, k.as_str()) {
                        Some(v) => Ok(v),
                        None => Err(Fault::Missing),
                    }
                } else {
                    Err(Fault::Missing)
                }
            },
            _ => Err(Fault::Kind),
        }
    }

    /// A runtime error with `message` at the current statement, or the
    /// error for a position behind the last statement.
    pub open spec fn runtime_view(&self, stmts: Seq<Stmt>, message: Seq<char>) -> PakhiErrView {
        if self.current < stmts.len() {
            PakhiErrView::RuntimeError(
                stmts[self.current as int].line(),
                stmts[self.current as int].file(),
                message,
            )
        } else {
            PakhiErrView::UnexpectedError(off_end_message())
        }
    }

    /// A type error with `message` at the current statement, or the error
    /// for a position behind the last statement.
    pub open spec fn type_view(&self, stmts: Seq<Stmt>, message: Seq<char>) -> PakhiErrView {
        if self.current < stmts.len() {
            PakhiErrView::TypeError(
                stmts[self.current as int].line(),
                stmts[self.current as int].file(),
                message,
            )
        } else {
            PakhiErrView::UnexpectedError(off_end_message())
        }
    }

    /// The error of a fault at the current statement: a type error for a
    /// value of the wrong kind, a runtime error for a missing element.
    pub open spec fn fault_view(&self, stmts: Seq<Stmt>, fault: Fault) -> PakhiErrView {
        match fault {
            Fault::Kind => self.type_view(
                stmts,
                "Only a list indexed by a number or a record indexed by a string has elements"@,
            ),
            Fault::Missing => self.runtime_view(stmts, "Index out of range or key not found"@),
        }
    }

    /// The error of a fault at the current statement: a type error for a
    /// value of the wrong kind, a runtime error for a missing element.
    pub fn fault_error(&self, stmts: &Vec<Stmt>, fault: Fault) -> (r: PakhiErr)
        ensures
            r@ == self.fault_view(stmts@, fault),
            self.current < stmts@.len() && fault is Kind ==> r@ is TypeError,
            self.current < stmts@.len() && fault is Missing ==> r@ is RuntimeError,
            self.current >= stmts@.len() ==> r@ is UnexpectedError,
    {
        match fault {
            Fault::Kind => self.type_error_here(
                stmts,
                "Only a list indexed by a number or a record indexed by a string has elements",
            ),
            Fault::Missing => self.runtime_error_here(stmts, "Index out of range or key not found"),
        }
    }

    /// Stores `value` in `container` at `index`.
    pub fn store_at(&mut self, container: &DataType, index: Index, value: DataType) -> (r: Result<
        (),
        Fault,
    >)
        requires
            old(self).wf(),
            old(self).heap.live(value@),
        ensures
            final(self).wf(),
            final(self).heap.extends(&old(self).heap),
            final(self).envs == old(self).envs,
            final(self).current == old(self).current,
            final(self).loops == old(self).loops,
            final(self).return_addrs == old(self).return_addrs,
            final(self).previous_if_was_executed == old(self).previous_if_was_executed,
            final(self).steps_left == old(self).steps_left,
            final(self).built_in_functions == old(self).built_in_functions,
            container@ is NamelessRecord && index@ is NamelessRecord && r is Ok
                ==> final(self).heap@
                == old(self).heap@.with_field(
                container@->NamelessRecord_0 as int,
                index@->NamelessRecord_0,
                value@,
            ),
            match old(self).heap.store_fault(container@, index@) {
                Some(f) => r matches Err(e) && e == f && final(self).heap == old(self).heap,
                None => r is Ok && final(self).heap.stored(
                    &old(self).heap,
                    container@,
                    index@,
                    value,
                ),
            },
    {
        match (container, index) {
            (DataType::List(i), Index::List(j)) => {
                if *i < self.heap.lists.len() && j < self.heap.list_len(*i) {
                    self.heap.list_set(*i, j, value);
                    proof {
                        lemma_scopes_live_extends(self.envs@, &old(self).heap, &self.heap);
                    }
                    Ok(())
                } else {
                    Err(Fault::Missing)
                }
            },
            (DataType::NamelessRecord(r), Index::NamelessRecord(k)) => {
                if *r < self.heap.nameless_records.len() {
                    self.heap.record_insert(*r, k, value);
                    proof {
                        lemma_scopes_live_extends(self.envs@, &old(self).heap, &self.heap);
                    }
                    Ok(())
                } else {
                    Err(Fault::Missing)
                }
            },
            _ => Err(Fault::Kind),
        }
    }

    /// Follows all indexes but the last from `container` and stores `value`
    /// at the last.
    pub fn assign_at_indexes(
        &mut self,
        stmts: &Vec<Stmt>,
        container: DataType,
        evaluated_indexes: Vec<Index>,
        init_value: DataType,
    ) -> (r: Result<(), PakhiErr>)
        requires
            old(self).wf(),
            old(self).heap.live(init_value@),
            evaluated_indexes@.len() >= 1,
        ensures
            final(self).wf(),
            final(self).heap.extends(&old(self).heap),
            final(self).envs == old(self).envs,
            final(self).current == old(self).current,
            final(self).return_addrs == old(self).return_addrs,
            final(self).steps_left == old(self).steps_left,
            final(self).loops == old(self).loops,
            final(self).previous_if_was_executed == old(self).previous_if_was_executed,
            final(self).built_in_functions == old(self).built_in_functions,
            match old(self).heap.walk(container@, index_views(evaluated_indexes@).drop_last()) {
                Ok(target) => match old(self).heap.store_fault(
                    target,
                    index_views(evaluated_indexes@).last(),
                ) {
                    None => r is Ok && final(self).heap.stored(
                        &old(self).heap,
                        target,
                        index_views(evaluated_indexes@).last(),
                        init_value,
                    ),
                    Some(f) => (r matches Err(e) && e@ == old(self).fault_view(stmts@, f))
                        && final(self).heap == old(self).heap,
                },
                Err(f) => (r matches Err(e) && e@ == old(self).fault_view(stmts@, f))
                    && final(self).heap == old(self).heap,
            },
    {
        let mut leading = evaluated_indexes;
        let ghost all = index_views(evaluated_indexes@);
        let last = leading.pop().unwrap();
        let ghost path = all.drop_last();
        proof {
            assert(index_views(leading@) =~= path);
            assert(last@ == all.last());
            assert(path.subrange(0, path.len() as int) =~= path);
        }
        let mut assignee = container;
        let mut i: usize = 0;
        while i < leading.len()
            invariant
                self.wf(),
                *self == *old(self),
                i <= leading@.len(),
                path == index_views(leading@),
                path == index_views(evaluated_indexes@).drop_last(),
                self.heap.walk(container@, path) == self.heap.walk(
                    assignee@,
                    path.subrange(i as int, path.len() as int),
                ),
            decreases leading.len() - i,
        {
            let ghost rest = path.subrange(i as int, path.len() as int);
            proof {
                assert(rest[0] == leading@[i as int]@);
                assert(rest.drop_first() =~= path.subrange(i + 1, path.len() as int));
            }
            match self.element_at(&assignee, &leading[i]) {
                Ok(next) => {
                    assignee = next;
                },
                Err(fault) => {
                    return Err(self.fault_error(stmts, fault));
                },
            }
            i += 1;
        }
        match self.store_at(&assignee, last, init_value) {
            Ok(()) => Ok(()),
            Err(fault) => Err(self.fault_error(stmts, fault)),
        }
    }

    /// Stores `init_value` in the list at `list_ref`, at the one index.
    pub fn list_single_dim_assign(
        &mut self,
        stmts: &Vec<Stmt>,
        list_ref: usize,
        index: Index,
        init_value: DataType,
    ) -> (r: Result<(), PakhiErr>)
        requires
            old(self).wf(),
            old(self).heap.live(init_value@),
        ensures
            final(self).wf(),
            final(self).heap.extends(&old(self).heap),
            final(self).envs == old(self).envs,
            final(self).current == old(self).current,
            final(self).return_addrs == old(self).return_addrs,
            final(self).steps_left == old(self).steps_left,
            final(self).loops == old(self).loops,
            final(self).previous_if_was_executed == old(self).previous_if_was_executed,
            final(self).built_in_functions == old(self).built_in_functions,
            match old(self).heap.store_fault(Value::List(list_ref), index@) {
                None => r is Ok && final(self).heap.stored(
                    &old(self).heap,
                    Value::List(list_ref),
                    index@,
                    init_value,
                ),
                Some(f) => (r matches Err(e) && e@ == old(self).fault_view(stmts@, f))
                    && final(self).heap == old(self).heap,
            },
    {
        match self.store_at(&DataType::List(list_ref), index, init_value) {
            Ok(()) => Ok(()),
            Err(fault) => Err(self.fault_error(stmts, fault)),
        }
    }

    /// Stores `init_value` in the record at `record_ref`, at the one key.
    pub fn record_single_dim_assign(
        &mut self,
        stmts: &Vec<Stmt>,
        record_ref: usize,
        index: Index,
        init_value: DataType,
    ) -> (r: Result<(), PakhiErr>)
        requires
            old(self).wf(),
            old(self).heap.live(init_value@),
        ensures
            final(self).wf(),
            final(self).heap.extends(&old(self).heap),
            final(self).envs == old(self).envs,
            final(self).current == old(self).current,
            final(self).return_addrs == old(self).return_addrs,
            final(self).steps_left == old(self).steps_left,
            final(self).loops == old(self).loops,
            final(self).previous_if_was_executed == old(self).previous_if_was_executed,
            final(self).built_in_functions == old(self).built_in_functions,
            index@ is NamelessRecord && r is Ok ==> final(self).heap@ == old(self).heap@.with_field(
                record_ref as int,
                index@->NamelessRecord_0,
                init_value@,
            ),
            match old(self).heap.store_fault(Value::NamelessRecord(record_ref), index@) {
                None => r is Ok && final(self).heap.stored(
                    &old(self).heap,
                    Value::NamelessRecord(record_ref),
                    index@,
                    init_value,
                ),
                Some(f) => (r matches Err(e) && e@ == old(self).fault_view(stmts@, f))
                    && final(self).heap == old(self).heap,
            },
    {
        match self.store_at(&DataType::NamelessRecord(record_ref), index, init_value) {
            Ok(()) => Ok(()),
            Err(fault) => Err(self.fault_error(stmts, fault)),
        }
    }

    /// Stores `init_value` in a container nested in the list at
    /// `list_reference`: every index but the last leads one level down.
    pub fn list_multi_dim_assign(
        &mut self,
        stmts: &Vec<Stmt>,
        list_reference: usize,
        evaluated_indexes: Vec<Index>,
        init_value: DataType,
    ) -> (r: Result<(), PakhiErr>)
        requires
            old(self).wf(),
            old(self).heap.live(init_value@),
            evaluated_indexes@.len() >= 1,
        ensures
            final(self).wf(),
            final(self).heap.extends(&old(self).heap),
            final(self).envs == old(self).envs,
            final(self).current == old(self).current,
            final(self).return_addrs == old(self).return_addrs,
            final(self).steps_left == old(self).steps_left,
            final(self).loops == old(self).loops,
            final(self).previous_if_was_executed == old(self).previous_if_was_executed,
            final(self).built_in_functions == old(self).built_in_functions,
            match old(self).heap.walk(
                Value::List(list_reference),
                index_views(evaluated_indexes@).drop_last(),
            ) {
                Ok(target) => match old(self).heap.store_fault(
                    target,
                    index_views(evaluated_indexes@).last(),
                ) {
                    None => r is Ok && final(self).heap.stored(
                        &old(self).heap,
                        target,
                        index_views(evaluated_indexes@).last(),
                        init_value,
                    ),
                    Some(f) => (r matches Err(e) && e@ == old(self).fault_view(stmts@, f))
                        && final(self).heap == old(self).heap,
                },
                Err(f) => (r matches Err(e) && e@ == old(self).fault_view(stmts@, f))
                    && final(self).heap == old(self).heap,
            },
    {
        self.assign_at_indexes(stmts, DataType::List(list_reference), evaluated_indexes, init_value)
    }

    /// Stores `init_value` in a container nested in the record at
    /// `record_reference`: every index but the last leads one level down.
    pub fn record_multi_dim_assign(
        &mut self,
        stmts: &Vec<Stmt>,
        record_reference: usize,
        evaluated_indexes: Vec<Index>,
        init_value: DataType,
    ) -> (r: Result<(), PakhiErr>)
        requires
            old(self).wf(),
            old(self).heap.live(init_value@),
            evaluated_indexes@.len() >= 1,
        ensures
            final(self).wf(),
            final(self).heap.extends(&old(self).heap),
            final(self).envs == old(self).envs,
            final(self).current == old(self).current,
            final(self).return_addrs == old(self).return_addrs,
            final(self).steps_left == old(self).steps_left,
            final(self).loops == old(self).loops,
            final(self).previous_if_was_executed == old(self).previous_if_was_executed,
            final(self).built_in_functions == old(self).built_in_functions,
            match old(self).heap.walk(
                Value::NamelessRecord(record_reference),
                index_views(evaluated_indexes@).drop_last(),
            ) {
                Ok(target) => match old(self).heap.store_fault(
                    target,
                    index_views(evaluated_indexes@).last(),
                ) {
                    None => r is Ok && final(self).heap.stored(
                        &old(self).heap,
                        target,
                        index_views(evaluated_indexes@).last(),
                        init_value,
                    ),
                    Some(f) => (r matches Err(e) && e@ == old(self).fault_view(stmts@, f))
                        && final(self).heap == old(self).heap,
                },
                Err(f) => (r matches Err(e) && e@ == old(self).fault_view(stmts@, f))
                    && final(self).heap == old(self).heap,
            },
    {
        self.assign_at_indexes(
            stmts,
            DataType::NamelessRecord(record_reference),
            evaluated_indexes,
            init_value,
        )
    }
}

impl Machine {
    /// Everything but the budget of steps is as in `before`, and the budget
    /// did not grow.
    pub open spec fn only_steps_spent(&self, before: &Machine) -> bool {
        &&& self.current == before.current
        &&& self.envs == before.envs
        &&& self.loops == before.loops
        &&& self.return_addrs == before.return_addrs
        &&& self.previous_if_was_executed == before.previous_if_was_executed
        &&& self.heap == before.heap
        &&& self.built_in_functions == before.built_in_functions
        &&& self.steps_left <= before.steps_left
    }

    /// What holds after a statement was executed in `before`: the state
    /// advanced, and where the statement succeeded the return addresses
    /// are what they were.
    pub open spec fn executed(&self, before: &Machine, r: Result<(), PakhiErr>) -> bool {
        &&& self.advances(before)
        &&& r is Ok ==> self.return_addrs@ == before.return_addrs@
    }

    /// The message of the error for a decimal text that holds `c`, which is
    /// neither a sign, a point nor a digit.
    pub open spec fn foreign_message(c: char) -> Seq<char> {
        "Cannot convert '"@ + seq![c] + "' to number"@
    }

    /// What the evaluator makes of the decimal text that the platform gave
    /// for a number: the text in Bangla digits, or a runtime error at the
    /// current statement for a text that holds anything but a sign, a point
    /// and digits, as that of an infinity or a NaN does.
    pub fn number_text(&self, stmts: &Vec<Stmt>, text: &str) -> (r: Result<String, PakhiErr>)
        ensures
            crate::backend::operators::first_foreign(text@) == text@.len() ==> (r matches Ok(s)
                && s@ == crate::backend::built_ins::text_en_to_bn(text@)),
            crate::backend::operators::first_foreign(text@) < text@.len() && self.current
                < stmts@.len() ==> (r matches Err(e) && e@ == PakhiErrView::RuntimeError(
                stmts@[self.current as int].line(),
                stmts@[self.current as int].file(),
                Self::foreign_message(text@[crate::backend::operators::first_foreign(text@)]),
            )),
            crate::backend::operators::first_foreign(text@) < text@.len() && self.current
                >= stmts@.len() ==> (r matches Err(e) && e@ == PakhiErrView::UnexpectedError(
                off_end_message(),
            )),
    {
        proof {
            crate::backend::operators::lemma_first_foreign_bounds(text@);
        }
        match bn_num_text(text) {
            Ok(bangla_num_string) => Ok(bangla_num_string),
            Err(digit) => {
                let mut message = String::from_str("Cannot convert '");
                message.push(digit);
                message.append("' to number");
                assert(message@ =~= Self::foreign_message(digit));
                Err(self.runtime_error_here(stmts, message.as_str()))
            },
        }
    }

    /// The text of a number in Bangla digits. The platform gives the decimal
    /// text; [`Machine::number_text`] says what is made of it.
    pub fn to_bn_num<P: Platform>(
        &self,
        stmts: &Vec<Stmt>,
        pf: &P,
        n: crate::common::number::Num,
    ) -> (r: Result<String, PakhiErr>)
        ensures
            r matches Err(e) ==> e@ is RuntimeError || e@ is UnexpectedError,
            r matches Ok(text) ==> forall|i: int|
                0 <= i < text@.len() ==> crate::backend::operators::is_bn_number_char(
                    #[trigger] text@[i],
                ),
    {
        let text = pf.num_to_string(n);
        proof {
            crate::backend::operators::lemma_first_foreign_bounds(text@);
            if crate::backend::operators::first_foreign(text@) == text@.len() {
                crate::backend::operators::lemma_number_chars(text@);
            }
        }
        self.number_text(stmts, text.as_str())
    }

    /// Uses up one step of the budget.
    pub fn spend_step(&mut self) -> (r: Result<(), PakhiErr>)
        ensures
            old(self).steps_left > 0 ==> r is Ok
                && final(self).steps_left + 1 == old(self).steps_left,
            old(self).steps_left == 0 ==> (r matches Err(e) && e@ == PakhiErrView::UnexpectedError(
                budget_message(),
            )) && final(self).steps_left == 0,
            final(self).only_steps_spent(old(self)),
    {
        if self.steps_left == 0 {
            return Err(PakhiErr::unexpected("Step budget exhausted"));
        }
        self.steps_left = self.steps_left - 1;
        Ok(())
    }

    /// Writes a value that is an element of a list or a field of a record.
    /// Each nested container costs one step of the budget.
    #[verifier::loop_isolation(false)]
    fn print_datatype<T: IO, P: Platform>(
        &mut self,
        stmts: &Vec<Stmt>,
        io: &mut T,
        pf: &P,
        data: &DataType,
    ) -> (r: Result<(), PakhiErr>)
        requires
            old(self).wf(),
            old(self).heap.live(data@),
        ensures
            final(self).only_steps_spent(old(self)),
            shown(&old(self).heap, data@, false) matches Some(pieces) ==> (r is Ok
                ==> final(io).written() == old(io).written() + pieces),
            data@ is Function || data@ is Nil ==> final(io).written() == old(io).written(),
            data@ is Num ==> if r is Ok {
                number_written(old(io).written(), final(io).written(), false)
            } else {
                final(io).written() == old(io).written()
            },
            data@ is Bool || data@ is String ==> r is Ok
                && final(self).steps_left == old(self).steps_left,
            (data@ is Function || data@ is Nil) && old(self).current < stmts@.len()
                ==> (r matches Err(
                e,
            ) && e@ == PakhiErrView::TypeError(
                stmts@[old(self).current as int].line(),
                stmts@[old(self).current as int].file(),
                "দেখাও doesn't support this datatype"@,
            )),
            (data@ is Function || data@ is Nil) && old(self).current >= stmts@.len()
                ==> (r matches Err(
                e,
            ) && e@ == PakhiErrView::UnexpectedError(off_end_message())),
            data@ is Function || data@ is Nil ==> final(self).steps_left == old(self).steps_left,
            data@.node() is Some && all_texts(old(self).heap.contents(data@.node()->0))
                ==> ((r is Ok)
                == (old(self).steps_left >= old(self).heap.contents(data@.node()->0).len())) && (r
                is Ok ==> final(self).steps_left + old(self).heap.contents(data@.node()->0).len()
                == old(self).steps_left),
        decreases old(self).steps_left,
    {
        match data {
            DataType::Num(n) => {
                let num = self.to_bn_num(stmts, pf, *n)?;
                io.print(num.as_str());
                proof {
                    assert(io.written().drop_last() =~= old(io).written());
                }
            },
            DataType::Bool(b) => io.print(to_bn_bool(*b).as_str()),
            DataType::String(s) => io.print(s.as_str()),
            DataType::List(arr_i) => {
                io.print("[");
                proof {
                    assert(io.written() =~= old(io).written() + list_pieces(
                        old(self).heap.contents(Node::List(*arr_i)),
                        0,
                    ));
                }
                let n = self.heap.list_len(*arr_i);
                let mut i: usize = 0;
                while i < n
                    invariant
                        self.only_steps_spent(old(self)),
                        old(self).wf(),
                        *arr_i < self.heap.lists@.len(),
                        n == self.heap.lists@[*arr_i as int]@.len(),
                        i <= n,
                        all_texts(old(self).heap.contents(Node::List(*arr_i))) ==> io.written()
                            == old(io).written() + list_pieces(
                            old(self).heap.contents(Node::List(*arr_i)),
                            i as int,
                        ),
                        all_texts(old(self).heap.contents(Node::List(*arr_i))) ==> self.steps_left
                            + i == old(self).steps_left,
                    decreases n - i,
                {
                    let elem = self.heap.list_get(*arr_i, i);
                    proof {
                        assert(self.heap.contents(Node::List(*arr_i))[i as int] == elem@);
                    }
                    self.spend_step()?;
                    self.print_datatype(stmts, io, pf, &elem)?;
                    if i + 1 < n {
                        io.print(", ");
                    }
                    i += 1;
                    proof {
                        let items = old(self).heap.contents(Node::List(*arr_i));
                        if all_texts(items) {
                            assert(shown(&old(self).heap, elem@, false) == Some(
                                seq![(text_of(elem@), false)],
                            ));
                            assert(io.written() =~= old(io).written() + list_pieces(
                                items,
                                i as int,
                            ));
                        }
                    }
                }
                io.print("]");
            },
            DataType::NamelessRecord(record_i) => {
                io.print("@{");
                proof {
                    assert(io.written() =~= old(io).written() + record_pieces(
                        old(self).heap.nameless_records@[*record_i as int].keys(),
                        old(self).heap.contents(Node::Record(*record_i)),
                        0,
                    ));
                }
                let n = self.heap.nameless_records[*record_i].len();
                let mut i: usize = 0;
                while i < n
                    invariant
                        self.only_steps_spent(old(self)),
                        old(self).wf(),
                        *record_i < self.heap.nameless_records@.len(),
                        n == self.heap.nameless_records@[*record_i as int].entries@.len(),
                        i <= n,
                        all_texts(old(self).heap.contents(Node::Record(*record_i)))
                            ==> io.written() == old(io).written() + record_pieces(
                            old(self).heap.nameless_records@[*record_i as int].keys(),
                            old(self).heap.contents(Node::Record(*record_i)),
                            i as int,
                        ),
                        all_texts(old(self).heap.contents(Node::Record(*record_i)))
                            ==> self.steps_left + i == old(self).steps_left,
                    decreases n - i,
                {
                    let mut label = String::from_str("\"");
                    label.append(self.heap.nameless_records[*record_i].entries[i].key.as_str());
                    label.append("\":");
                    let v = self.heap.nameless_records[*record_i].entries[i].value.clone();
                    proof {
                        assert(self.heap.has_node(Node::Record(*record_i)));
                        assert(self.heap.contents(Node::Record(*record_i))[i as int] == v@);
                    }
                    io.print(label.as_str());
                    self.spend_step()?;
                    self.print_datatype(stmts, io, pf, &v)?;
                    io.print(",");
                    i += 1;
                    proof {
                        let items = old(self).heap.contents(Node::Record(*record_i));
                        let keys = old(self).heap.nameless_records@[*record_i as int].keys();
                        if all_texts(items) {
                            assert(label@ =~= "\""@ + keys[i - 1] + "\":"@);
                            assert(shown(&old(self).heap, v@, false) == Some(
                                seq![(text_of(v@), false)],
                            ));
                            assert(io.written() =~= old(io).written() + record_pieces(
                                keys,
                                items,
                                i as int,
                            ));
                        }
                    }
                }
                io.print("}");
            },
            _ => {
                return Err(self.type_error_here(stmts, "দেখাও doesn't support this datatype"));
            },
        }
        proof {
            if shown(&old(self).heap, data@, false) is Some {
                assert(io.written() =~= old(io).written() + shown(
                    &old(self).heap,
                    data@,
                    false,
                )->0);
            }
        }
        Ok(())
    }

    /// Writes the value of a print statement; with `end_line`, the line
    /// ends behind it.
    #[verifier::loop_isolation(false)]
    fn print_value<T: IO, P: Platform>(
        &mut self,
        stmts: &Vec<Stmt>,
        io: &mut T,
        pf: &P,
        data: &DataType,
        end_line: bool,
    ) -> (r: Result<(), PakhiErr>)
        requires
            old(self).wf(),
            old(self).heap.live(data@),
        ensures
            shown(&old(self).heap, data@, end_line) is Some ==> r is Ok,
            shown(&old(self).heap, data@, end_line) is Some
                ==> final(self).steps_left == old(self).steps_left,
            final(self).only_steps_spent(old(self)),
            shown(&old(self).heap, data@, end_line) matches Some(pieces) ==> (r is Ok
                ==> final(io).written() == old(io).written() + pieces),
            data@ is Function || data@ is Nil ==> final(io).written() == old(io).written(),
            data@ is Num ==> if r is Ok {
                number_written(old(io).written(), final(io).written(), end_line)
            } else {
                final(io).written() == old(io).written()
            },
            data@ is Function || data@ is Nil ==> (r matches Err(e) && (e@ is TypeError || e@
                is UnexpectedError)),
            data@ is Bool || data@ is String ==> r is Ok,
    {
        match data {
            DataType::Num(n) => {
                let num = self.to_bn_num(stmts, pf, *n)?;
                Self::write_piece(io, num.as_str(), end_line);
                proof {
                    assert(io.written().drop_last() =~= old(io).written());
                }
            },
            DataType::Bool(b) => Self::write_piece(io, to_bn_bool(*b).as_str(), end_line),
            DataType::String(s) => Self::write_piece(io, s.as_str(), end_line),
            DataType::List(arr_i) => {
                io.print("[");
                proof {
                    assert(io.written() =~= old(io).written() + list_pieces(
                        old(self).heap.contents(Node::List(*arr_i)),
                        0,
                    ));
                }
                let n = self.heap.list_len(*arr_i);
                let mut i: usize = 0;
                while i < n
                    invariant
                        self.only_steps_spent(old(self)),
                        old(self).wf(),
                        *arr_i < self.heap.lists@.len(),
                        n == self.heap.lists@[*arr_i as int]@.len(),
                        i <= n,
                        all_texts(old(self).heap.contents(Node::List(*arr_i))) ==> self.steps_left
                            == old(self).steps_left,
                        all_texts(old(self).heap.contents(Node::List(*arr_i))) ==> io.written()
                            == old(io).written() + list_pieces(
                            old(self).heap.contents(Node::List(*arr_i)),
                            i as int,
                        ),
                    decreases n - i,
                {
                    let elem = self.heap.list_get(*arr_i, i);
                    proof {
                        assert(self.heap.contents(Node::List(*arr_i))[i as int] == elem@);
                    }
                    self.print_datatype(stmts, io, pf, &elem)?;
                    if i + 1 < n {
                        io.print(", ");
                    }
                    i += 1;
                    proof {
                        let items = old(self).heap.contents(Node::List(*arr_i));
                        if all_texts(items) {
                            assert(shown(&old(self).heap, elem@, false) == Some(
                                seq![(text_of(elem@), false)],
                            ));
                            assert(io.written() =~= old(io).written() + list_pieces(
                                items,
                                i as int,
                            ));
                        }
                    }
                }
                Self::write_piece(io, "]", end_line);
            },
            DataType::NamelessRecord(record_i) => {
                io.print("@{");
                proof {
                    assert(io.written() =~= old(io).written() + record_pieces(
                        old(self).heap.nameless_records@[*record_i as int].keys(),
                        old(self).heap.contents(Node::Record(*record_i)),
                        0,
                    ));
                }
                let n = self.heap.nameless_records[*record_i].len();
                let mut i: usize = 0;
                while i < n
                    invariant
                        self.only_steps_spent(old(self)),
                        old(self).wf(),
                        *record_i < self.heap.nameless_records@.len(),
                        n == self.heap.nameless_records@[*record_i as int].entries@.len(),
                        i <= n,
                        all_texts(old(self).heap.contents(Node::Record(*record_i)))
                            ==> self.steps_left == old(self).steps_left,
                        all_texts(old(self).heap.contents(Node::Record(*record_i)))
                            ==> io.written() == old(io).written() + record_pieces(
                            old(self).heap.nameless_records@[*record_i as int].keys(),
                            old(self).heap.contents(Node::Record(*record_i)),
                            i as int,
                        ),
                    decreases n - i,
                {
                    let mut label = String::from_str("\"");
                    label.append(self.heap.nameless_records[*record_i].entries[i].key.as_str());
                    label.append("\":");
                    let v = self.heap.nameless_records[*record_i].entries[i].value.clone();
                    proof {
                        assert(self.heap.has_node(Node::Record(*record_i)));
                        assert(self.heap.contents(Node::Record(*record_i))[i as int] == v@);
                    }
                    io.print(label.as_str());
                    self.print_datatype(stmts, io, pf, &v)?;
                    io.print(",");
                    i += 1;
                    proof {
                        let items = old(self).heap.contents(Node::Record(*record_i));
                        let keys = old(self).heap.nameless_records@[*record_i as int].keys();
                        if all_texts(items) {
                            assert(label@ =~= "\""@ + keys[i - 1] + "\":"@);
                            assert(shown(&old(self).heap, v@, false) == Some(
                                seq![(text_of(v@), false)],
                            ));
                            assert(io.written() =~= old(io).written() + record_pieces(
                                keys,
                                items,
                                i as int,
                            ));
                        }
                    }
                }
                Self::write_piece(io, "}", end_line);
            },
            _ => {
                return Err(
                    self.type_error_here(stmts, "দেখাও statement doesn't support this datattype"),
                );
            },
        }
        proof {
            if shown(&old(self).heap, data@, end_line) is Some {
                assert(io.written() =~= old(io).written() + shown(
                    &old(self).heap,
                    data@,
                    end_line,
                )->0);
            }
        }
        Ok(())
    }

    /// Hands a piece to `io`: with `end_line` the line ends behind it.
    fn write_piece<T: IO>(io: &mut T, piece: &str, end_line: bool)
        ensures
            final(io).written() == old(io).written().push((piece@, end_line)),
    {
        if end_line {
            io.println(piece);
        } else {
            io.print(piece);
        }
    }

    /// The value that a variable is bound to in the innermost scope that
    /// has it. A name that no scope has, and one that was declared without
    /// a value, are two errors.
    pub fn interpret_var(&self, stmts: &Vec<Stmt>, v: &Token) -> (r: Result<DataType, PakhiErr>)
        requires
            self.wf(),
        ensures
            match crate::backend::scope::lookup(self.envs@, v.lexeme@) {
                Some(Some(value)) => r matches Ok(d) && d@ == value@ && self.heap.live(d@),
                Some(None) => r matches Err(e) && e@ == self.runtime_view(
                    stmts@,
                    "Variable wasn't initialized "@ + v.lexeme@,
                ),
                None => r matches Err(e) && e@ == self.runtime_view(
                    stmts@,
                    "Variable wasn't declared "@ + v.lexeme@,
                ),
            },
    {
        let var_key = string_from_chars(&v.lexeme);
        match find_var_env_index(&self.envs, var_key.as_str()) {
            Some(i) => {
                let env = &self.envs[i];
                let j = env.position(var_key.as_str()).unwrap();
                match &env.entries[j].value {
                    Some(var_value) => {
                        proof {
                            assert(bound_node(self.envs@[i as int].entries@[j as int].value)
                                == var_value@.node());
                        }
                        Ok(var_value.clone())
                    },
                    None => {
                        let message = prefixed("Variable wasn't initialized ", &var_key);
                        Err(self.runtime_error_here(stmts, message.as_str()))
                    },
                }
            },
            None => {
                let message = prefixed("Variable wasn't declared ", &var_key);
                Err(self.runtime_error_here(stmts, message.as_str()))
            },
        }
    }

    /// Executes an `Else` statement: skips the block where the `if` before
    /// it was taken, and forgets that `if`.
    pub fn interpret_else_stmt(&mut self, stmts: &Vec<Stmt>) -> (r: Result<(), PakhiErr>)
        requires
            old(self).wf(),
            old(self).current < stmts.len(),
        ensures
            final(self).wf(),
            final(self).envs == old(self).envs,
            final(self).loops == old(self).loops,
            final(self).return_addrs == old(self).return_addrs,
            final(self).heap == old(self).heap,
            final(self).steps_left == old(self).steps_left,
            (r is Ok) == (old(self).previous_if_was_executed@.len() > 0
                && (!old(self).previous_if_was_executed@.last()
                    || block_end(stmts@, old(self).current + 1, 0)
                is Some)),
            r is Err ==> final(self).previous_if_was_executed == old(self).previous_if_was_executed,
            r is Ok ==> final(self).previous_if_was_executed@ == old(self).previous_if_was_executed@.drop_last(),
            r is Ok && !old(self).previous_if_was_executed@.last()
                ==> final(self).current == old(self).current + 1,
            r is Ok && old(self).previous_if_was_executed@.last() ==> block_end(
                stmts@,
                old(self).current + 1,
                0,
            ) == Some(final(self).current as int),
    {
        if self.previous_if_was_executed.len() == 0 {
            return Err(self.runtime_error_here(stmts, "Else without an if before it"));
        }
        self.current += 1;
        let last_if_condition_index = self.previous_if_was_executed.len() - 1;
        if self.previous_if_was_executed[last_if_condition_index] {
            self.skip_block(stmts)?;
        }
        self.previous_if_was_executed.pop();
        Ok(())
    }

    /// Executes a `FuncDef` statement: binds the function's name in the
    /// innermost scope and moves behind the `Return` that closes the
    /// definition. The body is not executed.
    #[verifier::loop_isolation(false)]
    pub fn interpret_funcdef(&mut self, stmts: &Vec<Stmt>) -> (r: Result<(), PakhiErr>)
        requires
            old(self).wf(),
            old(self).current < stmts.len(),
        ensures
            final(self).wf(),
            final(self).heap == old(self).heap,
            final(self).loops == old(self).loops,
            final(self).return_addrs == old(self).return_addrs,
            final(self).steps_left == old(self).steps_left,
            final(self).previous_if_was_executed == old(self).previous_if_was_executed,
            final(self).envs@.len() == old(self).envs@.len(),
            r is Ok ==> scope_views(final(self).envs@) == bound_at(
                scope_views(old(self).envs@),
                old(self).envs@.len() - 1,
                header_name(stmts@[old(self).current + 1]),
                Value::Function(
                    (old(self).current + 2) as usize,
                    header_parameters(stmts@[old(self).current + 1]),
                ),
            ),
            r is Ok ==> (block_end(stmts@, old(self).current + 2, 0) matches Some(p) && p
                < stmts@.len() && stmts@[p] is Return && final(self).current == p + 1),
            (r is Ok) == closes_definition(stmts@, old(self).current as int),
            r is Ok ==> exists|v: DataType| #[trigger]
                declares(
                    old(self).envs@,
                    final(self).envs@,
                    header_name(stmts@[old(self).current + 1]),
                    Some(v),
                ) && v@ == Value::Function(
                    (old(self).current + 2) as usize,
                    header_parameters(stmts@[old(self).current + 1]),
                ),
    {
        let ghost mut bound: Option<DataType> = None;
        // The statement behind `FuncDef` holds the name and the parameters.
        self.current += 1;
        if self.current >= stmts.len() {
            return Err(PakhiErr::unexpected("Unexpected error, probably missing ';'"));
        }
        if let Stmt::Expression(Expr::Call(function, _, _), _, _) = &stmts[self.current] {
            match &*function.expr {
                Expr::Primary(Primary::Var(func_token), line, file_name) => {
                    let func_name = string_from_chars(&func_token.lexeme);
                    let mut func_args_name: Vec<String> = Vec::new();
                    let mut i: usize = 0;
                    while i < function.arguments.len()
                        invariant
                            i <= function.arguments@.len(),
                            func_args_name@.len() == i,
                            forall|k: int|
                                0 <= k < i ==> variable_name(#[trigger] function.arguments@[k])
                                    is Some && func_args_name@[k]@ == variable_name(
                                    function.arguments@[k],
                                )->0,
                        decreases function.arguments.len() - i,
                    {
                        match &function.arguments[i] {
                            Expr::Primary(Primary::Var(name_token), _, _) => {
                                func_args_name.push(string_from_chars(&name_token.lexeme));
                            },
                            _ => {
                                return Err(
                                    PakhiErr::runtime(
                                        *line,
                                        file_name,
                                        "Error during function definition",
                                    ),
                                );
                            },
                        }
                        i += 1;
                    }
                    let func = Func {
                        starting_statement: self.current + 1,
                        args: func_args_name,
                    };
                    let value = DataType::Function(func);
                    proof {
                        assert(header_of(stmts@[old(self).current + 1]) is Some);
                        assert(crate::common::text::views(func_args_name@) =~= header_parameters(
                            stmts@[old(self).current + 1],
                        ));
                    }
                    proof {
                        bound = Some(value);
                    }
                    self.declare(func_name, value);
                    assert(declares(
                        old(self).envs@,
                        self.envs@,
                        header_name(stmts@[old(self).current + 1]),
                        Some(value),
                    ));
                },
                _ => {
                    return Err(
                        self.runtime_error_here(stmts, "Cannot interpret function definition"),
                    );
                },
            }
        } else {
            return Err(self.runtime_error_here(stmts, "Expected function definition"));
        }
        self.current += 1;
        // The statements of the body are passed over.
        self.skip_block(stmts)?;
        if self.current >= stmts.len() {
            return Err(PakhiErr::unexpected("Unexpected error at function call"));
        }
        if let Stmt::Return(_, _, _) = &stmts[self.current] {
            self.current += 1;
        } else {
            return Err(self.runtime_error_here(stmts, "Expected a return statement"));
        }
        proof {
            assert(declares(
                old(self).envs@,
                self.envs@,
                header_name(stmts@[old(self).current + 1]),
                Some(bound->0),
            ));
            lemma_declares_view(
                old(self).envs@,
                self.envs@,
                header_name(stmts@[old(self).current + 1]),
                bound->0,
            );
        }
        Ok(())
    }
}

/// Values that were live before the heap extended are live after.
pub proof fn lemma_all_live_extends(before: &Heap, after: &Heap, values: Seq<DataType>)
    requires
        after.extends(before),
        all_live(before, values),
    ensures
        all_live(after, values),
{
    assert forall|k: int| 0 <= k < values.len() implies after.live(#[trigger] values[k]@) by {
        assert(before.live(values[k]@));
    }
}

impl Machine {
    /// What indexing makes of a container and an index: a list takes a
    /// number, rounded toward zero, and a record a string.
    pub open spec fn indexed(&self, identifier: Value, index: Value) -> Result<Value, Fault> {
        match (identifier, index) {
            (Value::List(i), Value::Num(n)) => match self.heap.element(
                identifier,
                IndexView::List(n.index()),
            ) {
                Some(v) => Ok(v),
                None => Err(Fault::Missing),
            },
            (Value::NamelessRecord(r), Value::String(k)) => match self.heap.element(
                identifier,
                IndexView::NamelessRecord(k),
            ) {
                Some(v) => Ok(v),
                None => Err(Fault::Missing),
            },
            _ => Err(Fault::Kind),
        }
    }

    /// The element of `identifier` at `index`. A position that the list
    /// lacks and a key that the record lacks are runtime errors; any other
    /// pair of kinds is a type error.
    pub fn index_value(
        &self,
        identifier: &DataType,
        index: &DataType,
        line: u32,
        file_name: &String,
    ) -> (r: Result<DataType, PakhiErr>)
        requires
            self.heap.wf(),
        ensures
            match self.indexed(identifier@, index@) {
                Ok(v) => r matches Ok(d) && d@ == v && self.heap.live(d@),
                Err(Fault::Missing) => r matches Err(e) && e@ is RuntimeError,
                Err(Fault::Kind) => r matches Err(e) && e@ is TypeError,
            },
    {
        match (identifier, index) {
            (DataType::List(_), DataType::Num(i)) => {
                match self.element_at(identifier, &Index::List(i.to_index())) {
                    Ok(v) => Ok(v),
                    Err(_) => Err(PakhiErr::runtime(line, file_name, "List index out of range")),
                }
            },
            (DataType::NamelessRecord(_), DataType::String(key)) => {
                match self.element_at(identifier, &Index::NamelessRecord(key.clone())) {
                    Ok(v) => Ok(v),
                    Err(_) => Err(PakhiErr::runtime(line, file_name, "Record has no such key")),
                }
            },
            (DataType::List(_), _) => Err(
                PakhiErr::type_error(line, file_name, "List index must of number type"),
            ),
            (DataType::NamelessRecord(_), _) => Err(
                PakhiErr::type_error(line, file_name, "Record index must be of string type"),
            ),
            (_, DataType::Num(_)) => Err(
                PakhiErr::type_error(line, file_name, "Only list supports indexing with number"),
            ),
            (_, DataType::String(_)) => Err(
                PakhiErr::type_error(line, file_name, "Only record supports indexing with string"),
            ),
            _ => Err(PakhiErr::type_error(line, file_name, "Invalid indexing format")),
        }
    }

    /// `self` advanced from `middle`, which advanced from `before`.
    pub proof fn lemma_advances_twice(&self, middle: &Machine, before: &Machine)
        requires
            self.advances(middle),
            middle.advances(before),
        ensures
            self.advances(before),
    {
    }

    /// Executes the statement at the current position.
    ///
    /// Each statement costs one step of the budget; with none left the run
    /// ends in an error. For the statements that [`next`] knows the
    /// outcome is fixed: the statement succeeds, the state is the one that
    /// `next` gives, and what [`next_written`] gives was written. Where
    /// [`next_error`] gives an error, the statement fails with it and
    /// nothing is written.
    #[verifier::loop_isolation(false)]
    #[verifier::rlimit(100)]
    pub fn interpret<T: IO, P: Platform>(
        &mut self,
        stmts: &Vec<Stmt>,
        io: &mut T,
        pf: &mut P,
    ) -> (r: Result<(), PakhiErr>)
        requires
            old(self).wf(),
        ensures
            final(self).executed(old(self), r),
            r is Ok ==> final(self).steps_left < old(self).steps_left && old(self).current
                < stmts@.len(),
            old(self).steps_left == 0 ==> (r matches Err(e) && e@ == PakhiErrView::UnexpectedError(
                budget_message(),
            )),
            old(self).steps_left > 0 && old(self).current >= stmts@.len() ==> (r matches Err(e)
                && e@ == PakhiErrView::UnexpectedError(off_end_message())),
            old(self).current < stmts@.len() && (stmts@[old(self).current as int] is Return
                || stmts@[old(self).current as int] is EOS) ==> r is Err,
            old(self).ready(stmts@) && (stmts@[old(self).current as int] is Loop
                || stmts@[old(self).current as int] is BlockStart) ==> r is Ok,
            old(self).ready(stmts@) && stmts@[old(self).current as int] is BlockEnd ==> (r is Ok)
                == (old(self).envs@.len() >= 2),
            old(self).ready(stmts@) && stmts@[old(self).current as int] is Continue ==> (r is Ok)
                == old(self).in_loop(),
            old(self).ready(stmts@) && stmts@[old(self).current as int] is Break ==> (r is Ok) == (
            old(self).in_loop() && loop_end(stmts@, old(self).current + 1, 0) is Some),
            old(self).ready(stmts@) && stmts@[old(self).current as int] is Else
                && old(self).previous_if_was_executed@.len() == 0 ==> r is Err,
            old(self).ready(stmts@) ==> match stmts@[old(self).current as int] {
                Stmt::Print(e, _, _) => shows_at_once(e) ==> r is Ok,
                Stmt::PrintNoEOL(e, _, _) => shows_at_once(e) ==> r is Ok,
                Stmt::Expression(e, _, _) => literal_of(e) is Some ==> r is Ok && final(self).heap
                    == old(self).heap && final(self).envs == old(self).envs,
                Stmt::Assignment(a, _, _) => a.kind is FirstAssignment && a.init_value is None
                    ==> r is Ok && declares(
                    old(self).envs@,
                    final(self).envs@,
                    a.var_name.lexeme@,
                    Some(DataType::Nil),
                ) && final(self).heap == old(self).heap,
                Stmt::If(e, _, _) => literal_of(e) == Some(Value::Bool(true)) ==> r is Ok
                    && final(self).current == old(self).current + 1
                        && final(self).previous_if_was_executed@
                    == old(self).previous_if_was_executed@.push(true),
                _ => true,
            },
            r is Ok && stmts@[old(self).current as int] is Loop ==> final(self).enters_loop(
                old(self),
            ),
            r is Ok && stmts@[old(self).current as int] is Continue ==> final(self).continues(
                old(self),
            ),
            r is Ok && stmts@[old(self).current as int] is Break ==> final(self).breaks(
                stmts@,
                old(self),
            ),
            r is Ok && stmts@[old(self).current as int] is BlockStart ==> final(self).enters_block(
                old(self),
            ),
            r is Ok && stmts@[old(self).current as int] is BlockEnd ==> final(self).leaves_block(
                old(self),
            ),
            r is Ok && (stmts@[old(self).current as int] is Print
                || stmts@[old(self).current as int] is PrintNoEOL
                    || stmts@[old(self).current as int] is Assignment
                || stmts@[old(self).current as int] is Expression)
                    ==> final(self).current == old(self).current + 1
                        && final(self).envs@.len() == old(self).envs@.len(),
            old(self).ready(stmts@) ==> match stmts@[old(self).current as int] {
                Stmt::Assignment(a, _, _) => a.kind is Reassignment
                    && old(self).assigns_element_plainly(a)
                        ==> final(self).element_assigned_plainly(
                    &old(self).spent(),
                    stmts@,
                    a,
                    r,
                ),
                _ => true,
            },
            next_error(stmts@, old(self).state()) matches Some(e) ==> (r matches Err(x) && x@ == e)
                && final(io).written() == old(io).written(),
            next(stmts@, old(self).state()) matches Some(state) ==> r is Ok && final(self).state()
                == state,
            next(stmts@, old(self).state()) is Some ==> final(io).written() == old(io).written()
                + match next_written(stmts@, old(self).state()) {
                Some(pieces) => pieces,
                None => Seq::empty(),
            },
        decreases old(self).steps_left, 0int, stmts, 0int,
    {
        self.spend_step()?;
        if self.current >= stmts.len() {
            return Err(PakhiErr::unexpected("Unexpected error, probably missing ';'"));
        }
        let ghost begun = *self;
        proof {
            assert(begun == old(self).spent());
        }
        let done = match &stmts[self.current] {
            Stmt::Print(expr, _, _) => self.interpret_print_stmt(stmts, io, pf, expr),
            Stmt::PrintNoEOL(expr, _, _) => self.interpret_print_no_eol(stmts, io, pf, expr),
            Stmt::Assignment(assign_stmt, _, _) => self.interpret_assign_stmt(
                stmts,
                io,
                pf,
                assign_stmt,
            ),
            Stmt::If(cond_expr, _, _) => self.interpret_if_stmt(stmts, io, pf, cond_expr),
            Stmt::Else(_, _) => self.interpret_else_stmt(stmts),
            Stmt::FuncDef(_, _) => self.interpret_funcdef(stmts),
            Stmt::Expression(expr, _, _) => {
                let value = self.interpret_expr(stmts, io, pf, expr);
                proof {
                    if next_error(stmts@, old(self).state()) is Some {
                        let only = expr->Call_0.arguments@[0];
                        lemma_plain_in(old(self).envs@, only);
                        assert(is_plain(only));
                        assert(all_plain(expr->Call_0.arguments@));
                        assert(all_bound(begun.envs@, expr->Call_0.arguments@));
                        assert(self.plain_built_in_call(
                            &begun,
                            stmts@,
                            "_এরর"@,
                            expr->Call_0.arguments@,
                            value,
                        ));
                        let (arguments, outcome) = choose|
                            arguments: Seq<DataType>,
                            outcome: Result<DataType, BuiltInError>,
                        | #[trigger]
                            self.built_in_called(&begun, stmts@, "_এরর"@, arguments, outcome, value)
                                && crate::backend::heap::list_values(arguments) == plain_values(
                                begun.envs@,
                                expr->Call_0.arguments@,
                            );
                        assert(crate::backend::heap::list_values(arguments).len() == 1);
                        assert(arguments.len() == 1);
                        assert(crate::backend::heap::list_values(arguments)[0] == arguments[0]@);
                        assert(plain_values(begun.envs@, expr->Call_0.arguments@)[0]
                            == plain_value(begun.envs@, only)->0);
                        assert(arguments[0] is String);
                    }
                }
                proof {
                    if next(stmts@, old(self).state()) is Some && literal_of(*expr) is None {
                        let called = expr->Call_0;
                        let name = variable_name(*called.expr)->0;
                        lemma_plain_args_in(begun.envs@, called.arguments@);
                        assert(scope_views(begun.envs@) == old(self).state().scopes);
                        assert(self.plain_built_in_call(
                            &begun,
                            stmts@,
                            name,
                            called.arguments@,
                            value,
                        ));
                        let (arguments, outcome) = choose|
                            arguments: Seq<DataType>,
                            outcome: Result<DataType, BuiltInError>,
                        | #[trigger]
                            self.built_in_called(&begun, stmts@, name, arguments, outcome, value)
                                && crate::backend::heap::list_values(arguments) == plain_values(
                                begun.envs@,
                                called.arguments@,
                            );
                        let values = crate::backend::heap::list_values(arguments);
                        assert(values.len() == arguments.len());
                        assert forall|k: int| 0 <= k < arguments.len() implies values[k]
                            == arguments[k]@ by {}
                        let slot = values[0]->List_0;
                        assert(begun.heap@.lists[slot as int] == crate::backend::heap::list_values(
                            begun.heap.lists@[slot as int]@,
                        ));
                        assert(self.heap@.lists[slot as int] == crate::backend::heap::list_values(
                            self.heap.lists@[slot as int]@,
                        ));
                        assert(outcome is Ok);
                        assert forall|k: int| 0 <= k < self.heap@.lists.len() && k != slot
                            implies self.heap@.lists[k] == begun.heap@.lists[k] by {
                            assert(self.heap.lists@[k] == begun.heap.lists@[k]);
                        }
                        assert(self.heap@.lists =~= list_call_in(
                            old(self).state().scopes,
                            old(self).state().heap,
                            *expr,
                        )->0.lists);
                        assert(self.heap@.records =~= begun.heap@.records);
                    }
                }
                match value {
                    Ok(_) => {
                        self.current += 1;
                        Ok(())
                    },
                    Err(e) => Err(e),
                }
            },
            Stmt::Loop(_, _) => {
                self.interpret_loop_stmt(stmts);
                Ok(())
            },
            Stmt::Continue(_, _) => self.interpret_continue_stmt(stmts),
            Stmt::Break(_, _) => self.interpret_break_stmt(stmts),
            Stmt::BlockStart(_, _) => {
                self.interpret_block_start(stmts);
                Ok(())
            },
            Stmt::BlockEnd(_, _) => self.interpret_block_end(stmts),
            _ => Err(self.runtime_error_here(stmts, "Unexpected statement")),
        };
        proof {
            if next(stmts@, old(self).state()) is Some {
                let start = old(self).state();
                let want = next(stmts@, start)->0;
                assert(scope_views(begun.envs@) == start.scopes);
                match stmts@[old(self).current as int] {
                    Stmt::BlockStart(_, _) => {
                        assert(scope_view(self.envs@.last()) =~= Map::empty());
                        assert forall|i: int| 0 <= i < begun.envs@.len() implies self.envs@[i]
                            == begun.envs@[i] by {
                            assert(self.envs@.drop_last()[i] == begun.envs@[i]);
                        }
                        assert(scope_views(self.envs@) =~= want.scopes);
                    },
                    Stmt::BlockEnd(_, _) => {
                        assert(scope_views(self.envs@) =~= want.scopes);
                    },
                    Stmt::Continue(_, _) => {
                        assert(scope_views(self.envs@) =~= want.scopes);
                    },
                    Stmt::Break(_, _) => {
                        assert(scope_views(self.envs@) =~= want.scopes);
                    },
                    Stmt::Loop(_, _) => {
                        assert(self.loops@ =~= want.loops);
                    },
                    Stmt::If(e, _, _) => {
                        lemma_plain_in(old(self).envs@, e);
                    },
                    Stmt::Assignment(a, _, _) => {
                        if a.init_value is Some {
                            lemma_plain_in(old(self).envs@, a.init_value->0);
                            lemma_plain_list_in(old(self).envs@, a.init_value->0);
                            if a.init_value->0 is Primary {
                                lemma_plain_record_in(old(self).envs@, a.init_value->0);
                            }
                        }
                        lemma_scope_views(old(self).envs@, a.var_name.lexeme@);
                    },
                    Stmt::Print(e, _, _) => {
                        lemma_read_in(&begun, e);
                        lemma_shown_view(&begun.heap, begun.read_value(e)->0, true);
                    },
                    Stmt::PrintNoEOL(e, _, _) => {
                        lemma_read_in(&begun, e);
                        lemma_shown_view(&begun.heap, begun.read_value(e)->0, false);
                    },
                    _ => {},
                }
                assert(done is Ok);
                assert(self.state().scopes == want.scopes);
                assert(self.state() == want);
                assert(io.written() =~= old(io).written() + match next_written(
                    stmts@,
                    old(self).state(),
                ) {
                    Some(pieces) => pieces,
                    None => Seq::empty(),
                });
            }
        }
        done
    }

    /// Executes a print statement that ends the line.
    fn interpret_print_stmt<T: IO, P: Platform>(
        &mut self,
        stmts: &Vec<Stmt>,
        io: &mut T,
        pf: &mut P,
        expr: &Expr,
    ) -> (r: Result<(), PakhiErr>)
        requires
            old(self).wf(),
            old(self).current < stmts.len(),
        ensures
            final(self).executed(old(self), r),
            literal_of(*expr) is Some && (literal_of(*expr)->0 is String || literal_of(*expr)->0
                is Bool) ==> r is Ok,
            literal_of(*expr) is Some && literal_of(*expr)->0 is Nil ==> r is Err,
            r is Ok ==> final(self).current == old(self).current + 1 && final(self).envs@.len()
                == old(self).envs@.len(),
            reads_only(*expr) ==> final(self).printed(
                old(self),
                old(self).read_value(*expr),
                true,
                old(io).written(),
                final(io).written(),
                r,
            ),
        decreases old(self).steps_left, 2int, stmts, 0int,
    {
        let value = self.interpret_expr(stmts, io, pf, expr)?;
        self.print_value(stmts, io, pf, &value, true)?;
        self.current += 1;
        Ok(())
    }

    /// Executes a print statement that does not end the line.
    fn interpret_print_no_eol<T: IO, P: Platform>(
        &mut self,
        stmts: &Vec<Stmt>,
        io: &mut T,
        pf: &mut P,
        expr: &Expr,
    ) -> (r: Result<(), PakhiErr>)
        requires
            old(self).wf(),
            old(self).current < stmts.len(),
        ensures
            final(self).executed(old(self), r),
            literal_of(*expr) is Some && (literal_of(*expr)->0 is String || literal_of(*expr)->0
                is Bool) ==> r is Ok,
            literal_of(*expr) is Some && literal_of(*expr)->0 is Nil ==> r is Err,
            r is Ok ==> final(self).current == old(self).current + 1 && final(self).envs@.len()
                == old(self).envs@.len(),
            reads_only(*expr) ==> final(self).printed(
                old(self),
                old(self).read_value(*expr),
                false,
                old(io).written(),
                final(io).written(),
                r,
            ),
        decreases old(self).steps_left, 2int, stmts, 0int,
    {
        let value = self.interpret_expr(stmts, io, pf, expr)?;
        self.print_value(stmts, io, pf, &value, false)?;
        self.current += 1;
        Ok(())
    }

    /// Executes an assignment.
    fn interpret_assign_stmt<T: IO, P: Platform>(
        &mut self,
        stmts: &Vec<Stmt>,
        io: &mut T,
        pf: &mut P,
        assign_stmt: &Assignment,
    ) -> (r: Result<(), PakhiErr>)
        requires
            old(self).wf(),
            old(self).current < stmts.len(),
        ensures
            final(self).executed(old(self), r),
            r is Ok ==> final(self).current == old(self).current + 1 && final(self).envs@.len()
                == old(self).envs@.len(),
            assign_stmt.kind is FirstAssignment && assign_stmt.init_value is None ==> r is Ok
                && declares(
                old(self).envs@,
                final(self).envs@,
                assign_stmt.var_name.lexeme@,
                Some(DataType::Nil),
            ) && final(self).heap == old(self).heap,
            assign_stmt.kind is Reassignment && assign_stmt.init_value is None ==> r is Err,
            assign_stmt.kind is FirstAssignment && assign_stmt.init_value is None
                ==> final(self).assigned_plainly(old(self), *assign_stmt, Some(Value::Nil), r)
                    && final(io).written() == old(io).written(),
            assign_stmt.init_value is Some && is_plain(assign_stmt.init_value->0)
                && assign_stmt.indexes@.len() == 0 ==> final(self).assigned_plainly(
                old(self),
                *assign_stmt,
                plain_value(old(self).envs@, assign_stmt.init_value->0),
                r,
            ) && final(io).written() == old(io).written(),
            assign_stmt.kind is FirstAssignment && assign_stmt.init_value is Some && is_plain(
                assign_stmt.init_value->0,
            ) && r is Ok ==> final(self).heap == old(self).heap && exists|d: DataType| #[trigger]
                declares(
                    old(self).envs@,
                    final(self).envs@,
                    assign_stmt.var_name.lexeme@,
                    Some(d),
                ) && Some(d@) == plain_value(old(self).envs@, assign_stmt.init_value->0),
            assign_stmt.kind is Reassignment && old(self).assigns_element_plainly(*assign_stmt)
                ==> final(self).element_assigned_plainly(old(self), stmts@, *assign_stmt, r),
            assign_stmt.init_value is Some && assign_stmt.init_value->0 is Primary && plain_list(
                old(self).envs@,
                assign_stmt.init_value->0->Primary_0,
            ) is Some && assign_stmt.indexes@.len() == 0
                ==> final(io).written() == old(io).written() && final(self).assigned_list(
                old(self),
                *assign_stmt,
                plain_list(old(self).envs@, assign_stmt.init_value->0->Primary_0)->0,
                r,
            ),
            element_heap_in(scope_views(old(self).envs@), old(self).heap@, *assign_stmt) is Some
                ==> r is Ok && final(io).written() == old(io).written()
                    && final(self).current == old(self).current + 1
                        && final(self).back().only_heap_changed(old(self))
                            && Some(final(self).heap@) == element_heap_in(
                scope_views(old(self).envs@),
                old(self).heap@,
                *assign_stmt,
            ),
            assign_stmt.init_value is Some && assign_stmt.init_value->0 is Primary && plain_record(
                old(self).envs@,
                assign_stmt.init_value->0->Primary_0,
            ) && assign_stmt.indexes@.len() == 0 ==> final(io).written() == old(io).written()
                && final(self).assigned_record(old(self), *assign_stmt, r),
        decreases old(self).steps_left, 9int, stmts, 0int,
    {
        let var_key = string_from_chars(&assign_stmt.var_name.lexeme);
        match assign_stmt.kind {
            AssignmentKind::FirstAssignment => self.create_new_var(
                stmts,
                io,
                pf,
                var_key,
                assign_stmt,
            )?,
            AssignmentKind::Reassignment => self.reassign_to_old_var(
                stmts,
                io,
                pf,
                var_key,
                assign_stmt,
            )?,
        }
        let ghost stored = *self;
        self.current += 1;
        proof {
            let a = *assign_stmt;
            if a.kind is Reassignment && old(self).assigns_element_plainly(a) {
                let name = a.var_name.lexeme@;
                let at = resolve(old(self).envs@, name);
                let indexes = bracket_indexes(old(self).envs@, a.indexes@);
                let (middle, d) = choose|middle: Machine, d: DataType| #[trigger]
                    stored.element_assigned(
                        old(self),
                        &middle,
                        stmts@,
                        name,
                        at,
                        indexes,
                        d,
                        Ok(()),
                    ) && Some(d@) == plain_value(old(self).envs@, a.init_value->0);
                assert(self.element_assigned(
                    old(self),
                    &middle,
                    stmts@,
                    name,
                    at,
                    indexes,
                    d,
                    Ok(()),
                ));
            }
        }
        Ok(())
    }

    /// Declares a variable in the innermost scope, bound to the value of
    /// the initialiser, or to nil where there is none.
    fn create_new_var<T: IO, P: Platform>(
        &mut self,
        stmts: &Vec<Stmt>,
        io: &mut T,
        pf: &mut P,
        var_key: String,
        assign_stmt: &Assignment,
    ) -> (r: Result<(), PakhiErr>)
        requires
            old(self).wf(),
        ensures
            final(self).executed(old(self), r),
            r is Ok ==> final(self).settled(old(self)) && crate::backend::scope::resolve(
                final(self).envs@,
                var_key@,
            ) == final(self).envs@.len() - 1,
            assign_stmt.init_value is None ==> r is Ok && declares(
                old(self).envs@,
                final(self).envs@,
                var_key@,
                Some(DataType::Nil),
            ) && final(self).heap == old(self).heap,
            assign_stmt.init_value is None ==> final(self).bound_plainly(
                old(self),
                old(self).envs@.len() - 1,
                var_key@,
                Value::Nil,
            ) && final(io).written() == old(io).written(),
            assign_stmt.init_value is Some && is_plain(assign_stmt.init_value->0)
                ==> final(io).written() == old(io).written() && match plain_value(
                old(self).envs@,
                assign_stmt.init_value->0,
            ) {
                Some(v) => r is Ok && final(self).bound_plainly(
                    old(self),
                    old(self).envs@.len() - 1,
                    var_key@,
                    v,
                ) && exists|d: DataType| #[trigger]
                    declares(old(self).envs@, final(self).envs@, var_key@, Some(d)) && d@ == v,
                None => r is Err && *final(self) == *old(self),
            },
            assign_stmt.init_value is Some && assign_stmt.init_value->0 is Primary && plain_list(
                old(self).envs@,
                assign_stmt.init_value->0->Primary_0,
            ) is Some ==> r is Ok && final(io).written() == old(io).written()
                && final(self).bound_list(
                old(self),
                old(self).envs@.len() - 1,
                var_key@,
                plain_list(old(self).envs@, assign_stmt.init_value->0->Primary_0)->0,
            ),
            assign_stmt.init_value is Some && assign_stmt.init_value->0 is Primary && plain_record(
                old(self).envs@,
                assign_stmt.init_value->0->Primary_0,
            ) ==> r is Ok && final(io).written() == old(io).written() && final(self).bound_new(
                old(self),
                old(self).envs@.len() - 1,
                var_key@,
                Value::NamelessRecord(old(self).heap@.next_record() as usize),
                record_heap_in(
                    scope_views(old(self).envs@),
                    old(self).heap@,
                    assign_stmt.init_value->0,
                ),
            ),
        decreases old(self).steps_left, 8int, stmts, 0int,
    {
        match &assign_stmt.init_value {
            Some(expr) => {
                let init_value = self.interpret_expr(stmts, io, pf, expr)?;
                let ghost bound = init_value;
                self.declare(var_key, init_value);
                proof {
                    if is_plain(*expr) {
                        assert(declares(old(self).envs@, self.envs@, var_key@, Some(bound)));
                        lemma_declares_view(old(self).envs@, self.envs@, var_key@, bound);
                    }
                    if expr is Primary && plain_list(old(self).envs@, expr->Primary_0) is Some {
                        assert(declares(old(self).envs@, self.envs@, var_key@, Some(bound)));
                        lemma_declares_view(old(self).envs@, self.envs@, var_key@, bound);
                    }
                    if expr is Primary && plain_record(old(self).envs@, expr->Primary_0) {
                        lemma_plain_record_in(old(self).envs@, *expr);
                        assert(declares(old(self).envs@, self.envs@, var_key@, Some(bound)));
                        lemma_declares_view(old(self).envs@, self.envs@, var_key@, bound);
                    }
                }
            },
            _ => {
                self.declare(var_key, DataType::Nil);
                proof {
                    lemma_declares_view(old(self).envs@, self.envs@, var_key@, DataType::Nil);
                }
            },
        }
        Ok(())
    }

    /// Assigns to a variable that exists, or to an element reached from
    /// it: the innermost scope that has the name is the one that changes.
    fn reassign_to_old_var<T: IO, P: Platform>(
        &mut self,
        stmts: &Vec<Stmt>,
        io: &mut T,
        pf: &mut P,
        var_key: String,
        assign_stmt: &Assignment,
    ) -> (r: Result<(), PakhiErr>)
        requires
            old(self).wf(),
        ensures
            final(self).executed(old(self), r),
            r is Ok ==> final(self).settled(old(self)),
            assign_stmt.init_value is None ==> r is Err && *final(self) == *old(self),
            assign_stmt.init_value is None && old(self).current < stmts@.len() ==> r->Err_0@
                == PakhiErrView::RuntimeError(
                stmts@[old(self).current as int].line(),
                stmts@[old(self).current as int].file(),
                "Assignment without a value"@,
            ),
            assign_stmt.init_value is Some && is_plain(assign_stmt.init_value->0)
                && assign_stmt.indexes@.len() == 0 ==> final(self).only_envs_changed(old(self)) && (
            (r is Ok) == (plain_value(old(self).envs@, assign_stmt.init_value->0) is Some
                && resolve(
                old(self).envs@,
                var_key@,
            ) >= 0)) && (r is Err ==> *final(self) == *old(self)) && (r is Ok ==> exists|
                v: DataType,
            | #[trigger]
                rebinds(
                    old(self).envs@,
                    final(self).envs@,
                    resolve(old(self).envs@, var_key@),
                    var_key@,
                    Some(v),
                ) && Some(v@) == plain_value(old(self).envs@, assign_stmt.init_value->0)),
            assign_stmt.init_value is Some && is_plain(assign_stmt.init_value->0) && all_bracketed(
                old(self).envs@,
                assign_stmt.indexes@,
            ) && assign_stmt.indexes@.len() > 0 ==> ((r is Ok) == (plain_value(
                old(self).envs@,
                assign_stmt.init_value->0,
            ) is Some && resolve(old(self).envs@, var_key@) >= 0 && old(self).can_store(
                var_key@,
                resolve(old(self).envs@, var_key@),
                bracket_indexes(old(self).envs@, assign_stmt.indexes@),
            ))),
            assign_stmt.init_value is Some && is_plain(assign_stmt.init_value->0)
                && assign_stmt.indexes@.len() == 0 ==> final(io).written() == old(io).written(),
            assign_stmt.init_value is Some && is_plain(assign_stmt.init_value->0)
                && assign_stmt.indexes@.len() == 0 && r is Ok ==> final(self).bound_plainly(
                old(self),
                resolve(old(self).envs@, var_key@),
                var_key@,
                plain_value(old(self).envs@, assign_stmt.init_value->0)->0,
            ),
            var_key@ == assign_stmt.var_name.lexeme@ && old(self).assigns_element_plainly(
                *assign_stmt,
            ) ==> final(self).element_assigned_plainly(old(self), stmts@, *assign_stmt, r),
            assign_stmt.init_value is Some && assign_stmt.init_value->0 is Primary && plain_list(
                old(self).envs@,
                assign_stmt.init_value->0->Primary_0,
            ) is Some && assign_stmt.indexes@.len() == 0
                ==> final(io).written() == old(io).written()
                    && ((r is Ok) == (resolve(old(self).envs@, var_key@) >= 0)) && (r is Ok
                ==> final(self).bound_list(
                old(self),
                resolve(old(self).envs@, var_key@),
                var_key@,
                plain_list(old(self).envs@, assign_stmt.init_value->0->Primary_0)->0,
            )),
            var_key@ == assign_stmt.var_name.lexeme@ && element_heap_in(
                scope_views(old(self).envs@),
                old(self).heap@,
                *assign_stmt,
            ) is Some ==> r is Ok && final(io).written() == old(io).written()
                && final(self).only_heap_changed(old(self))
                    && Some(final(self).heap@) == element_heap_in(
                scope_views(old(self).envs@),
                old(self).heap@,
                *assign_stmt,
            ),
            assign_stmt.init_value is Some && assign_stmt.init_value->0 is Primary && plain_record(
                old(self).envs@,
                assign_stmt.init_value->0->Primary_0,
            ) && assign_stmt.indexes@.len() == 0 ==> final(io).written() == old(io).written() && (
            (r is Ok) == (resolve(old(self).envs@, var_key@) >= 0)) && (r is Ok
                ==> final(self).bound_new(
                old(self),
                resolve(old(self).envs@, var_key@),
                var_key@,
                Value::NamelessRecord(old(self).heap@.next_record() as usize),
                record_heap_in(
                    scope_views(old(self).envs@),
                    old(self).heap@,
                    assign_stmt.init_value->0,
                ),
            )),
        decreases old(self).steps_left, 8int, stmts, 0int,
    {
        proof {
            if assign_stmt.init_value is Some {
                lemma_plain_in(old(self).envs@, assign_stmt.init_value->0);
            }
        }
        let init_value = match &assign_stmt.init_value {
            Some(init_expr) => self.interpret_expr(stmts, io, pf, init_expr)?,
            None => {
                return Err(self.runtime_error_here(stmts, "Assignment without a value"));
            },
        };
        if assign_stmt.indexes.len() == 0 {
            let ghost middle = *self;
            let ghost bound = init_value;
            let assigned = self.assign_variable(stmts, var_key, init_value);
            proof {
                assert(self.heap.extends(&middle.heap));
                if assign_stmt.init_value->0 is Primary {
                    lemma_plain_record_in(old(self).envs@, assign_stmt.init_value->0);
                }
                if assigned is Ok && (is_plain(assign_stmt.init_value->0) || (
                assign_stmt.init_value->0 is Primary && (plain_list(
                    old(self).envs@,
                    assign_stmt.init_value->0->Primary_0,
                ) is Some || plain_record(
                    old(self).envs@,
                    assign_stmt.init_value->0->Primary_0,
                )))) {
                    lemma_rebinds_view(
                        old(self).envs@,
                        self.envs@,
                        resolve(old(self).envs@, var_key@),
                        var_key@,
                        bound,
                    );
                }
            }
            return assigned;
        }
        proof {
            if var_key@ == assign_stmt.var_name.lexeme@ && element_heap_in(
                scope_views(old(self).envs@),
                old(self).heap@,
                *assign_stmt,
            ) is Some {
                let name = var_key@;
                lemma_plain_in(old(self).envs@, assign_stmt.init_value->0);
                lemma_plain_list_in(old(self).envs@, assign_stmt.indexes@[0]);
                lemma_scope_views(old(self).envs@, name);
                lemma_resolve_bounds(old(self).envs@, name);
                assert(*self == *old(self));
                let at = resolve(old(self).envs@, name);
                assert(scope_views(old(self).envs@)[at] == scope_view(old(self).envs@[at]));
                assert(bracket_index(old(self).envs@, assign_stmt.indexes@[0]) is Some);
                assert(all_bracketed(old(self).envs@, assign_stmt.indexes@));
                assert(old(self).sets_element(assign_stmt.indexes@, old(self).held(name, at))
                    || old(self).sets_field(assign_stmt.indexes@, old(self).held(name, at)));
            }
        }
        match find_var_env_index(&self.envs, var_key.as_str()) {
            Some(var_found_at_env_index) => {
                let ghost bound = init_value;
                let ghost begun = *self;
                let ghost name = var_key@;
                let done = self.reassign_to_list_or_record(
                    stmts,
                    io,
                    pf,
                    assign_stmt,
                    var_key,
                    var_found_at_env_index,
                    init_value,
                );
                proof {
                    if name == assign_stmt.var_name.lexeme@ && old(self).assigns_element_plainly(
                        *assign_stmt,
                    ) {
                        assert(begun == *old(self));
                        let middle = choose|middle: Machine| #[trigger]
                            self.element_assigned(
                                &begun,
                                &middle,
                                stmts@,
                                name,
                                var_found_at_env_index as int,
                                bracket_indexes(begun.envs@, assign_stmt.indexes@),
                                bound,
                                done,
                            );
                        assert(self.element_assigned(
                            old(self),
                            &middle,
                            stmts@,
                            name,
                            resolve(old(self).envs@, name),
                            bracket_indexes(old(self).envs@, assign_stmt.indexes@),
                            bound,
                            done,
                        ));
                    }
                }
                done
            },
            None => {
                let message = prefixed("Variable wasn't declared ", &var_key);
                Err(self.runtime_error_here(stmts, message.as_str()))
            },
        }
    }

    /// Binds a variable that exists to a new value, in the innermost scope
    /// that has the name. A name that no scope has is a runtime error.
    pub fn assign_variable(&mut self, stmts: &Vec<Stmt>, var_key: String, value: DataType) -> (r:
        Result<(), PakhiErr>)
        requires
            old(self).wf(),
            old(self).heap.live(value@),
        ensures
            final(self).wf(),
            final(self).only_envs_changed(old(self)),
            (r is Ok) == (resolve(old(self).envs@, var_key@) >= 0),
            r is Ok ==> rebinds(
                old(self).envs@,
                final(self).envs@,
                resolve(old(self).envs@, var_key@),
                var_key@,
                Some(value),
            ),
            r matches Err(e) ==> e@ == old(self).runtime_view(
                stmts@,
                "Variable wasn't declared "@ + var_key@,
            ) && *final(self) == *old(self),
    {
        match find_var_env_index(&self.envs, var_key.as_str()) {
            Some(var_found_at_env_index) => {
                self.bind_at(var_found_at_env_index, var_key, value);
                Ok(())
            },
            None => {
                let message = prefixed("Variable wasn't declared ", &var_key);
                Err(self.runtime_error_here(stmts, message.as_str()))
            },
        }
    }

    /// Assigns to an element: evaluates the indexes from left to right,
    /// follows all but the last from the variable's container and stores
    /// the value at the last.
    fn reassign_to_list_or_record<T: IO, P: Platform>(
        &mut self,
        stmts: &Vec<Stmt>,
        io: &mut T,
        pf: &mut P,
        assign_stmt: &Assignment,
        var_key: String,
        var_found_at_env_index: usize,
        init_value: DataType,
    ) -> (r: Result<(), PakhiErr>)
        requires
            old(self).wf(),
            old(self).heap.live(init_value@),
            var_found_at_env_index < old(self).envs@.len(),
            assign_stmt.indexes@.len() >= 1,
        ensures
            final(self).executed(old(self), r),
            r is Ok ==> final(self).settled(old(self)),
            all_bracketed(old(self).envs@, assign_stmt.indexes@)
                ==> ((r is Ok) == old(self).can_store(
                var_key@,
                var_found_at_env_index as int,
                bracket_indexes(old(self).envs@, assign_stmt.indexes@),
            )),
            all_bracketed(old(self).envs@, assign_stmt.indexes@)
                ==> exists|middle: Machine| #[trigger]
                final(self).element_assigned(
                    old(self),
                    &middle,
                    stmts@,
                    var_key@,
                    var_found_at_env_index as int,
                    bracket_indexes(old(self).envs@, assign_stmt.indexes@),
                    init_value,
                    r,
                ),
            all_bracketed(old(self).envs@, assign_stmt.indexes@)
                ==> final(io).written() == old(io).written()
                    && final(self).only_heap_changed(old(self)),
            old(self).sets_element(
                assign_stmt.indexes@,
                old(self).held(var_key@, var_found_at_env_index as int),
            ) ==> r is Ok && final(self).heap@ == old(self).element_set(
                assign_stmt.indexes@,
                old(self).held(var_key@, var_found_at_env_index as int),
                init_value@,
            ),
            old(self).sets_field(
                assign_stmt.indexes@,
                old(self).held(var_key@, var_found_at_env_index as int),
            ) ==> r is Ok && final(self).heap@ == old(self).field_set(
                assign_stmt.indexes@,
                old(self).held(var_key@, var_found_at_env_index as int),
                init_value@,
            ),
        decreases old(self).steps_left, 7int, stmts, 0int,
    {
        let evaluated_indexes = self.evaluate_all_indexes(stmts, io, pf, &assign_stmt.indexes)?;
        proof {
            self.heap.lemma_live_extends(&old(self).heap, init_value@);
        }
        let var = self.get_var_from_env(var_key.as_str(), var_found_at_env_index);
        let ghost middle = *self;
        let ghost indexes = index_views(evaluated_indexes@);
        let ghost stored_value = init_value;
        let done = self.assign_element(stmts, var, evaluated_indexes, init_value);
        proof {
            self.lemma_advances_twice(&middle, old(self));
            if old(self).sets_element(
                assign_stmt.indexes@,
                old(self).held(var_key@, var_found_at_env_index as int),
            ) {
                let container = old(self).held(var_key@, var_found_at_env_index as int)->0;
                let slot = container->List_0;
                let at = bracket_index(old(self).envs@, assign_stmt.indexes@[0])->0->List_0;
                assert(middle.held(var_key@, var_found_at_env_index as int) == Some(container));
                assert(indexes.len() == 1);
                assert(indexes[0] == IndexView::List(at));
                assert(indexes.drop_last() =~= Seq::<IndexView>::empty());
                assert(indexes.last() == IndexView::List(at));
                assert(middle.heap@.lists[slot as int] == crate::backend::heap::list_values(
                    middle.heap.lists@[slot as int]@,
                ));
                assert(middle.heap.walk(container, indexes.drop_last()) == Ok::<Value, Fault>(
                    container,
                ));
                assert(middle.heap.store_fault(container, indexes.last()) is None);
                self.heap.lemma_stored_in_list(&middle.heap, slot, at, stored_value);
            }
            if old(self).sets_field(
                assign_stmt.indexes@,
                old(self).held(var_key@, var_found_at_env_index as int),
            ) {
                let container = old(self).held(var_key@, var_found_at_env_index as int)->0;
                let key = bracket_index(old(self).envs@, assign_stmt.indexes@[0])->0;
                assert(middle.held(var_key@, var_found_at_env_index as int) == Some(container));
                assert(indexes.len() == 1);
                assert(indexes[0] == key);
                assert(indexes.drop_last() =~= Seq::<IndexView>::empty());
                assert(indexes.last() == key);
                assert(middle.heap.walk(container, indexes.drop_last()) == Ok::<Value, Fault>(
                    container,
                ));
                assert(middle.heap.store_fault(container, indexes.last()) is None);
            }
            if all_bracketed(old(self).envs@, assign_stmt.indexes@) {
                assert(indexes == bracket_indexes(old(self).envs@, assign_stmt.indexes@));
                let at = var_found_at_env_index as int;
                assert(middle.held(var_key@, at) == old(self).held(var_key@, at));
                if old(self).held(var_key@, at) is Some {
                    let container = old(self).held(var_key@, at)->0;
                    let j = old(self).envs@[at].index_of(var_key@);
                    assert(bound_node(old(self).envs@[at].entries@[j].value) == container.node());
                    assert(old(self).heap.live(container));
                    middle.heap.lemma_keeps_walk(&old(self).heap, container, indexes.drop_last());
                }
                assert(self.element_stored(
                    &middle,
                    stmts@,
                    middle.held(var_key@, var_found_at_env_index as int),
                    indexes,
                    init_value,
                    done,
                ));
                assert(self.element_assigned(
                    old(self),
                    &middle,
                    stmts@,
                    var_key@,
                    var_found_at_env_index as int,
                    bracket_indexes(old(self).envs@, assign_stmt.indexes@),
                    init_value,
                    done,
                ));
            }
        }
        done
    }

    /// Stores `init_value` in the container that a variable is bound to, or
    /// in one nested in it: with one index in the container itself, with
    /// more in the container that all but the last lead to. A variable that
    /// is bound to no list and no record is a type error.
    pub fn assign_element(
        &mut self,
        stmts: &Vec<Stmt>,
        var: Option<DataType>,
        evaluated_indexes: Vec<Index>,
        init_value: DataType,
    ) -> (r: Result<(), PakhiErr>)
        requires
            old(self).wf(),
            old(self).heap.live(init_value@),
            evaluated_indexes@.len() >= 1,
        ensures
            final(self).wf(),
            final(self).heap.extends(&old(self).heap),
            final(self).envs == old(self).envs,
            final(self).current == old(self).current,
            final(self).return_addrs == old(self).return_addrs,
            final(self).steps_left == old(self).steps_left,
            final(self).loops == old(self).loops,
            final(self).previous_if_was_executed == old(self).previous_if_was_executed,
            final(self).built_in_functions == old(self).built_in_functions,
            var is Some && var->0@ is NamelessRecord && evaluated_indexes@.len() == 1
                && evaluated_indexes@[0]@ is NamelessRecord && r is Ok
                    ==> final(self).heap@ == old(self).heap@.with_field(
                var->0@->NamelessRecord_0 as int,
                evaluated_indexes@[0]@->NamelessRecord_0,
                init_value@,
            ),
            !(var is Some && (var->0@ is List || var->0@ is NamelessRecord)) ==> (
            r matches Err(e) && e@ == old(self).type_view(
                stmts@,
                "Datatype doesn't support index assignment"@,
            )) && final(self).heap == old(self).heap,
            var is Some && (var->0@ is List || var->0@ is NamelessRecord)
                ==> match old(self).heap.walk(var->0@,
                    index_views(evaluated_indexes@).drop_last()) {
                Ok(target) => match old(self).heap.store_fault(
                    target,
                    index_views(evaluated_indexes@).last(),
                ) {
                    None => r is Ok && final(self).heap.stored(
                        &old(self).heap,
                        target,
                        index_views(evaluated_indexes@).last(),
                        init_value,
                    ),
                    Some(f) => (r matches Err(e) && e@ == old(self).fault_view(stmts@, f))
                        && final(self).heap == old(self).heap,
                },
                Err(f) => (r matches Err(e) && e@ == old(self).fault_view(stmts@, f))
                    && final(self).heap == old(self).heap,
            },
    {
        let single = evaluated_indexes.len() == 1;
        proof {
            if single {
                assert(index_views(evaluated_indexes@).drop_last() =~= Seq::empty());
            }
        }
        match var {
            Some(DataType::List(i)) => {
                if single {
                    let mut evaluated_indexes = evaluated_indexes;
                    let ghost views = index_views(evaluated_indexes@);
                    let index = evaluated_indexes.pop().unwrap();
                    assert(index@ == views.last());
                    self.list_single_dim_assign(stmts, i, index, init_value)
                } else {
                    self.list_multi_dim_assign(stmts, i, evaluated_indexes, init_value)
                }
            },
            Some(DataType::NamelessRecord(record_ref)) => {
                if single {
                    let mut evaluated_indexes = evaluated_indexes;
                    let ghost views = index_views(evaluated_indexes@);
                    let index = evaluated_indexes.pop().unwrap();
                    assert(index@ == views.last());
                    self.record_single_dim_assign(stmts, record_ref, index, init_value)
                } else {
                    self.record_multi_dim_assign(stmts, record_ref, evaluated_indexes, init_value)
                }
            },
            _ => Err(self.type_error_here(stmts, "Datatype doesn't support index assignment")),
        }
    }

    /// A copy of what `var_name` is bound to in the scope `env_index`:
    /// `None` where the scope lacks the name or declares it without a
    /// value.
    pub fn get_var_from_env(&self, var_name: &str, env_index: usize) -> (r: Option<DataType>)
        requires
            self.wf(),
            env_index < self.envs@.len(),
        ensures
            r matches Some(v) ==> self.envs@[env_index as int].has(var_name@)
                && self.envs@[env_index as int].value_of(var_name@) is Some
                && self.envs@[env_index as int].value_of(var_name@)->0@ == v@ && self.heap.live(v@),
            r is None ==> !self.envs@[env_index as int].has(var_name@)
                || self.envs@[env_index as int].value_of(var_name@) is None,
    {
        let env = &self.envs[env_index];
        match env.position(var_name) {
            Some(j) => match &env.entries[j].value {
                Some(v) => {
                    proof {
                        assert(bound_node(self.envs@[env_index as int].entries@[j as int].value)
                            == v@.node());
                    }
                    Some(v.clone())
                },
                None => None,
            },
            None => None,
        }
    }

    /// Evaluates the index expressions of an assignment, from left to
    /// right. Each is written in brackets and so evaluates to a list; the
    /// index is its first element: a number, rounded toward zero, or a
    /// string.
    #[verifier::loop_isolation(false)]
    fn evaluate_all_indexes<T: IO, P: Platform>(
        &mut self,
        stmts: &Vec<Stmt>,
        io: &mut T,
        pf: &mut P,
        index_exprs: &Vec<Expr>,
    ) -> (r: Result<Vec<Index>, PakhiErr>)
        requires
            old(self).wf(),
        ensures
            final(self).advances(old(self)),
            r matches Ok(indexes) ==> final(self).settled(old(self)) && indexes@.len()
                == index_exprs@.len(),
            index_exprs@.len() == 0 ==> r is Ok && *final(self) == *old(self),
            all_bracketed(old(self).envs@, index_exprs@) ==> final(self).only_allocated(old(self))
                && (r matches Ok(
                indexes,
            ) && index_views(indexes@) == bracket_indexes(old(self).envs@, index_exprs@)),
            all_bracketed(old(self).envs@, index_exprs@)
                ==> final(io).written() == old(io).written(),
            all_bracketed(old(self).envs@, index_exprs@) && index_exprs@.len() == 1
                ==> final(self).heap@ == old(self).heap@.with_list(
                plain_list(old(self).envs@, index_exprs@[0]->Primary_0)->0,
            ),
        decreases old(self).steps_left, 6int, stmts, 0int,
    {
        let mut evaluated_index_exprs: Vec<Index> = Vec::new();
        let mut i: usize = 0;
        while i < index_exprs.len()
            invariant
                i <= index_exprs@.len(),
                evaluated_index_exprs@.len() == i,
                self.advances(old(self)),
                self.settled(old(self)),
                i == 0 ==> *self == *old(self),
                all_bracketed(old(self).envs@, index_exprs@) ==> io.written() == old(io).written(),
                all_bracketed(old(self).envs@, index_exprs@) && index_exprs@.len() == 1 && i == 1
                    ==> self.heap@ == old(self).heap@.with_list(
                    plain_list(old(self).envs@, index_exprs@[0]->Primary_0)->0,
                ),
                all_bracketed(old(self).envs@, index_exprs@) ==> self.only_allocated(old(self))
                    && forall|k: int|
                    0 <= k < i ==> Some((#[trigger] evaluated_index_exprs@[k])@) == bracket_index(
                        old(self).envs@,
                        index_exprs@[k],
                    ),
            decreases index_exprs.len() - i,
        {
            let ghost middle = *self;
            let (line, file_name) = index_exprs[i].meta();
            proof {
                if all_bracketed(old(self).envs@, index_exprs@) {
                    assert(bracket_index(old(self).envs@, index_exprs@[i as int]) is Some);
                }
            }
            let index = self.interpret_expr(stmts, io, pf, &index_exprs[i])?;
            proof {
                self.lemma_advances_twice(&middle, old(self));
                if all_bracketed(old(self).envs@, index_exprs@) {
                    self.heap.lemma_keeps_twice(&middle.heap, &old(self).heap);
                    let written = index_exprs@[i as int];
                    let values = plain_list(old(self).envs@, written->Primary_0)->0;
                    let made = self.heap.lists@[middle.heap.next_list_index()]@;
                    assert(crate::backend::heap::list_values(made) == values);
                    assert(crate::backend::heap::list_values(made).len() == made.len());
                    assert(crate::backend::heap::list_values(made)[0] == made[0]@);
                    assert(self.index_in(index@) == Ok::<IndexView, Fault>(
                        bracket_index(old(self).envs@, written)->0,
                    ));
                }
            }
            let evaluated = self.index_from(&index, line, &file_name)?;
            evaluated_index_exprs.push(evaluated);
            i += 1;
        }
        proof {
            if all_bracketed(old(self).envs@, index_exprs@) {
                assert(index_views(evaluated_index_exprs@) =~= bracket_indexes(old(self).envs@,
                    index_exprs@));
            }
        }
        Ok(evaluated_index_exprs)
    }

    /// The index that a bracketed index expression stands for, given its
    /// value: the first element of the list that the brackets make, a
    /// number, rounded toward zero, or a string.
    pub open spec fn index_in(&self, value: Value) -> Result<IndexView, Fault> {
        match value {
            Value::List(i) => if i < self.heap.lists@.len() && self.heap.lists@[i as int]@.len()
                > 0 {
                match self.heap.lists@[i as int]@[0]@ {
                    Value::Num(n) => Ok(IndexView::List(n.index())),
                    Value::String(k) => Ok(IndexView::NamelessRecord(k)),
                    _ => Err(Fault::Kind),
                }
            } else {
                Err(Fault::Missing)
            },
            _ => Err(Fault::Missing),
        }
    }

    /// The index that the value of a bracketed index expression stands for.
    /// An element that is neither a number nor a string is a type error;
    /// empty brackets and a value that is no list are runtime errors.
    pub fn index_from(&self, value: &DataType, line: u32, file_name: &String) -> (r: Result<
        Index,
        PakhiErr,
    >)
        requires
            self.heap.wf(),
            self.heap.live(value@),
        ensures
            match self.index_in(value@) {
                Ok(index) => r matches Ok(i) && i@ == index,
                Err(Fault::Kind) => r matches Err(e) && e@ == PakhiErrView::TypeError(
                    line,
                    file_name@,
                    "Index must be of number or string type"@,
                ),
                Err(Fault::Missing) => r matches Err(e) && e@ is RuntimeError,
            },
    {
        match value {
            DataType::List(arr_i) => {
                if self.heap.list_len(*arr_i) == 0 {
                    return Err(PakhiErr::runtime(line, file_name, "Index is missing"));
                }
                match self.heap.list_get(*arr_i, 0) {
                    DataType::Num(i) => Ok(Index::List(i.to_index())),
                    DataType::String(key) => Ok(Index::NamelessRecord(key)),
                    _ => Err(
                        PakhiErr::type_error(
                            line,
                            file_name,
                            "Index must be of number or string type",
                        ),
                    ),
                }
            },
            _ => Err(PakhiErr::runtime(line, file_name, "Expected '[' for indexing")),
        }
    }

    /// Executes an `If` statement: goes on into the block where the
    /// condition is true, behind it where it is false, and remembers which
    /// for an `else`. A condition that is no truth value is a type error.
    fn interpret_if_stmt<T: IO, P: Platform>(
        &mut self,
        stmts: &Vec<Stmt>,
        io: &mut T,
        pf: &mut P,
        expr: &Expr,
    ) -> (r: Result<(), PakhiErr>)
        requires
            old(self).wf(),
            old(self).current < stmts.len(),
        ensures
            final(self).executed(old(self), r),
            r is Ok ==> final(self).envs@.len() == old(self).envs@.len(),
            literal_of(*expr) == Some(Value::Bool(true)) ==> r is Ok
                && final(self).current == old(self).current + 1
                    && final(self).previous_if_was_executed@ == old(self).previous_if_was_executed@.push(true) && final(self).heap == old(self).heap
                && final(self).envs == old(self).envs,
            literal_of(*expr) == Some(Value::Bool(false)) ==> (r is Ok) == (block_end(
                stmts@,
                old(self).current + 1,
                0,
            ) is Some) && (r is Ok ==> block_end(stmts@, old(self).current + 1, 0) == Some(
                final(self).current as int,
            )),
            literal_of(*expr) is Some && !(literal_of(*expr)->0 is Bool) ==> (r matches Err(e)
                && e@ is TypeError),
            is_plain(*expr) ==> final(io).written() == old(io).written() && final(self).if_taken(
                stmts@,
                old(self),
                plain_value(old(self).envs@, *expr),
                r,
            ),
        decreases old(self).steps_left, 5int, stmts, 0int,
    {
        let (line, file_name) = expr.meta();
        self.current += 1;
        let if_condition_expr = self.interpret_expr(stmts, io, pf, expr)?;
        let ghost middle = *self;
        let taken = self.take_branch(stmts, &if_condition_expr, line, &file_name);
        proof {
            assert(self.heap.extends(&middle.heap));
        }
        taken
    }

    /// What an `If` statement does once its condition is evaluated: with
    /// a true condition the run goes on into the block; with a false one it
    /// goes on behind the block. Either way the outcome is remembered for
    /// an `else`, unless the condition was false and no `else` follows. A
    /// condition that is no truth value is a type error.
    pub fn take_branch(
        &mut self,
        stmts: &Vec<Stmt>,
        condition: &DataType,
        line: u32,
        file_name: &String,
    ) -> (r: Result<(), PakhiErr>)
        requires
            old(self).wf(),
        ensures
            final(self).wf(),
            final(self).envs == old(self).envs,
            final(self).loops == old(self).loops,
            final(self).return_addrs == old(self).return_addrs,
            final(self).heap == old(self).heap,
            final(self).steps_left == old(self).steps_left,
            final(self).built_in_functions == old(self).built_in_functions,
            condition@ == Value::Bool(true) ==> r is Ok && final(self).current == old(self).current
                && final(self).previous_if_was_executed@ == old(self).previous_if_was_executed@.push(true),
            condition@ == Value::Bool(false) ==> (r is Ok) == (block_end(
                stmts@,
                old(self).current as int,
                0,
            ) is Some),
            condition@ == Value::Bool(false) && r is Ok && old(self).current <= stmts@.len() ==> {
                &&& block_end(stmts@, old(self).current as int, 0) == Some(
                    final(self).current as int,
                )
                &&& final(self).previous_if_was_executed@ == if final(self).current < stmts@.len()
                    && stmts@[final(self).current as int] is Else {
                    old(self).previous_if_was_executed@.push(false)
                } else {
                    old(self).previous_if_was_executed@
                }
            },
            !(condition@ is Bool) ==> (r matches Err(e) && e@ == PakhiErrView::TypeError(
                line,
                file_name@,
                "If condition expression must evaluate to boolean value"@,
            )) && *final(self) == *old(self),
    {
        if let DataType::Bool(condition) = condition {
            if *condition == false {
                self.previous_if_was_executed.push(false);
                let ghost pushed = *self;
                self.skip_block_in_if(stmts)?;
                proof {
                    assert(pushed.previous_if_was_executed@.drop_last() =~= old(self).previous_if_was_executed@);
                }
            } else {
                self.previous_if_was_executed.push(true);
            }
        } else {
            return Err(
                PakhiErr::type_error(
                    line,
                    file_name,
                    "If condition expression must evaluate to boolean value",
                ),
            );
        }
        Ok(())
    }

    /// Evaluates an expression.
    fn interpret_expr<T: IO, P: Platform>(
        &mut self,
        stmts: &Vec<Stmt>,
        io: &mut T,
        pf: &mut P,
        expr: &Expr,
    ) -> (r: Result<DataType, PakhiErr>)
        requires
            old(self).wf(),
        ensures
            final(self).evaluated(old(self), r),
            literal_of(*expr) matches Some(value) ==> (r matches Ok(v) && v@ == value)
                && *final(self) == *old(self),
            variable_name(*expr) matches Some(name) ==> *final(self) == *old(self)
                && match crate::backend::scope::lookup(old(self).envs@, name) {
                Some(Some(value)) => r is Ok && r->Ok_0@ == value@,
                _ => r is Err,
            },
            expr is Primary && plain_list(old(self).envs@, expr->Primary_0) is Some
                ==> final(self).made_list(old(self), plain_list(old(self).envs@,
                    expr->Primary_0)->0, r),
            reads_only(*expr) ==> final(self).has_read_only(old(self), *expr, r),
            reads_only(*expr) ==> final(io).written() == old(io).written(),
            expr is Primary && plain_list(old(self).envs@, expr->Primary_0) is Some
                ==> final(io).written() == old(io).written(),
            expr is Primary && plain_record(old(self).envs@, expr->Primary_0)
                ==> final(io).written() == old(io).written() && final(self).made_record(
                old(self),
                record_keys(old(self).envs@, expr->Primary_0),
                record_fields(old(self).envs@, expr->Primary_0),
                r,
            ),
            expr is Call && variable_name(*expr->Call_0.expr) is Some
                && crate::backend::built_ins::built_in_names().contains(
                variable_name(*expr->Call_0.expr)->0,
            ) && all_plain(expr->Call_0.arguments@) ==> final(io).written() == old(io).written()
                && final(self).plain_built_in_call(
                old(self),
                stmts@,
                variable_name(*expr->Call_0.expr)->0,
                expr->Call_0.arguments@,
                r,
            ),
        decreases old(self).steps_left, 1int, expr, 1int,
    {
        match expr {
            Expr::Primary(p, _, _) => self.interpret_primary_expr(stmts, io, pf, p),
            Expr::Unary(u_expr, _, _) => self.interpret_unary_expr(stmts, io, pf, u_expr),
            Expr::And(and_expr, _, _) => self.interpret_and_expr(stmts, io, pf, and_expr),
            Expr::Or(or_expr, _, _) => self.interpret_or_expr(stmts, io, pf, or_expr),
            Expr::Equality(eq_expr, _, _) => self.interpret_eq_expr(stmts, io, pf, eq_expr),
            Expr::Comparison(comp_expr, _, _) => self.interpret_comp_expr(stmts, io, pf, comp_expr),
            Expr::AddOrSub(addsub_expr, _, _) => self.interpret_addsub_expr(
                stmts,
                io,
                pf,
                addsub_expr,
            ),
            Expr::MulOrDivOrRemainder(muldiv_expr, _, _) => self.interpret_muldiv_remainder_expr(
                stmts,
                io,
                pf,
                muldiv_expr,
            ),
            Expr::Call(function, _, _) => self.interpret_func_call_expr(stmts, io, pf, function),
            Expr::Indexing(_, _, _, _) => self.interpret_indexing(stmts, io, pf, expr),
        }
    }

    /// Evaluates an indexing expression: the container, then the index.
    fn interpret_indexing<T: IO, P: Platform>(
        &mut self,
        stmts: &Vec<Stmt>,
        io: &mut T,
        pf: &mut P,
        expr: &Expr,
    ) -> (r: Result<DataType, PakhiErr>)
        requires
            old(self).wf(),
            expr is Indexing,
        ensures
            final(self).evaluated(old(self), r),
            is_plain(*expr->Indexing_0) && is_plain(*expr->Indexing_1)
                ==> *final(self) == *old(self) && match (
                plain_value(old(self).envs@, *expr->Indexing_0),
                plain_value(old(self).envs@, *expr->Indexing_1),
            ) {
                (Some(container), Some(index)) => match old(self).indexed(container, index) {
                    Ok(v) => r matches Ok(d) && d@ == v,
                    Err(Fault::Missing) => r matches Err(e) && e@ is RuntimeError,
                    Err(Fault::Kind) => r matches Err(e) && e@ is TypeError,
                },
                _ => r is Err,
            },
            reads_only(*expr) ==> final(self).has_read_only(old(self), *expr, r),
            reads_only(*expr) ==> final(io).written() == old(io).written(),
        decreases old(self).steps_left, 1int, expr, 0int,
    {
        match expr {
            Expr::Indexing(identifier_expr, index_expr, _, _) => {
                let (line, file_name) = index_expr.meta();
                let identifier = self.interpret_expr(stmts, io, pf, identifier_expr)?;
                let ghost middle = *self;
                let index = self.interpret_expr(stmts, io, pf, index_expr)?;
                proof {
                    self.lemma_advances_twice(&middle, old(self));
                }
                self.index_value(&identifier, &index, line, &file_name)
            },
            _ => Err(self.runtime_error_here(stmts, "Invalid indexing format")),
        }
    }
}

impl Machine {
    /// Evaluates a literal, a variable, a list or a record, or a group.
    ///
    /// The elements of a list literal are evaluated from left to right and
    /// put in a new list of the heap. The keys and values of a record
    /// literal are evaluated pairwise in the order written; a key must be a
    /// string, and a key written twice keeps its later value.
    #[verifier::loop_isolation(false)]
    fn interpret_primary_expr<T: IO, P: Platform>(
        &mut self,
        stmts: &Vec<Stmt>,
        io: &mut T,
        pf: &mut P,
        p: &Primary,
    ) -> (r: Result<DataType, PakhiErr>)
        requires
            old(self).wf(),
        ensures
            final(self).evaluated(old(self), r),
            literal_value(*p) matches Some(value) ==> (r matches Ok(v) && v@ == value)
                && *final(self) == *old(self),
            p matches Primary::Var(token) ==> *final(self) == *old(self)
                && match crate::backend::scope::lookup(old(self).envs@, token.lexeme@) {
                Some(Some(value)) => r is Ok && r->Ok_0@ == value@,
                _ => r is Err,
            },
            plain_list(old(self).envs@, *p) matches Some(values) ==> final(self).made_list(
                old(self),
                values,
                r,
            ),
            literal_value(*p) is Some || p is Var ==> final(io).written() == old(io).written(),
            p matches Primary::List(items) && all_plain(items@)
                ==> final(io).written() == old(io).written(),
            p matches Primary::List(items) && all_plain(items@) && !all_bound(
                old(self).envs@,
                items@,
            ) ==> r is Err && *final(self) == *old(self),
            plain_record(old(self).envs@, *p) ==> final(io).written() == old(io).written()
                && final(self).made_record(
                old(self),
                record_keys(old(self).envs@, *p),
                record_fields(old(self).envs@, *p),
                r,
            ),
        decreases old(self).steps_left, 1int, p, 0int,
    {
        match p {
            Primary::Nil => Ok(DataType::Nil),
            Primary::String(s) => Ok(DataType::String(s.clone())),
            Primary::Num(n) => Ok(DataType::Num(*n)),
            Primary::Bool(b) => Ok(DataType::Bool(*b)),
            Primary::Var(v) => self.interpret_var(stmts, v),
            Primary::List(array) => {
                let mut pakhi_array: Vec<DataType> = Vec::new();
                let mut i: usize = 0;
                while i < array.len()
                    invariant
                        i <= array@.len(),
                        pakhi_array@.len() == i,
                        self.advances(old(self)),
                        self.settled(old(self)),
                        all_live(&self.heap, pakhi_array@),
                        all_plain(array@) ==> io.written() == old(io).written(),
                        all_plain(array@) ==> *self == *old(self) && forall|k: int|
                            0 <= k < i ==> Some((#[trigger] pakhi_array@[k])@) == plain_value(
                                old(self).envs@,
                                array@[k],
                            ),
                    decreases array.len() - i,
                {
                    let ghost middle = *self;
                    proof {
                        assert(decreases_to!(p => p->List_0));
                        assert(decreases_to!(p->List_0 => p->List_0[i as int]));
                    }
                    let evaluated_elem = self.interpret_expr(stmts, io, pf, &array[i])?;
                    proof {
                        self.lemma_advances_twice(&middle, old(self));
                        lemma_all_live_extends(&middle.heap, &self.heap, pakhi_array@);
                    }
                    pakhi_array.push(evaluated_elem);
                    i += 1;
                }
                let ghost middle = *self;
                let ghost made = pakhi_array@;
                let pakhi_list_data = self.heap.create_new_list_datatype(pakhi_array);
                proof {
                    lemma_scopes_live_extends(self.envs@, &middle.heap, &self.heap);
                    if all_plain(array@) {
                        assert forall|k: int| 0 <= k < array@.len() implies plain_value(
                            old(self).envs@,
                            #[trigger] array@[k],
                        ) is Some by {
                            assert(Some(made[k]@) == plain_value(old(self).envs@, array@[k]));
                        }
                        assert(crate::backend::heap::list_values(made) =~= plain_values(
                            old(self).envs@,
                            array@,
                        ));
                    }
                }
                Ok(pakhi_list_data)
            },
            Primary::Group(expr) => self.interpret_expr(stmts, io, pf, expr),
            Primary::NamelessRecord(key_values) => {
                let mut record: Record = Table::new();
                let mut i: usize = 0;
                proof {
                    assert(record.keys() =~= Seq::<Seq<char>>::empty());
                    assert(crate::backend::heap::record_values(record) =~= Seq::<Value>::empty());
                }
                while i < key_values.0.len()
                    invariant
                        i <= key_values.0@.len(),
                        self.advances(old(self)),
                        self.settled(old(self)),
                        record.wf(),
                        forall|j: int|
                            0 <= j < record.entries@.len() ==> self.heap.live(
                                #[trigger] record.entries@[j].value@,
                            ),
                        plain_record(old(self).envs@, *p) ==> *self == *old(self) && io.written()
                            == old(io).written(),
                        plain_record(old(self).envs@, *p) ==> record.keys() == built_keys(
                            record_keys(old(self).envs@, *p),
                            i as int,
                        ) && crate::backend::heap::record_values(record) == built_values(
                            record_keys(old(self).envs@, *p),
                            record_fields(old(self).envs@, *p),
                            i as int,
                        ),
                        plain_record(old(self).envs@, *p) ==> forall|name: Seq<char>|
                            #[trigger] record.has(name) == (last_parameter(
                                record_keys(old(self).envs@, *p).subrange(0, i as int),
                                name,
                            ) >= 0),
                        plain_record(old(self).envs@, *p) ==> forall|name: Seq<char>|
                            #[trigger] record.has(name) ==> record.value_of(name)@
                                == record_fields(old(self).envs@, *p)[last_parameter(
                                record_keys(old(self).envs@, *p).subrange(0, i as int),
                                name,
                            )],
                    decreases key_values.0.len() - i,
                {
                    if i >= key_values.1.len() {
                        return Err(self.runtime_error_here(stmts, "Record key without a value"));
                    }
                    let (line, file_name) = key_values.0[i].meta();
                    let ghost start = *self;
                    proof {
                        assert(decreases_to!(p => p->NamelessRecord_0));
                        assert(decreases_to!(p->NamelessRecord_0 => p->NamelessRecord_0.0));
                        assert(decreases_to!(p->NamelessRecord_0 => p->NamelessRecord_0.1));
                        assert(decreases_to!(p->NamelessRecord_0.0 => p->NamelessRecord_0.0[i as int]));
                        assert(decreases_to!(p->NamelessRecord_0.1 => p->NamelessRecord_0.1[i as int]));
                    }
                    let ghost plainly = plain_record(old(self).envs@, *p);
                    let ghost all = record_keys(old(self).envs@, *p);
                    proof {
                        if plainly {
                            assert(is_plain(key_values.0@[i as int]));
                            assert(is_plain(key_values.1@[i as int]));
                            assert(all.subrange(0, i + 1).drop_last() =~= all.subrange(0,
                                i as int));
                            assert(all.subrange(0, i + 1).last() == all[i as int]);
                            lemma_last_parameter_bounds(all.subrange(0, i as int));
                        }
                    }
                    let key = self.interpret_expr(stmts, io, pf, &key_values.0[i])?;
                    let ghost middle = *self;
                    if let DataType::String(string_key) = key {
                        let new_val = self.interpret_expr(stmts, io, pf, &key_values.1[i])?;
                        proof {
                            self.lemma_advances_twice(&middle, &start);
                            self.lemma_advances_twice(&start, old(self));
                            assert forall|j: int| 0 <= j < record.entries@.len() implies self.heap.live(
                                #[trigger] record.entries@[j].value@,
                            ) by {
                                self.heap.lemma_live_extends(&start.heap,
                                    record.entries@[j].value@);
                            }
                        }
                        let ghost before = record;
                        let ghost bound_key = string_key@;
                        let ghost bound_value = new_val;
                        record.insert(string_key, new_val);
                        proof {
                            if plainly {
                                crate::backend::heap::lemma_record_bound(
                                    before,
                                    record,
                                    bound_key,
                                    bound_value,
                                );
                            }
                            let after = record;
                            assert(after.values().len() == after.entries@.len());
                            assert(before.values().len() == before.entries@.len());
                            assert forall|j: int| 0 <= j < after.entries@.len() implies self.heap.live(
                                #[trigger] after.entries@[j].value@,
                            ) by {
                                assert(after.values()[j] == after.entries@[j].value);
                                if j < before.entries@.len() {
                                    assert(before.values()[j] == before.entries@[j].value);
                                }
                            }
                        }
                    } else {
                        return Err(
                            PakhiErr::type_error(line, &file_name,
                                "Record key must be of string type"),
                        );
                    }
                    i += 1;
                }
                let ghost middle = *self;
                proof {
                    if plain_record(old(self).envs@, *p) {
                        let all = record_keys(old(self).envs@, *p);
                        assert(all.subrange(0, i as int) =~= all);
                    }
                }
                let pakhi_record_datatype = self.heap.create_new_nameless_record_datatype(record);
                proof {
                    lemma_scopes_live_extends(self.envs@, &middle.heap, &self.heap);
                }
                Ok(pakhi_record_datatype)
            },
        }
    }

    /// Evaluates `-e` and `!e`.
    fn interpret_unary_expr<T: IO, P: Platform>(
        &mut self,
        stmts: &Vec<Stmt>,
        io: &mut T,
        pf: &mut P,
        u_expr: &Unary,
    ) -> (r: Result<DataType, PakhiErr>)
        requires
            old(self).wf(),
        ensures
            final(self).evaluated(old(self), r),
            literal_of(*u_expr.right) matches Some(operand) ==> *final(self) == *old(self) && (
            operand is Bool && u_expr.operator is Not ==> (r matches Ok(v) && v@ == Value::Bool(
                !operand->Bool_0,
            ))) && (operand is Num && u_expr.operator is Minus ==> (r matches Ok(v) && v is Num))
                && (!crate::backend::operators::is_negation(u_expr.operator, operand) ==> (
            r matches Err(e) && e@ is TypeError)),
        decreases old(self).steps_left, 1int, u_expr, 0int,
    {
        let (line, file_name) = u_expr.right.meta();
        let expr_val = self.interpret_expr(stmts, io, pf, &u_expr.right)?;
        apply_unary(&u_expr.operator, &expr_val, pf, line, &file_name)
    }

    /// Evaluates `l & r`. Both operands are evaluated, whatever the left
    /// one is.
    fn interpret_and_expr<T: IO, P: Platform>(
        &mut self,
        stmts: &Vec<Stmt>,
        io: &mut T,
        pf: &mut P,
        and_expr: &crate::frontend::parser::And,
    ) -> (r: Result<DataType, PakhiErr>)
        requires
            old(self).wf(),
        ensures
            final(self).evaluated(old(self), r),
            literal_operands(*and_expr.left, *and_expr.right) ==> *final(self) == *old(self)
                && match crate::backend::operators::logical(
                true,
                literal_of(*and_expr.left)->0,
                literal_of(*and_expr.right)->0,
            ) {
                Some(b) => r matches Ok(v) && v@ == Value::Bool(b),
                None => r matches Err(e) && e@ is TypeError,
            },
            reads_only(*and_expr.left) && old(self).read_value(*and_expr.left) is None ==> r is Err
                && *final(self) == *old(self) && final(io).written() == old(io).written(),
        decreases old(self).steps_left, 1int, and_expr, 0int,
    {
        let (line, file_name) = and_expr.left.meta();
        let left_expr_val = self.interpret_expr(stmts, io, pf, &and_expr.left)?;
        let ghost middle = *self;
        let right_expr_val = self.interpret_expr(stmts, io, pf, &and_expr.right)?;
        proof {
            self.lemma_advances_twice(&middle, old(self));
        }
        apply_and(&left_expr_val, &right_expr_val, line, &file_name)
    }

    /// Evaluates `l | r`. Both operands are evaluated, whatever the left
    /// one is.
    fn interpret_or_expr<T: IO, P: Platform>(
        &mut self,
        stmts: &Vec<Stmt>,
        io: &mut T,
        pf: &mut P,
        or_expr: &crate::frontend::parser::Or,
    ) -> (r: Result<DataType, PakhiErr>)
        requires
            old(self).wf(),
        ensures
            final(self).evaluated(old(self), r),
            literal_operands(*or_expr.left, *or_expr.right) ==> *final(self) == *old(self)
                && match crate::backend::operators::logical(
                false,
                literal_of(*or_expr.left)->0,
                literal_of(*or_expr.right)->0,
            ) {
                Some(b) => r matches Ok(v) && v@ == Value::Bool(b),
                None => r matches Err(e) && e@ is TypeError,
            },
            reads_only(*or_expr.left) && old(self).read_value(*or_expr.left) is None ==> r is Err
                && *final(self) == *old(self) && final(io).written() == old(io).written(),
        decreases old(self).steps_left, 1int, or_expr, 0int,
    {
        let (line, file_name) = or_expr.left.meta();
        let left_expr_val = self.interpret_expr(stmts, io, pf, &or_expr.left)?;
        let ghost middle = *self;
        let right_expr_val = self.interpret_expr(stmts, io, pf, &or_expr.right)?;
        proof {
            self.lemma_advances_twice(&middle, old(self));
        }
        apply_or(&left_expr_val, &right_expr_val, line, &file_name)
    }

    /// Evaluates `l == r` and `l != r`.
    fn interpret_eq_expr<T: IO, P: Platform>(
        &mut self,
        stmts: &Vec<Stmt>,
        io: &mut T,
        pf: &mut P,
        eq_expr: &Binary,
    ) -> (r: Result<DataType, PakhiErr>)
        requires
            old(self).wf(),
        ensures
            final(self).evaluated(old(self), r),
            literal_operands(*eq_expr.left, *eq_expr.right) ==> *final(self) == *old(self)
                && match crate::backend::operators::equality(
                eq_expr.operator,
                literal_of(*eq_expr.left)->0,
                literal_of(*eq_expr.right)->0,
            ) {
                Some(b) => r matches Ok(v) && v@ == Value::Bool(b),
                None => r matches Err(e) && e@ is TypeError,
            },
            reads_only(*eq_expr.left) && old(self).read_value(*eq_expr.left) is None ==> r is Err
                && *final(self) == *old(self) && final(io).written() == old(io).written(),
        decreases old(self).steps_left, 1int, eq_expr, 0int,
    {
        let (line, file_name) = eq_expr.left.meta();
        let evaluated_left_expr = self.interpret_expr(stmts, io, pf, &eq_expr.left)?;
        let ghost middle = *self;
        let evaluated_right_expr = self.interpret_expr(stmts, io, pf, &eq_expr.right)?;
        proof {
            self.lemma_advances_twice(&middle, old(self));
        }
        apply_equality(
            &eq_expr.operator,
            &evaluated_left_expr,
            &evaluated_right_expr,
            line,
            &file_name,
        )
    }

    /// Evaluates `l < r`, `l <= r`, `l > r` and `l >= r`.
    fn interpret_comp_expr<T: IO, P: Platform>(
        &mut self,
        stmts: &Vec<Stmt>,
        io: &mut T,
        pf: &mut P,
        comp_expr: &Binary,
    ) -> (r: Result<DataType, PakhiErr>)
        requires
            old(self).wf(),
        ensures
            final(self).evaluated(old(self), r),
            literal_operands(*comp_expr.left, *comp_expr.right) ==> *final(self) == *old(self)
                && match crate::backend::operators::comparison(
                comp_expr.operator,
                literal_of(*comp_expr.left)->0,
                literal_of(*comp_expr.right)->0,
            ) {
                Some(b) => r matches Ok(v) && v@ == Value::Bool(b),
                None => r matches Err(e) && e@ is TypeError,
            },
            reads_only(*comp_expr.left) && old(self).read_value(*comp_expr.left) is None
                ==> r is Err
                && *final(self) == *old(self) && final(io).written() == old(io).written(),
        decreases old(self).steps_left, 1int, comp_expr, 0int,
    {
        let (line, file_name) = comp_expr.left.meta();
        let evaluated_left_expr = self.interpret_expr(stmts, io, pf, &comp_expr.left)?;
        let ghost middle = *self;
        let evaluated_right_expr = self.interpret_expr(stmts, io, pf, &comp_expr.right)?;
        proof {
            self.lemma_advances_twice(&middle, old(self));
        }
        apply_comparison(
            &comp_expr.operator,
            &evaluated_left_expr,
            &evaluated_right_expr,
            line,
            &file_name,
        )
    }

    /// What `+` and `-` make of two evaluated operands: the sum or the
    /// difference of two numbers, computed by the platform; two strings put
    /// together; the elements of two lists in a new list of the heap.
    /// Neither operand's list changes.
    pub fn apply_addsub<P: Platform>(
        &mut self,
        operator: &TokenKind,
        left: &DataType,
        right: &DataType,
        pf: &P,
        line: u32,
        file_name: &String,
    ) -> (r: Result<DataType, PakhiErr>)
        requires
            old(self).wf(),
            old(self).heap.live(left@),
            old(self).heap.live(right@),
        ensures
            final(self).evaluated(old(self), r),
            final(self).only_heap_changed(old(self)),
            final(self).heap.keeps(&old(self).heap),
            left@ is Num && right@ is Num && (operator is Plus || operator is Minus) ==> (
            r matches Ok(v) && v is Num) && final(self).heap == old(self).heap,
            left@ is String && right@ is String && operator is Plus ==> (r matches Ok(v) && v@
                == Value::String(left@->String_0 + right@->String_0))
                    && final(self).heap == old(self).heap,
            left@ is List && right@ is List && operator is Plus ==> (r matches Ok(v) && v@
                == Value::List(old(self).heap.next_list_index() as usize)
                && crate::backend::heap::list_values(
                final(self).heap.lists@[old(self).heap.next_list_index()]@,
            ) == crate::backend::heap::list_values(
                old(self).heap.lists@[left@->List_0 as int]@,
            ) + crate::backend::heap::list_values(old(self).heap.lists@[right@->List_0 as int]@)),
            left@ is List && right@ is List && operator is Plus ==> final(self).made_list(
                old(self),
                crate::backend::heap::list_values(old(self).heap.lists@[left@->List_0 as int]@)
                    + crate::backend::heap::list_values(
                    old(self).heap.lists@[right@->List_0 as int]@,
                ),
                r,
            ),
            !((left@ is Num && right@ is Num && (operator is Plus || operator is Minus)) || (
            left@ is String && right@ is String && operator is Plus) || (left@ is List
                && right@ is List && operator is Plus)) ==> (r matches Err(e) && e@ is TypeError)
                && final(self).heap == old(self).heap,
    {
        match (left, right) {
            (DataType::Num(l), DataType::Num(r)) => match operator {
                TokenKind::Plus => Ok(DataType::Num(pf.add(*l, *r))),
                TokenKind::Minus => Ok(DataType::Num(pf.sub(*l, *r))),
                _ => Err(PakhiErr::type_error(line, file_name, "Invalid operation number type")),
            },
            (DataType::String(left_str), DataType::String(right_str)) => {
                if let TokenKind::Plus = operator {
                    Ok(DataType::String(concat(left_str, right_str)))
                } else {
                    Err(PakhiErr::type_error(line, file_name, "Invalid operation string type"))
                }
            },
            (DataType::List(left_arr_i), DataType::List(right_arr_i)) => {
                if let TokenKind::Plus = operator {
                    let concatted_arr = concat_lists(
                        &self.heap.lists[*left_arr_i],
                        &self.heap.lists[*right_arr_i],
                    );
                    proof {
                        let l = self.heap.lists@[*left_arr_i as int]@;
                        let r = self.heap.lists@[*right_arr_i as int]@;
                        assert(self.heap.has_node(Node::List(*left_arr_i)));
                        assert(self.heap.has_node(Node::List(*right_arr_i)));
                        assert forall|j: int| 0 <= j < concatted_arr@.len() implies self.heap.live(
                            #[trigger] concatted_arr@[j]@,
                        ) by {
                            if j < l.len() {
                                assert(self.heap.contents(Node::List(*left_arr_i))[j] == l[j]@);
                            } else {
                                let k = j - l.len();
                                assert(concatted_arr@[l.len() + k]@ == r[k]@);
                                assert(self.heap.contents(Node::List(*right_arr_i))[k] == r[k]@);
                            }
                        }
                        assert(crate::backend::heap::list_values(concatted_arr@)
                            =~= crate::backend::heap::list_values(l)
                            + crate::backend::heap::list_values(r)) by {
                            assert forall|j: int| 0 <= j < concatted_arr@.len() implies (
                            #[trigger] crate::backend::heap::list_values(concatted_arr@)[j]) == (
                            crate::backend::heap::list_values(l) + crate::backend::heap::list_values(
                                r,
                            ))[j] by {
                                if j >= l.len() {
                                    let k = j - l.len();
                                    assert(concatted_arr@[l.len() + k]@ == r[k]@);
                                }
                            }
                        }
                    }
                    let pakhi_list_data = self.heap.create_new_list_datatype(concatted_arr);
                    proof {
                        lemma_scopes_live_extends(self.envs@, &old(self).heap, &self.heap);
                    }
                    Ok(pakhi_list_data)
                } else {
                    Err(PakhiErr::type_error(line, file_name, "Invalid operation list type"))
                }
            },
            _ => Err(
                PakhiErr::type_error(
                    line,
                    file_name,
                    "Invalid operation, operand doesn't support this operation",
                ),
            ),
        }
    }

    /// Evaluates `l + r` and `l - r`.
    fn interpret_addsub_expr<T: IO, P: Platform>(
        &mut self,
        stmts: &Vec<Stmt>,
        io: &mut T,
        pf: &mut P,
        addsub_expr: &Binary,
    ) -> (r: Result<DataType, PakhiErr>)
        requires
            old(self).wf(),
        ensures
            final(self).evaluated(old(self), r),
            literal_operands(*addsub_expr.left, *addsub_expr.right) ==> *final(self) == *old(self)
                && match (literal_of(*addsub_expr.left)->0, literal_of(*addsub_expr.right)->0) {
                (Value::Num(_), Value::Num(_)) => if addsub_expr.operator is Plus
                    || addsub_expr.operator is Minus {
                    r matches Ok(v) && v is Num
                } else {
                    r matches Err(e) && e@ is TypeError
                },
                (Value::String(a), Value::String(b)) => if addsub_expr.operator is Plus {
                    r matches Ok(v) && v@ == Value::String(a + b)
                } else {
                    r matches Err(e) && e@ is TypeError
                },
                _ => r matches Err(e) && e@ is TypeError,
            },
            reads_only(*addsub_expr.left) && old(self).read_value(*addsub_expr.left) is None
                ==> r is Err
                && *final(self) == *old(self) && final(io).written() == old(io).written(),
            reads_only(*addsub_expr.left) && reads_only(*addsub_expr.right) && old(self).read_value(
                *addsub_expr.left,
            ) is Some && old(self).read_value(*addsub_expr.right) is Some && old(self).read_value(
                *addsub_expr.left,
            )->0 is List && old(self).read_value(*addsub_expr.right)->0 is List
                && addsub_expr.operator is Plus ==> final(self).only_allocated(old(self))
                    && final(io).written() == old(io).written() && final(self).made_list(
                old(self),
                crate::backend::heap::list_values(
                    old(self).heap.lists@[old(self).read_value(
                        *addsub_expr.left,
                    )->0->List_0 as int]@,
                ) + crate::backend::heap::list_values(
                    old(self).heap.lists@[old(self).read_value(
                        *addsub_expr.right,
                    )->0->List_0 as int]@,
                ),
                r,
            ),
        decreases old(self).steps_left, 1int, addsub_expr, 0int,
    {
        let (line, file_name) = addsub_expr.left.meta();
        let left_expr_val = self.interpret_expr(stmts, io, pf, &addsub_expr.left)?;
        let ghost middle = *self;
        let right_expr_val = self.interpret_expr(stmts, io, pf, &addsub_expr.right)?;
        let ghost both = *self;
        proof {
            self.lemma_advances_twice(&middle, old(self));
            self.heap.lemma_live_extends(&middle.heap, left_expr_val@);
        }
        let sum = self.apply_addsub(
            &addsub_expr.operator,
            &left_expr_val,
            &right_expr_val,
            pf,
            line,
            &file_name,
        );
        proof {
            self.lemma_advances_twice(&both, old(self));
        }
        sum
    }

    /// Evaluates `l * r`, `l / r` and `l % r`.
    fn interpret_muldiv_remainder_expr<T: IO, P: Platform>(
        &mut self,
        stmts: &Vec<Stmt>,
        io: &mut T,
        pf: &mut P,
        muldiv_expr: &Binary,
    ) -> (r: Result<DataType, PakhiErr>)
        requires
            old(self).wf(),
        ensures
            final(self).evaluated(old(self), r),
            literal_operands(*muldiv_expr.left, *muldiv_expr.right) ==> *final(self) == *old(self)
                && if crate::backend::operators::is_product(
                muldiv_expr.operator,
                literal_of(*muldiv_expr.left)->0,
                literal_of(*muldiv_expr.right)->0,
            ) {
                r matches Ok(v) && v is Num
            } else {
                r matches Err(e) && e@ is TypeError
            },
            reads_only(*muldiv_expr.left) && old(self).read_value(*muldiv_expr.left) is None
                ==> r is Err
                && *final(self) == *old(self) && final(io).written() == old(io).written(),
        decreases old(self).steps_left, 1int, muldiv_expr, 0int,
    {
        let (line, file_name) = muldiv_expr.left.meta();
        let left_expr_val = self.interpret_expr(stmts, io, pf, &muldiv_expr.left)?;
        let ghost middle = *self;
        let right_expr_val = self.interpret_expr(stmts, io, pf, &muldiv_expr.right)?;
        proof {
            self.lemma_advances_twice(&middle, old(self));
        }
        apply_muldiv(&muldiv_expr.operator, &left_expr_val, &right_expr_val, pf, line, &file_name)
    }

    /// Calls a built-in function: evaluates the arguments from left to
    /// right, then hands them to the function of that name. What the
    /// function reports becomes a runtime error at the current statement.
    #[verifier::loop_isolation(false)]
    fn call_built_in_function<T: IO, P: Platform>(
        &mut self,
        stmts: &Vec<Stmt>,
        io: &mut T,
        pf: &mut P,
        f: &FunctionCall,
        func_token: &Token,
    ) -> (r: Result<DataType, PakhiErr>)
        requires
            old(self).wf(),
            crate::backend::built_ins::built_in_names().contains(func_token.lexeme@),
        ensures
            final(self).evaluated(old(self), r),
            all_plain(f.arguments@) ==> final(self).plain_built_in_call(
                old(self),
                stmts@,
                func_token.lexeme@,
                f.arguments@,
                r,
            ),
            all_plain(f.arguments@) ==> final(io).written() == old(io).written(),
        decreases old(self).steps_left, 1int, f, 0int,
    {
        let mut evaluated_arguments: Vec<DataType> = Vec::new();
        let mut i: usize = 0;
        while i < f.arguments.len()
            invariant
                i <= f.arguments@.len(),
                evaluated_arguments@.len() == i,
                self.advances(old(self)),
                self.settled(old(self)),
                all_live(&self.heap, evaluated_arguments@),
                all_plain(f.arguments@) ==> io.written() == old(io).written(),
                all_plain(f.arguments@) ==> *self == *old(self) && forall|k: int|
                    0 <= k < i ==> plain_value(old(self).envs@, #[trigger] f.arguments@[k])
                        == Some(evaluated_arguments@[k]@),
            decreases f.arguments.len() - i,
        {
            let ghost middle = *self;
            proof {
                assert(decreases_to!(f => f.arguments));
                assert(decreases_to!(f.arguments => f.arguments[i as int]));
            }
            proof {
                if all_plain(f.arguments@) {
                    assert(is_plain(f.arguments@[i as int]));
                }
            }
            let e_a = self.interpret_expr(stmts, io, pf, &f.arguments[i])?;
            proof {
                self.lemma_advances_twice(&middle, old(self));
                lemma_all_live_extends(&middle.heap, &self.heap, evaluated_arguments@);
            }
            evaluated_arguments.push(e_a);
            i += 1;
        }
        let ghost middle = *self;
        let ghost arguments = evaluated_arguments@;
        let name = self.built_in_functions.get_name(&func_token.lexeme);
        let outcome = self.built_in_outcome(name.as_str(), evaluated_arguments, pf);
        let ghost given = outcome;
        proof {
            assert(self.heap.extends(&old(self).heap));
        }
        let r = match outcome {
            Ok(result_data) => Ok(result_data),
            Err(BuiltInError::WrongKind(err)) => Err(self.type_error_here(stmts, err.as_str())),
            Err(BuiltInError::Failed(err)) => Err(self.runtime_error_here(stmts, err.as_str())),
        };
        proof {
            if all_plain(f.arguments@) {
                assert(all_bound(old(self).envs@, f.arguments@));
                assert(crate::backend::heap::list_values(arguments) =~= plain_values(old(self).envs@, f.arguments@));
                assert(self.raised(stmts@, given, r));
                assert(self.built_in_called(
                    old(self),
                    stmts@,
                    func_token.lexeme@,
                    arguments,
                    given,
                    r,
                ));
            }
        }
        r
    }

    /// What the built-in function of the given name makes of the evaluated
    /// arguments: its value, or its error.
    pub fn built_in_outcome<P: Platform>(
        &mut self,
        name: &str,
        evaluated_arguments: Vec<DataType>,
        pf: &mut P,
    ) -> (r: Result<DataType, BuiltInError>)
        requires
            old(self).wf(),
            all_live(&old(self).heap, evaluated_arguments@),
        ensures
            final(self).wf(),
            final(self).heap.extends(&old(self).heap),
            final(self).only_heap_changed(old(self)),
            r matches Ok(v) ==> final(self).heap.live(v@),
            !crate::backend::built_ins::built_in_names().contains(name@) ==> r is Err
                && final(self).heap == old(self).heap,
            built_in_stated(name@, evaluated_arguments@, &old(self).heap, &final(self).heap, r),
    {
        proof {
            reveal_strlit("_স্ট্রিং");
            reveal_strlit("_সংখ্যা");
            reveal_strlit("_লিস্ট-পুশ");
            reveal_strlit("_লিস্ট-পপ");
            reveal_strlit("_লিস্ট-লেন");
            reveal_strlit("_রিড-লাইন");
            reveal_strlit("_এরর");
            reveal_strlit("_স্ট্রিং-স্প্লিট");
            reveal_strlit("_স্ট্রিং-জয়েন");
            reveal_strlit("_টাইপ");
            reveal_strlit("_রিড-ফাইল");
            reveal_strlit("_রাইট-ফাইল");
            reveal_strlit("_ডিলিট-ফাইল");
            reveal_strlit("_নতুন-ডাইরেক্টরি");
            reveal_strlit("_রিড-ডাইরেক্টরি");
            reveal_strlit("_ডিলিট-ডাইরেক্টরি");
            reveal_strlit("_ফাইল-নাকি-ডাইরেক্টরি");
            assert("_স্ট্রিং"@.len() == 8);
            assert("_সংখ্যা"@.len() == 7);
            assert("_লিস্ট-পুশ"@.len() == 10);
            assert("_লিস্ট-পপ"@.len() == 9);
            assert("_লিস্ট-লেন"@.len() == 10);
            assert("_রিড-লাইন"@.len() == 9);
            assert("_এরর"@.len() == 4);
            assert("_স্ট্রিং-স্প্লিট"@.len() == 16);
            assert("_স্ট্রিং-জয়েন"@.len() == 13);
            assert("_টাইপ"@.len() == 5);
            assert("_রিড-ফাইল"@.len() == 9);
            assert("_রাইট-ফাইল"@.len() == 10);
            assert("_ডিলিট-ফাইল"@.len() == 11);
            assert("_নতুন-ডাইরেক্টরি"@.len() == 16);
            assert("_রিড-ডাইরেক্টরি"@.len() == 15);
            assert("_ডিলিট-ডাইরেক্টরি"@.len() == 17);
            assert("_ফাইল-নাকি-ডাইরেক্টরি"@.len() == 21);
            assert("_লিস্ট-পুশ"@[7] != "_লিস্ট-লেন"@[7]);
            assert("_লিস্ট-পুশ"@[1] != "_রাইট-ফাইল"@[1]);
            assert("_লিস্ট-পপ"@[1] != "_রিড-লাইন"@[1]);
            assert("_লিস্ট-পপ"@[1] != "_রিড-ফাইল"@[1]);
            assert("_লিস্ট-লেন"@[1] != "_রাইট-ফাইল"@[1]);
            assert("_রিড-লাইন"@[5] != "_রিড-ফাইল"@[5]);
            assert("_স্ট্রিং-স্প্লিট"@[1] != "_নতুন-ডাইরেক্টরি"@[1]);
        }
        let ghost middle = *self;
        let outcome: Result<DataType, BuiltInError> = if str_eq(name, "_স্ট্রিং") {
            BuiltInFunctionList::_to_string(evaluated_arguments, pf)
        } else if str_eq(name, "_সংখ্যা") {
            BuiltInFunctionList::_to_num(evaluated_arguments, pf)
        } else if str_eq(name, "_লিস্ট-পুশ") {
            BuiltInFunctionList::_list_push(evaluated_arguments, &mut self.heap)
        } else if str_eq(name, "_লিস্ট-পপ") {
            BuiltInFunctionList::_list_pop(evaluated_arguments, &mut self.heap)
        } else if str_eq(name, "_লিস্ট-লেন") {
            BuiltInFunctionList::_list_len(evaluated_arguments, &self.heap)
        } else if str_eq(name, "_রিড-লাইন") {
            BuiltInFunctionList::_read_line(evaluated_arguments, pf)
        } else if str_eq(name, "_এরর") {
            match BuiltInFunctionList::_error(evaluated_arguments) {
                Ok(error) => Err(BuiltInError::Failed(error)),
                Err(error) => Err(error),
            }
        } else if str_eq(name, "_স্ট্রিং-স্প্লিট") {
            BuiltInFunctionList::_string_split(evaluated_arguments, &mut self.heap)
        } else if str_eq(name, "_স্ট্রিং-জয়েন") {
            BuiltInFunctionList::_string_join(evaluated_arguments, &self.heap)
        } else if str_eq(name, "_টাইপ") {
            BuiltInFunctionList::_type(evaluated_arguments)
        } else if str_eq(name, "_রিড-ফাইল") {
            BuiltInFunctionList::_read_file(evaluated_arguments, pf)
        } else if str_eq(name, "_রাইট-ফাইল") {
            BuiltInFunctionList::_write_file(evaluated_arguments, pf)
        } else if str_eq(name, "_ডিলিট-ফাইল") {
            BuiltInFunctionList::_delete_file(evaluated_arguments, pf)
        } else if str_eq(name, "_নতুন-ডাইরেক্টরি") {
            BuiltInFunctionList::_create_dir(evaluated_arguments, pf)
        } else if str_eq(name, "_রিড-ডাইরেক্টরি") {
            match BuiltInFunctionList::_read_dir(evaluated_arguments, pf) {
                Ok(all_file_names_in_dir) => Ok(self.list_of_strings(all_file_names_in_dir)),
                Err(err) => Err(err),
            }
        } else if str_eq(name, "_ডিলিট-ডাইরেক্টরি") {
            BuiltInFunctionList::_delete_dir(evaluated_arguments, pf)
        } else if str_eq(name, "_ফাইল-নাকি-ডাইরেক্টরি") {
            BuiltInFunctionList::_file_or_dir(evaluated_arguments, pf)
        } else {
            let mut message = prefixed("Built-in function: ", &String::from_str(name));
            message.append(" not defined");
            Err(BuiltInError::Failed(message))
        };
        proof {
            lemma_scopes_live_extends(self.envs@, &middle.heap, &self.heap);
        }
        outcome
    }

    /// Puts a new list of the given strings on the heap.
    pub fn list_of_strings(&mut self, names: Vec<String>) -> (r: DataType)
        requires
            old(self).wf(),
        ensures
            final(self).wf(),
            final(self).heap.extends(&old(self).heap),
            final(self).only_heap_changed(old(self)),
            final(self).heap.live(r@),
            r@ == Value::List(old(self).heap.next_list_index() as usize),
            crate::backend::heap::list_values(
                final(self).heap.lists@[old(self).heap.next_list_index()]@,
            ) == Seq::new(names@.len(), |k: int| Value::String(names@[k]@)),
    {
        let mut all_file_names: Vec<DataType> = Vec::new();
        let mut k: usize = 0;
        while k < names.len()
            invariant
                k <= names@.len(),
                all_file_names@.len() == k,
                forall|w: int| 0 <= w < k ==> (#[trigger] all_file_names@[w])@ == Value::String(
                    names@[w]@,
                ),
            decreases names.len() - k,
        {
            all_file_names.push(DataType::String(names[k].clone()));
            k += 1;
        }
        let r = self.heap.create_new_list_datatype(all_file_names);
        proof {
            lemma_scopes_live_extends(self.envs@, &old(self).heap, &self.heap);
            assert(crate::backend::heap::list_values(
                self.heap.lists@[old(self).heap.next_list_index()]@,
            ) =~= Seq::new(names@.len(), |k: int| Value::String(names@[k]@)));
        }
        r
    }

    /// What holds after a list of the values `values` was made in
    /// `before`: `r` is the handle of a new list that holds them, and only
    /// new lists were made.
    pub open spec fn made_list(
        &self,
        before: &Machine,
        values: Seq<Value>,
        r: Result<DataType, PakhiErr>,
    ) -> bool {
        &&& self.only_allocated(before)
        &&& r matches Ok(v) && v@ is List && v@->List_0 == before.heap.next_list_index()
        &&& before.heap.next_list_index() < self.heap.lists@.len()
        &&& crate::backend::heap::list_values(self.heap.lists@[before.heap.next_list_index()]@)
            == values
        &&& self.heap@ == before.heap@.with_list(values)
    }

    /// The value of an expression that only reads, or `None` where it has
    /// none: a variable is bound to no value, or a container lacks the
    /// element or cannot be indexed so.
    pub open spec fn read_value(&self, e: Expr) -> Option<Value>
        decreases e,
    {
        match e {
            Expr::Indexing(container, index, _, _) => match (
                self.read_value(*container),
                self.read_value(*index),
            ) {
                (Some(c), Some(i)) => match self.indexed(c, i) {
                    Ok(v) => Some(v),
                    Err(_) => None,
                },
                _ => None,
            },
            _ => plain_value(self.envs@, e),
        }
    }

    /// What holds after an expression that only reads was evaluated in
    /// `before`: nothing has changed, and `r` is its value, or an error
    /// where it has none.
    pub open spec fn has_read_only(
        &self,
        before: &Machine,
        e: Expr,
        r: Result<DataType, PakhiErr>,
    ) -> bool {
        *self == *before && match before.read_value(e) {
            Some(v) => r matches Ok(d) && d@ == v,
            None => r is Err,
        }
    }

    /// What holds after a record with the keys `keys` and the values
    /// `values` was made in `before`: `r` is the handle of a new record
    /// that has exactly those keys, each with the value written last for
    /// it, and nothing else has changed but the heap, whose lists are as
    /// they were.
    pub open spec fn made_record(
        &self,
        before: &Machine,
        keys: Seq<Seq<char>>,
        values: Seq<Value>,
        r: Result<DataType, PakhiErr>,
    ) -> bool {
        let slot = before.heap.next_record_index();
        &&& self.only_heap_changed(before)
        &&& self.heap.lists == before.heap.lists
        &&& self.heap.free_lists == before.heap.free_lists
        &&& r matches Ok(v) && v@ is NamelessRecord && v@->NamelessRecord_0 == slot
        &&& slot < self.heap.nameless_records@.len()
        &&& forall|name: Seq<char>|
            #[trigger] self.heap.nameless_records@[slot].has(name) == (last_parameter(keys, name)
                >= 0)
        &&& forall|name: Seq<char>|
            #[trigger] self.heap.nameless_records@[slot].has(name)
                ==> self.heap.nameless_records@[slot].value_of(name)@ == values[last_parameter(
                keys,
                name,
            )]
        &&& self.heap@ == before.heap@.with_record(
            built_keys(keys, keys.len() as int),
            built_values(keys, values, keys.len() as int),
        )
    }

    /// Only new lists were made since `before`: everything but the heap is
    /// as it was, and the heap keeps what was in use.
    pub open spec fn only_allocated(&self, before: &Machine) -> bool {
        self.only_heap_changed(before) && self.heap.keeps(&before.heap)
    }

    /// What the variable `name` holds in the scope `at`, if it is bound to
    /// a value there.
    pub open spec fn held(&self, name: Seq<char>, at: int) -> Option<Value> {
        if self.envs@[at].has(name) && self.envs@[at].value_of(name) is Some {
            Some(self.envs@[at].value_of(name)->0@)
        } else {
            None
        }
    }

    /// What an assignment to an element does once its indexes are known,
    /// in the state `middle` in which they are: `value` is stored in the
    /// container that all indexes but the last lead to from `container`,
    /// at the last index, and nothing else changes; where `container` is
    /// no list and no record, an index cannot be followed, or nothing can
    /// be stored at the last, the assignment fails and changes nothing.
    pub open spec fn element_stored(
        &self,
        middle: &Machine,
        stmts: Seq<Stmt>,
        container: Option<Value>,
        indexes: Seq<IndexView>,
        value: DataType,
        r: Result<(), PakhiErr>,
    ) -> bool {
        &&& self.envs == middle.envs
        &&& self.return_addrs == middle.return_addrs
        &&& self.steps_left == middle.steps_left
        &&& if container is Some && (container->0 is List || container->0 is NamelessRecord) {
            match middle.heap.walk(container->0, indexes.drop_last()) {
                Ok(target) => match middle.heap.store_fault(target, indexes.last()) {
                    None => r is Ok && self.heap.stored(
                        &middle.heap,
                        target,
                        indexes.last(),
                        value,
                    ),
                    Some(f) => (r matches Err(e) && e@ == middle.fault_view(stmts, f))
                        && self.heap == middle.heap,
                },
                Err(f) => (r matches Err(e) && e@ == middle.fault_view(stmts, f)) && self.heap
                    == middle.heap,
            }
        } else {
            (r matches Err(e) && e@ == middle.type_view(
                stmts,
                "Datatype doesn't support index assignment"@,
            )) && self.heap == middle.heap
        }
    }

    /// Whether a value can be stored in the variable `name` of the scope
    /// `at` under `indexes`: the variable holds a list or a record, all
    /// indexes but the last can be followed from it, and the container
    /// they lead to takes a value at the last.
    pub open spec fn can_store(&self, name: Seq<char>, at: int, indexes: Seq<IndexView>) -> bool {
        match self.held(name, at) {
            Some(container) => (container is List || container is NamelessRecord)
                && match self.heap.walk(container, indexes.drop_last()) {
                Ok(target) => self.heap.store_fault(target, indexes.last()) is None,
                Err(_) => false,
            },
            None => false,
        }
    }

    /// What an assignment to an element does where every index is written
    /// in brackets around literals and bound variables: the brackets make
    /// new lists, which leads to a state `middle`, and from there the value
    /// is stored.
    pub open spec fn element_assigned(
        &self,
        before: &Machine,
        middle: &Machine,
        stmts: Seq<Stmt>,
        name: Seq<char>,
        at: int,
        indexes: Seq<IndexView>,
        value: DataType,
        r: Result<(), PakhiErr>,
    ) -> bool {
        middle.only_allocated(before) && self.element_stored(
            middle,
            stmts,
            middle.held(name, at),
            indexes,
            value,
            r,
        )
    }

    /// What a call makes of the outcome of a built-in function: its value,
    /// or a type error or a runtime error at the current statement with
    /// the function's message.
    pub open spec fn raised(
        &self,
        stmts: Seq<Stmt>,
        outcome: Result<DataType, BuiltInError>,
        r: Result<DataType, PakhiErr>,
    ) -> bool {
        match outcome {
            Ok(v) => r matches Ok(d) && d == v,
            Err(e) => r matches Err(x) && x@ == if self.current >= stmts.len() {
                PakhiErrView::UnexpectedError(off_end_message())
            } else {
                match e@ {
                    crate::backend::built_ins::BuiltInErrorView::WrongKind(m) => PakhiErrView::TypeError(
                        stmts[self.current as int].line(),
                        stmts[self.current as int].file(),
                        m,
                    ),
                    crate::backend::built_ins::BuiltInErrorView::Failed(m) => PakhiErrView::RuntimeError(
                        stmts[self.current as int].line(),
                        stmts[self.current as int].file(),
                        m,
                    ),
                }
            },
        }
    }

    /// What holds after the built-in function `name` was called in
    /// `before` with the values `arguments`: `outcome` is what the function
    /// gave, `r` is what the call makes of it, and only the heap has
    /// changed.
    pub open spec fn built_in_called(
        &self,
        before: &Machine,
        stmts: Seq<Stmt>,
        name: Seq<char>,
        arguments: Seq<DataType>,
        outcome: Result<DataType, BuiltInError>,
        r: Result<DataType, PakhiErr>,
    ) -> bool {
        &&& self.only_heap_changed(before)
        &&& built_in_stated(name, arguments, &before.heap, &self.heap, outcome)
        &&& self.raised(stmts, outcome, r)
    }

    /// What a call of the built-in function `name` with the arguments
    /// `es` does where every argument is a literal or a variable: it fails
    /// and changes nothing where a variable is bound to no value, and else
    /// calls the function with the values of the arguments.
    pub open spec fn plain_built_in_call(
        &self,
        before: &Machine,
        stmts: Seq<Stmt>,
        name: Seq<char>,
        es: Seq<Expr>,
        r: Result<DataType, PakhiErr>,
    ) -> bool {
        if all_bound(before.envs@, es) {
            exists|arguments: Seq<DataType>, outcome: Result<DataType, BuiltInError>| #[trigger]
                self.built_in_called(before, stmts, name, arguments, outcome, r)
                    && crate::backend::heap::list_values(
                    arguments,
                ) == plain_values(before.envs@, es)
        } else {
            r is Err && *self == *before
        }
    }

    /// Everything but the heap is as in `before`.
    pub open spec fn only_heap_changed(&self, before: &Machine) -> bool {
        &&& self.current == before.current
        &&& self.envs == before.envs
        &&& self.loops == before.loops
        &&& self.return_addrs == before.return_addrs
        &&& self.previous_if_was_executed == before.previous_if_was_executed
        &&& self.steps_left == before.steps_left
        &&& self.built_in_functions == before.built_in_functions
    }

    /// Calls a function.
    ///
    /// A built-in name calls the built-in function. Any other name must be
    /// bound to a function: each parameter is bound to the value of its
    /// argument in a new scope, or to nil where the call has too few
    /// arguments; arguments beyond the parameters are not evaluated. The
    /// body runs until a `Return` statement is reached; its value is the
    /// value of the call. Then the position goes back to the caller and
    /// every scope made since the call began is removed, from whatever
    /// depth of blocks the function returned. Entering the body costs one
    /// step of the budget.
    #[verifier::loop_isolation(false)]
    fn interpret_func_call_expr<T: IO, P: Platform>(
        &mut self,
        stmts: &Vec<Stmt>,
        io: &mut T,
        pf: &mut P,
        f: &FunctionCall,
    ) -> (r: Result<DataType, PakhiErr>)
        requires
            old(self).wf(),
        ensures
            final(self).evaluated(old(self), r),
            variable_name(*f.expr) is None ==> r is Err && *final(self) == *old(self),
            variable_name(*f.expr) is None && old(self).current < stmts@.len() ==> r->Err_0@
                == PakhiErrView::RuntimeError(
                stmts@[old(self).current as int].line(),
                stmts@[old(self).current as int].file(),
                "Calling undefined function"@,
            ),
            variable_name(*f.expr) is Some && crate::backend::built_ins::built_in_names().contains(
                variable_name(*f.expr)->0,
            ) && all_plain(f.arguments@) ==> final(self).plain_built_in_call(
                old(self),
                stmts@,
                variable_name(*f.expr)->0,
                f.arguments@,
                r,
            ),
            variable_name(*f.expr) is Some && !crate::backend::built_ins::built_in_names().contains(
                variable_name(*f.expr)->0,
            ) && !(crate::backend::scope::lookup(
                old(self).envs@,
                variable_name(*f.expr)->0,
            ) matches Some(Some(v)) && v@ is Function) ==> r is Err && *final(self) == *old(self),
            old(self).call_entry(stmts@, *f) matches Some(entry) ==> forall|n: nat| #[trigger]
                returns_after(stmts@, entry, old(self).envs@.len() as int, n)
                    ==> final(self).has_returned(old(self), stmts@, entry, n, old(io).written(),
                        final(io).written(), r),
            variable_name(*f.expr) is Some && crate::backend::built_ins::built_in_names().contains(
                variable_name(*f.expr)->0,
            ) && all_plain(f.arguments@) ==> final(io).written() == old(io).written(),
        decreases old(self).steps_left, 1int, f, 1int,
    {
        let env_count_before_fn_call = self.envs.len();
        match &*f.expr {
            Expr::Primary(Primary::Var(func_token), _, _) => {
                if self.built_in_functions.is_built_in(&func_token.lexeme) {
                    return self.call_built_in_function(stmts, io, pf, f, func_token);
                }
                let func_value = self.interpret_var(stmts, func_token)?;
                if let DataType::Function(func) = func_value {
                    // Arguments beyond the parameters are not evaluated.
                    let mut values: Vec<DataType> = Vec::new();
                    let mut i: usize = 0;
                    let ghost plainly = old(self).call_entry(stmts@, *f) is Some;
                    let ghost taken = f.arguments@.subrange(
                        0,
                        if func.args@.len() <= f.arguments@.len() {
                            func.args@.len() as int
                        } else {
                            f.arguments@.len() as int
                        },
                    );
                    proof {
                        assert(crate::common::text::views(func.args@).len() == func.args@.len());
                    }
                    while i < func.args.len() && i < f.arguments.len()
                        invariant
                            i <= func.args@.len(),
                            i <= f.arguments@.len(),
                            values@.len() == i,
                            self.advances(old(self)),
                            self.settled(old(self)),
                            all_live(&self.heap, values@),
                            plainly ==> *self == *old(self) && io.written() == old(io).written()
                                && forall|k: int|
                                0 <= k < i ==> Some((#[trigger] values@[k])@) == plain_value(
                                    old(self).envs@,
                                    taken[k],
                                ),
                        decreases f.arguments.len() - i,
                    {
                        let ghost middle = *self;
                        proof {
                            assert(decreases_to!(f => f.arguments));
                            assert(decreases_to!(f.arguments => f.arguments[i as int]));
                            if plainly {
                                assert(taken[i as int] == f.arguments@[i as int]);
                                assert(is_plain(taken[i as int]));
                                assert(plain_value(old(self).envs@, taken[i as int]) is Some);
                            }
                        }
                        let arg = self.interpret_expr(stmts, io, pf, &f.arguments[i])?;
                        proof {
                            self.lemma_advances_twice(&middle, old(self));
                            lemma_all_live_extends(&middle.heap, &self.heap, values@);
                        }
                        values.push(arg);
                        i += 1;
                    }
                    let root_env = call_scope(&func.args, &values);
                    proof {
                        lemma_call_scope_live(root_env, values@, &self.heap);
                    }
                    self.spend_step()?;
                    self.enter_function(func.starting_statement, root_env);
                    proof {
                        if plainly {
                            let params = crate::common::text::views(func.args@);
                            let args = plain_values(old(self).envs@, taken);
                            assert(crate::backend::heap::list_values(values@) =~= args);
                            assert(scope_view(root_env) =~= call_bindings(params, args));
                            assert(scope_views(self.envs@) =~= scope_views(old(self).envs@).push(
                                call_bindings(params, args),
                            ));
                            assert(self.state() == old(self).call_entry(stmts@, *f)->0);
                        }
                    }
                } else {
                    let mut message = prefixed("Function '",
                        &string_from_chars(&func_token.lexeme));
                    message.append("' not Declared");
                    return Err(
                        PakhiErr::runtime(
                            func_token.line,
                            &func_token.src_file_path,
                            message.as_str(),
                        ),
                    );
                }
            },
            _ => {
                return Err(self.runtime_error_here(stmts, "Calling undefined function"));
            },
        }
        if self.current >= stmts.len() {
            return Err(PakhiErr::unexpected("Unexpected error, probably missing ';'"));
        }
        match &stmts[self.current] {
            Stmt::BlockStart(_, _) => {},
            _ => {
                return Err(PakhiErr::unexpected("Expected '{'"));
            },
        }
        let ghost entry = self.state();
        let ghost depth = old(self).envs@.len() as int;
        let ghost known = old(self).call_entry(stmts@, *f) is Some;
        let ghost done: nat = 0;
        proof {
            if known {
                assert(entry == old(self).call_entry(stmts@, *f)->0);
                assert forall|n: nat| #[trigger] returns_after(stmts@, entry, depth,
                    n) implies old(io).written() + log(stmts@, entry, n) == io.written() + log(
                    stmts@,
                    self.state(),
                    n,
                ) by {}
            }
        }
        loop
            invariant
                self.advances(old(self)),
                self.steps_left < old(self).steps_left,
                self.return_addrs@ == old(self).return_addrs@.push(old(self).current),
                env_count_before_fn_call == old(self).envs@.len(),
                depth == old(self).envs@.len(),
                known == (old(self).call_entry(stmts@, *f) is Some),
                known ==> entry == old(self).call_entry(stmts@, *f)->0,
                known ==> forall|n: nat| #[trigger]
                    returns_after(stmts@, entry, depth, n) ==> done <= n && after(
                        stmts@,
                        self.state(),
                        (n - done) as nat,
                    ) == after(stmts@, entry, n) && old(io).written() + log(stmts@, entry, n)
                        == io.written() + log(stmts@, self.state(), (n - done) as nat),
            decreases self.steps_left,
        {
            if self.current >= stmts.len() {
                return Err(PakhiErr::unexpected("Unexpected error, probably missing ';'"));
            }
            let ghost middle = *self;
            let ghost was = io.written();
            if let Stmt::Return(expr, _, _) = &stmts[self.current] {
                proof {
                    lemma_plain_in(self.envs@, *expr);
                }
                let return_val = self.interpret_expr(stmts, io, pf, expr);
                proof {
                    self.lemma_advances_twice(&middle, old(self));
                }
                let ghost at_return = *self;
                self.leave_function(stmts, env_count_before_fn_call)?;
                proof {
                    if return_val is Ok {
                        assert(self.return_addrs@ =~= old(self).return_addrs@);
                    }
                    if known {
                        assert forall|n: nat| #[trigger]
                            returns_after(stmts@, entry, depth, n) implies self.has_returned(
                            old(self),
                            stmts@,
                            entry,
                            n,
                            old(io).written(),
                            io.written(),
                            return_val,
                        ) by {
                            assert(next(stmts@, middle.state()) is None);
                            assert(n == done);
                            assert(after(stmts@, entry, n) == Some(middle.state()));
                            assert(at_return == middle);
                            assert(log(stmts@, middle.state(), 0) =~= Seq::<Piece>::empty());
                            assert(io.written() =~= io.written() + Seq::<Piece>::empty());
                            assert(scope_views(self.envs@) =~= middle.state().scopes.subrange(
                                0,
                                depth,
                            ));
                            assert(self.return_addrs@ =~= old(self).return_addrs@);
                        }
                    }
                }
                return return_val;
            } else {
                proof {
                    if known {
                        assert forall|n: nat| #[trigger]
                            returns_after(stmts@, entry, depth, n) implies next(
                            stmts@,
                            middle.state(),
                        ) is Some && done < n by {
                            if n == done {
                                assert(after(stmts@, middle.state(), 0) == Some(middle.state()));
                            }
                        }
                    }
                }
                let step = self.interpret(stmts, io, pf);
                if let Err(e) = step {
                    return Err(e);
                }
                proof {
                    self.lemma_advances_twice(&middle, old(self));
                    if known {
                        assert forall|n: nat| #[trigger]
                            returns_after(stmts@, entry, depth, n) implies done + 1 <= n && after(
                            stmts@,
                            self.state(),
                            (n - (done + 1)) as nat,
                        ) == after(stmts@, entry, n) && old(io).written() + log(stmts@, entry, n)
                            == io.written() + log(
                            stmts@,
                            self.state(),
                            (n - (done + 1)) as nat,
                        ) by {
                            let rest = (n - done) as nat;
                            let wrote = match next_written(stmts@, middle.state()) {
                                Some(pieces) => pieces,
                                None => Seq::empty(),
                            };
                            assert(next(stmts@, middle.state()) == Some(self.state()));
                            assert(after(stmts@, middle.state(), rest) == after(
                                stmts@,
                                self.state(),
                                (rest - 1) as nat,
                            ));
                            assert(log(stmts@, middle.state(), rest) == wrote + log(
                                stmts@,
                                self.state(),
                                (rest - 1) as nat,
                            ));
                            assert(io.written() == was + wrote);
                            assert(was + (wrote + log(stmts@, self.state(), (rest - 1) as nat))
                                =~= (was + wrote) + log(stmts@, self.state(), (rest - 1) as nat));
                        }
                        done = done + 1;
                    }
                }
            }
        }
    }
}

/// A session of the interpreter: the statements of a program, the state of
/// its run, and the collaborators it writes to and asks.
pub struct Interpreter<'a, T: IO, P: Platform> {
    statements: Vec<Stmt>,
    machine: Machine,
    io: &'a mut T,
    platform: &'a mut P,
}

impl<'a, T: IO, P: Platform> Interpreter<'a, T, P> {
    /// The invariant of the session's state.
    pub closed spec fn wf(&self) -> bool {
        self.machine.wf()
    }

    /// The statements of the program.
    pub closed spec fn program(&self) -> Seq<Stmt> {
        self.statements@
    }

    /// The position of the statement that is executed next.
    pub closed spec fn position(&self) -> int {
        self.machine.current as int
    }

    /// How many scopes there are.
    pub closed spec fn depth(&self) -> int {
        self.machine.envs@.len() as int
    }

    /// What was handed to the session's `IO` to be written.
    pub closed spec fn output(&self) -> Seq<Piece> {
        self.io.written()
    }

    /// The state of the run.
    pub closed spec fn machine(&self) -> Machine {
        self.machine
    }

    /// How many steps may still be taken.
    pub closed spec fn steps_left(&self) -> int {
        self.machine.steps_left as int
    }

    /// A session at the first statement, with the global scope alone and an
    /// empty heap.
    pub fn new(statements: Vec<Stmt>, io: &'a mut T, platform: &'a mut P) -> (r: Interpreter<
        'a,
        T,
        P,
    >)
        ensures
            r.wf(),
            r.program() == statements@,
            r.position() == 0,
            r.depth() == 1,
            r.steps_left() == u64::MAX,
            r.machine().fresh(),
            r.output() == old(io).written(),
    {
        Interpreter { statements, machine: Machine::new(), io, platform }
    }

    /// Limits the statements and nested containers that the run may still
    /// visit.
    pub fn set_step_budget(&mut self, steps: u64)
        requires
            old(self).wf(),
        ensures
            final(self).wf(),
            final(self).steps_left() == steps,
            final(self).program() == old(self).program(),
            final(self).position() == old(self).position(),
            final(self).depth() == old(self).depth(),
    {
        self.machine.steps_left = steps;
    }

    /// Runs the program from the current position to its end.
    ///
    /// After each statement, once a thousand elements and fields have been
    /// allocated since the last collection, the heap is collected. The run
    /// ends at the end-of-statements marker, or with the first error.
    pub fn run(&mut self) -> (r: Result<(), PakhiErr>)
        requires
            old(self).wf(),
        ensures
            final(self).wf(),
            final(self).program() == old(self).program(),
            final(self).steps_left() <= old(self).steps_left(),
            r is Ok ==> 0 <= final(self).position() < final(self).program().len()
                && final(self).program()[final(self).position()] is EOS,
            old(self).position() >= old(self).program().len() ==> r is Err,
            0 <= old(self).position() < old(self).program().len()
                && old(self).program()[old(self).position()] is EOS ==> r is Ok
                    && final(self).position() == old(self).position()
                && final(self).depth() == old(self).depth()
                    && final(self).steps_left() == old(self).steps_left(),
            old(self).steps_left() == 0 && 0 <= old(self).position() < old(self).program().len()
                && !(old(self).program()[old(self).position()] is EOS) ==> r is Err,
            forall|n: nat| #[trigger]
                ends_after(old(self).program(), old(self).machine().state(), n) ==> r is Ok
                    && Some(final(self).machine().state()) == after(
                    old(self).program(),
                    old(self).machine().state(),
                    n,
                ) && final(self).output() == old(self).output() + log(
                    old(self).program(),
                    old(self).machine().state(),
                    n,
                ),
            forall|n: nat, e: PakhiErrView| #[trigger]
                fails_after(old(self).program(), old(self).machine().state(), n, e) ==> (
                r matches Err(x) && x@ == e) && final(self).output() == old(self).output() + log(
                    old(self).program(),
                    old(self).machine().state(),
                    n,
                ),
    {
        run_machine(&mut self.machine, &self.statements, self.io, self.platform)
    }
}

/// The message with which a statement raises an error of the program: the
/// statement is a call of the built-in function that raises errors, with
/// one argument, a string that is a literal or the value of a variable.
pub open spec fn raised_message(scopes: Seq<Bindings>, e: Expr) -> Option<Seq<char>> {
    match e {
        Expr::Call(f, _, _) => if variable_name(*f.expr) == Some("_এরর"@)
            && crate::backend::built_ins::built_in_names().contains("_এরর"@) && f.arguments@.len()
            == 1 {
            match plain_in(scopes, f.arguments@[0]) {
                Some(Value::String(m)) => Some(m),
                _ => None,
            }
        } else {
            None
        },
        _ => None,
    }
}

/// The error with which the next step fails, where it fails whatever the
/// platform does: no step is left, the position is behind the last
/// statement, or the statement raises an error of the program.
pub open spec fn next_error(stmts: Seq<Stmt>, s: State) -> Option<PakhiErrView> {
    if s.steps_left == 0 {
        Some(PakhiErrView::UnexpectedError(budget_message()))
    } else if s.current >= stmts.len() {
        Some(PakhiErrView::UnexpectedError(off_end_message()))
    } else {
        match stmts[s.current as int] {
            Stmt::Expression(e, _, _) => match raised_message(s.scopes, e) {
                Some(m) => Some(
                    PakhiErrView::RuntimeError(
                        stmts[s.current as int].line(),
                        stmts[s.current as int].file(),
                        m,
                    ),
                ),
                None => None,
            },
            _ => None,
        }
    }
}

/// The error with which a run ends in the state `s`, where it does
/// whatever the platform does.
pub open spec fn run_error(stmts: Seq<Stmt>, s: State) -> Option<PakhiErrView> {
    if s.current >= stmts.len() {
        Some(PakhiErrView::UnexpectedError(off_end_message()))
    } else if stmts[s.current as int] is EOS {
        None
    } else {
        next_error(stmts, s)
    }
}

/// Whether `n` steps from `s`, each of them one that [`next`] knows, lead
/// to a state in which the run ends with the error `e`.
pub open spec fn fails_after(stmts: Seq<Stmt>, s: State, n: nat, e: PakhiErrView) -> bool {
    after(stmts, s, n) matches Some(end) && run_error(stmts, end) == Some(e)
}

/// What the scope of a call binds: each parameter to its argument, or to
/// nil where the call has too few. Where two parameters share a name, the
/// later one counts.
pub open spec fn call_bindings(params: Seq<Seq<char>>, args: Seq<Value>) -> Bindings {
    Map::new(
        |k: Seq<char>| last_parameter(params, k) >= 0,
        |k: Seq<char>|
            if 0 <= last_parameter(params, k) < args.len() {
                Some(args[last_parameter(params, k)])
            } else {
                Some(Value::Nil)
            },
    )
}

/// The state in which the body of a function starts that is called in
/// `s`: the scope of the call is pushed, the position of the caller is
/// kept, the position is the start of the body, and a step is spent.
pub open spec fn entered(s: State, start: usize, bindings: Bindings) -> State {
    State {
        current: start,
        scopes: s.scopes.push(bindings),
        return_addrs: s.return_addrs.push(s.current),
        steps_left: (s.steps_left - 1) as u64,
        ..s
    }
}

/// Whether `n` steps from `entry`, each of them one that [`next`] knows,
/// lead to a `Return` statement whose value is that of a literal or a
/// variable, with the `depth` scopes of the caller still there.
pub open spec fn returns_after(stmts: Seq<Stmt>, entry: State, depth: int, n: nat) -> bool {
    after(stmts, entry, n) matches Some(at) && at.current < stmts.len()
        && stmts[at.current as int] is Return && plain_in(
        at.scopes,
        stmts[at.current as int]->Return_0,
    ) is Some && depth <= at.scopes.len()
}

/// The state that a call leaves which returns in the state `at`: the
/// position and the return addresses are the caller's again, the scopes
/// above the caller's `depth` scopes are gone, and everything else is as
/// the body left it.
pub open spec fn left(caller: State, at: State, depth: int) -> State {
    State {
        current: caller.current,
        scopes: at.scopes.subrange(0, depth),
        return_addrs: caller.return_addrs,
        ..at
    }
}

/// Whether `n` steps from `s`, each of them one that [`next`] knows, lead
/// to the end-of-statements marker.
pub open spec fn ends_after(stmts: Seq<Stmt>, s: State, n: nat) -> bool {
    after(stmts, s, n) matches Some(end) && end.current < stmts.len()
        && stmts[end.current as int] is EOS
}

/// Runs the statements on the machine until the end-of-statements marker is
/// the current statement.
///
/// Where steps that [`next`] knows lead from the machine's state to the
/// marker, the run succeeds, ends in the state they lead to, and has
/// written what they write.
pub fn run_machine<T: IO, P: Platform>(
    machine: &mut Machine,
    stmts: &Vec<Stmt>,
    io: &mut T,
    pf: &mut P,
) -> (r: Result<(), PakhiErr>)
    requires
        old(machine).wf(),
    ensures
        final(machine).wf(),
        final(machine).steps_left <= old(machine).steps_left,
        r is Ok ==> final(machine).current < stmts@.len()
            && stmts@[final(machine).current as int] is EOS,
        old(machine).current >= stmts@.len() ==> r is Err,
        old(machine).current < stmts@.len() && stmts@[old(machine).current as int] is EOS ==> r
            is Ok && *final(machine) == *old(machine),
        old(machine).steps_left == 0 && old(machine).current < stmts@.len() && !(
        stmts@[old(machine).current as int] is EOS) ==> r is Err,
        forall|n: nat| #[trigger]
            ends_after(stmts@, old(machine).state(), n) ==> r is Ok && Some(final(machine).state())
                == after(stmts@, old(machine).state(), n)
                    && final(io).written() == old(io).written() + log(stmts@, old(machine).state(),
                        n),
        forall|n: nat, e: PakhiErrView| #[trigger]
            fails_after(stmts@, old(machine).state(), n, e) ==> (r matches Err(x) && x@ == e)
                && final(io).written() == old(io).written() + log(
                stmts@,
                old(machine).state(),
                n,
            ),
{
    let ghost start = machine.state();
    let ghost done: nat = 0;
    proof {
        assert forall|n: nat| #[trigger] ends_after(stmts@, start, n) implies old(io).written()
            + log(stmts@, start, n) == io.written() + log(stmts@, machine.state(), n) by {}
        assert forall|n: nat, e: PakhiErrView| #[trigger]
            fails_after(stmts@, start, n, e) implies old(io).written() + log(stmts@, start, n)
            == io.written() + log(stmts@, machine.state(), n) by {}
    }
    loop
        invariant
            machine.wf(),
            machine.steps_left <= old(machine).steps_left,
            old(machine).current >= stmts@.len() ==> *machine == *old(machine),
            old(machine).steps_left == 0 ==> *machine == *old(machine),
            old(machine).current < stmts@.len() && stmts@[old(machine).current as int] is EOS
                ==> *machine == *old(machine),
            start == old(machine).state(),
            forall|n: nat| #[trigger]
                ends_after(stmts@, start, n) ==> done <= n && after(
                    stmts@,
                    machine.state(),
                    (n - done) as nat,
                ) == after(stmts@, start, n) && old(io).written() + log(stmts@, start, n)
                    == io.written() + log(stmts@, machine.state(), (n - done) as nat),
            forall|n: nat, e: PakhiErrView| #[trigger]
                fails_after(stmts@, start, n, e) ==> done <= n && after(
                    stmts@,
                    machine.state(),
                    (n - done) as nat,
                ) == after(stmts@, start, n) && old(io).written() + log(stmts@, start, n)
                    == io.written() + log(stmts@, machine.state(), (n - done) as nat),
        decreases machine.steps_left,
    {
        if machine.current >= stmts.len() {
            proof {
                assert forall|n: nat, e: PakhiErrView| #[trigger]
                    fails_after(stmts@, start, n, e) implies e == PakhiErrView::UnexpectedError(
                    off_end_message(),
                ) && io.written() == old(io).written() + log(stmts@, start, n) by {
                    assert(next(stmts@, machine.state()) is None);
                    assert(n == done);
                    assert(log(stmts@, machine.state(), 0) =~= Seq::<Piece>::empty());
                    assert(io.written() =~= io.written() + Seq::<Piece>::empty());
                }
            }
            return Err(PakhiErr::unexpected("Unexpected error, probably missing ';'"));
        }
        if let Stmt::EOS(_, _) = &stmts[machine.current] {
            proof {
                assert forall|n: nat| #[trigger] ends_after(stmts@, start, n) implies Some(
                    machine.state(),
                ) == after(stmts@, start, n) && io.written() == old(io).written() + log(
                    stmts@,
                    start,
                    n,
                ) by {
                    assert(next(stmts@, machine.state()) is None);
                    assert(n == done);
                    assert(log(stmts@, machine.state(), 0) =~= Seq::<Piece>::empty());
                    assert(io.written() =~= io.written() + Seq::<Piece>::empty());
                }
                assert forall|n: nat, e: PakhiErrView| #[trigger]
                    fails_after(stmts@, start, n, e) implies false by {
                    assert(next(stmts@, machine.state()) is None);
                    assert(n == done);
                }
            }
            return Ok(());
        }
        let ghost before = *machine;
        let ghost was = io.written();
        proof {
            assert forall|n: nat| #[trigger] ends_after(stmts@, start, n) implies next(
                stmts@,
                before.state(),
            ) is Some && done < n by {
                if n == done {
                    assert(after(stmts@, before.state(), 0) == Some(before.state()));
                }
            }
        }
        proof {
            assert forall|n: nat, e: PakhiErrView| #[trigger]
                fails_after(stmts@, start, n, e) implies (n == done && next_error(
                stmts@,
                before.state(),
            ) == Some(e)) || (done < n && next(stmts@, before.state()) is Some) by {
                if n == done {
                    assert(after(stmts@, before.state(), 0) == Some(before.state()));
                }
            }
        }
        let step = machine.interpret(stmts, io, pf);
        if let Err(e) = step {
            proof {
                assert forall|n: nat, x: PakhiErrView| #[trigger]
                    fails_after(stmts@, start, n, x) implies e@ == x
                        && io.written() == old(io).written() + log(stmts@, start, n) by {
                    assert(n == done);
                    assert(log(stmts@, before.state(), 0) =~= Seq::<Piece>::empty());
                    assert(io.written() =~= io.written() + Seq::<Piece>::empty());
                }
            }
            return Err(e);
        }
        machine.collect_if_due();
        proof {
            assert forall|n: nat| #[trigger] ends_after(stmts@, start, n) implies done + 1 <= n
                && after(stmts@, machine.state(), (n - (done + 1)) as nat) == after(
                stmts@,
                start,
                n,
            ) && old(io).written() + log(stmts@, start, n) == io.written() + log(
                stmts@,
                machine.state(),
                (n - (done + 1)) as nat,
            ) by {
                let left = (n - done) as nat;
                let wrote = match next_written(stmts@, before.state()) {
                    Some(pieces) => pieces,
                    None => Seq::empty(),
                };
                assert(next(stmts@, before.state()) == Some(machine.state()));
                assert(after(stmts@, before.state(), left) == after(
                    stmts@,
                    machine.state(),
                    (left - 1) as nat,
                ));
                assert(log(stmts@, before.state(), left) == wrote + log(
                    stmts@,
                    machine.state(),
                    (left - 1) as nat,
                ));
                assert(io.written() == was + wrote);
                assert(was + (wrote + log(stmts@, machine.state(), (left - 1) as nat)) =~= (was
                    + wrote) + log(stmts@, machine.state(), (left - 1) as nat));
            }
            assert forall|n: nat, e: PakhiErrView| #[trigger]
                fails_after(stmts@, start, n, e) implies done + 1 <= n && after(
                stmts@,
                machine.state(),
                (n - (done + 1)) as nat,
            ) == after(stmts@, start, n) && old(io).written() + log(stmts@, start, n)
                == io.written() + log(stmts@, machine.state(), (n - (done + 1)) as nat) by {
                let left = (n - done) as nat;
                let wrote = match next_written(stmts@, before.state()) {
                    Some(pieces) => pieces,
                    None => Seq::empty(),
                };
                assert(next(stmts@, before.state()) == Some(machine.state()));
                assert(after(stmts@, before.state(), left) == after(
                    stmts@,
                    machine.state(),
                    (left - 1) as nat,
                ));
                assert(log(stmts@, before.state(), left) == wrote + log(
                    stmts@,
                    machine.state(),
                    (left - 1) as nat,
                ));
                assert(io.written() == was + wrote);
                assert(was + (wrote + log(stmts@, machine.state(), (left - 1) as nat)) =~= (was
                    + wrote) + log(stmts@, machine.state(), (left - 1) as nat));
            }
            done = done + 1;
        }
    }
}

/// Runs a program on new state.
pub fn run<T: IO, P: Platform>(ast: Vec<Stmt>, io: &mut T, platform: &mut P) -> (r: Result<
    (),
    PakhiErr,
>)
    ensures
        ast@.len() == 0 ==> r is Err,
        ast@.len() > 0 && ast@[0] is EOS ==> r is Ok,
        exists|machine: Machine| #[trigger]
            machine.fresh() && ran_from(ast@, machine, old(io).written(), final(io).written(), r),
{
    let mut machine = Machine::new();
    let ghost begun = machine;
    let r = run_machine(&mut machine, &ast, io, platform);
    proof {
        assert(begun.fresh() && ran_from(ast@, begun, old(io).written(), io.written(), r));
    }
    r
}

/// What a run from the state of `machine` owes: where steps that [`next`]
/// knows lead to the end-of-statements marker, it succeeds and has written
/// what they write; where they lead to a state in which the run ends with
/// an error, it fails with that error and has written what they write.
pub open spec fn ran_from(
    stmts: Seq<Stmt>,
    machine: Machine,
    was: Seq<Piece>,
    now: Seq<Piece>,
    r: Result<(), PakhiErr>,
) -> bool {
    &&& forall|n: nat| #[trigger]
        ends_after(stmts, machine.state(), n) ==> r is Ok && now == was + log(
            stmts,
            machine.state(),
            n,
        )
    &&& forall|n: nat, e: PakhiErrView| #[trigger]
        fails_after(stmts, machine.state(), n, e) ==> (r matches Err(x) && x@ == e) && now == was
            + log(stmts, machine.state(), n)
}

/// Break cleanup: when a loop is left by `Break`, whatever blocks the body
/// had entered, there are as many scopes as before the loop was entered,
/// and they are the scopes that were there at the `Break`.
pub proof fn lemma_break_restores_depth(
    stmts: Seq<Stmt>,
    before_loop: &Machine,
    entered: &Machine,
    at_break: &Machine,
    after: &Machine,
)
    requires
        entered.enters_loop(before_loop),
        at_break.loops@.len() > 0,
        at_break.loops@.last() == entered.loops@.last(),
        after.breaks(stmts, at_break),
    ensures
        after.envs@.len() == before_loop.envs@.len(),
        after.envs@ == at_break.envs@.subrange(0, before_loop.envs@.len() as int),
        after.loops@.len() + 1 == at_break.loops@.len(),
{
}

/// Continue cleanup: when the body of a loop starts again, there are as
/// many scopes as before the loop was entered, and the loop's frame stays.
pub proof fn lemma_continue_restores_depth(
    before_loop: &Machine,
    entered: &Machine,
    at_continue: &Machine,
    after: &Machine,
)
    requires
        entered.enters_loop(before_loop),
        at_continue.loops@.len() > 0,
        at_continue.loops@.last() == entered.loops@.last(),
        after.continues(at_continue),
    ensures
        after.envs@.len() == before_loop.envs@.len(),
        after.current == before_loop.current + 1,
        after.loops@ == at_continue.loops@,
{
}

/// Block scoping: a block that declares a name and ends leaves the scopes
/// as they were before it, so that every name is bound as it was.
pub proof fn lemma_block_restores_scopes(
    before: &Machine,
    entered: &Machine,
    declared: &Machine,
    after: &Machine,
    name: Seq<char>,
    value: Option<DataType>,
)
    requires
        entered.enters_block(before),
        declares(entered.envs@, declared.envs@, name, value),
        after.leaves_block(declared),
    ensures
        crate::backend::scope::lookup(declared.envs@, name) == Some(value),
        after.envs@ == before.envs@,
{
    crate::backend::scope::lemma_block_shadowing(
        before.envs@,
        entered.envs@,
        declared.envs@,
        name,
        value,
        name,
    );
}

/// Call discipline: a function that returns, from whatever depth of blocks,
/// to the caller that entered it leaves as many scopes as there were before
/// the call, the caller's scopes among them as they are at the return, and
/// the position and the return addresses of the caller.
pub proof fn lemma_return_restores_caller(
    before: &Machine,
    entered: &Machine,
    at_return: &Machine,
    after: &Machine,
    entry_point: usize,
    scope: Scope,
)
    requires
        before.envs@.len() >= 1,
        entered.called(before, entry_point, scope),
        at_return.return_addrs@ == entered.return_addrs@,
        before.envs@.len() <= at_return.envs@.len(),
        after.returned(at_return, before.envs.len()),
    ensures
        after.envs@.len() == before.envs@.len(),
        after.envs@ == at_return.envs@.subrange(0, before.envs@.len() as int),
        after.current == before.current,
        after.return_addrs@ == before.return_addrs@,
{
    assert(entered.return_addrs@.drop_last() =~= before.return_addrs@);
}

} // verus!
