//! Runtime values.

use vstd::prelude::*;
use crate::common::number::Num;
use crate::common::text::{clone_strings, views};

verus! {

/// A user function: where its body starts and the names of its parameters.
/// It captures no scope.
#[derive(Debug, PartialEq)]
pub struct Func {
    pub starting_statement: usize,
    pub args: Vec<String>,
}

/// A runtime value. Lists and records are handles into the heap: two values
/// with the same handle share one container.
#[derive(Debug, PartialEq)]
pub enum DataType {
    Num(Num),
    Bool(bool),
    String(String),
    List(usize),
    NamelessRecord(usize),
    Function(Func),
    Nil,
}

/// A container of the heap, by its arena and index.
pub enum Node {
    List(usize),
    Record(usize),
}

/// The mathematical content of a [`DataType`].
pub enum Value {
    Num(Num),
    Bool(bool),
    String(Seq<char>),
    List(usize),
    NamelessRecord(usize),
    Function(usize, Seq<Seq<char>>),
    Nil,
}

impl Value {
    /// The container that the value refers to, if it is a handle.
    pub open spec fn node(self) -> Option<Node> {
        match self {
            Value::List(i) => Some(Node::List(i)),
            Value::NamelessRecord(i) => Some(Node::Record(i)),
            _ => None,
        }
    }

    /// Equality of the language: numbers compare as numbers, handles by
    /// index, everything else by content; values of two kinds differ.
    pub open spec fn equals(self, other: Value) -> bool {
        match (self, other) {
            (Value::Num(a), Value::Num(b)) => a.num_eq(b),
            (Value::Bool(a), Value::Bool(b)) => a == b,
            (Value::String(a), Value::String(b)) => a == b,
            (Value::List(a), Value::List(b)) => a == b,
            (Value::NamelessRecord(a), Value::NamelessRecord(b)) => a == b,
            (Value::Function(a, p), Value::Function(b, q)) => a == b && p == q,
            (Value::Nil, Value::Nil) => true,
            _ => false,
        }
    }
}

impl View for Func {
    type V = (usize, Seq<Seq<char>>);

    open spec fn view(&self) -> (usize, Seq<Seq<char>>) {
        (self.starting_statement, views(self.args@))
    }
}

impl View for DataType {
    type V = Value;

    open spec fn view(&self) -> Value {
        match self {
            DataType::Num(n) => Value::Num(*n),
            DataType::Bool(b) => Value::Bool(*b),
            DataType::String(s) => Value::String(s@),
            DataType::List(i) => Value::List(*i),
            DataType::NamelessRecord(i) => Value::NamelessRecord(*i),
            DataType::Function(f) => Value::Function(f.starting_statement, views(f.args@)),
            DataType::Nil => Value::Nil,
        }
    }
}

impl Clone for Func {
    fn clone(&self) -> (r: Self)
        ensures
            r@ == self@,
    {
        Func { starting_statement: self.starting_statement, args: clone_strings(&self.args) }
    }
}

impl Clone for DataType {
    fn clone(&self) -> (r: Self)
        ensures
            r@ == self@,
    {
        match self {
            DataType::Num(n) => DataType::Num(*n),
            DataType::Bool(b) => DataType::Bool(*b),
            DataType::String(s) => DataType::String(s.clone()),
            DataType::List(i) => DataType::List(*i),
            DataType::NamelessRecord(i) => DataType::NamelessRecord(*i),
            DataType::Function(f) => DataType::Function(f.clone()),
            DataType::Nil => DataType::Nil,
        }
    }
}

/// Whether two vectors of strings hold the same strings.
pub fn strings_eq(a: &Vec<String>, b: &Vec<String>) -> (r: bool)
    ensures
        r == (views(a@) == views(b@)),
{
    if a.len() != b.len() {
        assert(views(a@).len() != views(b@).len());
        return false;
    }
    let mut i: usize = 0;
    while i < a.len()
        invariant
            a.len() == b.len(),
            i <= a.len(),
            forall|k: int| 0 <= k < i ==> a@[k]@ == b@[k]@,
        decreases a.len() - i,
    {
        if a[i] != b[i] {
            assert(views(a@)[i as int] != views(b@)[i as int]);
            return false;
        }
        i += 1;
    }
    assert(views(a@) =~= views(b@));
    true
}

impl DataType {
    /// The `==` of the language.
    pub fn equals(&self, other: &DataType) -> (r: bool)
        ensures
            r == self@.equals(other@),
    {
        match (self, other) {
            (DataType::Num(a), DataType::Num(b)) => a.is_eq(b),
            (DataType::Bool(a), DataType::Bool(b)) => *a == *b,
            (DataType::String(a), DataType::String(b)) => *a == *b,
            (DataType::List(a), DataType::List(b)) => *a == *b,
            (DataType::NamelessRecord(a), DataType::NamelessRecord(b)) => *a == *b,
            (DataType::Function(f), DataType::Function(g)) => {
                f.starting_statement == g.starting_statement && strings_eq(&f.args, &g.args)
            },
            (DataType::Nil, DataType::Nil) => true,
            _ => false,
        }
    }
}

} // verus!
