//! The error taxonomy surfaced to the host.

use vstd::prelude::*;

verus! {

/// An error raised while lexing, parsing or running a program.
///
/// The three located kinds carry `(line, file, message)`.
#[derive(Debug, PartialEq)]
pub enum PakhiErr {
    SyntaxError(u32, String, String),
    TypeError(u32, String, String),
    RuntimeError(u32, String, String),
    UnexpectedError(String),
}

/// The mathematical content of a [`PakhiErr`].
pub enum PakhiErrView {
    SyntaxError(u32, Seq<char>, Seq<char>),
    TypeError(u32, Seq<char>, Seq<char>),
    RuntimeError(u32, Seq<char>, Seq<char>),
    UnexpectedError(Seq<char>),
}

impl View for PakhiErr {
    type V = PakhiErrView;

    open spec fn view(&self) -> PakhiErrView {
        match self {
            PakhiErr::SyntaxError(l, f, m) => PakhiErrView::SyntaxError(*l, f@, m@),
            PakhiErr::TypeError(l, f, m) => PakhiErrView::TypeError(*l, f@, m@),
            PakhiErr::RuntimeError(l, f, m) => PakhiErrView::RuntimeError(*l, f@, m@),
            PakhiErr::UnexpectedError(m) => PakhiErrView::UnexpectedError(m@),
        }
    }
}

impl Clone for PakhiErr {
    fn clone(&self) -> (r: Self)
        ensures
            r@ == self@,
    {
        match self {
            PakhiErr::SyntaxError(l, f, m) => PakhiErr::SyntaxError(*l, f.clone(), m.clone()),
            PakhiErr::TypeError(l, f, m) => PakhiErr::TypeError(*l, f.clone(), m.clone()),
            PakhiErr::RuntimeError(l, f, m) => PakhiErr::RuntimeError(*l, f.clone(), m.clone()),
            PakhiErr::UnexpectedError(m) => PakhiErr::UnexpectedError(m.clone()),
        }
    }
}

impl PakhiErr {
    /// Whether two errors have the same kind, location and message.
    pub fn same_as(&self, other: &PakhiErr) -> (r: bool)
        ensures
            r == (self@ == other@),
    {
        match (self, other) {
            (PakhiErr::SyntaxError(l1, f1, m1), PakhiErr::SyntaxError(l2, f2, m2)) => {
                *l1 == *l2 && *f1 == *f2 && *m1 == *m2
            },
            (PakhiErr::TypeError(l1, f1, m1), PakhiErr::TypeError(l2, f2, m2)) => {
                *l1 == *l2 && *f1 == *f2 && *m1 == *m2
            },
            (PakhiErr::RuntimeError(l1, f1, m1), PakhiErr::RuntimeError(l2, f2, m2)) => {
                *l1 == *l2 && *f1 == *f2 && *m1 == *m2
            },
            (PakhiErr::UnexpectedError(m1), PakhiErr::UnexpectedError(m2)) => *m1 == *m2,
            _ => false,
        }
    }

    /// A syntax error at `line` of `file`.
    pub fn syntax(line: u32, file: &String, message: &str) -> (r: PakhiErr)
        ensures
            r@ == PakhiErrView::SyntaxError(line, file@, message@),
    {
        PakhiErr::SyntaxError(line, file.clone(), String::from_str(message))
    }

    /// A type error at `line` of `file`.
    pub fn type_error(line: u32, file: &String, message: &str) -> (r: PakhiErr)
        ensures
            r@ == PakhiErrView::TypeError(line, file@, message@),
    {
        PakhiErr::TypeError(line, file.clone(), String::from_str(message))
    }

    /// A runtime error at `line` of `file`.
    pub fn runtime(line: u32, file: &String, message: &str) -> (r: PakhiErr)
        ensures
            r@ == PakhiErrView::RuntimeError(line, file@, message@),
    {
        PakhiErr::RuntimeError(line, file.clone(), String::from_str(message))
    }

    /// An error without a source location.
    pub fn unexpected(message: &str) -> (r: PakhiErr)
        ensures
            r@ == PakhiErrView::UnexpectedError(message@),
    {
        PakhiErr::UnexpectedError(String::from_str(message))
    }
}

} // verus!
