//! Output of a running program, and a recording double of it.

use vstd::prelude::*;
use crate::common::pakhi_error::{PakhiErr, PakhiErrView};

verus! {

/// A piece of output: the text, and whether the line ends behind it.
pub type Piece = (Seq<char>, bool);

/// Where a program's output goes and where its source comes from.
///
/// The contracts of `print` and `println` say what was handed over, as a
/// log of pieces; they are what an implementation owes and are checked
/// for [`MockIO`] only.
pub trait IO: Sized {
    /// The pieces that were handed over to be written, in their order.
    /// A recording double says what they are; for any other `IO` they stay
    /// unknown.
    open spec fn written(&self) -> Seq<Piece> {
        arbitrary()
    }

    fn new() -> Self;

    /// Writes `m`.
    fn print(&mut self, m: &str)
        ensures
            final(self).written() == old(self).written().push((m@, false)),
    ;

    /// Writes `m` and ends the line.
    fn println(&mut self, m: &str)
        ensures
            final(self).written() == old(self).written().push((m@, true)),
    ;

    /// The source text of the module at `file_path`. Nothing is written.
    fn read_src_code_from_file(&mut self, file_path: &str) -> (r: Result<String, String>)
        ensures
            final(self).written() == old(self).written(),
    ;

    /// Reports an error that ends the run.
    fn panic(&mut self, err: PakhiErr);
}

/// An [`IO`] that records every operation, beside the operations that a
/// test expects.
#[derive(Debug)]
pub struct MockIO {
    print: Vec<String>,
    println: Vec<String>,
    panic: Vec<PakhiErr>,
    op_order: Vec<String>,
    expected_print: Vec<String>,
    expected_println: Vec<String>,
    expected_panic: Vec<PakhiErr>,
    expected_op_order: Vec<String>,
    pieces: Vec<(String, bool)>,
}

/// The pieces of a record of output.
pub open spec fn piece_views(pieces: Seq<(String, bool)>) -> Seq<Piece> {
    Seq::new(pieces.len(), |i: int| (pieces[i].0@, pieces[i].1))
}

/// What a [`MockIO`] has recorded and what it expects.
pub struct MockIOView {
    pub print: Seq<Seq<char>>,
    pub println: Seq<Seq<char>>,
    pub panic: Seq<PakhiErrView>,
    pub op_order: Seq<Seq<char>>,
    pub expected_print: Seq<Seq<char>>,
    pub expected_println: Seq<Seq<char>>,
    pub expected_panic: Seq<PakhiErrView>,
    pub expected_op_order: Seq<Seq<char>>,
}

/// Every item of `got` stands at the same place in `expected`.
pub open spec fn is_prefix_of<A>(got: Seq<A>, expected: Seq<A>) -> bool {
    got.len() <= expected.len() && forall|i: int| 0 <= i < got.len() ==> got[i] == expected[i]
}

impl MockIOView {
    /// Nothing recorded, nothing expected.
    pub open spec fn empty() -> MockIOView {
        MockIOView {
            print: Seq::empty(),
            println: Seq::empty(),
            panic: Seq::empty(),
            op_order: Seq::empty(),
            expected_print: Seq::empty(),
            expected_println: Seq::empty(),
            expected_panic: Seq::empty(),
            expected_op_order: Seq::empty(),
        }
    }

    /// Each recorded operation is the expected operation of the same kind at
    /// the same position, and the kinds came in the expected order.
    pub open spec fn all_true(self) -> bool {
        &&& is_prefix_of(self.print, self.expected_print)
        &&& is_prefix_of(self.println, self.expected_println)
        &&& is_prefix_of(self.panic, self.expected_panic)
        &&& is_prefix_of(self.op_order, self.expected_op_order)
    }
}

/// The view of each string.
pub open spec fn string_views(v: Seq<String>) -> Seq<Seq<char>> {
    Seq::new(v.len(), |i: int| v[i]@)
}

/// The view of each error.
pub open spec fn error_views(v: Seq<PakhiErr>) -> Seq<PakhiErrView> {
    Seq::new(v.len(), |i: int| v[i]@)
}

fn strings_prefix(got: &Vec<String>, expected: &Vec<String>) -> (r: bool)
    ensures
        r == is_prefix_of(string_views(got@), string_views(expected@)),
{
    if got.len() > expected.len() {
        return false;
    }
    let mut i: usize = 0;
    while i < got.len()
        invariant
            i <= got.len() <= expected.len(),
            forall|k: int| 0 <= k < i ==> got@[k]@ == expected@[k]@,
        decreases got.len() - i,
    {
        if got[i] != expected[i] {
            assert(string_views(got@)[i as int] != string_views(expected@)[i as int]);
            return false;
        }
        i += 1;
    }
    true
}

fn errors_prefix(got: &Vec<PakhiErr>, expected: &Vec<PakhiErr>) -> (r: bool)
    ensures
        r == is_prefix_of(error_views(got@), error_views(expected@)),
{
    if got.len() > expected.len() {
        return false;
    }
    let mut i: usize = 0;
    while i < got.len()
        invariant
            i <= got.len() <= expected.len(),
            forall|k: int| 0 <= k < i ==> got@[k]@ == expected@[k]@,
        decreases got.len() - i,
    {
        if !got[i].same_as(&expected[i]) {
            assert(error_views(got@)[i as int] != error_views(expected@)[i as int]);
            return false;
        }
        i += 1;
    }
    true
}

impl View for MockIO {
    type V = MockIOView;

    closed spec fn view(&self) -> MockIOView {
        MockIOView {
            print: string_views(self.print@),
            println: string_views(self.println@),
            panic: error_views(self.panic@),
            op_order: string_views(self.op_order@),
            expected_print: string_views(self.expected_print@),
            expected_println: string_views(self.expected_println@),
            expected_panic: error_views(self.expected_panic@),
            expected_op_order: string_views(self.expected_op_order@),
        }
    }
}

impl MockIO {
    /// Expects one more `print` of `m`.
    pub fn expect_print(&mut self, m: &str)
        ensures
            final(self)@ == (MockIOView {
                expected_print: old(self)@.expected_print.push(m@),
                expected_op_order: old(self)@.expected_op_order.push("print"@),
                ..old(self)@
            }),
    {
        self.expected_print.push(String::from_str(m));
        self.expected_op_order.push(String::from_str("print"));
        assert(string_views(self.expected_print@) =~= string_views(old(self).expected_print@).push(
            m@,
        ));
        assert(string_views(self.expected_op_order@) =~= string_views(
            old(self).expected_op_order@,
        ).push("print"@));
    }

    /// Expects one more `println` of `m`.
    pub fn expect_println(&mut self, m: &str)
        ensures
            final(self)@ == (MockIOView {
                expected_println: old(self)@.expected_println.push(m@),
                expected_op_order: old(self)@.expected_op_order.push("println"@),
                ..old(self)@
            }),
    {
        self.expected_println.push(String::from_str(m));
        self.expected_op_order.push(String::from_str("println"));
        assert(string_views(self.expected_println@) =~= string_views(
            old(self).expected_println@,
        ).push(m@));
        assert(string_views(self.expected_op_order@) =~= string_views(
            old(self).expected_op_order@,
        ).push("println"@));
    }

    /// Expects one more reported error, `err`.
    pub fn expect_panic(&mut self, err: PakhiErr)
        ensures
            final(self)@ == (MockIOView {
                expected_panic: old(self)@.expected_panic.push(err@),
                expected_op_order: old(self)@.expected_op_order.push("panic"@),
                ..old(self)@
            }),
    {
        self.expected_panic.push(err);
        self.expected_op_order.push(String::from_str("panic"));
        assert(error_views(self.expected_panic@) =~= error_views(old(self).expected_panic@).push(
            err@,
        ));
        assert(string_views(self.expected_op_order@) =~= string_views(
            old(self).expected_op_order@,
        ).push("panic"@));
    }

    /// Confirms that everything recorded so far was expected, in this
    /// order. It is for a record that meets its expectations;
    /// [`MockIO::expectations_met`] decides whether one does.
    pub fn assert_all_true(&self) -> (r: bool)
        requires
            self@.all_true(),
        ensures
            r,
    {
        self.expectations_met()
    }

    /// Whether everything recorded so far was expected, in this order.
    pub fn expectations_met(&self) -> (r: bool)
        ensures
            r == self@.all_true(),
    {
        strings_prefix(&self.print, &self.expected_print) && strings_prefix(
            &self.println,
            &self.expected_println,
        ) && errors_prefix(&self.panic, &self.expected_panic) && strings_prefix(
            &self.op_order,
            &self.expected_op_order,
        )
    }
}

impl IO for MockIO {
    closed spec fn written(&self) -> Seq<Piece> {
        piece_views(self.pieces@)
    }

    fn new() -> (r: MockIO)
        ensures
            r@ == MockIOView::empty(),
            r.written() == Seq::<Piece>::empty(),
    {
        let r = MockIO {
            print: Vec::new(),
            println: Vec::new(),
            panic: Vec::new(),
            op_order: Vec::new(),
            expected_print: Vec::new(),
            expected_println: Vec::new(),
            expected_panic: Vec::new(),
            expected_op_order: Vec::new(),
            pieces: Vec::new(),
        };
        assert(string_views(r.print@) =~= Seq::empty());
        assert(error_views(r.panic@) =~= Seq::empty());
        r
    }

    fn print(&mut self, m: &str)
        ensures
            final(self)@ == (MockIOView {
                print: old(self)@.print.push(m@),
                op_order: old(self)@.op_order.push("print"@),
                ..old(self)@
            }),
    {
        self.print.push(String::from_str(m));
        self.op_order.push(String::from_str("print"));
        self.pieces.push((String::from_str(m), false));
        assert(piece_views(self.pieces@) =~= piece_views(old(self).pieces@).push((m@, false)));
        assert(string_views(self.print@) =~= string_views(old(self).print@).push(m@));
        assert(string_views(self.op_order@) =~= string_views(old(self).op_order@).push("print"@));
    }

    fn println(&mut self, m: &str)
        ensures
            final(self)@ == (MockIOView {
                println: old(self)@.println.push(m@),
                op_order: old(self)@.op_order.push("println"@),
                ..old(self)@
            }),
    {
        self.println.push(String::from_str(m));
        self.op_order.push(String::from_str("println"));
        self.pieces.push((String::from_str(m), true));
        assert(piece_views(self.pieces@) =~= piece_views(old(self).pieces@).push((m@, true)));
        assert(string_views(self.println@) =~= string_views(old(self).println@).push(m@));
        assert(string_views(self.op_order@) =~= string_views(old(self).op_order@).push(
            "println"@,
        ));
    }

    /// A `MockIO` holds no files: every read fails.
    fn read_src_code_from_file(&mut self, file_path: &str) -> (r: Result<String, String>)
        ensures
            r matches Err(reason) && reason@ == "MockIO holds no files"@,
            final(self)@ == old(self)@,
    {
        Err(String::from_str("MockIO holds no files"))
    }

    fn panic(&mut self, err: PakhiErr)
        ensures
            final(self)@ == (MockIOView {
                panic: old(self)@.panic.push(err@),
                op_order: old(self)@.op_order.push("panic"@),
                ..old(self)@
            }),
    {
        self.panic.push(err);
        self.op_order.push(String::from_str("panic"));
        assert(error_views(self.panic@) =~= error_views(old(self).panic@).push(err@));
        assert(string_views(self.op_order@) =~= string_views(old(self).op_order@).push("panic"@));
    }
}

} // verus!
