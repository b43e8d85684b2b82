//! The host platform: what a program needs from the machine it runs on and
//! the library does not compute itself.

use vstd::prelude::*;
use crate::common::number::Num;

verus! {

/// Rounded double-precision arithmetic, decimal conversion, line input, the
/// file system and path handling, as the host provides them.
///
/// Nothing is promised of what an implementation returns: every function of
/// the library that calls one of these methods is verified for every value
/// that may come back.
pub trait Platform {
    /// `a + b`, rounded as the platform's doubles round.
    fn add(&self, a: Num, b: Num) -> Num;

    /// `a - b`.
    fn sub(&self, a: Num, b: Num) -> Num;

    /// `a * b`.
    fn mul(&self, a: Num, b: Num) -> Num;

    /// `a / b`; a zero divisor gives an infinity or a NaN.
    fn div(&self, a: Num, b: Num) -> Num;

    /// The remainder of `a / b`, with the sign of `a`.
    fn rem(&self, a: Num, b: Num) -> Num;

    /// `a` raised to the power `b`.
    fn powf(&self, a: Num, b: Num) -> Num;

    /// The shortest decimal text that reads back as `n`, in ASCII digits.
    fn num_to_string(&self, n: Num) -> String;

    /// The number that a decimal text in ASCII digits denotes, or why it
    /// denotes none.
    fn parse_num(&self, text: &str) -> Result<Num, String>;

    /// One line of input, without its line end.
    fn read_line(&mut self) -> Result<String, String>;

    /// The content of a file.
    fn read_file(&mut self, path: &str) -> Result<String, String>;

    /// Replaces the content of a file.
    fn write_file(&mut self, path: &str, content: &str) -> Result<(), String>;

    /// Removes a file.
    fn delete_file(&mut self, path: &str) -> Result<(), String>;

    /// Creates a directory and the missing ones above it.
    fn create_dir(&mut self, path: &str) -> Result<(), String>;

    /// The names of the entries of a directory.
    fn read_dir(&mut self, path: &str) -> Result<Vec<String>, String>;

    /// Removes a directory and what it holds.
    fn delete_dir(&mut self, path: &str) -> Result<(), String>;

    /// Whether a path names a file, as opposed to a directory.
    fn is_file(&mut self, path: &str) -> Result<bool, String>;

    /// `rest` appended to the path `base`.
    fn join_path(&self, base: &str, rest: &str) -> String;

    /// The last component of a path.
    fn file_name(&self, path: &str) -> String;

    /// The directory that holds the file at `path`.
    fn parent_dir(&self, path: &str) -> String;

    /// The absolute form of the directory that holds the file at `path`.
    fn absolute_parent_dir(&self, path: &str) -> String;
}

} // verus!
