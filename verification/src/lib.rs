//! A tree-walking interpreter for the Pakhi scripting language: lexer, parser,
//! scoped evaluator, handle-addressed heap and mark-and-sweep collector.

use vstd::prelude::*;

pub mod backend;
pub mod common;
pub mod frontend;

use crate::backend::interpreter;
use crate::common::io::IO;
use crate::common::pakhi_error::PakhiErr;
use crate::common::platform::Platform;
use crate::common::text::chars_of;
use crate::frontend::{lexer, parser};

verus! {

/// What [`start_pakhi`] makes of the source that `io` gave for the main
/// module: the error of a source that could not be read, or the run of the
/// program that the source holds.
pub fn run_source<T: IO, P: Platform>(
    main_module_path: String,
    source: Result<String, String>,
    io: &mut T,
    platform: &mut P,
) -> (r: Result<(), PakhiErr>)
    ensures
        source matches Err(reason) ==> (r matches Err(e) && e@
            == crate::common::pakhi_error::PakhiErrView::RuntimeError(
            0,
            Seq::empty(),
            parser::unread_message(main_module_path@, reason@),
        )),
        source matches Ok(text) && !lexer::lexable(text@, 0) ==> r is Err,
        source matches Ok(text) && text@.len() == 0 ==> r is Ok,
{
    match source {
        Ok(src_string) => {
            let src_chars = chars_of(src_string.as_str());
            let tokens = lexer::tokenize(src_chars, main_module_path.clone(), platform)?;
            let ast_tree = parser::parse(main_module_path, tokens, io, platform)?;
            interpreter::run(ast_tree, io, platform)
        },
        Err(e) => {
            let mut message = String::from_str("Error opening file: ");
            message.append(main_module_path.as_str());
            message.append(". System error message: ");
            message.append(e.as_str());
            assert(message@ =~= parser::unread_message(main_module_path@, e@));
            Err(PakhiErr::RuntimeError(0, String::new(), message))
        },
    }
}

/// Reads the main module through `io`, then lexes, parses and runs it.
pub fn start_pakhi<T: IO, P: Platform>(main_module_path: String, io: &mut T,
    platform: &mut P) -> (r:
    Result<(), PakhiErr>) {
    let source = io.read_src_code_from_file(main_module_path.as_str());
    run_source(main_module_path, source, io, platform)
}

} // verus!
