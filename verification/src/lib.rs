//! A terminal calculator's core: expression rewriting, definitions and the
//! evaluation protocol, with their contracts.
use vstd::prelude::*;

pub mod text;
pub mod chars;
pub mod maps;
pub mod definition_handler;
pub mod constant;
pub mod error;
pub mod eval_context;
pub mod parser;
pub mod implicit_multiplication;
pub mod eval;
pub mod vi_inputs;
pub mod input_handler;
pub mod tui_handler;
pub mod cli;

verus! {

/// Separator between the letter and the index of a numbered name (`x_1`, `lin_5`).
pub const VARIABLE_SEPARATOR: char = '_';

/// The separator as it must be written inside a regular expression: with a
/// backslash before it where it is a metacharacter.
pub open spec fn escaped_separator() -> Seq<char> {
    if ".^$*+?()[]{}|\\"@.contains(VARIABLE_SEPARATOR) {
        seq!['\\', VARIABLE_SEPARATOR]
    } else {
        seq![VARIABLE_SEPARATOR]
    }
}

/// The separator escaped for use in a regular expression.
pub fn escape_separator() -> (s: String)
    ensures
        s@ == escaped_separator(),
{
    let mut out: Vec<char> = Vec::new();
    let meta = crate::text::chars_of(".^$*+?()[]{}|\\");
    if crate::chars::has_char(&meta, VARIABLE_SEPARATOR) {
        out.push('\\');
    }
    out.push(VARIABLE_SEPARATOR);
    proof {
        reveal_strlit(".^$*+?()[]{}|\\");
    }
    crate::text::string_of(&out)
}

} // verus!
