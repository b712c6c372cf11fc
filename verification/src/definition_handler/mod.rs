//! Definitions of variables and single-parameter functions.
pub mod function;
pub mod variable;
pub mod parse_function;
pub mod parse_variable;
pub mod definition;
