//! A verified front end for the Nuzo scripting language (tokens, lexer,
//! syntax tree, parser), with pure parts of its runtime: format templates,
//! clamped substrings and slices, removal of repeated values,
//! hex colours, the random generator's state, the output-capture stack, the
//! IO path sandbox and the GUI layout bound.

pub mod token;
pub mod lexer;
pub mod ast;
pub mod parser;
pub mod format;
pub mod color;
pub mod random;
pub mod capture;
pub mod layout;
pub mod sandbox;
pub mod collections;
