//! A recursive-descent JSON parser whose results are proved against a
//! mathematical description of the grammar.
//!
//! `parse_document` turns a text into a `Value`, or says what is wrong with
//! the text and where. The module `grammar` defines what every input parses
//! to; `scanner` and `strings` recognise the lexical units and `parser` holds
//! one function for each rule. The modules `rendering`, `round_trip` and
//! `depth` prove what holds of every document.
//!
//! Numbers are kept as the text that stood in the input. Objects keep their
//! members in the order of the input, repeated keys included.

pub mod depth;
pub mod error;
pub mod grammar;
pub mod parser;
pub mod rendering;
pub mod round_trip;
pub mod scanner;
pub mod strings;
pub mod text;
pub mod value;

pub use crate::error::{ErrorKind, ParseError};
pub use crate::parser::parse_document;
pub use crate::value::Value;
