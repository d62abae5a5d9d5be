//! A small templating engine: template text holds literal segments and
//! directives bounded by a configurable delimiter pair, and formatting a
//! parsed template against a context of named typed values produces a
//! substituted output string.
//!
//! Text flows through three stages: `tokenize` scans characters into tokens,
//! `Template::parse` classifies each directive span and builds the immutable
//! segment list, and `Template::format` walks the segments against a
//! `Context`, producing the output or the first error. Each stage carries a
//! contract pinning its result to a specification function over character
//! sequences.

mod ast;
mod chars;
mod eval;
mod laws;
mod num;
mod parser;
mod token;
mod value;

pub use ast::{CmpLit, Condition, CountSource, FormatError, ParseError, RepeatSource, Segment,
    Template};
pub use token::{CmpOp, Token, tokenize};
pub use value::{Context, Decimal, Value, ValueKind};
