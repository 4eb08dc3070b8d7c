//! Test discovery for Python sources: name filters, a lexical scanner for
//! test definitions, a parser for parametrize decorators, and the decisions
//! that shape the collection tree.
pub mod text;
pub mod pattern;
pub mod lex;
pub mod params;
pub mod literal;
pub mod scanner;
pub mod collector;
pub mod nodes;
pub mod dirs;
