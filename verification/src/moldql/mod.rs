//! MoldQL, the explorer's query language: its AST, the character cursor
//! the parsers share, and the parsers.

pub mod ast;
pub mod cursor;
pub mod parser;
pub mod compile_fixtures;
pub mod parser_pattern_profile;
pub mod compile;
pub mod executor;
pub mod intent;
