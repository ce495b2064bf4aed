//! The TL schema parser: from schema text to grammar groups, and from groups to tokens.
pub mod errors;
pub mod group_parser;
pub mod parser;
pub mod reading;
pub mod tl;
pub mod types;
