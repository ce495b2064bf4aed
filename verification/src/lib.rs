//! Parsing of the Telegram type-language (TL) schema and the logic that turns
//! its tokens into the types, listeners and handlers of a generated client.
use vstd::prelude::*;

pub mod casing;
pub mod client;
pub mod fantasy;
pub mod strmap;
pub mod text;
pub mod tl_parser;

verus! {
} // verus!
