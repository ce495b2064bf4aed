//! The generator's logic: type mapping and filters, the token wrapper, and
//! the values that the templates of the generated crates are filled with.
pub mod config;
pub mod generate;
pub mod tdfill;
pub mod terafill;
pub mod tokenwrap;
