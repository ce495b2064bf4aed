use vstd::prelude::*;

verus! {

/// Why a schema could not be read or parsed.
#[derive(Debug, Clone, PartialEq, Eq)]
pub enum TLError {
    /// The schema file does not exist.
    TLNotfound { path: String },
    /// The schema text is empty.
    EmptySchema,
    /// A `---name---` line names a paragraph other than `functions`.
    UnsupportParagraph { line: i32, text: String },
    /// A group line does not follow the grammar.
    Syntax { line: i32, text: String },
}

} // verus!
