//! Case conversion of identifiers (`case` crate): camel case, snake case,
//! dashed and capitalized names.
use vstd::prelude::*;

use case::CaseExt;

verus! {

/// Whether `c` is an ASCII capital letter.
pub open spec fn is_ascii_upper(c: char) -> bool {
    'A' <= c <= 'Z'
}

/// ASCII upper case of `c` (other characters unchanged).
pub open spec fn ascii_upper(c: char) -> char {
    if 'a' <= c <= 'z' {
        ((c as u32) - 32) as char
    } else {
        c
    }
}

/// ASCII lower case of `c` (other characters unchanged).
pub open spec fn ascii_lower(c: char) -> char {
    if 'A' <= c <= 'Z' {
        ((c as u32) + 32) as char
    } else {
        c
    }
}

/// Snake case of `s`: every ASCII capital becomes its lower case letter,
/// preceded by `_` unless it is the first character.
pub open spec fn snake(s: Seq<char>) -> Seq<char>
    decreases s.len(),
{
    if s.len() == 0 {
        Seq::empty()
    } else {
        let c = s.last();
        snake(s.drop_last()) + if is_ascii_upper(c) {
            if s.len() == 1 {
                seq![ascii_lower(c)]
            } else {
                seq!['_', ascii_lower(c)]
            }
        } else {
            seq![c]
        }
    }
}

/// Number of leading `_` of `s`.
pub open spec fn leading_underscores(s: Seq<char>) -> nat
    decreases s.len(),
{
    if s.len() == 0 || s[0] != '_' {
        0
    } else {
        1 + leading_underscores(s.drop_first())
    }
}

/// Reading `t` for camel case: `_` marks the start of a new word and is
/// dropped; the first letter of a new word is made ASCII upper case.
/// Gives the text so far and whether a new word has started.
pub open spec fn camel_fold(t: Seq<char>, first_upper: bool) -> (Seq<char>, bool)
    decreases t.len(),
{
    if t.len() == 0 {
        (Seq::empty(), first_upper)
    } else {
        let (r, at_new_word) = camel_fold(t.drop_last(), first_upper);
        let c = t.last();
        if c == '_' {
            (r, true)
        } else if at_new_word {
            (r.push(ascii_upper(c)), false)
        } else {
            (r.push(c), false)
        }
    }
}

/// Camel case of a snake case name (leading `_` ignored); the first letter
/// is upper case when `first_upper`.
pub open spec fn camel(s: Seq<char>, first_upper: bool) -> Seq<char> {
    camel_fold(s.skip(leading_underscores(s) as int), first_upper).0
}

/// `CaseExt::to_snake` of the `case` crate: snake case of a camel case name.
#[verifier::external_body]
pub(crate) fn to_snake(s: &str) -> (res: String)
    ensures
        res@ == snake(s@),
{
    s.to_snake()
}

/// `CaseExt::to_camel` of the `case` crate: capitalized camel case of a
/// snake case name.
#[verifier::external_body]
pub(crate) fn to_camel(s: &str) -> (res: String)
    ensures
        res@ == camel(s@, true),
{
    s.to_camel()
}

/// `CaseExt::to_camel_lowercase` of the `case` crate: camel case of a snake
/// case name, its first letter left as it is.
#[verifier::external_body]
pub(crate) fn to_camel_lowercase(s: &str) -> (res: String)
    ensures
        res@ == camel(s@, false),
{
    s.to_camel_lowercase()
}

/// `s` with every `_` replaced by `-`.
pub open spec fn dashed(s: Seq<char>) -> Seq<char> {
    s.map_values(|c: char| if c == '_' { '-' } else { c })
}

/// `CaseExt::to_dashed` of the `case` crate: every `_` becomes `-`.
#[verifier::external_body]
pub(crate) fn to_dashed(s: &str) -> (res: String)
    ensures
        res@ == dashed(s@),
{
    s.to_dashed()
}

/// `s` with its first character made ASCII upper case.
pub open spec fn capitalized(s: Seq<char>) -> Seq<char> {
    if s.len() == 0 {
        s
    } else {
        s.update(0, ascii_upper(s[0]))
    }
}

/// `CaseExt::to_capitalized` of the `case` crate: the first character made
/// ASCII upper case.
#[verifier::external_body]
pub(crate) fn to_capitalized(s: &str) -> (res: String)
    ensures
        res@ == capitalized(s@),
{
    s.to_capitalized()
}

} // verus!
