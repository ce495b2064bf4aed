//! The character reader of `text_reader` and the string builder of
//! `rstring_builder`, as the token parser uses them.
use vstd::prelude::*;

use rstring_builder::StringBuilder;
use text_reader::TextReader;

verus! {

#[verifier::external_type_specification]
#[verifier::external_body]
pub struct ExTextReader(TextReader);

#[verifier::external_type_specification]
#[verifier::external_body]
pub struct ExStringBuilder(StringBuilder);

/// The characters a reader walks through.
pub uninterp spec fn reader_text(r: TextReader) -> Seq<char>;

/// How many characters a reader has handed out.
pub uninterp spec fn reader_position(r: TextReader) -> nat;

/// The characters a builder holds.
pub uninterp spec fn builder_chars(b: StringBuilder) -> Seq<char>;

/// `TextReader::new`: a reader over the characters of `text`, at its start.
#[verifier::external_body]
pub(crate) fn reader_new(text: &str) -> (res: TextReader)
    ensures
        reader_text(res) == text@,
        reader_position(res) == 0,
{
    TextReader::new(text)
}

/// `TextReader::has_next`: whether characters are left.
#[verifier::external_body]
pub(crate) fn reader_has_next(r: &TextReader) -> (res: bool)
    ensures
        res == (reader_position(*r) < reader_text(*r).len()),
{
    r.has_next()
}

/// `TextReader::next`: the next character, moving past it; `None` at the end.
#[verifier::external_body]
pub(crate) fn reader_next(r: &mut TextReader) -> (res: Option<char>)
    ensures
        reader_text(*final(r)) == reader_text(*old(r)),
        reader_position(*old(r)) < reader_text(*old(r)).len() ==> res == Some(
            reader_text(*old(r))[reader_position(*old(r)) as int],
        ) && reader_position(*final(r)) == reader_position(*old(r)) + 1,
        reader_position(*old(r)) >= reader_text(*old(r)).len() ==> res is None && reader_position(
            *final(r),
        ) == reader_position(*old(r)),
{
    r.next()
}

/// `StringBuilder::new`: an empty builder.
#[verifier::external_body]
pub(crate) fn builder_new() -> (res: StringBuilder)
    ensures
        builder_chars(res) == Seq::<char>::empty(),
{
    StringBuilder::new()
}

/// `StringBuilder::append` with a string: adds its characters at the end.
#[verifier::external_body]
pub(crate) fn builder_append_str(b: &mut StringBuilder, s: &str)
    ensures
        builder_chars(*final(b)) == builder_chars(*old(b)) + s@,
{
    b.append(s);
}

/// `StringBuilder::append` with a character: adds it at the end.
#[verifier::external_body]
pub(crate) fn builder_append_char(b: &mut StringBuilder, c: char)
    ensures
        builder_chars(*final(b)) == builder_chars(*old(b)).push(c),
{
    b.append(c);
}

/// `StringBuilder::string`: the held characters as a string.
#[verifier::external_body]
pub(crate) fn builder_string(b: &StringBuilder) -> (res: String)
    ensures
        res@ == builder_chars(*b),
{
    b.string()
}

} // verus!
