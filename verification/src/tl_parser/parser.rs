//! The schema parser as a whole: from schema text to token groups.
use vstd::prelude::*;

use crate::tl_parser::errors::TLError;
use crate::tl_parser::group_parser::{
    from_text_line, lemma_group_lines_not_markers, lemma_paragraph_marker_lines, lemma_parse_lines_shaped,
    paragraph_prefix, parse, parse_lines, parse_schema,
};
use crate::text::{chars_of, split, split_chars};
use crate::tl_parser::tl::{
    blood_of, descriptions_from_map, group_count, is_syntax_error, lemma_class_iff_no_super, lemma_super_type_of_group,
    lemma_token_descriptions, token_group,
    tokens_handled, tokens_of, Outcome,
};
use crate::text::starts_with;
use crate::tl_parser::types::{TLGrammarV, TLParagraph, TLTokenGroupType};
use crate::tl_parser::types::{token_views, TLTokenGroup, TLTokenGroupV};

verus! {

/// Whether the parser handles the schema text: its lines can be numbered
/// as `i32`, and every input that it reads (a group's description text with
/// an `@name`, generic types with content after each `<`) is one it can take.
pub open spec fn schema_handled(schema: Seq<char>) -> bool {
    split(schema, '\n').len() < i32::MAX && match parse_schema(schema) {
        Some(Ok(gs)) => !(tokens_of(gs) is Panic),
        _ => true,
    }
}

/// Whether `res` is what parsing the schema text into tokens gives.
pub open spec fn tokens_result(schema: Seq<char>, res: Result<Vec<TLTokenGroup>, TLError>) -> bool {
    match parse_schema(schema) {
        None => res == Err::<Vec<TLTokenGroup>, TLError>(TLError::EmptySchema),
        Some(Err((ix, line))) => res matches Err(TLError::UnsupportParagraph { line: l, text: t }) && l == ix
            && t@ == line,
        Some(Ok(gs)) => match tokens_of(gs) {
            Outcome::Done(ts) => res matches Ok(v) && token_views(v@) == ts,
            Outcome::Fail(l, t) => is_syntax_error(res, l, t),
            Outcome::Panic => false,
        },
    }
}

/// A parser for the TL schema file at `path`; the file's text is handed to
/// `parse` by whoever reads it.
#[derive(Debug, Clone)]
pub struct TLParser {
    path: String,
}

impl View for TLParser {
    type V = Seq<char>;

    /// The schema file's path.
    closed spec fn view(&self) -> Seq<char> {
        self.path@
    }
}

impl TLParser {
    /// A parser for the schema file at `path`.
    pub fn new(path: String) -> (res: Self)
        ensures
            res@ == path@,
    {
        TLParser { path }
    }

    /// The schema file's path.
    pub fn path(&self) -> (res: &String)
        ensures
            res@ == self@,
    {
        &self.path
    }

    /// The token groups of the schema text read from the file.
    pub fn parse(&self, tlbody: &str) -> (res: Result<Vec<TLTokenGroup>, TLError>)
        requires
            schema_handled(tlbody@),
        ensures
            tokens_result(tlbody@, res),
    {
        let grammars = match parse(tlbody) {
            Ok(g) => g,
            Err(e) => return Err(e),
        };
        token_group(&grammars)
    }

    /// Whether the parser handles the schema text (see `schema_handled`).
    pub fn handles(&self, tlbody: &str) -> (res: bool)
        ensures
            res == schema_handled(tlbody@),
    {
        let n = split_chars(&chars_of(tlbody), '\n').len();
        if n >= 2147483647usize {
            return false;
        }
        match parse(tlbody) {
            Ok(grammars) => tokens_handled(&grammars),
            Err(_) => true,
        }
    }

    /// The token groups of the schema text, or none for a text that the
    /// parser does not handle.
    pub fn try_parse(&self, tlbody: &str) -> (res: Option<Result<Vec<TLTokenGroup>, TLError>>)
        ensures
            res is Some <==> schema_handled(tlbody@),
            res matches Some(r) ==> tokens_result(tlbody@, r),
    {
        if self.handles(tlbody) {
            Some(self.parse(tlbody))
        } else {
            None
        }
    }
}

/// Over every schema the parser reads through: a token is a class exactly
/// when it has no super type, its own description is the `description`
/// entry of its map of descriptions, and each argument's description is the
/// entry of the argument's name.
pub proof fn lemma_parsed_tokens(schema: Seq<char>)
    ensures
        parse_schema(schema) matches Some(Ok(gs)) ==> (tokens_of(gs) matches Outcome::Done(ts) ==> forall|i: int|
            0 <= i < ts.len() ==> (#[trigger] ts[i].type_ == TLTokenGroupType::Trait <==> ts[i].blood is None)
                && descriptions_from_map(ts[i])),
{
    if schema.len() > 0 {
        let lines = crate::text::split(schema, '\n');
        lemma_parse_lines_shaped(lines);
        if parse_lines(lines) is Ok {
            let gs = parse_lines(lines)->Ok_0.grammars;
            lemma_class_iff_no_super(gs);
            lemma_token_descriptions(gs);
        }
    }
}

/// Over every schema the parser reads into items: an item is a paragraph
/// marker exactly when it comes from a `---` line, whose line number it
/// carries; every `---` line gives one; every other item is a group, and
/// no line of a group is a `---` line.
pub proof fn lemma_parsed_paragraphs(schema: Seq<char>)
    requires
        split(schema, '\n').len() < i32::MAX,
    ensures
        parse_schema(schema) matches Some(Ok(gs)) ==> forall|i: int|
            #![trigger gs[i]]
            0 <= i < gs.len() && gs[i] is Paragraph ==> exists|k: int|
                0 <= k < split(schema, '\n').len() && starts_with(#[trigger] split(schema, '\n')[k], paragraph_prefix())
                    && gs[i] == TLGrammarV::Paragraph(TLParagraph::Functions { start: (k + 1) as i32, end: (k + 1) as i32 }),
        parse_schema(schema) matches Some(Ok(gs)) ==> forall|k: int|
            #![trigger split(schema, '\n')[k]]
            0 <= k < split(schema, '\n').len() && starts_with(split(schema, '\n')[k], paragraph_prefix()) ==> exists|i: int|
                0 <= i < gs.len() && #[trigger] gs[i] == TLGrammarV::Paragraph(
                    TLParagraph::Functions { start: (k + 1) as i32, end: (k + 1) as i32 },
                ),
        parse_schema(schema) matches Some(Ok(gs)) ==> forall|i: int|
            #![trigger gs[i]]
            0 <= i < gs.len() ==> (gs[i] is Paragraph <==> !(gs[i] is Group)),
        parse_schema(schema) matches Some(Ok(gs)) ==> forall|i: int, m: int|
            #![trigger gs[i]->Group_0.lines[m]]
            0 <= i < gs.len() && gs[i] is Group && 0 <= m < gs[i]->Group_0.lines.len() ==> from_text_line(
                split(schema, '\n'),
                gs[i]->Group_0.lines[m],
            ),
{
    lemma_paragraph_marker_lines(split(schema, '\n'));
    lemma_group_lines_not_markers(split(schema, '\n'));
}

/// Over every schema the parser reads through: the token of a struct or
/// function group has as super type (or return type) the words after the
/// first `=` of the group's last line, joined by a space.
pub proof fn lemma_parsed_super_types(schema: Seq<char>, j: int)
    ensures
        parse_schema(schema) matches Some(Ok(gs)) ==> (0 <= j < gs.len() && gs[j] is Group && tokens_of(gs) is Done
            ==> (tokens_of(gs) matches Outcome::Done(ts) && group_count(gs.take(j)) < ts.len() && (ts[group_count(
            gs.take(j),
        ) as int].type_ == TLTokenGroupType::Trait || ts[group_count(gs.take(j)) as int].blood == Some(
            blood_of(gs[j]->Group_0.lines.last().text),
        )))),
{
    if schema.len() > 0 {
        let lines = crate::text::split(schema, '\n');
        lemma_parse_lines_shaped(lines);
        if parse_lines(lines) is Ok {
            let gs = parse_lines(lines)->Ok_0.grammars;
            if 0 <= j < gs.len() && gs[j] is Group && tokens_of(gs) is Done {
                lemma_super_type_of_group(gs, j);
            }
        }
    }
}

} // verus!
