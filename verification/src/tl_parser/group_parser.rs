//! Splitting schema text into grammar items, line by line.
use vstd::prelude::*;

use crate::text::{
    chars_of, ends_with, has_prefix, has_suffix, lemma_split_len, lowercase, remove_char, same_chars,
    skip_chars, split, split_chars, starts_with, string_of, take_chars, to_lowercase, views, without_char,
};
use crate::tl_parser::errors::TLError;
use crate::tl_parser::types::{
    TLGrammar, TLGrammarV, TLGroup, TLGroupLine, TLGroupLineToken, TLGroupLineV, TLGroupV, TLParagraph,
};

verus! {

/// `---`, the start of a paragraph marker line.
pub open spec fn paragraph_prefix() -> Seq<char> {
    seq!['-', '-', '-']
}

/// `//@class `, the start of a trait line.
pub open spec fn class_prefix() -> Seq<char> {
    seq!['/', '/', '@', 'c', 'l', 'a', 's', 's', ' ']
}

/// `//`, the start of a description line.
pub open spec fn comment_prefix() -> Seq<char> {
    seq!['/', '/']
}

/// `functions`, the one paragraph name the schema may use.
pub open spec fn functions_word() -> Seq<char> {
    seq!['f', 'u', 'n', 'c', 't', 'i', 'o', 'n', 's']
}

/// What has been read of the schema so far: the finished grammar items and
/// the description lines still waiting for the line that ends their group.
pub struct ParseStateV {
    pub grammars: Seq<TLGrammarV>,
    pub pending: Seq<TLGroupLineV>,
}

/// The group that a trait line makes on its own.
pub open spec fn trait_group(ix: int, line: Seq<char>) -> TLGroupV {
    TLGroupV {
        start: ix as i32,
        end: ix as i32,
        lines: seq![TLGroupLineV { line: ix as i32, token: TLGroupLineToken::Trait, text: line.skip(2) }],
    }
}

/// The text of a group's last line: the line without its final `;`.
pub open spec fn struct_text(line: Seq<char>) -> Seq<char> {
    if ends_with(line, seq![';']) {
        line.drop_last()
    } else {
        line
    }
}

/// How reading line `ix` (1-based) with text `line` changes the state; an
/// error names the line and its text.
pub open spec fn parse_line(st: ParseStateV, ix: int, line: Seq<char>) -> Result<ParseStateV, (int, Seq<char>)> {
    if line.len() == 0 {
        Ok(st)
    } else if starts_with(line, paragraph_prefix()) {
        if lowercase(remove_char(line, '-')) == functions_word() {
            Ok(ParseStateV {
                grammars: st.grammars.push(
                    TLGrammarV::Paragraph(TLParagraph::Functions { start: ix as i32, end: ix as i32 }),
                ),
                pending: st.pending,
            })
        } else {
            Err((ix, line))
        }
    } else if starts_with(line, class_prefix()) {
        Ok(ParseStateV { grammars: st.grammars.push(TLGrammarV::Group(trait_group(ix, line))), pending: st.pending })
    } else if starts_with(line, comment_prefix()) {
        Ok(ParseStateV {
            grammars: st.grammars,
            pending: st.pending.push(
                TLGroupLineV { line: ix as i32, token: TLGroupLineToken::Description, text: line.skip(2) },
            ),
        })
    } else {
        let lines = st.pending.push(
            TLGroupLineV { line: ix as i32, token: TLGroupLineToken::Struct, text: struct_text(line) },
        );
        Ok(ParseStateV {
            grammars: st.grammars.push(TLGrammarV::Group(TLGroupV { start: lines[0].line, end: ix as i32, lines })),
            pending: Seq::empty(),
        })
    }
}

/// The state after reading the given lines in order, numbered from 1.
pub open spec fn parse_lines(lines: Seq<Seq<char>>) -> Result<ParseStateV, (int, Seq<char>)>
    decreases lines.len(),
{
    if lines.len() == 0 {
        Ok(ParseStateV { grammars: Seq::empty(), pending: Seq::empty() })
    } else {
        match parse_lines(lines.drop_last()) {
            Ok(st) => parse_line(st, lines.len() as int, lines.last()),
            Err(e) => Err(e),
        }
    }
}

/// Once reading stops at a line, reading more lines does not resume it.
proof fn lemma_parse_lines_err(lines: Seq<Seq<char>>, k: int)
    requires
        0 <= k <= lines.len(),
        parse_lines(lines.take(k)) is Err,
    ensures
        parse_lines(lines) == parse_lines(lines.take(k)),
    decreases lines.len() - k,
{
    if k < lines.len() {
        assert(lines.take(k + 1).drop_last() =~= lines.take(k));
        lemma_parse_lines_err(lines, k + 1);
    } else {
        assert(lines.take(k) =~= lines);
    }
}

/// The grammar items of a schema text, or the line that stops the reading;
/// `None` for an empty schema.
pub open spec fn parse_schema(schema: Seq<char>) -> Option<Result<Seq<TLGrammarV>, (int, Seq<char>)>> {
    if schema.len() == 0 {
        None
    } else {
        Some(
            match parse_lines(split(schema, '\n')) {
                Ok(st) => Ok(st.grammars),
                Err(e) => Err(e),
            },
        )
    }
}

/// The views of a sequence of grammar items.
pub open spec fn grammar_views(gs: Seq<TLGrammar>) -> Seq<TLGrammarV> {
    gs.map_values(|g: TLGrammar| g@)
}

/// The views of a sequence of group lines.
pub open spec fn line_views(ls: Seq<TLGroupLine>) -> Seq<TLGroupLineV> {
    ls.map_values(|l: TLGroupLine| l@)
}

/// Whether `res` is what parsing `schema` gives.
pub open spec fn parse_result(schema: Seq<char>, res: Result<Vec<TLGrammar>, TLError>) -> bool {
    match parse_schema(schema) {
        None => res == Err::<Vec<TLGrammar>, TLError>(TLError::EmptySchema),
        Some(Ok(gs)) => res matches Ok(v) && grammar_views(v@) == gs,
        Some(Err((ix, line))) => res matches Err(TLError::UnsupportParagraph { line: l, text: t })
            && l == ix && t@ == line,
    }
}

/// Parses TL schema text into grammar items: groups of lines and paragraph markers.
pub fn parse(schema: &str) -> (res: Result<Vec<TLGrammar>, TLError>)
    requires
        split(schema@, '\n').len() < i32::MAX,
    ensures
        parse_result(schema@, res),
{
    parse_group_by_line(schema)
}

/// Reads the schema line by line (see `parse_line`).
fn parse_group_by_line(schema: &str) -> (res: Result<Vec<TLGrammar>, TLError>)
    requires
        split(schema@, '\n').len() < i32::MAX,
    ensures
        parse_result(schema@, res),
{
    let chars = chars_of(schema);
    if chars.len() == 0 {
        return Err(TLError::EmptySchema);
    }
    let schlines = split_chars(&chars, '\n');
    proof {
        lemma_split_len(schema@, '\n');
    }
    let ghost lines = views(schlines@);
    let mut grammars: Vec<TLGrammar> = Vec::new();
    let mut group_lines: Vec<TLGroupLine> = Vec::new();
    let dashes = vec!['-', '-', '-'];
    let class = vec!['/', '/', '@', 'c', 'l', 'a', 's', 's', ' '];
    let comment = vec!['/', '/'];
    let functions = vec!['f', 'u', 'n', 'c', 't', 'i', 'o', 'n', 's'];
    let semicolon = vec![';'];
    let mut ix: i32 = 0;
    let mut k: usize = 0;
    assert(lines.take(0) =~= Seq::<Seq<char>>::empty());
    assert(grammar_views(grammars@) =~= Seq::<TLGrammarV>::empty());
    assert(line_views(group_lines@) =~= Seq::<TLGroupLineV>::empty());
    while k < schlines.len()
        invariant
            lines == split(schema@, '\n'),
            lines == views(schlines@),
            lines.len() == schlines@.len(),
            lines.len() < i32::MAX,
            k <= schlines@.len(),
            ix == k,
            dashes@ == paragraph_prefix(),
            class@ == class_prefix(),
            comment@ == comment_prefix(),
            functions@ == functions_word(),
            semicolon@ == seq![';'],
            parse_lines(lines.take(k as int)) == Ok::<ParseStateV, (int, Seq<char>)>(
                ParseStateV { grammars: grammar_views(grammars@), pending: line_views(group_lines@) },
            ),
        decreases schlines@.len() - k,
    {
        let schline = &schlines[k];
        assert(lines[k as int] == schline@);
        ix += 1;
        k += 1;
        assert(lines.take(k as int).drop_last() =~= lines.take(k - 1));
        assert(lines.take(k as int).last() == schline@);
        let ghost st = ParseStateV { grammars: grammar_views(grammars@), pending: line_views(group_lines@) };
        if schline.len() == 0 {
            continue;
        }
        if has_prefix(schline, &dashes) {
            let linet = without_char(schline, '-');
            let lower = to_lowercase(string_of(&linet).as_str());
            let lower_chars = chars_of(lower.as_str());
            if same_chars(&lower_chars, &functions) {
                grammars.push(TLGrammar::Paragraph(TLParagraph::Functions { start: ix, end: ix }));
                assert(grammar_views(grammars@) =~= st.grammars.push(
                    TLGrammarV::Paragraph(TLParagraph::Functions { start: ix, end: ix }),
                ));
                continue;
            }
            proof {
                lemma_parse_lines_err(lines, k as int);
            }
            return Err(TLError::UnsupportParagraph { line: ix, text: string_of(schline) });
        }
        let linet = skip_chars(schline, 2);
        if has_prefix(schline, &class) {
            let mut lines_of_group: Vec<TLGroupLine> = Vec::new();
            lines_of_group.push(TLGroupLine { line: ix, token: TLGroupLineToken::Trait, text: string_of(&linet) });
            let group = TLGroup { start: ix, end: ix, lines: lines_of_group };
            assert(group.lines@.map_values(|l: TLGroupLine| l@) =~= trait_group(ix as int, schline@).lines);
            assert(group@ =~= trait_group(ix as int, schline@));
            grammars.push(TLGrammar::Group(group));
            assert(grammar_views(grammars@) =~= st.grammars.push(TLGrammarV::Group(trait_group(ix as int, schline@))));
            continue;
        }
        if has_prefix(schline, &comment) {
            group_lines.push(TLGroupLine { line: ix, token: TLGroupLineToken::Description, text: string_of(&linet) });
            assert(line_views(group_lines@) =~= st.pending.push(
                TLGroupLineV { line: ix, token: TLGroupLineToken::Description, text: schline@.skip(2) },
            ));
            continue;
        }
        let text = if has_suffix(schline, &semicolon) {
            take_chars(schline, schline.len() - 1)
        } else {
            take_chars(schline, schline.len())
        };
        assert(text@ == struct_text(schline@));
        group_lines.push(TLGroupLine { line: ix, token: TLGroupLineToken::Struct, text: string_of(&text) });
        let ghost pl = line_views(group_lines@);
        assert(pl =~= st.pending.push(
            TLGroupLineV { line: ix, token: TLGroupLineToken::Struct, text: struct_text(schline@) },
        ));
        let first = group_lines[0].line;
        assert(first == pl[0].line);
        let group = TLGroup { start: first, end: ix, lines: group_lines };
        grammars.push(TLGrammar::Group(group));
        group_lines = Vec::new();
        assert(grammar_views(grammars@) =~= st.grammars.push(TLGrammarV::Group(TLGroupV { start: pl[0].line, end: ix, lines: pl })));
        assert(line_views(group_lines@) =~= Seq::<TLGroupLineV>::empty());
    }
    assert(lines.take(lines.len() as int) =~= lines);
    Ok(grammars)
}

/// The line reader makes only shaped groups, and keeps only description
/// lines waiting.
pub proof fn lemma_parse_lines_shaped(lines: Seq<Seq<char>>)
    ensures
        parse_lines(lines) matches Ok(st) ==> crate::tl_parser::tl::all_groups_shaped(st.grammars) && forall|i: int|
            0 <= i < st.pending.len() ==> #[trigger] st.pending[i].token == TLGroupLineToken::Description,
    decreases lines.len(),
{
    if lines.len() > 0 {
        let init = lines.drop_last();
        lemma_parse_lines_shaped(init);
        if parse_lines(lines) is Ok {
            let st0 = parse_lines(init)->Ok_0;
            let st = parse_lines(lines)->Ok_0;
            let n = lines.len() as int;
            let line = lines.last();
            assert forall|i: int| #![trigger st.grammars[i]] 0 <= i < st.grammars.len() && st.grammars[i] is Group implies crate::tl_parser::tl::group_shaped(
                st.grammars[i]->Group_0,
            ) by {
                if i < st0.grammars.len() {
                    assert(st.grammars[i] == st0.grammars[i]);
                } else if line.len() > 0 && !starts_with(line, paragraph_prefix()) && !starts_with(line, class_prefix()) && !starts_with(line, comment_prefix()) {
                    let ls = st0.pending.push(
                        TLGroupLineV { line: n as i32, token: TLGroupLineToken::Struct, text: struct_text(line) },
                    );
                    assert forall|k: int| 0 <= k < ls.len() - 1 implies #[trigger] ls[k].token == TLGroupLineToken::Description by {
                        assert(ls[k] == st0.pending[k]);
                    }
                }
            }
            assert forall|i: int| 0 <= i < st.pending.len() implies #[trigger] st.pending[i].token == TLGroupLineToken::Description by {
                if i < st0.pending.len() {
                    assert(st.pending[i] == st0.pending[i]);
                }
            }
        }
    }
}

/// Paragraph markers come exactly from the `---` lines: each paragraph item
/// stands for a `---` line of its line number, and when the reading goes
/// through, every `---` line gives one.
pub proof fn lemma_paragraph_marker_lines(lines: Seq<Seq<char>>)
    requires
        lines.len() < i32::MAX,
    ensures
        parse_lines(lines) matches Ok(st) ==> forall|i: int|
            #![trigger st.grammars[i]]
            0 <= i < st.grammars.len() && st.grammars[i] is Paragraph ==> exists|k: int|
                0 <= k < lines.len() && starts_with(#[trigger] lines[k], paragraph_prefix()) && st.grammars[i]
                    == TLGrammarV::Paragraph(TLParagraph::Functions { start: (k + 1) as i32, end: (k + 1) as i32 }),
        parse_lines(lines) matches Ok(st) ==> forall|k: int|
            #![trigger lines[k]]
            0 <= k < lines.len() && starts_with(lines[k], paragraph_prefix()) ==> exists|i: int|
                0 <= i < st.grammars.len() && #[trigger] st.grammars[i] == TLGrammarV::Paragraph(
                    TLParagraph::Functions { start: (k + 1) as i32, end: (k + 1) as i32 },
                ),
    decreases lines.len(),
{
    if lines.len() > 0 {
        let init = lines.drop_last();
        lemma_paragraph_marker_lines(init);
        if parse_lines(lines) is Ok {
            let st0 = parse_lines(init)->Ok_0;
            let st = parse_lines(lines)->Ok_0;
            let n = lines.len() as int;
            let line = lines.last();
            assert(line == lines[n - 1]);
            assert forall|i: int| #![trigger st.grammars[i]] 0 <= i < st.grammars.len() && st.grammars[i] is Paragraph implies exists|k: int|
                0 <= k < lines.len() && starts_with(#[trigger] lines[k], paragraph_prefix()) && st.grammars[i]
                    == TLGrammarV::Paragraph(TLParagraph::Functions { start: (k + 1) as i32, end: (k + 1) as i32 }) by {
                if i < st0.grammars.len() {
                    assert(st.grammars[i] == st0.grammars[i]);
                    let k = choose|k: int|
                        0 <= k < init.len() && starts_with(#[trigger] init[k], paragraph_prefix()) && st0.grammars[i]
                            == TLGrammarV::Paragraph(TLParagraph::Functions { start: (k + 1) as i32, end: (k + 1) as i32 });
                    assert(lines[k] == init[k]);
                } else {
                    assert(starts_with(lines[n - 1], paragraph_prefix()));
                }
            }
            assert forall|k: int| #![trigger lines[k]] 0 <= k < lines.len() && starts_with(lines[k], paragraph_prefix()) implies exists|i: int|
                0 <= i < st.grammars.len() && #[trigger] st.grammars[i] == TLGrammarV::Paragraph(
                    TLParagraph::Functions { start: (k + 1) as i32, end: (k + 1) as i32 },
                ) by {
                if k < n - 1 {
                    assert(init[k] == lines[k]);
                    let i = choose|i: int|
                        0 <= i < st0.grammars.len() && #[trigger] st0.grammars[i] == TLGrammarV::Paragraph(
                            TLParagraph::Functions { start: (k + 1) as i32, end: (k + 1) as i32 },
                        );
                    assert(st.grammars[i] == st0.grammars[i]);
                } else {
                    assert(st.grammars[st0.grammars.len() as int] == TLGrammarV::Paragraph(
                        TLParagraph::Functions { start: n as i32, end: n as i32 },
                    ));
                }
            }
        }
    }
}

/// Whether a group line stands for a line of `lines` that is not a `---`
/// line.
pub open spec fn from_text_line(lines: Seq<Seq<char>>, gl: TLGroupLineV) -> bool {
    1 <= gl.line <= lines.len() && !starts_with(lines[gl.line - 1], paragraph_prefix())
}

/// Groups never come from `---` lines: every line of every group, and of
/// the lines still waiting, stands for a line of the text that is not a
/// `---` line.
pub proof fn lemma_group_lines_not_markers(lines: Seq<Seq<char>>)
    requires
        lines.len() < i32::MAX,
    ensures
        parse_lines(lines) matches Ok(st) ==> (forall|i: int, m: int|
            #![trigger st.grammars[i]->Group_0.lines[m]]
            0 <= i < st.grammars.len() && st.grammars[i] is Group && 0 <= m < st.grammars[i]->Group_0.lines.len()
                ==> from_text_line(lines, st.grammars[i]->Group_0.lines[m])) && (forall|m: int|
            0 <= m < st.pending.len() ==> from_text_line(lines, #[trigger] st.pending[m])),
    decreases lines.len(),
{
    if lines.len() > 0 {
        let init = lines.drop_last();
        lemma_group_lines_not_markers(init);
        if parse_lines(lines) is Ok {
            let st0 = parse_lines(init)->Ok_0;
            let st = parse_lines(lines)->Ok_0;
            let n = lines.len() as int;
            let line = lines.last();
            assert(line == lines[n - 1]);
            assert forall|gl: TLGroupLineV| #[trigger] from_text_line(init, gl) implies from_text_line(lines, gl) by {
                assert(lines[gl.line - 1] == init[gl.line - 1]);
            }
            assert forall|i: int, m: int|
                #![trigger st.grammars[i]->Group_0.lines[m]]
                0 <= i < st.grammars.len() && st.grammars[i] is Group && 0 <= m < st.grammars[i]->Group_0.lines.len()
                implies from_text_line(lines, st.grammars[i]->Group_0.lines[m]) by {
                if i < st0.grammars.len() {
                    assert(st.grammars[i] == st0.grammars[i]);
                    assert(from_text_line(init, st0.grammars[i]->Group_0.lines[m]));
                } else if starts_with(line, class_prefix()) {
                } else {
                    let ls = st0.pending.push(
                        TLGroupLineV { line: n as i32, token: TLGroupLineToken::Struct, text: struct_text(line) },
                    );
                    if m < st0.pending.len() {
                        assert(ls[m] == st0.pending[m]);
                        assert(from_text_line(init, st0.pending[m]));
                    }
                }
            }
            assert forall|m: int| 0 <= m < st.pending.len() implies from_text_line(lines, #[trigger] st.pending[m]) by {
                if m < st0.pending.len() {
                    assert(st.pending[m] == st0.pending[m]);
                    assert(from_text_line(init, st0.pending[m]));
                }
            }
        }
    }
}

} // verus!
