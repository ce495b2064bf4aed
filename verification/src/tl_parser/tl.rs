//! From grammar groups to token groups: names, arguments, types and descriptions.
use vstd::prelude::*;

use crate::strmap::{assoc_get, assoc_insert, StrMap};
use crate::text::{
    chars_of, ends_with, find_char, has_char, index_of, join, join_chars, lemma_index_of, remove_char,
    same_chars, skip_chars, split, split_chars, starts_with, string_of, take_chars, views,
};
use crate::tl_parser::errors::TLError;
use crate::tl_parser::reading::{
    builder_append_char, builder_append_str, builder_chars, builder_new, builder_string, reader_has_next, reader_new, reader_next, reader_position,
    reader_text,
};
use crate::tl_parser::types::{
    desc_get, desc_view, lemma_desc_insert, opt_desc_view, opt_view, token_views, TLGroup, TLGroupLine,
    TLTokenGroup, TLGrammar, arg_views,
    component_views, TLGrammarV, TLGroupLineToken, TLGroupLineV, TLGroupV, TLTokenArgType,
    TLTokenArgTypeV, TLTokenComponentType, TLTokenComponentTypeV, TLTokenGroupType, TLTokenGroupV,
};

verus! {

/// How far a step of the parser gets: through, stopped by a syntax error,
/// or into an input that the parser does not handle (it would panic there).
pub enum Status {
    Pass,
    Fail,
    Panic,
}

/// The result of parsing a group or a schema: a value, a syntax error at a
/// line with its text, or an input the parser does not handle.
pub enum Outcome<T> {
    Done(T),
    Fail(i32, Seq<char>),
    Panic,
}

/// The type name before the first `<`: `vector` in `vector<string>`.
pub open spec fn comp_prefix(s: Seq<char>) -> Seq<char> {
    s.take(index_of(s, '<'))
}

/// Whether the first `<` is followed by at least one character.
pub open spec fn comp_inner_ok(s: Seq<char>) -> bool {
    index_of(s, '<') + 2 <= s.len()
}

/// What lies between the first `<` and the last character: `string` in `vector<string>`.
pub open spec fn comp_inner(s: Seq<char>) -> Seq<char> {
    s.subrange(index_of(s, '<') + 1, s.len() - 1)
}

/// Number of occurrences of `c` in `s`.
pub open spec fn count_char(s: Seq<char>, c: char) -> nat {
    s.filter(|x: char| x == c).len()
}

/// Whether every nested type of `s` has something after its first `<`
/// (the parser cannot take a type that ends right after a `<`).
pub open spec fn comps_safe(s: Seq<char>) -> bool
    decreases s.len(),
{
    if !s.contains('<') {
        true
    } else {
        proof {
            lemma_index_of(s, '<');
        }
        comp_inner_ok(s) && comps_safe(comp_inner(s))
    }
}

/// The component types parsed from `s`: without `<`, `s` itself; with `<`,
/// one copy of the parsed first generic type for each `<` in `s`. This is
/// what the parser does, so a type nested three deep gives two equal
/// entries (`vector<vector<int32>>` inside `vector<...>`).
pub open spec fn comps_of(s: Seq<char>) -> Seq<TLTokenComponentTypeV>
    decreases s.len(),
{
    if !s.contains('<') {
        seq![TLTokenComponentTypeV { sign_type: s, components: Seq::empty() }]
    } else if comp_inner_ok(s) {
        proof {
            lemma_index_of(s, '<');
        }
        let c = TLTokenComponentTypeV { sign_type: comp_prefix(s), components: comps_of(comp_inner(s)) };
        Seq::new(count_char(s, '<'), |i: int| c)
    } else {
        Seq::empty()
    }
}

/// How parsing the argument text `w` (`name:type`) goes.
pub open spec fn arg_status(w: Seq<char>) -> Status {
    let signs = split(w, ':');
    if signs.len() != 2 {
        Status::Fail
    } else if !comps_safe(signs[1]) {
        Status::Panic
    } else {
        Status::Pass
    }
}

/// The argument parsed from `w` (`name:type`), without a description.
pub open spec fn arg_of(w: Seq<char>) -> TLTokenArgTypeV {
    let signs = split(w, ':');
    if !signs[1].contains('<') {
        TLTokenArgTypeV { sign_name: signs[0], sign_type: signs[1], description: None, components: Seq::empty() }
    } else {
        TLTokenArgTypeV {
            sign_name: signs[0],
            sign_type: comp_prefix(signs[1]),
            description: None,
            components: comps_of(comp_inner(signs[1])),
        }
    }
}

/// How parsing the argument texts in order goes: the first that does not
/// go through decides.
pub open spec fn words_status(ws: Seq<Seq<char>>) -> Status
    decreases ws.len(),
{
    if ws.len() == 0 {
        Status::Pass
    } else {
        match arg_status(ws[0]) {
            Status::Pass => words_status(ws.drop_first()),
            Status::Fail => Status::Fail,
            Status::Panic => Status::Panic,
        }
    }
}

/// The `{name:type}` groups of a line, spaces removed, and whether the last
/// `{` found its `}`.
pub open spec fn brace_scan(s: Seq<char>) -> (Seq<Seq<char>>, bool)
    decreases s.len(),
{
    if s.len() == 0 {
        (Seq::empty(), true)
    } else if s[0] == '{' {
        let rest = s.drop_first();
        let j = index_of(rest, '}');
        proof {
            lemma_index_of(rest, '}');
        }
        if j == rest.len() {
            (Seq::empty(), false)
        } else {
            let r = brace_scan(rest.skip(j + 1));
            (seq![remove_char(rest.take(j), ' ')] + r.0, r.1)
        }
    } else {
        brace_scan(s.drop_first())
    }
}

/// Whether a word ends the argument list: `=` or `?`.
pub open spec fn is_stop(w: Seq<char>) -> bool {
    w == seq!['='] || w == seq!['?']
}

/// Index of the first stop word at or after `i`, or the number of words.
pub open spec fn stop_from(ws: Seq<Seq<char>>, i: int) -> int
    decreases ws.len() - i,
{
    if i >= ws.len() {
        ws.len() as int
    } else if is_stop(ws[i]) {
        i
    } else {
        stop_from(ws, i + 1)
    }
}

/// Whether a word is a `{...}` group.
pub open spec fn braced(w: Seq<char>) -> bool {
    starts_with(w, seq!['{']) && ends_with(w, seq!['}'])
}

/// The argument texts of a group's last line, or why there are none: the
/// words between the name and `=` (or `?`), or, when the first of them is a
/// `{...}` group, the `{...}` groups of the line.
pub open spec fn arg_words(code: Seq<char>) -> Outcome<Seq<Seq<char>>> {
    let ws = split(code, ' ');
    let n = stop_from(ws, 1);
    if n > 1 && braced(ws[1]) {
        let (segs, closed) = brace_scan(code);
        match words_status(segs) {
            Status::Pass => if closed {
                Outcome::Done(segs)
            } else {
                Outcome::Fail(0, Seq::empty())
            },
            Status::Fail => Outcome::Fail(0, Seq::empty()),
            Status::Panic => Outcome::Panic,
        }
    } else {
        let a = ws.subrange(1, n);
        match words_status(a) {
            Status::Pass => Outcome::Done(a),
            Status::Fail => Outcome::Fail(0, Seq::empty()),
            Status::Panic => Outcome::Panic,
        }
    }
}

/// The name of a group: the first word of its last line.
pub open spec fn name_of(code: Seq<char>) -> Seq<char> {
    split(code, ' ')[0]
}

/// Index of the first word equal to `w` at or after `i`, or the number of words.
pub open spec fn word_from(ws: Seq<Seq<char>>, w: Seq<char>, i: int) -> int
    decreases ws.len() - i,
{
    if i >= ws.len() {
        ws.len() as int
    } else if ws[i] == w {
        i
    } else {
        word_from(ws, w, i + 1)
    }
}

/// The super type of a group: the words after the first `=`, joined by spaces.
pub open spec fn blood_of(code: Seq<char>) -> Seq<char> {
    let ws = split(code, ' ');
    let e = word_from(ws, seq!['='], 0);
    if e < ws.len() {
        join(ws.skip(e + 1), seq![' '])
    } else {
        Seq::empty()
    }
}

/// The state of reading a description text word by word.
pub struct DescState {
    pub map: Seq<(Seq<char>, Seq<char>)>,
    pub name: Option<Seq<char>>,
    pub vals: Seq<Seq<char>>,
}

/// One word of a description: `@name` starts a new entry (storing the one
/// before), other words add to the value (a leading `-` dropped), empty
/// words are skipped.
pub open spec fn desc_step(st: DescState, w: Seq<char>) -> DescState {
    if w.len() == 0 {
        st
    } else if w[0] != '@' {
        DescState { vals: st.vals.push(if w[0] == '-' { w.drop_first() } else { w }), ..st }
    } else {
        match st.name {
            Some(n) => DescState {
                map: assoc_insert(st.map, n, join(st.vals, seq![' '])),
                name: Some(w.drop_first()),
                vals: Seq::empty(),
            },
            None => DescState { map: st.map, name: Some(w.drop_first()), vals: st.vals },
        }
    }
}

/// The state after reading the words in order.
pub open spec fn desc_fold(ws: Seq<Seq<char>>) -> DescState
    decreases ws.len(),
{
    if ws.len() == 0 {
        DescState { map: Seq::empty(), name: None, vals: Seq::empty() }
    } else {
        desc_step(desc_fold(ws.drop_last()), ws.last())
    }
}

/// The description map of a text (`@name value ...`): each `@name` with the
/// words up to the next `@name`; `None` when no word starts with `@` (the
/// parser does not handle such a text).
pub open spec fn desc_map(text: Seq<char>) -> Option<Seq<(Seq<char>, Seq<char>)>> {
    let st = desc_fold(split(text, ' '));
    match st.name {
        Some(n) => Some(assoc_insert(st.map, n, join(st.vals, seq![' ']))),
        None => None,
    }
}

/// `class`.
pub open spec fn class_key() -> Seq<char> {
    seq!['c', 'l', 'a', 's', 's']
}

/// `description`.
pub open spec fn description_key() -> Seq<char> {
    seq!['d', 'e', 's', 'c', 'r', 'i', 'p', 't', 'i', 'o', 'n']
}

/// The token of a trait line: its name and description from `@class` and
/// `@description`.
pub open spec fn trait_token(gl: TLGroupLineV) -> Outcome<TLTokenGroupV> {
    match desc_map(gl.text) {
        None => Outcome::Panic,
        Some(m) => match (assoc_get(m, class_key()), assoc_get(m, description_key())) {
            (Some(c), Some(d)) => Outcome::Done(
                TLTokenGroupV {
                    description_all: Some(m),
                    description: Some(d),
                    name: c,
                    arguments: Seq::empty(),
                    type_: TLTokenGroupType::Trait,
                    blood: None,
                },
            ),
            _ => Outcome::Fail(gl.line, gl.text),
        },
    }
}

/// The state of reading a group's lines.
pub enum GroupState {
    Running { desc: Seq<char>, name: Seq<char>, blood: Option<Seq<char>>, args: Seq<Seq<char>> },
    Stopped(Outcome<TLTokenGroupV>),
}

/// One line of a group: a trait line decides the token, a description line
/// adds its text and a space, a last line gives name, super type and arguments.
pub open spec fn group_step(st: GroupState, gl: TLGroupLineV) -> GroupState {
    match st {
        GroupState::Stopped(o) => GroupState::Stopped(o),
        GroupState::Running { desc, name, blood, args } => match gl.token {
            TLGroupLineToken::Trait => GroupState::Stopped(trait_token(gl)),
            TLGroupLineToken::Description => GroupState::Running {
                desc: desc + gl.text + seq![' '],
                name,
                blood,
                args,
            },
            TLGroupLineToken::Struct => match arg_words(gl.text) {
                Outcome::Done(ws) => GroupState::Running {
                    desc,
                    name: name_of(gl.text),
                    blood: Some(blood_of(gl.text)),
                    args: ws,
                },
                Outcome::Fail(_, _) => GroupState::Stopped(Outcome::Fail(gl.line, gl.text)),
                Outcome::Panic => GroupState::Stopped(Outcome::Panic),
            },
        },
    }
}

/// The state after reading the lines in order.
pub open spec fn group_fold(ls: Seq<TLGroupLineV>) -> GroupState
    decreases ls.len(),
{
    if ls.len() == 0 {
        GroupState::Running { desc: Seq::empty(), name: Seq::empty(), blood: None, args: Seq::empty() }
    } else {
        group_step(group_fold(ls.drop_last()), ls.last())
    }
}

/// The argument parsed from `w`, with its description from `m` by its name.
pub open spec fn described_arg(w: Seq<char>, m: Option<Seq<(Seq<char>, Seq<char>)>>) -> TLTokenArgTypeV {
    let a = arg_of(w);
    match m {
        Some(m) => TLTokenArgTypeV { description: assoc_get(m, a.sign_name), ..a },
        None => a,
    }
}

/// The token group made from a grammar group, for groups of kind `ty`.
pub open spec fn token_of_group(g: TLGroupV, ty: TLTokenGroupType) -> Outcome<TLTokenGroupV> {
    match group_fold(g.lines) {
        GroupState::Stopped(o) => o,
        GroupState::Running { desc, name, blood, args } => {
            let dall = if desc.len() == 0 {
                Some(None)
            } else {
                match desc_map(desc) {
                    Some(m) => Some(Some(m)),
                    None => None,
                }
            };
            match dall {
                None => Outcome::Panic,
                Some(d) => Outcome::Done(
                    TLTokenGroupV {
                        description_all: d,
                        description: match d {
                            Some(m) => assoc_get(m, description_key()),
                            None => None,
                        },
                        name,
                        arguments: args.map_values(|w: Seq<char>| described_arg(w, d)),
                        type_: ty,
                        blood,
                    },
                ),
            }
        },
    }
}

/// Reading the grammar items in order: groups become tokens of the current
/// kind (types until a `---functions---` marker, functions after it).
pub open spec fn tokens_fold(gs: Seq<TLGrammarV>) -> (Outcome<Seq<TLTokenGroupV>>, TLTokenGroupType)
    decreases gs.len(),
{
    if gs.len() == 0 {
        (Outcome::Done(Seq::empty()), TLTokenGroupType::Struct)
    } else {
        let (o, ty) = tokens_fold(gs.drop_last());
        match o {
            Outcome::Done(ts) => match gs.last() {
                TLGrammarV::Group(g) => match token_of_group(g, ty) {
                    Outcome::Done(t) => (Outcome::Done(ts.push(t)), ty),
                    Outcome::Fail(l, t) => (Outcome::Fail(l, t), ty),
                    Outcome::Panic => (Outcome::Panic, ty),
                },
                TLGrammarV::Paragraph(_) => (Outcome::Done(ts), TLTokenGroupType::Function),
            },
            _ => (o, ty),
        }
    }
}

/// The tokens of the grammar items, or the error that stops the parser.
pub open spec fn tokens_of(gs: Seq<TLGrammarV>) -> Outcome<Seq<TLTokenGroupV>> {
    tokens_fold(gs).0
}

/// Whether `res` is the syntax error of line `line` with text `code`.
pub open spec fn is_syntax_error<T>(res: Result<T, TLError>, line: i32, code: Seq<char>) -> bool {
    res matches Err(TLError::Syntax { line: l, text: t }) && l == line && t@ == code
}

/// The type name before the first `<`: `vector<vector<string>>` gives `vector`.
fn component_sign_type(sign_type: &[char]) -> (res: Vec<char>)
    ensures
        res@ == comp_prefix(sign_type@),
{
    proof {
        lemma_index_of(sign_type@, '<');
    }
    let ix = find_char(sign_type, '<');
    take_chars(sign_type, ix)
}

/// The text inside the first generic brackets: `vector<vector<string>>` gives `vector<string>`.
fn component_sign_components(sign_type: &[char]) -> (res: Vec<char>)
    requires
        comp_inner_ok(sign_type@),
    ensures
        res@ == comp_inner(sign_type@),
{
    proof {
        lemma_index_of(sign_type@, '<');
    }
    let ix = find_char(sign_type, '<');
    assert(sign_type@.len() == sign_type.len());
    let rest = skip_chars(sign_type, ix + 1);
    let res = take_chars(&rest, sign_type.len() - (ix + 2));
    assert(res@ =~= comp_inner(sign_type@));
    res
}

/// How the count of `c` grows by one character.
proof fn lemma_count_char_take(s: Seq<char>, c: char, p: int)
    requires
        0 <= p < s.len(),
    ensures
        count_char(s.take(p + 1), c) == count_char(s.take(p), c) + (if s[p] == c { 1int } else { 0int }),
{
    reveal_with_fuel(Seq::filter, 1);
    assert(s.take(p + 1).drop_last() =~= s.take(p));
}

/// The component types of a generic type's contents (see `comps_of`).
fn arg_component_types(sign_type: &[char]) -> (res: Vec<TLTokenComponentType>)
    requires
        comps_safe(sign_type@),
    ensures
        component_views(res@) == comps_of(sign_type@),
    decreases sign_type@.len(),
{
    let mut rets: Vec<TLTokenComponentType> = Vec::new();
    if !has_char(sign_type, '<') {
        let cst = component_sign_type(sign_type);
        proof {
            lemma_index_of(sign_type@, '<');
            assert(sign_type@.take(sign_type@.len() as int) =~= sign_type@);
        }
        let empty: Vec<TLTokenComponentType> = Vec::new();
        assert(component_views(empty@) =~= Seq::<TLTokenComponentTypeV>::empty());
        rets.push(TLTokenComponentType::new(string_of(&cst), empty));
        assert(component_views(rets@) =~= comps_of(sign_type@));
        return rets;
    }
    proof {
        lemma_index_of(sign_type@, '<');
    }
    let ghost c = TLTokenComponentTypeV {
        sign_type: comp_prefix(sign_type@),
        components: comps_of(comp_inner(sign_type@)),
    };
    let text = string_of(sign_type);
    let mut reader = reader_new(text.as_str());
    let mut builder = builder_new();
    assert(sign_type@.take(0) =~= Seq::<char>::empty());
    assert(count_char(Seq::<char>::empty(), '<') == 0) by {
        reveal_with_fuel(Seq::filter, 1);
    }
    assert(component_views(rets@) =~= Seq::new(0, |i: int| c));
    while reader_has_next(&reader)
        invariant
            reader_text(reader) == sign_type@,
            reader_position(reader) <= sign_type@.len(),
            comps_safe(sign_type@),
            sign_type@.contains('<'),
            comp_inner_ok(sign_type@),
            c == (TLTokenComponentTypeV {
                sign_type: comp_prefix(sign_type@),
                components: comps_of(comp_inner(sign_type@)),
            }),
            component_views(rets@) == Seq::new(
                count_char(sign_type@.take(reader_position(reader) as int), '<'),
                |i: int| c,
            ),
        decreases sign_type@.len() - reader_position(reader),
    {
        let ghost p = reader_position(reader) as int;
        let next = reader_next(&mut reader);
        proof {
            lemma_count_char_take(sign_type@, '<', p);
        }
        match next {
            Some('<') => {
                let cst = component_sign_type(sign_type);
                let css = component_sign_components(sign_type);
                proof {
                    lemma_index_of(sign_type@, '<');
                }
                assert(css@.len() < sign_type@.len());
                let sub = arg_component_types(&css);
                let ghost before = component_views(rets@);
                rets.push(TLTokenComponentType::new(string_of(&cst), sub));
                assert(component_views(rets@) =~= before.push(c));
                assert(component_views(rets@) =~= Seq::new(count_char(sign_type@.take(p + 1), '<'), |i: int| c));
            },
            Some(',') => {},
            Some(ch) => {
                builder_append_char(&mut builder, ch);
            },
            None => {},
        }
    }
    assert(sign_type@.take(sign_type@.len() as int) =~= sign_type@);
    rets
}

/// Parses an argument text `name:type` into an argument.
fn arg_type(line: i32, code: &String, arg_text: &[char]) -> (res: Result<TLTokenArgType, TLError>)
    requires
        arg_status(arg_text@) != Status::Panic,
    ensures
        arg_status(arg_text@) == Status::Pass ==> (res matches Ok(a) && a@ == arg_of(arg_text@)),
        arg_status(arg_text@) == Status::Fail ==> is_syntax_error(res, line, code@),
{
    let signs = split_chars(arg_text, ':');
    if signs.len() != 2 {
        return Err(TLError::Syntax { line, text: code.clone() });
    }
    assert(views(signs@)[0] == signs@[0]@ && views(signs@)[1] == signs@[1]@);
    let sign_name = &signs[0];
    let sign_type = &signs[1];
    if !has_char(sign_type, '<') {
        let tat = TLTokenArgType::new(string_of(sign_name), string_of(sign_type), None, Vec::new());
        assert(component_views(Seq::<TLTokenComponentType>::empty()) =~= Seq::<TLTokenComponentTypeV>::empty());
        return Ok(tat);
    }
    proof {
        lemma_index_of(sign_type@, '<');
    }
    let component_sign_type = component_sign_type(sign_type);
    let component_sign_components = component_sign_components(sign_type);
    let tat = TLTokenArgType::new(
        string_of(sign_name),
        string_of(&component_sign_type),
        None,
        arg_component_types(&component_sign_components),
    );
    Ok(tat)
}

/// After texts that all go through, the next one decides.
proof fn lemma_words_status_push(a: Seq<Seq<char>>, w: Seq<char>)
    requires
        words_status(a) == Status::Pass,
    ensures
        words_status(a.push(w)) == arg_status(w),
    decreases a.len(),
{
    if a.len() == 0 {
        assert(a.push(w).drop_first() =~= Seq::<Seq<char>>::empty());
        assert(a.push(w)[0] == w);
        assert(words_status(a.push(w).drop_first()) == Status::Pass);
    } else {
        assert(a.push(w).drop_first() =~= a.drop_first().push(w));
        assert(a.push(w)[0] == a[0]);
        lemma_words_status_push(a.drop_first(), w);
    }
}

/// Texts that all go through do not change how the rest goes; one that
/// stops decides whatever follows.
proof fn lemma_words_status_concat(a: Seq<Seq<char>>, b: Seq<Seq<char>>)
    ensures
        words_status(a) == Status::Pass ==> words_status(a + b) == words_status(b),
        words_status(a) != Status::Pass ==> words_status(a + b) == words_status(a),
    decreases a.len(),
{
    if a.len() == 0 {
        assert(a + b =~= b);
    } else {
        assert((a + b).drop_first() =~= a.drop_first() + b);
        assert((a + b)[0] == a[0]);
        lemma_words_status_concat(a.drop_first(), b);
    }
}

/// `stop_from` is the first stop word at or after `i`.
proof fn lemma_stop_from(ws: Seq<Seq<char>>, i: int, k: int)
    requires
        0 <= i <= k <= ws.len(),
        forall|j: int| i <= j < k ==> !is_stop(ws[j]),
        k == ws.len() || is_stop(ws[k]),
    ensures
        stop_from(ws, i) == k,
    decreases k - i,
{
    if i < k {
        lemma_stop_from(ws, i + 1, k);
    }
}

/// Whether a word is `=` or `?`.
fn is_stop_word(w: &Vec<char>) -> (res: bool)
    ensures
        res == is_stop(w@),
{
    if w.len() != 1 {
        assert(w@ != seq!['='] && w@ != seq!['?']);
        return false;
    }
    let c = w[0];
    assert(w@ =~= seq![c]);
    c == '=' || c == '?'
}

/// Whether a word starts with `{` and ends with `}`.
fn is_braced(w: &Vec<char>) -> (res: bool)
    ensures
        res == braced(w@),
{
    let open = vec!['{'];
    let close = vec!['}'];
    assert(open@ =~= seq!['{']);
    assert(close@ =~= seq!['}']);
    crate::text::has_prefix(w, &open) && crate::text::has_suffix(w, &close)
}

/// The views of the arguments parsed from the given texts.
pub open spec fn args_of(ws: Seq<Seq<char>>) -> Seq<TLTokenArgTypeV> {
    ws.map_values(|w: Seq<char>| arg_of(w))
}

/// Parses the arguments of a line whose first argument is a `{name:type}`
/// group: each `{...}` group of the line, spaces removed, is one argument.
fn arg_type_define_with_component(line: i32, code: &String) -> (res: Result<Vec<TLTokenArgType>, TLError>)
    requires
        words_status(brace_scan(code@).0) != Status::Panic,
    ensures
        words_status(brace_scan(code@).0) == Status::Pass && brace_scan(code@).1 ==> (res matches Ok(v)
            && crate::tl_parser::types::arg_views(v@) == args_of(brace_scan(code@).0)),
        !(words_status(brace_scan(code@).0) == Status::Pass && brace_scan(code@).1) ==> is_syntax_error(
            res,
            line,
            code@,
        ),
{
    let mut reader = reader_new(code.as_str());
    let mut args: Vec<TLTokenArgType> = Vec::new();
    let ghost total = brace_scan(code@);
    let ghost mut done: Seq<Seq<char>> = Seq::empty();
    assert(code@.skip(0) =~= code@);
    assert(done + total.0 =~= total.0);
    proof {
        lemma_words_status_concat(done, total.0);
    }
    while reader_has_next(&reader)
        invariant
            reader_text(reader) == code@,
            reader_position(reader) <= code@.len(),
            total == brace_scan(code@),
            words_status(total.0) != Status::Panic,
            words_status(done) == Status::Pass,
            done + brace_scan(code@.skip(reader_position(reader) as int)).0 == total.0,
            brace_scan(code@.skip(reader_position(reader) as int)).1 == total.1,
            crate::tl_parser::types::arg_views(args@) == args_of(done),
        decreases code@.len() - reader_position(reader),
    {
        let ghost p = reader_position(reader) as int;
        let ghost rest_all = code@.skip(p);
        let next = reader_next(&mut reader);
        assert(rest_all[0] == code@[p]);
        assert(rest_all.drop_first() =~= code@.skip(p + 1));
        match next {
            Some('{') => {
                let mut end = false;
                let mut builder: Vec<char> = Vec::new();
                let ghost start = p + 1;
                while reader_has_next(&reader)
                    invariant_except_break
                        end == false,
                        builder@ == remove_char(code@.subrange(start, reader_position(reader) as int), ' '),
                        forall|k: int| start <= k < reader_position(reader) ==> code@[k] != '}',
                    invariant
                        reader_text(reader) == code@,
                        start <= reader_position(reader) <= code@.len(),
                        start == p + 1,
                        p >= 0,
                    ensures
                        start <= reader_position(reader) <= code@.len(),
                        builder@ == remove_char(code@.subrange(start, (if end { reader_position(reader) - 1 } else { reader_position(reader) as int })), ' '),
                        end ==> reader_position(reader) >= start + 1 && code@[reader_position(reader) - 1] == '}',
                        forall|k: int| start <= k < (if end { reader_position(reader) - 1 } else { reader_position(reader) as int }) ==> code@[k] != '}',
                        !end ==> reader_position(reader) == code@.len(),
                    decreases code@.len() - reader_position(reader),
                {
                    let ghost q = reader_position(reader) as int;
                    assert(q < code@.len());
                    let ch = reader_next(&mut reader);
                    assert(start <= q);
                    assert(code@.subrange(start, q + 1).drop_last() =~= code@.subrange(start, q));
                    reveal_with_fuel(Seq::filter, 1);
                    match ch {
                        Some(' ') => {
                            assert(remove_char(code@.subrange(start, q + 1), ' ') =~= remove_char(code@.subrange(start, q), ' '));
                            continue;
                        },
                        Some('}') => {
                            end = true;
                            break;
                        },
                        Some(c) => {
                            builder.push(c);
                            assert(remove_char(code@.subrange(start, q + 1), ' ') =~= remove_char(code@.subrange(start, q), ' ').push(c));
                        },
                        None => {},
                    }
                }
                let ghost rest = rest_all.drop_first();
                proof {
                    lemma_index_of(rest, '}');
                }
                if !end {
                    assert forall|k: int| 0 <= k < rest.len() implies rest[k] != '}' by {
                        assert(rest[k] == code@[p + 1 + k]);
                    }
                    assert(index_of(rest, '}') == rest.len()) by {
                        if index_of(rest, '}') < rest.len() {
                            assert(rest[index_of(rest, '}')] == '}');
                        }
                    }
                    assert(brace_scan(rest_all).0 =~= Seq::<Seq<char>>::empty());
                    assert(done + Seq::<Seq<char>>::empty() =~= done);
                    return Err(TLError::Syntax { line, text: code.clone() });
                }
                let ghost j = reader_position(reader) - 1 - start;
                assert forall|k: int| 0 <= k < j implies rest[k] != '}' by {
                    assert(rest[k] == code@[p + 1 + k]);
                }
                assert(rest[j] == '}');
                assert(index_of(rest, '}') == j) by {
                    if index_of(rest, '}') < j {
                        assert(rest[index_of(rest, '}')] == '}');
                    }
                    if index_of(rest, '}') > j {
                    }
                }
                assert(rest.take(j) =~= code@.subrange(start, start + j));
                assert(rest.skip(j + 1) =~= code@.skip(reader_position(reader) as int));
                let ghost seg = remove_char(rest.take(j), ' ');
                assert(builder@ == seg);
                let ghost tail = brace_scan(code@.skip(reader_position(reader) as int));
                assert(brace_scan(rest_all).0 =~= seq![seg] + tail.0);
                assert(total.0 =~= done.push(seg) + tail.0);
                proof {
                    lemma_words_status_push(done, seg);
                    lemma_words_status_concat(done.push(seg), tail.0);
                }
                if builder.len() == 0 {
                    assert(split(builder@, ':') =~= seq![Seq::<char>::empty()]);
                    return Err(TLError::Syntax { line, text: code.clone() });
                }
                let arg_type = arg_type(line, code, &builder);
                match arg_type {
                    Ok(a) => {
                        assert(arg_status(seg) == Status::Pass);
                        assert(a@ == arg_of(seg));
                        let ghost prev = crate::tl_parser::types::arg_views(args@);
                        args.push(a);
                        assert(crate::tl_parser::types::arg_views(args@) =~= prev.push(arg_of(seg)));
                        proof {
                            done = done.push(seg);
                        }
                        assert(crate::tl_parser::types::arg_views(args@) =~= args_of(done));
                    },
                    Err(e) => {
                        return Err(e);
                    },
                }
            },
            Some(ch) => {
                assert(brace_scan(rest_all) == brace_scan(code@.skip(p + 1)));
            },
            None => {},
        }
    }
    assert(code@.skip(code@.len() as int) =~= Seq::<char>::empty());
    assert(done + Seq::<Seq<char>>::empty() =~= done);
    Ok(args)
}

/// `word_from` is the first word equal to `w` at or after `i`.
proof fn lemma_word_from(ws: Seq<Seq<char>>, w: Seq<char>, i: int, k: int)
    requires
        0 <= i <= k <= ws.len(),
        forall|j: int| i <= j < k ==> ws[j] != w,
        k == ws.len() || ws[k] == w,
    ensures
        word_from(ws, w, i) == k,
    decreases k - i,
{
    if i < k {
        lemma_word_from(ws, w, i + 1, k);
    }
}

/// Parses the arguments of a group's last line: the `name:type` words
/// between the name and `=` (or `?`), or the `{name:type}` groups of the
/// line when the first of them is one.
fn group_args(line: i32, code: &String) -> (res: Result<Vec<TLTokenArgType>, TLError>)
    requires
        !(arg_words(code@) is Panic),
    ensures
        arg_words(code@) matches Outcome::Done(ws) ==> (res matches Ok(v)
            && crate::tl_parser::types::arg_views(v@) == args_of(ws)),
        arg_words(code@) is Fail ==> is_syntax_error(res, line, code@),
{
    let chars = chars_of(code.as_str());
    let words = split_chars(&chars, ' ');
    let ghost ws = views(words@);
    let mut args: Vec<TLTokenArgType> = Vec::new();
    proof {
        crate::text::lemma_split_len(code@, ' ');
    }
    if words.len() > 1 {
        assert(ws[1] == words@[1]@);
        if !is_stop_word(&words[1]) && is_braced(&words[1]) {
            proof {
                lemma_stop_from_ge(ws, 2);
                assert(stop_from(ws, 1) == stop_from(ws, 2));
            }
            return arg_type_define_with_component(line, code);
        }
    }
    let mut ix: usize = 1;
    assert(ws.subrange(1, 1) =~= Seq::<Seq<char>>::empty());
    assert(crate::tl_parser::types::arg_views(args@) =~= args_of(ws.subrange(1, 1)));
    while ix < words.len()
        invariant_except_break
            forall|j: int| 1 <= j < ix ==> !is_stop(ws[j]),
        invariant
            ws == views(words@),
            ws == split(code@, ' '),
            ws.len() >= 1,
            1 <= ix <= ws.len(),
            !(arg_words(code@) is Panic),
            ws.len() > 1 ==> !(!is_stop(ws[1]) && braced(ws[1])),
            words_status(ws.subrange(1, ix as int)) == Status::Pass,
            crate::tl_parser::types::arg_views(args@) == args_of(ws.subrange(1, ix as int)),
        ensures
            forall|j: int| 1 <= j < ix ==> !is_stop(ws[j]),
            ix == ws.len() || is_stop(ws[ix as int]),
            words_status(ws.subrange(1, ix as int)) == Status::Pass,
            crate::tl_parser::types::arg_views(args@) == args_of(ws.subrange(1, ix as int)),
        decreases ws.len() - ix,
    {
        let word = &words[ix];
        assert(ws[ix as int] == word@);
        if is_stop_word(word) {
            break;
        }
        assert(ws.subrange(1, ix + 1) =~= ws.subrange(1, ix as int).push(word@));
        proof {
            lemma_words_status_push(ws.subrange(1, ix as int), word@);
            lemma_stop_from_ge(ws, 1);
        }
        if !has_char(word, ':') {
            assert(split(word@, ':').len() != 2) by {
                lemma_split_no_sep(word@, ':');
            }
            proof {
                lemma_stop_from_after(ws, 1, ix as int);
                assert(ws.subrange(1, stop_from(ws, 1)) =~= ws.subrange(1, ix + 1) + ws.subrange(ix + 1, stop_from(ws, 1)));
                lemma_words_status_concat(ws.subrange(1, ix + 1), ws.subrange(ix + 1, stop_from(ws, 1)));
            }
            return Err(TLError::Syntax { line, text: code.clone() });
        }
        proof {
            lemma_stop_from_after(ws, 1, ix as int);
            assert(ws.subrange(1, stop_from(ws, 1)) =~= ws.subrange(1, ix + 1) + ws.subrange(ix + 1, stop_from(ws, 1)));
            lemma_words_status_concat(ws.subrange(1, ix + 1), ws.subrange(ix + 1, stop_from(ws, 1)));
        }
        let arg_type = arg_type(line, code, word);
        match arg_type {
            Ok(a) => {
                let ghost prev = crate::tl_parser::types::arg_views(args@);
                args.push(a);
                assert(crate::tl_parser::types::arg_views(args@) =~= prev.push(arg_of(word@)));
                assert(args_of(ws.subrange(1, ix + 1)) =~= args_of(ws.subrange(1, ix as int)).push(arg_of(word@)));
            },
            Err(e) => {
                return Err(e);
            },
        }
        ix += 1;
    }
    proof {
        lemma_stop_from(ws, 1, ix as int);
    }
    Ok(args)
}

/// `stop_from` never goes back.
proof fn lemma_stop_from_ge(ws: Seq<Seq<char>>, i: int)
    requires
        0 <= i <= ws.len(),
    ensures
        i <= stop_from(ws, i) <= ws.len(),
        stop_from(ws, i) < ws.len() ==> is_stop(ws[stop_from(ws, i)]),
        forall|j: int| i <= j < stop_from(ws, i) ==> !is_stop(ws[j]),
    decreases ws.len() - i,
{
    if i < ws.len() && !is_stop(ws[i]) {
        lemma_stop_from_ge(ws, i + 1);
    }
}

/// Past a word that is not a stop word, the stop comes later.
proof fn lemma_stop_from_after(ws: Seq<Seq<char>>, i: int, k: int)
    requires
        0 <= i <= k < ws.len(),
        forall|j: int| i <= j <= k ==> !is_stop(ws[j]),
    ensures
        k < stop_from(ws, i) <= ws.len(),
{
    lemma_stop_from_ge(ws, i);
}

/// Without the separator, `split` gives one piece.
proof fn lemma_split_no_sep(s: Seq<char>, sep: char)
    requires
        !s.contains(sep),
    ensures
        split(s, sep).len() == 1,
    decreases s.len(),
{
    if s.len() > 0 {
        assert(!s.drop_last().contains(sep)) by {
            if s.drop_last().contains(sep) {
                let k = choose|k: int| 0 <= k < s.drop_last().len() && s.drop_last()[k] == sep;
                assert(s[k] == sep);
            }
        }
        assert(s.last() != sep) by {
            if s.last() == sep {
                assert(s[s.len() - 1] == sep);
            }
        }
        lemma_split_no_sep(s.drop_last(), sep);
    }
}

/// The name of a group: the first word of its last line.
fn group_name(code: &String) -> (res: Result<String, TLError>)
    ensures
        res matches Ok(n) && n@ == name_of(code@),
{
    let chars = chars_of(code.as_str());
    let words = split_chars(&chars, ' ');
    proof {
        crate::text::lemma_split_len(code@, ' ');
    }
    assert(views(words@)[0] == words@[0]@);
    Ok(string_of(&words[0]))
}

/// The super type of a group: the words after the first `=`, joined by spaces.
fn group_blood(code: &String) -> (res: Result<String, TLError>)
    ensures
        res matches Ok(b) && b@ == blood_of(code@),
{
    let chars = chars_of(code.as_str());
    let words = split_chars(&chars, ' ');
    let ghost ws = views(words@);
    let eq = vec!['='];
    assert(eq@ =~= seq!['=']);
    let mut entry = false;
    let mut bloods: Vec<Vec<char>> = Vec::new();
    let mut i: usize = 0;
    proof {
        lemma_word_from_ge(ws, seq!['='], 0);
    }
    assert(views(bloods@) =~= Seq::<Seq<char>>::empty());
    while i < words.len()
        invariant
            0 <= word_from(ws, seq!['='], 0) <= ws.len(),
            ws == views(words@),
            ws == split(code@, ' '),
            eq@ == seq!['='],
            i <= ws.len(),
            entry == (word_from(ws, seq!['='], 0) < i),
            !entry ==> forall|j: int| 0 <= j < i ==> ws[j] != seq!['='],
            !entry ==> views(bloods@) == Seq::<Seq<char>>::empty(),
            entry ==> views(bloods@) == ws.subrange(word_from(ws, seq!['='], 0) + 1, i as int),
            entry ==> word_from(ws, seq!['='], 0) < ws.len() && ws[word_from(ws, seq!['='], 0)] == seq!['='],
        decreases ws.len() - i,
    {
        let word = &words[i];
        assert(ws[i as int] == word@);
        if !entry && same_chars(word, &eq) {
            proof {
                lemma_word_from(ws, seq!['='], 0, i as int);
            }
            entry = true;
            assert(ws.subrange(i + 1, i + 1) =~= Seq::<Seq<char>>::empty());
            i += 1;
            continue;
        }
        if entry {
            let ghost prev = views(bloods@);
            bloods.push(word.clone());
            assert(views(bloods@) =~= prev.push(word@));
            assert(ws.subrange(word_from(ws, seq!['='], 0) + 1, i + 1) =~= ws.subrange(word_from(ws, seq!['='], 0) + 1, i as int).push(word@));
        } else {
            proof {
                if i + 1 < ws.len() {
                }
            }
            assert(word_from(ws, seq!['='], 0) >= i + 1) by {
                lemma_word_from_ge(ws, seq!['='], 0);
                if word_from(ws, seq!['='], 0) < i + 1 {
                    assert(ws[word_from(ws, seq!['='], 0)] == seq!['=']);
                }
            }
        }
        i += 1;
    }
    let sep = vec![' '];
    let joined = join_chars(&bloods, &sep);
    proof {
        lemma_word_from_ge(ws, seq!['='], 0);
        if !entry {
            lemma_word_from(ws, seq!['='], 0, ws.len() as int);
            assert(join(Seq::<Seq<char>>::empty(), sep@) == Seq::<char>::empty());
        } else {
            assert(ws.subrange(word_from(ws, seq!['='], 0) + 1, ws.len() as int) =~= ws.skip(word_from(ws, seq!['='], 0) + 1));
        }
        assert(sep@ =~= seq![' ']);
    }
    Ok(string_of(&joined))
}

/// `word_from` stays in range and lands on a matching word.
proof fn lemma_word_from_ge(ws: Seq<Seq<char>>, w: Seq<char>, i: int)
    requires
        0 <= i <= ws.len(),
    ensures
        i <= word_from(ws, w, i) <= ws.len(),
        word_from(ws, w, i) < ws.len() ==> ws[word_from(ws, w, i)] == w,
        forall|j: int| i <= j < word_from(ws, w, i) ==> ws[j] != w,
    decreases ws.len() - i,
{
    if i < ws.len() && ws[i] != w {
        lemma_word_from_ge(ws, w, i + 1);
    }
}

/// The view of an optional character vector.
pub open spec fn opt_chars(o: Option<Vec<char>>) -> Option<Seq<char>> {
    match o {
        Some(v) => Some(v@),
        None => None,
    }
}

/// The description map of a text `@name value ... @name value ...`.
fn tl_description_map(text: &[char]) -> (res: StrMap<String>)
    requires
        desc_map(text@) is Some,
    ensures
        desc_view(res) == desc_map(text@).unwrap(),
{
    let words = split_chars(text, ' ');
    let ghost ws = views(words@);
    let sep = vec![' '];
    assert(sep@ =~= seq![' ']);
    let mut description_map: StrMap<String> = StrMap::new();
    let mut name: Option<Vec<char>> = None;
    let mut vvec: Vec<Vec<char>> = Vec::new();
    let mut i: usize = 0;
    assert(ws.take(0) =~= Seq::<Seq<char>>::empty());
    assert(desc_view(description_map) =~= Seq::<(Seq<char>, Seq<char>)>::empty());
    assert(views(vvec@) =~= Seq::<Seq<char>>::empty());
    while i < words.len()
        invariant
            ws == views(words@),
            ws == split(text@, ' '),
            sep@ == seq![' '],
            i <= ws.len(),
            desc_fold(ws.take(i as int)) == (DescState {
                map: desc_view(description_map),
                name: opt_chars(name),
                vals: views(vvec@),
            }),
        decreases ws.len() - i,
    {
        let word = &words[i];
        assert(ws[i as int] == word@);
        assert(ws.take(i + 1).drop_last() =~= ws.take(i as int));
        i += 1;
        if word.len() == 0 {
            continue;
        }
        if word[0] != '@' {
            let v = if word[0] == '-' {
                skip_chars(word, 1)
            } else {
                skip_chars(word, 0)
            };
            assert(word@.skip(0) =~= word@);
            assert(word@.skip(1) =~= word@.drop_first());
            let ghost prev = views(vvec@);
            vvec.push(v);
            assert(views(vvec@) =~= prev.push(v@));
            continue;
        }
        if let Some(n) = name {
            let joined = join_chars(&vvec, &sep);
            let ghost m0 = description_map;
            let value = string_of(&joined);
            description_map.insert(string_of(&n), value);
            proof {
                lemma_desc_insert(m0, description_map, n@, value);
            }
            vvec = Vec::new();
            assert(views(vvec@) =~= Seq::<Seq<char>>::empty());
        }
        let nm = skip_chars(word, 1);
        assert(word@.skip(1) =~= word@.drop_first());
        name = Some(nm);
    }
    assert(ws.take(ws.len() as int) =~= ws);
    match name {
        Some(n) => {
            let joined = join_chars(&vvec, &sep);
            let ghost m0 = description_map;
            let value = string_of(&joined);
            description_map.insert(string_of(&n), value);
            proof {
                lemma_desc_insert(m0, description_map, n@, value);
            }
            description_map
        },
        None => {
            description_map
        },
    }
}

/// The description map of a group's description text; none for an empty text.
fn group_description(description_text: String) -> (res: Option<StrMap<String>>)
    requires
        description_text@.len() == 0 || desc_map(description_text@) is Some,
    ensures
        description_text@.len() == 0 ==> res is None,
        description_text@.len() != 0 ==> opt_desc_view(res) == desc_map(description_text@),
{
    let chars = chars_of(description_text.as_str());
    if chars.len() == 0 {
        return None;
    }
    Some(tl_description_map(&chars))
}

/// The token of a trait line (`@class Name @description ...`).
fn group_trait(gl: &TLGroupLine) -> (res: Result<TLTokenGroup, TLError>)
    requires
        !(trait_token(gl@) is Panic),
    ensures
        trait_token(gl@) matches Outcome::Done(t) ==> (res matches Ok(v) && v@ == t),
        trait_token(gl@) matches Outcome::Fail(l, t) ==> is_syntax_error(res, l, t),
{
    let chars = chars_of(gl.text.as_str());
    let description_map = tl_description_map(&chars);
    proof {
        reveal_strlit("class");
        reveal_strlit("description");
    }
    assert("class"@ =~= class_key());
    assert("description"@ =~= description_key());
    let name = match desc_get(&description_map, "class") {
        Some(class) => class,
        None => return Err(TLError::Syntax { line: gl.line, text: gl.text.clone() }),
    };
    let description = match desc_get(&description_map, "description") {
        Some(class) => class,
        None => return Err(TLError::Syntax { line: gl.line, text: gl.text.clone() }),
    };
    let ghost m = desc_view(description_map);
    let empty: Vec<TLTokenArgType> = Vec::new();
    assert(arg_views(empty@) =~= Seq::<TLTokenArgTypeV>::empty());
    let token_group = TLTokenGroup::new(
        Some(description_map),
        Some(description),
        name,
        empty,
        TLTokenGroupType::Trait,
        None,
    );
    Ok(token_group)
}

/// Once a group's reading stops, later lines do not change it.
proof fn lemma_group_fold_stopped(ls: Seq<TLGroupLineV>, k: int)
    requires
        0 <= k <= ls.len(),
        group_fold(ls.take(k)) is Stopped,
    ensures
        group_fold(ls) == group_fold(ls.take(k)),
    decreases ls.len() - k,
{
    if k < ls.len() {
        assert(ls.take(k + 1).drop_last() =~= ls.take(k));
        lemma_group_fold_stopped(ls, k + 1);
    } else {
        assert(ls.take(k) =~= ls);
    }
}

/// Once reading the grammar items stops, later items do not change it.
proof fn lemma_tokens_fold_stopped(gs: Seq<TLGrammarV>, k: int)
    requires
        0 <= k <= gs.len(),
        !(tokens_fold(gs.take(k)).0 is Done),
    ensures
        tokens_fold(gs).0 == tokens_fold(gs.take(k)).0,
    decreases gs.len() - k,
{
    if k < gs.len() {
        assert(gs.take(k + 1).drop_last() =~= gs.take(k));
        lemma_tokens_fold_stopped(gs, k + 1);
    } else {
        assert(gs.take(k) =~= gs);
    }
}

/// Makes the token group of one grammar group, for groups of kind
/// `token_group_type` (see `token_of_group`).
fn parse_token_group(group: &TLGroup, token_group_type: TLTokenGroupType) -> (res: Result<TLTokenGroup, TLError>)
    requires
        !(token_of_group(group@, token_group_type) is Panic),
    ensures
        token_of_group(group@, token_group_type) matches Outcome::Done(t) ==> (res matches Ok(v) && v@ == t),
        token_of_group(group@, token_group_type) matches Outcome::Fail(l, t) ==> is_syntax_error(res, l, t),
{
    let lines = &group.lines;
    let ghost ls = group@.lines;
    let mut name = String::new();
    let mut blood: Option<String> = None;
    let mut arguments: Vec<TLTokenArgType> = Vec::new();
    let ghost mut argwords: Seq<Seq<char>> = Seq::empty();
    let mut dbuilder = builder_new();
    let mut ix: usize = 0;
    assert(ls.take(0) =~= Seq::<TLGroupLineV>::empty());
    assert(arg_views(arguments@) =~= args_of(argwords));
    while ix < lines.len()
        invariant
            ls == group@.lines,
            lines == group.lines,
            ix <= ls.len(),
            !(token_of_group(group@, token_group_type) is Panic),
            group_fold(ls.take(ix as int)) == (GroupState::Running {
                desc: builder_chars(dbuilder),
                name: name@,
                blood: opt_view(blood),
                args: argwords,
            }),
            arg_views(arguments@) == args_of(argwords),
        decreases ls.len() - ix,
    {
        let gl = &lines[ix];
        assert(ls[ix as int] == gl@);
        assert(ls.take(ix + 1).drop_last() =~= ls.take(ix as int));
        assert(ls.take(ix + 1).last() == gl@);
        ix += 1;
        match gl.token {
            TLGroupLineToken::Trait => {
                proof {
                    lemma_group_fold_stopped(ls, ix as int);
                }
                return group_trait(gl);
            },
            TLGroupLineToken::Description => {
                let ghost d0 = builder_chars(dbuilder);
                builder_append_str(&mut dbuilder, gl.text.as_str());
                builder_append_char(&mut dbuilder, ' ');
                assert(builder_chars(dbuilder) =~= d0 + gl.text@ + seq![' ']);
            },
            TLGroupLineToken::Struct => {
                let text = gl.text.clone();
                let n = group_name(&text);
                let b = group_blood(&text);
                match (n, b) {
                    (Ok(n), Ok(b)) => {
                        proof {
                            if !(arg_words(text@) is Done) {
                                lemma_group_fold_stopped(ls, ix as int);
                            }
                        }
                        let args = group_args(gl.line, &text);
                        match args {
                            Ok(args) => {
                                assert(text@ == gl.text@);
                                name = n;
                                blood = Some(b);
                                arguments = args;
                                proof {
                                    argwords = arg_words(text@)->Done_0;
                                }
                                assert(opt_view(blood) == Some(blood_of(gl.text@)));
                            },
                            Err(e) => {
                                return Err(e);
                            },
                        }
                    },
                    _ => {
                        return Err(TLError::Syntax { line: gl.line, text });
                    },
                }
            },
        }
    }
    assert(ls.take(ls.len() as int) =~= ls);
    let description_text = builder_string(&dbuilder);
    let description_all = group_description(description_text);
    let mut description: Option<String> = None;
    if let Some(dall) = &description_all {
        description = desc_get(dall, "description");
        proof {
            reveal_strlit("description");
        }
        assert("description"@ =~= description_key());
        assert forall|j: int| 0 <= j < arguments@.len() implies #[trigger] arguments@[j]@ == arg_of(argwords[j]) by {
            assert(arg_views(arguments@)[j] == args_of(argwords)[j]);
        }
        let mut described: Vec<TLTokenArgType> = Vec::new();
        let mut k: usize = 0;
        while k < arguments.len()
            invariant
                k <= arguments@.len(),
                arguments@.len() == argwords.len(),
                described@.len() == k,
                forall|j: int| 0 <= j < arguments@.len() ==> #[trigger] arguments@[j]@ == arg_of(argwords[j]),
                forall|j: int| 0 <= j < k ==> #[trigger] described@[j]@ == described_arg(argwords[j], Some(desc_view(*dall))),
            decreases arguments@.len() - k,
        {
            let sign_name = arguments[k].sign_name();
            let d = desc_get(dall, sign_name.as_str());
            let mut a = arguments[k].clone();
            a.set_description(d);
            described.push(a);
            k += 1;
        }
        arguments = described;
        assert(arg_views(arguments@) =~= argwords.map_values(|w: Seq<char>| described_arg(w, opt_desc_view(description_all))));
    } else {
        assert(arg_views(arguments@) =~= argwords.map_values(|w: Seq<char>| described_arg(w, opt_desc_view(description_all))));
    }
    let token_group = TLTokenGroup::new(description_all, description, name, arguments, token_group_type, blood);
    Ok(token_group)
}

/// Makes the token groups of the grammar items: each group becomes a token
/// of the current kind (types, then functions after `---functions---`).
pub fn token_group(grammars: &Vec<TLGrammar>) -> (res: Result<Vec<TLTokenGroup>, TLError>)
    requires
        !(tokens_of(crate::tl_parser::group_parser::grammar_views(grammars@)) is Panic),
    ensures
        tokens_of(crate::tl_parser::group_parser::grammar_views(grammars@)) matches Outcome::Done(ts) ==> (res matches Ok(
            v,
        ) && token_views(v@) == ts),
        tokens_of(crate::tl_parser::group_parser::grammar_views(grammars@)) matches Outcome::Fail(l, t) ==> is_syntax_error(
            res,
            l,
            t,
        ),
{
    let ghost gs = crate::tl_parser::group_parser::grammar_views(grammars@);
    let mut tokens: Vec<TLTokenGroup> = Vec::new();
    let mut token_group_type = TLTokenGroupType::Struct;
    let mut i: usize = 0;
    assert(gs.take(0) =~= Seq::<TLGrammarV>::empty());
    assert(token_views(tokens@) =~= Seq::<TLTokenGroupV>::empty());
    while i < grammars.len()
        invariant
            gs == crate::tl_parser::group_parser::grammar_views(grammars@),
            i <= gs.len(),
            !(tokens_of(gs) is Panic),
            tokens_fold(gs.take(i as int)) == (Outcome::Done(token_views(tokens@)), token_group_type),
        decreases gs.len() - i,
    {
        let grammar = &grammars[i];
        assert(gs[i as int] == grammar@);
        assert(gs.take(i + 1).drop_last() =~= gs.take(i as int));
        assert(gs.take(i + 1).last() == grammar@);
        i += 1;
        match grammar {
            TLGrammar::Group(group) => {
                proof {
                    if !(token_of_group(group@, token_group_type) is Done) {
                        lemma_tokens_fold_stopped(gs, i as int);
                    }
                }
                let token_group = parse_token_group(group, token_group_type);
                match token_group {
                    Ok(t) => {
                        let ghost prev = token_views(tokens@);
                        tokens.push(t);
                        assert(token_views(tokens@) =~= prev.push(t@));
                    },
                    Err(e) => {
                        return Err(e);
                    },
                }
            },
            TLGrammar::Paragraph(paragraph) => {
                match paragraph {
                    crate::tl_parser::types::TLParagraph::Functions { start, end } => {
                        token_group_type = TLTokenGroupType::Function;
                    },
                }
            },
        }
    }
    assert(gs.take(gs.len() as int) =~= gs);
    Ok(tokens)
}

/// The number of groups among grammar items.
pub open spec fn group_count(gs: Seq<TLGrammarV>) -> nat
    decreases gs.len(),
{
    if gs.len() == 0 {
        0
    } else {
        group_count(gs.drop_last()) + if gs.last() is Group {
            1nat
        } else {
            0nat
        }
    }
}

/// Whether a paragraph marker is among the grammar items.
pub open spec fn has_paragraph(gs: Seq<TLGrammarV>) -> bool {
    exists|i: int| 0 <= i < gs.len() && #[trigger] gs[i] is Paragraph
}

/// The kind of the groups read after the items `gs`: functions once a
/// paragraph marker has been read, structs before.
pub open spec fn kind_after(gs: Seq<TLGrammarV>) -> TLTokenGroupType {
    if has_paragraph(gs) {
        TLTokenGroupType::Function
    } else {
        TLTokenGroupType::Struct
    }
}

/// A group that stops on a token stops on a class token.
proof fn lemma_stopped_token_is_trait(ls: Seq<TLGroupLineV>)
    ensures
        group_fold(ls) matches GroupState::Stopped(Outcome::Done(t)) ==> t.type_ == TLTokenGroupType::Trait,
    decreases ls.len(),
{
    if ls.len() > 0 {
        lemma_stopped_token_is_trait(ls.drop_last());
    }
}

/// A group read as kind `ty` gives a token of kind `ty`, or a class token.
proof fn lemma_token_kind(g: TLGroupV, ty: TLTokenGroupType)
    ensures
        token_of_group(g, ty) matches Outcome::Done(t) ==> (t.type_ == ty || t.type_ == TLTokenGroupType::Trait),
{
    lemma_stopped_token_is_trait(g.lines);
}

/// Once the reading of the items stops on an error, it stays stopped.
proof fn lemma_tokens_done_prefix(gs: Seq<TLGrammarV>)
    requires
        gs.len() > 0,
        tokens_of(gs) is Done,
    ensures
        tokens_of(gs.drop_last()) is Done,
{
}

/// Reading the items one by one: the kind in force is functions exactly
/// when a paragraph marker has been read, as long as no group failed.
pub proof fn lemma_kind_in_force(gs: Seq<TLGrammarV>)
    requires
        tokens_of(gs) is Done,
    ensures
        tokens_fold(gs).1 == kind_after(gs),
    decreases gs.len(),
{
    if gs.len() > 0 {
        let init = gs.drop_last();
        lemma_tokens_done_prefix(gs);
        lemma_kind_in_force(init);
        if gs.last() is Paragraph {
            assert(gs[gs.len() - 1] is Paragraph);
        } else {
            if has_paragraph(gs) {
                let i = choose|i: int| 0 <= i < gs.len() && #[trigger] gs[i] is Paragraph;
                assert(init[i] is Paragraph);
            }
            if has_paragraph(init) {
                let i = choose|i: int| 0 <= i < init.len() && #[trigger] init[i] is Paragraph;
                assert(gs[i] is Paragraph);
            }
        }
    }
}

/// One token per group: when the parser reads all grammar items, it gives
/// exactly one token for each group, in order.
pub proof fn lemma_one_token_per_group(gs: Seq<TLGrammarV>)
    ensures
        tokens_of(gs) matches Outcome::Done(ts) ==> ts.len() == group_count(gs),
    decreases gs.len(),
{
    if gs.len() > 0 && tokens_of(gs) is Done {
        lemma_tokens_done_prefix(gs);
        lemma_one_token_per_group(gs.drop_last());
    }
}

/// Types before the functions marker, functions after it: the token of
/// the group at item `j` is a class, or a function exactly when a
/// paragraph marker comes before the group (a struct otherwise).
pub proof fn lemma_token_kinds(gs: Seq<TLGrammarV>, j: int)
    requires
        0 <= j < gs.len(),
        gs[j] is Group,
        tokens_of(gs) is Done,
    ensures
        tokens_of(gs) matches Outcome::Done(ts) && group_count(gs.take(j)) < ts.len() && (
        ts[group_count(gs.take(j)) as int].type_ == TLTokenGroupType::Trait || ts[group_count(
            gs.take(j),
        ) as int].type_ == kind_after(gs.take(j))),
    decreases gs.len(),
{
    lemma_tokens_done_prefix(gs);
    let init = gs.drop_last();
    lemma_one_token_per_group(gs);
    if j == gs.len() - 1 {
        assert(init =~= gs.take(j));
        lemma_kind_in_force(init);
        lemma_one_token_per_group(init);
        match gs.last() {
            TLGrammarV::Group(g) => {
                lemma_token_kind(g, tokens_fold(init).1);
            },
            _ => {},
        }
    } else {
        lemma_token_kinds(init, j);
        assert(init.take(j) =~= gs.take(j));
        lemma_one_token_per_group(init);
    }
}

/// Whether every nested type of `s` has something after its first `<`
/// (see `comps_safe`).
fn comps_safe_check(s: &[char]) -> (res: bool)
    ensures
        res == comps_safe(s@),
{
    let mut cur = skip_chars(s, 0);
    assert(cur@ =~= s@);
    loop
        invariant
            comps_safe(cur@) == comps_safe(s@),
        decreases cur@.len(),
    {
        if !has_char(&cur, '<') {
            return true;
        }
        proof {
            lemma_index_of(cur@, '<');
        }
        let ix = find_char(&cur, '<');
        if !(ix < cur.len() && cur.len() - ix >= 2) {
            return false;
        }
        let next = component_sign_components(&cur);
        cur = next;
    }
}

/// How parsing the argument text `w` goes (see `arg_status`).
fn arg_status_check(w: &[char]) -> (res: Status)
    ensures
        res == arg_status(w@),
{
    let signs = split_chars(w, ':');
    if signs.len() != 2 {
        return Status::Fail;
    }
    assert(views(signs@)[1] == signs@[1]@);
    if !comps_safe_check(&signs[1]) {
        Status::Panic
    } else {
        Status::Pass
    }
}

/// Through, stopped, or not handled: how far an outcome got.
pub open spec fn outcome_status<T>(o: Outcome<T>) -> Status {
    match o {
        Outcome::Done(_) => Status::Pass,
        Outcome::Fail(_, _) => Status::Fail,
        Outcome::Panic => Status::Panic,
    }
}

/// How parsing the argument texts in order goes (see `words_status`).
fn words_status_check(segs: &Vec<Vec<char>>) -> (res: Status)
    ensures
        res == words_status(views(segs@)),
{
    let ghost ws = views(segs@);
    let mut i: usize = 0;
    assert(ws.take(0) =~= Seq::<Seq<char>>::empty());
    while i < segs.len()
        invariant
            ws == views(segs@),
            i <= ws.len(),
            words_status(ws.take(i as int)) == Status::Pass,
        decreases ws.len() - i,
    {
        assert(ws[i as int] == segs@[i as int]@);
        let st = arg_status_check(&segs[i]);
        assert(ws.take(i + 1) =~= ws.take(i as int).push(ws[i as int]));
        proof {
            lemma_words_status_push(ws.take(i as int), ws[i as int]);
            assert(ws =~= ws.take(i + 1) + ws.skip(i + 1));
            lemma_words_status_concat(ws.take(i + 1), ws.skip(i + 1));
        }
        match st {
            Status::Pass => {},
            Status::Fail => {
                return Status::Fail;
            },
            Status::Panic => {
                return Status::Panic;
            },
        }
        i += 1;
    }
    assert(ws.take(ws.len() as int) =~= ws);
    Status::Pass
}

/// The `{name:type}` groups of a line and whether the last `{` found its
/// `}` (see `brace_scan`).
fn brace_scan_check(s: &[char]) -> (res: (Vec<Vec<char>>, bool))
    ensures
        views(res.0@) == brace_scan(s@).0,
        res.1 == brace_scan(s@).1,
{
    let mut segs: Vec<Vec<char>> = Vec::new();
    let mut i: usize = 0;
    assert(s@.skip(0) =~= s@);
    assert(views(segs@) + brace_scan(s@.skip(0)).0 =~= brace_scan(s@).0);
    while i < s.len()
        invariant
            i <= s@.len(),
            views(segs@) + brace_scan(s@.skip(i as int)).0 == brace_scan(s@).0,
            brace_scan(s@.skip(i as int)).1 == brace_scan(s@).1,
        decreases s@.len() - i,
    {
        let ghost cur = s@.skip(i as int);
        assert(cur[0] == s@[i as int]);
        assert(cur.drop_first() =~= s@.skip(i + 1));
        if s[i] == '{' {
            let rest = skip_chars(s, i + 1);
            assert(rest@ =~= cur.drop_first());
            proof {
                lemma_index_of(rest@, '}');
            }
            let j = find_char(&rest, '}');
            if j == rest.len() {
                assert(brace_scan(cur).0 =~= Seq::<Seq<char>>::empty());
                assert(views(segs@) + Seq::<Seq<char>>::empty() =~= views(segs@));
                return (segs, false);
            }
            let seg = crate::text::without_char(&take_chars(&rest, j), ' ');
            let ghost before = views(segs@);
            segs.push(seg);
            assert(views(segs@) =~= before.push(seg@));
            assert(rest@.skip(j + 1) =~= s@.skip(i + 1 + j + 1));
            assert(before + brace_scan(cur).0 =~= views(segs@) + brace_scan(s@.skip(i + 1 + j + 1)).0);
            i = i + 1 + j + 1;
        } else {
            i += 1;
        }
    }
    assert(s@.skip(i as int) =~= Seq::<char>::empty());
    assert(views(segs@) + Seq::<Seq<char>>::empty() =~= views(segs@));
    (segs, true)
}

/// How reading the argument texts of a group's last line goes (see
/// `arg_words`).
fn arg_words_check(code: &String) -> (res: Status)
    ensures
        res == outcome_status(arg_words(code@)),
{
    let chars = chars_of(code.as_str());
    let words = split_chars(&chars, ' ');
    let ghost ws = views(words@);
    proof {
        crate::text::lemma_split_len(code@, ' ');
    }
    if words.len() > 1 {
        assert(ws[1] == words@[1]@);
        if !is_stop_word(&words[1]) && is_braced(&words[1]) {
            proof {
                lemma_stop_from_ge(ws, 2);
                assert(stop_from(ws, 1) == stop_from(ws, 2));
            }
            let (segs, closed) = brace_scan_check(&chars);
            let st = words_status_check(&segs);
            return match st {
                Status::Pass => if closed {
                    Status::Pass
                } else {
                    Status::Fail
                },
                Status::Fail => Status::Fail,
                Status::Panic => Status::Panic,
            };
        }
    }
    let mut ix: usize = 1;
    assert(ws.subrange(1, 1) =~= Seq::<Seq<char>>::empty());
    while ix < words.len()
        invariant_except_break
            forall|j: int| 1 <= j < ix ==> !is_stop(ws[j]),
        invariant
            ws == views(words@),
            ws == split(code@, ' '),
            ws.len() >= 1,
            1 <= ix <= ws.len(),
            ws.len() > 1 ==> !(!is_stop(ws[1]) && braced(ws[1])),
            words_status(ws.subrange(1, ix as int)) == Status::Pass,
        ensures
            forall|j: int| 1 <= j < ix ==> !is_stop(ws[j]),
            ix == ws.len() || is_stop(ws[ix as int]),
            words_status(ws.subrange(1, ix as int)) == Status::Pass,
        decreases ws.len() - ix,
    {
        let word = &words[ix];
        assert(ws[ix as int] == word@);
        if is_stop_word(word) {
            break;
        }
        assert(ws.subrange(1, ix + 1) =~= ws.subrange(1, ix as int).push(word@));
        proof {
            lemma_words_status_push(ws.subrange(1, ix as int), word@);
            lemma_stop_from_ge(ws, 1);
            lemma_stop_from_after(ws, 1, ix as int);
            assert(ws.subrange(1, stop_from(ws, 1)) =~= ws.subrange(1, ix + 1) + ws.subrange(ix + 1, stop_from(ws, 1)));
            lemma_words_status_concat(ws.subrange(1, ix + 1), ws.subrange(ix + 1, stop_from(ws, 1)));
        }
        let st = arg_status_check(word);
        match st {
            Status::Pass => {},
            Status::Fail => {
                return Status::Fail;
            },
            Status::Panic => {
                return Status::Panic;
            },
        }
        ix += 1;
    }
    proof {
        lemma_stop_from(ws, 1, ix as int);
    }
    Status::Pass
}

/// Whether a word starts with `@`.
pub open spec fn is_name_word(w: Seq<char>) -> bool {
    w.len() > 0 && w[0] == '@'
}

/// The description reader has a name exactly when a word starts with `@`.
proof fn lemma_desc_name(ws: Seq<Seq<char>>)
    ensures
        desc_fold(ws).name is Some <==> exists|i: int| 0 <= i < ws.len() && is_name_word(#[trigger] ws[i]),
    decreases ws.len(),
{
    if ws.len() > 0 {
        let init = ws.drop_last();
        lemma_desc_name(init);
        if exists|i: int| 0 <= i < init.len() && is_name_word(#[trigger] init[i]) {
            let i = choose|i: int| 0 <= i < init.len() && is_name_word(#[trigger] init[i]);
            assert(ws[i] == init[i]);
        }
        if exists|i: int| 0 <= i < ws.len() && is_name_word(#[trigger] ws[i]) {
            let i = choose|i: int| 0 <= i < ws.len() && is_name_word(#[trigger] ws[i]);
            if i < init.len() {
                assert(init[i] == ws[i]);
            }
        }
        if is_name_word(ws.last()) {
            assert(is_name_word(ws[ws.len() - 1]));
        }
    }
}

/// Whether a description text has a name (`@...`) word, so that its
/// description map exists (see `desc_map`).
fn desc_map_some(text: &[char]) -> (res: bool)
    ensures
        res == desc_map(text@) is Some,
{
    let words = split_chars(text, ' ');
    let ghost ws = views(words@);
    proof {
        lemma_desc_name(ws);
    }
    let mut i: usize = 0;
    while i < words.len()
        invariant
            ws == views(words@),
            ws == split(text@, ' '),
            i <= ws.len(),
            forall|j: int| 0 <= j < i ==> !is_name_word(#[trigger] ws[j]),
        decreases ws.len() - i,
    {
        assert(ws[i as int] == words@[i as int]@);
        if words[i].len() > 0 && words[i][0] == '@' {
            assert(is_name_word(ws[i as int]));
            proof {
                lemma_desc_name(ws);
            }
            return true;
        }
        i += 1;
    }
    false
}

/// Whether a group's token is made, stops on a syntax error, or is not
/// handled, whatever the kind of the groups around it.
proof fn lemma_group_status_any_kind(g: TLGroupV, ty: TLTokenGroupType)
    ensures
        outcome_status(token_of_group(g, ty)) == outcome_status(token_of_group(g, TLTokenGroupType::Struct)),
{
}

/// How making the token of a group goes (see `token_of_group`).
fn group_status_check(g: &TLGroup) -> (res: Status)
    ensures
        res == outcome_status(token_of_group(g@, TLTokenGroupType::Struct)),
{
    let ghost ls = g@.lines;
    let mut desc: Vec<char> = Vec::new();
    let mut i: usize = 0;
    assert(ls.take(0) =~= Seq::<TLGroupLineV>::empty());
    while i < g.lines.len()
        invariant
            ls == g@.lines,
            i <= ls.len(),
            group_fold(ls.take(i as int)) matches GroupState::Running { desc: d, .. } && d == desc@,
        decreases ls.len() - i,
    {
        let gl = &g.lines[i];
        assert(ls[i as int] == gl@);
        assert(ls.take(i + 1).drop_last() =~= ls.take(i as int));
        assert(ls.take(i + 1).last() == gl@);
        i += 1;
        match gl.token {
            TLGroupLineToken::Trait => {
                proof {
                    lemma_group_fold_stopped(ls, i as int);
                }
                let t = chars_of(gl.text.as_str());
                if !desc_map_some(&t) {
                    return Status::Panic;
                }
                let m = tl_description_map(&t);
                proof {
                    reveal_strlit("class");
                    reveal_strlit("description");
                }
                assert("class"@ =~= class_key());
                assert("description"@ =~= description_key());
                let class = desc_get(&m, "class");
                let description = desc_get(&m, "description");
                return if class.is_some() && description.is_some() {
                    Status::Pass
                } else {
                    Status::Fail
                };
            },
            TLGroupLineToken::Description => {
                let ghost d0 = desc@;
                desc = crate::text::concat_chars(&desc, &chars_of(gl.text.as_str()));
                desc.push(' ');
                assert(desc@ =~= d0 + gl.text@ + seq![' ']);
            },
            TLGroupLineToken::Struct => {
                let st = arg_words_check(&gl.text);
                match st {
                    Status::Pass => {},
                    Status::Fail => {
                        proof {
                            lemma_group_fold_stopped(ls, i as int);
                        }
                        return Status::Fail;
                    },
                    Status::Panic => {
                        proof {
                            lemma_group_fold_stopped(ls, i as int);
                        }
                        return Status::Panic;
                    },
                }
            },
        }
    }
    assert(ls.take(ls.len() as int) =~= ls);
    if desc.len() == 0 {
        Status::Pass
    } else if desc_map_some(&desc) {
        Status::Pass
    } else {
        Status::Panic
    }
}

/// Whether the token parser handles the grammar items: it reads them all,
/// or stops on a syntax error, before any input it cannot take.
pub fn tokens_handled(grammars: &Vec<TLGrammar>) -> (res: bool)
    ensures
        res == !(tokens_of(crate::tl_parser::group_parser::grammar_views(grammars@)) is Panic),
{
    let ghost gs = crate::tl_parser::group_parser::grammar_views(grammars@);
    let mut i: usize = 0;
    assert(gs.take(0) =~= Seq::<TLGrammarV>::empty());
    while i < grammars.len()
        invariant
            gs == crate::tl_parser::group_parser::grammar_views(grammars@),
            i <= gs.len(),
            tokens_fold(gs.take(i as int)).0 is Done,
        decreases gs.len() - i,
    {
        let grammar = &grammars[i];
        assert(gs[i as int] == grammar@);
        assert(gs.take(i + 1).drop_last() =~= gs.take(i as int));
        assert(gs.take(i + 1).last() == grammar@);
        i += 1;
        match grammar {
            TLGrammar::Group(g) => {
                proof {
                    lemma_group_status_any_kind(g@, tokens_fold(gs.take(i - 1)).1);
                }
                let st = group_status_check(g);
                match st {
                    Status::Pass => {},
                    Status::Fail => {
                        proof {
                            lemma_tokens_fold_stopped(gs, i as int);
                        }
                        return true;
                    },
                    Status::Panic => {
                        proof {
                            lemma_tokens_fold_stopped(gs, i as int);
                        }
                        return false;
                    },
                }
            },
            TLGrammar::Paragraph(_) => {},
        }
    }
    assert(gs.take(gs.len() as int) =~= gs);
    true
}

/// A token's descriptions agree with its map of descriptions: its own
/// description is the `description` entry, and each argument's is the
/// entry of the argument's name.
pub open spec fn descriptions_from_map(t: TLTokenGroupV) -> bool {
    &&& t.description == match t.description_all {
        Some(m) => assoc_get(m, description_key()),
        None => None,
    }
    &&& forall|k: int|
        0 <= k < t.arguments.len() ==> #[trigger] t.arguments[k].description == match t.description_all {
            Some(m) => assoc_get(m, t.arguments[k].sign_name),
            None => None,
        }
}

/// A token made from a class line: a class without super type or
/// arguments, its descriptions taken from its map.
proof fn lemma_stopped_token_shape(ls: Seq<TLGroupLineV>)
    ensures
        group_fold(ls) matches GroupState::Stopped(Outcome::Done(t)) ==> t.type_ == TLTokenGroupType::Trait
            && t.blood is None && t.arguments.len() == 0 && descriptions_from_map(t),
    decreases ls.len(),
{
    if ls.len() > 0 {
        lemma_stopped_token_shape(ls.drop_last());
    }
}

/// Every token made from a group takes its descriptions from its map; a
/// token of a group read as a struct or function is a class only when it
/// has no super type.
pub proof fn lemma_group_token_descriptions(g: TLGroupV, ty: TLTokenGroupType)
    ensures
        token_of_group(g, ty) matches Outcome::Done(t) ==> descriptions_from_map(t),
        token_of_group(g, ty) matches Outcome::Done(t) ==> (t.type_ == TLTokenGroupType::Trait && ty
            != TLTokenGroupType::Trait ==> t.blood is None),
{
    lemma_stopped_token_shape(g.lines);
    match group_fold(g.lines) {
        GroupState::Running { desc, name, blood, args } => {
            if token_of_group(g, ty) is Done {
                let t = token_of_group(g, ty)->Done_0;
                assert forall|k: int| 0 <= k < t.arguments.len() implies #[trigger] t.arguments[k].description
                    == match t.description_all {
                    Some(m) => assoc_get(m, t.arguments[k].sign_name),
                    None => None,
                } by {
                    assert(t.arguments[k] == described_arg(args[k], t.description_all));
                }
            }
        },
        _ => {},
    }
}

/// A group whose first line is a class line gives the class token of that
/// line, whatever kind the groups around it are read as; later lines do
/// not change it.
pub proof fn lemma_class_line_group(g: TLGroupV, ty: TLTokenGroupType)
    requires
        g.lines.len() > 0,
        g.lines[0].token == TLGroupLineToken::Trait,
    ensures
        token_of_group(g, ty) == trait_token(g.lines[0]),
        token_of_group(g, ty) matches Outcome::Done(t) ==> t.type_ == TLTokenGroupType::Trait && t.blood is None,
{
    let none = Seq::<TLGroupLineV>::empty();
    assert(g.lines.take(1).drop_last() =~= none);
    assert(group_fold(none) is Running);
    assert(g.lines.take(1).last() == g.lines[0]);
    assert(group_fold(g.lines.take(1)) == GroupState::Stopped(trait_token(g.lines[0])));
    lemma_group_fold_stopped(g.lines, 1);
}

/// The kind in force is never class.
proof fn lemma_kind_not_trait(gs: Seq<TLGrammarV>)
    ensures
        tokens_fold(gs).1 != TLTokenGroupType::Trait,
    decreases gs.len(),
{
    if gs.len() > 0 {
        lemma_kind_not_trait(gs.drop_last());
    }
}

/// Every token the parser gives takes its descriptions from its map, and a
/// class token has no super type.
pub proof fn lemma_token_descriptions(gs: Seq<TLGrammarV>)
    ensures
        tokens_of(gs) matches Outcome::Done(ts) ==> forall|i: int|
            0 <= i < ts.len() ==> descriptions_from_map(#[trigger] ts[i]) && (ts[i].type_
                == TLTokenGroupType::Trait ==> ts[i].blood is None),
    decreases gs.len(),
{
    if gs.len() > 0 && tokens_of(gs) is Done {
        let init = gs.drop_last();
        lemma_tokens_done_prefix(gs);
        lemma_token_descriptions(init);
        lemma_kind_not_trait(init);
        match gs.last() {
            TLGrammarV::Group(g) => {
                lemma_group_token_descriptions(g, tokens_fold(init).1);
            },
            _ => {},
        }
    }
}

/// Each group's token, in order: when the parser reads all items, the token
/// of the group at item `j` is the token that group gives when read as the
/// kind in force there (functions after a paragraph marker, structs before).
pub proof fn lemma_token_of_each_group(gs: Seq<TLGrammarV>, j: int)
    requires
        0 <= j < gs.len(),
        gs[j] is Group,
        tokens_of(gs) is Done,
    ensures
        tokens_of(gs) matches Outcome::Done(ts) && group_count(gs.take(j)) < ts.len() && token_of_group(
            gs[j]->Group_0,
            kind_after(gs.take(j)),
        ) == Outcome::Done(ts[group_count(gs.take(j)) as int]),
    decreases gs.len(),
{
    lemma_tokens_done_prefix(gs);
    let init = gs.drop_last();
    lemma_one_token_per_group(gs);
    if j == gs.len() - 1 {
        assert(init =~= gs.take(j));
        lemma_kind_in_force(init);
        lemma_one_token_per_group(init);
    } else {
        lemma_token_of_each_group(init, j);
        assert(init.take(j) =~= gs.take(j));
        assert(init[j] == gs[j]);
    }
}

/// Whether every group among the items gives a token when read as the kind
/// in force at it.
pub open spec fn all_groups_read(gs: Seq<TLGrammarV>) -> bool {
    forall|j: int|
        #![trigger gs[j]]
        0 <= j < gs.len() && gs[j] is Group ==> token_of_group(gs[j]->Group_0, kind_after(gs.take(j))) is Done
}

/// The parser reads all items exactly when every group gives a token when
/// read as the kind in force at it.
pub proof fn lemma_all_groups_read(gs: Seq<TLGrammarV>)
    ensures
        tokens_of(gs) is Done <==> all_groups_read(gs),
    decreases gs.len(),
{
    if gs.len() > 0 {
        let init = gs.drop_last();
        lemma_all_groups_read(init);
        if tokens_of(gs) is Done {
            assert forall|j: int| #![trigger gs[j]] 0 <= j < gs.len() && gs[j] is Group implies token_of_group(
                gs[j]->Group_0,
                kind_after(gs.take(j)),
            ) is Done by {
                lemma_token_of_each_group(gs, j);
            }
        }
        if all_groups_read(gs) {
            assert forall|j: int| #![trigger init[j]] 0 <= j < init.len() && init[j] is Group implies token_of_group(
                init[j]->Group_0,
                kind_after(init.take(j)),
            ) is Done by {
                assert(init[j] == gs[j]);
                assert(init.take(j) =~= gs.take(j));
            }
            assert(tokens_of(init) is Done);
            lemma_kind_in_force(init);
            assert(init =~= gs.take(gs.len() - 1));
            if gs.last() is Group {
                assert(gs[gs.len() - 1] is Group);
            }
        }
    }
}

/// The parser stops at the first group that gives no token: its syntax
/// error, or an input the parser does not handle, is what it stops on.
pub proof fn lemma_first_unread_group(gs: Seq<TLGrammarV>, j: int)
    requires
        0 <= j < gs.len(),
        gs[j] is Group,
        all_groups_read(gs.take(j)),
        !(token_of_group(gs[j]->Group_0, kind_after(gs.take(j))) is Done),
    ensures
        token_of_group(gs[j]->Group_0, kind_after(gs.take(j))) matches Outcome::Fail(l, t) ==> tokens_of(gs)
            == Outcome::<Seq<TLTokenGroupV>>::Fail(l, t),
        token_of_group(gs[j]->Group_0, kind_after(gs.take(j))) is Panic ==> tokens_of(gs) is Panic,
{
    let pre = gs.take(j);
    lemma_all_groups_read(pre);
    lemma_kind_in_force(pre);
    assert(gs.take(j + 1).drop_last() =~= pre);
    assert(gs.take(j + 1).last() == gs[j]);
    lemma_tokens_fold_stopped(gs, j + 1);
}

/// A group as the line reader makes it: a class line alone, or description
/// lines followed by one last line.
pub open spec fn group_shaped(g: TLGroupV) -> bool {
    ||| (g.lines.len() == 1 && g.lines[0].token == TLGroupLineToken::Trait)
    ||| (g.lines.len() >= 1 && g.lines.last().token == TLGroupLineToken::Struct && forall|i: int|
        0 <= i < g.lines.len() - 1 ==> #[trigger] g.lines[i].token == TLGroupLineToken::Description)
}

/// Whether every group among the items is shaped as the line reader makes it.
pub open spec fn all_groups_shaped(gs: Seq<TLGrammarV>) -> bool {
    forall|i: int| #![trigger gs[i]] 0 <= i < gs.len() && gs[i] is Group ==> group_shaped(gs[i]->Group_0)
}

/// Description lines alone leave a group's reading running.
proof fn lemma_descriptions_running(ls: Seq<TLGroupLineV>)
    requires
        forall|i: int| 0 <= i < ls.len() ==> #[trigger] ls[i].token == TLGroupLineToken::Description,
    ensures
        group_fold(ls) matches GroupState::Running { blood, .. } && blood is None,
    decreases ls.len(),
{
    if ls.len() > 0 {
        assert forall|i: int| 0 <= i < ls.drop_last().len() implies #[trigger] ls.drop_last()[i].token
            == TLGroupLineToken::Description by {
            assert(ls.drop_last()[i] == ls[i]);
        }
        lemma_descriptions_running(ls.drop_last());
        assert(ls.last() == ls[ls.len() - 1]);
    }
}

/// A shaped group read as a struct or function gives a class token exactly
/// when the token has no super type.
proof fn lemma_shaped_group_class(g: TLGroupV, ty: TLTokenGroupType)
    requires
        group_shaped(g),
        ty != TLTokenGroupType::Trait,
    ensures
        token_of_group(g, ty) matches Outcome::Done(t) ==> (t.type_ == TLTokenGroupType::Trait <==> t.blood is None),
        token_of_group(g, ty) matches Outcome::Done(t) ==> (t.type_ == TLTokenGroupType::Trait || t.blood == Some(
            blood_of(g.lines.last().text),
        )),
{
    if g.lines.len() == 1 && g.lines[0].token == TLGroupLineToken::Trait {
        lemma_class_line_group(g, ty);
    } else {
        let n = g.lines.len();
        let init = g.lines.drop_last();
        assert forall|i: int| 0 <= i < init.len() implies #[trigger] init[i].token == TLGroupLineToken::Description by {
            assert(init[i] == g.lines[i]);
        }
        lemma_descriptions_running(init);
        assert(g.lines.last().token == TLGroupLineToken::Struct);
    }
}

/// In a schema read as shaped groups, a token is a class exactly when it
/// has no super type.
pub proof fn lemma_class_iff_no_super(gs: Seq<TLGrammarV>)
    requires
        all_groups_shaped(gs),
    ensures
        tokens_of(gs) matches Outcome::Done(ts) ==> forall|i: int|
            0 <= i < ts.len() ==> (#[trigger] ts[i].type_ == TLTokenGroupType::Trait <==> ts[i].blood is None),
    decreases gs.len(),
{
    if gs.len() > 0 && tokens_of(gs) is Done {
        let init = gs.drop_last();
        assert forall|i: int| #![trigger init[i]] 0 <= i < init.len() && init[i] is Group implies group_shaped(
            init[i]->Group_0,
        ) by {
            assert(init[i] == gs[i]);
        }
        lemma_tokens_done_prefix(gs);
        lemma_class_iff_no_super(init);
        lemma_kind_not_trait(init);
        match gs.last() {
            TLGrammarV::Group(g) => {
                assert(gs[gs.len() - 1] is Group);
                lemma_shaped_group_class(g, tokens_fold(init).1);
            },
            _ => {},
        }
    }
}

/// In a schema read as shaped groups, the token of a struct or function
/// group has as super type (or return type) the words after the first `=`
/// of the group's last line, joined by a space.
pub proof fn lemma_super_type_of_group(gs: Seq<TLGrammarV>, j: int)
    requires
        all_groups_shaped(gs),
        0 <= j < gs.len(),
        gs[j] is Group,
        tokens_of(gs) is Done,
    ensures
        tokens_of(gs) matches Outcome::Done(ts) && group_count(gs.take(j)) < ts.len() && (ts[group_count(
            gs.take(j),
        ) as int].type_ == TLTokenGroupType::Trait || ts[group_count(gs.take(j)) as int].blood == Some(
            blood_of(gs[j]->Group_0.lines.last().text),
        )),
{
    lemma_token_of_each_group(gs, j);
    assert(gs.take(j).len() == j);
    if has_paragraph(gs.take(j)) {
    }
    assert(kind_after(gs.take(j)) != TLTokenGroupType::Trait);
    lemma_shaped_group_class(gs[j]->Group_0, kind_after(gs.take(j)));
}

/// When the parser does not read all items, some group is the first that
/// gives no token, and the parser stops on its syntax error or on its
/// input that it does not handle.
pub proof fn lemma_token_list_error(gs: Seq<TLGrammarV>)
    requires
        !(tokens_of(gs) is Done),
    ensures
        exists|j: int|
            #![trigger gs[j]]
            0 <= j < gs.len() && gs[j] is Group && all_groups_read(gs.take(j)) && !(token_of_group(
                gs[j]->Group_0,
                kind_after(gs.take(j)),
            ) is Done) && (token_of_group(gs[j]->Group_0, kind_after(gs.take(j))) matches Outcome::Fail(l, t)
                ==> tokens_of(gs) == Outcome::<Seq<TLTokenGroupV>>::Fail(l, t)) && (token_of_group(
                gs[j]->Group_0,
                kind_after(gs.take(j)),
            ) is Panic ==> tokens_of(gs) is Panic),
    decreases gs.len(),
{
    let init = gs.drop_last();
    if !(tokens_of(init) is Done) {
        lemma_token_list_error(init);
        let j = choose|j: int|
            #![trigger init[j]]
            0 <= j < init.len() && init[j] is Group && all_groups_read(init.take(j)) && !(token_of_group(
                init[j]->Group_0,
                kind_after(init.take(j)),
            ) is Done) && (token_of_group(init[j]->Group_0, kind_after(init.take(j))) matches Outcome::Fail(l, t)
                ==> tokens_of(init) == Outcome::<Seq<TLTokenGroupV>>::Fail(l, t)) && (token_of_group(
                init[j]->Group_0,
                kind_after(init.take(j)),
            ) is Panic ==> tokens_of(init) is Panic);
        assert(init[j] == gs[j]);
        assert(init.take(j) =~= gs.take(j));
        assert(tokens_of(gs) == tokens_of(init));
        lemma_first_unread_group(gs, j);
    } else {
        let j = gs.len() - 1;
        assert(init =~= gs.take(j));
        lemma_all_groups_read(init);
        lemma_kind_in_force(init);
        assert(gs.last() == gs[j]);
        lemma_first_unread_group(gs, j);
    }
}

} // verus!
