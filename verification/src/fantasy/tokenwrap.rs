//! The parsed tokens together with the type-fill table.
use vstd::prelude::*;

use crate::casing::{snake, to_snake};
use crate::fantasy::tdfill::{filter_of, TDTypeFill, TDTypeFillV};
use crate::text::{chars_of, remove_char, without_char};
use crate::tl_parser::types::{token_views, TLTokenArgType, TLTokenGroup, TLTokenGroupType, TLTokenGroupV};

verus! {

broadcast use vstd::string::group_string_axioms;

/// The schema's built-in types, for which no Rust type is generated.
pub open spec fn skip_types() -> Seq<Seq<char>> {
    seq![
        "double"@,
        "string"@,
        "int32"@,
        "int53"@,
        "int64"@,
        "bytes"@,
        "boolFalse"@,
        "boolTrue"@,
        "vector"@,
    ]
}

/// `maybenull`, the mark of an optional field in its description.
pub open spec fn maybe_null() -> Seq<char> {
    seq!['m', 'a', 'y', 'b', 'e', 'n', 'u', 'l', 'l']
}

/// `functions`, the file of all functions.
pub open spec fn functions_file() -> Seq<char> {
    seq!['f', 'u', 'n', 'c', 't', 'i', 'o', 'n', 's']
}

/// Whether `p` occurs in `s`.
pub open spec fn contains_seq(s: Seq<char>, p: Seq<char>) -> bool {
    exists|i: int| 0 <= i <= s.len() - p.len() && #[trigger] s.subrange(i, i + p.len()) == p
}

/// Index of the first token named `n`, or the number of tokens.
pub open spec fn first_named(ts: Seq<TLTokenGroupV>, n: Seq<char>) -> int
    decreases ts.len(),
{
    if ts.len() == 0 {
        0
    } else if ts[0].name == n {
        0
    } else {
        1 + first_named(ts.drop_first(), n)
    }
}

/// The file (module) that the type named `n` goes to: a trait its own file,
/// a function `functions`, a type the file of its trait.
pub open spec fn which_file_of(ts: Seq<TLTokenGroupV>, n: Seq<char>) -> Seq<char> {
    let t = ts[first_named(ts, n)];
    if t.type_ == TLTokenGroupType::Trait {
        snake(t.name)
    } else if t.type_ == TLTokenGroupType::Function {
        functions_file()
    } else {
        match t.blood {
            Some(b) => if b == n {
                snake(n)
            } else {
                snake(b)
            },
            None => snake(t.name),
        }
    }
}

/// Whether an argument of a token is optional: the field override says so,
/// or, without one, its description holds `maybenull` (spaces ignored).
pub open spec fn optional_arg(f: TDTypeFillV, token_name: Seq<char>, sign_name: Seq<char>, description: Option<Seq<char>>) -> bool {
    match filter_of(f, token_name, sign_name) {
        Some(flt) => flt.optional,
        None => match description {
            Some(d) => contains_seq(remove_char(d, ' '), maybe_null()),
            None => false,
        },
    }
}

/// When an argument is optional: as its field override says when there is
/// one; else exactly when its description, spaces removed, holds
/// `maybenull` somewhere (at its start, its end or in between); never
/// without override or description.
pub proof fn lemma_optional_arg_law(f: TDTypeFillV, token_name: Seq<char>, sign_name: Seq<char>, description: Option<Seq<char>>)
    ensures
        filter_of(f, token_name, sign_name) matches Some(flt) ==> optional_arg(f, token_name, sign_name, description)
            == flt.optional,
        filter_of(f, token_name, sign_name) is None ==> (optional_arg(f, token_name, sign_name, description) <==> (
        description matches Some(d) && exists|p: Seq<char>, q: Seq<char>|
            #![trigger p + maybe_null() + q]
            remove_char(d, ' ') == p + maybe_null() + q)),
{
    let mn = seq!['m', 'a', 'y', 'b', 'e', 'n', 'u', 'l', 'l'];
    assert(mn =~= maybe_null());
    if filter_of(f, token_name, sign_name) is None {
        if let Some(d) = description {
            let s = remove_char(d, ' ');
            if contains_seq(s, mn) {
                let i = choose|i: int| 0 <= i <= s.len() - mn.len() && #[trigger] s.subrange(i, i + mn.len()) == mn;
                let p = s.take(i);
                let q = s.skip(i + mn.len());
                assert(s =~= p + mn + q);
            }
            if exists|p: Seq<char>, q: Seq<char>| #![trigger p + mn + q] s == p + mn + q {
                let (p, q) = choose|p: Seq<char>, q: Seq<char>| #![trigger p + mn + q] s == p + mn + q;
                assert(s.subrange(p.len() as int, (p.len() + mn.len()) as int) =~= mn);
            }
        }
    }
}

/// The tokens of the schema and the type-fill table.
#[derive(Debug)]
pub struct TokenWrap {
    tokens: Vec<TLTokenGroup>,
    tdtypefill: TDTypeFill,
}

/// The mathematical value of a token wrapper.
pub struct TokenWrapV {
    pub tokens: Seq<TLTokenGroupV>,
    pub tdtypefill: TDTypeFillV,
}

impl View for TokenWrap {
    type V = TokenWrapV;

    closed spec fn view(&self) -> TokenWrapV {
        TokenWrapV { tokens: token_views(self.tokens@), tdtypefill: self.tdtypefill@ }
    }
}

/// Proof that `first_named` finds the first token with the name.
proof fn lemma_first_named(ts: Seq<TLTokenGroupV>, n: Seq<char>, i: int)
    requires
        0 <= i <= ts.len(),
        forall|j: int| 0 <= j < i ==> ts[j].name != n,
        i == ts.len() || ts[i].name == n,
    ensures
        first_named(ts, n) == i,
    decreases i,
{
    if i > 0 {
        assert forall|j: int| 0 <= j < i - 1 implies ts.drop_first()[j].name != n by {
            assert(ts.drop_first()[j] == ts[j + 1]);
        }
        if i < ts.len() {
            assert(ts.drop_first()[i - 1] == ts[i]);
        }
        lemma_first_named(ts.drop_first(), n, i - 1);
    }
}

/// Whether `p` occurs in `s`.
fn has_sub(s: &[char], p: &[char]) -> (res: bool)
    ensures
        res == contains_seq(s@, p@),
{
    if p.len() > s.len() {
        return false;
    }
    let mut i: usize = 0;
    while i <= s.len() - p.len()
        invariant
            p@.len() <= s@.len(),
            i <= s@.len() - p@.len() + 1,
            forall|j: int| 0 <= j < i ==> #[trigger] s@.subrange(j, j + p@.len()) != p@,
        decreases s@.len() - p@.len() + 1 - i,
    {
        let mut k: usize = 0;
        let mut same = true;
        while k < p.len()
            invariant
                i + p.len() <= s.len(),
                k <= p@.len(),
                same == (forall|m: int| 0 <= m < k ==> s@[i + m] == p@[m]),
            decreases p@.len() - k,
        {
            if s[i + k] != p[k] {
                same = false;
            }
            k += 1;
        }
        if same {
            assert(s@.subrange(i as int, i + p@.len()) =~= p@);
            return true;
        }
        assert(s@.subrange(i as int, i + p@.len()) != p@) by {
            let m = choose|m: int| 0 <= m < p@.len() && s@[i + m] != p@[m];
            assert(s@.subrange(i as int, i + p@.len())[m] != p@[m]);
        }
        i += 1;
    }
    false
}

impl TokenWrap {
    /// The wrapper of the given tokens and table.
    pub fn new(tokens: Vec<TLTokenGroup>, tdtypefill: TDTypeFill) -> (res: Self)
        ensures
            res@ == (TokenWrapV { tokens: token_views(tokens@), tdtypefill: tdtypefill@ }),
    {
        TokenWrap { tokens, tdtypefill }
    }

    /// The tokens.
    pub fn tokens(&self) -> (res: &Vec<TLTokenGroup>)
        ensures
            token_views(res@) == self@.tokens,
    {
        &self.tokens
    }

    /// The type-fill table.
    pub fn tdtypefill(&self) -> (res: &TDTypeFill)
        ensures
            res@ == self@.tdtypefill,
    {
        &self.tdtypefill
    }

    /// Whether no Rust type is generated for the named schema type.
    pub fn is_skip_type(&self, type_key: String) -> (res: bool)
        ensures
            res == skip_types().contains(type_key@),
    {
        let skips = [
            "double",
            "string",
            "int32",
            "int53",
            "int64",
            "bytes",
            "boolFalse",
            "boolTrue",
            "vector",
        ];
        let mut i: usize = 0;
        while i < 9
            invariant
                i <= 9,
                forall|j: int| 0 <= j < 9 ==> #[trigger] skip_types()[j] == skips@[j]@,
                forall|j: int| 0 <= j < i ==> skip_types()[j] != type_key@,
            decreases 9 - i,
        {
            if skips[i].to_string() == type_key {
                assert(skip_types()[i as int] == type_key@);
                return true;
            }
            i += 1;
        }
        false
    }

    /// The file (module) that the type named `type_key` goes to.
    pub fn which_file(&self, type_key: String) -> (res: String)
        requires
            exists|i: int| 0 <= i < self@.tokens.len() && self@.tokens[i].name == type_key@,
        ensures
            res@ == which_file_of(self@.tokens, type_key@),
    {
        let ghost ts = self@.tokens;
        let mut i: usize = 0;
        while i < self.tokens.len()
            invariant
                ts == token_views(self.tokens@),
                i <= ts.len(),
                forall|j: int| 0 <= j < i ==> ts[j].name != type_key@,
                exists|j: int| 0 <= j < ts.len() && ts[j].name == type_key@,
            ensures
                i <= ts.len(),
                forall|j: int| 0 <= j < i ==> ts[j].name != type_key@,
                i < ts.len() ==> ts[i as int].name == type_key@,
            decreases ts.len() - i,
        {
            let name = self.tokens[i].name();
            assert(ts[i as int] == self.tokens@[i as int]@);
            if name == type_key {
                break;
            }
            i += 1;
        }
        proof {
            if i == self.tokens.len() {
                let j = choose|j: int| 0 <= j < ts.len() && ts[j].name == type_key@;
                assert(ts[j].name != type_key@);
            }
            lemma_first_named(ts, type_key@, i as int);
        }
        let token = &self.tokens[i];
        assert(ts[i as int] == token@);
        match token.type_() {
            TLTokenGroupType::Trait => return to_snake(token.name().as_str()),
            TLTokenGroupType::Function => {
                let f = vec!['f', 'u', 'n', 'c', 't', 'i', 'o', 'n', 's'];
                assert(f@ =~= functions_file());
                return crate::text::string_of(&f);
            },
            TLTokenGroupType::Struct => {},
        }
        match token.blood() {
            Some(blood) => {
                if blood == type_key {
                    to_snake(type_key.as_str())
                } else {
                    to_snake(blood.as_str())
                }
            },
            None => to_snake(token.name().as_str()),
        }
    }

    /// Whether an argument of `token` is optional (see `optional_arg`).
    pub fn is_optional_arg(&self, token: &TLTokenGroup, arg: &TLTokenArgType) -> (res: bool)
        ensures
            res == optional_arg(self@.tdtypefill, token@.name, arg@.sign_name, arg@.description),
            filter_of(self@.tdtypefill, token@.name, arg@.sign_name) matches Some(flt) ==> res == flt.optional,
            filter_of(self@.tdtypefill, token@.name, arg@.sign_name) is None ==> (res <==> (arg@.description matches Some(
                d,
            ) && exists|p: Seq<char>, q: Seq<char>|
                #![trigger p + maybe_null() + q]
                remove_char(d, ' ') == p + maybe_null() + q)),
    {
        proof {
            lemma_optional_arg_law(self@.tdtypefill, token@.name, arg@.sign_name, arg@.description);
        }
        let token_name = token.name();
        let sign_name = arg.sign_name();
        match self.tdtypefill.td_filter(token_name.as_str(), sign_name.as_str()) {
            Some(v) => v.optional(),
            None => match arg.description() {
                Some(v) => {
                    let chars = chars_of(v.as_str());
                    let squeezed = without_char(&chars, ' ');
                    let mark = vec!['m', 'a', 'y', 'b', 'e', 'n', 'u', 'l', 'l'];
                    assert(mark@ =~= maybe_null());
                    has_sub(&squeezed, &mark)
                },
                None => false,
            },
        }
    }
}

} // verus!
