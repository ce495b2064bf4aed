//! The values that the templates ask for: Rust types of arguments, related
//! tokens, and names derived from schema names.
use vstd::prelude::*;

use crate::casing::{camel, capitalized, dashed, snake, to_camel, to_camel_lowercase, to_capitalized, to_dashed, to_snake};
use crate::fantasy::tdfill::{filter_type_of, TDTypeFill, TDTypeFillV};
use crate::fantasy::tokenwrap::{optional_arg, TokenWrap, TokenWrapV};
use crate::strmap::assoc_get;
use crate::text::{
    chars_of, concat_chars, has_prefix, join_chars, views, join, lowercase, replace, replace_chars, same_chars, starts_with, string_of,
    to_lowercase,
};
use crate::tl_parser::types::{
    TLTokenArgTypeV, component_views, token_views, TLTokenArgType, TLTokenComponentType, TLTokenComponentTypeV,
    TLTokenGroup, TLTokenGroupV,
};

verus! {

broadcast use vstd::string::group_string_axioms;

/// The Rust name of a schema type: the table's mapping, or its camel case.
pub open spec fn mapped_type(f: TDTypeFillV, t: Seq<char>) -> Seq<char> {
    match assoc_get(f.mapper, t) {
        Some(m) => m,
        None => camel(t, true),
    }
}

/// `, `.
pub open spec fn comma_space() -> Seq<char> {
    seq![',', ' ']
}

/// A component type as Rust generic arguments: `<Name>` or `<Name<...>>`.
pub open spec fn component_text(c: TLTokenComponentTypeV, f: TDTypeFillV) -> Seq<char>
    decreases c, 2int,
{
    seq!['<'] + mapped_type(f, c.sign_type) + (if c.components.len() > 0 {
        components_text(c.components, f)
    } else {
        Seq::empty()
    }) + seq!['>']
}

/// Each component type as Rust generic arguments.
pub open spec fn component_texts(cs: Seq<TLTokenComponentTypeV>, f: TDTypeFillV) -> Seq<Seq<char>>
    decreases cs, 1int,
{
    Seq::new(
        cs.len(),
        |i: int|
            if 0 <= i < cs.len() {
                component_text(cs[i], f)
            } else {
                Seq::empty()
            },
    )
}

/// Component types as Rust generic arguments, joined by `, `.
pub open spec fn components_text(cs: Seq<TLTokenComponentTypeV>, f: TDTypeFillV) -> Seq<char>
    decreases cs, 2int,
{
    join(component_texts(cs, f), comma_space())
}

/// The Rust name of a schema type (see `mapped_type`).
fn map_type(tdtypefill: &TDTypeFill, sign_type: &String) -> (res: Vec<char>)
    ensures
        res@ == mapped_type(tdtypefill@, sign_type@),
{
    let t = match tdtypefill.mapper(sign_type.as_str()) {
        Some(v) => v,
        None => to_camel(sign_type.as_str()),
    };
    chars_of(t.as_str())
}

/// Component types as Rust generic arguments (see `components_text`).
pub fn fill_type_components(components: &Vec<TLTokenComponentType>, tdtypefill: &TDTypeFill) -> (res: String)
    ensures
        res@ == components_text(component_views(components@), tdtypefill@),
    decreases component_views(components@),
{
    let ghost cv = component_views(components@);
    let mut rets: Vec<Vec<char>> = Vec::new();
    let mut i: usize = 0;
    while i < components.len()
        invariant
            cv == component_views(components@),
            i <= cv.len(),
            rets@.len() == i,
            forall|j: int| 0 <= j < i ==> #[trigger] rets@[j]@ == component_text(cv[j], tdtypefill@),
        decreases cv.len() - i,
    {
        let component = &components[i];
        assert(cv[i as int] == component@);
        let sign_type = component.sign_type();
        let mut st = map_type(tdtypefill, &sign_type);
        let sub_components = component.components();
        if sub_components.len() > 0 {
            assert(decreases_to!(cv => cv[i as int]));
            assert(decreases_to!(cv[i as int] => cv[i as int].components));
            let component_type = fill_type_components(&sub_components, tdtypefill);
            st = concat_chars(&st, &chars_of(component_type.as_str()));
        }
        let open = vec!['<'];
        let close = vec!['>'];
        let item = concat_chars(&concat_chars(&open, &st), &close);
        assert(item@ =~= component_text(cv[i as int], tdtypefill@));
        rets.push(item);
        i += 1;
    }
    let sep = vec![',', ' '];
    assert(sep@ =~= comma_space());
    let joined = join_chars(&rets, &sep);
    assert(views(rets@) =~= component_texts(cv, tdtypefill@));
    string_of(&joined)
}

/// `Option<`.
pub open spec fn option_open() -> Seq<char> {
    seq!['O', 'p', 't', 'i', 'o', 'n', '<']
}

/// The Rust type of an argument of `token`: the mapped type with its generic
/// arguments, replaced by a field override when there is one, and wrapped
/// in `Option<...>` when the argument is optional and not a builder argument.
pub open spec fn td_arg_type(w: TokenWrapV, token: TLTokenGroupV, arg: TLTokenArgTypeV, builder_arg: bool) -> Seq<char> {
    let f = w.tdtypefill;
    let base = mapped_type(f, arg.sign_type) + (if arg.components.len() > 0 {
        components_text(arg.components, f)
    } else {
        Seq::empty()
    });
    let t = filter_type_of(f, token.name, arg.sign_name, base);
    if !builder_arg && optional_arg(f, token.name, arg.sign_name, arg.description) {
        option_open() + t + seq!['>']
    } else {
        t
    }
}

/// The Rust type of an argument of `token` (see `td_arg_type`).
pub fn td_arg(tknwrap: &TokenWrap, token: &TLTokenGroup, arg: &TLTokenArgType, builder_arg: bool) -> (res: String)
    ensures
        res@ == td_arg_type(tknwrap@, token@, arg@, builder_arg),
{
    let tdtypefill = tknwrap.tdtypefill();
    let sign_type = arg.sign_type();
    let mut arg_type = map_type(tdtypefill, &sign_type);
    let components = arg.components();
    if components.len() > 0 {
        let component_type = fill_type_components(&components, tdtypefill);
        arg_type = concat_chars(&arg_type, &chars_of(component_type.as_str()));
    }
    let token_name = token.name();
    let sign_name = arg.sign_name();
    let filtered = tdtypefill.td_filter_type(token_name.as_str(), sign_name.as_str(), string_of(&arg_type).as_str());
    if !builder_arg && tknwrap.is_optional_arg(token, arg) {
        let open = vec!['O', 'p', 't', 'i', 'o', 'n', '<'];
        let close = vec!['>'];
        assert(open@ =~= option_open());
        let wrapped = concat_chars(&concat_chars(&open, &chars_of(filtered.as_str())), &close);
        return string_of(&wrapped);
    }
    filtered
}

/// The type of an optional argument, outside a builder, is an optional
/// type: `is_optional` holds of what `td_arg` gives.
pub proof fn lemma_optional_arg_type(w: TokenWrapV, token: TLTokenGroupV, arg: TLTokenArgTypeV)
    requires
        optional_arg(w.tdtypefill, token.name, arg.sign_name, arg.description),
    ensures
        starts_with(td_arg_type(w, token, arg, false), option_open()),
{
    let t = td_arg_type(w, token, arg, false);
    assert(t.take(7) =~= option_open());
}

/// An argument with a field override that names a type gets that type,
/// made optional (outside a builder) exactly when the override says so.
pub proof fn lemma_td_arg_override(w: TokenWrapV, token: TLTokenGroupV, arg: TLTokenArgTypeV)
    requires
        crate::fantasy::tdfill::filter_of(w.tdtypefill, token.name, arg.sign_name) is Some,
        crate::fantasy::tdfill::filter_of(w.tdtypefill, token.name, arg.sign_name)->Some_0.sign_type is Some,
    ensures
        td_arg_type(w, token, arg, false) == (if crate::fantasy::tdfill::filter_of(w.tdtypefill, token.name, arg.sign_name)->Some_0.optional {
            option_open() + crate::fantasy::tdfill::filter_of(w.tdtypefill, token.name, arg.sign_name)->Some_0.sign_type->Some_0
                + seq!['>']
        } else {
            crate::fantasy::tdfill::filter_of(w.tdtypefill, token.name, arg.sign_name)->Some_0.sign_type->Some_0
        }),
        td_arg_type(w, token, arg, true) == crate::fantasy::tdfill::filter_of(w.tdtypefill, token.name, arg.sign_name)->Some_0.sign_type->Some_0,
{
    let f = w.tdtypefill;
    let base = mapped_type(f, arg.sign_type) + (if arg.components.len() > 0 {
        components_text(arg.components, f)
    } else {
        Seq::empty()
    });
    crate::fantasy::tdfill::lemma_filter_type_law(f, token.name, arg.sign_name, base);
    crate::fantasy::tokenwrap::lemma_optional_arg_law(f, token.name, arg.sign_name, arg.description);
}

/// Whether `a` and `b` are equal ignoring case (`lowercase` of both).
fn same_ignore_case(a: &str, b: &str) -> (res: bool)
    ensures
        res == (lowercase(a@) == lowercase(b@)),
{
    let la = chars_of(to_lowercase(a).as_str());
    let lb = chars_of(to_lowercase(b).as_str());
    same_chars(&la, &lb)
}

/// Whether `t` is a sub type of the type named `n`: its super type is `n`
/// and it is not `n` itself, names compared ignoring case.
pub open spec fn is_sub_token(t: TLTokenGroupV, n: Seq<char>) -> bool {
    &&& t.blood matches Some(b)
    &&& lowercase(b) == lowercase(n)
    &&& lowercase(t.name) != lowercase(n)
}

/// The sub types of `token`, in token order.
pub fn sub_tokens(tknwrap: &TokenWrap, token: &TLTokenGroup) -> (res: Vec<TLTokenGroup>)
    ensures
        token_views(res@) == tknwrap@.tokens.filter(|t: TLTokenGroupV| is_sub_token(t, token@.name)),
        forall|x: TLTokenGroupV|
            #[trigger] token_views(res@).contains(x) <==> tknwrap@.tokens.contains(x) && (x.blood matches Some(b)
                && lowercase(b) == lowercase(token@.name)) && lowercase(x.name) != lowercase(token@.name),
{
    let tokens = tknwrap.tokens();
    let ghost ts = tknwrap@.tokens;
    let token_name = token.name();
    let mut res: Vec<TLTokenGroup> = Vec::new();
    let mut i: usize = 0;
    assert(ts.take(0) =~= Seq::<TLTokenGroupV>::empty());
    assert(token_views(res@) =~= Seq::<TLTokenGroupV>::empty());
    while i < tokens.len()
        invariant
            ts == token_views(tokens@),
            token_name@ == token@.name,
            i <= ts.len(),
            token_views(res@) == ts.take(i as int).filter(|t: TLTokenGroupV| is_sub_token(t, token@.name)),
        decreases ts.len() - i,
    {
        let v = &tokens[i];
        assert(ts[i as int] == v@);
        assert(ts.take(i + 1).drop_last() =~= ts.take(i as int));
        reveal_with_fuel(Seq::filter, 1);
        let keep = match v.blood() {
            Some(blood) => same_ignore_case(blood.as_str(), token_name.as_str()) && !same_ignore_case(
                v.name().as_str(),
                token_name.as_str(),
            ),
            None => false,
        };
        assert(keep == is_sub_token(v@, token@.name));
        if keep {
            let ghost prev = token_views(res@);
            res.push(v.clone());
            assert(token_views(res@) =~= prev.push(v@));
        }
        i += 1;
    }
    assert(ts.take(ts.len() as int) =~= ts);
    proof {
        assert forall|x: TLTokenGroupV| #[trigger] token_views(res@).contains(x) <==> ts.contains(x) && (x.blood matches Some(b)
            && lowercase(b) == lowercase(token@.name)) && lowercase(x.name) != lowercase(token@.name) by {
            lemma_sub_token_member(ts, token@.name, x);
        }
    }
    res
}

/// The sub types of the type named `n` are exactly the tokens whose super
/// type is `n` and whose own name is not `n`, names compared ignoring
/// case; nothing else about their names matters.
pub proof fn lemma_sub_token_member(ts: Seq<TLTokenGroupV>, n: Seq<char>, x: TLTokenGroupV)
    ensures
        ts.filter(|t: TLTokenGroupV| is_sub_token(t, n)).contains(x) <==> ts.contains(x) && (x.blood matches Some(b)
            && lowercase(b) == lowercase(n)) && lowercase(x.name) != lowercase(n),
{
    crate::text::lemma_filter_member(ts, |t: TLTokenGroupV| is_sub_token(t, n), x);
}

/// Sub types are taken token by token, in order: those of two runs of
/// tokens are those of the first run followed by those of the second, and a
/// single token is its own sub type list exactly when its super type is `n`
/// and its name is not, ignoring case.
pub proof fn lemma_sub_tokens_in_order(ts1: Seq<TLTokenGroupV>, ts2: Seq<TLTokenGroupV>, n: Seq<char>, t: TLTokenGroupV)
    ensures
        (ts1 + ts2).filter(|t: TLTokenGroupV| is_sub_token(t, n)) == ts1.filter(|t: TLTokenGroupV| is_sub_token(t, n))
            + ts2.filter(|t: TLTokenGroupV| is_sub_token(t, n)),
        seq![t].filter(|t: TLTokenGroupV| is_sub_token(t, n)) == (if (t.blood matches Some(b) && lowercase(b)
            == lowercase(n)) && lowercase(t.name) != lowercase(n) {
            seq![t]
        } else {
            Seq::<TLTokenGroupV>::empty()
        }),
{
    Seq::filter_distributes_over_add(ts1, ts2, |t: TLTokenGroupV| is_sub_token(t, n));
    reveal_with_fuel(Seq::filter, 2);
    assert(seq![t].drop_last() =~= Seq::<TLTokenGroupV>::empty());
}

/// Index of the first token whose name is `n` ignoring case, if any.
pub open spec fn find_token_index(ts: Seq<TLTokenGroupV>, n: Seq<char>) -> Option<int>
    decreases ts.len(),
{
    if ts.len() == 0 {
        None
    } else if lowercase(ts[0].name) == lowercase(n) {
        Some(0)
    } else {
        match find_token_index(ts.drop_first(), n) {
            Some(i) => Some(i + 1),
            None => None,
        }
    }
}

/// `find_token_index` is the first token whose name matches.
proof fn lemma_find_token_index(ts: Seq<TLTokenGroupV>, n: Seq<char>, i: int)
    requires
        0 <= i <= ts.len(),
        forall|j: int| 0 <= j < i ==> lowercase(ts[j].name) != lowercase(n),
        i == ts.len() || lowercase(ts[i].name) == lowercase(n),
    ensures
        i < ts.len() ==> find_token_index(ts, n) == Some(i),
        i == ts.len() ==> find_token_index(ts, n) is None,
    decreases i,
{
    if ts.len() > 0 && i > 0 {
        assert forall|j: int| 0 <= j < i - 1 implies lowercase(ts.drop_first()[j].name) != lowercase(n) by {
            assert(ts.drop_first()[j] == ts[j + 1]);
        }
        if i < ts.len() {
            assert(ts.drop_first()[i - 1] == ts[i]);
        }
        lemma_find_token_index(ts.drop_first(), n, i - 1);
    }
}

/// The first token named `token_name`, ignoring case.
pub fn find_token(tknwrap: &TokenWrap, token_name: &str) -> (res: Option<TLTokenGroup>)
    ensures
        match find_token_index(tknwrap@.tokens, token_name@) {
            Some(i) => res matches Some(t) && t@ == tknwrap@.tokens[i],
            None => res is None,
        },
{
    let tokens = tknwrap.tokens();
    let ghost ts = tknwrap@.tokens;
    let mut i: usize = 0;
    while i < tokens.len()
        invariant
            ts == token_views(tokens@),
            ts == tknwrap@.tokens,
            i <= ts.len(),
            forall|j: int| 0 <= j < i ==> lowercase(ts[j].name) != lowercase(token_name@),
        decreases ts.len() - i,
    {
        let v = &tokens[i];
        assert(ts[i as int] == v@);
        if same_ignore_case(v.name().as_str(), token_name) {
            proof {
                lemma_find_token_index(ts, token_name@, i as int);
            }
            let t = v.clone();
            assert(ts.len() == tokens@.len());
            assert(t@ == ts[i as int]);
            assert(find_token_index(ts, token_name@) == Some(i as int));
            return Some(t);
        }
        i += 1;
    }
    proof {
        lemma_find_token_index(ts, token_name@, i as int);
    }
    None
}

/// The Rust primitive type names.
pub open spec fn primitive_types() -> Seq<Seq<char>> {
    seq![
        "i8"@,
        "i16"@,
        "i32"@,
        "i64"@,
        "i128"@,
        "isize"@,
        "u8"@,
        "u16"@,
        "u32"@,
        "u64"@,
        "u128"@,
        "usize"@,
        "f32"@,
        "f64"@,
        "bool"@,
    ]
}

/// Whether a Rust type name is a primitive type.
pub fn is_primitive(type_: &str) -> (res: bool)
    ensures
        res == primitive_types().contains(type_@),
{
    let names = [
        "i8",
        "i16",
        "i32",
        "i64",
        "i128",
        "isize",
        "u8",
        "u16",
        "u32",
        "u64",
        "u128",
        "usize",
        "f32",
        "f64",
        "bool",
    ];
    let target = type_.to_string();
    let mut i: usize = 0;
    while i < 15
        invariant
            i <= 15,
            target@ == type_@,
            forall|j: int| 0 <= j < 15 ==> #[trigger] primitive_types()[j] == names@[j]@,
            forall|j: int| 0 <= j < i ==> primitive_types()[j] != type_@,
        decreases 15 - i,
    {
        if names[i].to_string() == target {
            assert(primitive_types()[i as int] == type_@);
            return true;
        }
        i += 1;
    }
    false
}

/// Whether a Rust type name is an `Option<...>`.
pub fn is_optional(type_: &str) -> (res: bool)
    ensures
        res == starts_with(type_@, option_open()),
{
    let open = vec!['O', 'p', 't', 'i', 'o', 'n', '<'];
    assert(open@ =~= option_open());
    has_prefix(&chars_of(type_), &open)
}

/// The Rust field name of a schema field: `type_` for `type`, else its snake case.
pub open spec fn safe_field(text: Seq<char>) -> Seq<char> {
    if text == "type"@ {
        "type_"@
    } else {
        snake(text)
    }
}

/// The Rust field name of a schema field (see `safe_field`).
pub fn td_safe_field(text: &str) -> (res: String)
    ensures
        res@ == safe_field(text@),
{
    if text.to_string() == "type".to_string() {
        "type_".to_string()
    } else {
        to_snake(text)
    }
}

/// The variant name of a sub type in the enum of its trait `token`: the sub
/// type's camel case name, with the trait name removed from it unless the
/// sub type is the trait name's plural.
pub open spec fn enum_item_name(token_name: Seq<char>, text: Seq<char>) -> Seq<char> {
    if lowercase(token_name.push('s')) == lowercase(text) {
        camel(text, true)
    } else {
        replace(camel(text, true), token_name, Seq::empty())
    }
}

/// The plural of the trait's name, ignoring case, is kept whole, in camel
/// case.
pub proof fn lemma_enum_item_plural(token_name: Seq<char>, text: Seq<char>)
    ensures
        lowercase(token_name.push('s')) == lowercase(text) ==> enum_item_name(token_name, text) == camel(text, true),
{
}

/// A variant name in which the trait's name does not occur is the camel
/// case text itself: nothing is cut from it.
pub proof fn lemma_enum_item_without_trait_name(token_name: Seq<char>, text: Seq<char>)
    ensures
        (forall|i: int| !crate::text::occurs_at(camel(text, true), token_name, i)) ==> enum_item_name(token_name, text)
            == camel(text, true),
{
    if forall|i: int| !crate::text::occurs_at(camel(text, true), token_name, i) {
        crate::text::lemma_replace_absent(camel(text, true), token_name, Seq::empty());
    }
}

/// Where the trait's name occurs once in the camel case text, between `a`
/// and `b`, the variant name is `a` followed by `b` (outside the plural
/// case): the name is cut out and everything else kept in place.
pub proof fn lemma_enum_item_cuts_trait_name(token_name: Seq<char>, text: Seq<char>, a: Seq<char>, b: Seq<char>)
    requires
        lowercase(token_name.push('s')) != lowercase(text),
        token_name.len() > 0,
        camel(text, true) == a + token_name + b,
        forall|i: int| crate::text::occurs_at(camel(text, true), token_name, i) ==> i == a.len(),
    ensures
        enum_item_name(token_name, text) == a + b,
{
    let s = camel(text, true);
    let k = a.len() as int;
    crate::text::lemma_replace_clear_prefix(s, token_name, Seq::empty(), k);
    assert(s.take(k) =~= a);
    let rest = s.skip(k);
    assert(rest =~= token_name + b);
    assert(rest.take(token_name.len() as int) =~= token_name);
    assert(rest.skip(token_name.len() as int) =~= b);
    assert forall|i: int| !crate::text::occurs_at(b, token_name, i) by {
        if crate::text::occurs_at(b, token_name, i) {
            let j = k + token_name.len() + i;
            assert(s.subrange(j, j + token_name.len()) =~= b.subrange(i, i + token_name.len()));
            assert(crate::text::occurs_at(s, token_name, j));
        }
    }
    crate::text::lemma_replace_absent(b, token_name, Seq::empty());
    assert(Seq::<char>::empty() + b =~= b);
}

/// Every occurrence of the trait's name is cut, not only the first: where
/// it occurs exactly twice in the camel case text, between `a`, `b` and
/// `c`, the variant name is `a`, `b` and `c` joined (outside the plural
/// case).
pub proof fn lemma_enum_item_cuts_every_occurrence(
    token_name: Seq<char>,
    text: Seq<char>,
    a: Seq<char>,
    b: Seq<char>,
    c: Seq<char>,
)
    requires
        lowercase(token_name.push('s')) != lowercase(text),
        token_name.len() > 0,
        camel(text, true) == a + token_name + b + token_name + c,
        forall|i: int|
            crate::text::occurs_at(camel(text, true), token_name, i) ==> i == a.len() || i == a.len()
                + token_name.len() + b.len(),
    ensures
        enum_item_name(token_name, text) == a + b + c,
{
    let s = camel(text, true);
    let n = token_name.len() as int;
    let k1 = a.len() as int;
    let k2 = k1 + n + b.len();
    crate::text::lemma_replace_clear_prefix(s, token_name, Seq::empty(), k1);
    assert(s.take(k1) =~= a);
    let r1 = s.skip(k1);
    assert(r1.take(n) =~= token_name);
    let r2 = r1.skip(n);
    assert(r2 =~= b + token_name + c);
    assert forall|i: int| 0 <= i < b.len() implies !crate::text::occurs_at(r2, token_name, i) by {
        if crate::text::occurs_at(r2, token_name, i) {
            let j = k1 + n + i;
            assert(s.subrange(j, j + n) =~= r2.subrange(i, i + n));
            assert(crate::text::occurs_at(s, token_name, j));
        }
    }
    crate::text::lemma_replace_clear_prefix(r2, token_name, Seq::empty(), b.len() as int);
    assert(r2.take(b.len() as int) =~= b);
    let r3 = r2.skip(b.len() as int);
    assert(r3.take(n) =~= token_name);
    let r4 = r3.skip(n);
    assert(r4 =~= c);
    assert forall|i: int| !crate::text::occurs_at(c, token_name, i) by {
        if crate::text::occurs_at(c, token_name, i) {
            let j = k2 + n + i;
            assert(s.subrange(j, j + n) =~= c.subrange(i, i + n));
            assert(crate::text::occurs_at(s, token_name, j));
        }
    }
    crate::text::lemma_replace_absent(c, token_name, Seq::empty());
    assert(Seq::<char>::empty() + c =~= c);
    assert(Seq::<char>::empty() + (b + c) =~= b + c);
    assert(a + (b + c) =~= a + b + c);
}

/// The variant name of a sub type in the enum of its trait (see `enum_item_name`).
pub fn td_enum_item_name(token: &TLTokenGroup, text: &str) -> (res: String)
    ensures
        res@ == enum_item_name(token@.name, text@),
        lowercase(token@.name.push('s')) == lowercase(text@) ==> res@ == camel(text@, true),
        (forall|i: int| !crate::text::occurs_at(camel(text@, true), token@.name, i)) ==> res@ == camel(text@, true),
{
    proof {
        lemma_enum_item_plural(token@.name, text@);
        lemma_enum_item_without_trait_name(token@.name, text@);
    }
    let token_name = token.name();
    let mut plural = chars_of(token_name.as_str());
    plural.push('s');
    if same_ignore_case(string_of(&plural).as_str(), text) {
        return to_camel(text);
    }
    let camel_text = chars_of(to_camel(text).as_str());
    let empty: Vec<char> = Vec::new();
    let item_name = replace_chars(&camel_text, &chars_of(token_name.as_str()), &empty);
    assert(empty@ =~= Seq::<char>::empty());
    string_of(&item_name)
}

/// The `to_snake` filter of the templates.
pub fn case_to_snake(text: &str) -> (res: String)
    ensures
        res@ == snake(text@),
{
    to_snake(text)
}

/// The `to_camel` filter of the templates.
pub fn case_to_camel(text: &str) -> (res: String)
    ensures
        res@ == camel(text@, true),
{
    to_camel(text)
}

/// The `to_camel_lowercase` filter of the templates.
pub fn case_to_camel_lowercase(text: &str) -> (res: String)
    ensures
        res@ == camel(text@, false),
{
    to_camel_lowercase(text)
}

/// The `to_dashed` filter of the templates.
pub fn case_to_dashed(text: &str) -> (res: String)
    ensures
        res@ == dashed(text@),
{
    to_dashed(text)
}

/// The `to_capitalized` filter of the templates.
pub fn case_to_capitalized(text: &str) -> (res: String)
    ensures
        res@ == capitalized(text@),
{
    to_capitalized(text)
}

} // verus!
