//! Grammar groups read from the schema and the tokens made from them.
use vstd::prelude::*;

use crate::strmap::{assoc_find, assoc_get, assoc_insert, StrMap};

verus! {

/// A trait (class) of the schema, with its description.
#[derive(Debug, Clone)]
pub struct TLTrait {
    pub name: String,
    pub description: String,
}

/// What kind of grammar item a line group is.
#[derive(Debug, Clone, Copy, PartialEq, Eq)]
pub enum TLTextToken {
    Group,
    Paragraph,
}

/// The kind of one schema line inside a group.
#[derive(Debug, Clone, Copy, PartialEq, Eq)]
pub enum TLGroupLineToken {
    Trait,
    Description,
    Struct,
}

/// One schema line of a group: its 1-based line number, kind and text.
#[derive(Debug)]
pub struct TLGroupLine {
    pub line: i32,
    pub token: TLGroupLineToken,
    pub text: String,
}

/// The mathematical value of a group line.
pub struct TLGroupLineV {
    pub line: i32,
    pub token: TLGroupLineToken,
    pub text: Seq<char>,
}

impl View for TLGroupLine {
    type V = TLGroupLineV;

    open spec fn view(&self) -> TLGroupLineV {
        TLGroupLineV { line: self.line, token: self.token, text: self.text@ }
    }
}

/// A schema group: the lines from `start` to `end` that make one item.
#[derive(Debug)]
pub struct TLGroup {
    pub start: i32,
    pub end: i32,
    pub lines: Vec<TLGroupLine>,
}

/// The mathematical value of a group.
pub struct TLGroupV {
    pub start: i32,
    pub end: i32,
    pub lines: Seq<TLGroupLineV>,
}

impl View for TLGroup {
    type V = TLGroupV;

    open spec fn view(&self) -> TLGroupV {
        TLGroupV { start: self.start, end: self.end, lines: self.lines@.map_values(|l: TLGroupLine| l@) }
    }
}

impl Clone for TLGroupLine {
    fn clone(&self) -> (res: Self)
        ensures
            res@ == self@,
    {
        TLGroupLine { line: self.line, token: self.token, text: self.text.clone() }
    }
}

impl Clone for TLGroup {
    fn clone(&self) -> (res: Self)
        ensures
            res@ == self@,
    {
        let mut lines: Vec<TLGroupLine> = Vec::new();
        let mut i: usize = 0;
        while i < self.lines.len()
            invariant
                i <= self.lines@.len(),
                lines@.len() == i,
                forall|j: int| 0 <= j < i ==> lines@[j]@ == self.lines@[j]@,
            decreases self.lines@.len() - i,
        {
            let l = self.lines[i].clone();
            lines.push(l);
            i += 1;
        }
        let res = TLGroup { start: self.start, end: self.end, lines };
        assert(res.lines@.map_values(|l: TLGroupLine| l@) =~= self.lines@.map_values(|l: TLGroupLine| l@));
        res
    }
}

/// A schema paragraph marker (`---functions---`).
#[derive(Debug, Clone, Copy, PartialEq, Eq)]
pub enum TLParagraph {
    Functions { start: i32, end: i32 },
}

impl TLParagraph {
    /// First line of the paragraph marker.
    pub fn start(&self) -> (res: i32)
        ensures
            res == (match *self { TLParagraph::Functions { start, end } => start }),
    {
        match *self {
            TLParagraph::Functions { start, end } => start,
        }
    }

    /// Last line of the paragraph marker.
    pub fn end(&self) -> (res: i32)
        ensures
            res == (match *self { TLParagraph::Functions { start, end } => end }),
    {
        match *self {
            TLParagraph::Functions { start, end } => end,
        }
    }
}

/// A grammar item of the schema: a group of lines or a paragraph marker.
#[derive(Debug, Clone)]
pub enum TLGrammar {
    Group(TLGroup),
    Paragraph(TLParagraph),
}

/// The mathematical value of a grammar item.
pub enum TLGrammarV {
    Group(TLGroupV),
    Paragraph(TLParagraph),
}

impl View for TLGrammar {
    type V = TLGrammarV;

    open spec fn view(&self) -> TLGrammarV {
        match self {
            TLGrammar::Group(g) => TLGrammarV::Group(g@),
            TLGrammar::Paragraph(p) => TLGrammarV::Paragraph(*p),
        }
    }
}

impl TLGrammar {
    /// First line of the item.
    pub fn start(&self) -> (res: i32)
        ensures
            res == (match self {
                TLGrammar::Group(g) => g.start,
                TLGrammar::Paragraph(TLParagraph::Functions { start, end }) => *start,
            }),
    {
        match self {
            TLGrammar::Group(g) => g.start,
            TLGrammar::Paragraph(p) => p.start(),
        }
    }

    /// Last line of the item.
    pub fn end(&self) -> (res: i32)
        ensures
            res == (match self {
                TLGrammar::Group(g) => g.end,
                TLGrammar::Paragraph(TLParagraph::Functions { start, end }) => *end,
            }),
    {
        match self {
            TLGrammar::Group(g) => g.end,
            TLGrammar::Paragraph(p) => p.end(),
        }
    }

    /// The kind of the item.
    pub fn token(&self) -> (res: TLTextToken)
        ensures
            res == (if self is Group { TLTextToken::Group } else { TLTextToken::Paragraph }),
    {
        match self {
            TLGrammar::Group(_) => TLTextToken::Group,
            TLGrammar::Paragraph(_) => TLTextToken::Paragraph,
        }
    }

    /// Whether the item is a group.
    pub fn is_group(&self) -> (res: bool)
        ensures
            res == self is Group,
    {
        match self {
            TLGrammar::Group(_) => true,
            TLGrammar::Paragraph(_) => false,
        }
    }

    /// Whether the item is a paragraph marker.
    pub fn is_paragraph(&self) -> (res: bool)
        ensures
            res == self is Paragraph,
    {
        match self {
            TLGrammar::Group(_) => false,
            TLGrammar::Paragraph(_) => true,
        }
    }

    /// Calls `fnc` with the group when the item is one; gives back the item.
    pub fn on_group<F: FnOnce(&TLGroup)>(&self, fnc: F) -> (res: &Self)
        requires
            forall|g: TLGroup| *self == TLGrammar::Group(g) ==> call_requires(fnc, (&g,)),
        ensures
            res == self,
            self matches TLGrammar::Group(g) ==> call_ensures(fnc, (&g,), ()),
    {
        match self {
            TLGrammar::Group(g) => fnc(g),
            TLGrammar::Paragraph(_) => {},
        }
        self
    }

    /// Calls `fnc` with the paragraph when the item is one; gives back the item.
    pub fn on_paragraph<F: FnOnce(&TLParagraph)>(&self, fnc: F) -> (res: &Self)
        requires
            forall|p: TLParagraph| *self == TLGrammar::Paragraph(p) ==> call_requires(fnc, (&p,)),
        ensures
            res == self,
            self matches TLGrammar::Paragraph(p) ==> call_ensures(fnc, (&p,), ()),
    {
        match self {
            TLGrammar::Group(_) => {},
            TLGrammar::Paragraph(p) => fnc(p),
        }
        self
    }

    /// A copy of the group, when the item is one.
    pub fn to_group(&self) -> (res: Option<TLGroup>)
        ensures
            match self {
                TLGrammar::Group(g) => res matches Some(r) && r@ == g@,
                TLGrammar::Paragraph(_) => res is None,
            },
    {
        match self {
            TLGrammar::Group(g) => Some(g.clone()),
            TLGrammar::Paragraph(_) => None,
        }
    }

    /// A copy of the paragraph marker, when the item is one.
    pub fn to_paragraph(&self) -> (res: Option<TLParagraph>)
        ensures
            match self {
                TLGrammar::Group(_) => res is None,
                TLGrammar::Paragraph(p) => res == Some(*p),
            },
    {
        match self {
            TLGrammar::Group(_) => None,
            TLGrammar::Paragraph(p) => Some(*p),
        }
    }
}

/// The mathematical value of a component type: its name and its own components.
pub struct TLTokenComponentTypeV {
    pub sign_type: Seq<char>,
    pub components: Seq<TLTokenComponentTypeV>,
}

/// A type argument of a generic type, as `string` in `vector<string>`.
#[derive(Debug)]
pub struct TLTokenComponentType {
    sign_type: String,
    components: Vec<TLTokenComponentType>,
}

impl View for TLTokenComponentType {
    type V = TLTokenComponentTypeV;

    closed spec fn view(&self) -> TLTokenComponentTypeV
        decreases self,
    {
        TLTokenComponentTypeV {
            sign_type: self.sign_type@,
            components: Seq::new(
                self.components@.len(),
                |i: int|
                    if 0 <= i < self.components@.len() {
                        self.components@[i].view()
                    } else {
                        TLTokenComponentTypeV { sign_type: Seq::empty(), components: Seq::empty() }
                    },
            ),
        }
    }
}

/// The views of a sequence of component types.
pub open spec fn component_views(cs: Seq<TLTokenComponentType>) -> Seq<TLTokenComponentTypeV> {
    cs.map_values(|c: TLTokenComponentType| c@)
}

/// A copy of a sequence of component types.
pub fn clone_components(cs: &Vec<TLTokenComponentType>) -> (res: Vec<TLTokenComponentType>)
    ensures
        component_views(res@) == component_views(cs@),
    decreases cs,
{
    let mut res: Vec<TLTokenComponentType> = Vec::new();
    let mut i: usize = 0;
    while i < cs.len()
        invariant
            i <= cs@.len(),
            res@.len() == i,
            forall|j: int| 0 <= j < i ==> #[trigger] res@[j]@ == cs@[j]@,
        decreases cs@.len() - i,
    {
        assert(decreases_to!(cs => cs@[i as int].components));
        let ci = &cs[i];
        let sub = clone_components(&ci.components);
        let c = TLTokenComponentType { sign_type: ci.sign_type.clone(), components: sub };
        assert(c.components@.len() == ci.components@.len()) by {
            assert(component_views(c.components@).len() == component_views(ci.components@).len());
        }
        assert forall|j: int| 0 <= j < c.components@.len() implies #[trigger] c@.components[j]
            == ci@.components[j] by {
            assert(component_views(c.components@)[j] == component_views(ci.components@)[j]);
            assert(c@.components[j] == c.components@[j]@);
            assert(ci@.components[j] == ci.components@[j]@);
        }
        assert(c@.components =~= ci@.components);
        res.push(c);
        i += 1;
    }
    assert(component_views(res@) =~= component_views(cs@));
    res
}

impl TLTokenComponentType {
    /// A component type with the given name and components.
    pub fn new(sign_type: String, components: Vec<TLTokenComponentType>) -> (res: Self)
        ensures
            res.view() == (TLTokenComponentTypeV { sign_type: sign_type@, components: component_views(components@) }),
    {
        let res = TLTokenComponentType { sign_type, components };
        assert(res@.components =~= component_views(res.components@));
        res
    }

    /// The type name.
    pub fn sign_type(&self) -> (res: String)
        ensures
            res@ == self@.sign_type,
    {
        self.sign_type.clone()
    }

    /// The type's own components.
    pub fn components(&self) -> (res: Vec<TLTokenComponentType>)
        ensures
            component_views(res@) == self@.components,
    {
        let res = clone_components(&self.components);
        assert(component_views(self.components@) =~= self@.components);
        res
    }
}

/// The mathematical value of an argument.
pub struct TLTokenArgTypeV {
    pub sign_name: Seq<char>,
    pub sign_type: Seq<char>,
    pub description: Option<Seq<char>>,
    pub components: Seq<TLTokenComponentTypeV>,
}

/// The view of an optional string.
pub open spec fn opt_view(o: Option<String>) -> Option<Seq<char>> {
    match o {
        Some(s) => Some(s@),
        None => None,
    }
}

/// A copy of an optional string.
pub fn clone_opt(o: &Option<String>) -> (res: Option<String>)
    ensures
        opt_view(res) == opt_view(*o),
{
    match o {
        Some(s) => Some(s.clone()),
        None => None,
    }
}

/// An argument (field or parameter) of a token group: `name:type`.
#[derive(Debug)]
pub struct TLTokenArgType {
    pub(crate) sign_name: String,
    pub(crate) sign_type: String,
    pub(crate) description: Option<String>,
    pub(crate) components: Vec<TLTokenComponentType>,
}

impl View for TLTokenArgType {
    type V = TLTokenArgTypeV;

    closed spec fn view(&self) -> TLTokenArgTypeV {
        TLTokenArgTypeV {
            sign_name: self.sign_name@,
            sign_type: self.sign_type@,
            description: opt_view(self.description),
            components: component_views(self.components@),
        }
    }
}

impl TLTokenArgType {
    /// An argument with the given parts.
    pub fn new(
        sign_name: String,
        sign_type: String,
        description: Option<String>,
        components: Vec<TLTokenComponentType>,
    ) -> (res: Self)
        ensures
            res.view() == (TLTokenArgTypeV {
                sign_name: sign_name@,
                sign_type: sign_type@,
                description: opt_view(description),
                components: component_views(components@),
            }),
    {
        TLTokenArgType { sign_name, sign_type, description, components }
    }

    /// Sets the argument's description.
    pub fn set_description(&mut self, description: Option<String>)
        ensures
            final(self)@ == (TLTokenArgTypeV { description: opt_view(description), ..old(self)@ }),
    {
        self.description = description;
    }

    /// The argument name.
    pub fn sign_name(&self) -> (res: String)
        ensures
            res@ == self@.sign_name,
    {
        self.sign_name.clone()
    }

    /// The argument type, without its components.
    pub fn sign_type(&self) -> (res: String)
        ensures
            res@ == self@.sign_type,
    {
        self.sign_type.clone()
    }

    /// The argument's description, when the schema gives one.
    pub fn description(&self) -> (res: Option<String>)
        ensures
            opt_view(res) == self@.description,
    {
        clone_opt(&self.description)
    }

    /// The components of the argument type.
    pub fn components(&self) -> (res: Vec<TLTokenComponentType>)
        ensures
            component_views(res@) == self@.components,
    {
        clone_components(&self.components)
    }
}

impl Clone for TLTokenArgType {
    fn clone(&self) -> (res: Self)
        ensures
            res@ == self@,
    {
        TLTokenArgType {
            sign_name: self.sign_name.clone(),
            sign_type: self.sign_type.clone(),
            description: clone_opt(&self.description),
            components: clone_components(&self.components),
        }
    }
}

/// The views of a sequence of arguments.
pub open spec fn arg_views(args: Seq<TLTokenArgType>) -> Seq<TLTokenArgTypeV> {
    args.map_values(|a: TLTokenArgType| a@)
}

/// A copy of a sequence of arguments.
pub fn clone_args(args: &Vec<TLTokenArgType>) -> (res: Vec<TLTokenArgType>)
    ensures
        arg_views(res@) == arg_views(args@),
{
    let mut res: Vec<TLTokenArgType> = Vec::new();
    let mut i: usize = 0;
    while i < args.len()
        invariant
            i <= args@.len(),
            res@.len() == i,
            forall|j: int| 0 <= j < i ==> #[trigger] res@[j]@ == args@[j]@,
        decreases args@.len() - i,
    {
        res.push(args[i].clone());
        i += 1;
    }
    assert(arg_views(res@) =~= arg_views(args@));
    res
}

/// What a token group declares: a concrete type, a trait, or a function.
#[derive(Debug, Clone, Copy, PartialEq, Eq)]
pub enum TLTokenGroupType {
    Struct,
    Trait,
    Function,
}

/// The mathematical value of a token group.
pub struct TLTokenGroupV {
    pub description_all: Option<Seq<(Seq<char>, Seq<char>)>>,
    pub description: Option<Seq<char>>,
    pub name: Seq<char>,
    pub arguments: Seq<TLTokenArgTypeV>,
    pub type_: TLTokenGroupType,
    pub blood: Option<Seq<char>>,
}

/// The view of a description map.
pub open spec fn desc_view(m: StrMap<String>) -> Seq<(Seq<char>, Seq<char>)> {
    m@.map_values(|e: (Seq<char>, String)| (e.0, e.1@))
}

/// The view of an optional description map.
pub open spec fn opt_desc_view(m: Option<StrMap<String>>) -> Option<Seq<(Seq<char>, Seq<char>)>> {
    match m {
        Some(m) => Some(desc_view(m)),
        None => None,
    }
}

/// One declaration of the schema: a type, a trait or a function, with its
/// arguments and descriptions.
#[derive(Debug)]
pub struct TLTokenGroup {
    /// Every description of the group, the group's own and its arguments', by name.
    pub(crate) description_all: Option<StrMap<String>>,
    /// The group's own description.
    pub(crate) description: Option<String>,
    /// The type, trait or function name.
    pub(crate) name: String,
    /// The arguments, in order.
    pub(crate) arguments: Vec<TLTokenArgType>,
    /// What the group declares.
    pub(crate) type_: TLTokenGroupType,
    /// For a type, its trait; for a function, its return type; for a trait, none.
    pub(crate) blood: Option<String>,
}

impl View for TLTokenGroup {
    type V = TLTokenGroupV;

    closed spec fn view(&self) -> TLTokenGroupV {
        TLTokenGroupV {
            description_all: opt_desc_view(self.description_all),
            description: opt_view(self.description),
            name: self.name@,
            arguments: arg_views(self.arguments@),
            type_: self.type_,
            blood: opt_view(self.blood),
        }
    }
}

/// A copy of an optional description map.
pub fn clone_opt_desc(m: &Option<StrMap<String>>) -> (res: Option<StrMap<String>>)
    ensures
        opt_desc_view(res) == opt_desc_view(*m),
{
    match m {
        Some(m) => Some(m.copy()),
        None => None,
    }
}

impl TLTokenGroup {
    /// A token group with the given parts.
    pub fn new(
        description_all: Option<StrMap<String>>,
        description: Option<String>,
        name: String,
        arguments: Vec<TLTokenArgType>,
        type_: TLTokenGroupType,
        blood: Option<String>,
    ) -> (res: Self)
        ensures
            res.view() == (TLTokenGroupV {
                description_all: opt_desc_view(description_all),
                description: opt_view(description),
                name: name@,
                arguments: arg_views(arguments@),
                type_,
                blood: opt_view(blood),
            }),
    {
        TLTokenGroup { description_all, description, name, arguments, type_, blood }
    }

    /// Every description of the group, by name.
    pub fn description_all(&self) -> (res: Option<StrMap<String>>)
        ensures
            opt_desc_view(res) == self@.description_all,
    {
        clone_opt_desc(&self.description_all)
    }

    /// The group's own description.
    pub fn description(&self) -> (res: Option<String>)
        ensures
            opt_view(res) == self@.description,
    {
        clone_opt(&self.description)
    }

    /// The declared name.
    pub fn name(&self) -> (res: String)
        ensures
            res@ == self@.name,
    {
        self.name.clone()
    }

    /// The arguments, in order.
    pub fn arguments(&self) -> (res: Vec<TLTokenArgType>)
        ensures
            arg_views(res@) == self@.arguments,
    {
        clone_args(&self.arguments)
    }

    /// What the group declares.
    pub fn type_(&self) -> (res: TLTokenGroupType)
        ensures
            res == self@.type_,
    {
        self.type_
    }

    /// The trait of a type, or the return type of a function.
    pub fn blood(&self) -> (res: Option<String>)
        ensures
            opt_view(res) == self@.blood,
    {
        clone_opt(&self.blood)
    }
}

impl Clone for TLTokenGroup {
    fn clone(&self) -> (res: Self)
        ensures
            res@ == self@,
    {
        TLTokenGroup {
            description_all: clone_opt_desc(&self.description_all),
            description: clone_opt(&self.description),
            name: self.name.clone(),
            arguments: clone_args(&self.arguments),
            type_: self.type_,
            blood: clone_opt(&self.blood),
        }
    }
}

/// Looking up a key is the same in a description map and in its view.
pub proof fn lemma_desc_find(s: Seq<(Seq<char>, String)>, k: Seq<char>)
    ensures
        assoc_find(s.map_values(|e: (Seq<char>, String)| (e.0, e.1@)), k) == assoc_find(s, k),
    decreases s.len(),
{
    let f = |e: (Seq<char>, String)| (e.0, e.1@);
    if s.len() > 0 {
        assert(s.map_values(f).drop_first() =~= s.drop_first().map_values(f));
        lemma_desc_find(s.drop_first(), k);
    }
}

/// What a description map gives for a key, by its view.
pub proof fn lemma_desc_get(m: StrMap<String>, k: Seq<char>)
    ensures
        assoc_get(desc_view(m), k) == opt_view(assoc_get(m@, k)),
{
    lemma_desc_find(m@, k);
    crate::strmap::lemma_assoc_find(m@, k);
}

/// Setting a key in a description map, by its view.
pub proof fn lemma_desc_insert(m: StrMap<String>, m2: StrMap<String>, k: Seq<char>, v: String)
    requires
        m2@ == assoc_insert(m@, k, v),
    ensures
        desc_view(m2) == assoc_insert(desc_view(m), k, v@),
{
    lemma_desc_find(m@, k);
    crate::strmap::lemma_assoc_find(m@, k);
    assert(desc_view(m2) =~= assoc_insert(desc_view(m), k, v@));
}

/// A copy of the value of a key in a description map.
pub fn desc_get(m: &StrMap<String>, k: &str) -> (res: Option<String>)
    ensures
        opt_view(res) == assoc_get(desc_view(*m), k@),
{
    proof {
        lemma_desc_get(*m, k@);
    }
    match m.get(k) {
        Some(v) => Some(v.clone()),
        None => None,
    }
}

/// The views of a sequence of token groups.
pub open spec fn token_views(ts: Seq<TLTokenGroup>) -> Seq<TLTokenGroupV> {
    ts.map_values(|t: TLTokenGroup| t@)
}

} // verus!
