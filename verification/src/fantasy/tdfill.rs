//! The type-fill table: how schema types map to Rust types, per-field
//! overrides, and extra listeners.
use vstd::prelude::*;

use crate::strmap::{assoc_get, StrMap};
use crate::text::{chars_of, lowercase, same_chars, to_lowercase};
use crate::tl_parser::types::{clone_opt, opt_view};

verus! {

/// A per-field override of the generated type.
#[derive(Debug)]
pub struct TDTypeFilter {
    sign_type: Option<String>,
    optional: bool,
    reason: Option<String>,
}

/// The mathematical value of a field override.
pub struct TDTypeFilterV {
    pub sign_type: Option<Seq<char>>,
    pub optional: bool,
    pub reason: Option<Seq<char>>,
}

impl View for TDTypeFilter {
    type V = TDTypeFilterV;

    closed spec fn view(&self) -> TDTypeFilterV {
        TDTypeFilterV { sign_type: opt_view(self.sign_type), optional: self.optional, reason: opt_view(self.reason) }
    }
}

impl Clone for TDTypeFilter {
    fn clone(&self) -> (res: Self)
        ensures
            res@ == self@,
    {
        TDTypeFilter {
            sign_type: clone_opt(&self.sign_type),
            optional: self.optional,
            reason: clone_opt(&self.reason),
        }
    }
}

impl TDTypeFilter {
    /// An override with the given parts.
    pub fn new(sign_type: Option<String>, optional: bool, reason: Option<String>) -> (res: Self)
        ensures
            res@ == (TDTypeFilterV { sign_type: opt_view(sign_type), optional, reason: opt_view(reason) }),
    {
        TDTypeFilter { sign_type, optional, reason }
    }

    /// The Rust type to use in place of the generated one, if any.
    pub fn sign_type(&self) -> (res: Option<String>)
        ensures
            opt_view(res) == self@.sign_type,
    {
        clone_opt(&self.sign_type)
    }

    /// Whether the field is optional.
    pub fn optional(&self) -> (res: bool)
        ensures
            res == self@.optional,
    {
        self.optional
    }

    /// Why the override exists.
    pub fn reason(&self) -> (res: Option<String>)
        ensures
            opt_view(res) == self@.reason,
    {
        clone_opt(&self.reason)
    }
}

/// The mathematical value of a type-fill table.
pub struct TDTypeFillV {
    pub mapper: Seq<(Seq<char>, Seq<char>)>,
    pub filter: Seq<(Seq<char>, Seq<(Seq<char>, TDTypeFilterV)>)>,
    pub listener: Seq<(Seq<char>, Seq<char>)>,
}

/// The view of a map of strings to strings.
pub open spec fn str_map_view(m: StrMap<String>) -> Seq<(Seq<char>, Seq<char>)> {
    m@.map_values(|e: (Seq<char>, String)| (e.0, e.1@))
}

/// The view of a map of field overrides.
pub open spec fn filter_map_view(m: StrMap<TDTypeFilter>) -> Seq<(Seq<char>, TDTypeFilterV)> {
    m@.map_values(|e: (Seq<char>, TDTypeFilter)| (e.0, e.1@))
}

/// The type-fill table read from the generator's configuration.
#[derive(Debug)]
pub struct TDTypeFill {
    /// Schema type name to Rust type name.
    mapper: StrMap<String>,
    /// Type name to field name to override.
    filter: StrMap<StrMap<TDTypeFilter>>,
    /// Extra listener name to the schema type it listens for.
    listener: StrMap<String>,
}

impl View for TDTypeFill {
    type V = TDTypeFillV;

    closed spec fn view(&self) -> TDTypeFillV {
        TDTypeFillV {
            mapper: str_map_view(self.mapper),
            filter: self.filter@.map_values(|e: (Seq<char>, StrMap<TDTypeFilter>)| (e.0, filter_map_view(e.1))),
            listener: str_map_view(self.listener),
        }
    }
}

/// Index of the first entry whose key is `k` ignoring case (`lowercase` of both).
pub open spec fn find_ignore_case<V>(s: Seq<(Seq<char>, V)>, k: Seq<char>) -> Option<int>
    decreases s.len(),
{
    if s.len() == 0 {
        None
    } else if lowercase(s[0].0) == lowercase(k) {
        Some(0)
    } else {
        match find_ignore_case(s.drop_first(), k) {
            Some(i) => Some(i + 1),
            None => None,
        }
    }
}

/// The value of the first entry whose key is `k` ignoring case.
pub open spec fn get_ignore_case<V>(s: Seq<(Seq<char>, V)>, k: Seq<char>) -> Option<V> {
    match find_ignore_case(s, k) {
        Some(i) => Some(s[i].1),
        None => None,
    }
}

/// The override of field `field_name` of type `type_key`, names compared
/// ignoring case: the first type entry that matches decides.
pub open spec fn filter_of(f: TDTypeFillV, type_key: Seq<char>, field_name: Seq<char>) -> Option<TDTypeFilterV> {
    match get_ignore_case(f.filter, type_key) {
        Some(fields) => get_ignore_case(fields, field_name),
        None => None,
    }
}

/// The Rust type of a field: the override's type when there is one, else `origin`.
pub open spec fn filter_type_of(f: TDTypeFillV, type_key: Seq<char>, field_name: Seq<char>, origin: Seq<char>) -> Seq<char> {
    match filter_of(f, type_key, field_name) {
        Some(flt) => match flt.sign_type {
            Some(t) => t,
            None => origin,
        },
        None => origin,
    }
}

/// The type of a field: the type an override names, whether or not the
/// override also makes the field optional; the field's own type where no
/// override names one.
pub proof fn lemma_filter_type_law(f: TDTypeFillV, type_key: Seq<char>, field_name: Seq<char>, origin: Seq<char>)
    ensures
        filter_of(f, type_key, field_name) is Some && filter_of(f, type_key, field_name)->Some_0.sign_type is Some
            ==> filter_type_of(f, type_key, field_name, origin) == filter_of(f, type_key, field_name)->Some_0.sign_type->Some_0,
        !(filter_of(f, type_key, field_name) is Some && filter_of(f, type_key, field_name)->Some_0.sign_type is Some)
            ==> filter_type_of(f, type_key, field_name, origin) == origin,
{
}

/// `find_ignore_case` is the first entry whose key matches.
proof fn lemma_find_ignore_case<V>(s: Seq<(Seq<char>, V)>, k: Seq<char>, i: int)
    requires
        0 <= i <= s.len(),
        forall|j: int| 0 <= j < i ==> lowercase(s[j].0) != lowercase(k),
        i == s.len() || lowercase(s[i].0) == lowercase(k),
    ensures
        i < s.len() ==> find_ignore_case(s, k) == Some(i),
        i == s.len() ==> find_ignore_case(s, k) is None,
    decreases i,
{
    if s.len() > 0 && i > 0 {
        assert forall|j: int| 0 <= j < i - 1 implies lowercase(s.drop_first()[j].0) != lowercase(k) by {
            assert(s.drop_first()[j] == s[j + 1]);
        }
        if i < s.len() {
            assert(s.drop_first()[i - 1] == s[i]);
        }
        lemma_find_ignore_case(s.drop_first(), k, i - 1);
    }
}

/// A lookup ignoring case gives the value of the first entry whose key is
/// the wanted one ignoring case, and nothing when no key is.
pub proof fn lemma_get_ignore_case_law<V>(s: Seq<(Seq<char>, V)>, k: Seq<char>)
    ensures
        (forall|j: int| 0 <= j < s.len() ==> lowercase(#[trigger] s[j].0) != lowercase(k)) ==> get_ignore_case(s, k) is None,
        forall|i: int|
            0 <= i < s.len() && lowercase(#[trigger] s[i].0) == lowercase(k) && (forall|j: int|
                0 <= j < i ==> lowercase(#[trigger] s[j].0) != lowercase(k)) ==> get_ignore_case(s, k) == Some(s[i].1),
{
    if forall|j: int| 0 <= j < s.len() ==> lowercase(#[trigger] s[j].0) != lowercase(k) {
        lemma_find_ignore_case(s, k, s.len() as int);
    }
    assert forall|i: int|
        0 <= i < s.len() && lowercase(#[trigger] s[i].0) == lowercase(k) && (forall|j: int|
            0 <= j < i ==> lowercase(#[trigger] s[j].0) != lowercase(k)) implies get_ignore_case(s, k) == Some(s[i].1) by {
        lemma_find_ignore_case(s, k, i);
    }
}

/// Lookups ignoring case depend on the key's lower case only.
proof fn lemma_find_ignore_case_key<V>(s: Seq<(Seq<char>, V)>, k1: Seq<char>, k2: Seq<char>)
    requires
        lowercase(k1) == lowercase(k2),
    ensures
        find_ignore_case(s, k1) == find_ignore_case(s, k2),
    decreases s.len(),
{
    if s.len() > 0 {
        lemma_find_ignore_case_key(s.drop_first(), k1, k2);
    }
}

/// Field overrides ignore case: two type names and two field names that
/// are equal ignoring case get the same override.
pub proof fn lemma_filter_ignores_case(f: TDTypeFillV, t1: Seq<char>, t2: Seq<char>, n1: Seq<char>, n2: Seq<char>)
    requires
        lowercase(t1) == lowercase(t2),
        lowercase(n1) == lowercase(n2),
    ensures
        filter_of(f, t1, n1) == filter_of(f, t2, n2),
        forall|origin: Seq<char>| filter_type_of(f, t1, n1, origin) == filter_type_of(f, t2, n2, origin),
{
    lemma_find_ignore_case_key(f.filter, t1, t2);
    match get_ignore_case(f.filter, t1) {
        Some(fields) => {
            lemma_find_ignore_case_key(fields, n1, n2);
        },
        None => {},
    }
}

/// Index of the first key of `m` equal to `k` ignoring case.
fn position_ignore_case<V>(m: &StrMap<V>, k: &str) -> (res: Option<usize>)
    ensures
        res matches Some(i) ==> find_ignore_case(m@, k@) == Some(i as int) && i < m@.len(),
        res is None ==> find_ignore_case(m@, k@) is None,
{
    let target = chars_of(to_lowercase(k).as_str());
    let mut i: usize = 0;
    while i < m.len()
        invariant
            target@ == lowercase(k@),
            i <= m@.len(),
            forall|j: int| 0 <= j < i ==> lowercase(m@[j].0) != lowercase(k@),
        decreases m@.len() - i,
    {
        let key = chars_of(to_lowercase(m.key_at(i).as_str()).as_str());
        if same_chars(&key, &target) {
            proof {
                lemma_find_ignore_case(m@, k@, i as int);
            }
            return Some(i);
        }
        i += 1;
    }
    proof {
        lemma_find_ignore_case(m@, k@, i as int);
    }
    None
}

impl TDTypeFill {
    /// A table with the given maps.
    pub fn new(mapper: StrMap<String>, filter: StrMap<StrMap<TDTypeFilter>>, listener: StrMap<String>) -> (res: Self)
        ensures
            res@.mapper == str_map_view(mapper),
            res@.filter == filter@.map_values(|e: (Seq<char>, StrMap<TDTypeFilter>)| (e.0, filter_map_view(e.1))),
            res@.listener == str_map_view(listener),
    {
        TDTypeFill { mapper, filter, listener }
    }

    /// The Rust type that a schema type maps to, if the table names one.
    pub fn mapper(&self, origin: &str) -> (res: Option<String>)
        ensures
            opt_view(res) == assoc_get(self@.mapper, origin@),
    {
        proof {
            crate::tl_parser::types::lemma_desc_get(self.mapper, origin@);
        }
        match self.mapper.get(origin) {
            Some(v) => Some(v.clone()),
            None => None,
        }
    }

    /// The override of a field, type and field names compared ignoring case.
    pub fn td_filter(&self, type_key: &str, field_name: &str) -> (res: Option<TDTypeFilter>)
        ensures
            match filter_of(self@, type_key@, field_name@) {
                Some(f) => res matches Some(r) && r@ == f,
                None => res is None,
            },
    {
        let ghost fv = self@.filter;
        match position_ignore_case(&self.filter, type_key) {
            None => {
                proof {
                    lemma_find_ignore_case_map(self.filter@, fv, type_key@);
                }
                None
            },
            Some(i) => {
                proof {
                    lemma_find_ignore_case_map(self.filter@, fv, type_key@);
                }
                let fields = self.filter.value_at(i);
                assert(fv[i as int].1 == filter_map_view(*fields));
                match position_ignore_case(fields, field_name) {
                    None => {
                        proof {
                            lemma_find_ignore_case_map2(fields@, filter_map_view(*fields), field_name@);
                        }
                        None
                    },
                    Some(j) => {
                        proof {
                            lemma_find_ignore_case_map2(fields@, filter_map_view(*fields), field_name@);
                        }
                        Some(fields.value_at(j).clone())
                    },
                }
            },
        }
    }

    /// The Rust type of a field: the override's type, or `origin_field_type`.
    pub fn td_filter_type(&self, type_key: &str, field_name: &str, origin_field_type: &str) -> (res: String)
        ensures
            res@ == filter_type_of(self@, type_key@, field_name@, origin_field_type@),
            filter_of(self@, type_key@, field_name@) is Some && filter_of(self@, type_key@, field_name@)->Some_0.sign_type is Some
                ==> res@ == filter_of(self@, type_key@, field_name@)->Some_0.sign_type->Some_0,
            !(filter_of(self@, type_key@, field_name@) is Some && filter_of(self@, type_key@, field_name@)->Some_0.sign_type is Some)
                ==> res@ == origin_field_type@,
    {
        proof {
            lemma_filter_type_law(self@, type_key@, field_name@, origin_field_type@);
        }
        match self.td_filter(type_key, field_name) {
            Some(f) => match f.sign_type() {
                Some(t) => t,
                None => origin_field_type.to_string(),
            },
            None => origin_field_type.to_string(),
        }
    }

    /// The extra listeners: listener name to the schema type it listens for.
    pub fn listener(&self) -> (res: &StrMap<String>)
        ensures
            str_map_view(*res) == self@.listener,
    {
        &self.listener
    }
}

/// Looking up ignoring case is the same in the type map and in its view.
proof fn lemma_find_ignore_case_map(
    s: Seq<(Seq<char>, StrMap<TDTypeFilter>)>,
    t: Seq<(Seq<char>, Seq<(Seq<char>, TDTypeFilterV)>)>,
    k: Seq<char>,
)
    requires
        t == s.map_values(|e: (Seq<char>, StrMap<TDTypeFilter>)| (e.0, filter_map_view(e.1))),
    ensures
        find_ignore_case(t, k) == find_ignore_case(s, k),
    decreases s.len(),
{
    if s.len() > 0 {
        let f = |e: (Seq<char>, StrMap<TDTypeFilter>)| (e.0, filter_map_view(e.1));
        assert(t.drop_first() =~= s.drop_first().map_values(f));
        lemma_find_ignore_case_map(s.drop_first(), t.drop_first(), k);
    }
}

/// Looking up ignoring case is the same in a field map and in its view.
proof fn lemma_find_ignore_case_map2(
    s: Seq<(Seq<char>, TDTypeFilter)>,
    t: Seq<(Seq<char>, TDTypeFilterV)>,
    k: Seq<char>,
)
    requires
        t == s.map_values(|e: (Seq<char>, TDTypeFilter)| (e.0, e.1@)),
    ensures
        find_ignore_case(t, k) == find_ignore_case(s, k),
    decreases s.len(),
{
    if s.len() > 0 {
        let f = |e: (Seq<char>, TDTypeFilter)| (e.0, e.1@);
        assert(t.drop_first() =~= s.drop_first().map_values(f));
        lemma_find_ignore_case_map2(s.drop_first(), t.drop_first(), k);
    }
}

} // verus!
