//! What the generated files hold: which types go to which module file, and
//! which extra listeners the client gets.
use vstd::prelude::*;

use crate::fantasy::tdfill::str_map_view;
use crate::fantasy::tokenwrap::{skip_types, which_file_of, TokenWrap, TokenWrapV};
use crate::strmap::{
    assoc_find, assoc_get, assoc_insert, lemma_assoc_find, lemma_assoc_find_same_keys, lemma_insert_get,
    lemma_insert_get_other, StrMap,
};
use crate::text::{chars_of, lowercase, same_chars, to_lowercase};
use crate::tl_parser::types::{token_views, TLTokenGroup, TLTokenGroupV};

verus! {

broadcast use vstd::string::group_string_axioms;

/// The types grouped by module file, for the tokens `ts` in order: skipped
/// types left out, each other token appended to the list of its file.
pub open spec fn file_obj_fold(w: TokenWrapV, ts: Seq<TLTokenGroupV>) -> Seq<(Seq<char>, Seq<TLTokenGroupV>)>
    decreases ts.len(),
{
    if ts.len() == 0 {
        Seq::empty()
    } else {
        let m = file_obj_fold(w, ts.drop_last());
        let t = ts.last();
        if skip_types().contains(t.name) {
            m
        } else {
            let f = which_file_of(w.tokens, t.name);
            assoc_insert(
                m,
                f,
                match assoc_get(m, f) {
                    Some(v) => v.push(t),
                    None => seq![t],
                },
            )
        }
    }
}

/// Every type that is not a built-in one is listed under the file that
/// `which_file` gives it.
pub proof fn lemma_type_listed_under_its_file(w: TokenWrapV, ts: Seq<TLTokenGroupV>, i: int)
    requires
        0 <= i < ts.len(),
        !skip_types().contains(ts[i].name),
    ensures
        assoc_get(file_obj_fold(w, ts), which_file_of(w.tokens, ts[i].name)) matches Some(v) && v.contains(ts[i]),
    decreases ts.len(),
{
    let init = ts.drop_last();
    let m = file_obj_fold(w, init);
    let t = ts.last();
    let f = which_file_of(w.tokens, ts[i].name);
    if i == ts.len() - 1 {
        let nv = match assoc_get(m, f) {
            Some(v) => v.push(t),
            None => seq![t],
        };
        lemma_insert_get(m, f, nv);
        assert(nv[nv.len() - 1] == ts[i]);
    } else {
        assert(init[i] == ts[i]);
        lemma_type_listed_under_its_file(w, init, i);
        let v = assoc_get(m, f)->Some_0;
        let k = choose|k: int| 0 <= k < v.len() && v[k] == ts[i];
        if !skip_types().contains(t.name) {
            let g = which_file_of(w.tokens, t.name);
            let nv = match assoc_get(m, g) {
                Some(v) => v.push(t),
                None => seq![t],
            };
            if g == f {
                lemma_insert_get(m, g, nv);
                assert(nv[k] == ts[i]);
            } else {
                lemma_insert_get_other(m, g, nv, f);
            }
        }
    }
}

/// The view of a map of files to tokens.
pub open spec fn file_map_view(m: StrMap<Vec<TLTokenGroup>>) -> Seq<(Seq<char>, Seq<TLTokenGroupV>)> {
    m@.map_values(|e: (Seq<char>, Vec<TLTokenGroup>)| (e.0, token_views(e.1@)))
}

/// A copy of a sequence of tokens.
fn clone_tokens(v: &Vec<TLTokenGroup>) -> (res: Vec<TLTokenGroup>)
    ensures
        token_views(res@) == token_views(v@),
{
    let mut res: Vec<TLTokenGroup> = Vec::new();
    let mut i: usize = 0;
    while i < v.len()
        invariant
            i <= v@.len(),
            res@.len() == i,
            forall|j: int| 0 <= j < i ==> #[trigger] res@[j]@ == v@[j]@,
        decreases v@.len() - i,
    {
        res.push(v[i].clone());
        i += 1;
    }
    assert(token_views(res@) =~= token_views(v@));
    res
}

/// The types grouped by the module file they go to (see `file_obj_fold`).
pub fn file_obj_map(tknwrap: &TokenWrap) -> (res: StrMap<Vec<TLTokenGroup>>)
    ensures
        file_map_view(res) == file_obj_fold(tknwrap@, tknwrap@.tokens),
{
    let tokens = tknwrap.tokens();
    let ghost ts = tknwrap@.tokens;
    let mut map: StrMap<Vec<TLTokenGroup>> = StrMap::new();
    let mut i: usize = 0;
    assert(ts.take(0) =~= Seq::<TLTokenGroupV>::empty());
    assert(file_map_view(map) =~= Seq::<(Seq<char>, Seq<TLTokenGroupV>)>::empty());
    while i < tokens.len()
        invariant
            ts == token_views(tokens@),
            ts == tknwrap@.tokens,
            i <= ts.len(),
            file_map_view(map) == file_obj_fold(tknwrap@, ts.take(i as int)),
        decreases ts.len() - i,
    {
        let token = &tokens[i];
        assert(ts[i as int] == token@);
        assert(ts.take(i + 1).drop_last() =~= ts.take(i as int));
        assert(ts.take(i + 1).last() == token@);
        i += 1;
        if tknwrap.is_skip_type(token.name()) {
            continue;
        }
        assert(ts[i - 1].name == token@.name);
        let file_name = tknwrap.which_file(token.name());
        let ghost m0 = map;
        proof {
            lemma_assoc_find_same_keys(m0@, file_map_view(m0), file_name@);
            lemma_assoc_find(m0@, file_name@);
        }
        let mut vec_of_file_obj = match map.get(file_name.as_str()) {
            Some(v) => clone_tokens(v),
            None => Vec::new(),
        };
        let ghost before = token_views(vec_of_file_obj@);
        vec_of_file_obj.push(token.clone());
        assert(token_views(vec_of_file_obj@) =~= before.push(token@));
        assert(assoc_get(file_map_view(m0), file_name@) is None ==> before =~= Seq::<TLTokenGroupV>::empty());
        let ghost entry = token_views(vec_of_file_obj@);
        map.insert(file_name, vec_of_file_obj);
        assert(file_map_view(map) =~= assoc_insert(file_map_view(m0), file_name@, entry));
    }
    assert(ts.take(ts.len() as int) =~= ts);
    map
}

/// `Update`, the super type of the client's built-in update events.
pub open spec fn update_type() -> Seq<char> {
    seq!['U', 'p', 'd', 'a', 't', 'e']
}

/// Whether an update token of `ts` is named `v`, ignoring case.
pub open spec fn is_update_listener(ts: Seq<TLTokenGroupV>, v: Seq<char>) -> bool {
    exists|i: int|
        0 <= i < ts.len() && ts[i].blood == Some(update_type()) && #[trigger] lowercase(ts[i].name) == lowercase(v)
}

/// The extra listeners that no update type already provides, in table order.
pub open spec fn extra_listeners_of(w: TokenWrapV) -> Seq<(Seq<char>, Seq<char>)> {
    w.tdtypefill.listener.filter(|e: (Seq<char>, Seq<char>)| !is_update_listener(w.tokens, e.1))
}

/// The extra listeners (name, schema type) that no update type already provides.
pub fn extra_listeners(tknwrap: &TokenWrap) -> (res: Vec<(String, String)>)
    ensures
        res@.map_values(|e: (String, String)| (e.0@, e.1@)) == extra_listeners_of(tknwrap@),
        forall|e: (Seq<char>, Seq<char>)|
            #[trigger] extra_listeners_of(tknwrap@).contains(e) <==> tknwrap@.tdtypefill.listener.contains(e)
                && forall|j: int|
                0 <= j < tknwrap@.tokens.len() && tknwrap@.tokens[j].blood == Some(update_type()) ==> lowercase(
                    tknwrap@.tokens[j].name,
                ) != lowercase(e.1),
{
    let tokens = tknwrap.tokens();
    let ghost ts = tknwrap@.tokens;
    let listener = tknwrap.tdtypefill().listener();
    let ghost ls = str_map_view(*listener);
    let update = vec!['U', 'p', 'd', 'a', 't', 'e'];
    assert(update@ =~= update_type());
    let mut res: Vec<(String, String)> = Vec::new();
    let mut i: usize = 0;
    assert(ls.take(0) =~= Seq::<(Seq<char>, Seq<char>)>::empty());
    assert(res@.map_values(|e: (String, String)| (e.0@, e.1@)) =~= Seq::<(Seq<char>, Seq<char>)>::empty());
    while i < listener.len()
        invariant
            ts == token_views(tokens@),
            ts == tknwrap@.tokens,
            ls == str_map_view(*listener),
            ls == tknwrap@.tdtypefill.listener,
            update@ == update_type(),
            i <= ls.len(),
            res@.map_values(|e: (String, String)| (e.0@, e.1@)) == ls.take(i as int).filter(
                |e: (Seq<char>, Seq<char>)| !is_update_listener(ts, e.1),
            ),
        decreases ls.len() - i,
    {
        let key = listener.key_at(i);
        let value = listener.value_at(i);
        assert(ls[i as int] == (key@, value@));
        let target = chars_of(to_lowercase(value.as_str()).as_str());
        let mut found = false;
        let mut j: usize = 0;
        while j < tokens.len()
            invariant
                ts == token_views(tokens@),
                update@ == update_type(),
                target@ == lowercase(value@),
                j <= ts.len(),
                found == (exists|k: int|
                    0 <= k < j && ts[k].blood == Some(update_type()) && #[trigger] lowercase(ts[k].name) == lowercase(value@)),
            decreases ts.len() - j,
        {
            let token = &tokens[j];
            assert(ts[j as int] == token@);
            let is_update = match token.blood() {
                Some(b) => same_chars(&chars_of(b.as_str()), &update),
                None => false,
            };
            if is_update && !found {
                let name = chars_of(to_lowercase(token.name().as_str()).as_str());
                if same_chars(&name, &target) {
                    found = true;
                }
            }
            j += 1;
        }
        assert(found == is_update_listener(ts, value@));
        assert(ls.take(i + 1).drop_last() =~= ls.take(i as int));
        reveal_with_fuel(Seq::filter, 1);
        if !found {
            let ghost prev = res@.map_values(|e: (String, String)| (e.0@, e.1@));
            res.push((key.clone(), value.clone()));
            assert(res@.map_values(|e: (String, String)| (e.0@, e.1@)) =~= prev.push((key@, value@)));
        }
        i += 1;
    }
    assert(ls.take(ls.len() as int) =~= ls);
    proof {
        assert forall|e: (Seq<char>, Seq<char>)|
            #[trigger] extra_listeners_of(tknwrap@).contains(e) <==> tknwrap@.tdtypefill.listener.contains(e)
                && forall|j: int|
                0 <= j < tknwrap@.tokens.len() && tknwrap@.tokens[j].blood == Some(update_type()) ==> lowercase(
                    tknwrap@.tokens[j].name,
                ) != lowercase(e.1) by {
            lemma_extra_listener_member(tknwrap@, e);
        }
    }
    res
}

/// A listener of the table is extra exactly when no update type, wherever
/// it stands among the tokens, has the listened type's name ignoring case.
pub proof fn lemma_extra_listener_member(w: TokenWrapV, e: (Seq<char>, Seq<char>))
    ensures
        extra_listeners_of(w).contains(e) <==> w.tdtypefill.listener.contains(e) && forall|j: int|
            0 <= j < w.tokens.len() && w.tokens[j].blood == Some(update_type()) ==> lowercase(w.tokens[j].name)
                != lowercase(e.1),
{
    crate::text::lemma_filter_member(
        w.tdtypefill.listener,
        |e: (Seq<char>, Seq<char>)| !is_update_listener(w.tokens, e.1),
        e,
    );
    if !is_update_listener(w.tokens, e.1) {
        assert forall|j: int| 0 <= j < w.tokens.len() && w.tokens[j].blood == Some(update_type()) implies lowercase(
            w.tokens[j].name,
        ) != lowercase(e.1) by {
            if lowercase(w.tokens[j].name) == lowercase(e.1) {
                assert(is_update_listener(w.tokens, e.1));
            }
        }
    }
}

/// The types generated one by one, each with the module file it goes to,
/// in token order: built-in types left out.
pub open spec fn type_files_of(w: TokenWrapV) -> Seq<(Seq<char>, TLTokenGroupV)> {
    w.tokens.filter(|t: TLTokenGroupV| !skip_types().contains(t.name)).map_values(
        |t: TLTokenGroupV| (which_file_of(w.tokens, t.name), t),
    )
}

/// The types generated one by one, each with its module file (see
/// `type_files_of`).
pub fn type_files(tknwrap: &TokenWrap) -> (res: Vec<(String, TLTokenGroup)>)
    ensures
        res@.map_values(|e: (String, TLTokenGroup)| (e.0@, e.1@)) == type_files_of(tknwrap@),
{
    let tokens = tknwrap.tokens();
    let ghost ts = tknwrap@.tokens;
    let ghost keep = |t: TLTokenGroupV| !skip_types().contains(t.name);
    let ghost pair = |t: TLTokenGroupV| (which_file_of(ts, t.name), t);
    let mut res: Vec<(String, TLTokenGroup)> = Vec::new();
    let mut i: usize = 0;
    assert(ts.take(0) =~= Seq::<TLTokenGroupV>::empty());
    assert(res@.map_values(|e: (String, TLTokenGroup)| (e.0@, e.1@)) =~= Seq::<(Seq<char>, TLTokenGroupV)>::empty());
    while i < tokens.len()
        invariant
            ts == token_views(tokens@),
            ts == tknwrap@.tokens,
            keep == (|t: TLTokenGroupV| !skip_types().contains(t.name)),
            pair == (|t: TLTokenGroupV| (which_file_of(ts, t.name), t)),
            i <= ts.len(),
            res@.map_values(|e: (String, TLTokenGroup)| (e.0@, e.1@)) == ts.take(i as int).filter(keep).map_values(pair),
        decreases ts.len() - i,
    {
        let token = &tokens[i];
        assert(ts[i as int] == token@);
        assert(ts.take(i + 1).drop_last() =~= ts.take(i as int));
        assert(ts.take(i + 1).last() == token@);
        reveal_with_fuel(Seq::filter, 1);
        if !tknwrap.is_skip_type(token.name()) {
            let file_name = tknwrap.which_file(token.name());
            let ghost prev = res@.map_values(|e: (String, TLTokenGroup)| (e.0@, e.1@));
            res.push((file_name, token.clone()));
            assert(res@.map_values(|e: (String, TLTokenGroup)| (e.0@, e.1@)) =~= prev.push(pair(token@)));
            assert(ts.take(i + 1).filter(keep) =~= ts.take(i as int).filter(keep).push(token@));
            assert(ts.take(i + 1).filter(keep).map_values(pair) =~= ts.take(i as int).filter(keep).map_values(pair).push(pair(token@)));
        } else {
            assert(ts.take(i + 1).filter(keep) =~= ts.take(i as int).filter(keep));
        }
        i += 1;
    }
    assert(ts.take(ts.len() as int) =~= ts);
    res
}

/// Extra listeners are taken entry by entry, in table order: those of two
/// runs of entries are those of the first run followed by those of the
/// second, and a single entry is kept exactly when no update type, wherever
/// it stands, has its listened type's name ignoring case.
pub proof fn lemma_extra_listeners_in_order(
    ts: Seq<TLTokenGroupV>,
    l1: Seq<(Seq<char>, Seq<char>)>,
    l2: Seq<(Seq<char>, Seq<char>)>,
    e: (Seq<char>, Seq<char>),
)
    ensures
        (l1 + l2).filter(|e: (Seq<char>, Seq<char>)| !is_update_listener(ts, e.1)) == l1.filter(
            |e: (Seq<char>, Seq<char>)| !is_update_listener(ts, e.1),
        ) + l2.filter(|e: (Seq<char>, Seq<char>)| !is_update_listener(ts, e.1)),
        seq![e].filter(|e: (Seq<char>, Seq<char>)| !is_update_listener(ts, e.1)) == (if forall|j: int|
            0 <= j < ts.len() && ts[j].blood == Some(update_type()) ==> lowercase(ts[j].name) != lowercase(e.1) {
            seq![e]
        } else {
            Seq::<(Seq<char>, Seq<char>)>::empty()
        }),
{
    Seq::filter_distributes_over_add(l1, l2, |e: (Seq<char>, Seq<char>)| !is_update_listener(ts, e.1));
    reveal_with_fuel(Seq::filter, 2);
    assert(seq![e].drop_last() =~= Seq::<(Seq<char>, Seq<char>)>::empty());
    if !is_update_listener(ts, e.1) {
        assert forall|j: int| 0 <= j < ts.len() && ts[j].blood == Some(update_type()) implies lowercase(ts[j].name)
            != lowercase(e.1) by {
            if lowercase(ts[j].name) == lowercase(e.1) {
                assert(is_update_listener(ts, e.1));
            }
        }
    }
}

} // verus!
