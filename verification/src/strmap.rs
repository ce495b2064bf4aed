//! A map from strings to values, kept as an association list in insertion order.
use vstd::prelude::*;

verus! {

broadcast use vstd::string::group_string_axioms;

/// Index of the first entry with key `k`, if any.
pub open spec fn assoc_find<V>(s: Seq<(Seq<char>, V)>, k: Seq<char>) -> Option<int>
    decreases s.len(),
{
    if s.len() == 0 {
        None
    } else if s[0].0 == k {
        Some(0)
    } else {
        match assoc_find(s.drop_first(), k) {
            Some(i) => Some(i + 1),
            None => None,
        }
    }
}

/// The value of the first entry with key `k`, if any.
pub open spec fn assoc_get<V>(s: Seq<(Seq<char>, V)>, k: Seq<char>) -> Option<V> {
    match assoc_find(s, k) {
        Some(i) => Some(s[i].1),
        None => None,
    }
}

/// The entries after setting key `k` to `v`: the entry of `k` takes the new
/// value in place, or a new entry goes at the end.
pub open spec fn assoc_insert<V>(s: Seq<(Seq<char>, V)>, k: Seq<char>, v: V) -> Seq<(Seq<char>, V)> {
    match assoc_find(s, k) {
        Some(i) => s.update(i, (k, v)),
        None => s.push((k, v)),
    }
}

/// The entries without the first entry of key `k`, if any.
pub open spec fn assoc_remove<V>(s: Seq<(Seq<char>, V)>, k: Seq<char>) -> Seq<(Seq<char>, V)> {
    match assoc_find(s, k) {
        Some(i) => s.remove(i),
        None => s,
    }
}

/// Facts about `assoc_find`: it finds the first entry whose key is `k`.
pub proof fn lemma_assoc_find<V>(s: Seq<(Seq<char>, V)>, k: Seq<char>)
    ensures
        assoc_find(s, k) matches Some(i) ==> 0 <= i < s.len() && s[i].0 == k && forall|j: int|
            0 <= j < i ==> s[j].0 != k,
        assoc_find(s, k) is None ==> forall|j: int| 0 <= j < s.len() ==> s[j].0 != k,
    decreases s.len(),
{
    if s.len() > 0 {
        lemma_assoc_find(s.drop_first(), k);
        if s[0].0 != k {
            assert forall|j: int| 1 <= j < s.len() implies s[j] == s.drop_first()[j - 1] by {}
        }
    }
}

/// `assoc_find` is determined by the first entry whose key is `k`.
pub proof fn lemma_assoc_find_at<V>(s: Seq<(Seq<char>, V)>, k: Seq<char>, i: int)
    requires
        0 <= i < s.len(),
        s[i].0 == k,
        forall|j: int| 0 <= j < i ==> s[j].0 != k,
    ensures
        assoc_find(s, k) == Some(i),
{
    lemma_assoc_find(s, k);
}

/// No key occurs twice.
pub open spec fn keys_unique<V>(s: Seq<(Seq<char>, V)>) -> bool {
    forall|i: int, j: int| #![trigger s[i], s[j]] 0 <= i < j < s.len() ==> s[i].0 != s[j].0
}

/// `assoc_find` finds nothing exactly when no key is `k`.
pub proof fn lemma_assoc_find_none<V>(s: Seq<(Seq<char>, V)>, k: Seq<char>)
    ensures
        assoc_find(s, k) is None <==> forall|j: int| 0 <= j < s.len() ==> s[j].0 != k,
{
    lemma_assoc_find(s, k);
}

/// Setting a key keeps the keys distinct.
pub proof fn lemma_insert_unique<V>(s: Seq<(Seq<char>, V)>, k: Seq<char>, v: V)
    requires
        keys_unique(s),
    ensures
        keys_unique(assoc_insert(s, k, v)),
{
    lemma_assoc_find(s, k);
    let t = assoc_insert(s, k, v);
    match assoc_find(s, k) {
        Some(i) => {
            assert forall|a: int, b: int| 0 <= a < b < t.len() implies #[trigger] t[a].0 != #[trigger] t[b].0 by {
                assert(t[a].0 == s[a].0);
                assert(t[b].0 == s[b].0);
            }
        },
        None => {
            assert forall|a: int, b: int| 0 <= a < b < t.len() implies #[trigger] t[a].0 != #[trigger] t[b].0 by {
                if b < s.len() {
                    assert(t[a] == s[a] && t[b] == s[b]);
                } else {
                    assert(t[a] == s[a]);
                }
            }
        },
    }
}

/// Removing a key keeps the keys distinct.
pub proof fn lemma_remove_unique<V>(s: Seq<(Seq<char>, V)>, k: Seq<char>)
    requires
        keys_unique(s),
    ensures
        keys_unique(assoc_remove(s, k)),
{
    lemma_assoc_find(s, k);
    let t = assoc_remove(s, k);
    match assoc_find(s, k) {
        Some(i) => {
            assert forall|a: int, b: int| 0 <= a < b < t.len() implies #[trigger] t[a].0 != #[trigger] t[b].0 by {
                let a2 = if a < i { a } else { a + 1 };
                let b2 = if b < i { b } else { b + 1 };
                assert(t[a] == s[a2]);
                assert(t[b] == s[b2]);
                assert(s[a2].0 != s[b2].0);
            }
        },
        None => {},
    }
}

/// A read of the key just set gives the value set.
pub proof fn lemma_insert_get<V>(s: Seq<(Seq<char>, V)>, k: Seq<char>, v: V)
    ensures
        assoc_get(assoc_insert(s, k, v), k) == Some(v),
{
    lemma_assoc_find(s, k);
    let t = assoc_insert(s, k, v);
    match assoc_find(s, k) {
        Some(i) => {
            assert forall|j: int| 0 <= j < i implies t[j].0 != k by {
                assert(t[j] == s[j]);
            }
            lemma_assoc_find_at(t, k, i);
        },
        None => {
            assert forall|j: int| 0 <= j < s.len() implies t[j].0 != k by {
                assert(t[j] == s[j]);
            }
            lemma_assoc_find_at(t, k, s.len() as int);
        },
    }
}

/// Setting a key leaves the reads of every other key as they were.
pub proof fn lemma_insert_get_other<V>(s: Seq<(Seq<char>, V)>, k: Seq<char>, v: V, k2: Seq<char>)
    requires
        k2 != k,
    ensures
        assoc_get(assoc_insert(s, k, v), k2) == assoc_get(s, k2),
{
    lemma_assoc_find(s, k);
    lemma_assoc_find(s, k2);
    let t = assoc_insert(s, k, v);
    match assoc_find(s, k) {
        Some(i) => {
            assert forall|j: int| 0 <= j < s.len() implies #[trigger] s[j].0 == t[j].0 by {}
            lemma_assoc_find_same_keys(s, t, k2);
            match assoc_find(s, k2) {
                Some(j) => {
                    assert(j != i);
                    assert(t[j] == s[j]);
                },
                None => {},
            }
        },
        None => {
            match assoc_find(s, k2) {
                Some(j) => {
                    assert forall|m: int| 0 <= m < j implies t[m].0 != k2 by {
                        assert(t[m] == s[m]);
                    }
                    assert(t[j] == s[j]);
                    lemma_assoc_find_at(t, k2, j);
                },
                None => {
                    assert forall|m: int| 0 <= m < t.len() implies t[m].0 != k2 by {
                        if m < s.len() {
                            assert(t[m] == s[m]);
                        }
                    }
                    lemma_assoc_find_none(t, k2);
                },
            }
        },
    }
}

/// Once a key is removed, reading it gives nothing.
pub proof fn lemma_remove_get<V>(s: Seq<(Seq<char>, V)>, k: Seq<char>)
    requires
        keys_unique(s),
    ensures
        assoc_get(assoc_remove(s, k), k) is None,
{
    lemma_assoc_find(s, k);
    let t = assoc_remove(s, k);
    match assoc_find(s, k) {
        Some(i) => {
            assert forall|m: int| 0 <= m < t.len() implies t[m].0 != k by {
                if m < i {
                    assert(t[m] == s[m]);
                } else {
                    assert(t[m] == s[m + 1]);
                    assert(s[i].0 != s[m + 1].0);
                }
            }
            lemma_assoc_find_none(t, k);
        },
        None => {},
    }
}

/// Removing a key leaves the reads of every other key as they were.
pub proof fn lemma_remove_get_other<V>(s: Seq<(Seq<char>, V)>, k: Seq<char>, k2: Seq<char>)
    requires
        k2 != k,
    ensures
        assoc_get(assoc_remove(s, k), k2) == assoc_get(s, k2),
{
    lemma_assoc_find(s, k);
    lemma_assoc_find(s, k2);
    let t = assoc_remove(s, k);
    match assoc_find(s, k) {
        Some(i) => {
            match assoc_find(s, k2) {
                Some(j) => {
                    assert(j != i);
                    if j < i {
                        assert forall|m: int| 0 <= m < j implies t[m].0 != k2 by {
                            assert(t[m] == s[m]);
                        }
                        assert(t[j] == s[j]);
                        lemma_assoc_find_at(t, k2, j);
                    } else {
                        assert forall|m: int| 0 <= m < j - 1 implies t[m].0 != k2 by {
                            if m < i {
                                assert(t[m] == s[m]);
                            } else {
                                assert(t[m] == s[m + 1]);
                            }
                        }
                        assert(t[j - 1] == s[j]);
                        lemma_assoc_find_at(t, k2, j - 1);
                    }
                },
                None => {
                    assert forall|m: int| 0 <= m < t.len() implies t[m].0 != k2 by {
                        if m < i {
                            assert(t[m] == s[m]);
                        } else {
                            assert(t[m] == s[m + 1]);
                        }
                    }
                    lemma_assoc_find_none(t, k2);
                },
            }
        },
        None => {},
    }
}

/// A map from strings to values; an association list without repeated keys
/// when it is only changed by `insert`.
#[derive(Debug)]
pub struct StrMap<V> {
    entries: Vec<(String, V)>,
}

impl<V> View for StrMap<V> {
    type V = Seq<(Seq<char>, V)>;

    closed spec fn view(&self) -> Seq<(Seq<char>, V)> {
        self.entries@.map_values(|e: (String, V)| (e.0@, e.1))
    }
}

impl<V: Clone> Clone for StrMap<V> {
    fn clone(&self) -> (res: Self)
        ensures
            res@.len() == self@.len(),
            forall|i: int| 0 <= i < self@.len() ==> #[trigger] res@[i].0 == self@[i].0 && cloned(
                self@[i].1,
                res@[i].1,
            ),
    {
        let mut entries: Vec<(String, V)> = Vec::new();
        let mut i: usize = 0;
        while i < self.entries.len()
            invariant
                i <= self.entries@.len(),
                entries@.len() == i,
                forall|j: int| 0 <= j < i ==> #[trigger] entries@[j].0@ == self.entries@[j].0@ && cloned(
                    self.entries@[j].1,
                    entries@[j].1,
                ),
            decreases self.entries@.len() - i,
        {
            let k = self.entries[i].0.clone();
            let v = self.entries[i].1.clone();
            entries.push((k, v));
            i += 1;
        }
        StrMap { entries }
    }
}

impl StrMap<String> {
    /// A copy of the map.
    pub fn copy(&self) -> (res: Self)
        ensures
            res@ == self@,
    {
        let mut entries: Vec<(String, String)> = Vec::new();
        let mut i: usize = 0;
        while i < self.entries.len()
            invariant
                i <= self.entries@.len(),
                entries@.len() == i,
                forall|j: int| 0 <= j < i ==> #[trigger] entries@[j].0@ == self.entries@[j].0@
                    && entries@[j].1 == self.entries@[j].1,
            decreases self.entries@.len() - i,
        {
            let k = self.entries[i].0.clone();
            let v = self.entries[i].1.clone();
            assert(v == self.entries@[i as int].1);
            entries.push((k, v));
            assert(entries@[i as int].1 == self.entries@[i as int].1);
            i += 1;
        }
        let res = StrMap { entries };
        assert(res@ =~= self@);
        res
    }
}

impl<V> StrMap<V> {
    /// An empty map.
    pub fn new() -> (res: Self)
        ensures
            res@ == Seq::<(Seq<char>, V)>::empty(),
    {
        let res = StrMap { entries: Vec::new() };
        assert(res@ =~= Seq::<(Seq<char>, V)>::empty());
        res
    }

    /// Number of entries.
    pub fn len(&self) -> (res: usize)
        ensures
            res == self@.len(),
    {
        self.entries.len()
    }

    /// Key of entry `i`.
    pub fn key_at(&self, i: usize) -> (res: &String)
        requires
            i < self@.len(),
        ensures
            res@ == self@[i as int].0,
    {
        &self.entries[i].0
    }

    /// Value of entry `i`.
    pub fn value_at(&self, i: usize) -> (res: &V)
        requires
            i < self@.len(),
        ensures
            *res == self@[i as int].1,
    {
        &self.entries[i].1
    }

    /// Index of the entry with key `k`.
    pub fn find(&self, k: &str) -> (res: Option<usize>)
        ensures
            res matches Some(i) ==> assoc_find(self@, k@) == Some(i as int) && i < self@.len(),
            res is None ==> assoc_find(self@, k@) is None,
    {
        let ks = k.to_string();
        let mut i: usize = 0;
        while i < self.entries.len()
            invariant
                ks@ == k@,
                self@.len() == self.entries@.len(),
                forall|j: int| 0 <= j < self@.len() ==> #[trigger] self@[j] == (self.entries@[j].0@, self.entries@[j].1),
                i <= self@.len(),
                forall|j: int| 0 <= j < i ==> self@[j].0 != k@,
            decreases self@.len() - i,
        {
            if self.entries[i].0 == ks {
                proof {
                    lemma_assoc_find_at(self@, k@, i as int);
                }
                return Some(i);
            }
            i += 1;
        }
        proof {
            lemma_assoc_find(self@, k@);
        }
        None
    }

    /// The value of key `k`, if the map has one.
    pub fn get(&self, k: &str) -> (res: Option<&V>)
        ensures
            match assoc_get(self@, k@) {
                Some(v) => res matches Some(r) && *r == v,
                None => res is None,
            },
    {
        match self.find(k) {
            Some(i) => {
                assert(self@[i as int] == (self.entries@[i as int].0@, self.entries@[i as int].1));
                Some(&self.entries[i].1)
            },
            None => None,
        }
    }

    /// Removes the entry of key `k`, if any.
    pub fn remove(&mut self, k: &str)
        ensures
            final(self)@ == assoc_remove(old(self)@, k@),
    {
        match self.find(k) {
            Some(i) => {
                assert(self@.len() == self.entries@.len());
                self.entries.remove(i);
                assert(self@ =~= old(self)@.remove(i as int));
            },
            None => {},
        }
    }

    /// Sets key `k` to value `v`.
    pub fn insert(&mut self, k: String, v: V)
        ensures
            final(self)@ == assoc_insert(old(self)@, k@, v),
    {
        match self.find(k.as_str()) {
            Some(i) => {
                assert(self@.len() == self.entries@.len());
                let ghost k0 = k@;
                self.entries.set(i, (k, v));
                assert(self@ =~= old(self)@.update(i as int, (k0, v)));
            },
            None => {
                self.entries.push((k, v));
                assert(self@ =~= old(self)@.push((k@, v)));
            },
        }
    }
}

/// Lookups depend on the keys only: two entry lists with the same keys in
/// the same order find a key at the same index.
pub proof fn lemma_assoc_find_same_keys<V, W>(s: Seq<(Seq<char>, V)>, t: Seq<(Seq<char>, W)>, k: Seq<char>)
    requires
        s.len() == t.len(),
        forall|i: int| 0 <= i < s.len() ==> #[trigger] s[i].0 == t[i].0,
    ensures
        assoc_find(s, k) == assoc_find(t, k),
    decreases s.len(),
{
    if s.len() > 0 {
        assert forall|i: int| 0 <= i < s.drop_first().len() implies #[trigger] s.drop_first()[i].0
            == t.drop_first()[i].0 by {
            assert(s.drop_first()[i] == s[i + 1]);
            assert(t.drop_first()[i] == t[i + 1]);
        }
        lemma_assoc_find_same_keys(s.drop_first(), t.drop_first(), k);
    }
}

} // verus!
