//! Character-sequence helpers shared by the schema parser and the generators.
use vstd::prelude::*;

verus! {

broadcast use vstd::string::group_string_axioms;

/// `p` is a prefix of `s`.
pub open spec fn starts_with(s: Seq<char>, p: Seq<char>) -> bool {
    p.len() <= s.len() && s.take(p.len() as int) == p
}

/// `p` is a suffix of `s`.
pub open spec fn ends_with(s: Seq<char>, p: Seq<char>) -> bool {
    p.len() <= s.len() && s.skip(s.len() - p.len()) == p
}

/// The pieces of `s` between occurrences of `sep`, as `str::split` with a
/// one-character pattern gives them (an empty `s` gives one empty piece).
pub open spec fn split(s: Seq<char>, sep: char) -> Seq<Seq<char>>
    decreases s.len(),
{
    if s.len() == 0 {
        seq![Seq::<char>::empty()]
    } else {
        let r = split(s.drop_last(), sep);
        if s.last() == sep {
            r.push(Seq::<char>::empty())
        } else {
            r.update(r.len() - 1, r.last().push(s.last()))
        }
    }
}

/// The pieces of `ws` glued together with `sep` between neighbours.
pub open spec fn join(ws: Seq<Seq<char>>, sep: Seq<char>) -> Seq<char>
    decreases ws.len(),
{
    if ws.len() == 0 {
        Seq::<char>::empty()
    } else if ws.len() == 1 {
        ws[0]
    } else {
        join(ws.drop_last(), sep) + sep + ws.last()
    }
}

/// `s` with every occurrence of `c` removed.
pub open spec fn remove_char(s: Seq<char>, c: char) -> Seq<char> {
    s.filter(|x: char| x != c)
}

/// Index of the first `c` in `s`, or the length of `s` when there is none.
pub open spec fn index_of(s: Seq<char>, c: char) -> int
    decreases s.len(),
{
    if s.len() == 0 {
        0
    } else if s[0] == c {
        0
    } else {
        1 + index_of(s.drop_first(), c)
    }
}

/// `s` with each non-overlapping occurrence of `p`, taken from the left,
/// replaced by `r` (the behaviour of `str::replace` for a non-empty pattern;
/// an empty pattern leaves `s` as it is).
pub open spec fn replace(s: Seq<char>, p: Seq<char>, r: Seq<char>) -> Seq<char>
    decreases s.len(),
{
    if p.len() == 0 || s.len() < p.len() {
        s
    } else if s.take(p.len() as int) == p {
        r + replace(s.skip(p.len() as int), p, r)
    } else {
        seq![s[0]] + replace(s.drop_first(), p, r)
    }
}

/// What `str::to_lowercase` gives for a string: Unicode lowercase mapping.
pub uninterp spec fn lowercase(s: Seq<char>) -> Seq<char>;

/// `str::to_lowercase` of std: the Unicode lowercase of `s`, named by
/// `lowercase`; nothing more of that mapping is stated here.
#[verifier::external_body]
pub(crate) fn to_lowercase(s: &str) -> (res: String)
    ensures
        res@ == lowercase(s@),
{
    s.to_lowercase()
}

/// `String::push` of std: appends one character.
#[verifier::external_body]
pub(crate) fn push_char(s: &mut String, c: char)
    ensures
        final(s)@ == old(s)@.push(c),
{
    s.push(c);
}

/// The characters of a string slice, in order.
pub fn chars_of(s: &str) -> (res: Vec<char>)
    ensures
        res@ == s@,
{
    let mut res: Vec<char> = Vec::new();
    for c in it: s.chars()
        invariant
            res@ == it.seq().take(it.index() as int),
    {
        res.push(c);
    }
    res
}

/// A string made of the given characters, in order.
pub fn string_of(v: &[char]) -> (res: String)
    ensures
        res@ == v@,
{
    let mut res = String::new();
    let mut i: usize = 0;
    while i < v.len()
        invariant
            i <= v@.len(),
            res@ == v@.take(i as int),
        decreases v@.len() - i,
    {
        push_char(&mut res, v[i]);
        assert(v@.take(i as int).push(v@[i as int]) == v@.take(i + 1));
        i += 1;
    }
    assert(v@.take(v@.len() as int) == v@);
    res
}

/// Whether `s` begins with `p`.
pub fn has_prefix(s: &[char], p: &[char]) -> (res: bool)
    ensures
        res == starts_with(s@, p@),
{
    if p.len() > s.len() {
        return false;
    }
    let mut i: usize = 0;
    while i < p.len()
        invariant
            p@.len() <= s@.len(),
            i <= p@.len(),
            forall|j: int| 0 <= j < i ==> s@[j] == p@[j],
        decreases p@.len() - i,
    {
        if s[i] != p[i] {
            assert(s@.take(p@.len() as int)[i as int] != p@[i as int]);
            return false;
        }
        i += 1;
    }
    assert(s@.take(p@.len() as int) =~= p@);
    true
}

/// Whether `s` ends with `p`.
pub fn has_suffix(s: &[char], p: &[char]) -> (res: bool)
    ensures
        res == ends_with(s@, p@),
{
    if p.len() > s.len() {
        return false;
    }
    let off = s.len() - p.len();
    let mut i: usize = 0;
    while i < p.len()
        invariant
            p@.len() <= s@.len(),
            off == s@.len() - p@.len(),
            off + p.len() == s.len(),
            i <= p@.len(),
            forall|j: int| 0 <= j < i ==> s@[off + j] == p@[j],
        decreases p@.len() - i,
    {
        if s[off + i] != p[i] {
            assert(s@.skip(off as int)[i as int] != p@[i as int]);
            return false;
        }
        i += 1;
    }
    assert(s@.skip(off as int) =~= p@);
    true
}

/// Whether `c` occurs in `s`.
pub fn has_char(s: &[char], c: char) -> (res: bool)
    ensures
        res == s@.contains(c),
{
    let mut i: usize = 0;
    while i < s.len()
        invariant
            i <= s@.len(),
            forall|j: int| 0 <= j < i ==> s@[j] != c,
        decreases s@.len() - i,
    {
        if s[i] == c {
            return true;
        }
        i += 1;
    }
    false
}

/// Index of the first `c` in `s`, or `s.len()` when there is none.
pub fn find_char(s: &[char], c: char) -> (res: usize)
    ensures
        res == index_of(s@, c),
        res <= s@.len(),
        res < s@.len() ==> s@[res as int] == c,
        forall|j: int| 0 <= j < res ==> s@[j] != c,
{
    let mut i: usize = 0;
    assert(s@.skip(0) =~= s@);
    while i < s.len()
        invariant
            i <= s@.len(),
            forall|j: int| 0 <= j < i ==> s@[j] != c,
            index_of(s@, c) == i + index_of(s@.skip(i as int), c),
        decreases s@.len() - i,
    {
        if s[i] == c {
            return i;
        }
        assert(s@.skip(i as int).drop_first() =~= s@.skip(i + 1));
        i += 1;
    }
    i
}

/// The views of a sequence of character vectors.
pub open spec fn views(v: Seq<Vec<char>>) -> Seq<Seq<char>> {
    v.map_values(|w: Vec<char>| w@)
}

/// The pieces of `s` between occurrences of `sep` (see `split`).
pub fn split_chars(s: &[char], sep: char) -> (res: Vec<Vec<char>>)
    ensures
        views(res@) == split(s@, sep),
{
    let mut res: Vec<Vec<char>> = Vec::new();
    res.push(Vec::new());
    let mut i: usize = 0;
    assert(s@.take(0) =~= Seq::<char>::empty());
    assert(views(res@) =~= split(s@.take(0), sep));
    while i < s.len()
        invariant
            i <= s@.len(),
            res@.len() >= 1,
            views(res@) == split(s@.take(i as int), sep),
        decreases s@.len() - i,
    {
        let c = s[i];
        assert(s@.take(i + 1).drop_last() =~= s@.take(i as int));
        assert(s@.take(i + 1).last() == c);
        if c == sep {
            res.push(Vec::new());
            assert(views(res@) =~= split(s@.take(i + 1), sep));
        } else {
            let mut w = res.pop().unwrap();
            w.push(c);
            res.push(w);
            assert(views(res@) =~= split(s@.take(i + 1), sep));
        }
        i += 1;
    }
    assert(s@.take(s@.len() as int) =~= s@);
    res
}

/// Joins the pieces with `sep` between neighbours.
pub fn join_chars(ws: &Vec<Vec<char>>, sep: &[char]) -> (res: Vec<char>)
    ensures
        res@ == join(views(ws@), sep@),
{
    let mut res: Vec<char> = Vec::new();
    let mut i: usize = 0;
    while i < ws.len()
        invariant
            i <= ws@.len(),
            res@ == join(views(ws@).take(i as int), sep@),
        decreases ws@.len() - i,
    {
        assert(views(ws@).take(i + 1).drop_last() =~= views(ws@).take(i as int));
        if i > 0 {
            let mut j: usize = 0;
            let ghost r0 = res@;
            while j < sep.len()
                invariant
                    j <= sep@.len(),
                    res@ == r0 + sep@.take(j as int),
                decreases sep@.len() - j,
            {
                res.push(sep[j]);
                assert(r0 + sep@.take(j + 1) =~= (r0 + sep@.take(j as int)).push(sep@[j as int]));
                j += 1;
            }
            assert(sep@.take(sep@.len() as int) =~= sep@);
        }
        let w = &ws[i];
        let ghost r1 = res@;
        let mut k: usize = 0;
        while k < w.len()
            invariant
                k <= w@.len(),
                res@ == r1 + w@.take(k as int),
            decreases w@.len() - k,
        {
            res.push(w[k]);
            assert(r1 + w@.take(k + 1) =~= (r1 + w@.take(k as int)).push(w@[k as int]));
            k += 1;
        }
        assert(w@.take(w@.len() as int) =~= w@);
        assert(views(ws@)[i as int] == w@);
        if i == 0 {
            assert(views(ws@).take(1) =~= seq![w@]);
            assert(res@ =~= join(views(ws@).take(1), sep@));
        } else {
            assert(res@ =~= join(views(ws@).take(i + 1), sep@));
        }
        i += 1;
    }
    assert(views(ws@).take(ws@.len() as int) =~= views(ws@));
    res
}

/// `s` with every `c` removed.
pub fn without_char(s: &[char], c: char) -> (res: Vec<char>)
    ensures
        res@ == remove_char(s@, c),
{
    let mut res: Vec<char> = Vec::new();
    let mut i: usize = 0;
    while i < s.len()
        invariant
            i <= s@.len(),
            res@ == remove_char(s@.take(i as int), c),
        decreases s@.len() - i,
    {
        assert(s@.take(i + 1).drop_last() =~= s@.take(i as int));
        reveal_with_fuel(Seq::filter, 1);
        if s[i] != c {
            res.push(s[i]);
        }
        assert(res@ =~= remove_char(s@.take(i + 1), c));
        i += 1;
    }
    assert(s@.take(s@.len() as int) =~= s@);
    res
}

/// Proof that `replace` can be computed from the left, one step at a time.
proof fn lemma_replace_step(s: Seq<char>, i: int, p: Seq<char>, r: Seq<char>)
    requires
        p.len() > 0,
        0 <= i <= s.len(),
    ensures
        s.len() - i < p.len() ==> replace(s.skip(i), p, r) == s.skip(i),
        s.len() - i >= p.len() && s.subrange(i, i + p.len()) == p ==> replace(s.skip(i), p, r)
            == r + replace(s.skip(i + p.len()), p, r),
        s.len() - i >= p.len() && s.subrange(i, i + p.len()) != p ==> replace(s.skip(i), p, r)
            == seq![s[i]] + replace(s.skip(i + 1), p, r),
{
    let t = s.skip(i);
    if t.len() >= p.len() {
        assert(t.take(p.len() as int) =~= s.subrange(i, i + p.len()));
        assert(t.skip(p.len() as int) =~= s.skip(i + p.len()));
        assert(t.drop_first() =~= s.skip(i + 1));
    }
}

/// `s` with each non-overlapping occurrence of `p`, from the left, replaced by `r`.
pub fn replace_chars(s: &[char], p: &[char], r: &[char]) -> (res: Vec<char>)
    ensures
        res@ == replace(s@, p@, r@),
{
    let mut res: Vec<char> = Vec::new();
    if p.len() == 0 {
        let mut k: usize = 0;
        while k < s.len()
            invariant
                k <= s@.len(),
                res@ == s@.take(k as int),
            decreases s@.len() - k,
        {
            res.push(s[k]);
            assert(s@.take(k + 1) =~= s@.take(k as int).push(s@[k as int]));
            k += 1;
        }
        assert(s@.take(s@.len() as int) =~= s@);
        return res;
    }
    let mut i: usize = 0;
    assert(s@.skip(0) =~= s@);
    while i < s.len()
        invariant
            p@.len() > 0,
            i <= s@.len(),
            res@ + replace(s@.skip(i as int), p@, r@) == replace(s@, p@, r@),
        decreases s@.len() - i,
    {
        proof {
            lemma_replace_step(s@, i as int, p@, r@);
        }
        if s.len() - i < p.len() {
            let ghost r0 = res@;
            let mut k: usize = i;
            while k < s.len()
                invariant
                    i <= k <= s@.len(),
                    res@ == r0 + s@.subrange(i as int, k as int),
                decreases s@.len() - k,
            {
                res.push(s[k]);
                assert(r0 + s@.subrange(i as int, k + 1) =~= (r0 + s@.subrange(i as int, k as int)).push(s@[k as int]));
                k += 1;
            }
            assert(s@.subrange(i as int, s@.len() as int) =~= s@.skip(i as int));
            assert(s@.skip(s@.len() as int) =~= Seq::<char>::empty());
            assert(replace(Seq::<char>::empty(), p@, r@) == Seq::<char>::empty());
            assert(res@ =~= replace(s@, p@, r@));
            return res;
        }
        let mut m: usize = 0;
        let mut matched = true;
        while m < p.len()
            invariant
                i + p.len() <= s.len(),
                m <= p@.len(),
                matched == (forall|j: int| 0 <= j < m ==> s@[i + j] == p@[j]),
            decreases p@.len() - m,
        {
            if s[i + m] != p[m] {
                matched = false;
            }
            m += 1;
        }
        if matched {
            assert(s@.subrange(i as int, i + p@.len()) =~= p@);
            let ghost r0 = res@;
            let mut k: usize = 0;
            while k < r.len()
                invariant
                    k <= r@.len(),
                    res@ == r0 + r@.take(k as int),
                decreases r@.len() - k,
            {
                res.push(r[k]);
                assert(r0 + r@.take(k + 1) =~= (r0 + r@.take(k as int)).push(r@[k as int]));
                k += 1;
            }
            assert(r@.take(r@.len() as int) =~= r@);
            assert(res@ + replace(s@.skip(i + p@.len()), p@, r@) =~= r0 + (r@ + replace(s@.skip(i + p@.len()), p@, r@)));
            i += p.len();
        } else {
            assert(s@.subrange(i as int, i + p@.len()) != p@) by {
                let j = choose|j: int| 0 <= j < p@.len() && s@[i + j] != p@[j];
                assert(s@.subrange(i as int, i + p@.len())[j] != p@[j]);
            }
            let ghost r0 = res@;
            res.push(s[i]);
            assert(res@ + replace(s@.skip(i + 1), p@, r@) =~= r0 + (seq![s@[i as int]] + replace(s@.skip(i + 1), p@, r@)));
            i += 1;
        }
    }
    assert(s@.skip(s@.len() as int) =~= Seq::<char>::empty());
    assert(res@ + Seq::<char>::empty() =~= res@);
    res
}

/// `split` gives at most one more piece than `s` has characters.
pub proof fn lemma_split_len(s: Seq<char>, sep: char)
    ensures
        1 <= split(s, sep).len() <= s.len() + 1,
    decreases s.len(),
{
    if s.len() > 0 {
        lemma_split_len(s.drop_last(), sep);
    }
}

/// Whether two character slices hold the same characters.
pub fn same_chars(a: &[char], b: &[char]) -> (res: bool)
    ensures
        res == (a@ == b@),
{
    if a.len() != b.len() {
        return false;
    }
    let mut i: usize = 0;
    while i < a.len()
        invariant
            a@.len() == b@.len(),
            i <= a@.len(),
            forall|j: int| 0 <= j < i ==> a@[j] == b@[j],
        decreases a@.len() - i,
    {
        if a[i] != b[i] {
            return false;
        }
        i += 1;
    }
    assert(a@ =~= b@);
    true
}

/// The characters of `s` from index `n` on.
pub fn skip_chars(s: &[char], n: usize) -> (res: Vec<char>)
    ensures
        res@ == (if n <= s@.len() { s@.skip(n as int) } else { Seq::<char>::empty() }),
{
    let mut res: Vec<char> = Vec::new();
    if n >= s.len() {
        assert(n == s@.len() ==> s@.skip(n as int) =~= Seq::<char>::empty());
        return res;
    }
    let mut i: usize = n;
    while i < s.len()
        invariant
            n <= i <= s@.len(),
            res@ == s@.subrange(n as int, i as int),
        decreases s@.len() - i,
    {
        res.push(s[i]);
        assert(s@.subrange(n as int, i + 1) =~= s@.subrange(n as int, i as int).push(s@[i as int]));
        i += 1;
    }
    assert(s@.subrange(n as int, s@.len() as int) =~= s@.skip(n as int));
    res
}

/// The first `n` characters of `s` (all of them when `s` is shorter).
pub fn take_chars(s: &[char], n: usize) -> (res: Vec<char>)
    ensures
        res@ == (if n <= s@.len() { s@.take(n as int) } else { s@ }),
{
    let mut res: Vec<char> = Vec::new();
    let end = if n <= s.len() { n } else { s.len() };
    let mut i: usize = 0;
    while i < end
        invariant
            end <= s@.len(),
            end == (if n <= s@.len() { n as int } else { s@.len() as int }),
            i <= end,
            res@ == s@.take(i as int),
        decreases end - i,
    {
        res.push(s[i]);
        assert(s@.take(i + 1) =~= s@.take(i as int).push(s@[i as int]));
        i += 1;
    }
    assert(end == s@.len() ==> s@.take(end as int) =~= s@);
    res
}

/// What `index_of` gives: the first position of `c`, or the length.
pub proof fn lemma_index_of(s: Seq<char>, c: char)
    ensures
        0 <= index_of(s, c) <= s.len(),
        index_of(s, c) < s.len() ==> s[index_of(s, c)] == c,
        forall|j: int| 0 <= j < index_of(s, c) ==> s[j] != c,
        s.contains(c) <==> index_of(s, c) < s.len(),
    decreases s.len(),
{
    if s.len() > 0 && s[0] != c {
        lemma_index_of(s.drop_first(), c);
        assert forall|j: int| 1 <= j < s.len() implies s[j] == s.drop_first()[j - 1] by {}
        if s.contains(c) {
            let k = choose|k: int| 0 <= k < s.len() && s[k] == c;
            assert(s.drop_first()[k - 1] == c);
        }
        if s.drop_first().contains(c) {
            let k = choose|k: int| 0 <= k < s.drop_first().len() && s.drop_first()[k] == c;
            assert(s[k + 1] == c);
        }
    }
    if s.len() > 0 && s[0] == c {
        assert(s.contains(c)) by { assert(s[0] == c); }
    }
}

/// The characters of `a` followed by those of `b`.
pub fn concat_chars(a: &[char], b: &[char]) -> (res: Vec<char>)
    ensures
        res@ == a@ + b@,
{
    let mut res: Vec<char> = Vec::new();
    let mut i: usize = 0;
    while i < a.len()
        invariant
            i <= a@.len(),
            res@ == a@.take(i as int),
        decreases a@.len() - i,
    {
        res.push(a[i]);
        assert(a@.take(i + 1) =~= a@.take(i as int).push(a@[i as int]));
        i += 1;
    }
    let mut j: usize = 0;
    assert(a@.take(a@.len() as int) =~= a@);
    while j < b.len()
        invariant
            j <= b@.len(),
            res@ == a@ + b@.take(j as int),
        decreases b@.len() - j,
    {
        res.push(b[j]);
        assert(a@ + b@.take(j + 1) =~= (a@ + b@.take(j as int)).push(b@[j as int]));
        j += 1;
    }
    assert(b@.take(b@.len() as int) =~= b@);
    res
}

/// Whether `p` occurs in `s` at position `i`.
pub open spec fn occurs_at(s: Seq<char>, p: Seq<char>, i: int) -> bool {
    0 <= i && i + p.len() <= s.len() && s.subrange(i, i + p.len()) == p
}

/// Replacing a pattern that does not occur leaves the text as it is.
pub proof fn lemma_replace_absent(s: Seq<char>, p: Seq<char>, r: Seq<char>)
    requires
        forall|i: int| !occurs_at(s, p, i),
    ensures
        replace(s, p, r) == s,
    decreases s.len(),
{
    if p.len() == 0 || s.len() < p.len() {
    } else {
        assert(!occurs_at(s, p, 0));
        assert(s.subrange(0, p.len() as int) =~= s.take(p.len() as int));
        let t = s.drop_first();
        assert forall|i: int| !occurs_at(t, p, i) by {
            if occurs_at(t, p, i) {
                assert(s.subrange(i + 1, i + 1 + p.len()) =~= t.subrange(i, i + p.len()));
                assert(occurs_at(s, p, i + 1));
            }
        }
        lemma_replace_absent(t, p, r);
        assert(seq![s[0]] + t =~= s);
    }
}

/// Text before the first place where the pattern occurs is kept as it is.
pub proof fn lemma_replace_clear_prefix(s: Seq<char>, p: Seq<char>, r: Seq<char>, k: int)
    requires
        p.len() > 0,
        0 <= k <= s.len(),
        forall|i: int| 0 <= i < k ==> !occurs_at(s, p, i),
    ensures
        replace(s, p, r) == s.take(k) + replace(s.skip(k), p, r),
    decreases k,
{
    if k == 0 {
        assert(s.take(0) + s.skip(0) =~= s.skip(0));
        assert(s.skip(0) =~= s);
    } else if s.len() < p.len() {
        assert(s.take(k) + s.skip(k) =~= s);
    } else {
        assert(!occurs_at(s, p, 0));
        assert(s.subrange(0, p.len() as int) =~= s.take(p.len() as int));
        let t = s.drop_first();
        assert forall|i: int| 0 <= i < k - 1 implies !occurs_at(t, p, i) by {
            if occurs_at(t, p, i) {
                assert(s.subrange(i + 1, i + 1 + p.len()) =~= t.subrange(i, i + p.len()));
                assert(occurs_at(s, p, i + 1));
            }
        }
        lemma_replace_clear_prefix(t, p, r, k - 1);
        assert(seq![s[0]] + t.take(k - 1) =~= s.take(k));
        assert(t.skip(k - 1) =~= s.skip(k));
    }
}

/// What a filter keeps comes from the sequence and meets the condition.
pub proof fn lemma_filter_kept<A>(s: Seq<A>, pred: spec_fn(A) -> bool, x: A)
    ensures
        s.filter(pred).contains(x) ==> s.contains(x) && pred(x),
    decreases s.len(),
{
    reveal_with_fuel(Seq::filter, 1);
    if s.len() > 0 && s.filter(pred).contains(x) {
        let init = s.drop_last();
        lemma_filter_kept(init, pred, x);
        if init.filter(pred).contains(x) {
            let k = choose|k: int| 0 <= k < init.len() && init[k] == x;
            assert(s[k] == x);
        } else {
            let f = s.filter(pred);
            let k = choose|k: int| 0 <= k < f.len() && f[k] == x;
            if pred(s.last()) {
                if k < f.len() - 1 {
                    assert(init.filter(pred)[k] == x);
                }
                assert(s[s.len() - 1] == x);
            } else {
                assert(init.filter(pred)[k] == x);
            }
        }
    }
}

/// The filter keeps exactly the elements that meet the condition.
pub proof fn lemma_filter_member<A>(s: Seq<A>, pred: spec_fn(A) -> bool, x: A)
    ensures
        s.filter(pred).contains(x) <==> s.contains(x) && pred(x),
{
    lemma_filter_kept(s, pred, x);
    if s.contains(x) && pred(x) {
        let k = choose|k: int| 0 <= k < s.len() && s[k] == x;
        s.lemma_filter_contains(pred, k);
    }
}

} // verus!
