//! Lexicographic order of strings and stable insertion sorting by a string key.
//! Comparing `char` sequences by code point gives the same order as Rust's `Ord`
//! on `str`, which compares the UTF-8 bytes.

use vstd::prelude::*;

use crate::text::chars_of;

verus! {

/// `a` is before `b` in lexicographic order, deciding from position `k` on.
pub open spec fn lt_from(a: Seq<char>, b: Seq<char>, k: int) -> bool
    decreases a.len() - k,
{
    if k < 0 || k >= a.len() {
        0 <= k < b.len()
    } else if k >= b.len() {
        false
    } else if (a[k] as int) < (b[k] as int) {
        true
    } else if a[k] == b[k] {
        lt_from(a, b, k + 1)
    } else {
        false
    }
}

/// `a` sorts strictly before `b`.
pub open spec fn str_lt(a: Seq<char>, b: Seq<char>) -> bool {
    lt_from(a, b, 0)
}

/// Whether `a` sorts strictly before `b`.
pub fn str_less(a: &str, b: &str) -> (r: bool)
    ensures
        r == str_lt(a@, b@),
{
    let av = chars_of(a);
    let bv = chars_of(b);
    let mut k: usize = 0;
    while k < av.len() && k < bv.len() && av[k] == bv[k]
        invariant
            av@ == a@,
            bv@ == b@,
            k <= av.len(),
            k <= bv.len(),
            str_lt(a@, b@) == lt_from(a@, b@, k as int),
        decreases av.len() - k,
    {
        k = k + 1;
    }
    if k >= av.len() {
        k < bv.len()
    } else if k >= bv.len() {
        false
    } else {
        av[k] < bv[k]
    }
}

/// Inserts `x` into `s` after every element whose key does not exceed the key of `x`.
pub open spec fn insert_by<T>(x: T, s: Seq<T>, key: spec_fn(T) -> Seq<char>) -> Seq<T>
    decreases s.len(),
{
    if s.len() == 0 {
        seq![x]
    } else if str_lt(key(x), key(s[0])) {
        seq![x] + s
    } else {
        seq![s[0]] + insert_by(x, s.drop_first(), key)
    }
}

/// `s` sorted by key, elements with equal keys kept in their order (a stable sort).
pub open spec fn sort_by<T>(s: Seq<T>, key: spec_fn(T) -> Seq<char>) -> Seq<T>
    decreases s.len(),
{
    if s.len() == 0 {
        Seq::empty()
    } else {
        insert_by(s.last(), sort_by(s.drop_last(), key), key)
    }
}

/// The key of a string is the string itself.
pub open spec fn self_key(s: Seq<char>) -> Seq<char> {
    s
}

/// The key of a pair is its first component.
pub open spec fn first_key(p: (Seq<char>, Seq<char>)) -> Seq<char> {
    p.0
}

/// The character sequences of a sequence of strings.
pub open spec fn strs_view(v: Seq<String>) -> Seq<Seq<char>> {
    v.map_values(|s: String| s@)
}

/// The character sequences of a sequence of string pairs.
pub open spec fn pairs_view(v: Seq<(String, String)>) -> Seq<(Seq<char>, Seq<char>)> {
    v.map_values(|p: (String, String)| (p.0@, p.1@))
}

/// Inserting at the first position whose key exceeds the key of `x` is `insert_by`.
pub proof fn lemma_insert_by_at<T>(x: T, s: Seq<T>, key: spec_fn(T) -> Seq<char>, j: int)
    requires
        0 <= j <= s.len(),
        forall|k: int| 0 <= k < j ==> !str_lt(key(x), #[trigger] key(s[k])),
        j < s.len() ==> str_lt(key(x), key(s[j])),
    ensures
        insert_by(x, s, key) == s.subrange(0, j).push(x) + s.subrange(j, s.len() as int),
    decreases s.len(),
{
    if s.len() == 0 {
        assert(s.subrange(0, j).push(x) + s.subrange(j, s.len() as int) =~= seq![x]);
    } else if j == 0 {
        assert(s.subrange(0, j).push(x) + s.subrange(j, s.len() as int) =~= seq![x] + s);
    } else {
        let t = s.drop_first();
        assert forall|k: int| 0 <= k < j - 1 implies !str_lt(key(x), #[trigger] key(t[k])) by {
            assert(t[k] == s[k + 1]);
        }
        assert(!str_lt(key(x), key(s[0])));
        lemma_insert_by_at(x, t, key, j - 1);
        assert(s.subrange(0, j).push(x) + s.subrange(j, s.len() as int) =~= seq![s[0]] + (
        t.subrange(0, j - 1).push(x) + t.subrange(j - 1, t.len() as int)));
    }
}

/// The position at which `x` enters the sorted `v`: after every element not greater than it.
fn insertion_point_strs(v: &Vec<String>, x: &String) -> (j: usize)
    ensures
        j <= v.len(),
        forall|k: int| 0 <= k < j ==> !str_lt(x@, #[trigger] v@[k]@),
        j < v.len() ==> str_lt(x@, v@[j as int]@),
{
    let mut j: usize = 0;
    while j < v.len() && !str_less(x.as_str(), v[j].as_str())
        invariant
            j <= v.len(),
            forall|k: int| 0 <= k < j ==> !str_lt(x@, #[trigger] v@[k]@),
        decreases v.len() - j,
    {
        j = j + 1;
    }
    j
}

/// The strings of `v` in ascending order (what `sort` gives).
pub fn sort_strings(v: &Vec<String>) -> (r: Vec<String>)
    ensures
        strs_view(r@) == sort_by(strs_view(v@), |s: Seq<char>| self_key(s)),
{
    let ghost key = |s: Seq<char>| self_key(s);
    let mut res: Vec<String> = Vec::new();
    let mut i: usize = 0;
    while i < v.len()
        invariant
            i <= v.len(),
            key == (|s: Seq<char>| self_key(s)),
            strs_view(res@) == sort_by(strs_view(v@).subrange(0, i as int), key),
        decreases v.len() - i,
    {
        let x = v[i].clone();
        let j = insertion_point_strs(&res, &x);
        let ghost before = strs_view(res@);
        let ghost pre = strs_view(v@).subrange(0, i + 1);
        assert(pre.drop_last() == strs_view(v@).subrange(0, i as int));
        assert(pre.last() == x@);
        proof {
            assert forall|k: int| 0 <= k < j implies !str_lt(key(x@), #[trigger] key(before[k])) by {
                assert(before[k] == res@[k]@);
            }
            lemma_insert_by_at(x@, before, key, j as int);
        }
        res.insert(j, x);
        assert(strs_view(res@) =~= before.subrange(0, j as int).push(pre.last()) + before.subrange(j as int, before.len() as int));
        i = i + 1;
    }
    assert(strs_view(v@).subrange(0, v.len() as int) == strs_view(v@));
    res
}

/// The position at which `x` enters `v` sorted by first component.
fn insertion_point_pairs(v: &Vec<(String, String)>, x: &(String, String)) -> (j: usize)
    ensures
        j <= v.len(),
        forall|k: int| 0 <= k < j ==> !str_lt(x.0@, #[trigger] v@[k].0@),
        j < v.len() ==> str_lt(x.0@, v@[j as int].0@),
{
    let mut j: usize = 0;
    while j < v.len() && !str_less(x.0.as_str(), v[j].0.as_str())
        invariant
            j <= v.len(),
            forall|k: int| 0 <= k < j ==> !str_lt(x.0@, #[trigger] v@[k].0@),
        decreases v.len() - j,
    {
        j = j + 1;
    }
    j
}

/// The pairs of `v` in ascending order of their first component, pairs with equal first
/// components kept in their order (what a stable `sort_by` on the first component gives).
pub fn sort_pairs_by_first(v: &Vec<(String, String)>) -> (r: Vec<(String, String)>)
    ensures
        pairs_view(r@) == sort_by(pairs_view(v@), |p: (Seq<char>, Seq<char>)| first_key(p)),
{
    let ghost key = |p: (Seq<char>, Seq<char>)| first_key(p);
    let mut res: Vec<(String, String)> = Vec::new();
    let mut i: usize = 0;
    while i < v.len()
        invariant
            i <= v.len(),
            key == (|p: (Seq<char>, Seq<char>)| first_key(p)),
            pairs_view(res@) == sort_by(pairs_view(v@).subrange(0, i as int), key),
        decreases v.len() - i,
    {
        let x = (v[i].0.clone(), v[i].1.clone());
        let j = insertion_point_pairs(&res, &x);
        let ghost before = pairs_view(res@);
        let ghost pre = pairs_view(v@).subrange(0, i + 1);
        assert(pre.drop_last() == pairs_view(v@).subrange(0, i as int));
        assert(pre.last() == (x.0@, x.1@));
        proof {
            assert forall|k: int| 0 <= k < j implies !str_lt(key((x.0@, x.1@)), #[trigger] key(before[k])) by {
                assert(before[k] == (res@[k].0@, res@[k].1@));
            }
            lemma_insert_by_at((x.0@, x.1@), before, key, j as int);
        }
        res.insert(j, x);
        assert(pairs_view(res@) =~= before.subrange(0, j as int).push(pre.last()) + before.subrange(j as int, before.len() as int));
        i = i + 1;
    }
    assert(pairs_view(v@).subrange(0, v.len() as int) == pairs_view(v@));
    res
}

/// No string sorts strictly before itself.
pub proof fn lemma_lt_irreflexive(a: Seq<char>, k: int)
    ensures
        !lt_from(a, a, k),
    decreases a.len() - k,
{
    if 0 <= k < a.len() {
        lemma_lt_irreflexive(a, k + 1);
    }
}

/// The order of strings is transitive.
pub proof fn lemma_lt_transitive(a: Seq<char>, b: Seq<char>, c: Seq<char>, k: int)
    requires
        lt_from(a, b, k),
        lt_from(b, c, k),
    ensures
        lt_from(a, c, k),
    decreases a.len() - k,
{
    if 0 <= k < a.len() && k < b.len() && k < c.len() && a[k] == b[k] && b[k] == c[k] {
        lemma_lt_transitive(a, b, c, k + 1);
    }
}

/// Of two different strings, one sorts before the other.
pub proof fn lemma_lt_total(a: Seq<char>, b: Seq<char>, k: int)
    requires
        0 <= k <= a.len(),
        k <= b.len(),
    ensures
        lt_from(a, b, k) || lt_from(b, a, k) || a.subrange(k, a.len() as int) == b.subrange(k, b.len() as int),
    decreases a.len() - k,
{
    if k < a.len() && k < b.len() && a[k] == b[k] {
        lemma_lt_total(a, b, k + 1);
        if a.subrange(k + 1, a.len() as int) == b.subrange(k + 1, b.len() as int) {
            assert(a.subrange(k, a.len() as int) =~= seq![a[k]] + a.subrange(k + 1, a.len() as int));
            assert(b.subrange(k, b.len() as int) =~= seq![b[k]] + b.subrange(k + 1, b.len() as int));
        }
    } else if k == a.len() && k == b.len() {
        assert(a.subrange(k, a.len() as int) =~= b.subrange(k, b.len() as int));
    } else if k < a.len() && k < b.len() {
        assert(a[k] != b[k]);
        assert((a[k] as int) != (b[k] as int));
    }
}

/// Different strings are ordered one way or the other.
pub proof fn lemma_str_lt_total(a: Seq<char>, b: Seq<char>)
    requires
        a != b,
    ensures
        str_lt(a, b) || str_lt(b, a),
{
    lemma_lt_total(a, b, 0);
    assert(a.subrange(0, a.len() as int) == a);
    assert(b.subrange(0, b.len() as int) == b);
}

/// No two strings each sort before the other.
pub proof fn lemma_str_lt_asymmetric(a: Seq<char>, b: Seq<char>)
    ensures
        !(str_lt(a, b) && str_lt(b, a)),
{
    if str_lt(a, b) && str_lt(b, a) {
        lemma_lt_transitive(a, b, a, 0);
        lemma_lt_irreflexive(a, 0);
    }
}

/// The keys of `s` never decrease.
pub open spec fn sorted_by_key<T>(s: Seq<T>, key: spec_fn(T) -> Seq<char>) -> bool {
    forall|i: int, j: int| 0 <= i < j < s.len() ==> !str_lt(key(#[trigger] s[j]), key(#[trigger] s[i]))
}

/// No two elements of `s` have the same key.
pub open spec fn keys_distinct<T>(s: Seq<T>, key: spec_fn(T) -> Seq<char>) -> bool {
    forall|i: int, j: int| 0 <= i < s.len() && 0 <= j < s.len() && i != j ==> key(#[trigger] s[i]) != key(#[trigger] s[j])
}

/// Inserting keeps the elements, adds `x`, and keeps a sorted sequence sorted.
pub proof fn lemma_insert_by_props<T>(x: T, s: Seq<T>, key: spec_fn(T) -> Seq<char>)
    ensures
        insert_by(x, s, key).len() == s.len() + 1,
        forall|y: T| #[trigger] insert_by(x, s, key).contains(y) <==> (y == x || s.contains(y)),
        sorted_by_key(s, key) ==> sorted_by_key(insert_by(x, s, key), key),
        keys_distinct(s, key) && (forall|i: int| 0 <= i < s.len() ==> key(#[trigger] s[i]) != key(x))
            ==> keys_distinct(insert_by(x, s, key), key),
    decreases s.len(),
{
    let r = insert_by(x, s, key);
    if s.len() == 0 {
        assert(r == seq![x]);
        assert forall|y: T| #[trigger] r.contains(y) <==> (y == x || s.contains(y)) by {
            if r.contains(y) {
                assert(r[0] == x);
            }
            if y == x {
                assert(r[0] == y);
            }
        }
    } else if str_lt(key(x), key(s[0])) {
        assert(r == seq![x] + s);
        assert forall|y: T| #[trigger] r.contains(y) <==> (y == x || s.contains(y)) by {
            if r.contains(y) {
                let k = choose|k: int| 0 <= k < r.len() && r[k] == y;
                if k > 0 {
                    assert(s[k - 1] == y);
                }
            }
            if y == x {
                assert(r[0] == y);
            }
            if s.contains(y) {
                let k = choose|k: int| 0 <= k < s.len() && s[k] == y;
                assert(r[k + 1] == y);
            }
        }
        if sorted_by_key(s, key) {
            assert forall|i: int, j: int| 0 <= i < j < r.len() implies !str_lt(key(#[trigger] r[j]), key(#[trigger] r[i])) by {
                if i == 0 {
                    assert(r[j] == s[j - 1]);
                    if j - 1 > 0 {
                        assert(!str_lt(key(s[j - 1]), key(s[0])));
                    } else {
                        lemma_str_lt_asymmetric(key(x), key(s[0]));
                    }
                    if str_lt(key(s[j - 1]), key(x)) {
                        lemma_lt_transitive(key(s[j - 1]), key(x), key(s[0]), 0);
                    }
                } else {
                    assert(r[i] == s[i - 1]);
                    assert(r[j] == s[j - 1]);
                }
            }
        }
        if keys_distinct(s, key) && (forall|i: int| 0 <= i < s.len() ==> key(#[trigger] s[i]) != key(x)) {
            assert forall|i: int, j: int| 0 <= i < r.len() && 0 <= j < r.len() && i != j implies key(#[trigger] r[i]) != key(#[trigger] r[j]) by {
                if i > 0 {
                    assert(r[i] == s[i - 1]);
                }
                if j > 0 {
                    assert(r[j] == s[j - 1]);
                }
            }
        }
    } else {
        let t = s.drop_first();
        lemma_insert_by_props(x, t, key);
        let rt = insert_by(x, t, key);
        assert(r == seq![s[0]] + rt);
        assert forall|y: T| #[trigger] r.contains(y) <==> (y == x || s.contains(y)) by {
            if r.contains(y) {
                let k = choose|k: int| 0 <= k < r.len() && r[k] == y;
                if k > 0 {
                    assert(rt[k - 1] == y);
                    assert(rt.contains(y));
                    if t.contains(y) {
                        let k2 = choose|k2: int| 0 <= k2 < t.len() && t[k2] == y;
                        assert(s[k2 + 1] == y);
                    }
                } else {
                    assert(s[0] == y);
                }
            }
            if y == x {
                assert(rt.contains(y));
                let k = choose|k: int| 0 <= k < rt.len() && rt[k] == y;
                assert(r[k + 1] == y);
            }
            if s.contains(y) {
                let k = choose|k: int| 0 <= k < s.len() && s[k] == y;
                if k == 0 {
                    assert(r[0] == y);
                } else {
                    assert(t[k - 1] == y);
                    assert(rt.contains(y));
                    let k2 = choose|k2: int| 0 <= k2 < rt.len() && rt[k2] == y;
                    assert(r[k2 + 1] == y);
                }
            }
        }
        if sorted_by_key(s, key) {
            assert(sorted_by_key(t, key)) by {
                assert forall|i: int, j: int| 0 <= i < j < t.len() implies !str_lt(key(#[trigger] t[j]), key(#[trigger] t[i])) by {
                    assert(t[i] == s[i + 1]);
                    assert(t[j] == s[j + 1]);
                }
            }
            assert forall|i: int, j: int| 0 <= i < j < r.len() implies !str_lt(key(#[trigger] r[j]), key(#[trigger] r[i])) by {
                if i == 0 {
                    assert(r[j] == rt[j - 1]);
                    assert(rt.contains(r[j]));
                    if r[j] != x {
                        assert(t.contains(r[j]));
                        let k = choose|k: int| 0 <= k < t.len() && t[k] == r[j];
                        assert(s[k + 1] == r[j]);
                    }
                } else {
                    assert(r[i] == rt[i - 1]);
                    assert(r[j] == rt[j - 1]);
                }
            }
        }
        if keys_distinct(s, key) && (forall|i: int| 0 <= i < s.len() ==> key(#[trigger] s[i]) != key(x)) {
            assert(keys_distinct(t, key)) by {
                assert forall|i: int, j: int| 0 <= i < t.len() && 0 <= j < t.len() && i != j implies key(#[trigger] t[i]) != key(#[trigger] t[j]) by {
                    assert(t[i] == s[i + 1]);
                    assert(t[j] == s[j + 1]);
                }
            }
            assert forall|i: int| 0 <= i < t.len() implies key(#[trigger] t[i]) != key(x) by {
                assert(t[i] == s[i + 1]);
            }
            assert forall|i: int, j: int| 0 <= i < r.len() && 0 <= j < r.len() && i != j implies key(#[trigger] r[i]) != key(#[trigger] r[j]) by {
                if i > 0 && j > 0 {
                    assert(r[i] == rt[i - 1]);
                    assert(r[j] == rt[j - 1]);
                } else {
                    let other = if i == 0 { j } else { i };
                    assert(r[other] == rt[other - 1]);
                    assert(rt.contains(r[other]));
                    if r[other] == x {
                        assert(key(s[0]) != key(x));
                    } else {
                        assert(t.contains(r[other]));
                        let k = choose|k: int| 0 <= k < t.len() && t[k] == r[other];
                        assert(s[k + 1] == r[other]);
                        assert(key(s[0]) != key(s[k + 1]));
                    }
                }
            }
        }
    }
}

/// Sorting keeps the elements, gives a sorted sequence, and keeps distinct keys distinct.
pub proof fn lemma_sort_by_props<T>(s: Seq<T>, key: spec_fn(T) -> Seq<char>)
    ensures
        sort_by(s, key).len() == s.len(),
        forall|y: T| #[trigger] sort_by(s, key).contains(y) <==> s.contains(y),
        sorted_by_key(sort_by(s, key), key),
        keys_distinct(s, key) ==> keys_distinct(sort_by(s, key), key),
    decreases s.len(),
{
    if s.len() > 0 {
        let t = s.drop_last();
        lemma_sort_by_props(t, key);
        let st = sort_by(t, key);
        lemma_insert_by_props(s.last(), st, key);
        assert forall|y: T| #[trigger] sort_by(s, key).contains(y) <==> s.contains(y) by {
            if s.contains(y) && y != s.last() {
                let k = choose|k: int| 0 <= k < s.len() && s[k] == y;
                assert(t[k] == y);
                assert(t.contains(y));
            }
            if st.contains(y) {
                assert(t.contains(y));
                let k = choose|k: int| 0 <= k < t.len() && t[k] == y;
                assert(s[k] == y);
            }
            if y == s.last() {
                assert(s[s.len() - 1] == y);
            }
        }
        if keys_distinct(s, key) {
            assert(keys_distinct(t, key)) by {
                assert forall|i: int, j: int| 0 <= i < t.len() && 0 <= j < t.len() && i != j implies key(#[trigger] t[i]) != key(#[trigger] t[j]) by {
                    assert(t[i] == s[i]);
                    assert(t[j] == s[j]);
                }
            }
            assert forall|i: int| 0 <= i < st.len() implies key(#[trigger] st[i]) != key(s.last()) by {
                assert(st.contains(st[i]));
                assert(t.contains(st[i]));
                let k = choose|k: int| 0 <= k < t.len() && t[k] == st[i];
                assert(s[k] == st[i]);
                assert(key(s[k]) != key(s[s.len() - 1]));
            }
        }
    }
}

/// Two sequences sorted by distinct keys that hold the same elements are the same.
pub proof fn lemma_sorted_unique<T>(p: Seq<T>, q: Seq<T>, key: spec_fn(T) -> Seq<char>)
    requires
        sorted_by_key(p, key),
        sorted_by_key(q, key),
        keys_distinct(p, key),
        keys_distinct(q, key),
        forall|y: T| p.contains(y) <==> q.contains(y),
    ensures
        p == q,
    decreases p.len(),
{
    if p.len() == 0 {
        if q.len() > 0 {
            assert(q.contains(q[0]));
        }
        assert(p =~= q);
    } else {
        assert(p.contains(p[0]));
        assert(q.len() > 0);
        assert(q.contains(q[0]));
        let j = choose|j: int| 0 <= j < q.len() && q[j] == p[0];
        let i = choose|i: int| 0 <= i < p.len() && p[i] == q[0];
        if j > 0 {
            assert(!str_lt(key(q[j]), key(q[0])));
            assert(key(q[j]) != key(q[0]));
            lemma_str_lt_total(key(q[j]), key(q[0]));
            if i > 0 {
                assert(!str_lt(key(p[i]), key(p[0])));
            } else {
                assert(q[0] == q[j]);
            }
        }
        assert(q[0] == p[0]);
        let p2 = p.drop_first();
        let q2 = q.drop_first();
        assert forall|y: T| p2.contains(y) <==> q2.contains(y) by {
            if p2.contains(y) {
                let k = choose|k: int| 0 <= k < p2.len() && p2[k] == y;
                assert(p[k + 1] == y);
                assert(p.contains(y));
                let m = choose|m: int| 0 <= m < q.len() && q[m] == y;
                if m == 0 {
                    assert(key(p[k + 1]) != key(p[0]));
                }
                assert(q2[m - 1] == y);
            }
            if q2.contains(y) {
                let k = choose|k: int| 0 <= k < q2.len() && q2[k] == y;
                assert(q[k + 1] == y);
                assert(q.contains(y));
                let m = choose|m: int| 0 <= m < p.len() && p[m] == y;
                if m == 0 {
                    assert(key(q[k + 1]) != key(q[0]));
                }
                assert(p2[m - 1] == y);
            }
        }
        assert(sorted_by_key(p2, key)) by {
            assert forall|a: int, b: int| 0 <= a < b < p2.len() implies !str_lt(key(#[trigger] p2[b]), key(#[trigger] p2[a])) by {
                assert(p2[a] == p[a + 1]);
                assert(p2[b] == p[b + 1]);
            }
        }
        assert(sorted_by_key(q2, key)) by {
            assert forall|a: int, b: int| 0 <= a < b < q2.len() implies !str_lt(key(#[trigger] q2[b]), key(#[trigger] q2[a])) by {
                assert(q2[a] == q[a + 1]);
                assert(q2[b] == q[b + 1]);
            }
        }
        assert(keys_distinct(p2, key)) by {
            assert forall|a: int, b: int| 0 <= a < p2.len() && 0 <= b < p2.len() && a != b implies key(#[trigger] p2[a]) != key(#[trigger] p2[b]) by {
                assert(p2[a] == p[a + 1]);
                assert(p2[b] == p[b + 1]);
            }
        }
        assert(keys_distinct(q2, key)) by {
            assert forall|a: int, b: int| 0 <= a < q2.len() && 0 <= b < q2.len() && a != b implies key(#[trigger] q2[a]) != key(#[trigger] q2[b]) by {
                assert(q2[a] == q[a + 1]);
                assert(q2[b] == q[b + 1]);
            }
        }
        lemma_sorted_unique(p2, q2, key);
        assert(p =~= seq![p[0]] + p2);
        assert(q =~= seq![q[0]] + q2);
    }
}

/// Sorting by distinct keys does not depend on the order of the elements: two sequences
/// with distinct keys that hold the same elements sort to the same sequence.
pub proof fn lemma_sort_by_order_independent<T>(s: Seq<T>, t: Seq<T>, key: spec_fn(T) -> Seq<char>)
    requires
        keys_distinct(s, key),
        keys_distinct(t, key),
        forall|y: T| s.contains(y) <==> t.contains(y),
    ensures
        sort_by(s, key) == sort_by(t, key),
{
    lemma_sort_by_props(s, key);
    lemma_sort_by_props(t, key);
    let ss = sort_by(s, key);
    let st = sort_by(t, key);
    assert forall|y: T| ss.contains(y) <==> st.contains(y) by {
        assert(ss.contains(y) <==> s.contains(y));
        assert(st.contains(y) <==> t.contains(y));
    }
    lemma_sorted_unique(ss, st, key);
}

} // verus!
