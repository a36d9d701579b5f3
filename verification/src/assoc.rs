//! Association lists keyed by strings: a `Vec` of `(key, value)` pairs in
//! which each key occurs once, read as a finite map from the key's
//! characters to the value.

use vstd::prelude::*;

verus! {

/// Each key occurs at most once.
pub open spec fn keys_unique<V>(s: Seq<(String, V)>) -> bool {
    forall|i: int, j: int| 0 <= i < s.len() && 0 <= j < s.len() && i != j ==> #[trigger] s[i].0@ != #[trigger] s[j].0@
}

/// Whether some entry has key `k`.
pub open spec fn has_key<V>(s: Seq<(String, V)>, k: Seq<char>) -> bool {
    exists|i: int| 0 <= i < s.len() && #[trigger] s[i].0@ == k
}

/// The map an association list stands for.
pub open spec fn as_map<V>(s: Seq<(String, V)>) -> Map<Seq<char>, V> {
    Map::new(
        |k: Seq<char>| has_key(s, k),
        |k: Seq<char>| s[choose|i: int| 0 <= i < s.len() && #[trigger] s[i].0@ == k].1,
    )
}

/// The entry at `i` is what the map holds for its key.
pub proof fn lemma_entry<V>(s: Seq<(String, V)>, i: int)
    requires
        keys_unique(s),
        0 <= i < s.len(),
    ensures
        as_map(s).contains_key(s[i].0@),
        as_map(s)[s[i].0@] == s[i].1,
{
    let k = s[i].0@;
    assert(has_key(s, k));
    let j = choose|j: int| 0 <= j < s.len() && #[trigger] s[j].0@ == k;
    assert(i == j);
}

/// The map of an empty list is empty.
pub proof fn lemma_empty<V>(s: Seq<(String, V)>)
    requires
        s.len() == 0,
    ensures
        as_map(s) == Map::<Seq<char>, V>::empty(),
{
    assert(as_map(s) =~= Map::<Seq<char>, V>::empty());
}

/// The index of the entry with key `k`, if there is one.
pub fn find_key<V>(v: &Vec<(String, V)>, k: &str) -> (r: Option<usize>)
    ensures
        match r {
            Some(i) => i < v@.len() && v@[i as int].0@ == k@,
            None => !has_key(v@, k@),
        },
{
    let key = k.to_string();
    let mut i: usize = 0;
    while i < v.len()
        invariant
            i <= v@.len(),
            key@ == k@,
            forall|j: int| 0 <= j < i ==> #[trigger] v@[j].0@ != k@,
        decreases v@.len() - i,
    {
        if v[i].0 == key {
            return Some(i);
        }
        i = i + 1;
    }
    None
}

/// What the list holds for key `k`, if anything.
pub fn get_key<'a, V>(v: &'a Vec<(String, V)>, k: &str) -> (r: Option<&'a V>)
    requires
        keys_unique(v@),
    ensures
        match r {
            Some(x) => as_map(v@).contains_key(k@) && *x == as_map(v@)[k@],
            None => !as_map(v@).contains_key(k@),
        },
{
    match find_key(v, k) {
        Some(i) => {
            proof {
                lemma_entry(v@, i as int);
            }
            Some(&v[i].1)
        },
        None => None,
    }
}

/// Sets the value of key `k` to `x`: in place where the key is there, at the
/// end where it is not.
pub fn insert_key<V>(v: &mut Vec<(String, V)>, k: String, x: V)
    requires
        keys_unique(old(v)@),
    ensures
        keys_unique(final(v)@),
        as_map(final(v)@) == as_map(old(v)@).insert(k@, x),
        has_key(old(v)@, k@) ==> final(v)@.len() == old(v)@.len(),
        !has_key(old(v)@, k@) ==> final(v)@ == old(v)@.push((k, x)),
        forall|i: int|
            0 <= i < old(v)@.len() ==> (#[trigger] final(v)@[i]).0@ == old(v)@[i].0@,
{
    let ghost s0 = v@;
    let ghost kv = k@;
    match find_key(v, k.as_str()) {
        Some(i) => {
            let ghost x0 = x;
            v.set(i, (k, x));
            proof {
                let s1 = v@;
                assert forall|a: int, b: int| 0 <= a < s1.len() && 0 <= b < s1.len() && a != b
                    implies #[trigger] s1[a].0@ != #[trigger] s1[b].0@ by {
                    assert(s1[a].0@ == s0[a].0@);
                    assert(s1[b].0@ == s0[b].0@);
                }
                let want = as_map(s0).insert(kv, x0);
                assert forall|key: Seq<char>| as_map(s1).contains_key(key) <==> want.contains_key(key) by {
                    if has_key(s1, key) {
                        let j = choose|j: int| 0 <= j < s1.len() && #[trigger] s1[j].0@ == key;
                        assert(s0[j].0@ == key);
                    }
                    if has_key(s0, key) {
                        let j = choose|j: int| 0 <= j < s0.len() && #[trigger] s0[j].0@ == key;
                        assert(s1[j].0@ == key);
                    }
                    if key == kv {
                        assert(s1[i as int].0@ == key);
                    }
                }
                assert forall|key: Seq<char>| #[trigger] as_map(s1).contains_key(key) implies as_map(s1)[key] == want[key] by {
                    let j = choose|j: int| 0 <= j < s1.len() && #[trigger] s1[j].0@ == key;
                    lemma_entry(s1, j);
                    if j != i {
                        lemma_entry(s0, j);
                    }
                }
                assert(as_map(s1) =~= want);
            }
        },
        None => {
            let ghost x0 = x;
            let ghost kk = k;
            v.push((k, x));
            proof {
                let s1 = v@;
                let n = s0.len() as int;
                assert(s1 =~= s0.push((kk, x0)));
                assert forall|a: int, b: int| 0 <= a < s1.len() && 0 <= b < s1.len() && a != b
                    implies #[trigger] s1[a].0@ != #[trigger] s1[b].0@ by {
                    if a < n && b < n {
                        assert(s1[a] == s0[a]);
                        assert(s1[b] == s0[b]);
                    } else if a < n {
                        assert(s1[a] == s0[a]);
                    } else {
                        assert(s1[b] == s0[b]);
                    }
                }
                let want = as_map(s0).insert(kv, x0);
                assert forall|key: Seq<char>| as_map(s1).contains_key(key) <==> want.contains_key(key) by {
                    if has_key(s1, key) && key != kv {
                        let j = choose|j: int| 0 <= j < s1.len() && #[trigger] s1[j].0@ == key;
                        assert(j != n);
                        assert(s0[j].0@ == key);
                    }
                    if has_key(s0, key) {
                        let j = choose|j: int| 0 <= j < s0.len() && #[trigger] s0[j].0@ == key;
                        assert(s1[j].0@ == key);
                    }
                    if key == kv {
                        assert(s1[n].0@ == key);
                    }
                }
                assert forall|key: Seq<char>| #[trigger] as_map(s1).contains_key(key) implies as_map(s1)[key] == want[key] by {
                    let j = choose|j: int| 0 <= j < s1.len() && #[trigger] s1[j].0@ == key;
                    lemma_entry(s1, j);
                    if j < n {
                        assert(s1[j] == s0[j]);
                        lemma_entry(s0, j);
                    }
                }
                assert(as_map(s1) =~= want);
            }
        },
    }
}


/// Taking one more entry of a list with distinct keys adds that entry to the
/// map.
pub proof fn lemma_take_one_more<V>(s: Seq<(String, V)>, j: int)
    requires
        keys_unique(s),
        0 <= j < s.len(),
    ensures
        keys_unique(s.take(j + 1)),
        as_map(s.take(j + 1)) == as_map(s.take(j)).insert(s[j].0@, s[j].1),
{
    let a = s.take(j);
    let b = s.take(j + 1);
    assert(b =~= a.push(s[j]));
    assert forall|x: int, y: int| 0 <= x < b.len() && 0 <= y < b.len() && x != y
        implies #[trigger] b[x].0@ != #[trigger] b[y].0@ by {
        assert(b[x] == s[x]);
        assert(b[y] == s[y]);
    }
    assert(keys_unique(a)) by {
        assert forall|x: int, y: int| 0 <= x < a.len() && 0 <= y < a.len() && x != y
            implies #[trigger] a[x].0@ != #[trigger] a[y].0@ by {
            assert(a[x] == s[x]);
            assert(a[y] == s[y]);
        }
    }
    let want = as_map(a).insert(s[j].0@, s[j].1);
    assert forall|k: Seq<char>| as_map(b).contains_key(k) <==> want.contains_key(k) by {
        if has_key(b, k) && k != s[j].0@ {
            let i = choose|i: int| 0 <= i < b.len() && #[trigger] b[i].0@ == k;
            assert(a[i].0@ == k);
        }
        if has_key(a, k) {
            let i = choose|i: int| 0 <= i < a.len() && #[trigger] a[i].0@ == k;
            assert(b[i].0@ == k);
        }
        if k == s[j].0@ {
            assert(b[j].0@ == k);
        }
    }
    assert forall|k: Seq<char>| #[trigger] as_map(b).contains_key(k) implies as_map(b)[k] == want[k] by {
        let i = choose|i: int| 0 <= i < b.len() && #[trigger] b[i].0@ == k;
        lemma_entry(b, i);
        if i < j {
            assert(b[i] == a[i]);
            lemma_entry(a, i);
        }
    }
    assert(as_map(b) =~= want);
}


/// The map an association list stands for, each value taken by its view.
pub open spec fn view_map<V: View>(s: Seq<(String, V)>) -> Map<Seq<char>, V::V> {
    as_map(s).map_values(|v: V| v@)
}

/// Sets the value of key `k` to `x`, and says so of the viewed map.
pub fn insert_viewed<V: View>(v: &mut Vec<(String, V)>, k: String, x: V)
    requires
        keys_unique(old(v)@),
    ensures
        keys_unique(final(v)@),
        view_map(final(v)@) == view_map(old(v)@).insert(k@, x@),
{
    let ghost xv = x@;
    let ghost kv = k@;
    let ghost m0 = as_map(v@);
    insert_key(v, k, x);
    proof {
        assert(view_map(v@) =~= view_map(old(v)@).insert(kv, xv));
    }
}

/// Taking one more entry of a list with distinct keys adds that entry to the
/// viewed map.
pub proof fn lemma_view_take_one_more<V: View>(s: Seq<(String, V)>, j: int)
    requires
        keys_unique(s),
        0 <= j < s.len(),
    ensures
        keys_unique(s.take(j + 1)),
        view_map(s.take(j + 1)) == view_map(s.take(j)).insert(s[j].0@, s[j].1@),
{
    lemma_take_one_more(s, j);
    assert(view_map(s.take(j + 1)) =~= view_map(s.take(j)).insert(s[j].0@, s[j].1@));
}

} // verus!
