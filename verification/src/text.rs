//! Text helpers over the character sequences that strings view as:
//! code-point-lexicographic order, and its executable comparison.

use vstd::prelude::*;
use vstd::seq_lib::{lemma_sorted_unique, group_to_multiset_ensures};
use vstd::relations::{sorted_by, total_ordering};

verus! {

broadcast use group_to_multiset_ensures;

/// `a` and `b` agree on their first `i` characters and first differ at `i`
/// in `a`'s favour: either `a` ends there while `b` goes on, or `a`'s
/// character at `i` has the smaller code point.
pub open spec fn lt_at(a: Seq<char>, b: Seq<char>, i: int) -> bool {
    &&& 0 <= i <= a.len()
    &&& i <= b.len()
    &&& forall|j: int| 0 <= j < i ==> #[trigger] a[j] == b[j]
    &&& ((i == a.len() && i < b.len()) || (i < a.len() && i < b.len() && (a[i] as int) < (b[i] as int)))
}

/// Lexicographic order on character sequences by code point, a proper
/// prefix coming first. For strings this is the order of their UTF-8 bytes.
pub open spec fn seq_lt(a: Seq<char>, b: Seq<char>) -> bool {
    exists|i: int| lt_at(a, b, i)
}

pub proof fn lemma_seq_lt_irreflexive(a: Seq<char>)
    ensures
        !seq_lt(a, a),
{
}

pub proof fn lemma_seq_lt_asymmetric(a: Seq<char>, b: Seq<char>)
    ensures
        !(seq_lt(a, b) && seq_lt(b, a)),
{
    if seq_lt(a, b) && seq_lt(b, a) {
        let i = choose|i: int| lt_at(a, b, i);
        let j = choose|j: int| lt_at(b, a, j);
        if i < j {
            assert(b[i] == a[i]);
        } else if j < i {
            assert(a[j] == b[j]);
        }
    }
}

pub proof fn lemma_seq_lt_transitive(a: Seq<char>, b: Seq<char>, c: Seq<char>)
    requires
        seq_lt(a, b),
        seq_lt(b, c),
    ensures
        seq_lt(a, c),
{
    let i = choose|i: int| lt_at(a, b, i);
    let j = choose|j: int| lt_at(b, c, j);
    if i < j {
        assert forall|k: int| 0 <= k < i implies #[trigger] a[k] == c[k] by {
            assert(a[k] == b[k]);
            assert(b[k] == c[k]);
        }
        if i < a.len() {
            assert(b[i] == c[i]);
        }
        assert(lt_at(a, c, i));
    } else if j < i {
        assert forall|k: int| 0 <= k < j implies #[trigger] a[k] == c[k] by {
            assert(a[k] == b[k]);
            assert(b[k] == c[k]);
        }
        assert(a[j] == b[j]);
        assert(lt_at(a, c, j));
    } else {
        assert forall|k: int| 0 <= k < i implies #[trigger] a[k] == c[k] by {
            assert(a[k] == b[k]);
            assert(b[k] == c[k]);
        }
        assert(lt_at(a, c, i));
    }
}

proof fn lemma_seq_lt_total_from(a: Seq<char>, b: Seq<char>, k: int)
    requires
        0 <= k <= a.len(),
        k <= b.len(),
        forall|j: int| 0 <= j < k ==> #[trigger] a[j] == b[j],
        a != b,
    ensures
        seq_lt(a, b) || seq_lt(b, a),
    decreases a.len() + b.len() - 2 * k,
{
    if k == a.len() && k == b.len() {
        assert(a =~= b);
    } else if k == a.len() {
        assert(lt_at(a, b, k));
    } else if k == b.len() {
        assert(lt_at(b, a, k));
    } else if (a[k] as int) < (b[k] as int) {
        assert(lt_at(a, b, k));
    } else if (b[k] as int) < (a[k] as int) {
        assert(lt_at(b, a, k));
    } else {
        assert(a[k] == b[k]);
        lemma_seq_lt_total_from(a, b, k + 1);
    }
}

pub proof fn lemma_seq_lt_total(a: Seq<char>, b: Seq<char>)
    requires
        a != b,
    ensures
        seq_lt(a, b) || seq_lt(b, a),
{
    lemma_seq_lt_total_from(a, b, 0);
}

/// Whether `a` comes before `b` in code-point-lexicographic order.
pub fn string_lt(a: &String, b: &String) -> (r: bool)
    ensures
        r == seq_lt(a@, b@),
{
    let sa = a.as_str();
    let sb = b.as_str();
    let la = sa.unicode_len();
    let lb = sb.unicode_len();
    let mut i: usize = 0;
    while i < la && i < lb
        invariant
            i <= la,
            i <= lb,
            la == a@.len(),
            lb == b@.len(),
            sa@ == a@,
            sb@ == b@,
            forall|j: int| 0 <= j < i ==> #[trigger] a@[j] == b@[j],
        decreases la - i,
    {
        let ca = sa.get_char(i);
        let cb = sb.get_char(i);
        if (ca as u32) < (cb as u32) {
            assert(lt_at(a@, b@, i as int));
            return true;
        }
        if (cb as u32) < (ca as u32) {
            proof {
                assert forall|k: int| !lt_at(a@, b@, k) by {
                    if lt_at(a@, b@, k) {
                        if k > i {
                            assert(a@[i as int] == b@[i as int]);
                        }
                    }
                }
            }
            return false;
        }
        proof {
            assert((ca as u32) == (cb as u32));
            assert(a@[i as int] == b@[i as int]);
        }
        i = i + 1;
    }
    if la < lb {
        assert(lt_at(a@, b@, i as int));
        true
    } else {
        proof {
            assert forall|k: int| !lt_at(a@, b@, k) by {
                if lt_at(a@, b@, k) {
                    assert(k <= i);
                }
            }
        }
        false
    }
}

/// The character sequences of a list of strings.
pub open spec fn strs(v: Seq<String>) -> Seq<Seq<char>> {
    v.map_values(|s: String| s@)
}

/// Whether `v` holds a string equal to `s`.
pub fn contains_string(v: &Vec<String>, s: &String) -> (r: bool)
    ensures
        r == strs(v@).contains(s@),
{
    let mut i: usize = 0;
    while i < v.len()
        invariant
            i <= v@.len(),
            forall|j: int| 0 <= j < i ==> v@[j]@ != s@,
        decreases v@.len() - i,
    {
        if v[i] == *s {
            assert(strs(v@)[i as int] == s@);
            return true;
        }
        i = i + 1;
    }
    proof {
        if strs(v@).contains(s@) {
            let j = choose|j: int| 0 <= j < strs(v@).len() && strs(v@)[j] == s@;
            assert(v@[j]@ == s@);
        }
    }
    false
}

/// Adds `s` to `v` unless an equal string is there already.
pub fn push_unique(v: &mut Vec<String>, s: String)
    ensures
        strs(old(v)@).no_duplicates() ==> strs(final(v)@).no_duplicates(),
        strs(final(v)@).to_set() == strs(old(v)@).to_set().insert(s@),
        strs(old(v)@).contains(s@) ==> final(v)@ == old(v)@,
        !strs(old(v)@).contains(s@) ==> strs(final(v)@) == strs(old(v)@).push(s@),
{
    if !contains_string(v, &s) {
        let ghost before = strs(v@);
        let ghost sv = s@;
        v.push(s);
        proof {
            assert(strs(v@) =~= before.push(sv));
            assert(strs(v@).to_set() =~= before.to_set().insert(sv)) by {
                assert forall|x: Seq<char>| strs(v@).to_set().contains(x) <==> before.to_set().insert(sv).contains(x) by {
                    if strs(v@).contains(x) && x != sv {
                        let j = choose|j: int| 0 <= j < strs(v@).len() && strs(v@)[j] == x;
                        assert(before[j] == x);
                    }
                    if before.contains(x) {
                        let j = choose|j: int| 0 <= j < before.len() && before[j] == x;
                        assert(strs(v@)[j] == x);
                    }
                    if x == sv {
                        assert(strs(v@)[before.len() as int] == x);
                    }
                }
            }
        }
    } else {
        proof {
            assert(strs(v@).to_set() =~= strs(v@).to_set().insert(s@));
        }
    }
}


/// `a` is not after `b`: equal, or before it in code-point order.
pub open spec fn str_le(a: Seq<char>, b: Seq<char>) -> bool {
    a == b || seq_lt(a, b)
}

pub proof fn lemma_str_le_total()
    ensures
        total_ordering(|a: Seq<char>, b: Seq<char>| str_le(a, b)),
{
    assert forall|a: Seq<char>, b: Seq<char>| #[trigger] str_le(a, b) && #[trigger] str_le(b, a) implies a == b by {
        lemma_seq_lt_asymmetric(a, b);
    }
    assert forall|a: Seq<char>, b: Seq<char>, c: Seq<char>| #[trigger] str_le(a, b) && #[trigger] str_le(b, c) implies str_le(a, c) by {
        if seq_lt(a, b) && seq_lt(b, c) {
            lemma_seq_lt_transitive(a, b, c);
        }
    }
    assert forall|a: Seq<char>, b: Seq<char>| #[trigger] str_le(a, b) || #[trigger] str_le(b, a) by {
        if a != b {
            lemma_seq_lt_total(a, b);
        }
    }
}

/// The strings in order.
pub open spec fn strs_sorted(s: Seq<Seq<char>>) -> bool {
    forall|i: int, j: int| 0 <= i < j < s.len() ==> #[trigger] str_le(s[i], s[j])
}

/// The arrangement of `s` in code-point-lexicographic order, what std's
/// `sort` of a `Vec<String>` gives.
pub open spec fn sorted_strs(s: Seq<Seq<char>>) -> Seq<Seq<char>> {
    choose|t: Seq<Seq<char>>| strs_sorted(t) && t.to_multiset() == s.to_multiset()
}

/// A sorted arrangement of `s` is the one `sorted_strs` names.
pub proof fn lemma_sorted_strs(s: Seq<Seq<char>>, t: Seq<Seq<char>>)
    requires
        strs_sorted(t),
        t.to_multiset() == s.to_multiset(),
    ensures
        sorted_strs(s) == t,
{
    let u = sorted_strs(s);
    assert(strs_sorted(u) && u.to_multiset() == s.to_multiset());
    let leq = |a: Seq<char>, b: Seq<char>| str_le(a, b);
    lemma_str_le_total();
    assert(sorted_by(u, leq));
    assert(sorted_by(t, leq));
    lemma_sorted_unique(u, t, leq);
}

/// Inserts `x` into the sorted `v` after every string not after it.
fn insert_str_sorted(v: &mut Vec<String>, x: String)
    requires
        strs_sorted(strs(old(v)@)),
    ensures
        strs_sorted(strs(final(v)@)),
        strs(final(v)@).to_multiset() == strs(old(v)@).to_multiset().insert(x@),
{
    let mut i: usize = 0;
    while i < v.len() && !string_lt(&x, &v[i])
        invariant
            i <= v@.len(),
            strs_sorted(strs(v@)),
            forall|j: int| 0 <= j < i ==> str_le(#[trigger] v@[j]@, x@),
        decreases v@.len() - i,
    {
        proof {
            if v@[i as int]@ != x@ {
                lemma_seq_lt_total(v@[i as int]@, x@);
            }
        }
        i = i + 1;
    }
    let ghost before = strs(v@);
    let ghost xv = x@;
    v.insert(i, x);
    proof {
        let after = strs(v@);
        assert(after =~= before.insert(i as int, xv));
        assert forall|a: int, b: int| 0 <= a < b < after.len() implies #[trigger] str_le(after[a], after[b]) by {
            if b < i {
                assert(after[a] == before[a]);
                assert(after[b] == before[b]);
            } else if b == i {
                assert(after[a] == before[a]);
                assert(str_le(v@[a]@, xv));
            } else if a < i {
                assert(after[a] == before[a]);
                assert(after[b] == before[b - 1]);
                assert(str_le(before[a], before[b - 1]));
            } else if a == i {
                assert(after[b] == before[b - 1]);
                assert(seq_lt(xv, before[i as int]));
                if i < b - 1 {
                    assert(str_le(before[i as int], before[b - 1]));
                    if seq_lt(before[i as int], before[b - 1]) {
                        lemma_seq_lt_transitive(xv, before[i as int], before[b - 1]);
                    }
                }
            } else {
                assert(after[a] == before[a - 1]);
                assert(after[b] == before[b - 1]);
                assert(str_le(before[a - 1], before[b - 1]));
            }
        }
        vstd::seq_lib::to_multiset_insert(before, i as int, xv);
    }
}

/// A copy of `v` in code-point-lexicographic order.
pub fn sort_strings(v: &Vec<String>) -> (r: Vec<String>)
    ensures
        strs(r@) == sorted_strs(strs(v@)),
        strs_sorted(strs(r@)),
        strs(r@).to_multiset() == strs(v@).to_multiset(),
{
    let mut r: Vec<String> = Vec::new();
    let mut i: usize = 0;
    while i < v.len()
        invariant
            i <= v@.len(),
            strs_sorted(strs(r@)),
            strs(r@).to_multiset() == strs(v@).take(i as int).to_multiset(),
        decreases v@.len() - i,
    {
        insert_str_sorted(&mut r, v[i].clone());
        proof {
            assert(strs(v@).take(i + 1) =~= strs(v@).take(i as int).push(strs(v@)[i as int]));
        }
        i = i + 1;
    }
    proof {
        assert(strs(v@).take(i as int) =~= strs(v@));
        lemma_sorted_strs(strs(v@), strs(r@));
    }
    r
}

} // verus!
