//! The fields of an `add_entity!` in a task's body: `type = value` parts
//! between commas, each type and value being the text of its tokens with
//! spaces taken out, ordered by type.

use vstd::prelude::*;
use crate::build::declarations::{drop_char, drop_char_exec};
use crate::text::{seq_lt, string_lt, strs};

verus! {

/// The types and values read so far, and whether a type is being read (no
/// `=` met since the last `,`).
pub type FieldState = (Seq<Seq<char>>, Seq<Seq<char>>, bool);

/// Reading one token's text: a `,` starts a new field, a `=` turns from
/// the type to the value, other text is added to the type or the value.
pub open spec fn field_step(st: FieldState, t: Seq<char>) -> FieldState {
    if t == ","@ {
        (st.0.push(Seq::empty()), st.1.push(Seq::empty()), true)
    } else if t == "="@ {
        (st.0, st.1, false)
    } else if st.2 {
        (st.0.update(st.0.len() - 1, st.0.last() + t), st.1, true)
    } else {
        (st.0, st.1.update(st.1.len() - 1, st.1.last() + t), false)
    }
}

/// Reading the tokens' texts, each with its spaces taken out, from one
/// empty field on.
pub open spec fn fields_of(ts: Seq<Seq<char>>) -> FieldState
    decreases ts.len(),
{
    if ts.len() == 0 {
        (seq![Seq::<char>::empty()], seq![Seq::<char>::empty()], true)
    } else {
        field_step(fields_of(ts.drop_last()), drop_char(ts.last(), ' '))
    }
}

/// The types and values side by side.
pub open spec fn zip_fields(st: FieldState) -> Seq<(Seq<char>, Seq<char>)> {
    Seq::new(st.0.len(), |i: int| (st.0[i], st.1[i]))
}

/// `x` put into `s` after every field whose type does not come after its
/// own, looking from the end.
pub open spec fn insert_by_type(s: Seq<(Seq<char>, Seq<char>)>, x: (Seq<char>, Seq<char>)) -> Seq<(Seq<char>, Seq<char>)>
    decreases s.len(),
{
    if s.len() == 0 {
        seq![x]
    } else if seq_lt(x.0, s.last().0) {
        insert_by_type(s.drop_last(), x).push(s.last())
    } else {
        s.push(x)
    }
}

/// The fields ordered by type, fields of equal types kept in order.
pub open spec fn sort_by_type(s: Seq<(Seq<char>, Seq<char>)>) -> Seq<(Seq<char>, Seq<char>)>
    decreases s.len(),
{
    if s.len() == 0 {
        s
    } else {
        insert_by_type(sort_by_type(s.drop_last()), s.last())
    }
}

/// The fields of the tokens' texts, ordered by type.
pub open spec fn entity_fields_spec(ts: Seq<Seq<char>>) -> Seq<(Seq<char>, Seq<char>)> {
    sort_by_type(zip_fields(fields_of(ts)))
}

/// The views of a list of pairs of strings.
pub open spec fn pairs_view(v: Seq<(String, String)>) -> Seq<(Seq<char>, Seq<char>)> {
    v.map_values(|p: (String, String)| (p.0@, p.1@))
}

/// Inserting before the fields from `i` on, whose types all come after
/// `x`'s, where the field before them does not.
proof fn lemma_insert_at(s: Seq<(Seq<char>, Seq<char>)>, x: (Seq<char>, Seq<char>), i: int)
    requires
        0 <= i <= s.len(),
        forall|j: int| i <= j < s.len() ==> seq_lt(x.0, #[trigger] s[j].0),
        i > 0 ==> !seq_lt(x.0, s[i - 1].0),
    ensures
        insert_by_type(s, x) == s.insert(i, x),
    decreases s.len(),
{
    if s.len() == 0 {
        assert(s.insert(i, x) =~= seq![x]);
    } else if i == s.len() {
        assert(s.insert(i, x) =~= s.push(x));
    } else {
        assert(seq_lt(x.0, s.last().0));
        lemma_insert_at(s.drop_last(), x, i);
        assert(s.drop_last().insert(i, x).push(s.last()) =~= s.insert(i, x));
    }
}

/// The fields that the texts of an `add_entity!`'s tokens give: the type
/// and value of each part between commas, spaces taken out, ordered by
/// type, parts of equal types kept in order.
pub fn entity_fields(texts: &Vec<String>) -> (r: Vec<(String, String)>)
    ensures
        pairs_view(r@) == entity_fields_spec(strs(texts@)),
{
    let mut ty: Vec<String> = vec![String::new()];
    let mut va: Vec<String> = vec![String::new()];
    let mut is_type = true;
    let ghost ts = strs(texts@);
    let mut i: usize = 0;
    assert(strs(ty@) =~= fields_of(ts.take(0)).0);
    assert(strs(va@) =~= fields_of(ts.take(0)).1);
    while i < texts.len()
        invariant
            i <= texts@.len(),
            ts == strs(texts@),
            (strs(ty@), strs(va@), is_type) == fields_of(ts.take(i as int)),
            ty@.len() == va@.len(),
            ty@.len() >= 1,
        decreases texts@.len() - i,
    {
        proof {
            assert(ts.take(i + 1).drop_last() =~= ts.take(i as int));
            assert(ts.take(i + 1).last() == texts@[i as int]@);
        }
        let t = drop_char_exec(texts[i].as_str(), ' ');
        let comma = ",".to_string();
        let equals = "=".to_string();
        if t == comma {
            let ghost (t0, v0) = (strs(ty@), strs(va@));
            ty.push(String::new());
            va.push(String::new());
            assert(strs(ty@) =~= t0.push(Seq::empty()));
            assert(strs(va@) =~= v0.push(Seq::empty()));
            is_type = true;
        } else if t == equals {
            is_type = false;
        } else if is_type {
            let ghost t0 = strs(ty@);
            let last = ty.len() - 1;
            let mut s = ty[last].clone();
            s.append(t.as_str());
            ty.set(last, s);
            assert(strs(ty@) =~= t0.update(t0.len() - 1, t0.last() + t@));
        } else {
            let ghost v0 = strs(va@);
            let last = va.len() - 1;
            let mut s = va[last].clone();
            s.append(t.as_str());
            va.set(last, s);
            assert(strs(va@) =~= v0.update(v0.len() - 1, v0.last() + t@));
        }
        i = i + 1;
    }
    assert(ts.take(i as int) =~= ts);
    let ghost z = zip_fields(fields_of(ts));
    let mut out: Vec<(String, String)> = Vec::new();
    let mut k: usize = 0;
    assert(pairs_view(out@) =~= sort_by_type(z.take(0)));
    while k < ty.len()
        invariant
            k <= ty@.len(),
            ty@.len() == va@.len(),
            z == zip_fields((strs(ty@), strs(va@), is_type)),
            pairs_view(out@) == sort_by_type(z.take(k as int)),
        decreases ty@.len() - k,
    {
        let x = (ty[k].clone(), va[k].clone());
        let ghost xv = (x.0@, x.1@);
        let ghost before = pairs_view(out@);
        proof {
            assert(z.take(k + 1).drop_last() =~= z.take(k as int));
            assert(z.take(k + 1).last() == xv);
        }
        let mut j: usize = out.len();
        while j > 0 && string_lt(&x.0, &out[j - 1].0)
            invariant
                j <= out@.len(),
                before == pairs_view(out@),
                xv.0 == x.0@,
                forall|m: int| j <= m < out@.len() ==> seq_lt(xv.0, #[trigger] before[m].0),
            decreases j,
        {
            j = j - 1;
        }
        proof {
            if j > 0 {
                assert(!seq_lt(xv.0, before[j - 1].0));
            }
            lemma_insert_at(before, xv, j as int);
        }
        out.insert(j, x);
        assert(pairs_view(out@) =~= before.insert(j as int, xv));
        k = k + 1;
    }
    assert(z.take(k as int) =~= z);
    out
}

} // verus!
