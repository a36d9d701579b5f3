//! Which packages an application uses: `main`, the packages it names, the
//! packages those name, and so on, in the order they are first named.

use vstd::prelude::*;
use crate::build::package::AppPackage;
use crate::text::{strs, contains_string};

verus! {

/// Every package name that a package lists, package after package.
pub open spec fn listed(pkgs: Seq<AppPackage>) -> Seq<Seq<char>>
    decreases pkgs.len(),
{
    if pkgs.len() == 0 {
        Seq::empty()
    } else {
        listed(pkgs.drop_last()) + strs(pkgs.last().packages@)
    }
}

/// `order` with each name of `names` that it does not hold yet appended,
/// in turn.
pub open spec fn add_new(order: Seq<Seq<char>>, names: Seq<Seq<char>>) -> Seq<Seq<char>>
    decreases names.len(),
{
    if names.len() == 0 {
        order
    } else {
        let o = add_new(order, names.drop_last());
        if o.contains(names.last()) {
            o
        } else {
            o.push(names.last())
        }
    }
}

/// Visiting the name `n`: for each package called `n`, in turn, the names
/// it lists that are not reached yet are appended.
pub open spec fn visit(pkgs: Seq<AppPackage>, order: Seq<Seq<char>>, n: Seq<char>) -> Seq<Seq<char>>
    decreases pkgs.len(),
{
    if pkgs.len() == 0 {
        order
    } else {
        let o = visit(pkgs.drop_last(), order, n);
        if pkgs.last().name@ == n {
            add_new(o, strs(pkgs.last().packages@))
        } else {
            o
        }
    }
}

/// How many entries of `c` `order` does not hold.
pub open spec fn missing(c: Seq<Seq<char>>, order: Seq<Seq<char>>) -> nat
    decreases c.len(),
{
    if c.len() == 0 {
        0
    } else {
        missing(c.drop_last(), order) + if order.contains(c.last()) { 0nat } else { 1nat }
    }
}

/// `b` extends `a` by names of `names` that `a` does not hold.
pub open spec fn extends_with(a: Seq<Seq<char>>, b: Seq<Seq<char>>, names: Seq<Seq<char>>) -> bool {
    &&& a.len() <= b.len()
    &&& b.subrange(0, a.len() as int) == a
    &&& forall|k: int| a.len() <= k < b.len() ==> names.contains(#[trigger] b[k]) && !a.contains(b[k])
}

pub proof fn lemma_add_new(order: Seq<Seq<char>>, names: Seq<Seq<char>>)
    ensures
        extends_with(order, add_new(order, names), names),
    decreases names.len(),
{
    if names.len() > 0 {
        lemma_add_new(order, names.drop_last());
        let o = add_new(order, names.drop_last());
        let b = add_new(order, names);
        assert forall|k: int| order.len() <= k < b.len() implies names.contains(#[trigger] b[k]) && !order.contains(b[k]) by {
            if k < o.len() {
                assert(b[k] == o[k]);
                assert(names.drop_last().contains(o[k]));
                let j = choose|j: int| 0 <= j < names.drop_last().len() && names.drop_last()[j] == o[k];
                assert(names[j] == o[k]);
            } else {
                assert(b[k] == names.last());
                assert(names[names.len() - 1] == b[k]);
                if order.contains(b[k]) {
                    let j = choose|j: int| 0 <= j < order.len() && order[j] == b[k];
                    assert(o[j] == order[j]);
                }
            }
        }
        assert(b.subrange(0, order.len() as int) =~= order) by {
            assert(o.subrange(0, order.len() as int) == order);
            if b != o {
                assert forall|k: int| 0 <= k < order.len() implies b[k] == o[k] by {}
            }
        }
    } else {
        assert(order.subrange(0, order.len() as int) =~= order);
    }
}

pub proof fn lemma_visit(pkgs: Seq<AppPackage>, order: Seq<Seq<char>>, n: Seq<char>)
    ensures
        extends_with(order, visit(pkgs, order, n), listed(pkgs)),
    decreases pkgs.len(),
{
    if pkgs.len() > 0 {
        let init = pkgs.drop_last();
        lemma_visit(init, order, n);
        let o = visit(init, order, n);
        let b = visit(pkgs, order, n);
        let names = strs(pkgs.last().packages@);
        assert(listed(pkgs) == listed(init) + names);
        if pkgs.last().name@ == n {
            lemma_add_new(o, names);
            assert forall|k: int| order.len() <= k < b.len() implies listed(pkgs).contains(#[trigger] b[k]) && !order.contains(b[k]) by {
                if k < o.len() {
                    assert(b.subrange(0, o.len() as int)[k] == b[k]);
                    assert(b[k] == o[k]);
                    let j = choose|j: int| 0 <= j < listed(init).len() && listed(init)[j] == o[k];
                    assert(listed(pkgs)[j] == o[k]);
                } else {
                    assert(names.contains(b[k]));
                    let j = choose|j: int| 0 <= j < names.len() && names[j] == b[k];
                    assert(listed(pkgs)[listed(init).len() + j] == b[k]);
                    if order.contains(b[k]) {
                        let m = choose|m: int| 0 <= m < order.len() && order[m] == b[k];
                        assert(o[m] == order[m]);
                    }
                }
            }
            assert(b.subrange(0, order.len() as int) =~= order) by {
                assert forall|k: int| 0 <= k < order.len() implies b[k] == order[k] by {
                    assert(b.subrange(0, o.len() as int)[k] == b[k]);
                    assert(o.subrange(0, order.len() as int)[k] == o[k]);
                }
            }
        } else {
            assert forall|k: int| order.len() <= k < b.len() implies listed(pkgs).contains(#[trigger] b[k]) && !order.contains(b[k]) by {
                let j = choose|j: int| 0 <= j < listed(init).len() && listed(init)[j] == b[k];
                assert(listed(pkgs)[j] == b[k]);
            }
        }
    } else {
        assert(order.subrange(0, order.len() as int) =~= order);
    }
}

/// Reaching more names leaves no more of `c` unreached, and fewer where one
/// of them is in `c`.
pub proof fn lemma_missing(c: Seq<Seq<char>>, a: Seq<Seq<char>>, b: Seq<Seq<char>>)
    requires
        a.len() <= b.len(),
        b.subrange(0, a.len() as int) == a,
    ensures
        missing(c, b) <= missing(c, a),
        (exists|k: int| a.len() <= k < b.len() && c.contains(#[trigger] b[k]) && !a.contains(b[k]))
            ==> missing(c, b) < missing(c, a),
    decreases c.len(),
{
    if c.len() > 0 {
        lemma_missing(c.drop_last(), a, b);
        if a.contains(c.last()) {
            let j = choose|j: int| 0 <= j < a.len() && a[j] == c.last();
            assert(b.subrange(0, a.len() as int)[j] == b[j]);
        }
        if exists|k: int| a.len() <= k < b.len() && c.contains(#[trigger] b[k]) && !a.contains(b[k]) {
            let k = choose|k: int| a.len() <= k < b.len() && c.contains(#[trigger] b[k]) && !a.contains(b[k]);
            if b[k] == c.last() {
                assert(b.contains(c.last()));
            } else {
                let j = choose|j: int| 0 <= j < c.len() && c[j] == b[k];
                assert(c.drop_last()[j] == b[k]);
                assert(c.drop_last().contains(b[k]));
            }
        }
    }
}

/// The walk from position `i` of `order`: each name in turn is visited,
/// until every name reached has been.
pub open spec fn walk(pkgs: Seq<AppPackage>, order: Seq<Seq<char>>, i: int) -> Seq<Seq<char>>
    decreases missing(listed(pkgs), order), order.len() - i,
    when 0 <= i
{
    if i >= order.len() {
        order
    } else {
        let next = visit(pkgs, order, order[i]);
        proof {
            lemma_visit(pkgs, order, order[i]);
            lemma_missing(listed(pkgs), order, next);
            if next.len() > order.len() {
                let k = order.len() as int;
                assert(listed(pkgs).contains(next[k]) && !order.contains(next[k]));
            }
        }
        walk(pkgs, next, i + 1)
    }
}

/// The packages the application uses, by name: `main` first, then each
/// name that a package of a name already reached lists, in the order the
/// names are first met.
pub open spec fn package_order_spec(pkgs: Seq<AppPackage>) -> Seq<Seq<char>> {
    walk(pkgs, seq!["main"@], 0)
}

/// `add_new` holds every name it was given, and keeps names distinct.
proof fn lemma_add_new_holds(order: Seq<Seq<char>>, names: Seq<Seq<char>>)
    ensures
        forall|j: int| 0 <= j < names.len() ==> add_new(order, names).contains(#[trigger] names[j]),
        forall|x: Seq<char>| order.contains(x) ==> add_new(order, names).contains(x),
        order.no_duplicates() ==> add_new(order, names).no_duplicates(),
    decreases names.len(),
{
    if names.len() > 0 {
        let init = names.drop_last();
        lemma_add_new_holds(order, init);
        let o = add_new(order, init);
        let b = add_new(order, names);
        assert forall|j: int| 0 <= j < names.len() implies b.contains(#[trigger] names[j]) by {
            if j < init.len() {
                assert(init[j] == names[j]);
                assert(o.contains(names[j]));
                if b != o {
                    let m = choose|m: int| 0 <= m < o.len() && o[m] == names[j];
                    assert(b[m] == o[m]);
                }
            } else if b != o {
                assert(b[o.len() as int] == names[j]);
            }
        }
        assert forall|x: Seq<char>| order.contains(x) implies b.contains(x) by {
            assert(o.contains(x));
            if b != o {
                let m = choose|m: int| 0 <= m < o.len() && o[m] == x;
                assert(b[m] == o[m]);
            }
        }
    }
}

/// Visiting `n` reaches every name that a package called `n` lists, keeps
/// what was reached, and keeps names distinct.
proof fn lemma_visit_holds(pkgs: Seq<AppPackage>, order: Seq<Seq<char>>, n: Seq<char>)
    ensures
        forall|p: int, j: int| 0 <= p < pkgs.len() && pkgs[p].name@ == n && 0 <= j < pkgs[p].packages@.len()
            ==> visit(pkgs, order, n).contains(#[trigger] pkgs[p].packages@[j]@),
        forall|x: Seq<char>| order.contains(x) ==> visit(pkgs, order, n).contains(x),
        order.no_duplicates() ==> visit(pkgs, order, n).no_duplicates(),
    decreases pkgs.len(),
{
    if pkgs.len() > 0 {
        let init = pkgs.drop_last();
        lemma_visit_holds(init, order, n);
        let o = visit(init, order, n);
        let names = strs(pkgs.last().packages@);
        if pkgs.last().name@ == n {
            lemma_add_new_holds(o, names);
            assert forall|p: int, j: int| 0 <= p < pkgs.len() && pkgs[p].name@ == n && 0 <= j < pkgs[p].packages@.len()
                implies visit(pkgs, order, n).contains(#[trigger] pkgs[p].packages@[j]@) by {
                if p < init.len() {
                    assert(init[p] == pkgs[p]);
                    assert(o.contains(pkgs[p].packages@[j]@));
                } else {
                    assert(names[j] == pkgs[p].packages@[j]@);
                }
            }
        } else {
            assert forall|p: int, j: int| 0 <= p < pkgs.len() && pkgs[p].name@ == n && 0 <= j < pkgs[p].packages@.len()
                implies visit(pkgs, order, n).contains(#[trigger] pkgs[p].packages@[j]@) by {
                assert(p < init.len());
                assert(init[p] == pkgs[p]);
            }
        }
    }
}

/// Every name listed by a package called like one of the first `i` names
/// of `order` is in `order`.
pub open spec fn closed_upto(pkgs: Seq<AppPackage>, order: Seq<Seq<char>>, i: int) -> bool {
    forall|m: int, p: int, j: int|
        #![trigger order[m], pkgs[p].packages@[j]]
        0 <= m < i && 0 <= p < pkgs.len() && pkgs[p].name@ == order[m]
        && 0 <= j < pkgs[p].packages@.len() ==> order.contains(pkgs[p].packages@[j]@)
}

proof fn lemma_walk(pkgs: Seq<AppPackage>, order: Seq<Seq<char>>, i: int)
    requires
        0 <= i <= order.len(),
        order.no_duplicates(),
        closed_upto(pkgs, order, i),
    ensures
        walk(pkgs, order, i).no_duplicates(),
        order.len() <= walk(pkgs, order, i).len(),
        walk(pkgs, order, i).subrange(0, order.len() as int) == order,
        closed_upto(pkgs, walk(pkgs, order, i), walk(pkgs, order, i).len() as int),
    decreases missing(listed(pkgs), order), order.len() - i,
{
    if i >= order.len() {
        assert(order.subrange(0, order.len() as int) =~= order);
    } else {
        let next = visit(pkgs, order, order[i]);
        lemma_visit(pkgs, order, order[i]);
        lemma_visit_holds(pkgs, order, order[i]);
        lemma_missing(listed(pkgs), order, next);
        if next.len() > order.len() {
            let k = order.len() as int;
            assert(listed(pkgs).contains(next[k]) && !order.contains(next[k]));
        }
        assert forall|m: int| 0 <= m < i + 1 implies next[m] == order[m] by {
            assert(next.subrange(0, order.len() as int)[m] == next[m]);
        }
        assert(closed_upto(pkgs, next, i + 1)) by {
            assert forall|m: int, p: int, j: int|
                #![trigger next[m], pkgs[p].packages@[j]]
                0 <= m < i + 1 && 0 <= p < pkgs.len() && pkgs[p].name@ == next[m]
                && 0 <= j < pkgs[p].packages@.len() implies next.contains(pkgs[p].packages@[j]@) by {
                if m < i {
                    assert(order.contains(pkgs[p].packages@[j]@));
                }
            }
        }
        lemma_walk(pkgs, next, i + 1);
        let r = walk(pkgs, next, i + 1);
        assert forall|k: int| 0 <= k < order.len() implies r[k] == order[k] by {
            assert(r.subrange(0, next.len() as int)[k] == r[k]);
            assert(next.subrange(0, order.len() as int)[k] == next[k]);
        }
        assert(r.subrange(0, order.len() as int) =~= order);
    }
}

/// The packages the application uses are listed once each, `main` first,
/// and every package that one of them names is among them.
pub proof fn lemma_package_order_closed(pkgs: Seq<AppPackage>)
    ensures
        package_order_spec(pkgs).len() >= 1,
        package_order_spec(pkgs)[0] == "main"@,
        package_order_spec(pkgs).no_duplicates(),
        closed_upto(pkgs, package_order_spec(pkgs), package_order_spec(pkgs).len() as int),
{
    let start = seq!["main"@];
    lemma_walk(pkgs, start, 0);
    let r = walk(pkgs, start, 0);
    assert(r.subrange(0, 1)[0] == r[0]);
}

/// `order` with each name of `names` that it does not hold appended.
fn add_new_exec(order: &mut Vec<String>, names: &Vec<String>)
    ensures
        strs(final(order)@) == add_new(strs(old(order)@), strs(names@)),
{
    let mut j: usize = 0;
    assert(strs(names@).take(0) =~= Seq::<Seq<char>>::empty());
    while j < names.len()
        invariant
            j <= names@.len(),
            strs(order@) == add_new(strs(old(order)@), strs(names@).take(j as int)),
        decreases names@.len() - j,
    {
        proof {
            assert(strs(names@).take(j + 1).drop_last() =~= strs(names@).take(j as int));
            assert(strs(names@).take(j + 1).last() == names@[j as int]@);
        }
        if !contains_string(order, &names[j]) {
            let ghost before = order@;
            order.push(names[j].clone());
            assert(strs(order@) =~= strs(before).push(names@[j as int]@));
        }
        j = j + 1;
    }
    assert(strs(names@).take(j as int) =~= strs(names@));
}

/// The packages the application uses, by name, as `package_order_spec`
/// says: `main` first, then each name listed by a package of a name already
/// reached, in the order the names are first met.
pub fn package_order(app_packages: &Vec<AppPackage>) -> (r: Vec<String>)
    ensures
        strs(r@) == package_order_spec(app_packages@),
{
    let ghost pkgs = app_packages@;
    let mut order: Vec<String> = vec!["main".to_string()];
    assert(strs(order@) =~= seq!["main"@]);
    let mut i: usize = 0;
    while i < order.len()
        invariant
            pkgs == app_packages@,
            i <= order@.len(),
            walk(pkgs, strs(order@), i as int) == package_order_spec(pkgs),
        decreases missing(listed(pkgs), strs(order@)), order@.len() - i,
    {
        let name = order[i].clone();
        let ghost before = strs(order@);
        let ghost next = visit(pkgs, before, before[i as int]);
        let mut k: usize = 0;
        assert(visit(pkgs.take(0), before, name@) == before);
        while k < app_packages.len()
            invariant
                pkgs == app_packages@,
                k <= pkgs.len(),
                i < before.len(),
                name@ == before[i as int],
                strs(order@) == visit(pkgs.take(k as int), before, name@),
            decreases pkgs.len() - k,
        {
            proof {
                assert(pkgs.take(k + 1).drop_last() =~= pkgs.take(k as int));
                assert(pkgs.take(k + 1).last() == pkgs[k as int]);
            }
            if app_packages[k].name == name {
                add_new_exec(&mut order, &app_packages[k].packages);
            }
            k = k + 1;
        }
        proof {
            assert(pkgs.take(k as int) =~= pkgs);
            assert(strs(order@) == next);
            lemma_visit(pkgs, before, before[i as int]);
            lemma_missing(listed(pkgs), before, next);
            if next.len() > before.len() {
                let m = before.len() as int;
                assert(listed(pkgs).contains(next[m]) && !before.contains(next[m]));
            }
        }
        i = i + 1;
    }
    order
}

} // verus!
