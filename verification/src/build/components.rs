//! Components as the builder finds them in an application's source, and the
//! tree of component maps that mirrors the source's directories.

use vstd::prelude::*;
use crate::assoc::{keys_unique, as_map, has_key, find_key, insert_key, lemma_take_one_more, lemma_entry};
use crate::text::{strs, push_unique};
use crate::build::paths::{last_component, path_last_component, qualified, qualify};

verus! {

/// An item of the source: a component, a trait that components may be
/// used through, or the components that a trait is implemented for.
#[derive(Debug)]
pub enum ComponentType {
    Component(String),
    Trait(String),
    TraitFor(String, Vec<String>),
}

/// What a source item reads as.
pub enum ComponentView {
    Component(Seq<char>),
    Trait(Seq<char>),
    TraitFor(Seq<char>, Seq<Seq<char>>),
}

impl View for ComponentType {
    type V = ComponentView;

    open spec fn view(&self) -> ComponentView {
        match self {
            ComponentType::Component(n) => ComponentView::Component(n@),
            ComponentType::Trait(n) => ComponentView::Trait(n@),
            ComponentType::TraitFor(n, v) => ComponentView::TraitFor(n@, strs(v@)),
        }
    }
}

/// The components of one directory of the source, by the directory's path,
/// with a map for each of its subdirectories.
#[derive(Debug)]
pub struct ComponentMap {
    pub path: String,
    pub sub_maps: Vec<ComponentMap>,
    pub components: Vec<ComponentType>,
}

impl Default for ComponentMap {
    fn default() -> (r: Self)
        ensures
            r.path@ == "./"@,
            r.sub_maps@.len() == 0,
            r.components@.len() == 0,
    {
        ComponentMap { path: "./".to_string(), sub_maps: Vec::new(), components: Vec::new() }
    }
}

/// `m` with the set `s` added to what it holds for `k`.
pub open spec fn merge_in(m: Map<Seq<char>, Set<Seq<char>>>, k: Seq<char>, s: Set<Seq<char>>) -> Map<Seq<char>, Set<Seq<char>>> {
    m.insert(k, if m.contains_key(k) { m[k].union(s) } else { s })
}

/// Each key of either map, with the union of what the two hold for it.
pub open spec fn merge_maps(a: Map<Seq<char>, Set<Seq<char>>>, b: Map<Seq<char>, Set<Seq<char>>>) -> Map<Seq<char>, Set<Seq<char>>> {
    Map::new(
        |k: Seq<char>| a.contains_key(k) || b.contains_key(k),
        |k: Seq<char>| (if a.contains_key(k) { a[k] } else { Set::empty() }).union(
            if b.contains_key(k) { b[k] } else { Set::empty() }),
    )
}

/// The components of each trait that a list of items implements it for.
pub open spec fn own_traits(cs: Seq<ComponentType>) -> Map<Seq<char>, Set<Seq<char>>>
    decreases cs.len(),
{
    if cs.len() == 0 {
        Map::empty()
    } else {
        let m = own_traits(cs.drop_last());
        match cs.last() {
            ComponentType::TraitFor(a, b) => merge_in(m, a@, strs(b@).to_set()),
            _ => m,
        }
    }
}

/// The name each component and trait of a list of items is reached by from
/// the module `module`, a later item taking the place of an earlier one of
/// the same name.
pub open spec fn own_names(cs: Seq<ComponentType>, module: Seq<char>) -> Map<Seq<char>, Seq<char>>
    decreases cs.len(),
{
    if cs.len() == 0 {
        Map::empty()
    } else {
        let m = own_names(cs.drop_last(), module);
        match cs.last() {
            ComponentType::Component(i) => m.insert(i@, qualified(module, i@)),
            ComponentType::Trait(i) => m.insert(i@, qualified(module, i@)),
            ComponentType::TraitFor(_, _) => m,
        }
    }
}

/// What a list of `(trait, components)` pairs stands for: each trait with
/// its set of components.
pub open spec fn sets_view(s: Seq<(String, Vec<String>)>) -> Map<Seq<char>, Set<Seq<char>>> {
    as_map(s).map_values(|v: Vec<String>| strs(v@).to_set())
}

/// No list that the map holds has a string twice.
pub open spec fn lists_distinct(s: Seq<(String, Vec<String>)>) -> bool {
    forall|k: Seq<char>| #[trigger] as_map(s).contains_key(k) ==> strs(as_map(s)[k]@).no_duplicates()
}

/// What a list of `(name, path)` pairs stands for.
pub open spec fn names_view(s: Seq<(String, String)>) -> Map<Seq<char>, Seq<char>> {
    as_map(s).map_values(|v: String| v@)
}

/// Adds the traits of `more` to `all`: each trait of `more` gets the
/// components `more` lists for it, besides those it had. No list holds a
/// component twice afterwards.
pub fn add_traits(all: &mut Vec<(String, Vec<String>)>, more: &Vec<(String, Vec<String>)>)
    requires
        keys_unique(old(all)@),
        lists_distinct(old(all)@),
        keys_unique(more@),
    ensures
        keys_unique(final(all)@),
        lists_distinct(final(all)@),
        sets_view(final(all)@) == merge_maps(sets_view(old(all)@), sets_view(more@)),
{
    let ghost base = sets_view(all@);
    let mut k: usize = 0;
    assert(sets_view(more@.take(0)) =~= Map::<Seq<char>, Set<Seq<char>>>::empty());
    assert(merge_maps(base, Map::empty()) =~= base) by {
        assert forall|x: Seq<char>| #[trigger] base.contains_key(x) implies merge_maps(base, Map::empty())[x] == base[x] by {
            assert(base[x].union(Set::empty()) =~= base[x]);
        }
    }
    while k < more.len()
        invariant
            k <= more@.len(),
            keys_unique(all@),
            lists_distinct(all@),
            keys_unique(more@),
            sets_view(all@) == merge_maps(base, sets_view(more@.take(k as int))),
        decreases more@.len() - k,
    {
        let ghost m0 = sets_view(more@.take(k as int));
        merge_entry(all, &more[k].0, &more[k].1);
        proof {
            lemma_take_one_more(more@, k as int);
            let key = more@[k as int].0@;
            assert(!m0.contains_key(key)) by {
                if m0.contains_key(key) {
                    let t = more@.take(k as int);
                    let x = choose|x: int| 0 <= x < t.len() && #[trigger] t[x].0@ == key;
                    assert(more@[x].0@ == key);
                }
            }
            assert(sets_view(more@.take(k + 1)) =~= m0.insert(key, strs(more@[k as int].1@).to_set()));
            lemma_merge_maps_insert(base, m0, key, strs(more@[k as int].1@).to_set());
        }
        k = k + 1;
    }
    assert(more@.take(k as int) =~= more@);
}

impl ComponentMap {
    /// The components of each trait, over this map and all those below it.
    pub open spec fn all_traits(self) -> Map<Seq<char>, Set<Seq<char>>>
        decreases self, self.sub_maps@.len() + 1,
    {
        self.traits_through(self.sub_maps@.len() as int)
    }

    /// The components of each trait, over this map's own items and its
    /// first `k` sub-maps.
    pub open spec fn traits_through(self, k: int) -> Map<Seq<char>, Set<Seq<char>>>
        decreases self, k,
    {
        if k <= 0 {
            own_traits(self.components@)
        } else if k > self.sub_maps@.len() {
            self.traits_through(self.sub_maps@.len() as int)
        } else {
            merge_maps(self.traits_through(k - 1), self.sub_maps@[k - 1].all_traits())
        }
    }

    /// The path of this map and of every map below it has a last component.
    pub open spec fn paths_named(self) -> bool
        decreases self,
    {
        &&& last_component(self.path@) is Some
        &&& forall|i: int| 0 <= i < self.sub_maps@.len() ==> (#[trigger] self.sub_maps@[i]).paths_named()
    }

    /// The module this map's items are reached from: the last component of
    /// its path.
    pub open spec fn module(self) -> Seq<char> {
        last_component(self.path@).unwrap()
    }

    /// The name each component and trait of this map and those below it is
    /// reached by: from the module of its map, through the module of each
    /// map above it. A later item takes the place of an earlier one of the
    /// same name, a sub-map's items those of the map's own.
    pub open spec fn all_names(self) -> Map<Seq<char>, Seq<char>>
        decreases self, self.sub_maps@.len() + 1,
    {
        self.names_through(self.sub_maps@.len() as int)
    }

    /// The names of this map's own items and those of its first `k`
    /// sub-maps.
    pub open spec fn names_through(self, k: int) -> Map<Seq<char>, Seq<char>>
        decreases self, k,
    {
        if k <= 0 {
            own_names(self.components@, self.module())
        } else if k > self.sub_maps@.len() {
            self.names_through(self.sub_maps@.len() as int)
        } else {
            self.names_through(k - 1).union_prefer_right(
                self.sub_maps@[k - 1].all_names().map_values(|v: Seq<char>| qualified(self.module(), v)),
            )
        }
    }
}

/// Adds each string of `src` that `dst` does not hold yet.
fn union_into(dst: &mut Vec<String>, src: &Vec<String>)
    ensures
        strs(old(dst)@).no_duplicates() ==> strs(final(dst)@).no_duplicates(),
        strs(final(dst)@).to_set() == strs(old(dst)@).to_set().union(strs(src@).to_set()),
{
    let ghost d0 = strs(dst@).to_set();
    let mut i: usize = 0;
    assert(strs(src@).take(0).to_set() =~= Set::<Seq<char>>::empty());
    assert(d0.union(Set::empty()) =~= d0);
    while i < src.len()
        invariant
            i <= src@.len(),
            strs(old(dst)@).no_duplicates() ==> strs(dst@).no_duplicates(),
            d0 == strs(old(dst)@).to_set(),
            strs(dst@).to_set() == d0.union(strs(src@).take(i as int).to_set()),
        decreases src@.len() - i,
    {
        push_unique(dst, src[i].clone());
        proof {
            let t0 = strs(src@).take(i as int);
            let t1 = strs(src@).take(i + 1);
            assert(t1 =~= t0.push(src@[i as int]@));
            assert(t1.to_set() =~= t0.to_set().insert(src@[i as int]@)) by {
                assert forall|x: Seq<char>| t1.to_set().contains(x) <==> t0.to_set().insert(src@[i as int]@).contains(x) by {
                    if t1.contains(x) && x != src@[i as int]@ {
                        let j = choose|j: int| 0 <= j < t1.len() && t1[j] == x;
                        assert(t0[j] == x);
                    }
                    if t0.contains(x) {
                        let j = choose|j: int| 0 <= j < t0.len() && t0[j] == x;
                        assert(t1[j] == x);
                    }
                    if x == src@[i as int]@ {
                        assert(t1[i as int] == x);
                    }
                }
            }
            assert(strs(dst@).to_set() =~= d0.union(t1.to_set()));
        }
        i = i + 1;
    }
    assert(strs(src@).take(i as int) =~= strs(src@));
}

/// Adds the components `vals` to what `data` holds for the trait `key`.
fn merge_entry(data: &mut Vec<(String, Vec<String>)>, key: &String, vals: &Vec<String>)
    requires
        keys_unique(old(data)@),
        lists_distinct(old(data)@),
    ensures
        keys_unique(final(data)@),
        lists_distinct(final(data)@),
        sets_view(final(data)@) == merge_in(sets_view(old(data)@), key@, strs(vals@).to_set()),
{
    let ghost s0 = data@;
    let mut cur: Vec<String> = match find_key(data, key.as_str()) {
        Some(i) => {
            proof {
                lemma_entry(data@, i as int);
            }
            data[i].1.clone()
        },
        None => Vec::new(),
    };
    assert(strs(cur@).no_duplicates()) by {
        if has_key(s0, key@) {
            assert(as_map(s0).contains_key(key@));
        }
    }
    let ghost c0 = strs(cur@).to_set();
    assert(has_key(s0, key@) ==> c0 == sets_view(s0)[key@]);
    assert(!has_key(s0, key@) ==> c0 =~= Set::<Seq<char>>::empty());
    union_into(&mut cur, vals);
    let ghost cv = strs(cur@);
    insert_key(data, key.clone(), cur);
    proof {
        assert(as_map(data@)[key@]@ == cur@);
        assert forall|k: Seq<char>| #[trigger] as_map(data@).contains_key(k) implies strs(as_map(data@)[k]@).no_duplicates() by {
            if k != key@ {
                assert(as_map(s0).contains_key(k));
            }
        }
        if !has_key(s0, key@) {
            assert(Set::<Seq<char>>::empty().union(strs(vals@).to_set()) =~= strs(vals@).to_set());
        }
        assert(sets_view(data@) =~= merge_in(sets_view(s0), key@, strs(vals@).to_set()));
    }
}

/// Merging a map with one more key is merging, then adding that key.
proof fn lemma_merge_maps_insert(a: Map<Seq<char>, Set<Seq<char>>>, b: Map<Seq<char>, Set<Seq<char>>>, k: Seq<char>, s: Set<Seq<char>>)
    requires
        !b.contains_key(k),
    ensures
        merge_maps(a, b.insert(k, s)) == merge_in(merge_maps(a, b), k, s),
{
    let l = merge_maps(a, b.insert(k, s));
    let r = merge_in(merge_maps(a, b), k, s);
    assert forall|x: Seq<char>| l.contains_key(x) <==> r.contains_key(x) by {}
    assert forall|x: Seq<char>| #[trigger] l.contains_key(x) implies l[x] == r[x] by {
        if x == k {
            if a.contains_key(k) {
                assert(a[k].union(Set::empty()) =~= a[k]);
            } else {
                assert(Set::<Seq<char>>::empty().union(s) =~= s);
            }
        }
    }
    assert(l =~= r);
}

impl ComponentMap {
    /// The components of each trait, over this map and all those below it:
    /// each trait with the set of components that some map's items
    /// implement it for. No list holds a component twice.
    pub fn get_trait_to_components(&self) -> (r: Vec<(String, Vec<String>)>)
        ensures
            keys_unique(r@),
            lists_distinct(r@),
            sets_view(r@) == self.all_traits(),
        decreases self,
    {
        let mut data: Vec<(String, Vec<String>)> = Vec::new();
        assert(sets_view(data@) =~= own_traits(self.components@.take(0)));
        let mut i: usize = 0;
        while i < self.components.len()
            invariant
                i <= self.components@.len(),
                keys_unique(data@),
                lists_distinct(data@),
                sets_view(data@) == own_traits(self.components@.take(i as int)),
            decreases self.components@.len() - i,
        {
            assert(self.components@.take(i + 1).drop_last() =~= self.components@.take(i as int));
            match &self.components[i] {
                ComponentType::TraitFor(a, b) => {
                    merge_entry(&mut data, a, b);
                },
                _ => {},
            }
            i = i + 1;
        }
        assert(self.components@.take(i as int) =~= self.components@);
        let mut j: usize = 0;
        while j < self.sub_maps.len()
            invariant
                j <= self.sub_maps@.len(),
                keys_unique(data@),
                lists_distinct(data@),
                sets_view(data@) == self.traits_through(j as int),
                forall|x: int| 0 <= x < self.sub_maps@.len() ==> decreases_to!(self => #[trigger] self.sub_maps@[x]),
            decreases self.sub_maps@.len() - j,
        {
            let sub = self.sub_maps[j].get_trait_to_components();
            add_traits(&mut data, &sub);
            j = j + 1;
        }
        data
    }
}


/// Sets the name of `k` to `v`, and says so of the viewed map.
fn insert_name(data: &mut Vec<(String, String)>, k: String, v: String)
    requires
        keys_unique(old(data)@),
    ensures
        keys_unique(final(data)@),
        names_view(final(data)@) == names_view(old(data)@).insert(k@, v@),
{
    let ghost kv = k@;
    let ghost vv = v@;
    insert_key(data, k, v);
    assert(names_view(data@) =~= names_view(old(data)@).insert(kv, vv));
}

impl ComponentMap {
    /// Whether the path of this map and of every map below it has a last
    /// component.
    pub fn check_paths(&self) -> (r: bool)
        ensures
            r == self.paths_named(),
        decreases self,
    {
        if path_last_component(self.path.as_str()).is_none() {
            return false;
        }
        let mut j: usize = 0;
        while j < self.sub_maps.len()
            invariant
                j <= self.sub_maps@.len(),
                forall|x: int| 0 <= x < j ==> (#[trigger] self.sub_maps@[x]).paths_named(),
                forall|x: int| 0 <= x < self.sub_maps@.len() ==> decreases_to!(self => #[trigger] self.sub_maps@[x]),
            decreases self.sub_maps@.len() - j,
        {
            if !self.sub_maps[j].check_paths() {
                return false;
            }
            j = j + 1;
        }
        true
    }

    /// The name by which each component and trait of this map and those
    /// below it is reached from the application's source root: the module
    /// of its map, that is the last component of the map's path, and the
    /// modules of the maps above it, joined by `::`.
    pub fn get_all(&self) -> (r: Vec<(String, String)>)
        requires
            self.paths_named(),
        ensures
            keys_unique(r@),
            names_view(r@) == self.all_names(),
        decreases self,
    {
        let mut data: Vec<(String, String)> = Vec::new();
        let module = match path_last_component(self.path.as_str()) {
            Some(m) => m,
            None => {
                proof {
                    assert(false);
                }
                return data;
            },
        };
        assert(module@ == self.module());
        assert(names_view(data@) =~= own_names(self.components@.take(0), module@));
        let mut i: usize = 0;
        while i < self.components.len()
            invariant
                i <= self.components@.len(),
                module@ == self.module(),
                keys_unique(data@),
                names_view(data@) == own_names(self.components@.take(i as int), module@),
            decreases self.components@.len() - i,
        {
            assert(self.components@.take(i + 1).drop_last() =~= self.components@.take(i as int));
            match &self.components[i] {
                ComponentType::Component(c) => {
                    insert_name(&mut data, c.clone(), qualify(&module, c));
                },
                ComponentType::Trait(c) => {
                    insert_name(&mut data, c.clone(), qualify(&module, c));
                },
                ComponentType::TraitFor(_, _) => {},
            }
            i = i + 1;
        }
        assert(self.components@.take(i as int) =~= self.components@);
        let mut j: usize = 0;
        while j < self.sub_maps.len()
            invariant
                j <= self.sub_maps@.len(),
                self.paths_named(),
                module@ == self.module(),
                keys_unique(data@),
                names_view(data@) == self.names_through(j as int),
                forall|x: int| 0 <= x < self.sub_maps@.len() ==> decreases_to!(self => #[trigger] self.sub_maps@[x]),
            decreases self.sub_maps@.len() - j,
        {
            assert(self.sub_maps@[j as int].paths_named());
            let sub = self.sub_maps[j].get_all();
            let ghost base = names_view(data@);
            let ghost q = |v: Seq<char>| qualified(module@, v);
            let mut k: usize = 0;
            assert(names_view(sub@.take(0)).map_values(q) =~= Map::<Seq<char>, Seq<char>>::empty());
            assert(base.union_prefer_right(Map::empty()) =~= base);
            while k < sub.len()
                invariant
                    k <= sub@.len(),
                    keys_unique(data@),
                    keys_unique(sub@),
                    q == (|v: Seq<char>| qualified(module@, v)),
                    names_view(data@) == base.union_prefer_right(names_view(sub@.take(k as int)).map_values(q)),
                decreases sub@.len() - k,
            {
                let ghost m0 = names_view(sub@.take(k as int));
                insert_name(&mut data, sub[k].0.clone(), qualify(&module, &sub[k].1));
                proof {
                    lemma_take_one_more(sub@, k as int);
                    let key = sub@[k as int].0@;
                    let val = sub@[k as int].1@;
                    assert(names_view(sub@.take(k + 1)) =~= m0.insert(key, val));
                    assert(m0.insert(key, val).map_values(q) =~= m0.map_values(q).insert(key, q(val)));
                    assert(base.union_prefer_right(m0.map_values(q).insert(key, q(val)))
                        =~= base.union_prefer_right(m0.map_values(q)).insert(key, q(val)));
                }
                k = k + 1;
            }
            assert(sub@.take(k as int) =~= sub@);
            j = j + 1;
        }
        data
    }

    /// The names of `get_all`, where every path below this map has a last
    /// component; none where one does not.
    pub fn get_all_checked(&self) -> (r: Option<Vec<(String, String)>>)
        ensures
            r is Some <==> self.paths_named(),
            r matches Some(v) ==> keys_unique(v@) && names_view(v@) == self.all_names(),
    {
        if self.check_paths() {
            Some(self.get_all())
        } else {
            None
        }
    }
}

} // verus!
