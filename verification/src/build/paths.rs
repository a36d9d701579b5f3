//! Paths of the source tree: the tree of paths with the state each was last
//! scanned in, and the module paths that items are reached by.

use vstd::prelude::*;
use vstd::string::StringExecFns;

verus! {

/// The last component of a path, as `std::path::Path::iter` gives it; none
/// for a path that has no component.
pub uninterp spec fn last_component(path: Seq<char>) -> Option<Seq<char>>;

/// Calls `std::path::Path::iter` on `path` and takes the last component.
/// Trusted: the result is what `last_component` names for the path's
/// characters. A component of a path made from a `&str` is valid text, so
/// the lossy conversion keeps it as it is.
#[verifier::external_body]
pub(crate) fn path_last_component(path: &str) -> (r: Option<String>)
    ensures
        match r {
            Some(s) => last_component(path@) == Some(s@),
            None => last_component(path@) is None,
        },
{
    match std::path::Path::new(path).iter().last() {
        Some(c) => Some(c.to_string_lossy().into_owned()),
        None => None,
    }
}

/// `name` reached from the module `module`.
pub open spec fn qualified(module: Seq<char>, name: Seq<char>) -> Seq<char> {
    module + seq![':', ':'] + name
}

/// `name` reached from the module `module`: the two joined by `::`.
pub fn qualify(module: &String, name: &String) -> (r: String)
    ensures
        r@ == qualified(module@, name@),
{
    let mut r = module.clone();
    let sep = "::";
    proof {
        reveal_strlit("::");
    }
    r.append(sep);
    r.append(name.as_str());
    assert(r@ =~= qualified(module@, name@));
    r
}

/// Whether a path changed, was removed, or neither, since the last scan.
#[derive(Debug, Clone, Copy, PartialEq, Eq, Structural)]
pub enum ModifiedState {
    Changed,
    Removed,
    Unchanged,
}

impl Default for ModifiedState {
    fn default() -> (r: Self)
        ensures
            r == ModifiedState::Changed,
    {
        ModifiedState::Changed
    }
}

/// When a file was last modified: seconds and nanoseconds since the epoch.
#[derive(Debug, Clone, Copy, PartialEq, Eq, Structural)]
pub struct ModifiedTime {
    pub secs: u64,
    pub nanos: u32,
}

/// A path of the source tree with its modification time and state, and a
/// map for each entry below it.
#[derive(Debug)]
pub struct PathMap {
    pub path: String,
    pub modified_time: ModifiedTime,
    pub modified_state: ModifiedState,
    pub sub_maps: Vec<PathMap>,
}

/// `b` is `a` with every state, its own and those below it, set to `st`.
pub open spec fn marked(a: PathMap, b: PathMap, st: ModifiedState) -> bool
    decreases a,
{
    &&& b.path == a.path
    &&& b.modified_time == a.modified_time
    &&& b.modified_state == st
    &&& b.sub_maps@.len() == a.sub_maps@.len()
    &&& forall|i: int| 0 <= i < a.sub_maps@.len() ==> marked(#[trigger] a.sub_maps@[i], b.sub_maps@[i], st)
}

impl PathMap {
    /// `pm` with its state, and that of every map below it, set to `st`.
    fn mark_all(pm: PathMap, st: ModifiedState) -> (r: PathMap)
        ensures
            marked(pm, r, st),
        decreases pm,
    {
        let PathMap { path, modified_time, modified_state: _, sub_maps } = pm;
        assert(forall|j: int| 0 <= j < pm.sub_maps@.len() ==> decreases_to!(pm => #[trigger] pm.sub_maps@[j]));
        let mut out: Vec<PathMap> = Vec::new();
        for item in it: sub_maps.into_iter()
            invariant
                it.seq() == pm.sub_maps@,
                out@.len() == it.index(),
                forall|j: int| 0 <= j < it.index() ==> marked(#[trigger] pm.sub_maps@[j], out@[j], st),
                forall|j: int| 0 <= j < pm.sub_maps@.len() ==> decreases_to!(pm => #[trigger] pm.sub_maps@[j]),
        {
            assert(item == pm.sub_maps@[it.index() as int]);
            out.push(Self::mark_all(item, st));
        }
        PathMap { path, modified_time, modified_state: st, sub_maps: out }
    }

    /// Sets the state of this map and of every map below it to `st`.
    fn mark_in_place(&mut self, st: ModifiedState)
        ensures
            marked(*old(self), *final(self), st),
    {
        let mut pm = PathMap {
            path: String::new(),
            modified_time: ModifiedTime { secs: 0, nanos: 0 },
            modified_state: st,
            sub_maps: Vec::new(),
        };
        std::mem::swap(&mut pm, self);
        *self = Self::mark_all(pm, st);
    }

    /// Marks this map and every map below it as removed.
    pub fn remove(&mut self)
        ensures
            marked(*old(self), *final(self), ModifiedState::Removed),
    {
        self.mark_in_place(ModifiedState::Removed);
    }

    /// Marks this map and every map below it as unchanged.
    pub fn none(&mut self)
        ensures
            marked(*old(self), *final(self), ModifiedState::Unchanged),
    {
        self.mark_in_place(ModifiedState::Unchanged);
    }
}

} // verus!
