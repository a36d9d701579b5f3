//! Keeping compiled shaders in step with their sources: which compiled
//! files no longer have a source, and which sources need compiling.

use vstd::prelude::*;
use crate::build::paths::ModifiedTime;
use crate::build::directory::{paths_equal, same_path};
use crate::build::package::{ends_with_text, has_suffix};

verus! {

/// A path with its extension replaced by `ext` (added where it has none),
/// as `std::path::PathBuf::set_extension` gives it.
pub uninterp spec fn path_with_extension(path: Seq<char>, ext: Seq<char>) -> Seq<char>;

/// The path of the compiled shader for a source path: its extension
/// replaced by `slang.wgsl`.
pub open spec fn wgsl_target(slang: Seq<char>) -> Seq<char> {
    path_with_extension(slang, "slang.wgsl"@)
}

/// The stem of a path's file name, as `std::path::Path::file_stem` gives
/// it; none for a path without a file name.
pub uninterp spec fn path_stem(path: Seq<char>) -> Option<Seq<char>>;

/// A path with its file name replaced by `name`, as
/// `std::path::Path::with_file_name` gives it.
pub uninterp spec fn path_with_file_name(path: Seq<char>, name: Seq<char>) -> Seq<char>;

/// The path of the source a compiled shader comes from: the compiled
/// path's file name replaced by its stem; none for a path without a file
/// name.
pub open spec fn slang_source(wgsl: Seq<char>) -> Option<Seq<char>> {
    match path_stem(wgsl) {
        Some(stem) => Some(path_with_file_name(wgsl, stem)),
        None => None,
    }
}

/// Calls `std::path::PathBuf::set_extension`.
/// Trusted: the result is what `path_with_extension` names for the path and
/// the extension. An extension without a path separator, as `requires`
/// asks, is one that `set_extension` does not panic on.
#[verifier::external_body]
fn with_extension_of(path: &str, ext: &str) -> (r: String)
    requires
        !ext@.contains('/'),
        !ext@.contains('\\'),
    ensures
        r@ == path_with_extension(path@, ext@),
{
    let mut p = std::path::PathBuf::from(path);
    p.set_extension(ext);
    p.to_string_lossy().into_owned()
}

/// The path of the compiled shader for the source path `slang`.
fn target_of(slang: &str) -> (r: String)
    ensures
        r@ == wgsl_target(slang@),
{
    proof {
        reveal_strlit("slang.wgsl");
    }
    with_extension_of(slang, "slang.wgsl")
}

/// Calls `std::path::Path::file_stem`.
/// Trusted: the result is what `path_stem` names for the path. A stem is
/// a part of the path, so it converts to a `String` unchanged.
#[verifier::external_body]
fn file_stem_of(path: &str) -> (r: Option<String>)
    ensures
        match r {
            Some(s) => path_stem(path@) == Some(s@),
            None => path_stem(path@) is None,
        },
{
    match std::path::Path::new(path).file_stem() {
        Some(stem) => Some(stem.to_string_lossy().into_owned()),
        None => None,
    }
}

/// Calls `std::path::Path::with_file_name`.
/// Trusted: the result is what `path_with_file_name` names for the path
/// and the name.
#[verifier::external_body]
fn with_file_name_of(path: &str, name: &str) -> (r: String)
    ensures
        r@ == path_with_file_name(path@, name@),
{
    std::path::Path::new(path).with_file_name(name).to_string_lossy().into_owned()
}

/// The path of the source a compiled shader comes from, if the compiled
/// path has a file name.
fn source_of(wgsl: &str) -> (r: Option<String>)
    ensures
        match r {
            Some(s) => slang_source(wgsl@) == Some(s@),
            None => slang_source(wgsl@) is None,
        },
{
    match file_stem_of(wgsl) {
        Some(stem) => Some(with_file_name_of(wgsl, stem.as_str())),
        None => None,
    }
}

/// The extension of a path's file name, as `std::path::Path::extension`
/// gives it; none for a file name without one.
pub uninterp spec fn path_extension(path: Seq<char>) -> Option<Seq<char>>;

/// Calls `std::path::Path::extension`.
/// Trusted: the result is what `path_extension` names for the path. An
/// extension is a part of the path, so it converts to a `String` unchanged.
#[verifier::external_body]
fn extension_of(path: &str) -> (r: Option<String>)
    ensures
        match r {
            Some(s) => path_extension(path@) == Some(s@),
            None => path_extension(path@) is None,
        },
{
    match std::path::Path::new(path).extension() {
        Some(ext) => Some(ext.to_string_lossy().into_owned()),
        None => None,
    }
}

/// A shader source to compile: a `.slang` file whose stem does not end in
/// `.lib` (those are included by other sources).
pub open spec fn is_shader_source(path: Seq<char>) -> bool {
    &&& path_extension(path) == Some("slang"@)
    &&& !(path_stem(path) matches Some(stem) && has_suffix(stem, ".lib"@))
}

/// A compiled shader: a `.wgsl` file whose stem ends in `.slang`.
pub open spec fn is_compiled_shader(path: Seq<char>) -> bool {
    &&& path_extension(path) == Some("wgsl"@)
    &&& path_stem(path) matches Some(stem) && has_suffix(stem, ".slang"@)
}

/// Whether the file `path` is a shader source to compile.
pub fn shader_source(path: &str) -> (r: bool)
    ensures
        r == is_shader_source(path@),
{
    let ext_ok = match extension_of(path) {
        Some(e) => is_text_str(e.as_str(), "slang"),
        None => false,
    };
    let lib = match file_stem_of(path) {
        Some(stem) => ends_with_text(stem.as_str(), ".lib"),
        None => false,
    };
    ext_ok && !lib
}

/// Whether the file `path` is a compiled shader.
pub fn compiled_shader(path: &str) -> (r: bool)
    ensures
        r == is_compiled_shader(path@),
{
    let ext_ok = match extension_of(path) {
        Some(e) => is_text_str(e.as_str(), "wgsl"),
        None => false,
    };
    let slang = match file_stem_of(path) {
        Some(stem) => ends_with_text(stem.as_str(), ".slang"),
        None => false,
    };
    ext_ok && slang
}

/// Whether `s` is the text `lit`.
fn is_text_str(s: &str, lit: &str) -> (r: bool)
    ensures
        r == (s@ == lit@),
{
    let a = s.to_string();
    let b = lit.to_string();
    a == b
}

/// `a` is later than `b`.
pub open spec fn later(a: ModifiedTime, b: ModifiedTime) -> bool {
    a.secs > b.secs || (a.secs == b.secs && a.nanos > b.nanos)
}

/// The position of the first file in a list of files that names the same
/// path as `p`, compared as `std::path::Path`'s `==` does, if there is one.
pub open spec fn file_index(files: Seq<(String, ModifiedTime)>, p: Seq<char>) -> Option<int> {
    if exists|i: int| 0 <= i < files.len() && same_path(files[i].0@, p) {
        Some(choose|i: int| 0 <= i < files.len() && same_path(files[i].0@, p)
            && forall|j: int| 0 <= j < i ==> !same_path(files[j].0@, p))
    } else {
        None
    }
}

/// Every compiled file has a source path.
pub open spec fn sources_named(wgsl_files: Seq<(String, ModifiedTime)>) -> bool {
    forall|i: int| 0 <= i < wgsl_files.len() ==> (#[trigger] slang_source(wgsl_files[i].0@)) is Some
}

/// The compiled files, in order, whose source is not among the sources.
pub open spec fn orphans(slang_files: Seq<(String, ModifiedTime)>, wgsl_files: Seq<(String, ModifiedTime)>) -> Seq<Seq<char>>
    decreases wgsl_files.len(),
{
    if wgsl_files.len() == 0 {
        Seq::empty()
    } else {
        let w = wgsl_files.last();
        let rest = orphans(slang_files, wgsl_files.drop_last());
        if file_index(slang_files, slang_source(w.0@)->Some_0) is None {
            rest.push(w.0@)
        } else {
            rest
        }
    }
}

/// The sources, in order, to compile, each with its compiled path: those
/// whose compiled file is missing, and those changed after it.
pub open spec fn stale(slang_files: Seq<(String, ModifiedTime)>, wgsl_files: Seq<(String, ModifiedTime)>) -> Seq<(Seq<char>, Seq<char>)>
    decreases slang_files.len(),
{
    if slang_files.len() == 0 {
        Seq::empty()
    } else {
        let s = slang_files.last();
        let t = wgsl_target(s.0@);
        let rest = stale(slang_files.drop_last(), wgsl_files);
        let needed = match file_index(wgsl_files, t) {
            None => true,
            Some(i) => later(s.1, wgsl_files[i].1),
        };
        if needed {
            rest.push((s.0@, t))
        } else {
            rest
        }
    }
}

/// What keeping the shaders in step takes: the compiled files to remove,
/// then the sources to compile, each with its compiled path.
#[derive(Debug)]
pub struct ShaderPlan {
    pub remove: Vec<String>,
    pub compile: Vec<(String, String)>,
}

/// Where the shader sources and the compiled shaders are kept.
#[derive(Debug)]
pub struct ShaderManager {
    pub dev_assets: String,
    pub assets: String,
}

/// Where the file `p` is in `files`, if it is there.
fn find_file(files: &Vec<(String, ModifiedTime)>, p: &String) -> (r: Option<usize>)
    ensures
        match r {
            Some(i) => i < files@.len() && same_path(files@[i as int].0@, p@) && file_index(files@, p@) == Some(i as int),
            None => file_index(files@, p@) is None,
        },
{
    let mut i: usize = 0;
    while i < files.len()
        invariant
            i <= files@.len(),
            forall|j: int| 0 <= j < i ==> !same_path(#[trigger] files@[j].0@, p@),
        decreases files@.len() - i,
    {
        if paths_equal(files[i].0.as_str(), p.as_str()) {
            proof {
                let k = choose|k: int| 0 <= k < files@.len() && same_path(files@[k].0@, p@)
                    && forall|j: int| 0 <= j < k ==> !same_path(files@[j].0@, p@);
                assert(same_path(files@[i as int].0@, p@));
                if k < i {
                    assert(!same_path(files@[k].0@, p@));
                }
                if i < k {
                    assert(!same_path(files@[i as int].0@, p@));
                }
            }
            return Some(i);
        }
        i = i + 1;
    }
    None
}

/// The sources to compile, each with its compiled path, as `stale` says.
fn stale_sources(slang_files: &Vec<(String, ModifiedTime)>, wgsl_files: &Vec<(String, ModifiedTime)>) -> (r: Vec<(String, String)>)
    ensures
        r@.map_values(|p: (String, String)| (p.0@, p.1@)) == stale(slang_files@, wgsl_files@),
{
    let mut compile: Vec<(String, String)> = Vec::new();
    let mut k: usize = 0;
    while k < slang_files.len()
        invariant
            k <= slang_files@.len(),
            compile@.len() == stale(slang_files@.take(k as int), wgsl_files@).len(),
            forall|j: int| 0 <= j < compile@.len() ==> (compile@[j].0@, compile@[j].1@) == #[trigger] stale(slang_files@.take(k as int), wgsl_files@)[j],
        decreases slang_files@.len() - k,
    {
        let ghost prev = stale(slang_files@.take(k as int), wgsl_files@);
        assert(slang_files@.take(k + 1).drop_last() =~= slang_files@.take(k as int));
        assert(slang_files@.take(k + 1).last() == slang_files@[k as int]);
        let target = target_of(slang_files[k].0.as_str());
        let needed = match find_file(wgsl_files, &target) {
            None => true,
            Some(j) => {
                let a = slang_files[k].1;
                let b = wgsl_files[j].1;
                a.secs > b.secs || (a.secs == b.secs && a.nanos > b.nanos)
            },
        };
        if needed {
            compile.push((slang_files[k].0.clone(), target));
            assert(stale(slang_files@.take(k + 1), wgsl_files@) == prev.push((slang_files@[k as int].0@, wgsl_target(slang_files@[k as int].0@))));
        } else {
            assert(stale(slang_files@.take(k + 1), wgsl_files@) == prev);
        }
        k = k + 1;
    }
    assert(slang_files@.take(k as int) =~= slang_files@);
    assert(compile@.map_values(|p: (String, String)| (p.0@, p.1@)) =~= stale(slang_files@, wgsl_files@));
    compile
}

impl ShaderManager {
    /// The compiled files with no source, and the sources to compile, from
    /// the sources and compiled files found (each path relative to its
    /// directory, with when it was modified).
    pub fn sync_shaders(&self, slang_files: &Vec<(String, ModifiedTime)>, wgsl_files: &Vec<(String, ModifiedTime)>) -> (r: ShaderPlan)
        requires
            sources_named(wgsl_files@),
        ensures
            r.remove@.map_values(|s: String| s@) == orphans(slang_files@, wgsl_files@),
            r.compile@.map_values(|p: (String, String)| (p.0@, p.1@)) == stale(slang_files@, wgsl_files@),
    {
        let mut remove: Vec<String> = Vec::new();
        let mut i: usize = 0;
        assert(remove@.map_values(|s: String| s@) =~= orphans(slang_files@, wgsl_files@.take(0)));
        while i < wgsl_files.len()
            invariant
                i <= wgsl_files@.len(),
                sources_named(wgsl_files@),
                remove@.map_values(|s: String| s@) == orphans(slang_files@, wgsl_files@.take(i as int)),
            decreases wgsl_files@.len() - i,
        {
            let ghost before = remove@;
            assert(wgsl_files@.take(i + 1).drop_last() =~= wgsl_files@.take(i as int));
            assert(slang_source(wgsl_files@[i as int].0@) is Some);
            match source_of(wgsl_files[i].0.as_str()) {
                Some(src) => {
                    if find_file(slang_files, &src).is_none() {
                        remove.push(wgsl_files[i].0.clone());
                        assert(remove@.map_values(|s: String| s@) =~= before.map_values(|s: String| s@).push(wgsl_files@[i as int].0@));
                    }
                },
                None => {},
            }
            i = i + 1;
        }
        assert(wgsl_files@.take(i as int) =~= wgsl_files@);
        let compile = stale_sources(slang_files, wgsl_files);
        ShaderPlan { remove, compile }
    }

    /// Whether every compiled file has a source path.
    pub fn check_sources(wgsl_files: &Vec<(String, ModifiedTime)>) -> (r: bool)
        ensures
            r == sources_named(wgsl_files@),
    {
        let mut i: usize = 0;
        while i < wgsl_files.len()
            invariant
                i <= wgsl_files@.len(),
                forall|j: int| 0 <= j < i ==> (#[trigger] slang_source(wgsl_files@[j].0@)) is Some,
            decreases wgsl_files@.len() - i,
        {
            if source_of(wgsl_files[i].0.as_str()).is_none() {
                return false;
            }
            i = i + 1;
        }
        true
    }

    /// The plan of `sync_shaders`, where every compiled file has a source
    /// path; none where one does not.
    pub fn sync_shaders_checked(&self, slang_files: &Vec<(String, ModifiedTime)>, wgsl_files: &Vec<(String, ModifiedTime)>) -> (r: Option<ShaderPlan>)
        ensures
            r is Some <==> sources_named(wgsl_files@),
            r matches Some(p) ==> p.remove@.map_values(|s: String| s@) == orphans(slang_files@, wgsl_files@)
                && p.compile@.map_values(|q: (String, String)| (q.0@, q.1@)) == stale(slang_files@, wgsl_files@),
    {
        if Self::check_sources(wgsl_files) {
            Some(self.sync_shaders(slang_files, wgsl_files))
        } else {
            None
        }
    }
}

} // verus!
