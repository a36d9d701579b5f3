//! Finding the application package in a source file: the arguments of its
//! `corrosive_engine_builder!` call, read as a package.

use vstd::prelude::*;
use crate::build::declarations::is_text;
use crate::build::grammar::{app_matches, app_result, app_terminates, AppView, Token};
use crate::build::package::AppPackage;

verus! {

/// A macro call at the top level of a source file: the last segment of the
/// macro's path, and the tokens of its arguments.
pub struct MacroCall {
    pub name: String,
    pub tokens: Vec<Token>,
}

/// Why a source file gives no application package.
#[derive(Debug)]
pub enum BuilderError {
    /// No `corrosive_engine_builder!` call is there.
    Missing,
    /// A call's arguments do not read as a package; the message says why.
    Unreadable(String),
    /// Reading a call's arguments gets stuck at a token that no rule takes,
    /// so it would never end.
    Endless,
}

/// The calls are read in order, each builder call's arguments as a
/// package; the first one that does not read ends the search.
pub enum BuilderRead {
    Missing,
    Found(AppView),
    Failed(Seq<char>),
    Endless,
}

/// Whether a call is a `corrosive_engine_builder!` call.
pub open spec fn is_builder(c: MacroCall) -> bool {
    c.name@ == "corrosive_engine_builder"@
}

/// What reading the builder calls among `calls` gives: the package of the
/// last one, unless an earlier one does not read; nothing where there is
/// no builder call.
pub open spec fn builder_read(calls: Seq<MacroCall>) -> BuilderRead
    decreases calls.len(),
{
    if calls.len() == 0 {
        BuilderRead::Missing
    } else {
        let before = builder_read(calls.drop_last());
        let c = calls.last();
        match before {
            BuilderRead::Failed(m) => BuilderRead::Failed(m),
            BuilderRead::Endless => BuilderRead::Endless,
            _ => if !is_builder(c) {
                before
            } else if !app_terminates(c.tokens@) {
                BuilderRead::Endless
            } else {
                match app_result(c.tokens@) {
                    Ok(v) => BuilderRead::Found(v),
                    Err(m) => BuilderRead::Failed(m),
                }
            },
        }
    }
}

/// The application package that the builder calls among `calls` describe:
/// the last one's, where every builder call reads as a package.
pub fn builder_package(calls: &Vec<MacroCall>) -> (r: Result<AppPackage, BuilderError>)
    ensures
        match builder_read(calls@) {
            BuilderRead::Missing => r matches Err(BuilderError::Missing),
            BuilderRead::Endless => r matches Err(BuilderError::Endless),
            BuilderRead::Failed(m) => r matches Err(BuilderError::Unreadable(e)) && e@ == m,
            BuilderRead::Found(v) => r matches Ok(p) && app_matches(p, v),
        },
{
    let mut found: Option<AppPackage> = None;
    let mut i: usize = 0;
    while i < calls.len()
        invariant
            i <= calls@.len(),
            match builder_read(calls@.take(i as int)) {
                BuilderRead::Missing => found is None,
                BuilderRead::Found(v) => found matches Some(p) && app_matches(p, v),
                _ => false,
            },
        decreases calls@.len() - i,
    {
        assert(calls@.take(i + 1).drop_last() =~= calls@.take(i as int));
        proof {
            reveal_strlit("corrosive_engine_builder");
        }
        if is_text(&calls[i].name, "corrosive_engine_builder") {
            match AppPackage::parse_checked(&calls[i].tokens) {
                None => {
                    proof {
                        lemma_read_stops(calls@, i as int + 1);
                    }
                    return Err(BuilderError::Endless);
                },
                Some(Err(m)) => {
                    proof {
                        lemma_read_stops(calls@, i as int + 1);
                    }
                    return Err(BuilderError::Unreadable(m));
                },
                Some(Ok(p)) => {
                    found = Some(p);
                },
            }
        }
        i = i + 1;
    }
    assert(calls@.take(i as int) =~= calls@);
    match found {
        Some(p) => Ok(p),
        None => Err(BuilderError::Missing),
    }
}

/// Once reading stops at a call that does not read, the calls after it
/// change nothing.
proof fn lemma_read_stops(calls: Seq<MacroCall>, n: int)
    requires
        0 <= n <= calls.len(),
        builder_read(calls.take(n)) is Failed || builder_read(calls.take(n)) is Endless,
    ensures
        builder_read(calls) == builder_read(calls.take(n)),
    decreases calls.len() - n,
{
    if n < calls.len() {
        assert(calls.take(n + 1).drop_last() =~= calls.take(n));
        lemma_read_stops(calls, n + 1);
    } else {
        assert(calls.take(n) =~= calls);
    }
}

} // verus!
