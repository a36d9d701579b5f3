//! An application package as the engine builder records it, and the text
//! form of scheduling nodes used when packages are stored.

use vstd::prelude::*;
use vstd::string::{StrSliceExecFns, StringExecFns};
use crate::build::dependency::{DependencyGraph, DependencyType, LogicalExpression, NodeView,
    TaskType};

verus! {

/// `s` begins with `p`.
pub open spec fn has_prefix(s: Seq<char>, p: Seq<char>) -> bool {
    p.len() <= s.len() && s.subrange(0, p.len() as int) == p
}

/// `s` ends with `p`.
pub open spec fn has_suffix(s: Seq<char>, p: Seq<char>) -> bool {
    p.len() <= s.len() && s.subrange(s.len() - p.len(), s.len() as int) == p
}

/// Whether `s` begins with `p`.
pub fn starts_with_text(s: &str, p: &str) -> (r: bool)
    ensures
        r == has_prefix(s@, p@),
{
    let ls = s.unicode_len();
    let lp = p.unicode_len();
    if lp > ls {
        return false;
    }
    let mut i: usize = 0;
    while i < lp
        invariant
            i <= lp,
            lp <= ls,
            ls == s@.len(),
            lp == p@.len(),
            forall|j: int| 0 <= j < i ==> #[trigger] s@[j] == p@[j],
        decreases lp - i,
    {
        if s.get_char(i) != p.get_char(i) {
            proof {
                assert(s@.subrange(0, lp as int)[i as int] != p@[i as int]);
            }
            return false;
        }
        i = i + 1;
    }
    assert(s@.subrange(0, lp as int) =~= p@);
    true
}

/// Whether `s` ends with `p`.
pub fn ends_with_text(s: &str, p: &str) -> (r: bool)
    ensures
        r == has_suffix(s@, p@),
{
    let ls = s.unicode_len();
    let lp = p.unicode_len();
    if lp > ls {
        return false;
    }
    let off = ls - lp;
    let mut i: usize = 0;
    while i < lp
        invariant
            i <= lp,
            lp <= ls,
            off == ls - lp,
            ls == s@.len(),
            lp == p@.len(),
            forall|j: int| 0 <= j < i ==> #[trigger] s@[off + j] == p@[j],
        decreases lp - i,
    {
        if s.get_char(off + i) != p.get_char(i) {
            proof {
                assert(s@.subrange(off as int, ls as int)[i as int] != p@[i as int]);
            }
            return false;
        }
        i = i + 1;
    }
    assert forall|k: int| 0 <= k < lp implies s@.subrange(off as int, ls as int)[k] == p@[k] by {
        assert(s@[off + k] == p@[k]);
    }
    assert(s@.subrange(off as int, ls as int) =~= p@);
    true
}

/// The text of a node: its variant's name with the node's name in brackets.
pub open spec fn node_text(n: NodeView) -> Seq<char> {
    if n.0 == 0 {
        "GroupStart("@ + n.1 + ")"@
    } else if n.0 == 1 {
        "GroupEnd("@ + n.1 + ")"@
    } else {
        "Task("@ + n.1 + ")"@
    }
}

/// The node a text stands for: the first of the three variant names that it
/// begins with, when it also ends with a closing bracket.
pub open spec fn parse_node(s: Seq<char>) -> Option<NodeView> {
    if has_prefix(s, "GroupStart("@) && has_suffix(s, ")"@) {
        Some((0, s.subrange("GroupStart("@.len() as int, s.len() - 1)))
    } else if has_prefix(s, "GroupEnd("@) && has_suffix(s, ")"@) {
        Some((1, s.subrange("GroupEnd("@.len() as int, s.len() - 1)))
    } else if has_prefix(s, "Task("@) && has_suffix(s, ")"@) {
        Some((2, s.subrange("Task("@.len() as int, s.len() - 1)))
    } else {
        None
    }
}

/// Reading back the text of a node gives the node.
pub proof fn lemma_parse_node_text(n: NodeView)
    requires
        0 <= n.0 <= 2,
    ensures
        parse_node(node_text(n)) == Some(n),
{
    reveal_strlit("GroupStart(");
    reveal_strlit("GroupEnd(");
    reveal_strlit("Task(");
    reveal_strlit(")");
    let t = node_text(n);
    if n.0 == 0 {
        assert(t.subrange(0, 11) =~= "GroupStart("@);
        assert(t.subrange(t.len() - 1, t.len() as int) =~= ")"@);
        assert(t.subrange(11, t.len() - 1) =~= n.1);
    } else if n.0 == 1 {
        assert(t[5] == 'E');
        assert(!has_prefix(t, "GroupStart("@)) by {
            if has_prefix(t, "GroupStart("@) {
                assert(t.subrange(0, 11)[5] == 'S');
            }
        }
        assert(t.subrange(0, 9) =~= "GroupEnd("@);
        assert(t.subrange(t.len() - 1, t.len() as int) =~= ")"@);
        assert(t.subrange(9, t.len() - 1) =~= n.1);
    } else {
        assert(!has_prefix(t, "GroupStart("@)) by {
            if has_prefix(t, "GroupStart("@) {
                assert(t.subrange(0, 11)[0] == 'G');
            }
        }
        assert(!has_prefix(t, "GroupEnd("@)) by {
            if has_prefix(t, "GroupEnd("@) {
                assert(t.subrange(0, 9)[0] == 'G');
            }
        }
        assert(t.subrange(0, 5) =~= "Task("@);
        assert(t.subrange(t.len() - 1, t.len() as int) =~= ")"@);
        assert(t.subrange(5, t.len() - 1) =~= n.1);
    }
}

/// A text that reads as a node is that node's text.
pub proof fn lemma_node_text_parse(s: Seq<char>)
    requires
        parse_node(s) is Some,
    ensures
        node_text(parse_node(s)->0) == s,
{
    reveal_strlit("GroupStart(");
    reveal_strlit("GroupEnd(");
    reveal_strlit("Task(");
    reveal_strlit(")");
    let n = parse_node(s)->0;
    let k: int = if n.0 == 0 { 11 } else if n.0 == 1 { 9 } else { 5 };
    let pre = if n.0 == 0 { "GroupStart("@ } else if n.0 == 1 { "GroupEnd("@ } else { "Task("@ };
    assert(has_prefix(s, pre) && has_suffix(s, ")"@));
    assert(pre.len() == k);
    assert(s.subrange(0, k)[k - 1] == '(');
    assert(s.subrange(s.len() - 1, s.len() as int)[0] == ')');
    assert(s.len() >= k + 1) by {
        if s.len() == k {
            assert(s[k - 1] == '(');
            assert(s[s.len() - 1] == ')');
        }
    }
    assert(n.1 == s.subrange(k, s.len() - 1));
    assert(s =~= pre + n.1 + ")"@) by {
        assert forall|i: int| 0 <= i < s.len() implies s[i] == (pre + n.1 + ")"@)[i] by {
            if i < k {
                assert(s.subrange(0, k)[i] == s[i]);
            } else if i < s.len() - 1 {
            } else {
                assert(s.subrange(s.len() - 1, s.len() as int)[0] == s[i]);
            }
        }
    }
}

impl DependencyType {
    /// The text of this node, e.g. `Task(render)`.
    pub fn to_text(&self) -> (r: String)
        ensures
            r@ == node_text(self@),
    {
        let (mut s, name) = match self {
            DependencyType::GroupStart(n) => ("GroupStart(".to_string(), n),
            DependencyType::GroupEnd(n) => ("GroupEnd(".to_string(), n),
            DependencyType::Task(n) => ("Task(".to_string(), n),
        };
        s.append(name.as_str());
        s.append(")");
        s
    }

    /// Reads a node back from its text; anything else is refused with
    /// "Invalid dependency type string: " followed by the text.
    pub fn from_str(s: &str) -> (r: Result<DependencyType, String>)
        ensures
            match r {
                Ok(d) => parse_node(s@) == Some(d@),
                Err(e) => parse_node(s@) is None && e@ == "Invalid dependency type string: "@ + s@,
            },
    {
        let len = s.unicode_len();
        let close = ends_with_text(s, ")");
        if starts_with_text(s, "GroupStart(") && close {
            proof {
                reveal_strlit("GroupStart(");
                reveal_strlit(")");
                assert(s@.subrange(0, 11)[10] == '(');
                assert(s@.subrange(s@.len() - 1, s@.len() as int)[0] == ')');
                assert(s@.len() >= 12) by {
                    if s@.len() == 11 {
                        assert(s@[10] == '(');
                    }
                }
            }
            let inner = s.substring_char(11, len - 1);
            Ok(DependencyType::GroupStart(inner.to_string()))
        } else if starts_with_text(s, "GroupEnd(") && close {
            proof {
                reveal_strlit("GroupEnd(");
                reveal_strlit(")");
                assert(s@.subrange(0, 9)[8] == '(');
                assert(s@.subrange(s@.len() - 1, s@.len() as int)[0] == ')');
                assert(s@.len() >= 10) by {
                    if s@.len() == 9 {
                        assert(s@[8] == '(');
                    }
                }
            }
            let inner = s.substring_char(9, len - 1);
            Ok(DependencyType::GroupEnd(inner.to_string()))
        } else if starts_with_text(s, "Task(") && close {
            proof {
                reveal_strlit("Task(");
                reveal_strlit(")");
                assert(s@.subrange(0, 5)[4] == '(');
                assert(s@.subrange(s@.len() - 1, s@.len() as int)[0] == ')');
                assert(s@.len() >= 6) by {
                    if s@.len() == 5 {
                        assert(s@[4] == '(');
                    }
                }
            }
            let inner = s.substring_char(5, len - 1);
            Ok(DependencyType::Task(inner.to_string()))
        } else {
            let mut e = "Invalid dependency type string: ".to_string();
            e.append(s);
            Err(e)
        }
    }
}

/// What the engine builder records of an application or package: its name
/// and source path, its three scheduling graphs, its tasks with when they
/// run and under which condition, and the packages it uses.
#[derive(Debug)]
pub struct AppPackage {
    pub name: String,
    pub path: String,
    pub setup_dependency: DependencyGraph,
    pub runtime_dependency: DependencyGraph,
    pub sync_dependency: DependencyGraph,
    pub tasks: Vec<(String, (TaskType, Option<LogicalExpression>))>,
    pub packages: Vec<String>,
}

impl Default for AppPackage {
    /// The package "main" at "./src", with empty graphs, no tasks and no
    /// packages.
    fn default() -> (r: AppPackage)
        ensures
            r.name@ == "main"@,
            r.path@ == "./src"@,
            r.setup_dependency.dependents@.len() == 0,
            r.setup_dependency.in_degrees@.len() == 0,
            r.runtime_dependency.dependents@.len() == 0,
            r.runtime_dependency.in_degrees@.len() == 0,
            r.sync_dependency.dependents@.len() == 0,
            r.sync_dependency.in_degrees@.len() == 0,
            r.tasks@.len() == 0,
            r.packages@.len() == 0,
    {
        AppPackage {
            name: "main".to_string(),
            path: "./src".to_string(),
            setup_dependency: DependencyGraph::new(),
            runtime_dependency: DependencyGraph::new(),
            sync_dependency: DependencyGraph::new(),
            tasks: Vec::new(),
            packages: Vec::new(),
        }
    }
}

} // verus!
