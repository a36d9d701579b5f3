//! The grammar of the application builder's input: a list of entries that
//! name tasks, groups, packages and the source path, with the order among
//! them and the conditions under which tasks run. The input is read as the
//! tokens of the builder macro's arguments.

use vstd::prelude::*;
use vstd::string::StringExecFns;
use crate::build::dependency::{DependencyGraph, DependencyType, LogicalExpression, LogicalOperator,
    NodeView, TaskType};
use crate::build::package::AppPackage;
use crate::assoc::{keys_unique, as_map, insert_key};
use crate::text::strs;

verus! {

/// The delimiters of a group of tokens.
#[derive(Debug, Clone, Copy, PartialEq, Eq, Structural)]
pub enum Delimiter {
    Parenthesis,
    Brace,
    Bracket,
}

/// A token of the builder's input: an identifier, with whether it can be
/// used as a name (it is not a keyword); a punctuation character, with
/// whether it is joined to the one after it; a literal as written, with its
/// value where it is a string literal; or a delimited group of tokens.
#[derive(Debug)]
pub enum Token {
    Ident(String, bool),
    Punct(char, bool),
    Literal(String, Option<String>),
    Group(Delimiter, Vec<Token>),
}

/// How a token is printed.
pub open spec fn token_text(t: Token) -> Seq<char>
    decreases t, 0nat,
{
    match t {
        Token::Ident(s, _) => s@,
        Token::Punct(c, _) => seq![c],
        Token::Literal(s, _) => s@,
        Token::Group(d, v) => match d {
            Delimiter::Parenthesis => seq!['('] + stream_text(v@) + seq![')'],
            Delimiter::Bracket => seq!['['] + stream_text(v@) + seq![']'],
            Delimiter::Brace => seq!['{', ' '] + stream_text(v@) + (if v@.len() > 0 { seq![' '] } else { Seq::empty() }) + seq!['}'],
        },
    }
}

/// How a list of tokens is printed: one space between tokens, except after
/// a punctuation character joined to the next.
pub open spec fn stream_text(s: Seq<Token>) -> Seq<char>
    decreases s, 1nat,
{
    if s.len() == 0 {
        Seq::empty()
    } else if s.len() == 1 {
        token_text(s[0])
    } else {
        stream_text(s.drop_last()) + (if s[s.len() - 2] matches Token::Punct(_, true) { Seq::empty() } else { seq![' '] })
            + token_text(s.last())
    }
}

/// What a condition reads as.
pub enum CondView {
    Signal(Seq<char>),
    State(Seq<char>, Seq<char>),
    Operator(LogicalOperator),
    Not(Box<CondView>),
    Grouped(Seq<CondView>),
}

/// What a condition reads as.
pub open spec fn cond_view(e: LogicalExpression) -> CondView
    decreases e, 0nat,
{
    match e {
        LogicalExpression::Signal(s) => CondView::Signal(s@),
        LogicalExpression::State(a, b) => CondView::State(a@, b@),
        LogicalExpression::Operator(o) => CondView::Operator(o),
        LogicalExpression::Not(b) => CondView::Not(Box::new(cond_view(*b))),
        LogicalExpression::Grouped(v) => CondView::Grouped(conds_view(v@)),
    }
}

/// What a list of conditions reads as.
pub open spec fn conds_view(s: Seq<LogicalExpression>) -> Seq<CondView>
    decreases s, 1nat,
{
    if s.len() == 0 {
        Seq::empty()
    } else {
        conds_view(s.drop_last()).push(cond_view(s.last()))
    }
}

/// The token at `p` is the punctuation character `c`.
pub open spec fn at_punct(ts: Seq<Token>, p: int, c: char) -> bool {
    &&& 0 <= p < ts.len()
    &&& ts[p] matches Token::Punct(x, _) && x == c
}

/// The tokens at `p` are `c` joined to a second `c`, as in `||` and `&&`.
pub open spec fn at_pair(ts: Seq<Token>, p: int, c: char) -> bool {
    &&& 0 <= p && p + 1 < ts.len()
    &&& ts[p] matches Token::Punct(x, true) && x == c
    &&& ts[p + 1] matches Token::Punct(y, _) && y == c
}

/// The token at `p` is an identifier that can be used as a name.
pub open spec fn at_name(ts: Seq<Token>, p: int) -> bool {
    &&& 0 <= p < ts.len()
    &&& ts[p] matches Token::Ident(_, true)
}

/// The token at `p` is the keyword `if`.
pub open spec fn at_if(ts: Seq<Token>, p: int) -> bool {
    &&& 0 <= p < ts.len()
    &&& ts[p] matches Token::Ident(s, _) && s@ == "if"@
}

/// The token at `p` is a group in parentheses.
pub open spec fn at_paren(ts: Seq<Token>, p: int) -> bool {
    &&& 0 <= p < ts.len()
    &&& ts[p] matches Token::Group(d, _) && d == Delimiter::Parenthesis
}

/// The value of the string literal at `p`, if there is one.
pub open spec fn str_at(ts: Seq<Token>, p: int) -> Option<Seq<char>> {
    if 0 <= p < ts.len() && (ts[p] matches Token::Literal(_, Some(v))) {
        Some(ts[p]->Literal_1->Some_0@)
    } else {
        None
    }
}

/// The text of the identifier at `p`.
pub open spec fn name_at(ts: Seq<Token>, p: int) -> Seq<char> {
    ts[p]->Ident_0@
}

/// Where the comparison of a state that goes on from `q` ends: at the end,
/// or at the next `,`, `||` or `&&`.
pub open spec fn state_end(ts: Seq<Token>, q: int) -> int
    decreases ts.len() - q,
{
    if q < 0 || q >= ts.len() || at_punct(ts, q, ',') || at_pair(ts, q, '|') || at_pair(ts, q, '&') {
        q
    } else {
        state_end(ts, q + 1)
    }
}

/// `acc` with `x` appended, negated where a `!` came before it.
pub open spec fn push_cond(acc: Seq<CondView>, neg: bool, x: CondView) -> Seq<CondView> {
    if neg {
        acc.push(CondView::Not(Box::new(x)))
    } else {
        acc.push(x)
    }
}

/// How reading a condition ends: with the conditions read, the position
/// reached and whether tokens were left over inside a group; or stuck at a
/// token that no rule takes, where reading would never end.
pub enum CondRead {
    Done(Seq<CondView>, int, bool),
    Stuck,
}

/// Where reading conditions stands: what has been read, whether a `!`
/// waits for the next condition, and the position.
pub type ReadState = (Seq<CondView>, bool, int);

/// A string literal at the position reads as a signal.
pub open spec fn after_signal(ts: Seq<Token>, st: ReadState) -> ReadState {
    if str_at(ts, st.2) is Some {
        (push_cond(st.0, st.1, CondView::Signal(str_at(ts, st.2)->Some_0)), false, st.2 + 1)
    } else {
        st
    }
}

/// A name at the position reads as a state, compared by the tokens up to
/// the next `,`, `||` or `&&`.
pub open spec fn after_state(ts: Seq<Token>, st: ReadState) -> ReadState {
    if at_name(ts, st.2) {
        let q = state_end(ts, st.2 + 1);
        (push_cond(st.0, st.1, CondView::State(name_at(ts, st.2), stream_text(ts.subrange(st.2, q)))), false, q)
    } else {
        st
    }
}

/// A `!` at the position negates the next condition.
pub open spec fn after_not(ts: Seq<Token>, st: ReadState) -> ReadState {
    if at_punct(ts, st.2, '!') {
        (st.0, true, st.2 + 1)
    } else {
        st
    }
}

/// A `||` or `&&` at the position reads as that connective.
pub open spec fn after_operator(ts: Seq<Token>, st: ReadState, c: char, o: LogicalOperator) -> ReadState {
    if at_pair(ts, st.2, c) {
        (st.0.push(CondView::Operator(o)), st.1, st.2 + 2)
    } else {
        st
    }
}

/// The rules after the group rule, in order.
pub open spec fn after_rest(ts: Seq<Token>, st: ReadState) -> ReadState {
    after_operator(ts, after_operator(ts, after_not(ts, after_state(ts, after_signal(ts, st))), '|',
        LogicalOperator::Or), '&', LogicalOperator::And)
}

/// One round of reading at `p`: each rule in turn where the token it
/// reaches fits, with whether a group left tokens over. None where reading
/// the group is stuck.
pub open spec fn cond_round(ts: Seq<Token>, p: int, acc: Seq<CondView>, neg: bool) -> Option<(ReadState, bool)>
    decreases ts, ts.len() - p, 0nat,
{
    if at_paren(ts, p) {
        proof {
            assert(decreases_to!(ts => ts[p]));
        }
        let inner = ts[p]->Group_1@;
        match cond_loop(inner, 0, Seq::empty(), false) {
            CondRead::Done(l, e, u) => Some((after_rest(ts, (push_cond(acc, neg, CondView::Grouped(l)), false, p + 1)),
                u || e < inner.len())),
            CondRead::Stuck => None,
        }
    } else {
        Some((after_rest(ts, (acc, neg, p)), false))
    }
}

/// Reading conditions from `p` on, with `acc` read so far and `neg` telling
/// whether a `!` waits for the next condition. Each round takes, in this
/// order and each where the next token fits: a group in parentheses (the
/// conditions inside it, as a group); a string literal (a signal); a name
/// (a state, with the text of the tokens up to the next `,`, `||` or `&&`);
/// a `!`; a `||`; a `&&`. Reading stops at the end or at a `,`; a round
/// that takes nothing is stuck.
pub open spec fn cond_loop(ts: Seq<Token>, p: int, acc: Seq<CondView>, neg: bool) -> CondRead
    decreases ts, ts.len() - p, 1nat,
{
    if p < 0 || p >= ts.len() || at_punct(ts, p, ',') {
        CondRead::Done(acc, p, false)
    } else {
        match cond_round(ts, p, acc, neg) {
            None => CondRead::Stuck,
            Some((st, u1)) => if st.2 <= p || st.2 > ts.len() {
                CondRead::Stuck
            } else {
                match cond_loop(ts, st.2, st.0, st.1) {
                    CondRead::Done(l, e, u) => CondRead::Done(l, e, u1 || u),
                    CondRead::Stuck => CondRead::Stuck,
                }
            },
        }
    }
}

/// A change to a scheduling graph: a node added, or a dependency (the first
/// node waits for the second).
pub enum GraphOp {
    Node(NodeView),
    Dep(NodeView, NodeView),
}

/// Whether the changes make `n` a node.
pub open spec fn ops_node(ops: Seq<GraphOp>, n: NodeView) -> bool
    decreases ops.len(),
{
    if ops.len() == 0 {
        false
    } else {
        ops_node(ops.drop_last(), n) || match ops.last() {
            GraphOp::Node(m) => m == n,
            GraphOp::Dep(f, t) => f == n || t == n,
        }
    }
}

/// Whether the changes give `n` a list of dependents.
pub open spec fn ops_entry(ops: Seq<GraphOp>, n: NodeView) -> bool
    decreases ops.len(),
{
    if ops.len() == 0 {
        false
    } else {
        ops_entry(ops.drop_last(), n) || match ops.last() {
            GraphOp::Node(m) => m == n,
            GraphOp::Dep(_, t) => t == n,
        }
    }
}

/// The nodes that the changes make wait for `n`, in order.
pub open spec fn ops_dependents(ops: Seq<GraphOp>, n: NodeView) -> Seq<NodeView>
    decreases ops.len(),
{
    if ops.len() == 0 {
        Seq::empty()
    } else {
        let d = ops_dependents(ops.drop_last(), n);
        match ops.last() {
            GraphOp::Dep(f, t) => if t == n { d.push(f) } else { d },
            _ => d,
        }
    }
}

/// How many nodes the changes make `n` wait for.
pub open spec fn ops_degree(ops: Seq<GraphOp>, n: NodeView) -> int
    decreases ops.len(),
{
    if ops.len() == 0 {
        0
    } else {
        ops_degree(ops.drop_last(), n) + match ops.last() {
            GraphOp::Dep(f, _) => if f == n { 1int } else { 0 },
            _ => 0,
        }
    }
}

/// How many dependencies the changes add.
pub open spec fn ops_deps(ops: Seq<GraphOp>) -> int
    decreases ops.len(),
{
    if ops.len() == 0 {
        0
    } else {
        ops_deps(ops.drop_last()) + if ops.last() is Dep { 1int } else { 0 }
    }
}

/// The graph is the one the changes build from an empty graph.
pub open spec fn graph_is(g: DependencyGraph, ops: Seq<GraphOp>) -> bool {
    &&& g.wf()
    &&& forall|n: NodeView| #[trigger] g.has_node(n) == ops_node(ops, n)
    &&& forall|n: NodeView| #[trigger] g.has_entry(n) == ops_entry(ops, n)
    &&& forall|n: NodeView| #[trigger] g.dependents_of(n) == ops_dependents(ops, n)
    &&& forall|n: NodeView| #[trigger] g.degree(n) == ops_degree(ops, n)
}

/// A task node.
pub open spec fn task_node(s: Seq<char>) -> NodeView {
    (2, s)
}

/// The start node of a group.
pub open spec fn start_node(s: Seq<char>) -> NodeView {
    (0, s)
}

/// The end node of a group.
pub open spec fn end_node(s: Seq<char>) -> NodeView {
    (1, s)
}

/// The five words that relate an entry to a task or group.
pub open spec fn is_relation(rel: Seq<char>) -> bool {
    rel == "before"@ || rel == "before_group"@ || rel == "after"@ || rel == "after_group"@ || rel == "in_group"@
}

/// The changes of a group entry: the group `j` (both its nodes) and `t`,
/// then the dependencies the relation makes.
pub open spec fn group_ops(rel: Seq<char>, j: Seq<char>, t: Seq<char>) -> Seq<GraphOp> {
    let g = seq![GraphOp::Node(start_node(j)), GraphOp::Node(end_node(j))];
    if rel == "before"@ {
        g + seq![GraphOp::Node(task_node(t)), GraphOp::Dep(end_node(j), task_node(t))]
    } else if rel == "after"@ {
        g + seq![GraphOp::Node(task_node(t)), GraphOp::Dep(task_node(t), start_node(j))]
    } else if rel == "before_group"@ {
        g + seq![GraphOp::Node(start_node(t)), GraphOp::Node(end_node(t)), GraphOp::Dep(end_node(j), start_node(t))]
    } else if rel == "after_group"@ {
        g + seq![GraphOp::Node(start_node(t)), GraphOp::Node(end_node(t)), GraphOp::Dep(end_node(t), start_node(j))]
    } else {
        g + seq![GraphOp::Node(start_node(t)), GraphOp::Node(end_node(t)), GraphOp::Dep(start_node(t), start_node(j)),
            GraphOp::Dep(end_node(j), end_node(t))]
    }
}

/// The changes a relation of the task `j` to `t` adds after the task's node.
pub open spec fn task_ops(rel: Seq<char>, j: Seq<char>, t: Seq<char>) -> Seq<GraphOp> {
    if rel == "before"@ {
        seq![GraphOp::Node(task_node(t)), GraphOp::Dep(task_node(j), task_node(t))]
    } else if rel == "after"@ {
        seq![GraphOp::Node(task_node(t)), GraphOp::Dep(task_node(t), task_node(j))]
    } else if rel == "before_group"@ {
        seq![GraphOp::Node(start_node(t)), GraphOp::Node(end_node(t)), GraphOp::Dep(task_node(j), start_node(t))]
    } else if rel == "after_group"@ {
        seq![GraphOp::Node(start_node(t)), GraphOp::Node(end_node(t)), GraphOp::Dep(end_node(t), task_node(j))]
    } else {
        seq![GraphOp::Node(start_node(t)), GraphOp::Node(end_node(t)), GraphOp::Dep(start_node(t), task_node(j)),
            GraphOp::Dep(task_node(j), end_node(t))]
    }
}

/// The message when a group relation is not followed by a string literal.
pub open spec fn group_relation_msg(rel: Seq<char>) -> Seq<char> {
    if rel == "before"@ {
        "String literal of name of a task.\nExample: (group \"example_group\" before \"example_task\")"@
    } else if rel == "after"@ {
        "String literal of name of a task.\nExample: (group \"example_group\" after \"example_task\")"@
    } else if rel == "before_group"@ {
        "String literal of name of a group.\nExample: (group \"example_group\" before_group \"example_group\")"@
    } else if rel == "after_group"@ {
        "String literal of name of a group.\nExample: (group \"example_group\" after_group \"example_group\")"@
    } else {
        "String literal of name of a group.\nExample: (group \"example_group\" in_group \"example_group\")"@
    }
}

/// The message when a task relation is not followed by a string literal.
pub open spec fn task_relation_msg(rel: Seq<char>) -> Seq<char> {
    if rel == "before"@ {
        "String literal of name of a task.\nExample: (update \"example_task\" before \"example_task\")"@
    } else if rel == "after"@ {
        "String literal of name of a task.\nExample: (update \"example_task\" after \"example_task\")"@
    } else if rel == "before_group"@ {
        "String literal of name of a group.\nExample: (update \"example_task\" before_group \"example_group\")"@
    } else if rel == "after_group"@ {
        "String literal of name of a group.\nExample: (update \"example_task\" after_group \"example_group\")"@
    } else {
        "String literal of name of a group.\nExample: (Setup \"example_task\" in_group \"example_group\")"@
    }
}

/// The words that begin a task entry.
pub open spec fn is_task_word(w: Seq<char>) -> bool {
    w == "update"@ || w == "fixed_update"@ || w == "sync_update"@ || w == "long_update"@ || w == "setup"@
}

/// When the task of a task entry runs.
pub open spec fn task_word_type(w: Seq<char>) -> TaskType {
    if w == "update"@ {
        TaskType::Update
    } else if w == "fixed_update"@ {
        TaskType::Fixed
    } else if w == "sync_update"@ {
        TaskType::Sync
    } else if w == "long_update"@ {
        TaskType::Long
    } else {
        TaskType::Setup
    }
}

/// Which graph a task entry goes to: 0 the runtime graph, 1 the setup
/// graph, 2 the sync graph.
pub open spec fn task_word_graph(w: Seq<char>) -> int {
    if w == "sync_update"@ {
        2
    } else if w == "setup"@ {
        1
    } else {
        0
    }
}

/// The message when a task word is not followed by a string literal.
pub open spec fn task_word_msg(w: Seq<char>) -> Seq<char> {
    if w == "update"@ {
        "String literal of name of a task.\nExample: (update \"normal_task\")"@
    } else if w == "fixed_update"@ {
        "String literal of name of a task.\nExample: (fixed_update \"fixed_task\")"@
    } else if w == "sync_update"@ {
        "String literal of name of a task.\nExample: (sync_update \"sync_task\")"@
    } else if w == "long_update"@ {
        "String literal of name of a task.\nExample: (long_update \"long_task\")"@
    } else {
        "String literal of name of a task.\nExample: (setup \"setup_task\")"@
    }
}

/// What one entry of the builder's input says: the graph it changes and the
/// changes, and the task, source path or package it names.
pub struct EntryView {
    pub graph: int,
    pub ops: Seq<GraphOp>,
    pub task: Option<(Seq<char>, TaskType, Option<CondView>)>,
    pub path: Option<Seq<char>>,
    pub package: Option<Seq<char>>,
}

/// How reading an entry ends: with the entry, the position reached and
/// whether a group of a condition left tokens over; with an error message;
/// or stuck in a condition.
pub enum EntryRead {
    Done(EntryView, int, bool),
    Fail(Seq<char>),
    Stuck,
}

/// An entry with nothing but what is given.
pub open spec fn plain_entry(graph: int, ops: Seq<GraphOp>) -> EntryView {
    EntryView { graph, ops, task: None, path: None, package: None }
}

/// The end of a task entry at `q`: an optional `if` and its condition.
pub open spec fn cond_tail(ts: Seq<Token>, q: int, j: Seq<char>, ty: TaskType, graph: int, ops: Seq<GraphOp>) -> EntryRead {
    if at_if(ts, q) {
        match cond_loop(ts, q + 1, Seq::empty(), false) {
            CondRead::Done(l, e, u) => EntryRead::Done(
                EntryView { task: Some((j, ty, Some(CondView::Grouped(l)))), ..plain_entry(graph, ops) }, e, u),
            CondRead::Stuck => EntryRead::Stuck,
        }
    } else {
        EntryRead::Done(EntryView { task: Some((j, ty, None)), ..plain_entry(graph, ops) }, q, false)
    }
}

/// The rest of a task entry for the task `j`, from `q`: an optional
/// relation to a task or group, then an optional condition.
pub open spec fn task_tail(ts: Seq<Token>, q: int, j: Seq<char>, ty: TaskType, graph: int) -> EntryRead {
    let base = seq![GraphOp::Node(task_node(j))];
    if at_name(ts, q) {
        let rel = name_at(ts, q);
        if !is_relation(rel) {
            EntryRead::Fail("Expected before, after, before_group, after_group or in_group."@)
        } else {
            match str_at(ts, q + 1) {
                Some(t) => cond_tail(ts, q + 2, j, ty, graph, base + task_ops(rel, j, t)),
                None => EntryRead::Fail(task_relation_msg(rel)),
            }
        }
    } else {
        cond_tail(ts, q, j, ty, graph, base)
    }
}

/// The rest of a group entry, from `q`: an optional `setup`, the group's
/// name, a relation and the name of the task or group it relates to.
pub open spec fn group_tail(ts: Seq<Token>, q: int) -> EntryRead {
    let named = at_name(ts, q);
    let setup = named && name_at(ts, q) == "setup"@;
    if named && !setup {
        EntryRead::Fail("Expected setup.\nExample: (group setup \"example_group\" before \"example_task\")"@)
    } else {
        let q1 = if setup { q + 1 } else { q };
        let graph: int = if setup { 1 } else { 0 };
        match str_at(ts, q1) {
            None => EntryRead::Fail(
                "String literal of name of a group.\nExample: (group \"group_name\" before \"another_group\")"@),
            Some(j) => if !at_name(ts, q1 + 1) {
                EntryRead::Fail("Expected an Ident"@)
            } else if !is_relation(name_at(ts, q1 + 1)) {
                EntryRead::Fail("Expected before, after, before_group, after_group or in_group."@)
            } else {
                let rel = name_at(ts, q1 + 1);
                match str_at(ts, q1 + 2) {
                    Some(t) => EntryRead::Done(plain_entry(graph, group_ops(rel, j, t)), q1 + 3, false),
                    None => EntryRead::Fail(group_relation_msg(rel)),
                }
            },
        }
    }
}

/// Reading one entry at `p`: a word, then what that word takes.
pub open spec fn entry_read(ts: Seq<Token>, p: int) -> EntryRead {
    if !at_name(ts, p) {
        EntryRead::Fail("Expected and Ident"@)
    } else {
        let w = name_at(ts, p);
        if w == "path"@ {
            match str_at(ts, p + 1) {
                Some(v) => EntryRead::Done(EntryView { path: Some(v), ..plain_entry(0, Seq::empty()) }, p + 2, false),
                None => EntryRead::Fail("String literal of the path of the package.\nExample: (path \"./src/lib\")"@),
            }
        } else if w == "package"@ {
            match str_at(ts, p + 1) {
                Some(v) => EntryRead::Done(EntryView { package: Some(v), ..plain_entry(0, Seq::empty()) }, p + 2, false),
                None => EntryRead::Fail("String literal of name of a package.\nExample: (package \"package_name\")"@),
            }
        } else if is_task_word(w) {
            match str_at(ts, p + 1) {
                Some(j) => task_tail(ts, p + 2, j, task_word_type(w), task_word_graph(w)),
                None => EntryRead::Fail(task_word_msg(w)),
            }
        } else if w == "group"@ {
            group_tail(ts, p + 1)
        } else {
            EntryRead::Fail(
                "Expected path, update, fixed_update, sync_update, long_update, setup, group or package."@)
        }
    }
}

/// What an application package reads as: its source path, the changes
/// that build its runtime, setup and sync graphs, its tasks by name, and
/// the packages it uses. Its name is always "main".
pub struct AppView {
    pub path: Seq<char>,
    pub graphs: Seq<Seq<GraphOp>>,
    pub tasks: Map<Seq<char>, (TaskType, Option<CondView>)>,
    pub packages: Seq<Seq<char>>,
}

/// The package of an empty input.
pub open spec fn default_app() -> AppView {
    AppView {
        path: "./src"@,
        graphs: seq![Seq::empty(), Seq::empty(), Seq::empty()],
        tasks: Map::empty(),
        packages: Seq::empty(),
    }
}

/// An entry followed by the package that the entries after it make: the
/// path is the entry's (or "./src"), its package comes after the later
/// ones, its task takes the place of a later one of the same name, and its
/// changes come after the later ones' in its graph.
pub open spec fn combine(e: EntryView, sub: AppView) -> AppView {
    AppView {
        path: if e.path is Some { e.path->Some_0 } else { "./src"@ },
        graphs: sub.graphs.update(e.graph, sub.graphs[e.graph] + e.ops),
        tasks: match e.task {
            Some((j, ty, c)) => sub.tasks.insert(j, (ty, c)),
            None => sub.tasks,
        },
        packages: if e.package is Some { sub.packages.push(e.package->Some_0) } else { sub.packages },
    }
}

/// How reading a package ends.
pub enum AppRead {
    Done(AppView, int, bool),
    Fail(Seq<char>),
    Stuck,
}

/// Reading a package from `p`: nothing left gives the empty package;
/// otherwise an entry, and after a `,` the package of the rest.
pub open spec fn app_read(ts: Seq<Token>, p: int) -> AppRead
    decreases ts.len() - p,
{
    if p < 0 || p >= ts.len() {
        AppRead::Done(default_app(), p, false)
    } else {
        match entry_read(ts, p) {
            EntryRead::Fail(m) => AppRead::Fail(m),
            EntryRead::Stuck => AppRead::Stuck,
            EntryRead::Done(e, p1, u1) => if p1 <= p {
                AppRead::Stuck
            } else if at_punct(ts, p1, ',') {
                match app_read(ts, p1 + 1) {
                    AppRead::Done(sub, p2, u2) => AppRead::Done(combine(e, sub), p2, u1 || u2),
                    AppRead::Fail(m) => AppRead::Fail(m),
                    AppRead::Stuck => AppRead::Stuck,
                }
            } else {
                AppRead::Done(combine(e, default_app()), p1, u1)
            },
        }
    }
}

/// What the whole input reads as: the package, or an error message. Tokens
/// left over at the end, or inside a group of a condition, are an error.
pub open spec fn app_result(ts: Seq<Token>) -> Result<AppView, Seq<char>> {
    match app_read(ts, 0) {
        AppRead::Done(v, e, u) => if u || e < ts.len() { Err("unexpected token"@) } else { Ok(v) },
        AppRead::Fail(m) => Err(m),
        AppRead::Stuck => Err("unexpected token"@),
    }
}

/// Reading the input never gets stuck in a condition.
pub open spec fn app_terminates(ts: Seq<Token>) -> bool {
    !(app_read(ts, 0) is Stuck)
}

/// The character `c` as a string, by `char`'s `to_string`.
/// Trusted: the result is the one character `c`, as the documentation of
/// `char`'s `Display` says.
#[verifier::external_body]
pub(crate) fn char_string(c: char) -> (r: String)
    ensures
        r@ == seq![c],
{
    c.to_string()
}

/// How a token is printed.
fn text_of(t: &Token) -> (r: String)
    ensures
        r@ == token_text(*t),
    decreases *t, 0nat,
{
    match t {
        Token::Ident(s, _) => s.clone(),
        Token::Punct(c, _) => char_string(*c),
        Token::Literal(s, _) => s.clone(),
        Token::Group(d, v) => {
            let inner = range_text(v, 0, v.len());
            assert(v@.subrange(0, v@.len() as int) =~= v@);
            let mut r = String::new();
            match d {
                Delimiter::Parenthesis => {
                    proof { reveal_strlit("("); reveal_strlit(")"); }
                    r.append("(");
                    r.append(inner.as_str());
                    r.append(")");
                    assert(r@ =~= token_text(*t));
                },
                Delimiter::Bracket => {
                    proof { reveal_strlit("["); reveal_strlit("]"); }
                    r.append("[");
                    r.append(inner.as_str());
                    r.append("]");
                    assert(r@ =~= token_text(*t));
                },
                Delimiter::Brace => {
                    proof { reveal_strlit("{ "); reveal_strlit(" "); reveal_strlit("}"); }
                    r.append("{ ");
                    r.append(inner.as_str());
                    if v.len() > 0 {
                        r.append(" ");
                    }
                    r.append("}");
                    assert(r@ =~= token_text(*t));
                },
            }
            r
        },
    }
}

/// How the tokens from `from` up to `to` are printed.
fn range_text(ts: &Vec<Token>, from: usize, to: usize) -> (r: String)
    requires
        from <= to <= ts@.len(),
    ensures
        r@ == stream_text(ts@.subrange(from as int, to as int)),
    decreases ts@, 1nat,
{
    let mut r = String::new();
    let mut k: usize = from;
    assert(stream_text(ts@.subrange(from as int, from as int)) =~= Seq::<char>::empty());
    while k < to
        invariant
            from <= k <= to <= ts@.len(),
            r@ == stream_text(ts@.subrange(from as int, k as int)),
            forall|j: int| 0 <= j < ts@.len() ==> decreases_to!(ts@ => #[trigger] ts@[j]),
        decreases to - k,
    {
        let piece = text_of(&ts[k]);
        let ghost before = r@;
        let ghost sub = ts@.subrange(from as int, k + 1);
        assert(sub.drop_last() =~= ts@.subrange(from as int, k as int));
        assert(sub.last() == ts@[k as int]);
        if k == from {
            r.append(piece.as_str());
            assert(r@ =~= stream_text(sub));
        } else {
            assert(sub[sub.len() - 2] == ts@[k - 1]);
            let joined = match &ts[k - 1] {
                Token::Punct(_, j) => *j,
                _ => false,
            };
            if !joined {
                proof { reveal_strlit(" "); }
                r.append(" ");
            }
            r.append(piece.as_str());
            assert(r@ =~= stream_text(sub));
        }
        k = k + 1;
    }
    r
}

/// Whether the token at `p` is the punctuation character `c`.
fn punct_at(ts: &Vec<Token>, p: usize, c: char) -> (r: bool)
    ensures
        r == at_punct(ts@, p as int, c),
{
    if p < ts.len() {
        match &ts[p] {
            Token::Punct(x, _) => *x == c,
            _ => false,
        }
    } else {
        false
    }
}

/// Whether the tokens at `p` are `c` joined to a second `c`.
fn pair_at(ts: &Vec<Token>, p: usize, c: char) -> (r: bool)
    ensures
        r == at_pair(ts@, p as int, c),
{
    if p < ts.len() && ts.len() - p > 1 {
        let first = match &ts[p] {
            Token::Punct(x, j) => *x == c && *j,
            _ => false,
        };
        let second = match &ts[p + 1] {
            Token::Punct(y, _) => *y == c,
            _ => false,
        };
        first && second
    } else {
        false
    }
}

/// Whether the token at `p` is an identifier that can be used as a name.
fn name_token_at(ts: &Vec<Token>, p: usize) -> (r: bool)
    ensures
        r == at_name(ts@, p as int),
{
    if p < ts.len() {
        match &ts[p] {
            Token::Ident(_, ok) => *ok,
            _ => false,
        }
    } else {
        false
    }
}

/// Whether the token at `p` is the keyword `if`.
fn if_at(ts: &Vec<Token>, p: usize) -> (r: bool)
    ensures
        r == at_if(ts@, p as int),
{
    if p < ts.len() {
        match &ts[p] {
            Token::Ident(s, _) => {
                let kw = "if".to_string();
                *s == kw
            },
            _ => false,
        }
    } else {
        false
    }
}

/// Whether the token at `p` is a group in parentheses.
fn paren_at(ts: &Vec<Token>, p: usize) -> (r: bool)
    ensures
        r == at_paren(ts@, p as int),
{
    if p < ts.len() {
        match &ts[p] {
            Token::Group(d, _) => *d == Delimiter::Parenthesis,
            _ => false,
        }
    } else {
        false
    }
}

/// The value of the string literal at `p`, if there is one.
fn str_value_at(ts: &Vec<Token>, p: usize) -> (r: Option<String>)
    ensures
        match r {
            Some(v) => str_at(ts@, p as int) == Some(v@),
            None => str_at(ts@, p as int) is None,
        },
{
    if p < ts.len() {
        match &ts[p] {
            Token::Literal(_, Some(v)) => Some(v.clone()),
            _ => None,
        }
    } else {
        None
    }
}

/// Where the comparison of a state that goes on from `q` ends.
fn find_state_end(ts: &Vec<Token>, q: usize) -> (r: usize)
    requires
        q <= ts@.len(),
    ensures
        r as int == state_end(ts@, q as int),
        q <= r <= ts@.len(),
{
    let mut k = q;
    while k < ts.len() && !punct_at(ts, k, ',') && !pair_at(ts, k, '|') && !pair_at(ts, k, '&')
        invariant
            q <= k <= ts@.len(),
            state_end(ts@, k as int) == state_end(ts@, q as int),
        decreases ts@.len() - k,
    {
        k = k + 1;
    }
    k
}

/// `acc` with `x` appended, negated where `neg` says so.
fn push_condition(acc: &mut Vec<LogicalExpression>, neg: bool, x: LogicalExpression)
    ensures
        conds_view(final(acc)@) == push_cond(conds_view(old(acc)@), neg, cond_view(x)),
{
    let ghost before = acc@;
    let ghost xv = cond_view(x);
    if neg {
        let y = LogicalExpression::Not(Box::new(x));
        assert(cond_view(y) == CondView::Not(Box::new(xv)));
        acc.push(y);
        assert(acc@.drop_last() =~= before);
        assert(conds_view(acc@) == conds_view(acc@.drop_last()).push(cond_view(acc@.last())));
    } else {
        acc.push(x);
        assert(acc@.drop_last() =~= before);
        assert(conds_view(acc@) == conds_view(acc@.drop_last()).push(cond_view(acc@.last())));
    }
}

/// The rules after the group rule, applied in order at `p`.
fn apply_rest(ts: &Vec<Token>, acc: &mut Vec<LogicalExpression>, neg: &mut bool, p: &mut usize)
    requires
        *old(p) <= ts@.len(),
    ensures
        (conds_view(final(acc)@), *final(neg), *final(p) as int) == after_rest(ts@, (conds_view(old(acc)@), *old(neg), *old(p) as int)),
        *old(p) <= *final(p) <= ts@.len(),
{
    let ghost st0: ReadState = (conds_view(acc@), *neg, *p as int);
    match str_value_at(ts, *p) {
        Some(v) => {
            let cur = *p;
            assert(cur < ts.len());
            push_condition(acc, *neg, LogicalExpression::Signal(v));
            *neg = false;
            *p = cur + 1;
        },
        None => {},
    }
    let ghost st1: ReadState = (conds_view(acc@), *neg, *p as int);
    assert(st1 == after_signal(ts@, st0));
    if name_token_at(ts, *p) {
        let cur = *p;
        assert(cur < ts.len());
        let t = match &ts[cur] {
            Token::Ident(s, _) => s.clone(),
            _ => String::new(),
        };
        let q = find_state_end(ts, cur + 1);
        let text = range_text(ts, cur, q);
        push_condition(acc, *neg, LogicalExpression::State(t, text));
        *neg = false;
        *p = q;
    }
    let ghost st2: ReadState = (conds_view(acc@), *neg, *p as int);
    assert(st2 == after_state(ts@, st1));
    if punct_at(ts, *p, '!') {
        let cur = *p;
        assert(cur < ts.len());
        *neg = true;
        *p = cur + 1;
    }
    let ghost st3: ReadState = (conds_view(acc@), *neg, *p as int);
    assert(st3 == after_not(ts@, st2));
    if pair_at(ts, *p, '|') {
        let ghost before = acc@;
        let cur = *p;
        assert(cur + 1 < ts.len());
        acc.push(LogicalExpression::Operator(LogicalOperator::Or));
        assert(acc@.drop_last() =~= before);
        assert(conds_view(acc@) == conds_view(acc@.drop_last()).push(cond_view(acc@.last())));
        *p = cur + 2;
    }
    let ghost st4: ReadState = (conds_view(acc@), *neg, *p as int);
    assert(st4 == after_operator(ts@, st3, '|', LogicalOperator::Or));
    if pair_at(ts, *p, '&') {
        let ghost before = acc@;
        let cur = *p;
        assert(cur + 1 < ts.len());
        acc.push(LogicalExpression::Operator(LogicalOperator::And));
        assert(acc@.drop_last() =~= before);
        assert(conds_view(acc@) == conds_view(acc@.drop_last()).push(cond_view(acc@.last())));
        *p = cur + 2;
    }
}

/// Reads conditions from `start` on, as `cond_loop` says; none where
/// reading gets stuck.
fn read_conditions(ts: &Vec<Token>, start: usize) -> (r: Option<(Vec<LogicalExpression>, usize, bool)>)
    requires
        start <= ts@.len(),
    ensures
        match r {
            Some((l, e, u)) => cond_loop(ts@, start as int, Seq::empty(), false) == CondRead::Done(conds_view(l@), e as int, u)
                && start <= e <= ts@.len(),
            None => cond_loop(ts@, start as int, Seq::empty(), false) is Stuck,
        },
    decreases ts@,
{
    let ghost target = cond_loop(ts@, start as int, Seq::empty(), false);
    let mut acc: Vec<LogicalExpression> = Vec::new();
    let mut neg = false;
    let mut p = start;
    let mut unexp = false;
    assert(conds_view(acc@) =~= Seq::<CondView>::empty());
    while !(p >= ts.len() || punct_at(ts, p, ','))
        invariant
            start <= p <= ts@.len(),
            target == cond_loop(ts@, start as int, Seq::empty(), false),
            target == (match cond_loop(ts@, p as int, conds_view(acc@), neg) {
                CondRead::Done(l, e, u) => CondRead::Done(l, e, unexp || u),
                CondRead::Stuck => CondRead::Stuck,
            }),
            forall|j: int| 0 <= j < ts@.len() ==> decreases_to!(ts@ => #[trigger] ts@[j]),
        decreases ts@.len() - p,
    {
        let ghost round = cond_round(ts@, p as int, conds_view(acc@), neg);
        let p0 = p;
        let ghost here = cond_loop(ts@, p as int, conds_view(acc@), neg);
        let mut u1 = false;
        if paren_at(ts, p) {
            match &ts[p] {
                Token::Group(_, v) => {
                    assert(decreases_to!(ts@ => ts@[p as int]));
                    match read_conditions(v, 0) {
                        Some((l, e, u)) => {
                            u1 = u || e < v.len();
                            push_condition(&mut acc, neg, LogicalExpression::Grouped(l));
                            neg = false;
                            p = p + 1;
                        },
                        None => {
                            assert(round is None);
                            assert(here is Stuck);
                            return None;
                        },
                    }
                },
                _ => {},
            }
        }
        apply_rest(ts, &mut acc, &mut neg, &mut p);
        assert(round == Some(((conds_view(acc@), neg, p as int), u1)));
        if p <= p0 {
            assert(here is Stuck);
            return None;
        }
        unexp = unexp || u1;
    }
    Some((acc, p, unexp))
}

/// A change to a scheduling graph, to be made.
#[derive(Debug)]
pub enum GraphStep {
    Node(DependencyType),
    Dep(DependencyType, DependencyType),
}

impl View for GraphStep {
    type V = GraphOp;

    open spec fn view(&self) -> GraphOp {
        match self {
            GraphStep::Node(n) => GraphOp::Node(n@),
            GraphStep::Dep(f, t) => GraphOp::Dep(f@, t@),
        }
    }
}

/// The views of a list of changes.
pub open spec fn steps_view(s: Seq<GraphStep>) -> Seq<GraphOp> {
    s.map_values(|x: GraphStep| x@)
}

/// A node waits for no more nodes than there are dependencies.
proof fn lemma_degree_le_deps(ops: Seq<GraphOp>, n: NodeView)
    ensures
        0 <= ops_degree(ops, n) <= ops_deps(ops),
    decreases ops.len(),
{
    if ops.len() > 0 {
        lemma_degree_le_deps(ops.drop_last(), n);
    }
}

/// The empty graph is the one no changes build.
proof fn lemma_empty_graph(g: DependencyGraph)
    requires
        g.wf(),
        g.dependents@.len() == 0,
        g.in_degrees@.len() == 0,
    ensures
        graph_is(g, Seq::empty()),
{
}

/// Makes the changes `steps` to `g`, in order.
fn apply_steps(g: &mut DependencyGraph, steps: &Vec<GraphStep>, Ghost(base): Ghost<Seq<GraphOp>>)
    requires
        graph_is(*old(g), base),
        ops_deps(base) + ops_deps(steps_view(steps@)) <= usize::MAX,
    ensures
        graph_is(*final(g), base + steps_view(steps@)),
{
    let ghost sv = steps_view(steps@);
    let mut i: usize = 0;
    assert(base + sv.take(0) =~= base);
    while i < steps.len()
        invariant
            i <= steps@.len(),
            sv == steps_view(steps@),
            ops_deps(base) + ops_deps(sv) <= usize::MAX,
            graph_is(*g, base + sv.take(i as int)),
        decreases steps@.len() - i,
    {
        let ghost cur = base + sv.take(i as int);
        let ghost next = base + sv.take(i + 1);
        assert(next =~= cur.push(sv[i as int]));
        assert(next.drop_last() =~= cur);
        match &steps[i] {
            GraphStep::Node(n) => {
                g.add_node(n.duplicate());
            },
            GraphStep::Dep(f, t) => {
                proof {
                    lemma_degree_le_deps(cur, f@);
                    lemma_deps_append(base, sv.take(i as int));
                    lemma_deps_append(sv.take(i as int), sv.skip(i as int));
                    assert(sv.take(i as int) + sv.skip(i as int) =~= sv);
                    lemma_deps_append(seq![sv[i as int]], sv.skip(i + 1));
                    assert(seq![sv[i as int]] + sv.skip(i + 1) =~= sv.skip(i as int));
                    assert(seq![sv[i as int]].drop_last() =~= Seq::<GraphOp>::empty());
                    lemma_deps_nonneg(sv.skip(i + 1));
                    lemma_deps_nonneg(sv.take(i as int));
                    lemma_deps_nonneg(base);
                    assert(sv[i as int] == steps@[i as int]@);
                    assert(sv[i as int] is Dep);
                    let one = seq![sv[i as int]];
                    assert(one.drop_last() =~= Seq::<GraphOp>::empty());
                    assert(one.last() == sv[i as int]);
                    assert(ops_deps(Seq::<GraphOp>::empty()) == 0);
                    assert(ops_deps(one) == 1);
                    assert(g.degree(f@) <= ops_deps(base) + ops_deps(sv.take(i as int)));
                    assert(ops_deps(sv.take(i as int)) + 1 <= ops_deps(sv));
                }
                g.add_dependency(f.duplicate(), t.duplicate());
            },
        }
        i = i + 1;
    }
    assert(sv.take(i as int) =~= sv);
}

/// Dependencies count up over a concatenation.
proof fn lemma_deps_append(a: Seq<GraphOp>, b: Seq<GraphOp>)
    ensures
        ops_deps(a + b) == ops_deps(a) + ops_deps(b),
    decreases b.len(),
{
    if b.len() == 0 {
        assert(a + b =~= a);
    } else {
        lemma_deps_append(a, b.drop_last());
        assert((a + b).drop_last() =~= a + b.drop_last());
    }
}

proof fn lemma_deps_nonneg(a: Seq<GraphOp>)
    ensures
        ops_deps(a) >= 0,
    decreases a.len(),
{
    if a.len() > 0 {
        lemma_deps_nonneg(a.drop_last());
    }
}

/// What an entry read says, to be applied.
pub struct EntryParts {
    pub graph: u8,
    pub steps: Vec<GraphStep>,
    pub task: Option<(String, TaskType, Option<LogicalExpression>)>,
    pub path: Option<String>,
    pub package: Option<String>,
}

/// The view of a task with its run condition.
pub open spec fn task_part_view(t: Option<(String, TaskType, Option<LogicalExpression>)>) -> Option<(Seq<char>, TaskType, Option<CondView>)> {
    match t {
        Some((j, ty, c)) => Some((j@, ty, match c { Some(x) => Some(cond_view(x)), None => None })),
        None => None,
    }
}

impl View for EntryParts {
    type V = EntryView;

    open spec fn view(&self) -> EntryView {
        EntryView {
            graph: self.graph as int,
            ops: steps_view(self.steps@),
            task: task_part_view(self.task),
            path: match self.path { Some(p) => Some(p@), None => None },
            package: match self.package { Some(p) => Some(p@), None => None },
        }
    }
}

/// The five relation words are distinct.
proof fn lemma_relation_words()
    ensures
        "before"@.len() == 6,
        "after"@.len() == 5,
        "before_group"@.len() == 12,
        "after_group"@.len() == 11,
        "in_group"@.len() == 8,
{
    reveal_strlit("before");
    reveal_strlit("after");
    reveal_strlit("before_group");
    reveal_strlit("after_group");
    reveal_strlit("in_group");
}

/// Whether `s` is the word `w`.
fn word_is(s: &String, w: &str) -> (r: bool)
    ensures
        r == (s@ == w@),
{
    let t = w.to_string();
    *s == t
}

/// The text of the name at `p`.
fn name_text(ts: &Vec<Token>, p: usize) -> (r: String)
    requires
        at_name(ts@, p as int),
    ensures
        r@ == name_at(ts@, p as int),
{
    match &ts[p] {
        Token::Ident(s, _) => s.clone(),
        _ => String::new(),
    }
}

/// A task node.
fn task_dep(s: &String) -> (r: DependencyType)
    ensures
        r@ == task_node(s@),
{
    DependencyType::Task(s.clone())
}

/// A group's start node.
fn start_dep(s: &String) -> (r: DependencyType)
    ensures
        r@ == start_node(s@),
{
    DependencyType::GroupStart(s.clone())
}

/// A group's end node.
fn end_dep(s: &String) -> (r: DependencyType)
    ensures
        r@ == end_node(s@),
{
    DependencyType::GroupEnd(s.clone())
}

/// Which relation word `rel` is: 0 before, 1 after, 2 before_group, 3
/// after_group, 4 in_group.
fn relation_index(rel: &String) -> (r: Option<u8>)
    ensures
        r is Some <==> is_relation(rel@),
        r == Some(0u8) <==> rel@ == "before"@,
        r == Some(1u8) <==> rel@ == "after"@,
        r == Some(2u8) <==> rel@ == "before_group"@,
        r == Some(3u8) <==> rel@ == "after_group"@,
        r == Some(4u8) <==> rel@ == "in_group"@,
{
    proof {
        lemma_relation_words();
    }
    if word_is(rel, "before") {
        Some(0)
    } else if word_is(rel, "after") {
        Some(1)
    } else if word_is(rel, "before_group") {
        Some(2)
    } else if word_is(rel, "after_group") {
        Some(3)
    } else if word_is(rel, "in_group") {
        Some(4)
    } else {
        None
    }
}

/// The changes of a group entry.
fn group_steps(k: u8, j: &String, t: &String) -> (r: Vec<GraphStep>)
    requires
        k <= 4,
    ensures
        steps_view(r@) == group_ops(
            if k == 0 { "before"@ } else if k == 1 { "after"@ } else if k == 2 { "before_group"@ } else if k == 3 { "after_group"@ } else { "in_group"@ },
            j@,
            t@,
        ),
        2 * ops_deps(steps_view(r@)) <= 4,
{
    proof {
        lemma_relation_words();
    }
    let mut r: Vec<GraphStep> = Vec::new();
    r.push(GraphStep::Node(start_dep(j)));
    r.push(GraphStep::Node(end_dep(j)));
    if k == 0 {
        r.push(GraphStep::Node(task_dep(t)));
        r.push(GraphStep::Dep(end_dep(j), task_dep(t)));
    } else if k == 1 {
        r.push(GraphStep::Node(task_dep(t)));
        r.push(GraphStep::Dep(task_dep(t), start_dep(j)));
    } else if k == 2 {
        r.push(GraphStep::Node(start_dep(t)));
        r.push(GraphStep::Node(end_dep(t)));
        r.push(GraphStep::Dep(end_dep(j), start_dep(t)));
    } else if k == 3 {
        r.push(GraphStep::Node(start_dep(t)));
        r.push(GraphStep::Node(end_dep(t)));
        r.push(GraphStep::Dep(end_dep(t), start_dep(j)));
    } else {
        r.push(GraphStep::Node(start_dep(t)));
        r.push(GraphStep::Node(end_dep(t)));
        r.push(GraphStep::Dep(start_dep(t), start_dep(j)));
        r.push(GraphStep::Dep(end_dep(j), end_dep(t)));
    }
    proof {
        let rel = if k == 0 { "before"@ } else if k == 1 { "after"@ } else if k == 2 { "before_group"@ } else if k == 3 { "after_group"@ } else { "in_group"@ };
        assert(steps_view(r@) =~= group_ops(rel, j@, t@));
        let v = steps_view(r@);
        reveal_with_fuel(ops_deps, 7);
    }
    r
}

/// The changes a relation of the task `j` adds, after the task's node.
fn task_steps(k: u8, j: &String, t: &String) -> (r: Vec<GraphStep>)
    requires
        k <= 4,
    ensures
        steps_view(r@) == seq![GraphOp::Node(task_node(j@))] + task_ops(
            if k == 0 { "before"@ } else if k == 1 { "after"@ } else if k == 2 { "before_group"@ } else if k == 3 { "after_group"@ } else { "in_group"@ },
            j@,
            t@,
        ),
        2 * ops_deps(steps_view(r@)) <= 4,
{
    proof {
        lemma_relation_words();
    }
    let mut r: Vec<GraphStep> = Vec::new();
    r.push(GraphStep::Node(task_dep(j)));
    if k == 0 {
        r.push(GraphStep::Node(task_dep(t)));
        r.push(GraphStep::Dep(task_dep(j), task_dep(t)));
    } else if k == 1 {
        r.push(GraphStep::Node(task_dep(t)));
        r.push(GraphStep::Dep(task_dep(t), task_dep(j)));
    } else if k == 2 {
        r.push(GraphStep::Node(start_dep(t)));
        r.push(GraphStep::Node(end_dep(t)));
        r.push(GraphStep::Dep(task_dep(j), start_dep(t)));
    } else if k == 3 {
        r.push(GraphStep::Node(start_dep(t)));
        r.push(GraphStep::Node(end_dep(t)));
        r.push(GraphStep::Dep(end_dep(t), task_dep(j)));
    } else {
        r.push(GraphStep::Node(start_dep(t)));
        r.push(GraphStep::Node(end_dep(t)));
        r.push(GraphStep::Dep(start_dep(t), task_dep(j)));
        r.push(GraphStep::Dep(task_dep(j), end_dep(t)));
    }
    proof {
        let rel = if k == 0 { "before"@ } else if k == 1 { "after"@ } else if k == 2 { "before_group"@ } else if k == 3 { "after_group"@ } else { "in_group"@ };
        assert(steps_view(r@) =~= seq![GraphOp::Node(task_node(j@))] + task_ops(rel, j@, t@));
        reveal_with_fuel(ops_deps, 6);
    }
    r
}

/// The words that begin an entry are distinct.
proof fn lemma_entry_words()
    ensures
        "update"@.len() == 6,
        "fixed_update"@.len() == 12,
        "sync_update"@.len() == 11,
        "long_update"@.len() == 11,
        "setup"@.len() == 5,
        "sync_update"@ != "long_update"@,
        "path"@.len() == 4,
        "package"@.len() == 7,
        "group"@.len() == 5,
        "group"@ != "setup"@,
{
    reveal_strlit("update");
    reveal_strlit("fixed_update");
    reveal_strlit("sync_update");
    reveal_strlit("long_update");
    reveal_strlit("setup");
    reveal_strlit("path");
    reveal_strlit("package");
    reveal_strlit("group");
    assert("sync_update"@[0] != "long_update"@[0]);
    assert("group"@[0] != "setup"@[0]);
}

/// When the task of a task word runs, and which graph its entry changes.
fn task_word(w: &String) -> (r: Option<(TaskType, u8)>)
    ensures
        r is Some <==> is_task_word(w@),
        r matches Some((ty, g)) ==> ty == task_word_type(w@) && g as int == task_word_graph(w@) && g <= 2,
{
    proof {
        lemma_entry_words();
    }
    if word_is(w, "update") {
        Some((TaskType::Update, 0))
    } else if word_is(w, "fixed_update") {
        Some((TaskType::Fixed, 0))
    } else if word_is(w, "sync_update") {
        Some((TaskType::Sync, 2))
    } else if word_is(w, "long_update") {
        Some((TaskType::Long, 0))
    } else if word_is(w, "setup") {
        Some((TaskType::Setup, 1))
    } else {
        None
    }
}

/// The message when the task word `w` is not followed by a string literal.
fn task_word_message(w: &String) -> (r: String)
    requires
        is_task_word(w@),
    ensures
        r@ == task_word_msg(w@),
{
    proof {
        lemma_entry_words();
    }
    if word_is(w, "update") {
        "String literal of name of a task.\nExample: (update \"normal_task\")".to_string()
    } else if word_is(w, "fixed_update") {
        "String literal of name of a task.\nExample: (fixed_update \"fixed_task\")".to_string()
    } else if word_is(w, "sync_update") {
        "String literal of name of a task.\nExample: (sync_update \"sync_task\")".to_string()
    } else if word_is(w, "long_update") {
        "String literal of name of a task.\nExample: (long_update \"long_task\")".to_string()
    } else {
        "String literal of name of a task.\nExample: (setup \"setup_task\")".to_string()
    }
}

/// The message when the group relation `k` is not followed by a string
/// literal.
fn group_relation_message(k: u8, rel: &String) -> (r: String)
    requires
        k <= 4,
        k == 0 ==> rel@ == "before"@,
        k == 1 ==> rel@ == "after"@,
        k == 2 ==> rel@ == "before_group"@,
        k == 3 ==> rel@ == "after_group"@,
        k == 4 ==> rel@ == "in_group"@,
    ensures
        r@ == group_relation_msg(rel@),
{
    proof {
        lemma_relation_words();
    }
    if k == 0 {
        "String literal of name of a task.\nExample: (group \"example_group\" before \"example_task\")".to_string()
    } else if k == 1 {
        "String literal of name of a task.\nExample: (group \"example_group\" after \"example_task\")".to_string()
    } else if k == 2 {
        "String literal of name of a group.\nExample: (group \"example_group\" before_group \"example_group\")".to_string()
    } else if k == 3 {
        "String literal of name of a group.\nExample: (group \"example_group\" after_group \"example_group\")".to_string()
    } else {
        "String literal of name of a group.\nExample: (group \"example_group\" in_group \"example_group\")".to_string()
    }
}

/// The message when the task relation `k` is not followed by a string
/// literal.
fn task_relation_message(k: u8, rel: &String) -> (r: String)
    requires
        k <= 4,
        k == 0 ==> rel@ == "before"@,
        k == 1 ==> rel@ == "after"@,
        k == 2 ==> rel@ == "before_group"@,
        k == 3 ==> rel@ == "after_group"@,
        k == 4 ==> rel@ == "in_group"@,
    ensures
        r@ == task_relation_msg(rel@),
{
    proof {
        lemma_relation_words();
    }
    if k == 0 {
        "String literal of name of a task.\nExample: (update \"example_task\" before \"example_task\")".to_string()
    } else if k == 1 {
        "String literal of name of a task.\nExample: (update \"example_task\" after \"example_task\")".to_string()
    } else if k == 2 {
        "String literal of name of a group.\nExample: (update \"example_task\" before_group \"example_group\")".to_string()
    } else if k == 3 {
        "String literal of name of a group.\nExample: (update \"example_task\" after_group \"example_group\")".to_string()
    } else {
        "String literal of name of a group.\nExample: (Setup \"example_task\" in_group \"example_group\")".to_string()
    }
}

/// What a read entry gives, checked against what `entry_read` says.
pub open spec fn entry_ok(ts: Seq<Token>, p: int, r: Result<(EntryParts, usize, bool), String>) -> bool {
    match r {
        Ok((e, q, u)) => {
            &&& entry_read(ts, p) == EntryRead::Done(e@, q as int, u)
            &&& p < q <= ts.len()
            &&& e.graph <= 2
            &&& 2 * ops_deps(e@.ops) <= q - p
        },
        Err(m) => entry_read(ts, p) == EntryRead::Fail(m@),
    }
}

/// The end of a task entry at `q`, as `cond_tail` says.
fn read_cond_tail(ts: &Vec<Token>, q: usize, j: String, ty: TaskType, graph: u8, steps: Vec<GraphStep>)
    -> (r: Option<Result<(EntryParts, usize, bool), String>>)
    requires
        q <= ts@.len(),
        graph <= 2,
    ensures
        match r {
            Some(Ok((e, e_end, u))) => {
                &&& cond_tail(ts@, q as int, j@, ty, graph as int, steps_view(steps@)) == EntryRead::Done(e@, e_end as int, u)
                &&& q <= e_end <= ts@.len()
                &&& e.graph == graph
                &&& e.steps@ == steps@
            },
            Some(Err(_)) => false,
            None => cond_tail(ts@, q as int, j@, ty, graph as int, steps_view(steps@)) is Stuck,
        },
{
    let n = ts.len();
    let ghost sv = steps_view(steps@);
    if if_at(ts, q) {
        assert(q < n);
        let (l, e, u) = match read_conditions(ts, q + 1) {
            Some(x) => x,
            None => return None,
        };
        let c = LogicalExpression::Grouped(l);
        let parts = EntryParts { graph, steps, task: Some((j, ty, Some(c))), path: None, package: None };
        Some(Ok((parts, e, u)))
    } else {
        let parts = EntryParts { graph, steps, task: Some((j, ty, None)), path: None, package: None };
        Some(Ok((parts, q, false)))
    }
}

/// The rest of a task entry, as `task_tail` says.
fn read_task_tail(ts: &Vec<Token>, q: usize, j: String, ty: TaskType, graph: u8) -> (r: Option<Result<(EntryParts, usize, bool), String>>)
    requires
        q <= ts@.len(),
        graph <= 2,
    ensures
        match r {
            Some(Ok((e, e_end, u))) => {
                &&& task_tail(ts@, q as int, j@, ty, graph as int) == EntryRead::Done(e@, e_end as int, u)
                &&& q <= e_end <= ts@.len()
                &&& e.graph == graph
                &&& 2 * ops_deps(e@.ops) <= e_end - q + 2
            },
            Some(Err(m)) => task_tail(ts@, q as int, j@, ty, graph as int) == EntryRead::Fail(m@),
            None => task_tail(ts@, q as int, j@, ty, graph as int) is Stuck,
        },
{
    let n = ts.len();
    if name_token_at(ts, q) {
        let rel = name_text(ts, q);
        match relation_index(&rel) {
            None => Some(Err("Expected before, after, before_group, after_group or in_group.".to_string())),
            Some(k) => {
                proof {
                    lemma_relation_words();
                }
                match str_value_at(ts, q + 1) {
                    None => Some(Err(task_relation_message(k, &rel))),
                    Some(t) => {
                        let steps = task_steps(k, &j, &t);
                        assert(q + 1 < n);
                        let r = read_cond_tail(ts, q + 2, j, ty, graph, steps);
                        r
                    },
                }
            },
        }
    } else {
        let mut steps: Vec<GraphStep> = Vec::new();
        steps.push(GraphStep::Node(task_dep(&j)));
        proof {
            assert(steps_view(steps@) =~= seq![GraphOp::Node(task_node(j@))]);
            let one = steps_view(steps@);
            assert(one.drop_last() =~= Seq::<GraphOp>::empty());
            assert(ops_deps(Seq::<GraphOp>::empty()) == 0);
            assert(ops_deps(one) == 0);
        }
        read_cond_tail(ts, q, j, ty, graph, steps)
    }
}

/// The rest of a group entry, as `group_tail` says.
fn read_group_tail(ts: &Vec<Token>, q: usize) -> (r: Result<(EntryParts, usize, bool), String>)
    requires
        q <= ts@.len(),
    ensures
        match r {
            Ok((e, e_end, u)) => {
                &&& group_tail(ts@, q as int) == EntryRead::Done(e@, e_end as int, u)
                &&& q + 2 < e_end <= ts@.len()
                &&& e.graph <= 2
                &&& 2 * ops_deps(e@.ops) <= 4
            },
            Err(m) => group_tail(ts@, q as int) == EntryRead::Fail(m@),
        },
{
    proof {
        reveal_strlit("setup");
    }
    let n = ts.len();
    let named = name_token_at(ts, q);
    let setup = named && word_is(&name_text(ts, q), "setup");
    if named && !setup {
        return Err("Expected setup.\nExample: (group setup \"example_group\" before \"example_task\")".to_string());
    }
    let q1 = if setup { q + 1 } else { q };
    let graph: u8 = if setup { 1 } else { 0 };
    match str_value_at(ts, q1) {
        None => Err("String literal of name of a group.\nExample: (group \"group_name\" before \"another_group\")".to_string()),
        Some(j) => {
            assert(q1 < n);
            if !name_token_at(ts, q1 + 1) {
                return Err("Expected an Ident".to_string());
            }
            let rel = name_text(ts, q1 + 1);
            match relation_index(&rel) {
                None => Err("Expected before, after, before_group, after_group or in_group.".to_string()),
                Some(k) => {
                    proof {
                        lemma_relation_words();
                    }
                    match str_value_at(ts, q1 + 2) {
                        None => Err(group_relation_message(k, &rel)),
                        Some(t) => {
                            let steps = group_steps(k, &j, &t);
                            let parts = EntryParts { graph, steps, task: None, path: None, package: None };
                            Ok((parts, q1 + 3, false))
                        },
                    }
                },
            }
        },
    }
}

/// Reads one entry at `p`, as `entry_read` says.
fn read_entry(ts: &Vec<Token>, p: usize) -> (r: Option<Result<(EntryParts, usize, bool), String>>)
    requires
        p < ts@.len(),
    ensures
        match r {
            Some(x) => entry_ok(ts@, p as int, x),
            None => entry_read(ts@, p as int) is Stuck,
        },
{
    proof {
        lemma_entry_words();
    }
    let n = ts.len();
    if !name_token_at(ts, p) {
        return Some(Err("Expected and Ident".to_string()));
    }
    let w = name_text(ts, p);
    if word_is(&w, "path") {
        match str_value_at(ts, p + 1) {
            Some(v) => {
                let parts = EntryParts { graph: 0, steps: Vec::new(), task: None, path: Some(v), package: None };
                assert(steps_view(parts.steps@) =~= Seq::<GraphOp>::empty());
                Some(Ok((parts, p + 2, false)))
            },
            None => Some(Err("String literal of the path of the package.\nExample: (path \"./src/lib\")".to_string())),
        }
    } else if word_is(&w, "package") {
        match str_value_at(ts, p + 1) {
            Some(v) => {
                let parts = EntryParts { graph: 0, steps: Vec::new(), task: None, path: None, package: Some(v) };
                assert(steps_view(parts.steps@) =~= Seq::<GraphOp>::empty());
                Some(Ok((parts, p + 2, false)))
            },
            None => Some(Err("String literal of name of a package.\nExample: (package \"package_name\")".to_string())),
        }
    } else {
        match task_word(&w) {
            Some((ty, graph)) => {
                match str_value_at(ts, p + 1) {
                    Some(j) => {
                        assert(p + 1 < n);
                        read_task_tail(ts, p + 2, j, ty, graph)
                    },
                    None => Some(Err(task_word_message(&w))),
                }
            },
            None => {
                if word_is(&w, "group") {
                    Some(read_group_tail(ts, p + 1))
                } else {
                    Some(Err("Expected path, update, fixed_update, sync_update, long_update, setup, group or package.".to_string()))
                }
            },
        }
    }
}

/// The tasks of a package by name, each with when it runs and its
/// condition's view.
pub open spec fn app_tasks_view(s: Seq<(String, (TaskType, Option<LogicalExpression>))>) -> Map<Seq<char>, (TaskType, Option<CondView>)> {
    as_map(s).map_values(|x: (TaskType, Option<LogicalExpression>)| (x.0, match x.1 {
        Some(c) => Some(cond_view(c)),
        None => None,
    }))
}

/// The package is what `v` says: named "main", with `v`'s path, tasks and
/// packages, and graphs built by `v`'s changes.
pub open spec fn app_matches(pkg: AppPackage, v: AppView) -> bool {
    &&& pkg.name@ == "main"@
    &&& pkg.path@ == v.path
    &&& v.graphs.len() == 3
    &&& graph_is(pkg.runtime_dependency, v.graphs[0])
    &&& graph_is(pkg.setup_dependency, v.graphs[1])
    &&& graph_is(pkg.sync_dependency, v.graphs[2])
    &&& keys_unique(pkg.tasks@)
    &&& app_tasks_view(pkg.tasks@) == v.tasks
    &&& strs(pkg.packages@) == v.packages
}

/// The package of an empty input.
fn empty_app() -> (r: AppPackage)
    ensures
        app_matches(r, default_app()),
{
    let r = AppPackage::default();
    proof {
        reveal_strlit("./src");
        lemma_empty_graph(r.runtime_dependency);
        lemma_empty_graph(r.setup_dependency);
        lemma_empty_graph(r.sync_dependency);
        assert(app_tasks_view(r.tasks@) =~= Map::<Seq<char>, (TaskType, Option<CondView>)>::empty());
        assert(strs(r.packages@) =~= Seq::<Seq<char>>::empty());
    }
    r
}

/// Reads the package from `p` on, as `app_read` says.
fn read_app(ts: &Vec<Token>, p: usize) -> (r: Option<Result<(AppPackage, usize, bool), String>>)
    requires
        p <= ts@.len(),
    ensures
        match r {
            Some(Ok((pkg, e, u))) => {
                &&& app_read(ts@, p as int) is Done
                &&& app_read(ts@, p as int)->Done_1 == e as int
                &&& app_read(ts@, p as int)->Done_2 == u
                &&& app_matches(pkg, app_read(ts@, p as int)->Done_0)
                &&& p <= e <= ts@.len()
                &&& forall|k: int| 0 <= k < 3 ==> 2 * ops_deps(#[trigger] app_read(ts@, p as int)->Done_0.graphs[k]) <= e - p
            },
            Some(Err(m)) => app_read(ts@, p as int) == AppRead::Fail(m@),
            None => app_read(ts@, p as int) is Stuck,
        },
    decreases ts@.len() - p,
{
    if p >= ts.len() {
        let pkg = empty_app();
        return Some(Ok((pkg, p, false)));
    }
    match read_entry(ts, p) {
        None => None,
        Some(Err(m)) => Some(Err(m)),
        Some(Ok((e, p1, u1))) => {
            let ghost ev = e@;
            let (mut pkg, end, u, sub_v) = if punct_at(ts, p1, ',') {
                assert(p1 < ts@.len());
                match read_app(ts, p1 + 1) {
                    None => {
                        return None;
                    },
                    Some(Ok((sub, p2, u2))) => {
                        let ghost sv = app_read(ts@, p1 + 1)->Done_0;
                        (sub, p2, u1 || u2, Ghost(sv))
                    },
                    Some(Err(m)) => {
                        return Some(Err(m));
                    },
                }
            } else {
                (empty_app(), p1, u1, Ghost(default_app()))
            };
            let ghost sv = sub_v@;
            assert(app_matches(pkg, sv));
            assert(forall|k: int| 0 <= k < 3 ==> 2 * ops_deps(#[trigger] sv.graphs[k]) <= end - p1);
            let EntryParts { graph, steps, task, path, package } = e;
            pkg.path = match path {
                Some(x) => x,
                None => {
                    proof {
                        reveal_strlit("./src");
                    }
                    "./src".to_string()
                },
            };
            match package {
                Some(x) => {
                    let ghost before = pkg.packages@;
                    pkg.packages.push(x);
                    assert(strs(pkg.packages@) =~= strs(before).push(ev.package->Some_0));
                },
                None => {},
            }
            match task {
                Some((j, ty, c)) => {
                    let ghost cv = ev.task->Some_0.2;
                    let ghost t0 = pkg.tasks@;
                    insert_key(&mut pkg.tasks, j, (ty, c));
                    assert(app_tasks_view(pkg.tasks@) =~= app_tasks_view(t0).insert(ev.task->Some_0.0, (ty, cv)));
                },
                None => {},
            }
            let ghost want = combine(ev, sv);
            proof {
                let base = sv.graphs[graph as int];
                lemma_deps_append(base, steps_view(steps@));
                lemma_deps_nonneg(base);
                lemma_deps_nonneg(steps_view(steps@));
                assert(2 * ops_deps(base) <= end - p1);
            }
            if graph == 0 {
                apply_steps(&mut pkg.runtime_dependency, &steps, Ghost(sv.graphs[0]));
            } else if graph == 1 {
                apply_steps(&mut pkg.setup_dependency, &steps, Ghost(sv.graphs[1]));
            } else {
                apply_steps(&mut pkg.sync_dependency, &steps, Ghost(sv.graphs[2]));
            }
            proof {
                assert(want.graphs.len() == 3);
                assert forall|k: int| 0 <= k < 3 implies 2 * ops_deps(#[trigger] want.graphs[k]) <= end - p by {
                    if k == graph as int {
                        lemma_deps_append(sv.graphs[k], ev.ops);
                    }
                }
            }
            Some(Ok((pkg, end, u)))
        },
    }
}

impl AppPackage {
    /// Reads an application package from the tokens of the builder macro's
    /// arguments, as `parse` does, where reading ends; none where reading a
    /// condition gets stuck at a token that no rule takes, where `parse`
    /// would never return.
    pub fn parse_checked(tokens: &Vec<Token>) -> (r: Option<Result<AppPackage, String>>)
        ensures
            r is None <==> !app_terminates(tokens@),
            r matches Some(Ok(pkg)) ==> app_result(tokens@) is Ok && app_matches(pkg, app_result(tokens@)->Ok_0),
            r matches Some(Err(m)) ==> app_result(tokens@) == Err::<AppView, Seq<char>>(m@),
    {
        match read_app(tokens, 0) {
            None => None,
            Some(Ok((pkg, e, u))) => {
                if u || e < tokens.len() {
                    Some(Err("unexpected token".to_string()))
                } else {
                    Some(Ok(pkg))
                }
            },
            Some(Err(m)) => Some(Err(m)),
        }
    }

    /// Reads an application package from the tokens of the builder macro's
    /// arguments: the package that `app_result` says, or its error message.
    pub fn parse(tokens: &Vec<Token>) -> (r: Result<AppPackage, String>)
        requires
            app_terminates(tokens@),
        ensures
            match r {
                Ok(pkg) => app_result(tokens@) is Ok && app_matches(pkg, app_result(tokens@)->Ok_0),
                Err(m) => app_result(tokens@) == Err::<AppView, Seq<char>>(m@),
            },
    {
        match AppPackage::parse_checked(tokens) {
            Some(r) => r,
            None => {
                proof {
                    assert(false);
                }
                Err(String::new())
            },
        }
    }
}

impl LogicalExpression {
    /// Reads a run condition as `parse` does, where reading ends; none where
    /// it gets stuck at a token that no rule takes, where `parse` would never
    /// return.
    pub fn parse_checked(tokens: &Vec<Token>) -> (r: Option<Result<LogicalExpression, String>>)
        ensures
            r is None <==> cond_loop(tokens@, 0, Seq::empty(), false) is Stuck,
            match cond_loop(tokens@, 0, Seq::empty(), false) {
                CondRead::Done(l, e, u) => match r {
                    Some(Ok(c)) => !u && e == tokens@.len() && cond_view(c) == CondView::Grouped(l),
                    Some(Err(m)) => (u || e < tokens@.len()) && m@ == "unexpected token"@,
                    None => false,
                },
                CondRead::Stuck => r is None,
            },
    {
        match read_conditions(tokens, 0) {
            Some((l, e, u)) => {
                if u || e < tokens.len() {
                    Some(Err("unexpected token".to_string()))
                } else {
                    Some(Ok(LogicalExpression::Grouped(l)))
                }
            },
            None => None,
        }
    }

    /// Reads a run condition from tokens: the conditions up to the end, as
    /// a group. Tokens left over, at the end or inside a group, are an
    /// error.
    pub fn parse(tokens: &Vec<Token>) -> (r: Result<LogicalExpression, String>)
        requires
            cond_loop(tokens@, 0, Seq::empty(), false) is Done,
        ensures
            match cond_loop(tokens@, 0, Seq::empty(), false) {
                CondRead::Done(l, e, u) => match r {
                    Ok(c) => !u && e == tokens@.len() && cond_view(c) == CondView::Grouped(l),
                    Err(m) => (u || e < tokens@.len()) && m@ == "unexpected token"@,
                },
                CondRead::Stuck => false,
            },
    {
        match LogicalExpression::parse_checked(tokens) {
            Some(r) => r,
            None => {
                proof {
                    assert(false);
                }
                Err(String::new())
            },
        }
    }
}


/// The tokens are `update "J" after_group "G"`: the task word `update`, the
/// task's name, the relation `after_group` and the group's name.
pub open spec fn update_after_group(ts: Seq<Token>, j: Seq<char>, g: Seq<char>) -> bool {
    &&& ts.len() == 4
    &&& ts[0] matches Token::Ident(s, true) && s@ == "update"@
    &&& ts[1] matches Token::Literal(_, Some(v)) && v@ == j
    &&& ts[2] matches Token::Ident(s, true) && s@ == "after_group"@
    &&& ts[3] matches Token::Literal(_, Some(v)) && v@ == g
}

/// A task that runs after a group makes the group's end wait for it:
/// `update "J" after_group "G"` reads as a package whose runtime changes
/// make the end node of `G` (variant 1) the one node waiting for the task
/// node of `J` (variant 2), give that end node one node to wait for, and
/// give the start node of `G` (variant 0) and the task none.
pub proof fn lemma_after_group_waits_for_task(ts: Seq<Token>, j: Seq<char>, g: Seq<char>)
    requires
        update_after_group(ts, j, g),
    ensures
        app_terminates(ts),
        app_result(ts) is Ok,
        ops_dependents(app_result(ts)->Ok_0.graphs[0], (2int, j)) == seq![(1int, g)],
        ops_dependents(app_result(ts)->Ok_0.graphs[0], (0int, g)) == Seq::<NodeView>::empty(),
        ops_degree(app_result(ts)->Ok_0.graphs[0], (1int, g)) == 1,
        ops_degree(app_result(ts)->Ok_0.graphs[0], (0int, g)) == 0,
        ops_degree(app_result(ts)->Ok_0.graphs[0], (2int, j)) == 0,
        ops_node(app_result(ts)->Ok_0.graphs[0], (0int, g)),
        ops_node(app_result(ts)->Ok_0.graphs[0], (1int, g)),
        ops_node(app_result(ts)->Ok_0.graphs[0], (2int, j)),
{
    reveal_strlit("update");
    reveal_strlit("path");
    reveal_strlit("package");
    reveal_strlit("after_group");
    reveal_strlit("before");
    reveal_strlit("after");
    reveal_strlit("before_group");
    reveal_strlit("in_group");
    reveal_strlit("fixed_update");
    reveal_strlit("sync_update");
    reveal_strlit("long_update");
    reveal_strlit("setup");
    assert("update"@[0] != "path"@[0]);
    assert("update"@ != "path"@);
    assert("update"@[0] != "package"@[0]);
    assert("update"@ != "package"@);
    assert("after_group"@[0] != "before"@[0]);
    assert("after_group"@ != "before"@);
    assert("after_group"@.len() != "after"@.len());
    assert("after_group"@ != "after"@);
    assert("after_group"@ != "before_group"@);
    assert("update"@ != "sync_update"@);
    assert("update"@ != "setup"@);
    assert(at_name(ts, 0));
    assert(name_at(ts, 0) == "update"@);
    assert(str_at(ts, 1) == Some(j));
    assert(at_name(ts, 2));
    assert(name_at(ts, 2) == "after_group"@);
    assert(str_at(ts, 3) == Some(g));
    let ops = seq![GraphOp::Node(task_node(j))] + task_ops("after_group"@, j, g);
    assert(task_ops("after_group"@, j, g) == seq![GraphOp::Node(start_node(g)), GraphOp::Node(end_node(g)),
        GraphOp::Dep(end_node(g), task_node(j))]);
    let e = EntryView { task: Some((j, TaskType::Update, None)), ..plain_entry(0, ops) };
    assert(cond_tail(ts, 4, j, TaskType::Update, 0, ops) == EntryRead::Done(e, 4, false));
    assert(task_tail(ts, 2, j, TaskType::Update, 0) == EntryRead::Done(e, 4, false));
    assert(entry_read(ts, 0) == EntryRead::Done(e, 4, false));
    assert(!at_punct(ts, 4, ','));
    assert(app_read(ts, 0) == AppRead::Done(combine(e, default_app()), 4, false));
    let v = combine(e, default_app());
    assert(v.graphs[0] =~= ops);
    assert(ops =~= seq![GraphOp::Node((2int, j)), GraphOp::Node((0int, g)), GraphOp::Node((1int, g)),
        GraphOp::Dep((1int, g), (2int, j))]);
    reveal_with_fuel(ops_dependents, 5);
    reveal_with_fuel(ops_degree, 5);
    reveal_with_fuel(ops_node, 5);
    assert(ops.drop_last() =~= seq![GraphOp::Node((2int, j)), GraphOp::Node((0int, g)), GraphOp::Node((1int, g))]);
    assert(ops.drop_last().drop_last() =~= seq![GraphOp::Node((2int, j)), GraphOp::Node((0int, g))]);
    assert(ops.drop_last().drop_last().drop_last() =~= seq![GraphOp::Node((2int, j))]);
    assert(ops.drop_last().drop_last().drop_last().drop_last() =~= Seq::<GraphOp>::empty());
    assert(ops_dependents(ops, (2int, j)) =~= seq![(1int, g)]);
    assert(ops_dependents(ops, (0int, g)) =~= Seq::<NodeView>::empty());
}

/// The package read from `update "J" after_group "G"` has, in its runtime
/// graph, the end of the group `G` as the one node waiting for the task
/// `J`; that end waits for one node, and the group's start and the task
/// wait for none.
pub proof fn lemma_after_group_package(ts: Seq<Token>, j: Seq<char>, g: Seq<char>, pkg: AppPackage)
    requires
        update_after_group(ts, j, g),
        app_result(ts) is Ok,
        app_matches(pkg, app_result(ts)->Ok_0),
    ensures
        pkg.runtime_dependency.dependents_of((2int, j)) == seq![(1int, g)],
        pkg.runtime_dependency.dependents_of((0int, g)) == Seq::<NodeView>::empty(),
        pkg.runtime_dependency.degree((1int, g)) == 1,
        pkg.runtime_dependency.degree((0int, g)) == 0,
        pkg.runtime_dependency.degree((2int, j)) == 0,
        pkg.runtime_dependency.has_node((0int, g)),
        pkg.runtime_dependency.has_node((1int, g)),
        pkg.runtime_dependency.has_node((2int, j)),
{
    lemma_after_group_waits_for_task(ts, j, g);
    let ops = app_result(ts)->Ok_0.graphs[0];
    assert(graph_is(pkg.runtime_dependency, ops));
    assert(pkg.runtime_dependency.dependents_of((2int, j)) == ops_dependents(ops, (2int, j)));
    assert(pkg.runtime_dependency.dependents_of((0int, g)) == ops_dependents(ops, (0int, g)));
    assert(pkg.runtime_dependency.degree((1int, g)) == ops_degree(ops, (1int, g)));
    assert(pkg.runtime_dependency.degree((0int, g)) == ops_degree(ops, (0int, g)));
    assert(pkg.runtime_dependency.degree((2int, j)) == ops_degree(ops, (2int, j)));
    assert(pkg.runtime_dependency.has_node((0int, g)) == ops_node(ops, (0int, g)));
    assert(pkg.runtime_dependency.has_node((1int, g)) == ops_node(ops, (1int, g)));
    assert(pkg.runtime_dependency.has_node((2int, j)) == ops_node(ops, (2int, j)));
}


/// The tokens are one task entry `W "J" REL "T"`: a task word, the task's
/// name, a relation and the name of the task or group it relates to.
pub open spec fn one_task_entry(ts: Seq<Token>, w: Seq<char>, j: Seq<char>, rel: Seq<char>, t: Seq<char>) -> bool {
    &&& ts.len() == 4
    &&& ts[0] matches Token::Ident(s, true) && s@ == w
    &&& ts[1] matches Token::Literal(_, Some(v)) && v@ == j
    &&& ts[2] matches Token::Ident(s, true) && s@ == rel
    &&& ts[3] matches Token::Literal(_, Some(v)) && v@ == t
}

/// What one task entry `W "J" REL "T"` reads as. The task `J` is the one
/// task, with the kind its word names and no condition. Its changes go to
/// the setup graph (1) for `setup`, the sync graph (2) for `sync_update`,
/// and the runtime graph (0) otherwise; the other graphs stay empty. In
/// that graph, with task nodes of variant 2 and a group's start and end
/// nodes of variants 0 and 1: `before` makes `J` wait for `T`; `after`
/// makes `T` wait for `J`; `before_group` makes `J` wait for the start of
/// `T`; `after_group` makes the end of `T` wait for `J`; and `in_group`
/// makes `J` wait for the start of `T` and the end of `T` wait for `J`.
pub proof fn lemma_task_entry_reads(ts: Seq<Token>, w: Seq<char>, j: Seq<char>, rel: Seq<char>, t: Seq<char>)
    requires
        one_task_entry(ts, w, j, rel, t),
        w == "update"@ || w == "fixed_update"@ || w == "sync_update"@ || w == "long_update"@ || w == "setup"@,
        rel == "before"@ || rel == "after"@ || rel == "before_group"@ || rel == "after_group"@ || rel == "in_group"@,
    ensures
        app_terminates(ts),
        app_result(ts) is Ok,
        ({
            let v = app_result(ts)->Ok_0;
            let k: int = if w == "setup"@ { 1 } else if w == "sync_update"@ { 2 } else { 0 };
            let ops = v.graphs[k];
            &&& v.graphs.len() == 3
            &&& forall|x: int| 0 <= x < 3 && x != k ==> v.graphs[x].len() == 0
            &&& v.tasks == Map::<Seq<char>, (TaskType, Option<CondView>)>::empty().insert(j, (
                if w == "update"@ { TaskType::Update } else if w == "fixed_update"@ { TaskType::Fixed }
                else if w == "sync_update"@ { TaskType::Sync } else if w == "long_update"@ { TaskType::Long }
                else { TaskType::Setup }, None))
            &&& rel == "before"@ ==> ops_dependents(ops, (2int, t)) == seq![(2int, j)] && ops_degree(ops, (2int, j)) == 1
            &&& rel == "after"@ ==> ops_dependents(ops, (2int, j)) == seq![(2int, t)] && ops_degree(ops, (2int, t)) == 1
            &&& rel == "before_group"@ ==> ops_dependents(ops, (0int, t)) == seq![(2int, j)]
                && ops_degree(ops, (2int, j)) == 1 && ops_degree(ops, (0int, t)) == 0 && ops_degree(ops, (1int, t)) == 0
            &&& rel == "after_group"@ ==> ops_dependents(ops, (2int, j)) == seq![(1int, t)]
                && ops_degree(ops, (1int, t)) == 1 && ops_degree(ops, (0int, t)) == 0 && ops_degree(ops, (2int, j)) == 0
            &&& rel == "in_group"@ ==> ops_dependents(ops, (2int, j)) == seq![(0int, t)]
                && ops_dependents(ops, (1int, t)) == seq![(2int, j)]
                && ops_degree(ops, (0int, t)) == 1 && ops_degree(ops, (2int, j)) == 1 && ops_degree(ops, (1int, t)) == 0
        }),
{
    reveal_strlit("update");
    reveal_strlit("fixed_update");
    reveal_strlit("sync_update");
    reveal_strlit("long_update");
    reveal_strlit("setup");
    reveal_strlit("path");
    reveal_strlit("package");
    reveal_strlit("group");
    reveal_strlit("before");
    reveal_strlit("after");
    reveal_strlit("before_group");
    reveal_strlit("after_group");
    reveal_strlit("in_group");
    // The task words differ from `path` and `package` at their first or
    // second character.
    assert(w[0] == 'u' || w[0] == 'f' || w[0] == 's' || w[0] == 'l');
    assert(w != "path"@ && w != "package"@) by {
        if w == "path"@ || w == "package"@ {
            assert(w[0] == 'p');
        }
    }
    assert(is_task_word(w));
    assert(is_relation(rel));
    assert(at_name(ts, 0) && name_at(ts, 0) == w);
    assert(str_at(ts, 1) == Some(j));
    assert(at_name(ts, 2) && name_at(ts, 2) == rel);
    assert(str_at(ts, 3) == Some(t));
    let ty = task_word_type(w);
    let graph = task_word_graph(w);
    let ops = seq![GraphOp::Node(task_node(j))] + task_ops(rel, j, t);
    let e = EntryView { task: Some((j, ty, None)), ..plain_entry(graph, ops) };
    assert(cond_tail(ts, 4, j, ty, graph, ops) == EntryRead::Done(e, 4, false));
    assert(task_tail(ts, 2, j, ty, graph) == EntryRead::Done(e, 4, false));
    assert(entry_read(ts, 0) == EntryRead::Done(e, 4, false));
    assert(!at_punct(ts, 4, ','));
    assert(app_read(ts, 0) == AppRead::Done(combine(e, default_app()), 4, false));
    let v = combine(e, default_app());
    assert(app_result(ts) == Ok::<AppView, Seq<char>>(v));
    // Which graph and kind the word names.
    assert(w == "sync_update"@ ==> graph == 2);
    assert(w == "setup"@ ==> graph == 1) by {
        if w == "setup"@ {
            assert(w.len() != "sync_update"@.len());
        }
    }
    assert(w != "setup"@ && w != "sync_update"@ ==> graph == 0);
    assert(w == "update"@ ==> ty == TaskType::Update);
    assert(w == "fixed_update"@ ==> ty == TaskType::Fixed) by {
        if w == "fixed_update"@ {
            assert(w[0] != "update"@[0]);
        }
    }
    assert(w == "sync_update"@ ==> ty == TaskType::Sync) by {
        if w == "sync_update"@ {
            assert(w[0] != "update"@[0]);
            assert(w[0] != "fixed_update"@[0]);
        }
    }
    assert(w == "long_update"@ ==> ty == TaskType::Long) by {
        if w == "long_update"@ {
            assert(w[0] != "update"@[0]);
            assert(w[0] != "fixed_update"@[0]);
            assert(w[0] != "sync_update"@[0]);
        }
    }
    assert(w == "setup"@ ==> ty == TaskType::Setup) by {
        if w == "setup"@ {
            assert(w[0] != "update"@[0]);
            assert(w[0] != "fixed_update"@[0]);
            assert(w.len() != "sync_update"@.len());
            assert(w[0] != "long_update"@[0]);
        }
    }
    assert(v.graphs[graph] =~= ops);
    assert(forall|x: int| 0 <= x < 3 && x != graph ==> v.graphs[x].len() == 0);
    lemma_task_ops_facts(rel, j, t);
    assert(v.tasks =~= Map::<Seq<char>, (TaskType, Option<CondView>)>::empty().insert(j, (ty, None)));
}


/// What the changes of a task entry's relation do to the nodes involved.
proof fn lemma_task_ops_facts(rel: Seq<char>, j: Seq<char>, t: Seq<char>)
    requires
        rel == "before"@ || rel == "after"@ || rel == "before_group"@ || rel == "after_group"@ || rel == "in_group"@,
    ensures
        ({
            let ops = seq![GraphOp::Node(task_node(j))] + task_ops(rel, j, t);
            &&& rel == "before"@ ==> ops_dependents(ops, (2int, t)) == seq![(2int, j)] && ops_degree(ops, (2int, j)) == 1
            &&& rel == "after"@ ==> ops_dependents(ops, (2int, j)) == seq![(2int, t)] && ops_degree(ops, (2int, t)) == 1
            &&& rel == "before_group"@ ==> ops_dependents(ops, (0int, t)) == seq![(2int, j)]
                && ops_degree(ops, (2int, j)) == 1 && ops_degree(ops, (0int, t)) == 0 && ops_degree(ops, (1int, t)) == 0
            &&& rel == "after_group"@ ==> ops_dependents(ops, (2int, j)) == seq![(1int, t)]
                && ops_degree(ops, (1int, t)) == 1 && ops_degree(ops, (0int, t)) == 0 && ops_degree(ops, (2int, j)) == 0
            &&& rel == "in_group"@ ==> ops_dependents(ops, (2int, j)) == seq![(0int, t)]
                && ops_dependents(ops, (1int, t)) == seq![(2int, j)]
                && ops_degree(ops, (0int, t)) == 1 && ops_degree(ops, (2int, j)) == 1 && ops_degree(ops, (1int, t)) == 0
        }),
{
    reveal_strlit("before");
    reveal_strlit("after");
    reveal_strlit("before_group");
    reveal_strlit("after_group");
    reveal_strlit("in_group");
    lemma_relations_differ();
    if rel == "before"@ {
        assert(seq![GraphOp::Node(task_node(j))] + task_ops(rel, j, t) =~= seq![GraphOp::Node((2int, j)), GraphOp::Node((2int, t)), GraphOp::Dep((2int, j), (2int, t))]);
        lemma_before_ops(j, t);
    } else if rel == "after"@ {
        assert(rel.len() != "before"@.len());
        assert(seq![GraphOp::Node(task_node(j))] + task_ops(rel, j, t) =~= seq![GraphOp::Node((2int, j)), GraphOp::Node((2int, t)), GraphOp::Dep((2int, t), (2int, j))]);
        lemma_after_ops(j, t);
    } else if rel == "before_group"@ {
        assert(rel.len() != "before"@.len());
        assert(rel[0] != "after"@[0]);
        assert(seq![GraphOp::Node(task_node(j))] + task_ops(rel, j, t) =~= seq![GraphOp::Node((2int, j)), GraphOp::Node((0int, t)), GraphOp::Node((1int, t)), GraphOp::Dep((2int, j), (0int, t))]);
        lemma_before_group_ops(j, t);
    } else if rel == "after_group"@ {
        assert(rel[0] != "before"@[0]);
        assert(rel.len() != "after"@.len());
        assert(rel[0] != "before_group"@[0]);
        assert(seq![GraphOp::Node(task_node(j))] + task_ops(rel, j, t) =~= seq![GraphOp::Node((2int, j)), GraphOp::Node((0int, t)), GraphOp::Node((1int, t)), GraphOp::Dep((1int, t), (2int, j))]);
        lemma_after_group_ops(j, t);
    } else {
        assert(rel[0] != "before"@[0]);
        assert(rel[0] != "after"@[0]);
        assert(rel[0] != "before_group"@[0]);
        assert(rel[0] != "after_group"@[0]);
        assert(seq![GraphOp::Node(task_node(j))] + task_ops(rel, j, t) =~= seq![GraphOp::Node((2int, j)), GraphOp::Node((0int, t)), GraphOp::Node((1int, t)), GraphOp::Dep((0int, t), (2int, j)), GraphOp::Dep((2int, j), (1int, t))]);
        lemma_in_group_ops(j, t);
    }
}

proof fn lemma_before_ops(j: Seq<char>, t: Seq<char>)
    ensures
        ({
            let ops = seq![GraphOp::Node((2int, j)), GraphOp::Node((2int, t)), GraphOp::Dep((2int, j), (2int, t))];
            ops_dependents(ops, (2int, t)) == seq![(2int, j)] && ops_degree(ops, (2int, j)) == 1
        }),
{
    let ops = seq![GraphOp::Node((2int, j)), GraphOp::Node((2int, t)), GraphOp::Dep((2int, j), (2int, t))];
    reveal_with_fuel(ops_dependents, 4);
    reveal_with_fuel(ops_degree, 4);
    assert(ops.drop_last() =~= seq![GraphOp::Node((2int, j)), GraphOp::Node((2int, t))]);
    assert(ops.drop_last().drop_last() =~= seq![GraphOp::Node((2int, j))]);
    assert(ops.drop_last().drop_last().drop_last() =~= Seq::<GraphOp>::empty());
    assert(ops_dependents(ops, (2int, t)) =~= seq![(2int, j)]);
}

proof fn lemma_after_ops(j: Seq<char>, t: Seq<char>)
    ensures
        ({
            let ops = seq![GraphOp::Node((2int, j)), GraphOp::Node((2int, t)), GraphOp::Dep((2int, t), (2int, j))];
            ops_dependents(ops, (2int, j)) == seq![(2int, t)] && ops_degree(ops, (2int, t)) == 1
        }),
{
    let ops = seq![GraphOp::Node((2int, j)), GraphOp::Node((2int, t)), GraphOp::Dep((2int, t), (2int, j))];
    reveal_with_fuel(ops_dependents, 4);
    reveal_with_fuel(ops_degree, 4);
    assert(ops.drop_last() =~= seq![GraphOp::Node((2int, j)), GraphOp::Node((2int, t))]);
    assert(ops.drop_last().drop_last() =~= seq![GraphOp::Node((2int, j))]);
    assert(ops.drop_last().drop_last().drop_last() =~= Seq::<GraphOp>::empty());
    assert(ops_dependents(ops, (2int, j)) =~= seq![(2int, t)]);
}

proof fn lemma_before_group_ops(j: Seq<char>, t: Seq<char>)
    ensures
        ({
            let ops = seq![GraphOp::Node((2int, j)), GraphOp::Node((0int, t)), GraphOp::Node((1int, t)),
                GraphOp::Dep((2int, j), (0int, t))];
            ops_dependents(ops, (0int, t)) == seq![(2int, j)]
                && ops_degree(ops, (2int, j)) == 1 && ops_degree(ops, (0int, t)) == 0 && ops_degree(ops, (1int, t)) == 0
        }),
{
    let ops = seq![GraphOp::Node((2int, j)), GraphOp::Node((0int, t)), GraphOp::Node((1int, t)),
        GraphOp::Dep((2int, j), (0int, t))];
    reveal_with_fuel(ops_dependents, 5);
    reveal_with_fuel(ops_degree, 5);
    assert(ops.drop_last() =~= seq![GraphOp::Node((2int, j)), GraphOp::Node((0int, t)), GraphOp::Node((1int, t))]);
    assert(ops.drop_last().drop_last() =~= seq![GraphOp::Node((2int, j)), GraphOp::Node((0int, t))]);
    assert(ops.drop_last().drop_last().drop_last() =~= seq![GraphOp::Node((2int, j))]);
    assert(ops.drop_last().drop_last().drop_last().drop_last() =~= Seq::<GraphOp>::empty());
    assert(ops_dependents(ops, (0int, t)) =~= seq![(2int, j)]);
}

proof fn lemma_after_group_ops(j: Seq<char>, t: Seq<char>)
    ensures
        ({
            let ops = seq![GraphOp::Node((2int, j)), GraphOp::Node((0int, t)), GraphOp::Node((1int, t)),
                GraphOp::Dep((1int, t), (2int, j))];
            ops_dependents(ops, (2int, j)) == seq![(1int, t)]
                && ops_degree(ops, (1int, t)) == 1 && ops_degree(ops, (0int, t)) == 0 && ops_degree(ops, (2int, j)) == 0
        }),
{
    let ops = seq![GraphOp::Node((2int, j)), GraphOp::Node((0int, t)), GraphOp::Node((1int, t)),
        GraphOp::Dep((1int, t), (2int, j))];
    reveal_with_fuel(ops_dependents, 5);
    reveal_with_fuel(ops_degree, 5);
    assert(ops.drop_last() =~= seq![GraphOp::Node((2int, j)), GraphOp::Node((0int, t)), GraphOp::Node((1int, t))]);
    assert(ops.drop_last().drop_last() =~= seq![GraphOp::Node((2int, j)), GraphOp::Node((0int, t))]);
    assert(ops.drop_last().drop_last().drop_last() =~= seq![GraphOp::Node((2int, j))]);
    assert(ops.drop_last().drop_last().drop_last().drop_last() =~= Seq::<GraphOp>::empty());
    assert(ops_dependents(ops, (2int, j)) =~= seq![(1int, t)]);
}

proof fn lemma_in_group_ops(j: Seq<char>, t: Seq<char>)
    ensures
        ({
            let ops = seq![GraphOp::Node((2int, j)), GraphOp::Node((0int, t)), GraphOp::Node((1int, t)),
                GraphOp::Dep((0int, t), (2int, j)), GraphOp::Dep((2int, j), (1int, t))];
            ops_dependents(ops, (2int, j)) == seq![(0int, t)]
                && ops_dependents(ops, (1int, t)) == seq![(2int, j)]
                && ops_degree(ops, (0int, t)) == 1 && ops_degree(ops, (2int, j)) == 1 && ops_degree(ops, (1int, t)) == 0
        }),
{
    let ops = seq![GraphOp::Node((2int, j)), GraphOp::Node((0int, t)), GraphOp::Node((1int, t)),
        GraphOp::Dep((0int, t), (2int, j)), GraphOp::Dep((2int, j), (1int, t))];
    reveal_with_fuel(ops_dependents, 6);
    reveal_with_fuel(ops_degree, 6);
    assert(ops.drop_last() =~= seq![GraphOp::Node((2int, j)), GraphOp::Node((0int, t)), GraphOp::Node((1int, t)),
        GraphOp::Dep((0int, t), (2int, j))]);
    assert(ops.drop_last().drop_last() =~= seq![GraphOp::Node((2int, j)), GraphOp::Node((0int, t)), GraphOp::Node((1int, t))]);
    assert(ops.drop_last().drop_last().drop_last() =~= seq![GraphOp::Node((2int, j)), GraphOp::Node((0int, t))]);
    assert(ops.drop_last().drop_last().drop_last().drop_last() =~= seq![GraphOp::Node((2int, j))]);
    assert(ops.drop_last().drop_last().drop_last().drop_last().drop_last() =~= Seq::<GraphOp>::empty());
    assert(ops_dependents(ops, (2int, j)) =~= seq![(0int, t)]);
    assert(ops_dependents(ops, (1int, t)) =~= seq![(2int, j)]);
}


/// The five relation words are different words.
proof fn lemma_relations_differ()
    ensures
        "before"@ != "after"@,
        "before"@ != "before_group"@,
        "before"@ != "after_group"@,
        "before"@ != "in_group"@,
        "after"@ != "before_group"@,
        "after"@ != "after_group"@,
        "after"@ != "in_group"@,
        "before_group"@ != "after_group"@,
        "before_group"@ != "in_group"@,
        "after_group"@ != "in_group"@,
{
    reveal_strlit("before");
    reveal_strlit("after");
    reveal_strlit("before_group");
    reveal_strlit("after_group");
    reveal_strlit("in_group");
    assert("before"@.len() != "after"@.len());
    assert("before"@.len() != "before_group"@.len());
    assert("before"@[0] != "after_group"@[0]);
    assert("before"@[0] != "in_group"@[0]);
    assert("after"@[0] != "before_group"@[0]);
    assert("after"@.len() != "after_group"@.len());
    assert("after"@[0] != "in_group"@[0]);
    assert("before_group"@[0] != "after_group"@[0]);
    assert("before_group"@[0] != "in_group"@[0]);
    assert("after_group"@[0] != "in_group"@[0]);
}


/// The graph of a package that a task entry with the word `w` changes:
/// the setup graph for `setup`, the sync graph for `sync_update`, the
/// runtime graph otherwise.
pub open spec fn word_graph(pkg: AppPackage, w: Seq<char>) -> DependencyGraph {
    if w == "setup"@ {
        pkg.setup_dependency
    } else if w == "sync_update"@ {
        pkg.sync_dependency
    } else {
        pkg.runtime_dependency
    }
}

/// The package that `AppPackage::parse` reads from one task entry
/// `W "J" REL "T"` has the dependencies of the relation in the graph the
/// word names (task nodes of variant 2, a group's start and end nodes of
/// variants 0 and 1), and nothing in its other graphs: `before` makes `J`
/// wait for `T`; `after` makes `T` wait for `J`; `before_group` makes `J`
/// wait for the start of `T`; `after_group` makes the end of `T` wait for
/// `J`; `in_group` makes `J` wait for the start of `T` and the end of `T`
/// wait for `J`.
pub proof fn lemma_task_entry_package(ts: Seq<Token>, w: Seq<char>, j: Seq<char>, rel: Seq<char>, t: Seq<char>, pkg: AppPackage)
    requires
        one_task_entry(ts, w, j, rel, t),
        w == "update"@ || w == "fixed_update"@ || w == "sync_update"@ || w == "long_update"@ || w == "setup"@,
        rel == "before"@ || rel == "after"@ || rel == "before_group"@ || rel == "after_group"@ || rel == "in_group"@,
        app_result(ts) is Ok,
        app_matches(pkg, app_result(ts)->Ok_0),
    ensures
        ({
            let g = word_graph(pkg, w);
            &&& rel == "before"@ ==> g.dependents_of((2int, t)) == seq![(2int, j)] && g.degree((2int, j)) == 1
            &&& rel == "after"@ ==> g.dependents_of((2int, j)) == seq![(2int, t)] && g.degree((2int, t)) == 1
            &&& rel == "before_group"@ ==> g.dependents_of((0int, t)) == seq![(2int, j)]
                && g.degree((2int, j)) == 1 && g.degree((0int, t)) == 0 && g.degree((1int, t)) == 0
            &&& rel == "after_group"@ ==> g.dependents_of((2int, j)) == seq![(1int, t)]
                && g.degree((1int, t)) == 1 && g.degree((0int, t)) == 0 && g.degree((2int, j)) == 0
            &&& rel == "in_group"@ ==> g.dependents_of((2int, j)) == seq![(0int, t)]
                && g.dependents_of((1int, t)) == seq![(2int, j)]
                && g.degree((0int, t)) == 1 && g.degree((2int, j)) == 1 && g.degree((1int, t)) == 0
        }),
        w != "setup"@ ==> forall|n: NodeView| !#[trigger] pkg.setup_dependency.has_node(n),
        w != "sync_update"@ ==> forall|n: NodeView| !#[trigger] pkg.sync_dependency.has_node(n),
        w == "setup"@ || w == "sync_update"@ ==> forall|n: NodeView| !#[trigger] pkg.runtime_dependency.has_node(n),
{
    lemma_task_entry_reads(ts, w, j, rel, t);
    let v = app_result(ts)->Ok_0;
    reveal_strlit("setup");
    reveal_strlit("sync_update");
    assert("setup"@.len() != "sync_update"@.len());
    let k: int = if w == "setup"@ { 1 } else if w == "sync_update"@ { 2 } else { 0 };
    let ops = v.graphs[k];
    assert(graph_is(word_graph(pkg, w), ops));
    if w != "setup"@ {
        assert forall|n: NodeView| !#[trigger] pkg.setup_dependency.has_node(n) by {
            assert(v.graphs[1].len() == 0);
            assert(!ops_node(v.graphs[1], n));
        }
    }
    if w != "sync_update"@ {
        assert forall|n: NodeView| !#[trigger] pkg.sync_dependency.has_node(n) by {
            assert(v.graphs[2].len() == 0);
            assert(!ops_node(v.graphs[2], n));
        }
    }
    if w == "setup"@ || w == "sync_update"@ {
        assert forall|n: NodeView| !#[trigger] pkg.runtime_dependency.has_node(n) by {
            assert(v.graphs[0].len() == 0);
            assert(!ops_node(v.graphs[0], n));
        }
    }
}


proof fn lemma_group_before_ops(j: Seq<char>, t: Seq<char>)
    ensures
        ({
            let ops = seq![GraphOp::Node((0int, j)), GraphOp::Node((1int, j)), GraphOp::Node((2int, t)), GraphOp::Dep((1int, j), (2int, t))];
            ops_dependents(ops, (2int, t)) == seq![(1int, j)] && ops_degree(ops, (1int, j)) == 1
        }),
{
    let ops = seq![GraphOp::Node((0int, j)), GraphOp::Node((1int, j)), GraphOp::Node((2int, t)), GraphOp::Dep((1int, j), (2int, t))];
    reveal_with_fuel(ops_dependents, 7);
    reveal_with_fuel(ops_degree, 7);
    assert(ops.drop_last() =~= seq![GraphOp::Node((0int, j)), GraphOp::Node((1int, j)), GraphOp::Node((2int, t))]);
    assert(ops.drop_last().drop_last() =~= seq![GraphOp::Node((0int, j)), GraphOp::Node((1int, j))]);
    assert(ops.drop_last().drop_last().drop_last() =~= seq![GraphOp::Node((0int, j))]);
    assert(ops.drop_last().drop_last().drop_last().drop_last() =~= Seq::<GraphOp>::empty());
    assert(ops_dependents(ops, (2int, t)) =~= seq![(1int, j)]);
}

proof fn lemma_group_after_ops(j: Seq<char>, t: Seq<char>)
    ensures
        ({
            let ops = seq![GraphOp::Node((0int, j)), GraphOp::Node((1int, j)), GraphOp::Node((2int, t)), GraphOp::Dep((2int, t), (0int, j))];
            ops_dependents(ops, (0int, j)) == seq![(2int, t)] && ops_degree(ops, (2int, t)) == 1
        }),
{
    let ops = seq![GraphOp::Node((0int, j)), GraphOp::Node((1int, j)), GraphOp::Node((2int, t)), GraphOp::Dep((2int, t), (0int, j))];
    reveal_with_fuel(ops_dependents, 7);
    reveal_with_fuel(ops_degree, 7);
    assert(ops.drop_last() =~= seq![GraphOp::Node((0int, j)), GraphOp::Node((1int, j)), GraphOp::Node((2int, t))]);
    assert(ops.drop_last().drop_last() =~= seq![GraphOp::Node((0int, j)), GraphOp::Node((1int, j))]);
    assert(ops.drop_last().drop_last().drop_last() =~= seq![GraphOp::Node((0int, j))]);
    assert(ops.drop_last().drop_last().drop_last().drop_last() =~= Seq::<GraphOp>::empty());
    assert(ops_dependents(ops, (0int, j)) =~= seq![(2int, t)]);
}

proof fn lemma_group_before_group_ops(j: Seq<char>, t: Seq<char>)
    ensures
        ({
            let ops = seq![GraphOp::Node((0int, j)), GraphOp::Node((1int, j)), GraphOp::Node((0int, t)), GraphOp::Node((1int, t)), GraphOp::Dep((1int, j), (0int, t))];
            ops_dependents(ops, (0int, t)) == seq![(1int, j)] && ops_degree(ops, (1int, j)) == 1
        }),
{
    let ops = seq![GraphOp::Node((0int, j)), GraphOp::Node((1int, j)), GraphOp::Node((0int, t)), GraphOp::Node((1int, t)), GraphOp::Dep((1int, j), (0int, t))];
    reveal_with_fuel(ops_dependents, 7);
    reveal_with_fuel(ops_degree, 7);
    assert(ops.drop_last() =~= seq![GraphOp::Node((0int, j)), GraphOp::Node((1int, j)), GraphOp::Node((0int, t)), GraphOp::Node((1int, t))]);
    assert(ops.drop_last().drop_last() =~= seq![GraphOp::Node((0int, j)), GraphOp::Node((1int, j)), GraphOp::Node((0int, t))]);
    assert(ops.drop_last().drop_last().drop_last() =~= seq![GraphOp::Node((0int, j)), GraphOp::Node((1int, j))]);
    assert(ops.drop_last().drop_last().drop_last().drop_last() =~= seq![GraphOp::Node((0int, j))]);
    assert(ops.drop_last().drop_last().drop_last().drop_last().drop_last() =~= Seq::<GraphOp>::empty());
    assert(ops_dependents(ops, (0int, t)) =~= seq![(1int, j)]);
}

proof fn lemma_group_after_group_ops(j: Seq<char>, t: Seq<char>)
    ensures
        ({
            let ops = seq![GraphOp::Node((0int, j)), GraphOp::Node((1int, j)), GraphOp::Node((0int, t)), GraphOp::Node((1int, t)), GraphOp::Dep((1int, t), (0int, j))];
            ops_dependents(ops, (0int, j)) == seq![(1int, t)] && ops_degree(ops, (1int, t)) == 1
        }),
{
    let ops = seq![GraphOp::Node((0int, j)), GraphOp::Node((1int, j)), GraphOp::Node((0int, t)), GraphOp::Node((1int, t)), GraphOp::Dep((1int, t), (0int, j))];
    reveal_with_fuel(ops_dependents, 7);
    reveal_with_fuel(ops_degree, 7);
    assert(ops.drop_last() =~= seq![GraphOp::Node((0int, j)), GraphOp::Node((1int, j)), GraphOp::Node((0int, t)), GraphOp::Node((1int, t))]);
    assert(ops.drop_last().drop_last() =~= seq![GraphOp::Node((0int, j)), GraphOp::Node((1int, j)), GraphOp::Node((0int, t))]);
    assert(ops.drop_last().drop_last().drop_last() =~= seq![GraphOp::Node((0int, j)), GraphOp::Node((1int, j))]);
    assert(ops.drop_last().drop_last().drop_last().drop_last() =~= seq![GraphOp::Node((0int, j))]);
    assert(ops.drop_last().drop_last().drop_last().drop_last().drop_last() =~= Seq::<GraphOp>::empty());
    assert(ops_dependents(ops, (0int, j)) =~= seq![(1int, t)]);
}

proof fn lemma_group_in_group_ops(j: Seq<char>, t: Seq<char>)
    ensures
        ({
            let ops = seq![GraphOp::Node((0int, j)), GraphOp::Node((1int, j)), GraphOp::Node((0int, t)), GraphOp::Node((1int, t)), GraphOp::Dep((0int, t), (0int, j)), GraphOp::Dep((1int, j), (1int, t))];
            ops_dependents(ops, (0int, j)) == seq![(0int, t)] && ops_dependents(ops, (1int, t)) == seq![(1int, j)] && ops_degree(ops, (0int, t)) == 1 && ops_degree(ops, (1int, j)) == 1
        }),
{
    let ops = seq![GraphOp::Node((0int, j)), GraphOp::Node((1int, j)), GraphOp::Node((0int, t)), GraphOp::Node((1int, t)), GraphOp::Dep((0int, t), (0int, j)), GraphOp::Dep((1int, j), (1int, t))];
    reveal_with_fuel(ops_dependents, 7);
    reveal_with_fuel(ops_degree, 7);
    assert(ops.drop_last() =~= seq![GraphOp::Node((0int, j)), GraphOp::Node((1int, j)), GraphOp::Node((0int, t)), GraphOp::Node((1int, t)), GraphOp::Dep((0int, t), (0int, j))]);
    assert(ops.drop_last().drop_last() =~= seq![GraphOp::Node((0int, j)), GraphOp::Node((1int, j)), GraphOp::Node((0int, t)), GraphOp::Node((1int, t))]);
    assert(ops.drop_last().drop_last().drop_last() =~= seq![GraphOp::Node((0int, j)), GraphOp::Node((1int, j)), GraphOp::Node((0int, t))]);
    assert(ops.drop_last().drop_last().drop_last().drop_last() =~= seq![GraphOp::Node((0int, j)), GraphOp::Node((1int, j))]);
    assert(ops.drop_last().drop_last().drop_last().drop_last().drop_last() =~= seq![GraphOp::Node((0int, j))]);
    assert(ops.drop_last().drop_last().drop_last().drop_last().drop_last().drop_last() =~= Seq::<GraphOp>::empty());
    assert(ops_dependents(ops, (0int, j)) =~= seq![(0int, t)]);
    assert(ops_dependents(ops, (1int, t)) =~= seq![(1int, j)]);
}

/// What the changes of a group entry's relation do to the nodes involved.
proof fn lemma_group_ops_facts(rel: Seq<char>, j: Seq<char>, t: Seq<char>)
    requires
        rel == "before"@ || rel == "after"@ || rel == "before_group"@ || rel == "after_group"@ || rel == "in_group"@,
    ensures
        ({
            let ops = group_ops(rel, j, t);
            &&& rel == "before"@ ==> ops_dependents(ops, (2int, t)) == seq![(1int, j)] && ops_degree(ops, (1int, j)) == 1
            &&& rel == "after"@ ==> ops_dependents(ops, (0int, j)) == seq![(2int, t)] && ops_degree(ops, (2int, t)) == 1
            &&& rel == "before_group"@ ==> ops_dependents(ops, (0int, t)) == seq![(1int, j)] && ops_degree(ops, (1int, j)) == 1
            &&& rel == "after_group"@ ==> ops_dependents(ops, (0int, j)) == seq![(1int, t)] && ops_degree(ops, (1int, t)) == 1
            &&& rel == "in_group"@ ==> ops_dependents(ops, (0int, j)) == seq![(0int, t)] && ops_dependents(ops, (1int, t)) == seq![(1int, j)] && ops_degree(ops, (0int, t)) == 1 && ops_degree(ops, (1int, j)) == 1
        }),
{
    lemma_relations_differ();
    if rel == "before"@ {
        assert(group_ops(rel, j, t) =~= seq![GraphOp::Node((0int, j)), GraphOp::Node((1int, j)), GraphOp::Node((2int, t)), GraphOp::Dep((1int, j), (2int, t))]);
        lemma_group_before_ops(j, t);
    } else if rel == "after"@ {
        assert(group_ops(rel, j, t) =~= seq![GraphOp::Node((0int, j)), GraphOp::Node((1int, j)), GraphOp::Node((2int, t)), GraphOp::Dep((2int, t), (0int, j))]);
        lemma_group_after_ops(j, t);
    } else if rel == "before_group"@ {
        assert(group_ops(rel, j, t) =~= seq![GraphOp::Node((0int, j)), GraphOp::Node((1int, j)), GraphOp::Node((0int, t)), GraphOp::Node((1int, t)), GraphOp::Dep((1int, j), (0int, t))]);
        lemma_group_before_group_ops(j, t);
    } else if rel == "after_group"@ {
        assert(group_ops(rel, j, t) =~= seq![GraphOp::Node((0int, j)), GraphOp::Node((1int, j)), GraphOp::Node((0int, t)), GraphOp::Node((1int, t)), GraphOp::Dep((1int, t), (0int, j))]);
        lemma_group_after_group_ops(j, t);
    } else if rel == "in_group"@ {
        assert(group_ops(rel, j, t) =~= seq![GraphOp::Node((0int, j)), GraphOp::Node((1int, j)), GraphOp::Node((0int, t)), GraphOp::Node((1int, t)), GraphOp::Dep((0int, t), (0int, j)), GraphOp::Dep((1int, j), (1int, t))]);
        lemma_group_in_group_ops(j, t);
    }
}

/// The tokens are one group entry `group [setup] "J" REL "T"`: the word
/// `group`, `setup` where `setup` holds, the group's name, a relation and
/// the name of the task or group it relates to.
pub open spec fn one_group_entry(ts: Seq<Token>, setup: bool, j: Seq<char>, rel: Seq<char>, t: Seq<char>) -> bool {
    let q: int = if setup { 2 } else { 1 };
    &&& ts.len() == q + 3
    &&& ts[0] matches Token::Ident(s, true) && s@ == "group"@
    &&& setup ==> (ts[1] matches Token::Ident(s, true) && s@ == "setup"@)
    &&& ts[q] matches Token::Literal(_, Some(v)) && v@ == j
    &&& ts[q + 1] matches Token::Ident(s, true) && s@ == rel
    &&& ts[q + 2] matches Token::Literal(_, Some(v)) && v@ == t
}

/// What one group entry `group [setup] "J" REL "T"` reads as: no task,
/// and its changes in the setup graph (1) with `setup` and the runtime
/// graph (0) without, the other graphs staying empty. In that graph, with
/// task nodes of variant 2 and a group's start and end nodes of variants 0
/// and 1: `before` makes the task `T` wait for the end of `J`; `after`
/// makes the start of `J` wait for `T`; `before_group` makes the start of
/// `T` wait for the end of `J`; `after_group` makes the start of `J` wait
/// for the end of `T`; `in_group` makes the start of `J` wait for the start
/// of `T`, and the end of `T` wait for the end of `J`.
pub proof fn lemma_group_entry_reads(ts: Seq<Token>, setup: bool, j: Seq<char>, rel: Seq<char>, t: Seq<char>)
    requires
        one_group_entry(ts, setup, j, rel, t),
        rel == "before"@ || rel == "after"@ || rel == "before_group"@ || rel == "after_group"@ || rel == "in_group"@,
    ensures
        app_terminates(ts),
        app_result(ts) is Ok,
        ({
            let v = app_result(ts)->Ok_0;
            let k: int = if setup { 1 } else { 0 };
            let ops = v.graphs[k];
            &&& v.graphs.len() == 3
            &&& forall|x: int| 0 <= x < 3 && x != k ==> v.graphs[x].len() == 0
            &&& v.tasks == Map::<Seq<char>, (TaskType, Option<CondView>)>::empty()
            &&& rel == "before"@ ==> ops_dependents(ops, (2int, t)) == seq![(1int, j)] && ops_degree(ops, (1int, j)) == 1
            &&& rel == "after"@ ==> ops_dependents(ops, (0int, j)) == seq![(2int, t)] && ops_degree(ops, (2int, t)) == 1
            &&& rel == "before_group"@ ==> ops_dependents(ops, (0int, t)) == seq![(1int, j)] && ops_degree(ops, (1int, j)) == 1
            &&& rel == "after_group"@ ==> ops_dependents(ops, (0int, j)) == seq![(1int, t)] && ops_degree(ops, (1int, t)) == 1
            &&& rel == "in_group"@ ==> ops_dependents(ops, (0int, j)) == seq![(0int, t)] && ops_dependents(ops, (1int, t)) == seq![(1int, j)] && ops_degree(ops, (0int, t)) == 1 && ops_degree(ops, (1int, j)) == 1
        }),
{
    reveal_strlit("group");
    reveal_strlit("setup");
    reveal_strlit("path");
    reveal_strlit("package");
    reveal_strlit("update");
    reveal_strlit("fixed_update");
    reveal_strlit("sync_update");
    reveal_strlit("long_update");
    assert("group"@[0] != "path"@[0] && "group"@[0] != "package"@[0]);
    assert("group"@[0] != "update"@[0] && "group"@[0] != "fixed_update"@[0] && "group"@[0] != "sync_update"@[0]
        && "group"@[0] != "long_update"@[0] && "group"@[0] != "setup"@[0]);
    assert(!is_task_word("group"@));
    lemma_relations_differ();
    assert(is_relation(rel));
    let q: int = if setup { 2 } else { 1 };
    let graph: int = if setup { 1 } else { 0 };
    assert(at_name(ts, 0) && name_at(ts, 0) == "group"@);
    assert(setup ==> at_name(ts, 1) && name_at(ts, 1) == "setup"@);
    assert(!setup ==> !at_name(ts, 1));
    assert(str_at(ts, q) == Some(j));
    assert(at_name(ts, q + 1) && name_at(ts, q + 1) == rel);
    assert(str_at(ts, q + 2) == Some(t));
    let e = plain_entry(graph, group_ops(rel, j, t));
    assert(group_tail(ts, 1) == EntryRead::Done(e, q + 3, false));
    assert(entry_read(ts, 0) == EntryRead::Done(e, q + 3, false));
    assert(!at_punct(ts, q + 3, ','));
    assert(app_read(ts, 0) == AppRead::Done(combine(e, default_app()), q + 3, false));
    let v = combine(e, default_app());
    assert(app_result(ts) == Ok::<AppView, Seq<char>>(v));
    assert(v.graphs[graph] =~= group_ops(rel, j, t));
    assert(v.tasks =~= Map::<Seq<char>, (TaskType, Option<CondView>)>::empty());
    lemma_group_ops_facts(rel, j, t);
}

} // verus!
