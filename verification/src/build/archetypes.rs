//! The archetypes of an application: the component lists that its tasks'
//! outputs make, and for each task where in them the members it reads are.

use vstd::prelude::*;
use crate::assoc::{keys_unique, as_map, view_map, insert_viewed, get_key};
use crate::text::{strs, sorted_strs, sort_strings, push_unique};
use crate::build::tasks::{Task, TaskView, TaskInput, TaskOutput, MemberType, MemberView, InputView,
    OutputView, members_view};

verus! {

/// The sorted component lists of the archetype outputs among `outs`, in
/// order.
pub open spec fn output_arches(outs: Seq<OutputView>) -> Seq<Seq<Seq<char>>>
    decreases outs.len(),
{
    if outs.len() == 0 {
        Seq::empty()
    } else {
        output_arches(outs.drop_last()) + match outs.last() {
            OutputView::Arch(v) => seq![sorted_strs(v)],
            _ => Seq::empty(),
        }
    }
}

/// The archetypes of a list of tasks: those of each task's outputs, task
/// after task. A list may occur more than once.
pub open spec fn all_arches(ts: Seq<TaskView>) -> Seq<Seq<Seq<char>>>
    decreases ts.len(),
{
    if ts.len() == 0 {
        Seq::empty()
    } else {
        all_arches(ts.drop_last()) + output_arches(ts.last().outputs)
    }
}

/// The member lists of the archetype inputs among `ins`, in order.
pub open spec fn arch_inputs(ins: Seq<InputView>) -> Seq<Seq<MemberView>>
    decreases ins.len(),
{
    if ins.len() == 0 {
        Seq::empty()
    } else {
        arch_inputs(ins.drop_last()) + match ins.last() {
            InputView::Arch(_, m) => seq![m],
            _ => Seq::empty(),
        }
    }
}

/// The type an input names, if it is of the given kind: 0 for a resource, 1
/// for a state, 2 for a hierarchy.
pub open spec fn typed_input(x: InputView, kind: int) -> Option<Seq<char>> {
    match x {
        InputView::Resources(_, t) => if kind == 0 { Some(t) } else { None },
        InputView::State(_, t) => if kind == 1 { Some(t) } else { None },
        InputView::Hierarchy(_, t) => if kind == 2 { Some(t) } else { None },
        _ => None,
    }
}

/// Every type that an input of the given kind names, over all tasks.
pub open spec fn input_types(ts: Seq<TaskView>, kind: int) -> Set<Seq<char>> {
    Set::new(|t: Seq<char>| exists|i: int, j: int| 0 <= i < ts.len() && 0 <= j < ts[i].inputs.len()
        && #[trigger] typed_input(ts[i].inputs[j], kind) == Some(t))
}

/// What each kind collects: the resources are the types that the tasks'
/// `Res` inputs name, the states those of their `State` inputs, and the
/// hierarchies those of their `Hierarchy` inputs; no input lands among
/// another kind's.
pub proof fn lemma_input_types_by_kind(ts: Seq<TaskView>, t: Seq<char>)
    ensures
        input_types(ts, 0).contains(t) <==> exists|i: int, j: int|
            0 <= i < ts.len() && 0 <= j < ts[i].inputs.len() && (#[trigger] ts[i].inputs[j] matches InputView::Resources(_, x) && x == t),
        input_types(ts, 1).contains(t) <==> exists|i: int, j: int|
            0 <= i < ts.len() && 0 <= j < ts[i].inputs.len() && (#[trigger] ts[i].inputs[j] matches InputView::State(_, x) && x == t),
        input_types(ts, 2).contains(t) <==> exists|i: int, j: int|
            0 <= i < ts.len() && 0 <= j < ts[i].inputs.len() && (#[trigger] ts[i].inputs[j] matches InputView::Hierarchy(_, x) && x == t),
{
    assert(input_types(ts, 0).contains(t) <==> exists|i: int, j: int| 0 <= i < ts.len() && 0 <= j < ts[i].inputs.len() && (#[trigger] ts[i].inputs[j] matches InputView::Resources(_, x) && x == t)) by {
        if input_types(ts, 0).contains(t) {
            let (i, j) = choose|i: int, j: int| 0 <= i < ts.len() && 0 <= j < ts[i].inputs.len()
                && #[trigger] typed_input(ts[i].inputs[j], 0) == Some(t);
            assert(ts[i].inputs[j] matches InputView::Resources(_, x) && x == t);
        }
        if exists|i: int, j: int| 0 <= i < ts.len() && 0 <= j < ts[i].inputs.len() && (#[trigger] ts[i].inputs[j] matches InputView::Resources(_, x) && x == t) {
            let (i, j) = choose|i: int, j: int| 0 <= i < ts.len() && 0 <= j < ts[i].inputs.len()
                && (#[trigger] ts[i].inputs[j] matches InputView::Resources(_, x) && x == t);
            assert(typed_input(ts[i].inputs[j], 0) == Some(t));
        }
    }
    assert(input_types(ts, 1).contains(t) <==> exists|i: int, j: int| 0 <= i < ts.len() && 0 <= j < ts[i].inputs.len() && (#[trigger] ts[i].inputs[j] matches InputView::State(_, x) && x == t)) by {
        if input_types(ts, 1).contains(t) {
            let (i, j) = choose|i: int, j: int| 0 <= i < ts.len() && 0 <= j < ts[i].inputs.len()
                && #[trigger] typed_input(ts[i].inputs[j], 1) == Some(t);
            assert(ts[i].inputs[j] matches InputView::State(_, x) && x == t);
        }
        if exists|i: int, j: int| 0 <= i < ts.len() && 0 <= j < ts[i].inputs.len() && (#[trigger] ts[i].inputs[j] matches InputView::State(_, x) && x == t) {
            let (i, j) = choose|i: int, j: int| 0 <= i < ts.len() && 0 <= j < ts[i].inputs.len()
                && (#[trigger] ts[i].inputs[j] matches InputView::State(_, x) && x == t);
            assert(typed_input(ts[i].inputs[j], 1) == Some(t));
        }
    }
    assert(input_types(ts, 2).contains(t) <==> exists|i: int, j: int| 0 <= i < ts.len() && 0 <= j < ts[i].inputs.len() && (#[trigger] ts[i].inputs[j] matches InputView::Hierarchy(_, x) && x == t)) by {
        if input_types(ts, 2).contains(t) {
            let (i, j) = choose|i: int, j: int| 0 <= i < ts.len() && 0 <= j < ts[i].inputs.len()
                && #[trigger] typed_input(ts[i].inputs[j], 2) == Some(t);
            assert(ts[i].inputs[j] matches InputView::Hierarchy(_, x) && x == t);
        }
        if exists|i: int, j: int| 0 <= i < ts.len() && 0 <= j < ts[i].inputs.len() && (#[trigger] ts[i].inputs[j] matches InputView::Hierarchy(_, x) && x == t) {
            let (i, j) = choose|i: int, j: int| 0 <= i < ts.len() && 0 <= j < ts[i].inputs.len()
                && (#[trigger] ts[i].inputs[j] matches InputView::Hierarchy(_, x) && x == t);
            assert(typed_input(ts[i].inputs[j], 2) == Some(t));
        }
    }
}

/// The first index at which `x` occurs in `s`.
pub open spec fn first_pos<A>(s: Seq<A>, x: A) -> int {
    choose|i: int| 0 <= i < s.len() && s[i] == x && forall|j: int| 0 <= j < i ==> s[j] != x
}

/// Where `x` first occurs is the index that `first_pos` names.
pub proof fn lemma_first_pos<A>(s: Seq<A>, x: A, i: int)
    requires
        0 <= i < s.len(),
        s[i] == x,
        forall|j: int| 0 <= j < i ==> s[j] != x,
    ensures
        first_pos(s, x) == i,
{
    let k = first_pos(s, x);
    assert(0 <= k < s.len() && s[k] == x && forall|j: int| 0 <= j < k ==> s[j] != x);
    if k < i {
        assert(s[k] != x);
    }
    if i < k {
        assert(s[i] != x);
    }
}

/// The component lists a member stands for: the component itself, or each
/// component that implements the trait, as `traits` lists them.
pub open spec fn member_values(m: MemberView, traits: Map<Seq<char>, Seq<Seq<char>>>) -> Seq<Seq<char>> {
    match m {
        MemberView::Normal(t) => seq![t],
        MemberView::Trait(t) => traits[t],
    }
}

/// Each combination that takes one value from each list, in order: the
/// first list varies slowest.
pub open spec fn product<A>(ls: Seq<Seq<A>>) -> Seq<Seq<A>>
    decreases ls.len(),
{
    if ls.len() == 0 {
        seq![Seq::empty()]
    } else {
        extend_all(product(ls.drop_last()), ls.last())
    }
}

/// Each combination of `cs` extended by each value of `vs`.
pub open spec fn extend_all<A>(cs: Seq<Seq<A>>, vs: Seq<A>) -> Seq<Seq<A>>
    decreases cs.len(),
{
    if cs.len() == 0 {
        Seq::empty()
    } else {
        extend_all(cs.drop_last(), vs) + vs.map_values(|v: A| cs.last().push(v))
    }
}

/// For each of the first `o` archetypes that holds every value of `c`: its
/// index, with the position in it of each value of `c`.
pub open spec fn matches_upto(at: Seq<Seq<Seq<char>>>, c: Seq<Seq<char>>, o: int) -> Seq<(int, Seq<int>)>
    decreases o,
{
    if o <= 0 {
        Seq::empty()
    } else {
        matches_upto(at, c, o - 1) + if (forall|e: int| 0 <= e < c.len() ==> #[trigger] at[o - 1].contains(c[e])) {
            seq![(o - 1, c.map_values(|x: Seq<char>| first_pos(at[o - 1], x)))]
        } else {
            Seq::empty()
        }
    }
}

/// The matches of each combination, combination after combination.
pub open spec fn index_data(at: Seq<Seq<Seq<char>>>, cs: Seq<Seq<Seq<char>>>) -> Seq<(int, Seq<int>)>
    decreases cs.len(),
{
    if cs.len() == 0 {
        Seq::empty()
    } else {
        index_data(at, cs.drop_last()) + matches_upto(at, cs.last(), at.len() as int)
    }
}

/// What one archetype input of a task reads as.
pub struct ArchInputView {
    pub members: Seq<MemberView>,
    pub task_index: int,
    pub indexes: Seq<(int, Seq<int>)>,
}

/// What the inputs and outputs of a task read as.
pub struct TaskIoView {
    pub input: Seq<ArchInputView>,
    pub output: Seq<int>,
}

/// The archetype inputs and outputs of a task: for its `k`-th archetype
/// input, every archetype that holds a combination of what its members
/// stand for, and for each archetype it outputs, the first index of that
/// archetype.
pub open spec fn task_io(t: TaskView, at: Seq<Seq<Seq<char>>>, traits: Map<Seq<char>, Seq<Seq<char>>>) -> TaskIoView {
    TaskIoView {
        input: arch_inputs(t.inputs).map(|k: int, ms: Seq<MemberView>| ArchInputView {
            members: ms,
            task_index: k,
            indexes: index_data(at, product(ms.map_values(|m: MemberView| member_values(m, traits)))),
        }),
        output: output_arches(t.outputs).map_values(|x: Seq<Seq<char>>| first_pos(at, x)),
    }
}

/// The inputs and outputs of each task by its name, a later task taking the
/// place of an earlier one of the same name.
pub open spec fn all_io(ts: Seq<TaskView>, at: Seq<Seq<Seq<char>>>, traits: Map<Seq<char>, Seq<Seq<char>>>) -> Map<Seq<char>, TaskIoView>
    decreases ts.len(),
{
    if ts.len() == 0 {
        Map::empty()
    } else {
        all_io(ts.drop_last(), at, traits).insert(ts.last().name, task_io(ts.last(), at, traits))
    }
}

/// The views of a list of tasks.
pub open spec fn tasks_view(ts: Seq<Task>) -> Seq<TaskView> {
    ts.map_values(|t: Task| t@)
}

/// The views of a list of component lists.
pub open spec fn arches_view(v: Seq<Vec<String>>) -> Seq<Seq<Seq<char>>> {
    v.map_values(|x: Vec<String>| strs(x@))
}

/// The components each trait stands for, as a map.
pub open spec fn traits_view(s: Seq<(String, Vec<String>)>) -> Map<Seq<char>, Seq<Seq<char>>> {
    as_map(s).map_values(|v: Vec<String>| strs(v@))
}

/// One archetype input of a task: its members, which of the task's
/// archetype inputs it is, and each archetype that holds a combination of
/// what the members stand for, with where each member is in it.
#[derive(Debug)]
pub struct TaskArchType {
    pub arch_type_type: Vec<MemberType>,
    pub task_index: usize,
    pub input_arch_type_indexes: Vec<(usize, Vec<usize>)>,
}

/// The views of index pairs.
pub open spec fn pairs_view(s: Seq<(usize, Vec<usize>)>) -> Seq<(int, Seq<int>)> {
    s.map_values(|p: (usize, Vec<usize>)| (p.0 as int, p.1@.map_values(|u: usize| u as int)))
}

impl View for TaskArchType {
    type V = ArchInputView;

    open spec fn view(&self) -> ArchInputView {
        ArchInputView {
            members: members_view(self.arch_type_type@),
            task_index: self.task_index as int,
            indexes: pairs_view(self.input_arch_type_indexes@),
        }
    }
}

/// The archetype inputs and outputs of a task.
#[derive(Debug)]
pub struct TasksInputOutput {
    pub input: Vec<TaskArchType>,
    pub output: Vec<usize>,
}

impl View for TasksInputOutput {
    type V = TaskIoView;

    open spec fn view(&self) -> TaskIoView {
        TaskIoView {
            input: self.input@.map_values(|x: TaskArchType| x@),
            output: self.output@.map_values(|u: usize| u as int),
        }
    }
}

/// The archetypes of an application, what each task reads and makes of
/// them, and the resources, states and hierarchies its tasks use.
#[derive(Debug)]
pub struct ArchTypes {
    pub arch_types: Vec<Vec<String>>,
    pub tasks: Vec<(String, TasksInputOutput)>,
    pub resources: Vec<String>,
    pub states: Vec<String>,
    pub hierarchy: Vec<String>,
}

/// The sorted component list of each archetype output, task after task.
fn collect_arch_types(tasks: &Vec<Task>) -> (r: Vec<Vec<String>>)
    ensures
        arches_view(r@) == all_arches(tasks_view(tasks@)),
{
    let ghost tv = tasks_view(tasks@);
    let mut r: Vec<Vec<String>> = Vec::new();
    let mut i: usize = 0;
    assert(arches_view(r@) =~= all_arches(tv.take(0)));
    while i < tasks.len()
        invariant
            i <= tasks@.len(),
            tv == tasks_view(tasks@),
            arches_view(r@) == all_arches(tv.take(i as int)),
        decreases tasks@.len() - i,
    {
        let outs = &tasks[i].outputs;
        let ghost ov = tv[i as int].outputs;
        let ghost base = arches_view(r@);
        let mut j: usize = 0;
        assert(ov == tasks@[i as int]@.outputs);
        assert(base + output_arches(ov.take(0)) =~= base);
        while j < outs.len()
            invariant
                j <= outs@.len(),
                ov == outs@.map_values(|x: TaskOutput| x@),
                arches_view(r@) == base + output_arches(ov.take(j as int)),
            decreases outs@.len() - j,
        {
            assert(ov.take(j + 1).drop_last() =~= ov.take(j as int));
            assert(ov[j as int] == outs@[j as int]@);
            match &outs[j] {
                TaskOutput::Arch(v) => {
                    let s = sort_strings(v);
                    let ghost before = r@;
                    r.push(s);
                    assert(arches_view(r@) =~= arches_view(before).push(strs(s@)));
                },
                _ => {},
            }
            j = j + 1;
        }
        assert(ov.take(j as int) =~= ov);
        assert(tv.take(i + 1).drop_last() =~= tv.take(i as int));
        i = i + 1;
    }
    assert(tv.take(i as int) =~= tv);
    r
}

/// Each type that an input of the given kind names, once.
fn collect_input_types(tasks: &Vec<Task>, kind: u8) -> (r: Vec<String>)
    requires
        kind <= 2,
    ensures
        strs(r@).no_duplicates(),
        strs(r@).to_set() == input_types(tasks_view(tasks@), kind as int),
{
    let ghost tv = tasks_view(tasks@);
    let mut r: Vec<String> = Vec::new();
    let mut i: usize = 0;
    while i < tasks.len()
        invariant
            i <= tasks@.len(),
            tv == tasks_view(tasks@),
            strs(r@).no_duplicates(),
            forall|t: Seq<char>| strs(r@).to_set().contains(t) <==> exists|a: int, b: int| 0 <= a < i && 0 <= b < tv[a].inputs.len()
                && #[trigger] typed_input(tv[a].inputs[b], kind as int) == Some(t),
        decreases tasks@.len() - i,
    {
        let ins = &tasks[i].inputs;
        let mut j: usize = 0;
        assert(tv[i as int] == tasks@[i as int]@);
        while j < ins.len()
            invariant
                i < tasks@.len(),
                j <= ins@.len(),
                tv == tasks_view(tasks@),
                ins@ == tasks@[i as int].inputs@,
                tv[i as int] == tasks@[i as int]@,
                strs(r@).no_duplicates(),
                forall|t: Seq<char>| strs(r@).to_set().contains(t) <==> (exists|a: int, b: int| 0 <= a < i && 0 <= b < tv[a].inputs.len()
                    && #[trigger] typed_input(tv[a].inputs[b], kind as int) == Some(t)) || (exists|b: int| 0 <= b < j
                    && #[trigger] typed_input(tv[i as int].inputs[b], kind as int) == Some(t)),
            decreases ins@.len() - j,
        {
            assert(tv[i as int].inputs[j as int] == ins@[j as int]@);
            let found: Option<&String> = match &ins[j] {
                TaskInput::Resources(_, t) => if kind == 0 { Some(t) } else { None },
                TaskInput::State(_, t) => if kind == 1 { Some(t) } else { None },
                TaskInput::Hierarchy(_, t) => if kind == 2 { Some(t) } else { None },
                _ => None,
            };
            let ghost before = strs(r@).to_set();
            let ghost got = typed_input(tv[i as int].inputs[j as int], kind as int);
            match found {
                Some(t) => {
                    push_unique(&mut r, t.clone());
                    assert(got == Some(t@));
                },
                None => {
                    assert(got is None);
                },
            }
            proof {
                assert forall|t: Seq<char>| strs(r@).to_set().contains(t) <==> (exists|a: int, b: int| 0 <= a < i && 0 <= b < tv[a].inputs.len()
                    && #[trigger] typed_input(tv[a].inputs[b], kind as int) == Some(t)) || (exists|b: int| 0 <= b < j + 1
                    && #[trigger] typed_input(tv[i as int].inputs[b], kind as int) == Some(t)) by {
                    if got == Some(t) {
                        assert(typed_input(tv[i as int].inputs[j as int], kind as int) == Some(t));
                    }
                    if exists|b: int| 0 <= b < j + 1 && #[trigger] typed_input(tv[i as int].inputs[b], kind as int) == Some(t) {
                        let b = choose|b: int| 0 <= b < j + 1 && #[trigger] typed_input(tv[i as int].inputs[b], kind as int) == Some(t);
                        if b < j {
                            assert(exists|b: int| 0 <= b < j && #[trigger] typed_input(tv[i as int].inputs[b], kind as int) == Some(t));
                        }
                    }
                }
            }
            j = j + 1;
        }
        proof {
            assert forall|t: Seq<char>| strs(r@).to_set().contains(t) <==> exists|a: int, b: int| 0 <= a < i + 1 && 0 <= b < tv[a].inputs.len()
                && #[trigger] typed_input(tv[a].inputs[b], kind as int) == Some(t) by {
                if exists|a: int, b: int| 0 <= a < i + 1 && 0 <= b < tv[a].inputs.len() && #[trigger] typed_input(tv[a].inputs[b], kind as int) == Some(t) {
                    let (a, b) = choose|a: int, b: int| 0 <= a < i + 1 && 0 <= b < tv[a].inputs.len() && #[trigger] typed_input(tv[a].inputs[b], kind as int) == Some(t);
                    if a == i {
                        assert(ins@.len() == tv[i as int].inputs.len());
                        assert(exists|b: int| 0 <= b < j && #[trigger] typed_input(tv[i as int].inputs[b], kind as int) == Some(t));
                    } else {
                        assert(exists|a: int, b: int| 0 <= a < i && 0 <= b < tv[a].inputs.len() && #[trigger] typed_input(tv[a].inputs[b], kind as int) == Some(t));
                    }
                }
            }
        }
        i = i + 1;
    }
    proof {
        assert(strs(r@).to_set() =~= input_types(tv, kind as int));
    }
    r
}


/// Whether two lists hold the same strings in the same order.
fn same_strings(a: &Vec<String>, b: &Vec<String>) -> (r: bool)
    ensures
        r == (strs(a@) == strs(b@)),
{
    if a.len() != b.len() {
        assert(strs(a@).len() != strs(b@).len());
        return false;
    }
    let mut i: usize = 0;
    while i < a.len()
        invariant
            i <= a@.len(),
            a@.len() == b@.len(),
            forall|j: int| 0 <= j < i ==> a@[j]@ == b@[j]@,
        decreases a@.len() - i,
    {
        if a[i] != b[i] {
            assert(strs(a@)[i as int] != strs(b@)[i as int]);
            return false;
        }
        i = i + 1;
    }
    assert(strs(a@) =~= strs(b@));
    true
}

/// Where the list `x` first occurs among the archetypes.
fn find_arch(at: &Vec<Vec<String>>, x: &Vec<String>) -> (r: Option<usize>)
    ensures
        match r {
            Some(i) => i < at@.len() && arches_view(at@)[i as int] == strs(x@) && first_pos(arches_view(at@), strs(x@)) == i,
            None => !arches_view(at@).contains(strs(x@)),
        },
{
    let ghost av = arches_view(at@);
    let mut i: usize = 0;
    while i < at.len()
        invariant
            i <= at@.len(),
            av == arches_view(at@),
            forall|j: int| 0 <= j < i ==> av[j] != strs(x@),
        decreases at@.len() - i,
    {
        if same_strings(&at[i], x) {
            proof {
                lemma_first_pos(av, strs(x@), i as int);
            }
            return Some(i);
        }
        i = i + 1;
    }
    None
}

/// Where the string `x` first occurs in `sub`.
fn find_string(sub: &Vec<String>, x: &String) -> (r: Option<usize>)
    ensures
        match r {
            Some(i) => i < sub@.len() && strs(sub@)[i as int] == x@ && first_pos(strs(sub@), x@) == i,
            None => !strs(sub@).contains(x@),
        },
{
    let mut i: usize = 0;
    while i < sub.len()
        invariant
            i <= sub@.len(),
            forall|j: int| 0 <= j < i ==> strs(sub@)[j] != x@,
        decreases sub@.len() - i,
    {
        if sub[i] == *x {
            proof {
                lemma_first_pos(strs(sub@), x@, i as int);
            }
            return Some(i);
        }
        i = i + 1;
    }
    None
}

/// The component lists a member stands for.
fn member_values_of(m: &MemberType, traits: &Vec<(String, Vec<String>)>) -> (r: Vec<String>)
    requires
        keys_unique(traits@),
        m matches MemberType::Trait(t) ==> traits_view(traits@).contains_key(t@),
    ensures
        strs(r@) == member_values(m@, traits_view(traits@)),
{
    match m {
        MemberType::Normal(t) => {
            let r = vec![t.clone()];
            assert(strs(r@) =~= seq![t@]);
            r
        },
        MemberType::Trait(t) => {
            match get_key(traits, t.as_str()) {
                Some(v) => v.clone(),
                None => {
                    assert(false);
                    Vec::new()
                },
            }
        },
    }
}

/// Each combination of `cs` extended by each value of `vs`.
fn extend_combinations(cs: &Vec<Vec<String>>, vs: &Vec<String>) -> (r: Vec<Vec<String>>)
    ensures
        arches_view(r@) == extend_all(arches_view(cs@), strs(vs@)),
{
    let ghost cv = arches_view(cs@);
    let ghost vv = strs(vs@);
    let mut r: Vec<Vec<String>> = Vec::new();
    let mut a: usize = 0;
    assert(arches_view(r@) =~= extend_all(cv.take(0), vv));
    while a < cs.len()
        invariant
            a <= cs@.len(),
            cv == arches_view(cs@),
            vv == strs(vs@),
            arches_view(r@) == extend_all(cv.take(a as int), vv),
        decreases cs@.len() - a,
    {
        let ghost base = arches_view(r@);
        let mut b: usize = 0;
        assert(base + vv.take(0).map_values(|v: Seq<char>| cv[a as int].push(v)) =~= base);
        while b < vs.len()
            invariant
                a < cs@.len(),
                b <= vs@.len(),
                cv == arches_view(cs@),
                vv == strs(vs@),
                arches_view(r@) == base + vv.take(b as int).map_values(|v: Seq<char>| cv[a as int].push(v)),
            decreases vs@.len() - b,
        {
            let mut nc = cs[a].clone();
            assert(strs(nc@) =~= cv[a as int]);
            nc.push(vs[b].clone());
            let ghost before = r@;
            r.push(nc);
            proof {
                assert(strs(nc@) =~= cv[a as int].push(vv[b as int]));
                assert(arches_view(r@) =~= arches_view(before).push(strs(nc@)));
                assert(vv.take(b + 1).map_values(|v: Seq<char>| cv[a as int].push(v))
                    =~= vv.take(b as int).map_values(|v: Seq<char>| cv[a as int].push(v)).push(cv[a as int].push(vv[b as int])));
            }
            b = b + 1;
        }
        proof {
            assert(vv.take(b as int) =~= vv);
            assert(cv.take(a + 1).drop_last() =~= cv.take(a as int));
            assert(cv.take(a + 1).last() == cv[a as int]);
        }
        a = a + 1;
    }
    assert(cv.take(a as int) =~= cv);
    r
}

/// Each combination that takes one value from each list, the first list
/// varying slowest.
fn combinations(ls: &Vec<Vec<String>>) -> (r: Vec<Vec<String>>)
    ensures
        arches_view(r@) == product(arches_view(ls@)),
{
    let ghost lv = arches_view(ls@);
    let mut combos: Vec<Vec<String>> = vec![Vec::new()];
    assert(strs(combos@[0]@) =~= Seq::<Seq<char>>::empty());
    assert(arches_view(combos@) =~= product(lv.take(0)));
    let mut i: usize = 0;
    while i < ls.len()
        invariant
            i <= ls@.len(),
            lv == arches_view(ls@),
            arches_view(combos@) == product(lv.take(i as int)),
        decreases ls@.len() - i,
    {
        combos = extend_combinations(&combos, &ls[i]);
        proof {
            assert(lv.take(i + 1).drop_last() =~= lv.take(i as int));
            assert(lv.take(i + 1).last() == lv[i as int]);
        }
        i = i + 1;
    }
    assert(lv.take(i as int) =~= lv);
    combos
}

/// Whether `sub` holds every string of `c`.
fn holds_all(sub: &Vec<String>, c: &Vec<String>) -> (r: bool)
    ensures
        r == (forall|e: int| 0 <= e < c@.len() ==> #[trigger] strs(sub@).contains(strs(c@)[e])),
{
    let mut e: usize = 0;
    while e < c.len()
        invariant
            e <= c@.len(),
            forall|k: int| 0 <= k < e ==> #[trigger] strs(sub@).contains(strs(c@)[k]),
        decreases c@.len() - e,
    {
        match find_string(sub, &c[e]) {
            None => {
                assert(!strs(sub@).contains(strs(c@)[e as int]));
                return false;
            },
            Some(i) => {
                assert(strs(sub@)[i as int] == strs(c@)[e as int]);
            },
        }
        e = e + 1;
    }
    true
}

/// The position in `sub` of each string of `c`.
fn positions(sub: &Vec<String>, c: &Vec<String>) -> (r: Vec<usize>)
    requires
        forall|e: int| 0 <= e < c@.len() ==> #[trigger] strs(sub@).contains(strs(c@)[e]),
    ensures
        r@.map_values(|u: usize| u as int) == strs(c@).map_values(|x: Seq<char>| first_pos(strs(sub@), x)),
{
    let ghost sv = strs(sub@);
    let ghost cv = strs(c@);
    let mut r: Vec<usize> = Vec::new();
    let mut e: usize = 0;
    while e < c.len()
        invariant
            e <= c@.len(),
            sv == strs(sub@),
            cv == strs(c@),
            forall|k: int| 0 <= k < cv.len() ==> #[trigger] sv.contains(cv[k]),
            r@.len() == e,
            forall|k: int| 0 <= k < e ==> r@[k] as int == first_pos(sv, #[trigger] cv[k]),
        decreases c@.len() - e,
    {
        assert(sv.contains(cv[e as int]));
        match find_string(sub, &c[e]) {
            Some(p) => {
                r.push(p);
            },
            None => {
                assert(false);
            },
        }
        e = e + 1;
    }
    assert(r@.map_values(|u: usize| u as int) =~= cv.map_values(|x: Seq<char>| first_pos(sv, x)));
    r
}

/// Appends the archetypes that hold every string of `c`, each with the
/// positions of `c`'s strings in it.
fn push_matches(at: &Vec<Vec<String>>, c: &Vec<String>, out: &mut Vec<(usize, Vec<usize>)>)
    ensures
        pairs_view(final(out)@) == pairs_view(old(out)@) + matches_upto(arches_view(at@), strs(c@), at@.len() as int),
{
    let ghost av = arches_view(at@);
    let ghost cv = strs(c@);
    let ghost base = pairs_view(out@);
    let mut o: usize = 0;
    assert(base + matches_upto(av, cv, 0) =~= base);
    while o < at.len()
        invariant
            o <= at@.len(),
            av == arches_view(at@),
            cv == strs(c@),
            pairs_view(out@) == base + matches_upto(av, cv, o as int),
        decreases at@.len() - o,
    {
        let ghost before = out@;
        assert(av[o as int] == strs(at@[o as int]@));
        if holds_all(&at[o], c) {
            let ps = positions(&at[o], c);
            out.push((o, ps));
            proof {
                assert(forall|e: int| 0 <= e < cv.len() ==> #[trigger] av[o as int].contains(cv[e]));
                assert(pairs_view(out@) =~= pairs_view(before).push((o as int, cv.map_values(|x: Seq<char>| first_pos(av[o as int], x)))));
            }
        } else {
            proof {
                assert(!(forall|e: int| 0 <= e < cv.len() ==> #[trigger] av[o as int].contains(cv[e])));
            }
        }
        o = o + 1;
    }
    assert(o == at@.len());
}


/// The matches of each combination, combination after combination.
fn index_data_of(at: &Vec<Vec<String>>, combos: &Vec<Vec<String>>) -> (r: Vec<(usize, Vec<usize>)>)
    ensures
        pairs_view(r@) == index_data(arches_view(at@), arches_view(combos@)),
{
    let ghost cv = arches_view(combos@);
    let mut r: Vec<(usize, Vec<usize>)> = Vec::new();
    let mut i: usize = 0;
    assert(pairs_view(r@) =~= index_data(arches_view(at@), cv.take(0)));
    while i < combos.len()
        invariant
            i <= combos@.len(),
            cv == arches_view(combos@),
            pairs_view(r@) == index_data(arches_view(at@), cv.take(i as int)),
        decreases combos@.len() - i,
    {
        push_matches(at, &combos[i], &mut r);
        proof {
            assert(cv.take(i + 1).drop_last() =~= cv.take(i as int));
            assert(cv.take(i + 1).last() == cv[i as int]);
        }
        i = i + 1;
    }
    assert(cv.take(i as int) =~= cv);
    r
}

/// Every trait that an archetype input of `t` names is one that `traits`
/// lists.
pub open spec fn traits_known(t: TaskView, traits: Map<Seq<char>, Seq<Seq<char>>>) -> bool {
    forall|j: int, i: int| 0 <= j < t.inputs.len() && t.inputs[j] is Arch && 0 <= i < t.inputs[j]->Arch_1.len()
        && (#[trigger] t.inputs[j]->Arch_1[i]) is Trait ==> traits.contains_key(t.inputs[j]->Arch_1[i]->Trait_0)
}

/// The archetype of an output is among those of the outputs.
proof fn lemma_output_in_arches(outs: Seq<OutputView>, j: int)
    requires
        0 <= j < outs.len(),
        outs[j] is Arch,
    ensures
        output_arches(outs).contains(sorted_strs(outs[j]->Arch_0)),
    decreases outs.len(),
{
    let x = sorted_strs(outs[j]->Arch_0);
    if j == outs.len() - 1 {
        let a = output_arches(outs);
        assert(a[a.len() - 1] == x);
    } else {
        lemma_output_in_arches(outs.drop_last(), j);
        let p = output_arches(outs.drop_last());
        let k = choose|k: int| 0 <= k < p.len() && p[k] == x;
        assert(output_arches(outs)[k] == x);
    }
}

/// The archetype of each task's output is among the archetypes.
proof fn lemma_task_output_in_arches(ts: Seq<TaskView>, i: int, j: int)
    requires
        0 <= i < ts.len(),
        0 <= j < ts[i].outputs.len(),
        ts[i].outputs[j] is Arch,
    ensures
        all_arches(ts).contains(sorted_strs(ts[i].outputs[j]->Arch_0)),
    decreases ts.len(),
{
    let x = sorted_strs(ts[i].outputs[j]->Arch_0);
    if i == ts.len() - 1 {
        lemma_output_in_arches(ts[i].outputs, j);
        let o = output_arches(ts[i].outputs);
        let k = choose|k: int| 0 <= k < o.len() && o[k] == x;
        let p = all_arches(ts.drop_last());
        assert(all_arches(ts)[p.len() + k] == x);
    } else {
        assert(ts.drop_last()[i] == ts[i]);
        lemma_task_output_in_arches(ts.drop_last(), i, j);
        let p = all_arches(ts.drop_last());
        let k = choose|k: int| 0 <= k < p.len() && p[k] == x;
        assert(all_arches(ts)[k] == x);
    }
}

/// For each archetype output, the first index of its sorted component list
/// among the archetypes.
fn output_indexes(outs: &Vec<TaskOutput>, at: &Vec<Vec<String>>, Ghost(ov): Ghost<Seq<OutputView>>) -> (r: Vec<usize>)
    requires
        ov == outs@.map_values(|x: TaskOutput| x@),
        forall|j: int| 0 <= j < ov.len() && #[trigger] ov[j] is Arch ==> arches_view(at@).contains(sorted_strs(ov[j]->Arch_0)),
    ensures
        r@.len() == output_arches(ov).len(),
        forall|k: int| 0 <= k < r@.len() ==> r@[k] as int == first_pos(arches_view(at@), #[trigger] output_arches(ov)[k]),
{
    let ghost av = arches_view(at@);
    let mut output: Vec<usize> = Vec::new();
    let mut j: usize = 0;
    while j < outs.len()
        invariant
            j <= outs@.len(),
            av == arches_view(at@),
            ov == outs@.map_values(|x: TaskOutput| x@),
            forall|k: int| 0 <= k < ov.len() && #[trigger] ov[k] is Arch ==> av.contains(sorted_strs(ov[k]->Arch_0)),
            output@.len() == output_arches(ov.take(j as int)).len(),
            forall|k: int| 0 <= k < output@.len() ==> output@[k] as int == first_pos(av, #[trigger] output_arches(ov.take(j as int))[k]),
        decreases outs@.len() - j,
    {
        assert(ov[j as int] == outs@[j as int]@);
        assert(ov.take(j + 1).drop_last() =~= ov.take(j as int));
        let ghost prev = output_arches(ov.take(j as int));
        match &outs[j] {
            TaskOutput::Arch(v) => {
                let sv = sort_strings(v);
                assert(ov[j as int] is Arch);
                match find_arch(at, &sv) {
                    Some(p) => {
                        output.push(p);
                        proof {
                            let x = sorted_strs(strs(v@));
                            assert(output_arches(ov.take(j + 1)) =~= prev.push(x));
                        }
                    },
                    None => {
                        assert(false);
                    },
                }
            },
            _ => {
                assert(output_arches(ov.take(j + 1)) =~= prev);
            },
        }
        j = j + 1;
    }
    assert(ov.take(j as int) =~= ov);
    output
}

/// The archetype inputs and outputs of one task.
fn task_io_of(task: &Task, at: &Vec<Vec<String>>, traits: &Vec<(String, Vec<String>)>) -> (r: TasksInputOutput)
    requires
        keys_unique(traits@),
        traits_known(task@, traits_view(traits@)),
        forall|j: int| 0 <= j < task@.outputs.len() && #[trigger] task@.outputs[j] is Arch
            ==> arches_view(at@).contains(sorted_strs(task@.outputs[j]->Arch_0)),
    ensures
        r@ == task_io(task@, arches_view(at@), traits_view(traits@)),
{
    let ghost av = arches_view(at@);
    let ghost tr = traits_view(traits@);
    let ghost tv = task@;
    let ghost iv = tv.inputs;
    let ghost ov = tv.outputs;
    let ghost f = |k: int, ms: Seq<MemberView>| ArchInputView {
        members: ms,
        task_index: k,
        indexes: index_data(av, product(ms.map_values(|m: MemberView| member_values(m, tr)))),
    };
    let output = output_indexes(&task.outputs, at, Ghost(ov));
    assert(output@.map_values(|u: usize| u as int) =~= output_arches(ov).map_values(|x: Seq<Seq<char>>| first_pos(av, x)));

    let mut input: Vec<TaskArchType> = Vec::new();
    let mut index: usize = 0;
    let mut j: usize = 0;
    assert(input@.map_values(|x: TaskArchType| x@) =~= arch_inputs(iv.take(0)).map(f));
    while j < task.inputs.len()
        invariant
            j <= task.inputs@.len(),
            av == arches_view(at@),
            tr == traits_view(traits@),
            keys_unique(traits@),
            tv == task@,
            iv == tv.inputs,
            traits_known(tv, tr),
            index as int == arch_inputs(iv.take(j as int)).len(),
            index <= j,
            f == (|k: int, ms: Seq<MemberView>| ArchInputView {
                members: ms,
                task_index: k,
                indexes: index_data(av, product(ms.map_values(|m: MemberView| member_values(m, tr)))),
            }),
            input@.map_values(|x: TaskArchType| x@) == arch_inputs(iv.take(j as int)).map(f),
        decreases task.inputs@.len() - j,
    {
        assert(iv[j as int] == task.inputs@[j as int]@);
        assert(iv.take(j + 1).drop_last() =~= iv.take(j as int));
        let ghost before = input@;
        match &task.inputs[j] {
            TaskInput::Arch(_, members) => {
                let ghost ms = members_view(members@);
                let mut lists: Vec<Vec<String>> = Vec::new();
                let mut m: usize = 0;
                while m < members.len()
                    invariant
                        m <= members@.len(),
                        ms == members_view(members@),
                        iv[j as int] == InputView::Arch(iv[j as int]->Arch_0, ms),
                        j < iv.len(),
                        tr == traits_view(traits@),
                        keys_unique(traits@),
                        traits_known(tv, tr),
                        iv == tv.inputs,
                        arches_view(lists@) == ms.take(m as int).map_values(|x: MemberView| member_values(x, tr)),
                    decreases members@.len() - m,
                {
                    assert(ms[m as int] == members@[m as int]@);
                    assert(tv.inputs[j as int] matches InputView::Arch(_, ms2) && ms2 == ms);
                    let vals = member_values_of(&members[m], traits);
                    let ghost lb = lists@;
                    lists.push(vals);
                    proof {
                        assert(arches_view(lists@) =~= arches_view(lb).push(strs(vals@)));
                        assert(ms.take(m + 1).map_values(|x: MemberView| member_values(x, tr))
                            =~= ms.take(m as int).map_values(|x: MemberView| member_values(x, tr)).push(member_values(ms[m as int], tr)));
                    }
                    m = m + 1;
                }
                assert(ms.take(m as int) =~= ms);
                let combos = combinations(&lists);
                let data = index_data_of(at, &combos);
                let kept = members.clone();
                assert(members_view(kept@) =~= ms);
                input.push(TaskArchType { arch_type_type: kept, task_index: index, input_arch_type_indexes: data });
                proof {
                    assert(arch_inputs(iv.take(j + 1)) =~= arch_inputs(iv.take(j as int)).push(ms));
                    assert(arch_inputs(iv.take(j + 1)).map(f) =~= arch_inputs(iv.take(j as int)).map(f).push(f(index as int, ms)));
                    assert(input@.map_values(|x: TaskArchType| x@) =~= before.map_values(|x: TaskArchType| x@).push(input@[index as int]@));
                }
                index = index + 1;
            },
            _ => {
                assert(arch_inputs(iv.take(j + 1)) =~= arch_inputs(iv.take(j as int)));
            },
        }
        j = j + 1;
    }
    assert(iv.take(j as int) =~= iv);
    let r = TasksInputOutput { input, output };
    assert(r@.input =~= task_io(tv, av, tr).input);
    assert(r@.output =~= task_io(tv, av, tr).output);
    r
}

/// The archetypes that the tasks' outputs make, each sorted, in the order
/// of the tasks and their outputs; for each task by name, where its
/// archetype inputs are found among them and which of them it outputs; and
/// the resources, states and hierarchies the tasks use. `trait_to_components`
/// lists the components of each trait in the order a member that names the
/// trait goes through them.
pub fn get_all_archetypes(tasks: &Vec<Task>, trait_to_components: &Vec<(String, Vec<String>)>) -> (r: ArchTypes)
    requires
        keys_unique(trait_to_components@),
        forall|i: int| 0 <= i < tasks@.len() ==> traits_known(#[trigger] tasks@[i]@, traits_view(trait_to_components@)),
    ensures
        arches_view(r.arch_types@) == all_arches(tasks_view(tasks@)),
        keys_unique(r.tasks@),
        view_map(r.tasks@) == all_io(tasks_view(tasks@), all_arches(tasks_view(tasks@)), traits_view(trait_to_components@)),
        strs(r.resources@).no_duplicates(),
        strs(r.resources@).to_set() == input_types(tasks_view(tasks@), 0),
        strs(r.states@).no_duplicates(),
        strs(r.states@).to_set() == input_types(tasks_view(tasks@), 1),
        strs(r.hierarchy@).no_duplicates(),
        strs(r.hierarchy@).to_set() == input_types(tasks_view(tasks@), 2),
{
    let ghost tv = tasks_view(tasks@);
    let ghost tr = traits_view(trait_to_components@);
    let arch_types = collect_arch_types(tasks);
    let resources = collect_input_types(tasks, 0);
    let states = collect_input_types(tasks, 1);
    let hierarchy = collect_input_types(tasks, 2);
    let ghost av = arches_view(arch_types@);
    let mut ios: Vec<(String, TasksInputOutput)> = Vec::new();
    let mut i: usize = 0;
    assert(view_map(ios@) =~= all_io(tv.take(0), av, tr));
    while i < tasks.len()
        invariant
            i <= tasks@.len(),
            tv == tasks_view(tasks@),
            tr == traits_view(trait_to_components@),
            av == arches_view(arch_types@),
            av == all_arches(tv),
            keys_unique(trait_to_components@),
            forall|k: int| 0 <= k < tasks@.len() ==> traits_known(#[trigger] tasks@[k]@, tr),
            keys_unique(ios@),
            view_map(ios@) == all_io(tv.take(i as int), av, tr),
        decreases tasks@.len() - i,
    {
        assert(tv[i as int] == tasks@[i as int]@);
        proof {
            assert forall|j: int| 0 <= j < tasks@[i as int]@.outputs.len() && #[trigger] tasks@[i as int]@.outputs[j] is Arch
                implies av.contains(sorted_strs(tasks@[i as int]@.outputs[j]->Arch_0)) by {
                lemma_task_output_in_arches(tv, i as int, j);
            }
        }
        let io = task_io_of(&tasks[i], &arch_types, trait_to_components);
        insert_viewed(&mut ios, tasks[i].name.clone(), io);
        assert(tv.take(i + 1).drop_last() =~= tv.take(i as int));
        i = i + 1;
    }
    assert(tv.take(i as int) =~= tv);
    ArchTypes { arch_types, tasks: ios, resources, states, hierarchy }
}

} // verus!
