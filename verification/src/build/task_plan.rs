//! What the engine's code for running one task is made of: the value
//! passed for each input, where each output goes, the archetype locks a
//! long task holds, and how the call is wrapped for the task's kind.

use vstd::prelude::*;
use vstd::string::StringExecFns;
use crate::build::archetypes::{first_pos, ArchInputView, TaskArchType, TasksInputOutput};
use crate::build::declarations::{drop_char, drop_char_exec};
use crate::build::dependency::{views, DependencyType, NodeView, TaskType};
use crate::build::tasks::{inputs_view, outputs_view, InputView, OutputView, Task, TaskInput, TaskOutput};
use crate::build::wiring::output_positions;
use crate::text::{sorted_strs, strs};

verus! {

/// What is passed for one input of a task.
#[derive(Debug)]
pub enum InputPlan {
    /// A view of the task's archetype input number `.0`, over the
    /// archetypes `.1`.
    Arch(usize, Vec<usize>),
    /// The resource kept under this name.
    Resource(String),
    /// The state kept under this name.
    State(String),
    /// The hierarchy kept under this name.
    Hierarchy(String),
    /// The time since the last frame.
    DeltaTime,
}

/// Where one output of a task goes.
#[derive(Debug)]
pub enum OutputPlan {
    /// Field `.0` of what the task returns holds new members of archetype
    /// `.1`; member `k` of each new entity goes where `.2[k]` says.
    Arch(usize, usize, Vec<usize>),
    /// Field `.0` holds raised signals.
    Signal(usize),
    /// Field `.0` says whether a reset was asked for.
    Reset(usize),
}

/// What an input plan reads as.
pub enum InputPlanView {
    Arch(int, Seq<int>),
    Resource(Seq<char>),
    State(Seq<char>),
    Hierarchy(Seq<char>),
    DeltaTime,
}

/// What an output plan reads as.
pub enum OutputPlanView {
    Arch(int, int, Seq<int>),
    Signal(int),
    Reset(int),
}

impl View for InputPlan {
    type V = InputPlanView;

    open spec fn view(&self) -> InputPlanView {
        match self {
            InputPlan::Arch(i, s) => InputPlanView::Arch(*i as int, s@.map_values(|u: usize| u as int)),
            InputPlan::Resource(n) => InputPlanView::Resource(n@),
            InputPlan::State(n) => InputPlanView::State(n@),
            InputPlan::Hierarchy(n) => InputPlanView::Hierarchy(n@),
            InputPlan::DeltaTime => InputPlanView::DeltaTime,
        }
    }
}

impl View for OutputPlan {
    type V = OutputPlanView;

    open spec fn view(&self) -> OutputPlanView {
        match self {
            OutputPlan::Arch(f, a, m) => OutputPlanView::Arch(*f as int, *a as int, m@.map_values(|u: usize| u as int)),
            OutputPlan::Signal(f) => OutputPlanView::Signal(*f as int),
            OutputPlan::Reset(f) => OutputPlanView::Reset(*f as int),
        }
    }
}

/// The plan of one task's code.
#[derive(Debug)]
pub struct TaskPlan {
    pub inputs: Vec<InputPlan>,
    pub outputs: Vec<OutputPlan>,
    /// The archetypes whose locks a long task holds while it runs, each
    /// once.
    pub locks: Vec<usize>,
    /// The call runs only on frames with a fixed step.
    pub fixed: bool,
    /// The call runs on a thread of its own, one run at a time.
    pub long: bool,
    /// The task runs on a spawned thread.
    pub spawned: bool,
    /// The spawned thread runs the task again and again.
    pub loops: bool,
    /// Each run first waits for the frame to start.
    pub waits_frame: bool,
}

/// The name a resource or state is kept under: `prefix` and the type's
/// text without angle brackets.
pub open spec fn kept_name(prefix: Seq<char>, t: Seq<char>) -> Seq<char> {
    prefix + drop_char(drop_char(t, '<'), '>')
}

/// How many archetype inputs are among `ins`.
pub open spec fn arch_inputs(ins: Seq<InputView>) -> int
    decreases ins.len(),
{
    if ins.len() == 0 {
        0
    } else {
        arch_inputs(ins.drop_last()) + if ins.last() is Arch { 1int } else { 0int }
    }
}

/// The plan of an input, the archetype inputs before it being `k`; none
/// where the task has no `k`-th archetype input.
pub open spec fn input_plan(x: InputView, io: Seq<ArchInputView>, k: int) -> Option<InputPlanView> {
    match x {
        InputView::Arch(_, _) => if 0 <= k < io.len() {
            Some(InputPlanView::Arch(io[k].task_index, io[k].indexes.map_values(|p: (int, Seq<int>)| p.0)))
        } else {
            None
        },
        InputView::Resources(_, t) => Some(InputPlanView::Resource(kept_name("r_"@, t))),
        InputView::State(_, t) => Some(InputPlanView::State(kept_name("st_"@, t))),
        InputView::Hierarchy(_, t) => Some(InputPlanView::Hierarchy("h_"@ + t)),
        InputView::DeltaTime(_) => Some(InputPlanView::DeltaTime),
    }
}

/// The plans of the inputs, in order; none where one has none.
pub open spec fn inputs_plan(ins: Seq<InputView>, io: Seq<ArchInputView>) -> Option<Seq<InputPlanView>>
    decreases ins.len(),
{
    if ins.len() == 0 {
        Some(Seq::empty())
    } else {
        match (inputs_plan(ins.drop_last(), io), input_plan(ins.last(), io, arch_inputs(ins.drop_last()))) {
            (Some(p), Some(x)) => Some(p.push(x)),
            _ => None,
        }
    }
}

/// How many outputs among `outs` take a field of what the task returns:
/// archetypes and signals (a reset takes none of its own).
pub open spec fn output_fields(outs: Seq<OutputView>) -> int
    decreases outs.len(),
{
    if outs.len() == 0 {
        0
    } else {
        output_fields(outs.drop_last()) + if outs.last() is Reset { 0int } else { 1int }
    }
}

/// How many archetype outputs are among `outs`.
pub open spec fn arch_outputs(outs: Seq<OutputView>) -> int
    decreases outs.len(),
{
    if outs.len() == 0 {
        0
    } else {
        arch_outputs(outs.drop_last()) + if outs.last() is Arch { 1int } else { 0int }
    }
}

/// Where the components of an output's entities go: for the components in
/// order, the first position of each among the output's.
pub open spec fn component_map(v: Seq<Seq<char>>) -> Seq<int> {
    Seq::new(v.len(), |k: int| first_pos(v, sorted_strs(v)[k]))
}

/// The plan of an output, `f` fields and `a` archetype outputs coming
/// before it; none where the task has no `a`-th archetype output.
pub open spec fn output_plan(x: OutputView, out: Seq<int>, f: int, a: int) -> Option<OutputPlanView> {
    match x {
        OutputView::Arch(v) => if 0 <= a < out.len() {
            Some(OutputPlanView::Arch(f, out[a], component_map(v)))
        } else {
            None
        },
        OutputView::Signal => Some(OutputPlanView::Signal(f)),
        OutputView::Reset => Some(OutputPlanView::Reset(f)),
    }
}

/// The plans of the outputs, in order; none where one has none.
pub open spec fn outputs_plan(outs: Seq<OutputView>, out: Seq<int>) -> Option<Seq<OutputPlanView>>
    decreases outs.len(),
{
    if outs.len() == 0 {
        Some(Seq::empty())
    } else {
        let before = outs.drop_last();
        match (outputs_plan(before, out), output_plan(outs.last(), out, output_fields(before), arch_outputs(before))) {
            (Some(p), Some(x)) => Some(p.push(x)),
            _ => None,
        }
    }
}

/// The archetypes that some archetype input reads from.
pub open spec fn read_archetypes(io: Seq<ArchInputView>) -> Set<int> {
    Set::new(|a: int| exists|i: int, j: int| 0 <= i < io.len() && 0 <= j < io[i].indexes.len()
        && #[trigger] io[i].indexes[j].0 == a)
}

/// The first archetype of each source of each archetype input, in order.
pub open spec fn arch_sources(io: Seq<ArchInputView>) -> Seq<int>
    decreases io.len(),
{
    if io.len() == 0 {
        Seq::empty()
    } else {
        arch_sources(io.drop_last()) + io.last().indexes.map_values(|p: (int, Seq<int>)| p.0)
    }
}

/// The views of input plans.
pub open spec fn input_plans_view(s: Seq<InputPlan>) -> Seq<InputPlanView> {
    s.map_values(|x: InputPlan| x@)
}

/// The views of output plans.
pub open spec fn output_plans_view(s: Seq<OutputPlan>) -> Seq<OutputPlanView> {
    s.map_values(|x: OutputPlan| x@)
}

/// The text `prefix` followed by `t`.
fn prefixed(prefix: &str, t: &str) -> (r: String)
    ensures
        r@ == prefix@ + t@,
{
    let mut r = prefix.to_string();
    r.append(t);
    r
}

/// The first archetype of each source of an archetype input.
fn sources_of(t: &TaskArchType) -> (r: Vec<usize>)
    ensures
        r@.map_values(|u: usize| u as int) == t@.indexes.map_values(|p: (int, Seq<int>)| p.0),
{
    let mut r: Vec<usize> = Vec::new();
    let mut j: usize = 0;
    while j < t.input_arch_type_indexes.len()
        invariant
            j <= t.input_arch_type_indexes@.len(),
            r@.len() == j,
            t@.indexes.len() == t.input_arch_type_indexes@.len(),
            forall|x: int| 0 <= x < j ==> #[trigger] r@[x] as int == t@.indexes[x].0,
        decreases t.input_arch_type_indexes@.len() - j,
    {
        assert(t@.indexes[j as int].0 == t.input_arch_type_indexes@[j as int].0 as int);
        r.push(t.input_arch_type_indexes[j].0);
        j = j + 1;
    }
    assert(r@.map_values(|u: usize| u as int) =~= t@.indexes.map_values(|p: (int, Seq<int>)| p.0));
    r
}

/// The plan of one input; `k` archetype inputs come before it.
fn plan_input(x: &TaskInput, io: &TasksInputOutput, k: usize) -> (r: Option<InputPlan>)
    ensures
        match r {
            Some(p) => input_plan(x@, io@.input, k as int) == Some(p@),
            None => input_plan(x@, io@.input, k as int) is None,
        },
{
    match x {
        TaskInput::Arch(_, _) => {
            if k < io.input.len() {
                let t = &io.input[k];
                Some(InputPlan::Arch(t.task_index, sources_of(t)))
            } else {
                None
            }
        },
        TaskInput::Resources(_, t) => {
            let d = drop_char_exec(drop_char_exec(t.as_str(), '<').as_str(), '>');
            proof {
                reveal_strlit("r_");
            }
            Some(InputPlan::Resource(prefixed("r_", d.as_str())))
        },
        TaskInput::State(_, t) => {
            let d = drop_char_exec(drop_char_exec(t.as_str(), '<').as_str(), '>');
            Some(InputPlan::State(prefixed("st_", d.as_str())))
        },
        TaskInput::Hierarchy(_, t) => Some(InputPlan::Hierarchy(prefixed("h_", t.as_str()))),
        TaskInput::DeltaTime(_) => Some(InputPlan::DeltaTime),
    }
}

/// The plan of one output; `f` fields and `a` archetype outputs come
/// before it.
fn plan_output(x: &TaskOutput, io: &TasksInputOutput, f: usize, a: usize) -> (r: Option<OutputPlan>)
    ensures
        match r {
            Some(p) => output_plan(x@, io@.output, f as int, a as int) == Some(p@),
            None => output_plan(x@, io@.output, f as int, a as int) is None,
        },
{
    match x {
        TaskOutput::Arch(v) => {
            if a < io.output.len() {
                let m = output_positions(v);
                assert(m@.map_values(|u: usize| u as int) =~= component_map(strs(v@)));
                Some(OutputPlan::Arch(f, io.output[a], m))
            } else {
                None
            }
        },
        TaskOutput::Signal => Some(OutputPlan::Signal(f)),
        TaskOutput::Reset => Some(OutputPlan::Reset(f)),
    }
}

/// The values of `v`, each once, in the order they first occur.
fn distinct_values(v: &Vec<usize>) -> (r: Vec<usize>)
    ensures
        r@.no_duplicates(),
        forall|a: usize| r@.contains(a) <==> v@.contains(a),
{
    let mut r: Vec<usize> = Vec::new();
    let mut i: usize = 0;
    while i < v.len()
        invariant
            i <= v@.len(),
            r@.no_duplicates(),
            forall|a: usize| r@.contains(a) <==> v@.take(i as int).contains(a),
        decreases v@.len() - i,
    {
        let x = v[i];
        let mut found = false;
        let mut j: usize = 0;
        while j < r.len()
            invariant
                j <= r@.len(),
                found <==> exists|y: int| 0 <= y < j && r@[y] == x,
            decreases r@.len() - j,
        {
            if r[j] == x {
                found = true;
            }
            j = j + 1;
        }
        let ghost r0 = r@;
        let ghost t0 = v@.take(i as int);
        assert(forall|b: usize| r0.contains(b) <==> t0.contains(b));
        assert(v@.take(i + 1) =~= t0.push(x));
        if !found {
            r.push(x);
            assert forall|y: int, z: int| 0 <= y < z < r@.len() implies r@[y] != r@[z] by {
                if z == r@.len() - 1 {
                    assert(r0[y] != x);
                }
            }
        }
        assert forall|b: usize| r@.contains(b) <==> v@.take(i + 1).contains(b) by {
            if r@.contains(b) {
                let y = choose|y: int| 0 <= y < r@.len() && r@[y] == b;
                if y < r0.len() {
                    assert(r0.contains(b));
                    let q = choose|q: int| 0 <= q < t0.len() && t0[q] == b;
                    assert(v@.take(i + 1)[q] == b);
                } else {
                    assert(v@.take(i + 1)[i as int] == b);
                }
            }
            let t1 = v@.take(i + 1);
            if t1.contains(b) {
                let q = choose|q: int| 0 <= q < t1.len() && t1[q] == b;
                if q < i {
                    assert(t0[q] == b);
                    assert(t0.contains(b));
                    assert(r0.contains(b));
                    let y = choose|y: int| 0 <= y < r0.len() && r0[y] == b;
                    assert(r@[y] == b);
                } else if found {
                    let y = choose|y: int| 0 <= y < r0.len() && r0[y] == x;
                    assert(r@[y] == b);
                } else {
                    assert(r@[r0.len() as int] == b);
                }
            }
        }
        i = i + 1;
    }
    assert(v@.take(i as int) =~= v@);
    r
}

/// The plan of the code that runs `task`, whose archetype inputs and
/// outputs `io` describes, as a task of kind `ty`; none where `io` has
/// fewer archetype inputs or outputs than the task.
pub fn task_plan(task: &Task, io: &TasksInputOutput, ty: TaskType) -> (r: Option<TaskPlan>)
    ensures
        r is None <==> (inputs_plan(inputs_view(task.inputs@), io@.input) is None
            || outputs_plan(outputs_view(task.outputs@), io@.output) is None),
        r matches Some(p) ==> {
            &&& inputs_plan(inputs_view(task.inputs@), io@.input) == Some(input_plans_view(p.inputs@))
            &&& outputs_plan(outputs_view(task.outputs@), io@.output) == Some(output_plans_view(p.outputs@))
            &&& p.locks@.no_duplicates()
            &&& ty is Long ==> forall|a: usize| p.locks@.contains(a) <==> arch_sources(io@.input).contains(a as int)
            &&& !(ty is Long) ==> p.locks@.len() == 0
            &&& p.fixed == ty is Fixed
            &&& p.long == ty is Long
            &&& p.spawned == !(ty is Sync)
            &&& p.loops == !(ty is Sync || ty is Setup)
            &&& p.waits_frame == (ty is Update || ty is Long || ty is Fixed)
        },
{
    let ghost iv = inputs_view(task.inputs@);
    let mut inputs: Vec<InputPlan> = Vec::new();
    let mut k: usize = 0;
    let mut i: usize = 0;
    assert(iv.take(0) =~= Seq::<InputView>::empty());
    assert(input_plans_view(inputs@) =~= Seq::<InputPlanView>::empty());
    while i < task.inputs.len()
        invariant
            i <= task.inputs@.len(),
            iv == inputs_view(task.inputs@),
            k as int == arch_inputs(iv.take(i as int)),
            k <= i,
            inputs_plan(iv.take(i as int), io@.input) == Some(input_plans_view(inputs@)),
        decreases task.inputs@.len() - i,
    {
        assert(iv.take(i + 1).drop_last() =~= iv.take(i as int));
        assert(iv.take(i + 1).last() == task.inputs@[i as int]@);
        match plan_input(&task.inputs[i], io, k) {
            Some(x) => {
                let is_arch = matches!(task.inputs[i], TaskInput::Arch(_, _));
                let ghost before = input_plans_view(inputs@);
                inputs.push(x);
                assert(input_plans_view(inputs@) =~= before.push(inputs@.last()@));
                if is_arch {
                    k = k + 1;
                }
            },
            None => {
                proof {
                    lemma_inputs_plan_none(iv, io@.input, i as int + 1);
                }
                return None;
            },
        }
        i = i + 1;
    }
    assert(iv.take(i as int) =~= iv);
    let ghost ov = outputs_view(task.outputs@);
    let mut outputs: Vec<OutputPlan> = Vec::new();
    let mut f: usize = 0;
    let mut a: usize = 0;
    let mut i: usize = 0;
    assert(ov.take(0) =~= Seq::<OutputView>::empty());
    assert(output_plans_view(outputs@) =~= Seq::<OutputPlanView>::empty());
    while i < task.outputs.len()
        invariant
            i <= task.outputs@.len(),
            ov == outputs_view(task.outputs@),
            f as int == output_fields(ov.take(i as int)),
            a as int == arch_outputs(ov.take(i as int)),
            f <= i,
            a <= i,
            outputs_plan(ov.take(i as int), io@.output) == Some(output_plans_view(outputs@)),
            inputs_plan(iv, io@.input) == Some(input_plans_view(inputs@)),
        decreases task.outputs@.len() - i,
    {
        assert(ov.take(i + 1).drop_last() =~= ov.take(i as int));
        assert(ov.take(i + 1).last() == task.outputs@[i as int]@);
        match plan_output(&task.outputs[i], io, f, a) {
            Some(x) => {
                let ghost before = output_plans_view(outputs@);
                outputs.push(x);
                assert(output_plans_view(outputs@) =~= before.push(outputs@.last()@));
                match &task.outputs[i] {
                    TaskOutput::Arch(_) => {
                        f = f + 1;
                        a = a + 1;
                    },
                    TaskOutput::Signal => {
                        f = f + 1;
                    },
                    TaskOutput::Reset => {},
                }
            },
            None => {
                proof {
                    lemma_outputs_plan_none(ov, io@.output, i as int + 1);
                }
                return None;
            },
        }
        i = i + 1;
    }
    assert(ov.take(i as int) =~= ov);
    let long = matches!(ty, TaskType::Long);
    let locks = if long {
        let mut all: Vec<usize> = Vec::new();
        let mut t: usize = 0;
        assert(all@.map_values(|u: usize| u as int) =~= arch_sources(io@.input.take(0)));
        while t < io.input.len()
            invariant
                t <= io.input@.len(),
                all@.map_values(|u: usize| u as int) == arch_sources(io@.input.take(t as int)),
            decreases io.input@.len() - t,
        {
            let mut s = sources_of(&io.input[t]);
            let ghost before = all@;
            all.append(&mut s);
            assert(io@.input.take(t + 1).drop_last() =~= io@.input.take(t as int));
            assert(all@.map_values(|u: usize| u as int) =~= before.map_values(|u: usize| u as int)
                + io@.input[t as int].indexes.map_values(|p: (int, Seq<int>)| p.0));
            t = t + 1;
        }
        assert(io@.input.take(t as int) =~= io@.input);
        let d = distinct_values(&all);
        proof {
            assert forall|x: usize| all@.contains(x) <==> arch_sources(io@.input).contains(x as int) by {
                if all@.contains(x) {
                    let j = choose|j: int| 0 <= j < all@.len() && all@[j] == x;
                    assert(arch_sources(io@.input)[j] == x as int);
                }
                if arch_sources(io@.input).contains(x as int) {
                    let j = choose|j: int| 0 <= j < arch_sources(io@.input).len() && arch_sources(io@.input)[j] == x as int;
                    assert(all@.map_values(|u: usize| u as int)[j] == all@[j] as int);
                    assert(all@[j] == x);
                }
            }
        }
        d
    } else {
        Vec::new()
    };
    Some(TaskPlan {
        inputs,
        outputs,
        locks,
        fixed: matches!(ty, TaskType::Fixed),
        long,
        spawned: !matches!(ty, TaskType::Sync),
        loops: !matches!(ty, TaskType::Sync | TaskType::Setup),
        waits_frame: matches!(ty, TaskType::Update | TaskType::Long | TaskType::Fixed),
    })
}

/// Once an input has no plan, the inputs have none.
proof fn lemma_inputs_plan_none(ins: Seq<InputView>, io: Seq<ArchInputView>, n: int)
    requires
        0 <= n <= ins.len(),
        inputs_plan(ins.take(n), io) is None,
    ensures
        inputs_plan(ins, io) is None,
    decreases ins.len() - n,
{
    if n < ins.len() {
        assert(ins.take(n + 1).drop_last() =~= ins.take(n));
        lemma_inputs_plan_none(ins, io, n + 1);
    } else {
        assert(ins.take(n) =~= ins);
    }
}

/// Once an output has no plan, the outputs have none.
proof fn lemma_outputs_plan_none(outs: Seq<OutputView>, out: Seq<int>, n: int)
    requires
        0 <= n <= outs.len(),
        outputs_plan(outs.take(n), out) is None,
    ensures
        outputs_plan(outs, out) is None,
    decreases outs.len() - n,
{
    if n < outs.len() {
        assert(outs.take(n + 1).drop_last() =~= outs.take(n));
        lemma_outputs_plan_none(outs, out, n + 1);
    } else {
        assert(outs.take(n) =~= outs);
    }
}

/// The names of the tasks among the nodes, in order.
pub open spec fn task_names(ns: Seq<NodeView>) -> Seq<Seq<char>>
    decreases ns.len(),
{
    if ns.len() == 0 {
        Seq::empty()
    } else if ns.last().0 == 2 {
        task_names(ns.drop_last()).push(ns.last().1)
    } else {
        task_names(ns.drop_last())
    }
}

/// The tasks of a run of the scheduling graph, in the order they run; the
/// groups' start and end nodes are left out.
pub fn tasks_in_order(nodes: &Vec<DependencyType>) -> (r: Vec<String>)
    ensures
        strs(r@) == task_names(views(nodes@)),
{
    let mut r: Vec<String> = Vec::new();
    let mut i: usize = 0;
    assert(views(nodes@).take(0) =~= Seq::<NodeView>::empty());
    while i < nodes.len()
        invariant
            i <= nodes@.len(),
            strs(r@) == task_names(views(nodes@).take(i as int)),
        decreases nodes@.len() - i,
    {
        assert(views(nodes@).take(i + 1).drop_last() =~= views(nodes@).take(i as int));
        assert(views(nodes@).take(i + 1).last() == nodes@[i as int]@);
        match &nodes[i] {
            DependencyType::Task(v) => {
                let ghost r0 = strs(r@);
                r.push(v.clone());
                assert(strs(r@) =~= r0.push(v@));
            },
            _ => {},
        }
        i = i + 1;
    }
    assert(views(nodes@).take(i as int) =~= views(nodes@));
    r
}


/// How many archetype outputs are among `outs`, counted as a filter.
proof fn lemma_arch_outputs_count(outs: Seq<OutputView>)
    ensures
        arch_outputs(outs) == outs.filter(|o: OutputView| o is Arch).len(),
        output_fields(outs) == outs.filter(|o: OutputView| !(o is Reset)).len(),
    decreases outs.len(),
{
    reveal(Seq::filter);
    if outs.len() > 0 {
        lemma_arch_outputs_count(outs.drop_last());
    }
}

/// Where a task's outputs go. A plan exists exactly when `out` names an
/// archetype for each archetype output. Output `i` takes field `f` of what
/// the task returns, `f` being how many outputs before it are not resets
/// (a reset takes no field of its own), and the `a`-th archetype output,
/// counting archetype outputs only, writes to the archetype `out[a]`.
pub proof fn lemma_outputs_plan_targets(outs: Seq<OutputView>, out: Seq<int>)
    ensures
        outputs_plan(outs, out) is Some <==> outs.filter(|o: OutputView| o is Arch).len() <= out.len(),
        outputs_plan(outs, out) matches Some(p) ==> p.len() == outs.len() && forall|i: int| 0 <= i < outs.len() ==> {
            let f = outs.take(i).filter(|o: OutputView| !(o is Reset)).len() as int;
            let a = outs.take(i).filter(|o: OutputView| o is Arch).len() as int;
            match #[trigger] outs[i] {
                OutputView::Arch(v) => p[i] == OutputPlanView::Arch(f, out[a], component_map(v)),
                OutputView::Signal => p[i] == OutputPlanView::Signal(f),
                OutputView::Reset => p[i] == OutputPlanView::Reset(f),
            }
        },
    decreases outs.len(),
{
    if outs.len() == 0 {
        reveal(Seq::filter);
        return;
    }
    let before = outs.drop_last();
    lemma_outputs_plan_targets(before, out);
    lemma_arch_outputs_count(before);
    lemma_arch_outputs_count(outs);
    reveal(Seq::filter);
    assert(outs.take(outs.len() - 1) =~= before);
    if let Some(p) = outputs_plan(outs, out) {
        let p0 = outputs_plan(before, out)->Some_0;
        assert(p == p0.push(p.last()));
        assert forall|i: int| 0 <= i < outs.len() implies {
            let f = outs.take(i).filter(|o: OutputView| !(o is Reset)).len() as int;
            let a = outs.take(i).filter(|o: OutputView| o is Arch).len() as int;
            match #[trigger] outs[i] {
                OutputView::Arch(v) => p[i] == OutputPlanView::Arch(f, out[a], component_map(v)),
                OutputView::Signal => p[i] == OutputPlanView::Signal(f),
                OutputView::Reset => p[i] == OutputPlanView::Reset(f),
            }
        } by {
            if i < outs.len() - 1 {
                assert(outs.take(i) =~= before.take(i));
                assert(before[i] == outs[i]);
                assert(p[i] == p0[i]);
            } else {
                assert(outs[i] == outs.last());
            }
        }
    }
}


/// How many archetype inputs are among `ins`, counted as a filter.
proof fn lemma_arch_inputs_count(ins: Seq<InputView>)
    ensures
        arch_inputs(ins) == ins.filter(|x: InputView| x is Arch).len(),
    decreases ins.len(),
{
    reveal(Seq::filter);
    if ins.len() > 0 {
        lemma_arch_inputs_count(ins.drop_last());
    }
}

/// What a task's inputs are passed. A plan exists exactly when `io` has an
/// entry for each archetype input. The `a`-th archetype input, counting
/// archetype inputs only, is passed the view of `io[a]` over its
/// archetypes; a resource the one kept as `r_` and its type without angle
/// brackets, a state likewise with `st_`, a hierarchy the one kept as `h_`
/// and its type, and the frame time the frame time.
pub proof fn lemma_inputs_plan_sources(ins: Seq<InputView>, io: Seq<ArchInputView>)
    ensures
        inputs_plan(ins, io) is Some <==> ins.filter(|x: InputView| x is Arch).len() <= io.len(),
        inputs_plan(ins, io) matches Some(p) ==> p.len() == ins.len() && forall|i: int| 0 <= i < ins.len() ==> {
            let a = ins.take(i).filter(|x: InputView| x is Arch).len() as int;
            match #[trigger] ins[i] {
                InputView::Arch(_, _) => p[i] == InputPlanView::Arch(io[a].task_index,
                    io[a].indexes.map_values(|q: (int, Seq<int>)| q.0)),
                InputView::Resources(_, t) => p[i] == InputPlanView::Resource("r_"@ + drop_char(drop_char(t, '<'), '>')),
                InputView::State(_, t) => p[i] == InputPlanView::State("st_"@ + drop_char(drop_char(t, '<'), '>')),
                InputView::Hierarchy(_, t) => p[i] == InputPlanView::Hierarchy("h_"@ + t),
                InputView::DeltaTime(_) => p[i] == InputPlanView::DeltaTime,
            }
        },
    decreases ins.len(),
{
    if ins.len() == 0 {
        reveal(Seq::filter);
        return;
    }
    let before = ins.drop_last();
    lemma_inputs_plan_sources(before, io);
    lemma_arch_inputs_count(before);
    lemma_arch_inputs_count(ins);
    reveal(Seq::filter);
    assert(ins.take(ins.len() - 1) =~= before);
    if let Some(p) = inputs_plan(ins, io) {
        let p0 = inputs_plan(before, io)->Some_0;
        assert(p == p0.push(p.last()));
        assert forall|i: int| 0 <= i < ins.len() implies {
            let a = ins.take(i).filter(|x: InputView| x is Arch).len() as int;
            match #[trigger] ins[i] {
                InputView::Arch(_, _) => p[i] == InputPlanView::Arch(io[a].task_index,
                    io[a].indexes.map_values(|q: (int, Seq<int>)| q.0)),
                InputView::Resources(_, t) => p[i] == InputPlanView::Resource("r_"@ + drop_char(drop_char(t, '<'), '>')),
                InputView::State(_, t) => p[i] == InputPlanView::State("st_"@ + drop_char(drop_char(t, '<'), '>')),
                InputView::Hierarchy(_, t) => p[i] == InputPlanView::Hierarchy("h_"@ + t),
                InputView::DeltaTime(_) => p[i] == InputPlanView::DeltaTime,
            }
        } by {
            if i < ins.len() - 1 {
                assert(ins.take(i) =~= before.take(i));
                assert(before[i] == ins[i]);
                assert(p[i] == p0[i]);
            } else {
                assert(ins[i] == ins.last());
            }
        }
    }
}

} // verus!
