//! What the engine's view type for one archetype input of a task is made
//! of: the archetypes it reads, with their components and where each
//! member is found, and the type of the items it hands out.

use vstd::prelude::*;
use vstd::string::StringExecFns;
use crate::build::archetypes::{arches_view, ArchInputView, ArchTypes, TaskArchType, TaskIoView, TasksInputOutput};
use crate::build::tasks::{MemberType, MemberView};
use crate::text::strs;

verus! {

/// The view type of archetype input number `view` of the task `task`.
#[derive(Debug)]
pub struct ArchViewPlan {
    pub task: String,
    pub view: usize,
    /// Each archetype read: its components, and where each member of an
    /// item is among them.
    pub sources: Vec<(Vec<String>, Vec<usize>)>,
    /// The type of each member of an item.
    pub items: Vec<String>,
}

/// What a view-type plan reads as.
pub struct ArchViewPlanView {
    pub task: Seq<char>,
    pub view: int,
    pub sources: Seq<(Seq<Seq<char>>, Seq<int>)>,
    pub items: Seq<Seq<char>>,
}

/// The views of archetype sources.
pub open spec fn sources_view(s: Seq<(Vec<String>, Vec<usize>)>) -> Seq<(Seq<Seq<char>>, Seq<int>)> {
    s.map_values(|p: (Vec<String>, Vec<usize>)| (strs(p.0@), p.1@.map_values(|u: usize| u as int)))
}

impl View for ArchViewPlan {
    type V = ArchViewPlanView;

    open spec fn view(&self) -> ArchViewPlanView {
        ArchViewPlanView {
            task: self.task@,
            view: self.view as int,
            sources: sources_view(self.sources@),
            items: strs(self.items@),
        }
    }
}

/// The type of an item member: the component's type, or a trait object.
pub open spec fn item_text(m: MemberView) -> Seq<char> {
    match m {
        MemberView::Normal(t) => t,
        MemberView::Trait(t) => "dyn "@ + t,
    }
}

/// The plan of the view type of archetype input `t` of `task`; none where
/// it reads no archetype or one that `arches` lacks.
pub open spec fn view_plan(task: Seq<char>, t: ArchInputView, arches: Seq<Seq<Seq<char>>>) -> Option<ArchViewPlanView> {
    if t.indexes.len() == 0 || exists|j: int| 0 <= j < t.indexes.len() && !(0 <= #[trigger] t.indexes[j].0 < arches.len()) {
        None
    } else {
        Some(ArchViewPlanView {
            task,
            view: t.task_index,
            sources: t.indexes.map_values(|p: (int, Seq<int>)| (arches[p.0], p.1)),
            items: t.members.map_values(|m: MemberView| item_text(m)),
        })
    }
}

/// The plans of the view types of the archetype inputs `ins` of `task`, in
/// order; the task's name where one has none.
pub open spec fn task_view_plans(task: Seq<char>, ins: Seq<ArchInputView>, arches: Seq<Seq<Seq<char>>>)
    -> Result<Seq<ArchViewPlanView>, Seq<char>>
    decreases ins.len(),
{
    if ins.len() == 0 {
        Ok(Seq::empty())
    } else {
        match task_view_plans(task, ins.drop_last(), arches) {
            Err(e) => Err(e),
            Ok(p) => match view_plan(task, ins.last(), arches) {
                Some(v) => Ok(p.push(v)),
                None => Err(task),
            },
        }
    }
}

/// The plans of the view types of every task, task by task; the name of
/// the first task with an input that has none.
pub open spec fn all_view_plans(tasks: Seq<(Seq<char>, TaskIoView)>, arches: Seq<Seq<Seq<char>>>)
    -> Result<Seq<ArchViewPlanView>, Seq<char>>
    decreases tasks.len(),
{
    if tasks.len() == 0 {
        Ok(Seq::empty())
    } else {
        match all_view_plans(tasks.drop_last(), arches) {
            Err(e) => Err(e),
            Ok(p) => match task_view_plans(tasks.last().0, tasks.last().1.input, arches) {
                Ok(q) => Ok(p + q),
                Err(e) => Err(e),
            },
        }
    }
}

/// The tasks of an `ArchTypes`, as views.
pub open spec fn tasks_io_view(s: Seq<(String, TasksInputOutput)>) -> Seq<(Seq<char>, TaskIoView)> {
    s.map_values(|p: (String, TasksInputOutput)| (p.0@, p.1@))
}

/// The views of plans.
pub open spec fn view_plans_view(s: Seq<ArchViewPlan>) -> Seq<ArchViewPlanView> {
    s.map_values(|p: ArchViewPlan| p@)
}

/// A copy of a list of strings.
fn copy_strings(v: &Vec<String>) -> (r: Vec<String>)
    ensures
        strs(r@) == strs(v@),
{
    let mut r: Vec<String> = Vec::new();
    let mut i: usize = 0;
    while i < v.len()
        invariant
            i <= v@.len(),
            r@.len() == i,
            forall|x: int| 0 <= x < i ==> #[trigger] r@[x]@ == v@[x]@,
        decreases v@.len() - i,
    {
        r.push(v[i].clone());
        i = i + 1;
    }
    assert(strs(r@) =~= strs(v@));
    r
}

/// A copy of a list of positions.
fn copy_positions(v: &Vec<usize>) -> (r: Vec<usize>)
    ensures
        r@ == v@,
{
    let mut r: Vec<usize> = Vec::new();
    let mut i: usize = 0;
    while i < v.len()
        invariant
            i <= v@.len(),
            r@ == v@.take(i as int),
        decreases v@.len() - i,
    {
        r.push(v[i]);
        i = i + 1;
        assert(r@ =~= v@.take(i as int));
    }
    assert(v@.take(i as int) =~= v@);
    r
}

/// The type of an item member.
fn item_of(m: &MemberType) -> (r: String)
    ensures
        r@ == item_text(m@),
{
    match m {
        MemberType::Normal(t) => t.clone(),
        MemberType::Trait(t) => {
            let mut r = "dyn ".to_string();
            r.append(t.as_str());
            r
        },
    }
}

/// The plan of the view type of archetype input `t` of `task`.
fn plan_view(task: &String, t: &TaskArchType, arches: &Vec<Vec<String>>) -> (r: Option<ArchViewPlan>)
    ensures
        match r {
            Some(p) => view_plan(task@, t@, arches_view(arches@)) == Some(p@),
            None => view_plan(task@, t@, arches_view(arches@)) is None,
        },
{
    let ghost av = arches_view(arches@);
    if t.input_arch_type_indexes.len() == 0 {
        return None;
    }
    let mut sources: Vec<(Vec<String>, Vec<usize>)> = Vec::new();
    let mut j: usize = 0;
    while j < t.input_arch_type_indexes.len()
        invariant
            j <= t.input_arch_type_indexes@.len(),
            av == arches_view(arches@),
            t@.indexes.len() == t.input_arch_type_indexes@.len(),
            sources@.len() == j,
            forall|x: int| 0 <= x < j ==> 0 <= #[trigger] t@.indexes[x].0 < av.len(),
            forall|x: int| 0 <= x < j ==> #[trigger] sources_view(sources@)[x] == (av[t@.indexes[x].0], t@.indexes[x].1),
        decreases t.input_arch_type_indexes@.len() - j,
    {
        let idx = t.input_arch_type_indexes[j].0;
        assert(t@.indexes[j as int].0 == idx as int);
        if idx >= arches.len() {
            return None;
        }
        let comps = copy_strings(&arches[idx]);
        assert(av[idx as int] == strs(arches@[idx as int]@));
        let pos = copy_positions(&t.input_arch_type_indexes[j].1);
        assert(t@.indexes[j as int].1 == t.input_arch_type_indexes@[j as int].1@.map_values(|u: usize| u as int));
        let ghost before = sources@;
        sources.push((comps, pos));
        assert forall|x: int| 0 <= x < j + 1 implies #[trigger] sources_view(sources@)[x] == (av[t@.indexes[x].0], t@.indexes[x].1) by {
            if x < j {
                assert(sources@[x] == before[x]);
                assert(sources_view(sources@)[x] == sources_view(before)[x]);
            } else {
                assert(sources@[x] == (comps, pos));
                assert(sources_view(sources@)[x] == (strs(comps@), pos@.map_values(|u: usize| u as int)));
            }
        }
        j = j + 1;
    }
    let mut items: Vec<String> = Vec::new();
    let mut k: usize = 0;
    while k < t.arch_type_type.len()
        invariant
            k <= t.arch_type_type@.len(),
            t@.members.len() == t.arch_type_type@.len(),
            items@.len() == k,
            forall|x: int| 0 <= x < k ==> #[trigger] items@[x]@ == item_text(t@.members[x]),
        decreases t.arch_type_type@.len() - k,
    {
        let it = item_of(&t.arch_type_type[k]);
        items.push(it);
        k = k + 1;
    }
    assert(strs(items@) =~= t@.members.map_values(|m: MemberView| item_text(m)));
    let p = ArchViewPlan { task: task.clone(), view: t.task_index, sources, items };
    assert(sources_view(p.sources@) =~= t@.indexes.map_values(|q: (int, Seq<int>)| (av[q.0], q.1)));
    Some(p)
}

/// The plans of the view types of all archetype inputs of all tasks, task
/// by task, for the engine's archetype code; the name of the first task
/// with an input that reads no archetype, or one that is not there.
pub fn arch_view_plans(a: &ArchTypes) -> (r: Result<Vec<ArchViewPlan>, String>)
    ensures
        match all_view_plans(tasks_io_view(a.tasks@), arches_view(a.arch_types@)) {
            Ok(v) => r matches Ok(p) && view_plans_view(p@) == v,
            Err(e) => r matches Err(m) && m@ == e,
        },
{
    let ghost av = arches_view(a.arch_types@);
    let ghost tv = tasks_io_view(a.tasks@);
    let mut plans: Vec<ArchViewPlan> = Vec::new();
    let mut i: usize = 0;
    assert(view_plans_view(plans@) =~= Seq::<ArchViewPlanView>::empty());
    while i < a.tasks.len()
        invariant
            i <= a.tasks@.len(),
            av == arches_view(a.arch_types@),
            tv == tasks_io_view(a.tasks@),
            all_view_plans(tv.take(i as int), av) == Ok::<Seq<ArchViewPlanView>, Seq<char>>(view_plans_view(plans@)),
        decreases a.tasks@.len() - i,
    {
        let name = &a.tasks[i].0;
        let io = &a.tasks[i].1;
        let ghost base = view_plans_view(plans@);
        let ghost ins = io@.input;
        let mut k: usize = 0;
        assert(ins.take(0) =~= Seq::<ArchInputView>::empty());
        assert(base + Seq::<ArchViewPlanView>::empty() =~= base);
        while k < io.input.len()
            invariant
                k <= io.input@.len(),
                ins == io@.input,
                ins.len() == io.input@.len(),
                i < a.tasks@.len(),
                av == arches_view(a.arch_types@),
                tv == tasks_io_view(a.tasks@),
                *name == a.tasks@[i as int].0,
                *io == a.tasks@[i as int].1,
                all_view_plans(tv.take(i as int), av) == Ok::<Seq<ArchViewPlanView>, Seq<char>>(base),
                task_view_plans(name@, ins.take(k as int), av) matches Ok(q) && view_plans_view(plans@) == base + q,
            decreases io.input@.len() - k,
        {
            assert(ins.take(k + 1).drop_last() =~= ins.take(k as int));
            assert(ins.take(k + 1).last() == io.input@[k as int]@);
            match plan_view(name, &io.input[k], &a.arch_types) {
                Some(p) => {
                    let ghost before = view_plans_view(plans@);
                    plans.push(p);
                    assert(view_plans_view(plans@) =~= before.push(plans@.last()@));
                    proof {
                        let q = task_view_plans(name@, ins.take(k as int), av)->Ok_0;
                        assert(view_plans_view(plans@) =~= base + q.push(plans@.last()@));
                    }
                },
                None => {
                    proof {
                        lemma_task_stops(name@, ins, av, k as int + 1);
                        assert(tv.take(i + 1).drop_last() =~= tv.take(i as int));
                        assert(tv.take(i + 1).last() == (name@, io@));
                        lemma_all_stops(tv, av, i as int + 1);
                    }
                    return Err(name.clone());
                },
            }
            k = k + 1;
        }
        assert(ins.take(k as int) =~= ins);
        assert(tv.take(i + 1).drop_last() =~= tv.take(i as int));
        assert(tv.take(i + 1).last() == (name@, io@));
        i = i + 1;
    }
    assert(tv.take(i as int) =~= tv);
    Ok(plans)
}

/// Once an input of a task has no plan, the task's inputs give its name.
proof fn lemma_task_stops(task: Seq<char>, ins: Seq<ArchInputView>, arches: Seq<Seq<Seq<char>>>, n: int)
    requires
        0 <= n <= ins.len(),
        task_view_plans(task, ins.take(n), arches) == Err::<Seq<ArchViewPlanView>, Seq<char>>(task),
    ensures
        task_view_plans(task, ins, arches) == Err::<Seq<ArchViewPlanView>, Seq<char>>(task),
    decreases ins.len() - n,
{
    if n < ins.len() {
        assert(ins.take(n + 1).drop_last() =~= ins.take(n));
        lemma_task_stops(task, ins, arches, n + 1);
    } else {
        assert(ins.take(n) =~= ins);
    }
}

/// Once a task gives an error, all tasks give it.
proof fn lemma_all_stops(tasks: Seq<(Seq<char>, TaskIoView)>, arches: Seq<Seq<Seq<char>>>, n: int)
    requires
        0 <= n <= tasks.len(),
        all_view_plans(tasks.take(n), arches) is Err,
    ensures
        all_view_plans(tasks, arches) == all_view_plans(tasks.take(n), arches),
    decreases tasks.len() - n,
{
    if n < tasks.len() {
        assert(tasks.take(n + 1).drop_last() =~= tasks.take(n));
        lemma_all_stops(tasks, arches, n + 1);
    } else {
        assert(tasks.take(n) =~= tasks);
    }
}

} // verus!
