//! Tasks as the builder finds them in an application's source, and the
//! tree of task maps that mirrors the source's directories.

use vstd::prelude::*;
use crate::assoc::{keys_unique, view_map, insert_viewed, lemma_view_take_one_more};
use crate::text::strs;
use crate::build::paths::{last_component, path_last_component, qualified, qualify};

verus! {

/// What a member of an archetype reads as.
pub enum MemberView {
    Normal(Seq<char>),
    Trait(Seq<char>),
}

/// What a task input reads as.
pub enum InputView {
    Arch(Seq<char>, Seq<MemberView>),
    Resources(Seq<char>, Seq<char>),
    Hierarchy(Seq<char>, Seq<char>),
    State(Seq<char>, Seq<char>),
    DeltaTime(Seq<char>),
}

/// What a task output reads as.
pub enum OutputView {
    Arch(Seq<Seq<char>>),
    Signal,
    Reset,
}

/// What a task reads as.
pub struct TaskView {
    pub name: Seq<char>,
    pub inputs: Seq<InputView>,
    pub outputs: Seq<OutputView>,
}

/// A member of an archetype that a task reads: a component type, or a trait
/// that stands for every component implementing it.
#[derive(Debug)]
pub enum MemberType {
    Normal(String),
    Trait(String),
}

impl View for MemberType {
    type V = MemberView;

    open spec fn view(&self) -> MemberView {
        match self {
            MemberType::Normal(s) => MemberView::Normal(s@),
            MemberType::Trait(s) => MemberView::Trait(s@),
        }
    }
}

impl Clone for MemberType {
    fn clone(&self) -> (r: Self)
        ensures
            r == *self,
    {
        match self {
            MemberType::Normal(s) => MemberType::Normal(s.clone()),
            MemberType::Trait(s) => MemberType::Trait(s.clone()),
        }
    }
}

/// The views of a list of members.
pub open spec fn members_view(s: Seq<MemberType>) -> Seq<MemberView> {
    s.map_values(|m: MemberType| m@)
}

/// A parameter of a task: the archetype members it reads, a resource, a
/// hierarchy, a state, or the frame time; each with the parameter's name.
#[derive(Debug)]
pub enum TaskInput {
    Arch(String, Vec<MemberType>),
    Resources(String, String),
    Hierarchy(String, String),
    State(String, String),
    DeltaTime(String),
}

impl View for TaskInput {
    type V = InputView;

    open spec fn view(&self) -> InputView {
        match self {
            TaskInput::Arch(n, m) => InputView::Arch(n@, members_view(m@)),
            TaskInput::Resources(n, t) => InputView::Resources(n@, t@),
            TaskInput::Hierarchy(n, t) => InputView::Hierarchy(n@, t@),
            TaskInput::State(n, t) => InputView::State(n@, t@),
            TaskInput::DeltaTime(n) => InputView::DeltaTime(n@),
        }
    }
}

impl Clone for TaskInput {
    fn clone(&self) -> (r: Self)
        ensures
            r@ == self@,
    {
        match self {
            TaskInput::Arch(n, m) => {
                let c = m.clone();
                assert(members_view(c@) =~= members_view(m@));
                TaskInput::Arch(n.clone(), c)
            },
            TaskInput::Resources(n, t) => TaskInput::Resources(n.clone(), t.clone()),
            TaskInput::Hierarchy(n, t) => TaskInput::Hierarchy(n.clone(), t.clone()),
            TaskInput::State(n, t) => TaskInput::State(n.clone(), t.clone()),
            TaskInput::DeltaTime(n) => TaskInput::DeltaTime(n.clone()),
        }
    }
}

/// What a task returns: the components of an archetype it adds entities
/// to, a signal, or a reset.
#[derive(Debug)]
pub enum TaskOutput {
    Arch(Vec<String>),
    Signal,
    Reset,
}

impl View for TaskOutput {
    type V = OutputView;

    open spec fn view(&self) -> OutputView {
        match self {
            TaskOutput::Arch(v) => OutputView::Arch(strs(v@)),
            TaskOutput::Signal => OutputView::Signal,
            TaskOutput::Reset => OutputView::Reset,
        }
    }
}

impl Clone for TaskOutput {
    fn clone(&self) -> (r: Self)
        ensures
            r@ == self@,
    {
        match self {
            TaskOutput::Arch(v) => {
                let c = v.clone();
                assert(strs(c@) =~= strs(v@));
                TaskOutput::Arch(c)
            },
            TaskOutput::Signal => TaskOutput::Signal,
            TaskOutput::Reset => TaskOutput::Reset,
        }
    }
}

/// A task: a function of the application marked as one, with what it
/// takes and what it returns.
#[derive(Debug)]
pub struct Task {
    pub name: String,
    pub inputs: Vec<TaskInput>,
    pub outputs: Vec<TaskOutput>,
}

/// The views of a list of inputs.
pub open spec fn inputs_view(s: Seq<TaskInput>) -> Seq<InputView> {
    s.map_values(|x: TaskInput| x@)
}

/// The views of a list of outputs.
pub open spec fn outputs_view(s: Seq<TaskOutput>) -> Seq<OutputView> {
    s.map_values(|x: TaskOutput| x@)
}

impl View for Task {
    type V = TaskView;

    open spec fn view(&self) -> TaskView {
        TaskView { name: self.name@, inputs: inputs_view(self.inputs@), outputs: outputs_view(self.outputs@) }
    }
}

impl Clone for Task {
    fn clone(&self) -> (r: Self)
        ensures
            r@ == self@,
    {
        let inputs = self.inputs.clone();
        let outputs = self.outputs.clone();
        assert(inputs_view(inputs@) =~= inputs_view(self.inputs@));
        assert(outputs_view(outputs@) =~= outputs_view(self.outputs@));
        Task { name: self.name.clone(), inputs, outputs }
    }
}

/// The tasks of one directory of the source, by the directory's path, with
/// a map for each of its subdirectories.
#[derive(Debug)]
pub struct TaskMap {
    pub path: String,
    pub sub_maps: Vec<TaskMap>,
    pub tasks: Vec<Task>,
}

impl Default for TaskMap {
    fn default() -> (r: Self)
        ensures
            r.path@ == "./"@,
            r.sub_maps@.len() == 0,
            r.tasks@.len() == 0,
    {
        TaskMap { path: "./".to_string(), sub_maps: Vec::new(), tasks: Vec::new() }
    }
}

/// The tasks of a list by name, a later task taking the place of an earlier
/// one of the same name.
pub open spec fn named_tasks(ts: Seq<Task>) -> Map<Seq<char>, TaskView>
    decreases ts.len(),
{
    if ts.len() == 0 {
        Map::empty()
    } else {
        named_tasks(ts.drop_last()).insert(ts.last().name@, ts.last()@)
    }
}

impl TaskMap {
    /// Every task of this map and those below it, by name: first the map's
    /// own tasks, then those of each sub-map in turn, each taking the place
    /// of an earlier one of the same name.
    pub open spec fn all_tasks(self) -> Map<Seq<char>, TaskView>
        decreases self, self.sub_maps@.len() + 1,
    {
        self.tasks_through(self.sub_maps@.len() as int)
    }

    /// The map's own tasks and those of its first `k` sub-maps, by name.
    pub open spec fn tasks_through(self, k: int) -> Map<Seq<char>, TaskView>
        decreases self, k,
    {
        if k <= 0 {
            named_tasks(self.tasks@)
        } else if k > self.sub_maps@.len() {
            self.tasks_through(self.sub_maps@.len() as int)
        } else {
            self.tasks_through(k - 1).union_prefer_right(self.sub_maps@[k - 1].all_tasks())
        }
    }

    /// Every task of this map and those below it, by name.
    pub fn get_all(&self) -> (r: Vec<(String, Task)>)
        ensures
            keys_unique(r@),
            view_map(r@) == self.all_tasks(),
        decreases self,
    {
        let mut data: Vec<(String, Task)> = Vec::new();
        assert(view_map(data@) =~= named_tasks(self.tasks@.take(0)));
        let mut i: usize = 0;
        while i < self.tasks.len()
            invariant
                i <= self.tasks@.len(),
                keys_unique(data@),
                view_map(data@) == named_tasks(self.tasks@.take(i as int)),
            decreases self.tasks@.len() - i,
        {
            insert_viewed(&mut data, self.tasks[i].name.clone(), self.tasks[i].clone());
            assert(self.tasks@.take(i + 1).drop_last() =~= self.tasks@.take(i as int));
            i = i + 1;
        }
        assert(self.tasks@.take(i as int) =~= self.tasks@);
        let mut j: usize = 0;
        while j < self.sub_maps.len()
            invariant
                j <= self.sub_maps@.len(),
                keys_unique(data@),
                view_map(data@) == self.tasks_through(j as int),
                forall|x: int| 0 <= x < self.sub_maps@.len() ==> decreases_to!(self => #[trigger] self.sub_maps@[x]),
            decreases self.sub_maps@.len() - j,
        {
            let sub = self.sub_maps[j].get_all();
            let ghost before = view_map(data@);
            let mut k: usize = 0;
            assert(view_map(sub@.take(0)) =~= Map::<Seq<char>, TaskView>::empty());
            assert(before.union_prefer_right(view_map(sub@.take(0))) =~= before);
            while k < sub.len()
                invariant
                    k <= sub@.len(),
                    keys_unique(data@),
                    keys_unique(sub@),
                    view_map(data@) == before.union_prefer_right(view_map(sub@.take(k as int))),
                decreases sub@.len() - k,
            {
                let ghost m0 = view_map(sub@.take(k as int));
                insert_viewed(&mut data, sub[k].0.clone(), sub[k].1.clone());
                proof {
                    lemma_view_take_one_more(sub@, k as int);
                    assert(before.union_prefer_right(m0.insert(sub@[k as int].0@, sub@[k as int].1@))
                        =~= before.union_prefer_right(m0).insert(sub@[k as int].0@, sub@[k as int].1@));
                }
                k = k + 1;
            }
            assert(sub@.take(k as int) =~= sub@);
            j = j + 1;
        }
        data
    }
}


/// Whether two lists hold the same strings in the same order.
fn same_string_lists(a: &Vec<String>, b: &Vec<String>) -> (r: bool)
    ensures
        r == (strs(a@) == strs(b@)),
{
    if a.len() != b.len() {
        assert(strs(a@).len() != strs(b@).len());
        return false;
    }
    let mut i: usize = 0;
    while i < a.len()
        invariant
            i <= a@.len(),
            a@.len() == b@.len(),
            forall|j: int| 0 <= j < i ==> a@[j]@ == b@[j]@,
        decreases a@.len() - i,
    {
        if a[i] != b[i] {
            assert(strs(a@)[i as int] != strs(b@)[i as int]);
            return false;
        }
        i = i + 1;
    }
    assert(strs(a@) =~= strs(b@));
    true
}

impl MemberType {
    /// Whether two members read the same.
    pub fn same(&self, other: &MemberType) -> (r: bool)
        ensures
            r == (self@ == other@),
    {
        match (self, other) {
            (MemberType::Normal(a), MemberType::Normal(b)) => *a == *b,
            (MemberType::Trait(a), MemberType::Trait(b)) => *a == *b,
            _ => false,
        }
    }
}

/// Whether two lists of members read the same.
fn same_members(a: &Vec<MemberType>, b: &Vec<MemberType>) -> (r: bool)
    ensures
        r == (members_view(a@) == members_view(b@)),
{
    if a.len() != b.len() {
        assert(members_view(a@).len() != members_view(b@).len());
        return false;
    }
    let mut i: usize = 0;
    while i < a.len()
        invariant
            i <= a@.len(),
            a@.len() == b@.len(),
            forall|j: int| 0 <= j < i ==> a@[j]@ == b@[j]@,
        decreases a@.len() - i,
    {
        if !a[i].same(&b[i]) {
            assert(members_view(a@)[i as int] != members_view(b@)[i as int]);
            return false;
        }
        i = i + 1;
    }
    assert(members_view(a@) =~= members_view(b@));
    true
}

impl TaskInput {
    /// Whether two inputs read the same.
    pub fn same(&self, other: &TaskInput) -> (r: bool)
        ensures
            r == (self@ == other@),
    {
        match (self, other) {
            (TaskInput::Arch(a, x), TaskInput::Arch(b, y)) => *a == *b && same_members(x, y),
            (TaskInput::Resources(a, x), TaskInput::Resources(b, y)) => *a == *b && *x == *y,
            (TaskInput::Hierarchy(a, x), TaskInput::Hierarchy(b, y)) => *a == *b && *x == *y,
            (TaskInput::State(a, x), TaskInput::State(b, y)) => *a == *b && *x == *y,
            (TaskInput::DeltaTime(a), TaskInput::DeltaTime(b)) => *a == *b,
            _ => false,
        }
    }
}

impl TaskOutput {
    /// Whether two outputs read the same.
    pub fn same(&self, other: &TaskOutput) -> (r: bool)
        ensures
            r == (self@ == other@),
    {
        match (self, other) {
            (TaskOutput::Arch(a), TaskOutput::Arch(b)) => same_string_lists(a, b),
            (TaskOutput::Signal, TaskOutput::Signal) => true,
            (TaskOutput::Reset, TaskOutput::Reset) => true,
            _ => false,
        }
    }
}

impl Task {
    /// Whether two tasks read the same: the same name, inputs and outputs.
    pub fn same(&self, other: &Task) -> (r: bool)
        ensures
            r == (self@ == other@),
    {
        if self.name != other.name || self.inputs.len() != other.inputs.len() || self.outputs.len() != other.outputs.len() {
            assert(self@.name != other@.name || self@.inputs.len() != other@.inputs.len() || self@.outputs.len() != other@.outputs.len());
            return false;
        }
        let mut i: usize = 0;
        while i < self.inputs.len()
            invariant
                i <= self.inputs@.len(),
                self.inputs@.len() == other.inputs@.len(),
                forall|j: int| 0 <= j < i ==> self.inputs@[j]@ == other.inputs@[j]@,
            decreases self.inputs@.len() - i,
        {
            if !self.inputs[i].same(&other.inputs[i]) {
                assert(self@.inputs[i as int] != other@.inputs[i as int]);
                return false;
            }
            i = i + 1;
        }
        let mut i: usize = 0;
        while i < self.outputs.len()
            invariant
                i <= self.outputs@.len(),
                self.outputs@.len() == other.outputs@.len(),
                forall|j: int| 0 <= j < i ==> self.outputs@[j]@ == other.outputs@[j]@,
            decreases self.outputs@.len() - i,
        {
            if !self.outputs[i].same(&other.outputs[i]) {
                assert(self@.outputs[i as int] != other@.outputs[i as int]);
                return false;
            }
            i = i + 1;
        }
        assert(self@.inputs =~= other@.inputs);
        assert(self@.outputs =~= other@.outputs);
        true
    }
}

/// No two entries hold tasks that read the same.
pub open spec fn tasks_unique(s: Seq<(Task, String)>) -> bool {
    forall|i: int, j: int| 0 <= i < s.len() && 0 <= j < s.len() && i != j ==> #[trigger] s[i].0@ != #[trigger] s[j].0@
}

/// What a list of `(task, path)` pairs stands for: each task's view with its
/// path.
pub open spec fn task_paths_view(s: Seq<(Task, String)>) -> Map<TaskView, Seq<char>> {
    Map::new(
        |k: TaskView| exists|i: int| 0 <= i < s.len() && #[trigger] s[i].0@ == k,
        |k: TaskView| s[choose|i: int| 0 <= i < s.len() && #[trigger] s[i].0@ == k].1@,
    )
}

proof fn lemma_task_entry(s: Seq<(Task, String)>, i: int)
    requires
        tasks_unique(s),
        0 <= i < s.len(),
    ensures
        task_paths_view(s).contains_key(s[i].0@),
        task_paths_view(s)[s[i].0@] == s[i].1@,
{
    let k = s[i].0@;
    assert(exists|j: int| 0 <= j < s.len() && #[trigger] s[j].0@ == k);
    let j = choose|j: int| 0 <= j < s.len() && #[trigger] s[j].0@ == k;
    assert(i == j);
}

/// Sets the path of the task `t` to `p`, in place where a task that reads
/// the same is there, at the end where none is.
fn insert_task_path(data: &mut Vec<(Task, String)>, t: Task, p: String)
    requires
        tasks_unique(old(data)@),
    ensures
        tasks_unique(final(data)@),
        task_paths_view(final(data)@) == task_paths_view(old(data)@).insert(t@, p@),
{
    let ghost s0 = data@;
    let ghost tv = t@;
    let ghost pv = p@;
    let mut i: usize = 0;
    while i < data.len()
        invariant
            i <= data@.len(),
            data@ == s0,
            s0 == old(data)@,
            tasks_unique(s0),
            tv == t@,
            pv == p@,
            forall|j: int| 0 <= j < i ==> #[trigger] data@[j].0@ != t@,
        decreases data@.len() - i,
    {
        if data[i].0.same(&t) {
            data.set(i, (t, p));
            proof {
                let s1 = data@;
                assert forall|a: int, b: int| 0 <= a < s1.len() && 0 <= b < s1.len() && a != b
                    implies #[trigger] s1[a].0@ != #[trigger] s1[b].0@ by {
                    assert(s1[a].0@ == s0[a].0@);
                    assert(s1[b].0@ == s0[b].0@);
                }
                let want = task_paths_view(s0).insert(tv, pv);
                assert forall|k: TaskView| task_paths_view(s1).contains_key(k) <==> want.contains_key(k) by {
                    if exists|j: int| 0 <= j < s1.len() && #[trigger] s1[j].0@ == k {
                        let j = choose|j: int| 0 <= j < s1.len() && #[trigger] s1[j].0@ == k;
                        assert(s0[j].0@ == k);
                    }
                    if exists|j: int| 0 <= j < s0.len() && #[trigger] s0[j].0@ == k {
                        let j = choose|j: int| 0 <= j < s0.len() && #[trigger] s0[j].0@ == k;
                        assert(s1[j].0@ == k);
                    }
                    if k == tv {
                        assert(s1[i as int].0@ == k);
                    }
                }
                assert forall|k: TaskView| #[trigger] task_paths_view(s1).contains_key(k) implies task_paths_view(s1)[k] == want[k] by {
                    let j = choose|j: int| 0 <= j < s1.len() && #[trigger] s1[j].0@ == k;
                    lemma_task_entry(s1, j);
                    if j != i {
                        lemma_task_entry(s0, j);
                    }
                }
                assert(task_paths_view(s1) =~= want);
            }
            return;
        }
        i = i + 1;
    }
    data.push((t, p));
    proof {
        let s1 = data@;
        let n = s0.len() as int;
        assert forall|a: int, b: int| 0 <= a < s1.len() && 0 <= b < s1.len() && a != b
            implies #[trigger] s1[a].0@ != #[trigger] s1[b].0@ by {
            if a < n {
                assert(s1[a] == s0[a]);
            }
            if b < n {
                assert(s1[b] == s0[b]);
            }
        }
        let want = task_paths_view(s0).insert(tv, pv);
        assert forall|k: TaskView| task_paths_view(s1).contains_key(k) <==> want.contains_key(k) by {
            if exists|j: int| 0 <= j < s1.len() && #[trigger] s1[j].0@ == k {
                let j = choose|j: int| 0 <= j < s1.len() && #[trigger] s1[j].0@ == k;
                if j < n {
                    assert(s0[j].0@ == k);
                }
            }
            if exists|j: int| 0 <= j < s0.len() && #[trigger] s0[j].0@ == k {
                let j = choose|j: int| 0 <= j < s0.len() && #[trigger] s0[j].0@ == k;
                assert(s1[j].0@ == k);
            }
            if k == tv {
                assert(s1[n].0@ == k);
            }
        }
        assert forall|k: TaskView| #[trigger] task_paths_view(s1).contains_key(k) implies task_paths_view(s1)[k] == want[k] by {
            let j = choose|j: int| 0 <= j < s1.len() && #[trigger] s1[j].0@ == k;
            lemma_task_entry(s1, j);
            if j < n {
                assert(s1[j] == s0[j]);
                lemma_task_entry(s0, j);
            }
        }
        assert(task_paths_view(s1) =~= want);
    }
}

/// Each task of a list with the name it is reached by from `module`, a
/// later task taking the place of an earlier one that reads the same.
pub open spec fn own_task_paths(ts: Seq<Task>, module: Seq<char>) -> Map<TaskView, Seq<char>>
    decreases ts.len(),
{
    if ts.len() == 0 {
        Map::empty()
    } else {
        own_task_paths(ts.drop_last(), module).insert(ts.last()@, qualified(module, ts.last().name@))
    }
}

impl TaskMap {
    /// The path of this map and of every map below it has a last component.
    pub open spec fn paths_named(self) -> bool
        decreases self,
    {
        &&& last_component(self.path@) is Some
        &&& forall|i: int| 0 <= i < self.sub_maps@.len() ==> (#[trigger] self.sub_maps@[i]).paths_named()
    }

    /// The module this map's tasks are reached from: the last component of
    /// its path.
    pub open spec fn module(self) -> Seq<char> {
        last_component(self.path@).unwrap()
    }

    /// Each task of this map and those below it with the name it is reached
    /// by: from the module of its map, through the module of each map above
    /// it. A later task takes the place of an earlier one that reads the
    /// same, a sub-map's tasks those of the map's own.
    pub open spec fn all_task_paths(self) -> Map<TaskView, Seq<char>>
        decreases self, self.sub_maps@.len() + 1,
    {
        self.task_paths_through(self.sub_maps@.len() as int)
    }

    /// The paths of this map's own tasks and those of its first `k`
    /// sub-maps.
    pub open spec fn task_paths_through(self, k: int) -> Map<TaskView, Seq<char>>
        decreases self, k,
    {
        if k <= 0 {
            own_task_paths(self.tasks@, self.module())
        } else if k > self.sub_maps@.len() {
            self.task_paths_through(self.sub_maps@.len() as int)
        } else {
            self.task_paths_through(k - 1).union_prefer_right(
                self.sub_maps@[k - 1].all_task_paths().map_values(|v: Seq<char>| qualified(self.module(), v)),
            )
        }
    }

    /// Whether the path of this map and of every map below it has a last
    /// component.
    pub fn check_paths(&self) -> (r: bool)
        ensures
            r == self.paths_named(),
        decreases self,
    {
        if path_last_component(self.path.as_str()).is_none() {
            return false;
        }
        let mut j: usize = 0;
        while j < self.sub_maps.len()
            invariant
                j <= self.sub_maps@.len(),
                forall|x: int| 0 <= x < j ==> (#[trigger] self.sub_maps@[x]).paths_named(),
                forall|x: int| 0 <= x < self.sub_maps@.len() ==> decreases_to!(self => #[trigger] self.sub_maps@[x]),
            decreases self.sub_maps@.len() - j,
        {
            if !self.sub_maps[j].check_paths() {
                return false;
            }
            j = j + 1;
        }
        true
    }

    /// Each task of this map and those below it with the name it is reached
    /// by from the application's source root.
    pub fn get_all_with_path(&self) -> (r: Vec<(Task, String)>)
        requires
            self.paths_named(),
        ensures
            tasks_unique(r@),
            task_paths_view(r@) == self.all_task_paths(),
        decreases self,
    {
        let mut data: Vec<(Task, String)> = Vec::new();
        let module = match path_last_component(self.path.as_str()) {
            Some(m) => m,
            None => {
                proof {
                    assert(false);
                }
                return data;
            },
        };
        assert(task_paths_view(data@) =~= own_task_paths(self.tasks@.take(0), module@));
        let mut i: usize = 0;
        while i < self.tasks.len()
            invariant
                i <= self.tasks@.len(),
                module@ == self.module(),
                tasks_unique(data@),
                task_paths_view(data@) == own_task_paths(self.tasks@.take(i as int), module@),
            decreases self.tasks@.len() - i,
        {
            assert(self.tasks@.take(i + 1).drop_last() =~= self.tasks@.take(i as int));
            insert_task_path(&mut data, self.tasks[i].clone(), qualify(&module, &self.tasks[i].name));
            i = i + 1;
        }
        assert(self.tasks@.take(i as int) =~= self.tasks@);
        let mut j: usize = 0;
        while j < self.sub_maps.len()
            invariant
                j <= self.sub_maps@.len(),
                self.paths_named(),
                module@ == self.module(),
                tasks_unique(data@),
                task_paths_view(data@) == self.task_paths_through(j as int),
                forall|x: int| 0 <= x < self.sub_maps@.len() ==> decreases_to!(self => #[trigger] self.sub_maps@[x]),
            decreases self.sub_maps@.len() - j,
        {
            assert(self.sub_maps@[j as int].paths_named());
            let sub = self.sub_maps[j].get_all_with_path();
            let ghost base = task_paths_view(data@);
            let ghost q = |v: Seq<char>| qualified(module@, v);
            let mut k: usize = 0;
            assert(task_paths_view(sub@.take(0)).map_values(q) =~= Map::<TaskView, Seq<char>>::empty());
            assert(base.union_prefer_right(Map::empty()) =~= base);
            while k < sub.len()
                invariant
                    k <= sub@.len(),
                    tasks_unique(data@),
                    tasks_unique(sub@),
                    q == (|v: Seq<char>| qualified(module@, v)),
                    task_paths_view(data@) == base.union_prefer_right(task_paths_view(sub@.take(k as int)).map_values(q)),
                decreases sub@.len() - k,
            {
                let ghost m0 = task_paths_view(sub@.take(k as int));
                insert_task_path(&mut data, sub[k].0.clone(), qualify(&module, &sub[k].1));
                proof {
                    let a = sub@.take(k as int);
                    let b = sub@.take(k + 1);
                    let key = sub@[k as int].0@;
                    let val = sub@[k as int].1@;
                    assert(b =~= a.push(sub@[k as int]));
                    assert(tasks_unique(a)) by {
                        assert forall|x: int, y: int| 0 <= x < a.len() && 0 <= y < a.len() && x != y
                            implies #[trigger] a[x].0@ != #[trigger] a[y].0@ by {
                            assert(a[x] == sub@[x]);
                            assert(a[y] == sub@[y]);
                        }
                    }
                    assert(tasks_unique(b)) by {
                        assert forall|x: int, y: int| 0 <= x < b.len() && 0 <= y < b.len() && x != y
                            implies #[trigger] b[x].0@ != #[trigger] b[y].0@ by {
                            assert(b[x] == sub@[x]);
                            assert(b[y] == sub@[y]);
                        }
                    }
                    let want = m0.insert(key, val);
                    assert forall|t: TaskView| task_paths_view(b).contains_key(t) <==> want.contains_key(t) by {
                        if exists|x: int| 0 <= x < b.len() && #[trigger] b[x].0@ == t {
                            let x = choose|x: int| 0 <= x < b.len() && #[trigger] b[x].0@ == t;
                            if x < k {
                                assert(a[x].0@ == t);
                            }
                        }
                        if exists|x: int| 0 <= x < a.len() && #[trigger] a[x].0@ == t {
                            let x = choose|x: int| 0 <= x < a.len() && #[trigger] a[x].0@ == t;
                            assert(b[x].0@ == t);
                        }
                        if t == key {
                            assert(b[k as int].0@ == t);
                        }
                    }
                    assert forall|t: TaskView| #[trigger] task_paths_view(b).contains_key(t) implies task_paths_view(b)[t] == want[t] by {
                        let x = choose|x: int| 0 <= x < b.len() && #[trigger] b[x].0@ == t;
                        lemma_task_entry(b, x);
                        if x < k {
                            assert(b[x] == a[x]);
                            lemma_task_entry(a, x);
                        }
                    }
                    assert(task_paths_view(b) =~= want);
                    assert(want.map_values(q) =~= m0.map_values(q).insert(key, q(val)));
                    assert(base.union_prefer_right(m0.map_values(q).insert(key, q(val)))
                        =~= base.union_prefer_right(m0.map_values(q)).insert(key, q(val)));
                }
                k = k + 1;
            }
            assert(sub@.take(k as int) =~= sub@);
            j = j + 1;
        }
        data
    }

    /// The paths of `get_all_with_path`, where every path below this map
    /// has a last component; none where one does not.
    pub fn get_all_with_path_checked(&self) -> (r: Option<Vec<(Task, String)>>)
        ensures
            r is Some <==> self.paths_named(),
            r matches Some(v) ==> tasks_unique(v@) && task_paths_view(v@) == self.all_task_paths(),
    {
        if self.check_paths() {
            Some(self.get_all_with_path())
        } else {
            None
        }
    }
}

} // verus!
