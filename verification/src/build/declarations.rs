//! What a source file of the application declares: its tasks, with the
//! inputs and outputs their signatures name, and its components, traits and
//! trait implementations.
//!
//! The file is parsed by the caller; what the decisions read of each item
//! is handed in as plain values: identifiers, and the printed text of types
//! and attributes, tokens separated by single spaces.

use vstd::prelude::*;
use crate::build::components::{ComponentType, ComponentView};
use crate::build::grammar::char_string;
use crate::build::tasks::{MemberType, MemberView, InputView, OutputView, TaskInput, TaskOutput, Task, TaskView, inputs_view, outputs_view, members_view};
use crate::build::archetypes::tasks_view;
use crate::text::{strs, push_unique};

verus! {

/// `s` with every `c` taken out.
pub open spec fn drop_char(s: Seq<char>, c: char) -> Seq<char>
    decreases s.len(),
{
    if s.len() == 0 {
        s
    } else if s.last() == c {
        drop_char(s.drop_last(), c)
    } else {
        drop_char(s.drop_last(), c).push(s.last())
    }
}

/// Whether `p` occurs in `s` at position `i`.
pub open spec fn occurs_at(s: Seq<char>, p: Seq<char>, i: int) -> bool {
    0 <= i && i + p.len() <= s.len() && s.subrange(i, i + p.len()) == p
}

/// `s` with each occurrence of `p` taken out, the occurrences found from
/// the left, one after another, as `str::replace` with an empty
/// replacement finds them.
pub open spec fn drop_pattern(s: Seq<char>, p: Seq<char>) -> Seq<char>
    decreases s.len(),
{
    if s.len() == 0 || p.len() == 0 {
        s
    } else if occurs_at(s, p, 0) {
        drop_pattern(s.skip(p.len() as int), p)
    } else {
        seq![s[0]] + drop_pattern(s.drop_first(), p)
    }
}

/// Whether `p` occurs somewhere in `s`.
pub open spec fn contains_text(s: Seq<char>, p: Seq<char>) -> bool {
    exists|i: int| occurs_at(s, p, i)
}

/// Whether `p` occurs in `s` at position `i`.
fn occurs_at_exec(s: &str, p: &str, i: usize) -> (r: bool)
    ensures
        r == occurs_at(s@, p@, i as int),
{
    let n = s.unicode_len();
    let m = p.unicode_len();
    if i > n || m > n - i {
        return false;
    }
    let mut k: usize = 0;
    while k < m
        invariant
            n == s@.len(),
            m == p@.len(),
            i + m <= n,
            k <= m,
            forall|j: int| 0 <= j < k ==> s@[i + j] == p@[j],
        decreases m - k,
    {
        if s.get_char(i + k) != p.get_char(k) {
            assert(s@.subrange(i as int, i + m)[k as int] != p@[k as int]);
            return false;
        }
        k = k + 1;
    }
    assert(s@.subrange(i as int, i + m) =~= p@);
    true
}

/// Whether `p` occurs in `s`.
pub fn contains_text_exec(s: &str, p: &str) -> (r: bool)
    ensures
        r == contains_text(s@, p@),
{
    let n = s.unicode_len();
    let mut i: usize = 0;
    loop
        invariant
            n == s@.len(),
            i <= n,
            forall|j: int| 0 <= j < i ==> !occurs_at(s@, p@, j),
        decreases n - i,
    {
        if occurs_at_exec(s, p, i) {
            return true;
        }
        if i == n {
            assert forall|j: int| !occurs_at(s@, p@, j) by {
                if 0 <= j && j < i {
                }
            }
            return false;
        }
        i = i + 1;
    }
}

/// `s` with every `c` taken out.
pub fn drop_char_exec(s: &str, c: char) -> (r: String)
    ensures
        r@ == drop_char(s@, c),
{
    let n = s.unicode_len();
    let mut r = String::new();
    let mut i: usize = 0;
    while i < n
        invariant
            n == s@.len(),
            i <= n,
            r@ == drop_char(s@.take(i as int), c),
        decreases n - i,
    {
        let x = s.get_char(i);
        assert(s@.take(i + 1).drop_last() =~= s@.take(i as int));
        assert(s@.take(i + 1).last() == x);
        if x != c {
            let one = char_string(x);
            r.append(one.as_str());
        }
        i = i + 1;
    }
    assert(s@.take(n as int) =~= s@);
    r
}

/// `s` with each occurrence of `p` taken out, found from the left.
pub fn drop_pattern_exec(s: &str, p: &str) -> (r: String)
    ensures
        r@ == drop_pattern(s@, p@),
{
    let n = s.unicode_len();
    let m = p.unicode_len();
    if m == 0 {
        return s.to_string();
    }
    let mut r = String::new();
    let mut i: usize = 0;
    assert(s@.skip(0) =~= s@);
    while i < n
        invariant
            n == s@.len(),
            m == p@.len(),
            m > 0,
            i <= n,
            r@ + drop_pattern(s@.skip(i as int), p@) == drop_pattern(s@, p@),
        decreases n - i,
    {
        let ghost rest = s@.skip(i as int);
        if occurs_at_exec(s, p, i) {
            proof {
                assert(rest.subrange(0, m as int) =~= s@.subrange(i as int, i + m));
                assert(rest.skip(m as int) =~= s@.skip(i + m));
            }
            i = i + m;
        } else {
            let x = s.get_char(i);
            proof {
                if occurs_at(rest, p@, 0) {
                    assert(rest.subrange(0, m as int) =~= s@.subrange(i as int, i + m));
                }
                assert(rest.drop_first() =~= s@.skip(i + 1));
                assert(rest[0] == x);
            }
            let one = char_string(x);
            let ghost r0 = r@;
            r.append(one.as_str());
            proof {
                assert(r@ =~= r0 + seq![x]);
                assert(r@ + drop_pattern(s@.skip(i + 1), p@) =~= r0 + (seq![x] + drop_pattern(rest.drop_first(), p@)));
            }
            i = i + 1;
        }
    }
    assert(s@.skip(i as int).len() == 0);
    assert(r@ + s@.skip(i as int) =~= r@);
    r
}

/// Whether `s` is the text `lit`.
pub(crate) fn is_text(s: &String, lit: &str) -> (r: bool)
    ensures
        r == (s@ == lit@),
{
    let t = lit.to_string();
    *s == t
}

/// The first argument in angle brackets of a path's last segment, where it
/// is a type: its printed text, and where it is a tuple type, the printed
/// text of each element.
pub struct TypeArg {
    pub text: String,
    pub elems: Option<Vec<String>>,
}

/// A type that is a path: its printed text, the identifier of its last
/// segment, and that segment's first type argument.
pub struct PathType {
    pub text: String,
    pub last_ident: Option<String>,
    pub first_arg: Option<TypeArg>,
}

/// A typed parameter of a function: the name it binds (`_` where its
/// pattern is not an identifier), and its type where the type is a path.
pub struct Param {
    pub name: String,
    pub path: Option<PathType>,
}

/// A segment of the path of an element of a returned tuple: its
/// identifier, and for each of its arguments in angle brackets that is a
/// tuple type, the printed text of that tuple's elements.
pub struct Segment {
    pub ident: String,
    pub tuple_args: Vec<Vec<String>>,
}

/// A function of a source file: its name, the printed text of each of its
/// attributes, its typed parameters, and for each element of the tuple it
/// returned, the segments of that element's path (none where the element is
/// not a path; no elements where it returned no tuple).
pub struct FnItem {
    pub name: String,
    pub attrs: Vec<String>,
    pub params: Vec<Param>,
    pub returned: Vec<Vec<Segment>>,
}

/// The member of an archetype that the printed type `v` names: a trait for
/// `& dyn ..`, a component otherwise; spaces and `&` taken out.
pub open spec fn member_of(v: Seq<char>) -> MemberView {
    if occurs_at(v, "& dyn "@, 0) {
        MemberView::Trait(drop_char(drop_char(drop_pattern(v, "dyn "@), ' '), '&'))
    } else {
        MemberView::Normal(drop_char(drop_char(v, ' '), '&'))
    }
}

/// The members that the printed types name.
pub open spec fn members_of(es: Seq<String>) -> Seq<MemberView> {
    es.map_values(|e: String| member_of(e@))
}

/// The input of a parameter `name` whose type's last segment is `id` with
/// the type argument `arg`.
pub open spec fn input_from_arg(name: Seq<char>, id: Seq<char>, arg: TypeArg) -> Option<InputView> {
    if id == "Arch"@ {
        Some(InputView::Arch(name, match arg.elems {
            Some(es) => members_of(es@),
            None => seq![member_of(arg.text@)],
        }))
    } else if id == "Res"@ {
        Some(InputView::Resources(name, drop_char(arg.text@, ' ')))
    } else if id == "State"@ {
        Some(InputView::State(name, drop_char(arg.text@, ' ')))
    } else if id == "Hierarchy"@ {
        Some(InputView::Hierarchy(name, drop_char(arg.text@, ' ')))
    } else {
        None
    }
}

/// The input a parameter `name` of type `path` stands for, if any: an archetype, a resource, a
/// state or a hierarchy by its type's last segment, or the frame time.
pub open spec fn input_of_parts(name: Seq<char>, path: Option<PathType>) -> Option<InputView> {
    match path {
        None => None,
        Some(t) => {
            let from_arg = match t.last_ident {
                Some(id) => match t.first_arg {
                    Some(arg) => input_from_arg(name, id@, arg),
                    None => None,
                },
                None => None,
            };
            if from_arg is Some {
                from_arg
            } else if t.text@ == "DeltaTime"@ {
                Some(InputView::DeltaTime(name))
            } else {
                None
            }
        },
    }
}

/// The input a parameter stands for, if any.
pub open spec fn input_of(p: Param) -> Option<InputView> {
    input_of_parts(p.name@, p.path)
}

/// The inputs of the parameters, in order.
pub open spec fn inputs_of(ps: Seq<Param>) -> Seq<InputView>
    decreases ps.len(),
{
    if ps.len() == 0 {
        Seq::empty()
    } else {
        match input_of(ps.last()) {
            Some(i) => inputs_of(ps.drop_last()).push(i),
            None => inputs_of(ps.drop_last()),
        }
    }
}

/// The outputs a segment `ident` of a returned path, with the elements of
/// its tuple arguments, stands for: an archetype for each tuple argument of
/// `RArch`, a signal, or a reset.
pub open spec fn segment_outputs_parts(ident: Seq<char>, tuple_args: Seq<Vec<String>>) -> Seq<OutputView> {
    if ident == "RArch"@ {
        tuple_args.map_values(|es: Vec<String>| OutputView::Arch(strs(es@).map_values(|t: Seq<char>| drop_char(t, ' '))))
    } else if ident == "Signal"@ {
        seq![OutputView::Signal]
    } else if ident == "Reset"@ {
        seq![OutputView::Reset]
    } else {
        Seq::empty()
    }
}

/// The outputs a segment of a returned path stands for.
pub open spec fn segment_outputs(s: Segment) -> Seq<OutputView> {
    segment_outputs_parts(s.ident@, s.tuple_args@)
}

/// The outputs of the segments, in order.
pub open spec fn segments_outputs(ss: Seq<Segment>) -> Seq<OutputView>
    decreases ss.len(),
{
    if ss.len() == 0 {
        Seq::empty()
    } else {
        segments_outputs(ss.drop_last()) + segment_outputs(ss.last())
    }
}

/// The outputs of the returned elements, in order.
pub open spec fn returned_outputs(es: Seq<Vec<Segment>>) -> Seq<OutputView>
    decreases es.len(),
{
    if es.len() == 0 {
        Seq::empty()
    } else {
        returned_outputs(es.drop_last()) + segments_outputs(es.last()@)
    }
}

/// Whether one of the function's attributes mentions `task`.
pub open spec fn is_task(f: FnItem) -> bool {
    mentions_task(f.attrs@)
}

/// Whether one of the printed attributes mentions `task`.
pub open spec fn mentions_task(attrs: Seq<String>) -> bool {
    exists|i: int| 0 <= i < attrs.len() && contains_text(#[trigger] attrs[i]@, "task"@)
}

/// The task a function declares.
pub open spec fn task_of(f: FnItem) -> TaskView {
    TaskView { name: f.name@, inputs: inputs_of(f.params@), outputs: returned_outputs(f.returned@) }
}

/// The tasks the functions declare, in order.
pub open spec fn tasks_of(fs: Seq<FnItem>) -> Seq<TaskView>
    decreases fs.len(),
{
    if fs.len() == 0 {
        Seq::empty()
    } else if is_task(fs.last()) {
        tasks_of(fs.drop_last()).push(task_of(fs.last()))
    } else {
        tasks_of(fs.drop_last())
    }
}

/// The member that the printed type `v` names.
fn member_exec(v: &String) -> (r: MemberType)
    ensures
        r@ == member_of(v@),
{
    let s = v.as_str();
    if occurs_at_exec(s, "& dyn ", 0) {
        let a = drop_pattern_exec(s, "dyn ");
        let b = drop_char_exec(a.as_str(), ' ');
        MemberType::Trait(drop_char_exec(b.as_str(), '&'))
    } else {
        let b = drop_char_exec(s, ' ');
        MemberType::Normal(drop_char_exec(b.as_str(), '&'))
    }
}

/// The members that the printed types name.
fn members_exec(es: &Vec<String>) -> (r: Vec<MemberType>)
    ensures
        members_view(r@) == members_of(es@),
{
    let mut r: Vec<MemberType> = Vec::new();
    let mut i: usize = 0;
    while i < es.len()
        invariant
            i <= es@.len(),
            members_view(r@) == members_of(es@.take(i as int)),
        decreases es@.len() - i,
    {
        let m = member_exec(&es[i]);
        let ghost r0 = r@;
        r.push(m);
        proof {
            assert(r@ =~= r0.push(m));
            assert(members_view(r@) =~= members_view(r0).push(m@));
            assert(members_of(es@.take(i + 1)) =~= members_of(es@.take(i as int)).push(member_of(es@[i as int]@)));
        }
        i = i + 1;
    }
    assert(es@.take(i as int) =~= es@);
    r
}

/// The input a parameter stands for, if any.
fn input_exec(p: &Param) -> (r: Option<TaskInput>)
    ensures
        match r {
            Some(x) => input_of(*p) == Some(x@),
            None => input_of(*p) is None,
        },
{
    match &p.path {
        None => None,
        Some(t) => {
            match (&t.last_ident, &t.first_arg) {
                (Some(id), Some(arg)) => {
                    if is_text(id, "Arch") {
                        let members = match &arg.elems {
                            Some(es) => members_exec(es),
                            None => {
                                let m = member_exec(&arg.text);
                                let v = vec![m];
                                assert(members_view(v@) =~= seq![member_of(arg.text@)]);
                                v
                            },
                        };
                        return Some(TaskInput::Arch(p.name.clone(), members));
                    }
                    if is_text(id, "Res") {
                        return Some(TaskInput::Resources(p.name.clone(), drop_char_exec(arg.text.as_str(), ' ')));
                    }
                    if is_text(id, "State") {
                        return Some(TaskInput::State(p.name.clone(), drop_char_exec(arg.text.as_str(), ' ')));
                    }
                    if is_text(id, "Hierarchy") {
                        return Some(TaskInput::Hierarchy(p.name.clone(), drop_char_exec(arg.text.as_str(), ' ')));
                    }
                },
                _ => {},
            }
            if is_text(&t.text, "DeltaTime") {
                Some(TaskInput::DeltaTime(p.name.clone()))
            } else {
                None
            }
        },
    }
}

/// The inputs of a task, from its typed parameters in order: an archetype
/// for `Arch<..>`, a resource for `Res<..>`, a state for `State<..>`, a
/// hierarchy for `Hierarchy<..>`, the frame time for `DeltaTime`; other
/// parameters stand for nothing.
pub fn get_task_input(params: &Vec<Param>) -> (r: Vec<TaskInput>)
    ensures
        inputs_view(r@) == inputs_of(params@),
{
    let mut r: Vec<TaskInput> = Vec::new();
    let mut i: usize = 0;
    while i < params.len()
        invariant
            i <= params@.len(),
            inputs_view(r@) == inputs_of(params@.take(i as int)),
        decreases params@.len() - i,
    {
        let ghost t = params@.take(i + 1);
        proof {
            assert(t.drop_last() =~= params@.take(i as int));
            assert(t.last() == params@[i as int]);
        }
        match input_exec(&params[i]) {
            Some(x) => {
                let ghost r0 = r@;
                r.push(x);
                proof {
                    assert(inputs_view(r@) =~= inputs_view(r0).push(x@));
                }
            },
            None => {},
        }
        i = i + 1;
    }
    assert(params@.take(i as int) =~= params@);
    r
}

/// The outputs one segment stands for.
fn segment_exec(s: &Segment, out: &mut Vec<TaskOutput>)
    ensures
        outputs_view(final(out)@) == outputs_view(old(out)@) + segment_outputs(*s),
{
    let ghost o0 = outputs_view(out@);
    if is_text(&s.ident, "RArch") {
        let mut k: usize = 0;
        while k < s.tuple_args.len()
            invariant
                k <= s.tuple_args@.len(),
                s.ident@ == "RArch"@,
                outputs_view(out@) == o0 + segment_outputs(*s).take(k as int),
            decreases s.tuple_args@.len() - k,
        {
            let es = &s.tuple_args[k];
            let mut names: Vec<String> = Vec::new();
            let mut j: usize = 0;
            while j < es.len()
                invariant
                    j <= es@.len(),
                    strs(names@) == strs(es@).map_values(|t: Seq<char>| drop_char(t, ' ')).take(j as int),
                decreases es@.len() - j,
            {
                let n = drop_char_exec(es[j].as_str(), ' ');
                let ghost n0 = names@;
                names.push(n);
                proof {
                    assert(strs(names@) =~= strs(n0).push(n@));
                    assert(strs(es@).map_values(|t: Seq<char>| drop_char(t, ' ')).take(j + 1)
                        =~= strs(es@).map_values(|t: Seq<char>| drop_char(t, ' ')).take(j as int).push(drop_char(es@[j as int]@, ' ')));
                }
                j = j + 1;
            }
            proof {
                assert(strs(es@).map_values(|t: Seq<char>| drop_char(t, ' ')).take(j as int)
                    =~= strs(es@).map_values(|t: Seq<char>| drop_char(t, ' ')));
            }
            let x = TaskOutput::Arch(names);
            let ghost before = out@;
            out.push(x);
            proof {
                assert(outputs_view(out@) =~= outputs_view(before).push(x@));
                assert(segment_outputs(*s).take(k + 1) =~= segment_outputs(*s).take(k as int).push(x@));
            }
            k = k + 1;
        }
        assert(segment_outputs(*s).take(k as int) =~= segment_outputs(*s));
    } else if is_text(&s.ident, "Signal") {
        let ghost before = out@;
        out.push(TaskOutput::Signal);
        assert(outputs_view(out@) =~= outputs_view(before) + seq![OutputView::Signal]);
    } else if is_text(&s.ident, "Reset") {
        let ghost before = out@;
        out.push(TaskOutput::Reset);
        assert(outputs_view(out@) =~= outputs_view(before) + seq![OutputView::Reset]);
    } else {
        assert(outputs_view(out@) =~= o0 + Seq::<OutputView>::empty());
    }
}

/// The outputs of a task, from the elements of the tuple it returned, in
/// order: for each segment of an element's path, an archetype for each
/// tuple argument of `RArch`, a signal for `Signal`, a reset for `Reset`.
pub fn get_task_output(returned: &Vec<Vec<Segment>>) -> (r: Vec<TaskOutput>)
    ensures
        outputs_view(r@) == returned_outputs(returned@),
{
    let mut r: Vec<TaskOutput> = Vec::new();
    let mut i: usize = 0;
    assert(outputs_view(r@) =~= returned_outputs(returned@.take(0)));
    while i < returned.len()
        invariant
            i <= returned@.len(),
            outputs_view(r@) == returned_outputs(returned@.take(i as int)),
        decreases returned@.len() - i,
    {
        let ss = &returned[i];
        let ghost o1 = outputs_view(r@);
        let mut j: usize = 0;
        assert(segments_outputs(ss@.take(0)) =~= Seq::<OutputView>::empty());
        while j < ss.len()
            invariant
                j <= ss@.len(),
                outputs_view(r@) == o1 + segments_outputs(ss@.take(j as int)),
            decreases ss@.len() - j,
        {
            segment_exec(&ss[j], &mut r);
            proof {
                assert(ss@.take(j + 1).drop_last() =~= ss@.take(j as int));
                assert(o1 + segments_outputs(ss@.take(j + 1)) =~= o1 + segments_outputs(ss@.take(j as int)) + segment_outputs(ss@[j as int]));
            }
            j = j + 1;
        }
        proof {
            assert(ss@.take(j as int) =~= ss@);
            assert(returned@.take(i + 1).drop_last() =~= returned@.take(i as int));
            assert(returned@.take(i + 1).last() == returned@[i as int]);
        }
        i = i + 1;
    }
    assert(returned@.take(i as int) =~= returned@);
    r
}

/// Whether one of the attributes mentions `task`.
fn has_task_attr(attrs: &Vec<String>) -> (r: bool)
    ensures
        r == exists|i: int| 0 <= i < attrs@.len() && contains_text(#[trigger] attrs@[i]@, "task"@),
{
    let mut i: usize = 0;
    while i < attrs.len()
        invariant
            i <= attrs@.len(),
            forall|j: int| 0 <= j < i ==> !contains_text(#[trigger] attrs@[j]@, "task"@),
        decreases attrs@.len() - i,
    {
        if contains_text_exec(attrs[i].as_str(), "task") {
            return true;
        }
        i = i + 1;
    }
    false
}

/// The tasks that the functions of a source file declare, in order: each
/// function with an attribute that mentions `task`, with the inputs its
/// parameters and the outputs its returned tuple stand for.
pub fn tasks_of_fns(items: &Vec<FnItem>) -> (r: Vec<Task>)
    ensures
        tasks_view(r@) == tasks_of(items@),
{
    let mut r: Vec<Task> = Vec::new();
    let mut i: usize = 0;
    while i < items.len()
        invariant
            i <= items@.len(),
            tasks_view(r@) == tasks_of(items@.take(i as int)),
        decreases items@.len() - i,
    {
        let f = &items[i];
        proof {
            assert(items@.take(i + 1).drop_last() =~= items@.take(i as int));
            assert(items@.take(i + 1).last() == *f);
        }
        if has_task_attr(&f.attrs) {
            let t = Task { name: f.name.clone(), inputs: get_task_input(&f.params), outputs: get_task_output(&f.returned) };
            let ghost r0 = r@;
            r.push(t);
            proof {
                assert(tasks_view(r@) =~= tasks_view(r0).push(t@));
            }
        }
        i = i + 1;
    }
    assert(items@.take(i as int) =~= items@);
    r
}

/// An attribute of an item: its path where that is a single identifier,
/// and its printed text.
pub struct Attr {
    pub ident: Option<String>,
    pub text: String,
}

/// An item of a source file, as far as components are concerned.
pub enum SourceItem {
    /// A struct, an enum or a type alias: its name and attributes.
    Data(String, Vec<Attr>),
    /// A trait: its name and attributes.
    Trait(String, Vec<Attr>),
    /// A `trait_for!` invocation: the trait, and the printed types it is
    /// implemented for.
    TraitFor(String, Vec<String>),
    /// Any other item.
    Other,
}

/// The views of a list of source items' components.
pub open spec fn components_view(s: Seq<ComponentType>) -> Seq<ComponentView> {
    s.map_values(|c: ComponentType| c@)
}

/// Whether the attribute is a `derive` that mentions `Component`, `State`
/// or `Resource`.
pub open spec fn derives_component(a: Attr) -> bool {
    &&& a.ident matches Some(x) && x@ == "derive"@
    &&& contains_text(a.text@, "Component"@) || contains_text(a.text@, "State"@) || contains_text(a.text@, "Resource"@)
}

/// One component `name` for each attribute that derives one.
pub open spec fn derived_components(name: Seq<char>, attrs: Seq<Attr>) -> Seq<ComponentView>
    decreases attrs.len(),
{
    if attrs.len() == 0 {
        Seq::empty()
    } else if derives_component(attrs.last()) {
        derived_components(name, attrs.drop_last()).push(ComponentView::Component(name))
    } else {
        derived_components(name, attrs.drop_last())
    }
}

/// Whether the attribute is `trait_bound`.
pub open spec fn is_trait_bound(a: Attr) -> bool {
    a.ident matches Some(x) && x@ == "trait_bound"@
}

/// Whether one of the attributes is `trait_bound`.
pub open spec fn has_trait_bound(attrs: Seq<Attr>) -> bool {
    exists|i: int| 0 <= i < attrs.len() && is_trait_bound(#[trigger] attrs[i])
}

/// The texts, each kept at its first occurrence.
pub open spec fn distinct_of(s: Seq<Seq<char>>) -> Seq<Seq<char>>
    decreases s.len(),
{
    if s.len() == 0 {
        s
    } else if distinct_of(s.drop_last()).contains(s.last()) {
        distinct_of(s.drop_last())
    } else {
        distinct_of(s.drop_last()).push(s.last())
    }
}

/// What an item declares: a component per deriving attribute of a struct,
/// enum or type alias; a trait marked `trait_bound`; the trait and the
/// distinct types of a `trait_for!`, spaces taken out of each.
pub open spec fn item_components(it: SourceItem) -> Seq<ComponentView> {
    match it {
        SourceItem::Data(name, attrs) => derived_components(name@, attrs@),
        SourceItem::Trait(name, attrs) => if has_trait_bound(attrs@) {
            seq![ComponentView::Trait(name@)]
        } else {
            Seq::empty()
        },
        SourceItem::TraitFor(name, types) => seq![ComponentView::TraitFor(
            name@,
            distinct_of(strs(types@).map_values(|t: Seq<char>| drop_char(t, ' '))),
        )],
        SourceItem::Other => Seq::empty(),
    }
}

/// What the items declare, in order.
pub open spec fn components_of(items: Seq<SourceItem>) -> Seq<ComponentView>
    decreases items.len(),
{
    if items.len() == 0 {
        Seq::empty()
    } else {
        components_of(items.drop_last()) + item_components(items.last())
    }
}

fn derives_component_exec(a: &Attr) -> (r: bool)
    ensures
        r == derives_component(*a),
{
    match &a.ident {
        Some(x) => is_text(x, "derive") && (contains_text_exec(a.text.as_str(), "Component")
            || contains_text_exec(a.text.as_str(), "State") || contains_text_exec(a.text.as_str(), "Resource")),
        None => false,
    }
}

/// Adds what the item declares to `out`.
fn item_exec(it: &SourceItem, out: &mut Vec<ComponentType>)
    ensures
        components_view(final(out)@) == components_view(old(out)@) + item_components(*it),
{
    let ghost o0 = components_view(out@);
    match it {
        SourceItem::Data(name, attrs) => {
            let mut i: usize = 0;
            assert(derived_components(name@, attrs@.take(0)) =~= Seq::<ComponentView>::empty());
            while i < attrs.len()
                invariant
                    i <= attrs@.len(),
                    components_view(out@) == o0 + derived_components(name@, attrs@.take(i as int)),
                decreases attrs@.len() - i,
            {
                proof {
                    assert(attrs@.take(i + 1).drop_last() =~= attrs@.take(i as int));
                    assert(attrs@.take(i + 1).last() == attrs@[i as int]);
                }
                if derives_component_exec(&attrs[i]) {
                    let c = ComponentType::Component(name.clone());
                    let ghost before = out@;
                    out.push(c);
                    proof {
                        assert(components_view(out@) =~= components_view(before).push(c@));
                    }
                }
                i = i + 1;
            }
            assert(attrs@.take(i as int) =~= attrs@);
        },
        SourceItem::Trait(name, attrs) => {
            let mut found = false;
            let mut i: usize = 0;
            while i < attrs.len()
                invariant
                    i <= attrs@.len(),
                    found == exists|j: int| 0 <= j < i && is_trait_bound(#[trigger] attrs@[j]),
                decreases attrs@.len() - i,
            {
                match &attrs[i].ident {
                    Some(x) => {
                        if is_text(x, "trait_bound") {
                            found = true;
                        }
                    },
                    None => {},
                }
                i = i + 1;
            }
            if found {
                let c = ComponentType::Trait(name.clone());
                let ghost before = out@;
                out.push(c);
                assert(components_view(out@) =~= components_view(before) + seq![c@]);
            } else {
                assert(components_view(out@) =~= o0 + Seq::<ComponentView>::empty());
            }
        },
        SourceItem::TraitFor(name, types) => {
            let ghost want = strs(types@).map_values(|t: Seq<char>| drop_char(t, ' '));
            let mut names: Vec<String> = Vec::new();
            let mut i: usize = 0;
            assert(distinct_of(want.take(0)) =~= strs(names@));
            while i < types.len()
                invariant
                    i <= types@.len(),
                    want == strs(types@).map_values(|t: Seq<char>| drop_char(t, ' ')),
                    strs(names@) == distinct_of(want.take(i as int)),
                decreases types@.len() - i,
            {
                let n = drop_char_exec(types[i].as_str(), ' ');
                proof {
                    assert(want.take(i + 1).drop_last() =~= want.take(i as int));
                    assert(want.take(i + 1).last() == n@);
                }
                push_unique(&mut names, n);
                i = i + 1;
            }
            assert(want.take(i as int) =~= want);
            let c = ComponentType::TraitFor(name.clone(), names);
            let ghost before = out@;
            out.push(c);
            assert(components_view(out@) =~= components_view(before) + seq![c@]);
        },
        SourceItem::Other => {
            assert(components_view(out@) =~= o0 + Seq::<ComponentView>::empty());
        },
    }
}

/// What the items of a source file declare, in order: for a struct, enum
/// or type alias, a component for each `derive` attribute that mentions
/// `Component`, `State` or `Resource`; a trait marked `trait_bound`; and
/// for a `trait_for!`, the trait with the distinct types it is implemented
/// for.
pub fn components_of_items(items: &Vec<SourceItem>) -> (r: Vec<ComponentType>)
    ensures
        components_view(r@) == components_of(items@),
{
    let mut r: Vec<ComponentType> = Vec::new();
    let mut i: usize = 0;
    assert(components_view(r@) =~= components_of(items@.take(0)));
    while i < items.len()
        invariant
            i <= items@.len(),
            components_view(r@) == components_of(items@.take(i as int)),
        decreases items@.len() - i,
    {
        proof {
            assert(items@.take(i + 1).drop_last() =~= items@.take(i as int));
            assert(items@.take(i + 1).last() == items@[i as int]);
        }
        item_exec(&items[i], &mut r);
        i = i + 1;
    }
    assert(items@.take(i as int) =~= items@);
    r
}

} // verus!
