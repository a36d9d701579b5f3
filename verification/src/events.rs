//! Input events, combinations of them that trigger an action, and tables of
//! named actions.
//!
//! A key is given by its position in winit's list of key codes, a mouse
//! button by its number: 0 left, 1 right, 2 middle, 3 back, 4 forward, and
//! 5 + n for the other button n. These numbers order keys and buttons as
//! winit's own types order them.

use vstd::prelude::*;
use vstd::seq_lib::{lemma_sorted_unique, group_to_multiset_ensures};
use vstd::relations::{sorted_by, total_ordering};

verus! {

broadcast use group_to_multiset_ensures;

/// Whether a key or button went down, is held, or went up this frame.
#[derive(Clone, Copy, Debug, PartialEq, Eq, Hash, PartialOrd, Ord)]
pub enum InputState<T> {
    Down(T),
    Hold(T),
    Up(T),
}

/// Which way the mouse moved.
#[derive(Clone, Copy, Debug, PartialEq, Eq, Hash, PartialOrd, Ord)]
pub enum MouseState {
    MouseUp,
    MouseDown,
    MouseLeft,
    MouseRight,
}

/// Which way the mouse wheel turned.
#[derive(Clone, Copy, Debug, PartialEq, Eq, Hash, PartialOrd, Ord)]
pub enum WheelState {
    Up,
    Down,
}

/// One input event: a key or mouse button in some state, a mouse move or a
/// wheel turn.
#[derive(Clone, Copy, Debug, PartialEq, Eq, Hash, PartialOrd, Ord)]
pub enum InputEvent {
    KeyCode(InputState<u32>),
    MouseButton(InputState<u32>),
    MouseState(MouseState),
    WheelState(WheelState),
}

/// The position of a state among down, hold and up, and the code it holds.
pub open spec fn state_rank(s: InputState<u32>) -> (int, int) {
    match s {
        InputState::Down(c) => (0, c as int),
        InputState::Hold(c) => (1, c as int),
        InputState::Up(c) => (2, c as int),
    }
}

/// The place of an event in the order of events: by kind (keys, mouse
/// buttons, mouse moves, wheel turns), then by state, then by code.
pub open spec fn event_rank(e: InputEvent) -> int {
    match e {
        InputEvent::KeyCode(s) => state_rank(s).0 * 0x1_0000_0000 + state_rank(s).1,
        InputEvent::MouseButton(s) => 0x4_0000_0000 + state_rank(s).0 * 0x1_0000_0000 + state_rank(s).1,
        InputEvent::MouseState(m) => 0x8_0000_0000 + match m {
            MouseState::MouseUp => 0int,
            MouseState::MouseDown => 1,
            MouseState::MouseLeft => 2,
            MouseState::MouseRight => 3,
        },
        InputEvent::WheelState(w) => 0xc_0000_0000 + match w {
            WheelState::Up => 0int,
            WheelState::Down => 1,
        },
    }
}

/// Events of the same rank are the same event.
pub proof fn lemma_event_rank_injective(a: InputEvent, b: InputEvent)
    requires
        event_rank(a) == event_rank(b),
    ensures
        a == b,
{
}

/// `s` with every occurrence of `e` taken out.
pub open spec fn without(s: Seq<InputEvent>, e: InputEvent) -> Seq<InputEvent>
    decreases s.len(),
{
    if s.len() == 0 {
        s
    } else if s.last() == e {
        without(s.drop_last(), e)
    } else {
        without(s.drop_last(), e).push(s.last())
    }
}

/// The order of events.
pub open spec fn event_le(a: InputEvent, b: InputEvent) -> bool {
    event_rank(a) <= event_rank(b)
}

pub proof fn lemma_event_le_total()
    ensures
        total_ordering(|a: InputEvent, b: InputEvent| event_le(a, b)),
{
    assert forall|a: InputEvent, b: InputEvent|
        #[trigger] event_le(a, b) && #[trigger] event_le(b, a) implies a == b by {
        lemma_event_rank_injective(a, b);
    }
}

/// The events are in order.
pub open spec fn events_sorted(s: Seq<InputEvent>) -> bool {
    forall|i: int, j: int| 0 <= i < j < s.len() ==> event_rank(s[i]) <= event_rank(s[j])
}

impl InputEvent {
    /// The rank of this event.
    pub fn rank(&self) -> (r: u64)
        ensures
            r as int == event_rank(*self),
    {
        let (kind, state, code): (u64, u64, u64) = match self {
            InputEvent::KeyCode(s) => {
                let (a, c) = match s {
                    InputState::Down(c) => (0u64, *c),
                    InputState::Hold(c) => (1u64, *c),
                    InputState::Up(c) => (2u64, *c),
                };
                (0u64, a, c as u64)
            },
            InputEvent::MouseButton(s) => {
                let (a, c) = match s {
                    InputState::Down(c) => (0u64, *c),
                    InputState::Hold(c) => (1u64, *c),
                    InputState::Up(c) => (2u64, *c),
                };
                (1u64, a, c as u64)
            },
            InputEvent::MouseState(m) => {
                let a: u64 = match m {
                    MouseState::MouseUp => 0,
                    MouseState::MouseDown => 1,
                    MouseState::MouseLeft => 2,
                    MouseState::MouseRight => 3,
                };
                (2u64, 0u64, a)
            },
            InputEvent::WheelState(w) => {
                let a: u64 = match w {
                    WheelState::Up => 0,
                    WheelState::Down => 1,
                };
                (3u64, 0u64, a)
            },
        };
        kind * 0x4_0000_0000 + state * 0x1_0000_0000 + code
    }
}

/// Inserts `e` into the sorted `v` after every event not greater than it.
fn insert_sorted(v: &mut Vec<InputEvent>, e: InputEvent)
    requires
        events_sorted(old(v)@),
    ensures
        events_sorted(final(v)@),
        final(v)@.to_multiset() == old(v)@.to_multiset().insert(e),
{
    let r = e.rank();
    let mut i: usize = 0;
    while i < v.len() && v[i].rank() <= r
        invariant
            i <= v@.len(),
            events_sorted(v@),
            r as int == event_rank(e),
            forall|j: int| 0 <= j < i ==> event_rank(v@[j]) <= r,
        decreases v@.len() - i,
    {
        i = i + 1;
    }
    let ghost before = v@;
    v.insert(i, e);
    proof {
        assert(v@ == before.insert(i as int, e));
        assert forall|a: int, b: int| 0 <= a < b < v@.len() implies event_rank(v@[a]) <= event_rank(v@[b]) by {
            if b < i {
                assert(v@[a] == before[a]);
                assert(v@[b] == before[b]);
            } else if b == i {
                assert(v@[a] == before[a]);
            } else if a < i {
                assert(v@[a] == before[a]);
                assert(v@[b] == before[b - 1]);
                assert(event_rank(before[i as int]) > r);
            } else if a == i {
                assert(v@[b] == before[b - 1]);
                assert(event_rank(before[i as int]) > r);
            } else {
                assert(v@[a] == before[a - 1]);
                assert(v@[b] == before[b - 1]);
            }
        }
    }
}

/// The events of `s`, in order.
fn sorted_copy(s: &[InputEvent]) -> (r: Vec<InputEvent>)
    ensures
        events_sorted(r@),
        r@.to_multiset() == s@.to_multiset(),
{
    let mut r: Vec<InputEvent> = Vec::new();
    let mut i: usize = 0;
    while i < s.len()
        invariant
            i <= s@.len(),
            events_sorted(r@),
            r@.to_multiset() == s@.take(i as int).to_multiset(),
        decreases s@.len() - i,
    {
        insert_sorted(&mut r, s[i]);
        proof {
            assert(s@.take(i + 1) =~= s@.take(i as int).push(s@[i as int]));
        }
        i = i + 1;
    }
    proof {
        assert(s@.take(i as int) =~= s@);
    }
    r
}

/// Two sorted lists of the same events are the same list.
pub proof fn lemma_sorted_events_unique(x: Seq<InputEvent>, y: Seq<InputEvent>)
    requires
        events_sorted(x),
        events_sorted(y),
        x.to_multiset() == y.to_multiset(),
    ensures
        x == y,
{
    let leq = |a: InputEvent, b: InputEvent| event_le(a, b);
    lemma_event_le_total();
    assert(sorted_by(x, leq));
    assert(sorted_by(y, leq));
    lemma_sorted_unique(x, y, leq);
}

/// A set of events that together trigger an action. The events are kept in
/// order, so two combinations of the same events are equal however they
/// were given.
#[derive(Debug, PartialEq, Eq, Hash)]
pub struct InputCombination {
    comb: Vec<InputEvent>,
}

impl View for InputCombination {
    type V = Seq<InputEvent>;

    closed spec fn view(&self) -> Seq<InputEvent> {
        self.comb@
    }
}

impl Clone for InputCombination {
    /// The same events.
    fn clone(&self) -> (r: Self)
        ensures
            r@ == self@,
    {
        proof {
            use_type_invariant(self);
        }
        let mut comb: Vec<InputEvent> = Vec::new();
        let mut i: usize = 0;
        while i < self.comb.len()
            invariant
                i <= self.comb@.len(),
                comb@ == self.comb@.take(i as int),
            decreases self.comb@.len() - i,
        {
            comb.push(self.comb[i]);
            proof {
                assert(self.comb@.take(i + 1) =~= self.comb@.take(i as int).push(self.comb@[i as int]));
            }
            i = i + 1;
        }
        proof {
            assert(self.comb@.take(i as int) =~= self.comb@);
        }
        InputCombination { comb }
    }
}

impl InputCombination {
    #[verifier::type_invariant]
    closed spec fn inv(self) -> bool {
        events_sorted(self.comb@)
    }

    /// The combination of the events of `comb`.
    pub fn new(comb: &[InputEvent]) -> (r: Self)
        ensures
            events_sorted(r@),
            r@.to_multiset() == comb@.to_multiset(),
    {
        InputCombination { comb: sorted_copy(comb) }
    }

    /// Adds one event.
    pub fn add(&mut self, input_event: InputEvent)
        ensures
            events_sorted(final(self)@),
            final(self)@.to_multiset() == old(self)@.to_multiset().insert(input_event),
    {
        proof {
            use_type_invariant(&*self);
        }
        let mut comb = self.clone().comb;
        insert_sorted(&mut comb, input_event);
        self.comb = comb;
    }

    /// Removes the event at `index`.
    pub fn remove_by_index(&mut self, index: usize)
        requires
            index < old(self)@.len(),
        ensures
            events_sorted(final(self)@),
            final(self)@ == old(self)@.remove(index as int),
    {
        proof {
            use_type_invariant(&*self);
        }
        let mut comb = self.clone().comb;
        let ghost before = comb@;
        comb.remove(index);
        proof {
            assert forall|a: int, b: int| 0 <= a < b < comb@.len() implies event_rank(comb@[a])
                <= event_rank(comb@[b]) by {
                let aa = if a < index { a } else { a + 1 };
                let bb = if b < index { b } else { b + 1 };
                assert(comb@[a] == before[aa]);
                assert(comb@[b] == before[bb]);
            }
        }
        self.comb = comb;
    }

    /// Removes every occurrence of `input_event`.
    pub fn remove(&mut self, input_event: InputEvent)
        ensures
            events_sorted(final(self)@),
            final(self)@ == without(old(self)@, input_event),
    {
        proof {
            use_type_invariant(&*self);
        }
        let r = input_event.rank();
        let mut kept: Vec<InputEvent> = Vec::new();
        let mut i: usize = 0;
        while i < self.comb.len()
            invariant
                i <= self.comb@.len(),
                events_sorted(self.comb@),
                r as int == event_rank(input_event),
                kept@ == without(self.comb@.take(i as int), input_event),
                events_sorted(kept@),
                forall|j: int, k: int| 0 <= j < kept@.len() && i <= k < self.comb@.len()
                    ==> event_rank(kept@[j]) <= event_rank(self.comb@[k]),
            decreases self.comb@.len() - i,
        {
            let x = self.comb[i];
            proof {
                assert(self.comb@.take(i + 1).drop_last() =~= self.comb@.take(i as int));
                assert(self.comb@.take(i + 1).last() == x);
            }
            if x.rank() != r {
                proof {
                    if x == input_event {
                        assert(event_rank(x) == event_rank(input_event));
                    }
                }
                kept.push(x);
            } else {
                proof {
                    lemma_event_rank_injective(x, input_event);
                }
            }
            i = i + 1;
        }
        proof {
            assert(self.comb@.take(i as int) =~= self.comb@);
        }
        self.comb = kept;
    }

    /// The events, in order.
    pub fn get(&self) -> (r: &Vec<InputEvent>)
        ensures
            r@ == self@,
            events_sorted(r@),
    {
        proof {
            use_type_invariant(self);
        }
        &self.comb
    }

    /// The sorted prefixes of the combination: the first event, the first
    /// two, and so on up to all of them.
    pub fn get_all_combinations(&self) -> (r: Vec<Vec<InputEvent>>)
        ensures
            r@.len() == self@.len(),
            forall|i: int| 0 <= i < r@.len() ==> #[trigger] r@[i]@ == self@.take(i + 1),
    {
        proof {
            use_type_invariant(self);
        }
        let mut combos: Vec<InputEvent> = Vec::new();
        let mut out: Vec<Vec<InputEvent>> = Vec::new();
        let mut i: usize = 0;
        while i < self.comb.len()
            invariant
                i <= self.comb@.len(),
                events_sorted(self.comb@),
                combos@ == self.comb@.take(i as int),
                out@.len() == i,
                forall|j: int| 0 <= j < i ==> #[trigger] out@[j]@ == self.comb@.take(j + 1),
            decreases self.comb@.len() - i,
        {
            let ghost before = combos@;
            insert_sorted(&mut combos, self.comb[i]);
            proof {
                let want = self.comb@.take(i + 1);
                assert(want =~= before.push(self.comb@[i as int]));
                assert(events_sorted(want));
                lemma_sorted_events_unique(combos@, want);
            }
            out.push(combos.clone());
            i = i + 1;
        }
        out
    }
}

/// The actions of an input table, each with the combinations that trigger
/// it. Each action name occurs once.
pub struct InputTable {
    input_combination: Vec<(String, Vec<InputCombination>)>,
}

impl InputTable {
    /// Each action name occurs once.
    pub closed spec fn wf(self) -> bool {
        forall|i: int, j: int|
            0 <= i < self.input_combination@.len() && 0 <= j < self.input_combination@.len() && i
                != j ==> self.input_combination@[i].0@ != self.input_combination@[j].0@
    }

    /// The table: each action name with its combinations.
    pub closed spec fn actions(self) -> Map<Seq<char>, Seq<InputCombination>> {
        Map::new(
            |k: Seq<char>| exists|i: int| 0 <= i < self.input_combination@.len() && self.input_combination@[i].0@ == k,
            |k: Seq<char>| {
                let i = choose|i: int| 0 <= i < self.input_combination@.len() && self.input_combination@[i].0@ == k;
                self.input_combination@[i].1@
            },
        )
    }

    proof fn lemma_action_at(self, i: int)
        requires
            self.wf(),
            0 <= i < self.input_combination@.len(),
        ensures
            self.actions().contains_key(self.input_combination@[i].0@),
            self.actions()[self.input_combination@[i].0@] == self.input_combination@[i].1@,
    {
        let k = self.input_combination@[i].0@;
        assert(exists|j: int| 0 <= j < self.input_combination@.len() && self.input_combination@[j].0@ == k);
        let j = choose|j: int| 0 <= j < self.input_combination@.len() && self.input_combination@[j].0@ == k;
        assert(i == j);
    }

    proof fn lemma_actions_update(t0: Self, t1: Self, i: int)
        requires
            t0.wf(),
            0 <= i < t0.input_combination@.len(),
            t1.input_combination@ == t0.input_combination@.update(
                i,
                (t0.input_combination@[i].0, t1.input_combination@[i].1),
            ),
        ensures
            t1.wf(),
            t1.actions() == t0.actions().insert(
                t0.input_combination@[i].0@,
                t1.input_combination@[i].1@,
            ),
    {
        let key = t0.input_combination@[i].0@;
        assert forall|a: int, b: int| 0 <= a < t1.input_combination@.len() && 0 <= b
            < t1.input_combination@.len() && a != b implies t1.input_combination@[a].0@
            != t1.input_combination@[b].0@ by {
            assert(t1.input_combination@[a].0 == t0.input_combination@[a].0);
            assert(t1.input_combination@[b].0 == t0.input_combination@[b].0);
        }
        t0.lemma_action_at(i);
        let want = t0.actions().insert(key, t1.input_combination@[i].1@);
        assert forall|k: Seq<char>| #[trigger] t1.actions().contains_key(k) == want.contains_key(k) by {
            if want.contains_key(k) && k != key {
                let j = choose|j: int| 0 <= j < t0.input_combination@.len() && t0.input_combination@[j].0@ == k;
                assert(t1.input_combination@[j].0@ == k);
            }
            if t1.actions().contains_key(k) {
                let j = choose|j: int| 0 <= j < t1.input_combination@.len() && t1.input_combination@[j].0@ == k;
                assert(t0.input_combination@[j].0@ == k);
            }
            if k == key {
                assert(t1.input_combination@[i].0@ == k);
            }
        }
        assert forall|k: Seq<char>| #[trigger] t1.actions().contains_key(k) implies t1.actions()[k] == want[k] by {
            let j = choose|j: int| 0 <= j < t1.input_combination@.len() && t1.input_combination@[j].0@ == k;
            t1.lemma_action_at(j);
            if j != i {
                t0.lemma_action_at(j);
            }
        }
        assert(t1.actions() =~= want);
    }

    /// Whether each action name occurs once, as every table that this
    /// module builds has it.
    pub fn is_well_formed(&self) -> (r: bool)
        ensures
            r == self.wf(),
    {
        let n = self.input_combination.len();
        let mut i: usize = 0;
        while i < n
            invariant
                n == self.input_combination@.len(),
                i <= n,
                forall|a: int, b: int| 0 <= a < i && 0 <= b < n && a != b
                    ==> self.input_combination@[a].0@ != self.input_combination@[b].0@,
            decreases n - i,
        {
            let mut j: usize = 0;
            while j < n
                invariant
                    n == self.input_combination@.len(),
                    i < n,
                    j <= n,
                    forall|a: int, b: int| 0 <= a < i && 0 <= b < n && a != b
                        ==> self.input_combination@[a].0@ != self.input_combination@[b].0@,
                    forall|b: int| 0 <= b < j && b != i ==> self.input_combination@[i as int].0@ != self.input_combination@[b].0@,
                decreases n - j,
            {
                if j != i && self.input_combination[i].0 == self.input_combination[j].0 {
                    return false;
                }
                j = j + 1;
            }
            i = i + 1;
        }
        true
    }

    /// An empty table.
    pub fn new() -> (r: Self)
        ensures
            r.wf(),
            r.actions() == Map::<Seq<char>, Seq<InputCombination>>::empty(),
    {
        let r = InputTable { input_combination: Vec::new() };
        assert(r.actions() =~= Map::<Seq<char>, Seq<InputCombination>>::empty());
        r
    }

    fn find(&self, name: &str) -> (r: Option<usize>)
        ensures
            match r {
                Some(i) => i < self.input_combination@.len() && self.input_combination@[i as int].0@ == name@,
                None => forall|i: int| 0 <= i < self.input_combination@.len() ==> self.input_combination@[i].0@ != name@,
            },
    {
        let key = name.to_string();
        let mut i: usize = 0;
        while i < self.input_combination.len()
            invariant
                i <= self.input_combination@.len(),
                key@ == name@,
                forall|j: int| 0 <= j < i ==> self.input_combination@[j].0@ != name@,
            decreases self.input_combination@.len() - i,
        {
            if self.input_combination[i].0 == key {
                return Some(i);
            }
            i = i + 1;
        }
        None
    }

    /// Adds a combination that triggers the action `name`, after the ones it
    /// already has.
    pub fn add_action(&mut self, name: &str, input_combination: InputCombination)
        requires
            old(self).wf(),
        ensures
            final(self).wf(),
            final(self).actions() == old(self).actions().insert(
                name@,
                if old(self).actions().contains_key(name@) {
                    old(self).actions()[name@].push(input_combination)
                } else {
                    seq![input_combination]
                },
            ),
    {
        let ghost t0 = *self;
        match self.find(name) {
            Some(i) => {
                proof {
                    t0.lemma_action_at(i as int);
                }
                self.input_combination[i].1.push(input_combination);
                proof {
                    let t1 = *self;
                    assert forall|a: int, b: int| 0 <= a < t1.input_combination@.len() && 0 <= b
                        < t1.input_combination@.len() && a != b implies t1.input_combination@[a].0@
                        != t1.input_combination@[b].0@ by {
                        assert(t1.input_combination@[a].0 == t0.input_combination@[a].0);
                        assert(t1.input_combination@[b].0 == t0.input_combination@[b].0);
                    }
                    let want = t0.actions().insert(name@, t0.actions()[name@].push(input_combination));
                    assert forall|k: Seq<char>| #[trigger] t1.actions().contains_key(k) == want.contains_key(k) by {
                        if want.contains_key(k) && k != name@ {
                            let j = choose|j: int| 0 <= j < t0.input_combination@.len() && t0.input_combination@[j].0@ == k;
                            assert(t1.input_combination@[j].0@ == k);
                        }
                        if t1.actions().contains_key(k) {
                            let j = choose|j: int| 0 <= j < t1.input_combination@.len() && t1.input_combination@[j].0@ == k;
                            assert(t0.input_combination@[j].0@ == k);
                        }
                        if k == name@ {
                            assert(t1.input_combination@[i as int].0@ == k);
                        }
                    }
                    assert forall|k: Seq<char>| #[trigger] t1.actions().contains_key(k) implies t1.actions()[k] == want[k] by {
                        let j = choose|j: int| 0 <= j < t1.input_combination@.len() && t1.input_combination@[j].0@ == k;
                        t1.lemma_action_at(j);
                        t0.lemma_action_at(j);
                    }
                    assert(t1.actions() =~= want);
                }
            },
            None => {
                self.input_combination.push((name.to_string(), vec![input_combination]));
                proof {
                    let t1 = *self;
                    let n = t0.input_combination@.len() as int;
                    assert forall|a: int, b: int| 0 <= a < t1.input_combination@.len() && 0 <= b
                        < t1.input_combination@.len() && a != b implies t1.input_combination@[a].0@
                        != t1.input_combination@[b].0@ by {
                        if a < n {
                            assert(t1.input_combination@[a] == t0.input_combination@[a]);
                        }
                        if b < n {
                            assert(t1.input_combination@[b] == t0.input_combination@[b]);
                        }
                    }
                    assert(!t0.actions().contains_key(name@));
                    let want = t0.actions().insert(name@, seq![input_combination]);
                    assert forall|k: Seq<char>| #[trigger] t1.actions().contains_key(k) == want.contains_key(k) by {
                        if want.contains_key(k) && k != name@ {
                            let j = choose|j: int| 0 <= j < t0.input_combination@.len() && t0.input_combination@[j].0@ == k;
                            assert(t1.input_combination@[j].0@ == k);
                        }
                        if t1.actions().contains_key(k) && k != name@ {
                            let j = choose|j: int| 0 <= j < t1.input_combination@.len() && t1.input_combination@[j].0@ == k;
                            assert(j != n);
                            assert(t0.input_combination@[j].0@ == k);
                        }
                        if k == name@ {
                            assert(t1.input_combination@[n].0@ == k);
                        }
                    }
                    assert forall|k: Seq<char>| #[trigger] t1.actions().contains_key(k) implies t1.actions()[k] == want[k] by {
                        let j = choose|j: int| 0 <= j < t1.input_combination@.len() && t1.input_combination@[j].0@ == k;
                        t1.lemma_action_at(j);
                        if j < n {
                            assert(t1.input_combination@[j] == t0.input_combination@[j]);
                            t0.lemma_action_at(j);
                        } else {
                            assert(t1.input_combination@[j].1@ =~= seq![input_combination]);
                        }
                    }
                    assert(t1.actions() =~= want);
                }
            },
        }
    }

    /// The combinations that trigger the action `name`, if it is in the
    /// table.
    pub fn get_action_combinations(&self, name: &str) -> (r: Option<&Vec<InputCombination>>)
        requires
            self.wf(),
        ensures
            match r {
                Some(v) => self.actions().contains_key(name@) && v@ == self.actions()[name@],
                None => !self.actions().contains_key(name@),
            },
    {
        match self.find(name) {
            Some(i) => {
                proof {
                    self.lemma_action_at(i as int);
                }
                Some(&self.input_combination[i].1)
            },
            None => None,
        }
    }

    /// The combinations of the action `name`, to change in place, if it is
    /// in the table.
    #[verifier::spinoff_prover]
    pub fn get_action_combinations_mut(&mut self, name: &str) -> (r: Option<&mut Vec<InputCombination>>)
        requires
            old(self).wf(),
        ensures
            r is Some <==> old(self).actions().contains_key(name@),
            r matches Some(v) ==> (*v)@ == old(self).actions()[name@],
            r matches Some(v) ==> final(self).wf(),
            r matches Some(v) ==> final(self).actions() == old(self).actions().insert(
                name@,
                (*final(v))@,
            ),
            r is None ==> *final(self) == *old(self),
    {
        let ghost t0 = *self;
        match self.find(name) {
            Some(i) => {
                proof {
                    t0.lemma_action_at(i as int);
                }
                proof {
                    assert forall|t1: Self|
                        #![trigger t1.wf()]
                        #![trigger t1.actions()]
                        t1.input_combination@.len() == t0.input_combination@.len()
                        && (forall|j: int| 0 <= j < t0.input_combination@.len() && j != i
                            ==> t1.input_combination@[j] == t0.input_combination@[j])
                        && t1.input_combination@[i as int].0 == t0.input_combination@[i as int].0
                        implies t1.wf() && t1.actions() == t0.actions().insert(
                        name@,
                        t1.input_combination@[i as int].1@,
                    ) by {
                        assert(t1.input_combination@ =~= t0.input_combination@.update(
                            i as int,
                            (t0.input_combination@[i as int].0, t1.input_combination@[i as int].1),
                        ));
                        Self::lemma_actions_update(t0, t1, i as int);
                    }
                }
                let r = &mut self.input_combination[i].1;
                Some(r)
            },
            None => None,
        }
    }
}

} // verus!
