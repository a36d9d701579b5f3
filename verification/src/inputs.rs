//! The state of the keyboard and mouse as an application reads it each
//! frame, and whether the actions of its input tables are triggered.
//!
//! Keys and mouse buttons are numbered as in `events`. Presses and releases
//! are gathered in an `InputStorage` as they come; once a frame they are
//! handed to the `Inputs` that the application reads, and what went down or
//! up is forgotten while what is held stays held. Where the mouse is and how
//! far its wheel turned are read by the caller: what the actions need of
//! them, on which side of zero each lies, is handed in as `PointerSigns`.

use vstd::prelude::*;
use std::collections::HashSet;
use vstd::std_specs::iter::IteratorSpec;
use crate::assoc::{keys_unique, has_key, as_map, find_key, insert_key, lemma_entry};
use crate::events::{InputCombination, InputEvent, InputState, InputTable, MouseState, WheelState};

verus! {

broadcast use vstd::std_specs::hash::group_hash_axioms;

/// On which side of zero the mouse position and the wheel lie: `up` when
/// the position's y is above zero and `down` when it is below, `left` when
/// its x is below zero and `right` when it is above, `wheel_up` when the
/// wheel turned by more than zero and `wheel_down` when by less.
#[derive(Clone, Copy, Debug, PartialEq, Eq)]
pub struct PointerSigns {
    pub up: bool,
    pub down: bool,
    pub left: bool,
    pub right: bool,
    pub wheel_up: bool,
    pub wheel_down: bool,
}

impl PointerSigns {
    /// A pointer at zero with a wheel that did not turn.
    pub fn still() -> (r: Self)
        ensures
            !r.up && !r.down && !r.left && !r.right && !r.wheel_up && !r.wheel_down,
    {
        PointerSigns { up: false, down: false, left: false, right: false, wheel_up: false, wheel_down: false }
    }
}

/// The keys and mouse buttons that went down, are held, and went up.
#[derive(Debug)]
pub struct InputStorage {
    pub keys_down: HashSet<u32>,
    pub keys_hold: HashSet<u32>,
    pub keys_up: HashSet<u32>,
    pub mouse_buttons_down: HashSet<u32>,
    pub mouse_buttons_hold: HashSet<u32>,
    pub mouse_buttons_up: HashSet<u32>,
}

/// The sets of an `InputStorage`.
pub struct KeysView {
    pub keys_down: Set<u32>,
    pub keys_hold: Set<u32>,
    pub keys_up: Set<u32>,
    pub mouse_buttons_down: Set<u32>,
    pub mouse_buttons_hold: Set<u32>,
    pub mouse_buttons_up: Set<u32>,
}

impl View for InputStorage {
    type V = KeysView;

    open spec fn view(&self) -> KeysView {
        KeysView {
            keys_down: self.keys_down@,
            keys_hold: self.keys_hold@,
            keys_up: self.keys_up@,
            mouse_buttons_down: self.mouse_buttons_down@,
            mouse_buttons_hold: self.mouse_buttons_hold@,
            mouse_buttons_up: self.mouse_buttons_up@,
        }
    }
}

/// No key or button in any state.
pub open spec fn no_keys() -> KeysView {
    KeysView {
        keys_down: Set::empty(),
        keys_hold: Set::empty(),
        keys_up: Set::empty(),
        mouse_buttons_down: Set::empty(),
        mouse_buttons_hold: Set::empty(),
        mouse_buttons_up: Set::empty(),
    }
}

/// The key `c` was pressed: it went down and is held.
pub open spec fn key_pressed_spec(k: KeysView, c: u32) -> KeysView {
    KeysView { keys_hold: k.keys_hold.insert(c), keys_down: k.keys_down.insert(c), ..k }
}

/// The key `c` was released: it is no longer held and went up.
pub open spec fn key_released_spec(k: KeysView, c: u32) -> KeysView {
    KeysView { keys_hold: k.keys_hold.remove(c), keys_up: k.keys_up.insert(c), ..k }
}

/// The mouse button `b` was pressed: it went down and is held.
pub open spec fn button_pressed_spec(k: KeysView, b: u32) -> KeysView {
    KeysView { mouse_buttons_hold: k.mouse_buttons_hold.insert(b), mouse_buttons_down: k.mouse_buttons_down.insert(b), ..k }
}

/// The mouse button `b` was released: it is no longer held and went up.
pub open spec fn button_released_spec(k: KeysView, b: u32) -> KeysView {
    KeysView { mouse_buttons_hold: k.mouse_buttons_hold.remove(b), mouse_buttons_up: k.mouse_buttons_up.insert(b), ..k }
}

/// What is left after a frame was handed over: what is held stays held,
/// and nothing went down or up.
pub open spec fn next_frame(k: KeysView) -> KeysView {
    KeysView {
        keys_down: Set::empty(),
        keys_up: Set::empty(),
        mouse_buttons_down: Set::empty(),
        mouse_buttons_up: Set::empty(),
        ..k
    }
}

/// A copy of `s`.
fn copy_set(s: &HashSet<u32>) -> (r: HashSet<u32>)
    ensures
        r@ == s@,
{
    let ghost all = vstd::std_specs::hash::spec_hash_keys_iter(s).remaining();
    let mut r: HashSet<u32> = HashSet::new();
    for k in it: s.iter()
        invariant
            it.seq() == all,
            all.unref().to_set() == s@,
            r@ == it.seq().take(it.index() as int).unref().to_set(),
    {
        let ghost before = it.seq().take(it.index() as int).unref();
        let ghost i = it.index();
        r.insert(*k);
        proof {
            broadcast use vstd::seq_lib::group_seq_properties;

            assert(it.seq().take(i + 1).unref() =~= before.push(*k));
            assert(before.push(*k).to_set() =~= before.to_set().insert(*k));
        }
    }
    assert(all.take(all.len() as int) =~= all);
    r
}

/// Adds the members of `s` to `dst`.
fn add_all(dst: &mut HashSet<u32>, s: &HashSet<u32>)
    ensures
        final(dst)@ == old(dst)@.union(s@),
{
    let ghost all = vstd::std_specs::hash::spec_hash_keys_iter(s).remaining();
    let ghost d0 = dst@;
    for k in it: s.iter()
        invariant
            it.seq() == all,
            all.unref().to_set() == s@,
            dst@ == d0.union(it.seq().take(it.index() as int).unref().to_set()),
    {
        let ghost before = it.seq().take(it.index() as int).unref();
        let ghost i = it.index();
        dst.insert(*k);
        proof {
            broadcast use vstd::seq_lib::group_seq_properties;

            assert(it.seq().take(i + 1).unref() =~= before.push(*k));
            assert(before.push(*k).to_set() =~= before.to_set().insert(*k));
            assert(dst@ =~= d0.union(before.push(*k).to_set()));
        }
    }
    assert(all.take(all.len() as int) =~= all);
}

impl InputStorage {
    /// No key or button in any state.
    pub fn new() -> (r: Self)
        ensures
            r@ == no_keys(),
    {
        InputStorage {
            keys_down: HashSet::new(),
            keys_hold: HashSet::new(),
            keys_up: HashSet::new(),
            mouse_buttons_down: HashSet::new(),
            mouse_buttons_hold: HashSet::new(),
            mouse_buttons_up: HashSet::new(),
        }
    }

    /// Records that the key `c` was pressed.
    pub fn key_pressed(&mut self, c: u32)
        ensures
            final(self)@ == key_pressed_spec(old(self)@, c),
    {
        self.keys_hold.insert(c);
        self.keys_down.insert(c);
    }

    /// Records that the key `c` was released.
    pub fn key_released(&mut self, c: u32)
        ensures
            final(self)@ == key_released_spec(old(self)@, c),
    {
        self.keys_hold.remove(&c);
        self.keys_up.insert(c);
        assert(self.keys_hold@ =~= old(self).keys_hold@.remove(c));
    }

    /// Records that the mouse button `b` was pressed.
    pub fn mouse_button_pressed(&mut self, b: u32)
        ensures
            final(self)@ == button_pressed_spec(old(self)@, b),
    {
        self.mouse_buttons_hold.insert(b);
        self.mouse_buttons_down.insert(b);
    }

    /// Records that the mouse button `b` was released.
    pub fn mouse_button_released(&mut self, b: u32)
        ensures
            final(self)@ == button_released_spec(old(self)@, b),
    {
        self.mouse_buttons_hold.remove(&b);
        self.mouse_buttons_up.insert(b);
        assert(self.mouse_buttons_hold@ =~= old(self).mouse_buttons_hold@.remove(b));
    }
}

impl Default for InputStorage {
    fn default() -> (r: Self)
        ensures
            r@ == no_keys(),
    {
        InputStorage::new()
    }
}

/// Whether the event holds this frame.
pub open spec fn event_active(k: KeysView, p: PointerSigns, e: InputEvent) -> bool {
    match e {
        InputEvent::KeyCode(InputState::Down(c)) => k.keys_down.contains(c),
        InputEvent::KeyCode(InputState::Hold(c)) => k.keys_hold.contains(c),
        InputEvent::KeyCode(InputState::Up(c)) => k.keys_up.contains(c),
        InputEvent::MouseButton(InputState::Down(b)) => k.mouse_buttons_down.contains(b),
        InputEvent::MouseButton(InputState::Hold(b)) => k.mouse_buttons_hold.contains(b),
        InputEvent::MouseButton(InputState::Up(b)) => k.mouse_buttons_up.contains(b),
        InputEvent::MouseState(MouseState::MouseUp) => p.up,
        InputEvent::MouseState(MouseState::MouseDown) => p.down,
        InputEvent::MouseState(MouseState::MouseLeft) => p.left,
        InputEvent::MouseState(MouseState::MouseRight) => p.right,
        InputEvent::WheelState(WheelState::Up) => p.wheel_up,
        InputEvent::WheelState(WheelState::Down) => p.wheel_down,
    }
}

/// Whether every event of the combination holds this frame.
pub open spec fn combination_active(k: KeysView, p: PointerSigns, c: Seq<InputEvent>) -> bool {
    forall|i: int| 0 <= i < c.len() ==> #[trigger] event_active(k, p, c[i])
}

/// The input state an application reads: the keys and buttons of this
/// frame, the pointer's signs, the input tables by name, and the name of
/// the active table.
pub struct Inputs {
    keys: InputStorage,
    pointer: PointerSigns,
    input_tables: Vec<(String, InputTable)>,
    active_table: String,
}

/// The parts of an `Inputs`.
pub struct InputsView {
    pub keys: KeysView,
    pub pointer: PointerSigns,
    pub tables: Map<Seq<char>, InputTable>,
    pub active: Seq<char>,
}

impl View for Inputs {
    type V = InputsView;

    closed spec fn view(&self) -> InputsView {
        InputsView {
            keys: self.keys@,
            pointer: self.pointer,
            tables: as_map(self.input_tables@),
            active: self.active_table@,
        }
    }
}

/// Whether the action of the table is triggered: the table has the action,
/// and one of its combinations holds.
pub open spec fn triggered(v: InputsView, table: Seq<char>, action: Seq<char>) -> bool {
    &&& v.tables.contains_key(table)
    &&& v.tables[table].actions().contains_key(action)
    &&& exists|j: int|
        0 <= j < v.tables[table].actions()[action].len()
            && #[trigger] combination_active(v.keys, v.pointer, v.tables[table].actions()[action][j]@)
}

impl Inputs {
    /// Each table name occurs once and each table is well formed.
    pub closed spec fn wf(self) -> bool {
        &&& keys_unique(self.input_tables@)
        &&& forall|i: int| 0 <= i < self.input_tables@.len() ==> (#[trigger] self.input_tables@[i]).1.wf()
    }

    /// Whether each table name occurs once and each table is well formed,
    /// as every input state that this module builds has it.
    pub fn is_well_formed(&self) -> (r: bool)
        ensures
            r == self.wf(),
    {
        let n = self.input_tables.len();
        let mut i: usize = 0;
        while i < n
            invariant
                n == self.input_tables@.len(),
                i <= n,
                forall|a: int, b: int| 0 <= a < i && 0 <= b < n && a != b
                    ==> #[trigger] self.input_tables@[a].0@ != #[trigger] self.input_tables@[b].0@,
                forall|a: int| 0 <= a < i ==> (#[trigger] self.input_tables@[a]).1.wf(),
            decreases n - i,
        {
            if !self.input_tables[i].1.is_well_formed() {
                return false;
            }
            let mut j: usize = 0;
            while j < n
                invariant
                    n == self.input_tables@.len(),
                    i < n,
                    j <= n,
                    forall|b: int| 0 <= b < j && b != i ==> self.input_tables@[i as int].0@ != #[trigger] self.input_tables@[b].0@,
                decreases n - j,
            {
                if j != i && self.input_tables[i].0 == self.input_tables[j].0 {
                    return false;
                }
                j = j + 1;
            }
            i = i + 1;
        }
        true
    }

    /// The tables of a well-formed input state are well formed.
    pub proof fn lemma_tables_wf(self, name: Seq<char>)
        requires
            self.wf(),
            self@.tables.contains_key(name),
        ensures
            self@.tables[name].wf(),
    {
        let s = self.input_tables@;
        let i = choose|i: int| 0 <= i < s.len() && #[trigger] s[i].0@ == name;
        lemma_entry(s, i);
        assert(s[i].1.wf());
    }

    /// Nothing pressed, the pointer at zero, no tables, and an empty name
    /// for the active table.
    pub fn new() -> (r: Self)
        ensures
            r.wf(),
            r@.keys == no_keys(),
            r@.pointer == PointerSigns::still_spec(),
            r@.tables == Map::<Seq<char>, InputTable>::empty(),
            r@.active == Seq::<char>::empty(),
    {
        let r = Inputs {
            keys: InputStorage::new(),
            pointer: PointerSigns::still(),
            input_tables: Vec::new(),
            active_table: String::new(),
        };
        proof {
            crate::assoc::lemma_empty(r.input_tables@);
        }
        r
    }

    fn event_on(&self, e: InputEvent) -> (r: bool)
        ensures
            r == event_active(self@.keys, self@.pointer, e),
    {
        match e {
            InputEvent::KeyCode(InputState::Down(c)) => self.keys.keys_down.contains(&c),
            InputEvent::KeyCode(InputState::Hold(c)) => self.keys.keys_hold.contains(&c),
            InputEvent::KeyCode(InputState::Up(c)) => self.keys.keys_up.contains(&c),
            InputEvent::MouseButton(InputState::Down(b)) => self.keys.mouse_buttons_down.contains(&b),
            InputEvent::MouseButton(InputState::Hold(b)) => self.keys.mouse_buttons_hold.contains(&b),
            InputEvent::MouseButton(InputState::Up(b)) => self.keys.mouse_buttons_up.contains(&b),
            InputEvent::MouseState(MouseState::MouseUp) => self.pointer.up,
            InputEvent::MouseState(MouseState::MouseDown) => self.pointer.down,
            InputEvent::MouseState(MouseState::MouseLeft) => self.pointer.left,
            InputEvent::MouseState(MouseState::MouseRight) => self.pointer.right,
            InputEvent::WheelState(WheelState::Up) => self.pointer.wheel_up,
            InputEvent::WheelState(WheelState::Down) => self.pointer.wheel_down,
        }
    }

    fn combination_on(&self, c: &InputCombination) -> (r: bool)
        ensures
            r == combination_active(self@.keys, self@.pointer, c@),
    {
        let events = c.get();
        let mut i: usize = 0;
        while i < events.len()
            invariant
                i <= events@.len(),
                events@ == c@,
                forall|j: int| 0 <= j < i ==> #[trigger] event_active(self@.keys, self@.pointer, events@[j]),
            decreases events@.len() - i,
        {
            if !self.event_on(events[i]) {
                return false;
            }
            i = i + 1;
        }
        true
    }

    /// Whether the key `key` went down this frame.
    pub fn is_key_down(&self, key: u32) -> (r: bool)
        ensures
            r == self@.keys.keys_down.contains(key),
    {
        self.keys.keys_down.contains(&key)
    }

    /// Whether the key `key` is held.
    pub fn is_key_held(&self, key: u32) -> (r: bool)
        ensures
            r == self@.keys.keys_hold.contains(key),
    {
        self.keys.keys_hold.contains(&key)
    }

    /// Reads the keys that went down this frame, as the engine always has
    /// for this question.
    pub fn is_key_up(&self, key: u32) -> (r: bool)
        ensures
            r == self@.keys.keys_down.contains(key),
    {
        self.keys.keys_down.contains(&key)
    }

    /// Whether the mouse button `button` went down this frame.
    pub fn is_mouse_button_down(&self, button: u32) -> (r: bool)
        ensures
            r == self@.keys.mouse_buttons_down.contains(button),
    {
        self.keys.mouse_buttons_down.contains(&button)
    }

    /// Whether the mouse button `button` is held.
    pub fn is_mouse_button_held(&self, button: u32) -> (r: bool)
        ensures
            r == self@.keys.mouse_buttons_hold.contains(button),
    {
        self.keys.mouse_buttons_hold.contains(&button)
    }

    /// Whether the mouse button `button` went up this frame.
    pub fn is_mouse_button_up(&self, button: u32) -> (r: bool)
        ensures
            r == self@.keys.mouse_buttons_up.contains(button),
    {
        self.keys.mouse_buttons_up.contains(&button)
    }

    /// The pointer's signs of this frame.
    pub fn pointer(&self) -> (r: PointerSigns)
        ensures
            r == self@.pointer,
    {
        self.pointer
    }

    /// Adds the table `input_table` under `name`, in place of any table of
    /// that name.
    pub fn add_table(&mut self, name: &str, input_table: InputTable)
        requires
            old(self).wf(),
            input_table.wf(),
        ensures
            final(self).wf(),
            final(self)@ == (InputsView { tables: old(self)@.tables.insert(name@, input_table), ..old(self)@ }),
    {
        let ghost s0 = self.input_tables@;
        let ghost t = input_table;
        insert_key(&mut self.input_tables, name.to_string(), input_table);
        proof {
            let s1 = self.input_tables@;
            assert forall|i: int| 0 <= i < s1.len() implies (#[trigger] s1[i]).1.wf() by {
                if s1[i].0@ == name@ {
                    lemma_entry(s1, i);
                    assert(as_map(s1)[name@] == t);
                } else {
                    assert(i < s0.len());
                    lemma_entry(s1, i);
                    lemma_entry(s0, i);
                    assert(s0[i].1.wf());
                }
            }
        }
    }

    /// The table named `name`, if there is one.
    pub fn get_table(&self, name: &str) -> (r: Option<&InputTable>)
        requires
            self.wf(),
        ensures
            match r {
                Some(t) => self@.tables.contains_key(name@) && *t == self@.tables[name@],
                None => !self@.tables.contains_key(name@),
            },
    {
        crate::assoc::get_key(&self.input_tables, name)
    }

    /// The table named `name`, to change in place, if there is one. The
    /// tables stay well formed as long as the table does.
    pub fn get_table_mut(&mut self, name: &str) -> (r: Option<&mut InputTable>)
        requires
            old(self).wf(),
        ensures
            r is Some <==> old(self)@.tables.contains_key(name@),
            r matches Some(t) ==> *t == old(self)@.tables[name@],
            r matches Some(t) ==> final(self)@ == (InputsView {
                tables: old(self)@.tables.insert(name@, *final(t)),
                ..old(self)@
            }),
            r matches Some(t) ==> (final(t).wf() ==> final(self).wf()),
            r is None ==> *final(self) == *old(self),
    {
        let ghost s0 = self.input_tables@;
        let ghost i0 = self.keys@;
        match find_key(&self.input_tables, name) {
            Some(i) => {
                proof {
                    lemma_entry(s0, i as int);
                    assert forall|s1: Seq<(String, InputTable)>|
                        #![trigger as_map(s1)]
                        s1.len() == s0.len()
                        && (forall|j: int| 0 <= j < s0.len() && j != i ==> s1[j] == s0[j])
                        && s1[i as int].0 == s0[i as int].0
                        implies as_map(s1) == as_map(s0).insert(name@, s1[i as int].1)
                            && keys_unique(s1)
                            && (s1[i as int].1.wf() ==> forall|j: int| 0 <= j < s1.len() ==> (#[trigger] s1[j]).1.wf()) by {
                        lemma_replace_entry(s0, s1, i as int);
                        if s1[i as int].1.wf() {
                            assert forall|j: int| 0 <= j < s1.len() implies (#[trigger] s1[j]).1.wf() by {
                                if j != i {
                                    assert(s1[j] == s0[j]);
                                }
                            }
                        }
                    }
                }
                Some(&mut self.input_tables[i].1)
            },
            None => None,
        }
    }

    /// Makes the table `name` the active one, where there is such a table.
    pub fn set_active_table(&mut self, name: &str) -> (r: bool)
        requires
            old(self).wf(),
        ensures
            final(self).wf(),
            r == old(self)@.tables.contains_key(name@),
            r ==> final(self)@ == (InputsView { active: name@, ..old(self)@ }),
            !r ==> final(self)@ == old(self)@,
    {
        match find_key(&self.input_tables, name) {
            Some(i) => {
                proof {
                    lemma_entry(self.input_tables@, i as int);
                }
                self.active_table = name.to_string();
                true
            },
            None => false,
        }
    }

    /// Whether the action `action` of the table `table` is triggered this
    /// frame: the table has the action, and every event of one of its
    /// combinations holds.
    pub fn is_action_triggered(&self, table: &str, action: &str) -> (r: bool)
        requires
            self.wf(),
        ensures
            r == triggered(self@, table@, action@),
    {
        match crate::assoc::get_key(&self.input_tables, table) {
            Some(t) => {
                proof {
                    self.lemma_tables_wf(table@);
                }
                match t.get_action_combinations(action) {
                    Some(combos) => {
                        let ghost cs = self@.tables[table@].actions()[action@];
                        let mut i: usize = 0;
                        while i < combos.len()
                            invariant
                                i <= combos@.len(),
                                combos@ == cs,
                                self@.tables.contains_key(table@),
                                self@.tables[table@].actions().contains_key(action@),
                                cs == self@.tables[table@].actions()[action@],
                                forall|j: int| 0 <= j < i ==> !#[trigger] combination_active(self@.keys, self@.pointer, cs[j]@),
                            decreases combos@.len() - i,
                        {
                            if self.combination_on(&combos[i]) {
                                assert(combination_active(self@.keys, self@.pointer, self@.tables[table@].actions()[action@][i as int]@));
                                return true;
                            }
                            i = i + 1;
                        }
                        false
                    },
                    None => false,
                }
            },
            None => false,
        }
    }

    /// Whether the action `action` of the active table is triggered.
    pub fn is_action_from_active_table(&self, action: &str) -> (r: bool)
        requires
            self.wf(),
        ensures
            r == triggered(self@, self@.active, action@),
    {
        self.is_action_triggered(self.active_table.as_str(), action)
    }

    /// The mouse buttons that went down, are held, or went up.
    pub fn get_mouse_keys(&self) -> (r: HashSet<u32>)
        ensures
            r@ == self@.keys.mouse_buttons_down.union(self@.keys.mouse_buttons_hold).union(self@.keys.mouse_buttons_up),
    {
        let mut keys: HashSet<u32> = HashSet::new();
        add_all(&mut keys, &self.keys.mouse_buttons_down);
        add_all(&mut keys, &self.keys.mouse_buttons_hold);
        add_all(&mut keys, &self.keys.mouse_buttons_up);
        assert(keys@ =~= self@.keys.mouse_buttons_down.union(self@.keys.mouse_buttons_hold).union(self@.keys.mouse_buttons_up));
        keys
    }

    /// The keys that went up or are held, as the engine has always gathered
    /// them.
    pub fn get_keys(&self) -> (r: HashSet<u32>)
        ensures
            r@ == self@.keys.keys_up.union(self@.keys.keys_hold),
    {
        let mut keys: HashSet<u32> = HashSet::new();
        add_all(&mut keys, &self.keys.keys_up);
        add_all(&mut keys, &self.keys.keys_hold);
        add_all(&mut keys, &self.keys.keys_up);
        assert(keys@ =~= self@.keys.keys_up.union(self@.keys.keys_hold));
        keys
    }

    /// The keys that went down this frame.
    pub fn get_down_keys(&self) -> (r: HashSet<u32>)
        ensures
            r@ == self@.keys.keys_down,
    {
        copy_set(&self.keys.keys_down)
    }

    /// The keys that are held.
    pub fn get_hold_keys(&self) -> (r: HashSet<u32>)
        ensures
            r@ == self@.keys.keys_hold,
    {
        copy_set(&self.keys.keys_hold)
    }

    /// The keys that went up this frame.
    pub fn get_up_keys(&self) -> (r: HashSet<u32>)
        ensures
            r@ == self@.keys.keys_up,
    {
        copy_set(&self.keys.keys_up)
    }

    /// The mouse buttons that went up this frame.
    pub fn get_mouse_up_keys(&self) -> (r: HashSet<u32>)
        ensures
            r@ == self@.keys.mouse_buttons_up,
    {
        copy_set(&self.keys.mouse_buttons_up)
    }

    /// The mouse buttons that are held.
    pub fn get_mouse_hold_keys(&self) -> (r: HashSet<u32>)
        ensures
            r@ == self@.keys.mouse_buttons_hold,
    {
        copy_set(&self.keys.mouse_buttons_hold)
    }

    /// The mouse buttons that went down this frame.
    pub fn get_mouse_down_keys(&self) -> (r: HashSet<u32>)
        ensures
            r@ == self@.keys.mouse_buttons_down,
    {
        copy_set(&self.keys.mouse_buttons_down)
    }
}

impl PointerSigns {
    /// A pointer at zero with a wheel that did not turn.
    pub open spec fn still_spec() -> PointerSigns {
        PointerSigns { up: false, down: false, left: false, right: false, wheel_up: false, wheel_down: false }
    }
}

impl Default for Inputs {
    fn default() -> (r: Self)
        ensures
            r.wf(),
            r@.keys == no_keys(),
            r@.pointer == PointerSigns::still_spec(),
            r@.tables == Map::<Seq<char>, InputTable>::empty(),
            r@.active == Seq::<char>::empty(),
    {
        Inputs::new()
    }
}

/// Replacing the value of one entry, its key kept, replaces the map's value
/// for that key and keeps the keys distinct.
proof fn lemma_replace_entry<V>(s0: Seq<(String, V)>, s1: Seq<(String, V)>, i: int)
    requires
        keys_unique(s0),
        0 <= i < s0.len(),
        s1.len() == s0.len(),
        forall|j: int| 0 <= j < s0.len() && j != i ==> s1[j] == s0[j],
        s1[i].0 == s0[i].0,
    ensures
        keys_unique(s1),
        as_map(s1) == as_map(s0).insert(s0[i].0@, s1[i].1),
{
    assert forall|a: int, b: int| 0 <= a < s1.len() && 0 <= b < s1.len() && a != b
        implies #[trigger] s1[a].0@ != #[trigger] s1[b].0@ by {
        assert(s1[a].0@ == s0[a].0@);
        assert(s1[b].0@ == s0[b].0@);
    }
    let key = s0[i].0@;
    let want = as_map(s0).insert(key, s1[i].1);
    assert forall|k: Seq<char>| #[trigger] as_map(s1).contains_key(k) == want.contains_key(k) by {
        if has_key(s0, k) {
            let j = choose|j: int| 0 <= j < s0.len() && #[trigger] s0[j].0@ == k;
            assert(s1[j].0@ == k);
        }
        if has_key(s1, k) {
            let j = choose|j: int| 0 <= j < s1.len() && #[trigger] s1[j].0@ == k;
            assert(s0[j].0@ == k);
        }
        if k == key {
            assert(s1[i].0@ == k);
        }
    }
    assert forall|k: Seq<char>| #[trigger] as_map(s1).contains_key(k) implies as_map(s1)[k] == want[k] by {
        let j = choose|j: int| 0 <= j < s1.len() && #[trigger] s1[j].0@ == k;
        lemma_entry(s1, j);
        if j != i {
            lemma_entry(s0, j);
        }
    }
    assert(as_map(s1) =~= want);
}

/// Hands the frame gathered in `storage` to `inputs`, with the pointer's
/// signs: `inputs` reads the keys and buttons as `storage` held them, and
/// `storage` keeps only what is held.
pub fn update_events(inputs: &mut Inputs, storage: &mut InputStorage, pointer: PointerSigns)
    requires
        old(inputs).wf(),
    ensures
        final(inputs).wf(),
        final(inputs)@ == (InputsView { keys: old(storage)@, pointer, ..old(inputs)@ }),
        final(storage)@ == next_frame(old(storage)@),
        final(storage)@.keys_down == Set::<u32>::empty(),
        final(storage)@.keys_up == Set::<u32>::empty(),
        final(storage)@.mouse_buttons_down == Set::<u32>::empty(),
        final(storage)@.mouse_buttons_up == Set::<u32>::empty(),
        final(storage)@.keys_hold == old(storage)@.keys_hold,
        final(storage)@.mouse_buttons_hold == old(storage)@.mouse_buttons_hold,
{
    let keys = InputStorage {
        keys_down: copy_set(&storage.keys_down),
        keys_hold: copy_set(&storage.keys_hold),
        keys_up: copy_set(&storage.keys_up),
        mouse_buttons_down: copy_set(&storage.mouse_buttons_down),
        mouse_buttons_hold: copy_set(&storage.mouse_buttons_hold),
        mouse_buttons_up: copy_set(&storage.mouse_buttons_up),
    };
    storage.keys_up = HashSet::new();
    storage.keys_down = HashSet::new();
    storage.mouse_buttons_up = HashSet::new();
    storage.mouse_buttons_down = HashSet::new();
    inputs.keys = keys;
    inputs.pointer = pointer;
}

/// A key pressed during a frame reads as down and held in that frame; in the
/// next frame it is still held but no longer down, until it is released.
pub proof fn lemma_pressed_key_lifetime(k: KeysView, c: u32)
    ensures
        key_pressed_spec(k, c).keys_down.contains(c),
        key_pressed_spec(k, c).keys_hold.contains(c),
        next_frame(key_pressed_spec(k, c)).keys_hold.contains(c),
        !next_frame(key_pressed_spec(k, c)).keys_down.contains(c),
        !key_released_spec(next_frame(key_pressed_spec(k, c)), c).keys_hold.contains(c),
        key_released_spec(next_frame(key_pressed_spec(k, c)), c).keys_up.contains(c),
{
}

/// Releasing a key undoes holding it: a key that was not held, pressed and
/// then released, is not held.
pub proof fn lemma_press_release_hold(k: KeysView, c: u32)
    requires
        !k.keys_hold.contains(c),
    ensures
        key_released_spec(key_pressed_spec(k, c), c).keys_hold == k.keys_hold,
{
    assert(k.keys_hold.insert(c).remove(c) =~= k.keys_hold);
}

/// A combination triggers its action however its events were given: two
/// combinations of the same events are the same combination, so one holds
/// exactly when the other does.
pub proof fn lemma_combination_order(k: KeysView, p: PointerSigns, a: InputCombination, b: InputCombination)
    requires
        crate::events::events_sorted(a@),
        crate::events::events_sorted(b@),
        a@.to_multiset() == b@.to_multiset(),
    ensures
        combination_active(k, p, a@) == combination_active(k, p, b@),
{
    crate::events::lemma_sorted_events_unique(a@, b@);
}


/// An action whose one combination is the one event `e` is triggered
/// exactly when `e` holds this frame: a key or button event by whether the
/// key or button went down, is held, or went up this frame, each read from
/// its own set and from no other; a pointer event by the pointer's sign for
/// that direction.
pub proof fn lemma_single_event_action(v: InputsView, table: Seq<char>, action: Seq<char>, c: InputCombination, e: InputEvent)
    requires
        v.tables.contains_key(table),
        v.tables[table].actions().contains_key(action),
        v.tables[table].actions()[action] == seq![c],
        c@ == seq![e],
    ensures
        e matches InputEvent::KeyCode(InputState::Down(x)) ==> (triggered(v, table, action) <==> v.keys.keys_down.contains(x)),
        e matches InputEvent::KeyCode(InputState::Hold(x)) ==> (triggered(v, table, action) <==> v.keys.keys_hold.contains(x)),
        e matches InputEvent::KeyCode(InputState::Up(x)) ==> (triggered(v, table, action) <==> v.keys.keys_up.contains(x)),
        e matches InputEvent::MouseButton(InputState::Down(x)) ==> (triggered(v, table, action) <==> v.keys.mouse_buttons_down.contains(x)),
        e matches InputEvent::MouseButton(InputState::Hold(x)) ==> (triggered(v, table, action) <==> v.keys.mouse_buttons_hold.contains(x)),
        e matches InputEvent::MouseButton(InputState::Up(x)) ==> (triggered(v, table, action) <==> v.keys.mouse_buttons_up.contains(x)),
        e == InputEvent::MouseState(MouseState::MouseUp) ==> (triggered(v, table, action) <==> v.pointer.up),
        e == InputEvent::MouseState(MouseState::MouseDown) ==> (triggered(v, table, action) <==> v.pointer.down),
        e == InputEvent::MouseState(MouseState::MouseLeft) ==> (triggered(v, table, action) <==> v.pointer.left),
        e == InputEvent::MouseState(MouseState::MouseRight) ==> (triggered(v, table, action) <==> v.pointer.right),
        e == InputEvent::WheelState(WheelState::Up) ==> (triggered(v, table, action) <==> v.pointer.wheel_up),
        e == InputEvent::WheelState(WheelState::Down) ==> (triggered(v, table, action) <==> v.pointer.wheel_down),
{
    if triggered(v, table, action) {
        let j = choose|j: int| 0 <= j < v.tables[table].actions()[action].len()
            && #[trigger] combination_active(v.keys, v.pointer, v.tables[table].actions()[action][j]@);
        assert(j == 0);
        assert(event_active(v.keys, v.pointer, c@[0]));
    }
    if event_active(v.keys, v.pointer, e) {
        assert(combination_active(v.keys, v.pointer, v.tables[table].actions()[action][0]@));
    }
}

/// A mouse button released during a frame triggers an action bound to its
/// release in the frame it is handed over in, whatever else is down or
/// held, and no longer in the frame after, where nothing new happened.
pub proof fn lemma_button_release_triggers_once(
    v: InputsView,
    table: Seq<char>,
    action: Seq<char>,
    c: InputCombination,
    k: KeysView,
    b: u32,
)
    requires
        v.tables.contains_key(table),
        v.tables[table].actions().contains_key(action),
        v.tables[table].actions()[action] == seq![c],
        c@ == seq![InputEvent::MouseButton(InputState::Up(b))],
    ensures
        triggered(InputsView { keys: button_released_spec(k, b), ..v }, table, action),
        !triggered(InputsView { keys: next_frame(button_released_spec(k, b)), ..v }, table, action),
{
    let v1 = InputsView { keys: button_released_spec(k, b), ..v };
    let v2 = InputsView { keys: next_frame(button_released_spec(k, b)), ..v };
    lemma_single_event_action(v1, table, action, c, InputEvent::MouseButton(InputState::Up(b)));
    lemma_single_event_action(v2, table, action, c, InputEvent::MouseButton(InputState::Up(b)));
}


/// A mouse button pressed during a frame reads as down and held in that
/// frame; in the next frame it is still held but no longer down; once
/// released it is no longer held and reads as up, and in the frame after
/// that no longer as up.
pub proof fn lemma_pressed_button_lifetime(k: KeysView, b: u32)
    ensures
        button_pressed_spec(k, b).mouse_buttons_down.contains(b),
        button_pressed_spec(k, b).mouse_buttons_hold.contains(b),
        next_frame(button_pressed_spec(k, b)).mouse_buttons_hold.contains(b),
        !next_frame(button_pressed_spec(k, b)).mouse_buttons_down.contains(b),
        !button_released_spec(next_frame(button_pressed_spec(k, b)), b).mouse_buttons_hold.contains(b),
        button_released_spec(next_frame(button_pressed_spec(k, b)), b).mouse_buttons_up.contains(b),
        !next_frame(button_released_spec(next_frame(button_pressed_spec(k, b)), b)).mouse_buttons_up.contains(b),
{
}

/// A key released during a frame reads as up in that frame only.
pub proof fn lemma_released_key_up_once(k: KeysView, c: u32)
    ensures
        key_released_spec(k, c).keys_up.contains(c),
        !key_released_spec(k, c).keys_hold.contains(c),
        !next_frame(key_released_spec(k, c)).keys_up.contains(c),
{
}

} // verus!
