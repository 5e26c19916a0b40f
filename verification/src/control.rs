//! # Control logics
//!
//! Control logics communicate that different entities are controlled by different inputs at
//! different times. They map button inputs, AI intentions, network socket messages, etc onto
//! high-level game actions.
//!
//! Keys are digital: a key's value is 0 or 1, and it changes by -1, 0 or 1 per frame.

use vstd::prelude::*;

use crate::{Event, Logic, Reaction};

verus! {

use vstd::std_specs::cmp::PartialEqSpec;

/// A wrapper to help keep track of input information that preexisting input handlers may not
/// offer, but that we need. Its answers are those of the input device in the current frame:
/// whether a key is held, has just been pressed, has just been released.
///
/// An implementation that overrides [InputWrapper::obeys_frame_laws] to `true` promises what
/// the contracts below say under it: its answers are `key_held`, `key_pressed` and
/// `key_released` of the current frame, asking about keys does not change them, and it answers
/// whether a key was just pressed or released once `update_held` has been asked about that
/// key in the frame. The defaults promise nothing.
pub trait InputWrapper: Sized {
    type KeyCode: Copy + Eq;
    type InputHelper;

    /// The implementation keeps the promises of the contracts below.
    open spec fn obeys_frame_laws() -> bool {
        false
    }

    /// The device reports `key` held in the current frame.
    open spec fn key_held(&self, key: Self::KeyCode, events: &Self::InputHelper) -> bool {
        false
    }

    /// The device reports that `key` has just been pressed, in the current frame.
    open spec fn key_pressed(&self, key: Self::KeyCode, events: &Self::InputHelper) -> bool {
        false
    }

    /// The device reports that `key` has just been released, in the current frame.
    open spec fn key_released(&self, key: Self::KeyCode, events: &Self::InputHelper) -> bool {
        false
    }

    /// `update_held` was asked about `key` in the current frame.
    open spec fn asked(&self, key: Self::KeyCode) -> bool {
        false
    }

    fn new() -> Self;

    /// clears input information for this frame
    fn clear(&mut self);

    /// if the key is held or not. If keeping track of current inputs, also logs what keys are
    /// being pressed this frame.
    fn update_held(&mut self, key: &Self::KeyCode, events: &Self::InputHelper) -> (res: bool)
        ensures
            Self::obeys_frame_laws() ==> {
                &&& res == old(self).key_held(*key, events)
                &&& final(self).asked(*key)
                &&& forall|k: Self::KeyCode| old(self).asked(k) ==> #[trigger] final(self).asked(k)
                &&& forall|k: Self::KeyCode| #[trigger] final(self).key_held(k, events) == old(self).key_held(k, events)
                &&& forall|k: Self::KeyCode| #[trigger] final(self).key_pressed(k, events) == old(self).key_pressed(k, events)
                &&& forall|k: Self::KeyCode| #[trigger] final(self).key_released(k, events) == old(self).key_released(k, events)
            },
    ;

    /// if the key has just been pressed or not
    fn is_pressed(&self, key: &Self::KeyCode, events: &Self::InputHelper) -> (res: bool)
        ensures
            Self::obeys_frame_laws() && self.asked(*key) ==> res == self.key_pressed(*key, events),
    ;

    /// if the key has just been released or not
    fn is_released(&self, key: &Self::KeyCode, events: &Self::InputHelper) -> (res: bool)
        ensures
            Self::obeys_frame_laws() && self.asked(*key) ==> res == self.key_released(*key, events),
    ;
}

/// What the device reports of `key` to a frame's update: whether it is held, then, if it is,
/// whether it was just pressed, and if not, whether it was just released.
pub open spec fn device_report<W: InputWrapper>(w: W, key: W::KeyCode, events: &W::InputHelper) -> (bool, bool, bool) {
    let held = w.key_held(key, events);
    (held, held && w.key_pressed(key, events), !held && w.key_released(key, events))
}

/// A keyboard input.
pub struct KeyInput<KeyCode> {
    /// The keycode that the input is tracking.
    pub keycode: KeyCode,
}

impl<KeyCode> KeyInput<KeyCode> {
    /// Minimum value for a keypress is 0.
    pub fn min(&self) -> (res: i8)
        ensures
            res == 0,
    {
        0
    }

    /// Maximum value for a keypress is 1.
    pub fn max(&self) -> (res: i8)
        ensures
            res == 1,
    {
        1
    }
}

#[derive(Clone, Copy, Eq, PartialEq, Debug)]
pub enum InputType {
    Analog,
    Digital,
}

/// Information about the player's input related to one action.
#[derive(Copy, Clone, PartialEq, Eq, Debug)]
pub struct Values {
    /// How much the value of the input was changed last frame.
    pub changed_by: i8,
    /// What the value of the input is now.
    pub value: i8,
}

/// Information for an action and the input it's attached to.
pub struct Action<ID, KeyCode> {
    pub id: ID,
    /// The input's keycode.
    pub key_input: KeyInput<KeyCode>,
    /// If the input is valid that frame, i.e. should be able to be pressed.
    pub is_valid: bool,
    /// If the input is digital or analog.
    pub input_type: InputType,
}

impl<ID, KeyCode> Action<ID, KeyCode> {
    pub fn new(id: ID, keycode: KeyCode, input_type: InputType) -> (res: Self)
        ensures
            res == Self::spec_new(id, keycode, input_type),
    {
        Self { id, key_input: KeyInput { keycode }, is_valid: true, input_type }
    }

    /// A valid action for the key.
    pub open spec fn spec_new(id: ID, keycode: KeyCode, input_type: InputType) -> Self {
        Action { id, key_input: KeyInput { keycode }, is_valid: true, input_type }
    }
}

#[derive(Debug, PartialEq, Eq, Clone, Copy)]
pub enum ControlReaction<ID: Copy + Eq, KeyCode: Copy + Eq> {
    AddKeyToSet(usize, ID, KeyCode, InputType),
    RemoveKeyFromSet(usize, ID),
    SetKeyValid(usize, ID),
    SetKeyInvalid(usize, ID),
}

impl<ID: Copy + Eq, KeyCode: Copy + Eq> Reaction for ControlReaction<ID, KeyCode> {}

#[derive(PartialEq, Eq, Debug, Clone, Copy)]
pub struct ControlEvent<ID: Copy + Eq + Ord>(pub ID, pub ControlEventType);

#[derive(PartialEq, Eq, Debug, Clone, Copy)]
pub enum ControlEventType {
    KeyPressed,
    KeyReleased,
    KeyHeld,
}

impl<ID: Copy + Eq + Ord> Event for ControlEvent<ID> {}

/// The values of a digital key after one frame in which it is `held` or not, and, as the
/// input device reports, has just been `pressed` or `released`.
pub open spec fn digital_step(old: Values, held: bool, pressed: bool, released: bool) -> Values {
    let changed_by: int = if held {
        if pressed { 1 } else { 0 }
    } else if released && old.value != 0 {
        -1
    } else {
        0
    };
    let sum = old.value + changed_by;
    Values { changed_by: changed_by as i8, value: (if sum < 0 { 0 } else if sum > 1 { 1 } else { sum }) as i8 }
}

/// `new` is one of the values a digital key can take one frame after `old`, whatever the
/// input device reports: pressed (or held on), held without a new press, or released.
pub open spec fn digital_outcome(old: Values, new: Values) -> bool {
    ||| new == digital_step(old, true, true, false)
    ||| new == digital_step(old, true, false, false)
    ||| new == digital_step(old, false, false, true)
}

/// Every report of the input device gives one of the three outcomes.
pub proof fn lemma_digital_outcome(old: Values, held: bool, pressed: bool, released: bool)
    ensures
        digital_outcome(old, digital_step(old, held, pressed, released)),
{
}

/// The values of a key that is not valid this frame.
pub open spec fn reset_values() -> Values {
    Values { changed_by: 0, value: 0 }
}

/// `i` is the index of the first action with id `id`.
pub open spec fn first_action<ID, KeyCode>(acts: Seq<Action<ID, KeyCode>>, id: ID, i: int) -> bool {
    &&& 0 <= i < acts.len()
    &&& acts[i].id == id
    &&& forall|j: int| 0 <= j < i ==> acts[j].id != id
}

/// The values paired with the first action with id `id`, if there is one.
pub open spec fn lookup<ID, KeyCode>(acts: Seq<Action<ID, KeyCode>>, vals: Seq<Values>, id: ID) -> Option<Values> {
    if exists|i: int| first_action(acts, id, i) {
        let i = choose|i: int| first_action(acts, id, i);
        Some(vals[i])
    } else {
        None
    }
}

/// Only one index is the first with a given id.
pub proof fn lemma_first_action_unique<ID, KeyCode>(acts: Seq<Action<ID, KeyCode>>, id: ID, i: int, j: int)
    requires
        first_action(acts, id, i),
        first_action(acts, id, j),
    ensures
        i == j,
{
    if i < j {
        assert(acts[i].id == id);
    } else if j < i {
        assert(acts[j].id == id);
    }
}

/// The values of a digital key stay 0 or 1 and change by -1, 0 or 1 per frame; they go up
/// only on a press of a held key, and down only on a release of a key whose value was not 0;
/// a press sets a key that was not below 0 to 1, a release sets a key at 1 to 0.
pub proof fn law_digital_values(old: Values, held: bool, pressed: bool, released: bool)
    ensures
        0 <= digital_step(old, held, pressed, released).value <= 1,
        -1 <= digital_step(old, held, pressed, released).changed_by <= 1,
        digital_step(old, held, pressed, released).changed_by == 1 <==> held && pressed,
        digital_step(old, held, pressed, released).changed_by == -1 <==> !held && released && old.value != 0,
        held && pressed && 0 <= old.value ==> digital_step(old, held, pressed, released).value == 1,
        !held && released && old.value == 1 ==> digital_step(old, held, pressed, released).value == 0,
        digital_step(old, held, pressed, released).changed_by == 0 && 0 <= old.value <= 1
            ==> digital_step(old, held, pressed, released).value == old.value,
{
    let c: int = if held {
        if pressed { 1 } else { 0 }
    } else if released && old.value != 0 {
        -1
    } else {
        0
    };
    let sum = old.value + c;
    let clamped: int = if sum < 0 { 0 } else if sum > 1 { 1 } else { sum };
    assert(c as i8 == c);
    assert(clamped as i8 == clamped);
}

/// Adding a key map whose id is new to its set makes that id found there with values 0, and
/// leaves what every other id finds in the set as it was.
pub proof fn law_added_key_is_found<ID, KeyCode>(
    acts: Seq<Action<ID, KeyCode>>,
    vals: Seq<Values>,
    id: ID,
    keycode: KeyCode,
    other: ID,
)
    requires
        acts.len() == vals.len(),
        forall|j: int| 0 <= j < acts.len() ==> acts[j].id != id,
        other != id,
    ensures
        lookup(
            acts.push(Action::spec_new(id, keycode, InputType::Digital)),
            vals.push(Values { changed_by: 0, value: 0 }),
            id,
        ) == Some(Values { changed_by: 0, value: 0 }),
        lookup(
            acts.push(Action::spec_new(id, keycode, InputType::Digital)),
            vals.push(Values { changed_by: 0, value: 0 }),
            other,
        ) == lookup(acts, vals, other),
{
    let a2 = acts.push(Action::spec_new(id, keycode, InputType::Digital));
    let v2 = vals.push(Values { changed_by: 0, value: 0 });
    let n = acts.len() as int;
    assert(first_action(a2, id, n));
    let i = choose|i: int| first_action(a2, id, i);
    lemma_first_action_unique(a2, id, i, n);
    if exists|k: int| first_action(acts, other, k) {
        let k = choose|k: int| first_action(acts, other, k);
        assert(first_action(a2, other, k));
        let k2 = choose|k2: int| first_action(a2, other, k2);
        lemma_first_action_unique(a2, other, k, k2);
    } else {
        assert forall|k: int| !first_action(a2, other, k) by {
            if first_action(a2, other, k) {
                if k < n {
                    assert forall|j: int| 0 <= j < k implies acts[j].id != other by {
                        assert(a2[j] == acts[j]);
                    }
                    assert(a2[k] == acts[k]);
                    assert(first_action(acts, other, k));
                }
            }
        }
    }
}

/// The values of the next frame of a digital key, given what the input device reports.
pub fn next_values(old: Values, held: bool, pressed: bool, released: bool) -> (res: Values)
    ensures
        res == digital_step(old, held, pressed, released),
{
    let changed_by: i8 = if held {
        if pressed { 1 } else { 0 }
    } else if released && old.value != 0 {
        -1
    } else {
        0
    };
    let sum: i16 = old.value as i16 + changed_by as i16;
    let value: i8 = if sum < 0 { 0 } else if sum > 1 { 1 } else { sum as i8 };
    Values { changed_by, value }
}

/// The index of the first action in `acts` with id `id`.
pub fn find_action<ID: Copy + Eq, KeyCode>(acts: &Vec<Action<ID, KeyCode>>, id: &ID) -> (res: Option<usize>)
    requires
        vstd::laws_eq::obeys_concrete_eq::<ID>(),
    ensures
        match res {
            Some(i) => first_action(acts@, *id, i as int),
            None => forall|j: int| 0 <= j < acts@.len() ==> acts@[j].id != *id,
        },
{
    proof {
        reveal(vstd::laws_eq::obeys_concrete_eq);
    }
    let mut i: usize = 0;
    while i < acts.len()
        invariant
            i <= acts@.len(),
            forall|j: int| 0 <= j < i ==> acts@[j].id != *id,
            ID::obeys_eq_spec(),
            forall|a: ID, b: ID| a.eq_spec(&b) <==> (a == b),
        decreases acts@.len() - i,
    {
        if acts[i].id == *id {
            return Some(i);
        }
        i = i + 1;
    }
    None
}

/// A keyboard control logic.
pub struct KeyboardControl<ID, Wrapper> where ID: Copy + Eq + Ord, Wrapper: InputWrapper {
    /// Input mappings from actions to keypresses. Each outer Vec is a set of inputs, ex. one
    /// player gets the first set of mappings, another gets a second set of mappings, an AI
    /// player gets the third.
    pub mapping: Vec<Vec<Action<ID, Wrapper::KeyCode>>>,
    /// The values for each keypress in the sets described above.
    pub values: Vec<Vec<Values>>,
    /// An input wrapper
    pub input_wrapper: Wrapper,
}

impl<ID, Wrapper> KeyboardControl<ID, Wrapper> where ID: Copy + Eq + Ord, Wrapper: InputWrapper {
    /// The sets of actions.
    pub open spec fn mapping_view(&self) -> Seq<Seq<Action<ID, Wrapper::KeyCode>>> {
        self.mapping@.map_values(|s: Vec<Action<ID, Wrapper::KeyCode>>| s@)
    }

    /// The values of the actions, set by set.
    pub open spec fn values_view(&self) -> Seq<Seq<Values>> {
        self.values@.map_values(|s: Vec<Values>| s@)
    }

    /// One list of values per set of actions, and one value per action.
    pub open spec fn wf(&self) -> bool {
        &&& self.mapping_view().len() == self.values_view().len()
        &&& forall|s: int| 0 <= s < self.mapping_view().len() ==> (#[trigger] self.mapping_view()[s]).len() == self.values_view()[s].len()
    }

    /// The values of the first action with id `id` in set `set`, if the set has one.
    pub open spec fn lookup_in_set(&self, set: int, id: ID) -> Option<Values> {
        lookup(self.mapping_view()[set], self.values_view()[set], id)
    }

    /// The first action with id `id` in set `set`, if any, has its values.
    pub open spec fn lookup_ok(&self, set: int, id: ID) -> bool {
        forall|i: int| first_action(self.mapping_view()[set], id, i) ==> set < self.values_view().len() && i < self.values_view()[set].len()
    }

    /// Set `set` has no action with id `id`.
    pub open spec fn absent_in_set(&self, set: int, id: ID) -> bool {
        !exists|i: int| first_action(self.mapping_view()[set], id, i)
    }

    /// Every valid action that `update_input` visits is digital.
    pub open spec fn valid_digital(&self) -> bool {
        forall|i: int, j: int|
            0 <= i < self.mapping_view().len() && 0 <= i < self.values_view().len() && 0 <= j
                < self.mapping_view()[i].len() && 0 <= j < self.values_view()[i].len()
                && (#[trigger] self.mapping_view()[i][j]).is_valid ==> self.mapping_view()[i][j].input_type
                == InputType::Digital
    }

    pub fn new() -> (res: Self)
        ensures
            res.mapping_view() == Seq::<Seq<Action<ID, Wrapper::KeyCode>>>::empty(),
            res.values_view() == Seq::<Seq<Values>>::empty(),
            res.wf(),
    {
        let res = Self { mapping: Vec::new(), values: Vec::new(), input_wrapper: Wrapper::new() };
        assert(res.mapping_view() =~= Seq::<Seq<Action<ID, Wrapper::KeyCode>>>::empty());
        assert(res.values_view() =~= Seq::<Seq<Values>>::empty());
        res
    }

    /// The keycode of each action, set by set.
    pub fn action_keys(&self) -> (res: Vec<Vec<Wrapper::KeyCode>>)
        ensures
            res@.len() == self.mapping_view().len(),
            forall|i: int| 0 <= i < res@.len() ==> (#[trigger] res@[i])@.len() == self.mapping_view()[i].len(),
            forall|i: int, j: int| 0 <= i < res@.len() && 0 <= j < res@[i]@.len()
                ==> #[trigger] res@[i]@[j] == self.mapping_view()[i][j].key_input.keycode,
    {
        let mut res: Vec<Vec<Wrapper::KeyCode>> = Vec::new();
        let mut i: usize = 0;
        while i < self.mapping.len()
            invariant
                i <= self.mapping@.len(),
                res@.len() == i,
                forall|k: int| 0 <= k < i ==> (#[trigger] res@[k])@.len() == self.mapping@[k]@.len(),
                forall|k: int, j: int| 0 <= k < i && 0 <= j < res@[k]@.len()
                    ==> #[trigger] res@[k]@[j] == self.mapping@[k]@[j].key_input.keycode,
            decreases self.mapping@.len() - i,
        {
            let mut row: Vec<Wrapper::KeyCode> = Vec::new();
            let mut j: usize = 0;
            while j < self.mapping[i].len()
                invariant
                    i < self.mapping@.len(),
                    j <= self.mapping@[i as int]@.len(),
                    row@.len() == j,
                    forall|jj: int| 0 <= jj < j ==> #[trigger] row@[jj] == self.mapping@[i as int]@[jj].key_input.keycode,
                decreases self.mapping@[i as int]@.len() - j,
            {
                row.push(self.mapping[i][j].key_input.keycode);
                j = j + 1;
            }
            res.push(row);
            i = i + 1;
        }
        res
    }

    /// What a frame's reports do to the values: each action that has values and a report
    /// `(held, pressed, released)` in `reports` at its place takes one digital step with it if
    /// it is valid, and is reset to 0 if not; the values of the other actions stay as they are.
    pub open spec fn reported_values(&self, reports: Seq<Seq<(bool, bool, bool)>>, i: int, j: int) -> Values {
        let o = self.values_view()[i][j];
        if i < self.mapping_view().len() && j < self.mapping_view()[i].len() {
            if self.mapping_view()[i][j].is_valid {
                digital_step(o, reports[i][j].0, reports[i][j].1, reports[i][j].2)
            } else {
                reset_values()
            }
        } else {
            o
        }
    }

    /// `reports` has a report for each action that has values.
    pub open spec fn reports_cover(&self, reports: Seq<Seq<(bool, bool, bool)>>) -> bool {
        forall|i: int| 0 <= i < self.mapping_view().len() && 0 <= i < self.values_view().len() ==> {
            &&& i < reports.len()
            &&& (#[trigger] self.mapping_view()[i]).len() <= reports[i].len() || self.values_view()[i].len() <= reports[i].len()
        }
    }

    /// Applies what the input device reported of each action's key this frame: `reports[i][j]`
    /// is `(held, pressed, released)` for the key of action `j` of set `i`.
    pub fn apply_key_reports(&mut self, reports: &Vec<Vec<(bool, bool, bool)>>)
        requires
            old(self).valid_digital(),
            old(self).reports_cover(reports@.map_values(|r: Vec<(bool, bool, bool)>| r@)),
        ensures
            final(self).mapping_view() == old(self).mapping_view(),
            final(self).input_wrapper == old(self).input_wrapper,
            final(self).values_view().len() == old(self).values_view().len(),
            forall|i: int| 0 <= i < old(self).values_view().len() ==> (#[trigger] final(self).values_view()[i]).len() == old(self).values_view()[i].len(),
            forall|i: int, j: int| 0 <= i < old(self).values_view().len() && 0 <= j < old(self).values_view()[i].len()
                ==> #[trigger] final(self).values_view()[i][j] == old(self).reported_values(reports@.map_values(|r: Vec<(bool, bool, bool)>| r@), i, j),
    {
        let ghost reps = reports@.map_values(|r: Vec<(bool, bool, bool)>| r@);
        let sets = if self.mapping.len() < self.values.len() { self.mapping.len() } else { self.values.len() };
        let ghost old_vals = self.values_view();
        let ghost maps = self.mapping_view();
        let ghost start = *self;
        let mut i: usize = 0;
        while i < sets
            invariant
                sets <= self.mapping@.len(),
                sets <= self.values@.len(),
                i <= sets,
                start == *old(self),
                self.input_wrapper == start.input_wrapper,
                reps == reports@.map_values(|r: Vec<(bool, bool, bool)>| r@),
                start.reports_cover(reps),
                maps == start.mapping_view(),
                old_vals == start.values_view(),
                self.mapping_view() == maps,
                self.values@.len() == old_vals.len(),
                start.valid_digital(),
                forall|k: int| 0 <= k < old_vals.len() ==> (#[trigger] self.values@[k])@.len() == old_vals[k].len(),
                forall|k: int| i <= k < old_vals.len() ==> (#[trigger] self.values@[k])@ == old_vals[k],
                forall|k: int, j: int| 0 <= k < i && 0 <= j < old_vals[k].len()
                    ==> #[trigger] self.values@[k]@[j] == start.reported_values(reps, k, j),
            decreases sets - i,
        {
            let n = if self.mapping[i].len() < self.values[i].len() { self.mapping[i].len() } else { self.values[i].len() };
            let mut j: usize = 0;
            assert(self.mapping@[i as int]@ == maps[i as int]);
            assert(i < reps.len());
            assert(reps[i as int] == reports@[i as int]@);
            while j < n
                invariant
                    i < sets,
                    sets <= self.mapping@.len(),
                    sets <= self.values@.len(),
                    n <= maps[i as int].len(),
                    n <= old_vals[i as int].len(),
                    j <= n,
                    start == *old(self),
                    self.input_wrapper == start.input_wrapper,
                    reps == reports@.map_values(|r: Vec<(bool, bool, bool)>| r@),
                    start.reports_cover(reps),
                    i < reports@.len(),
                    reps[i as int] == reports@[i as int]@,
                    maps == start.mapping_view(),
                    old_vals == start.values_view(),
                    self.mapping_view() == maps,
                    self.values@.len() == old_vals.len(),
                    start.valid_digital(),
                    forall|k: int| 0 <= k < old_vals.len() ==> (#[trigger] self.values@[k])@.len() == old_vals[k].len(),
                    forall|k: int| i < k < old_vals.len() ==> (#[trigger] self.values@[k])@ == old_vals[k],
                    forall|k: int, jj: int| 0 <= k < i && 0 <= jj < old_vals[k].len()
                        ==> #[trigger] self.values@[k]@[jj] == start.reported_values(reps, k, jj),
                    forall|jj: int| j <= jj < old_vals[i as int].len() ==> #[trigger] self.values@[i as int]@[jj] == old_vals[i as int][jj],
                    forall|jj: int| 0 <= jj < j ==> #[trigger] self.values@[i as int]@[jj] == start.reported_values(reps, i as int, jj),
                decreases n - j,
            {
                assert(self.mapping@[i as int]@ == maps[i as int]);
                assert(j < reps[i as int].len());
                let is_valid = self.mapping[i][j].is_valid;
                let old_v = self.values[i][j];
                let ghost prev = self.values@;
                if !is_valid {
                    self.values[i].set(j, Values { value: 0, changed_by: 0 });
                } else {
                    let (held, pressed, released) = reports[i][j];
                    let nv = next_values(old_v, held, pressed, released);
                    self.values[i].set(j, nv);
                }
                assert(forall|k: int| 0 <= k < old_vals.len() && k != i ==> self.values@[k] == prev[k]);
                j = j + 1;
            }
            i = i + 1;
        }
        assert(self.mapping_view() =~= maps);
        assert forall|k: int| 0 <= k < old_vals.len() implies (#[trigger] self.values_view()[k]).len() == old_vals[k].len() by {
            assert(self.values_view()[k] == self.values@[k]@);
        }
        assert forall|k: int, jj: int| 0 <= k < old_vals.len() && 0 <= jj < old_vals[k].len()
            implies #[trigger] self.values_view()[k][jj] == start.reported_values(reps, k, jj) by {
            assert(self.values_view()[k] == self.values@[k]@);
            if k >= sets {
                assert(k >= maps.len());
            }
        }
    }

    /// Checks and updates what inputs are being pressed every frame.
    ///
    /// The input wrapper starts a new frame; then, for each valid action that has values, set
    /// by set, it is asked whether the action's key (from [Self::action_keys]) is held, and
    /// then whether it was just pressed (if held) or just released (if not). Those reports go
    /// to [Self::apply_key_reports]: an invalid action's values are reset to 0, a valid one's
    /// take one digital step with what was reported of its key.
    pub fn update_input(&mut self, events: &Wrapper::InputHelper)
        requires
            old(self).valid_digital(),
        ensures
            final(self).mapping_view() == old(self).mapping_view(),
            final(self).values_view().len() == old(self).values_view().len(),
            forall|i: int| 0 <= i < old(self).values_view().len() ==> (#[trigger] final(self).values_view()[i]).len() == old(self).values_view()[i].len(),
            forall|i: int, j: int|
                0 <= i < old(self).values_view().len() && 0 <= j < old(self).values_view()[i].len() ==> {
                    let v = #[trigger] final(self).values_view()[i][j];
                    let o = old(self).values_view()[i][j];
                    if i < old(self).mapping_view().len() && j < old(self).mapping_view()[i].len() {
                        if old(self).mapping_view()[i][j].is_valid {
                            digital_outcome(o, v)
                        } else {
                            v == reset_values()
                        }
                    } else {
                        v == o
                    }
                },
            Wrapper::obeys_frame_laws() ==> forall|i: int, j: int|
                0 <= i < old(self).values_view().len() && 0 <= j < old(self).values_view()[i].len()
                    && i < old(self).mapping_view().len() && j < old(self).mapping_view()[i].len()
                    && old(self).mapping_view()[i][j].is_valid ==> {
                    let r = device_report(final(self).input_wrapper, old(self).mapping_view()[i][j].key_input.keycode, events);
                    #[trigger] final(self).values_view()[i][j] == digital_step(old(self).values_view()[i][j], r.0, r.1, r.2)
                },
    {
        self.input_wrapper.clear();
        let keys = self.action_keys();
        let sets = if self.mapping.len() < self.values.len() { self.mapping.len() } else { self.values.len() };
        let ghost start = *self;
        let ghost w0 = self.input_wrapper;
        let mut reports: Vec<Vec<(bool, bool, bool)>> = Vec::new();
        let mut i: usize = 0;
        while i < sets
            invariant
                sets <= self.mapping@.len(),
                sets <= self.values@.len(),
                keys@.len() == self.mapping@.len(),
                forall|k: int| 0 <= k < keys@.len() ==> (#[trigger] keys@[k])@.len() == self.mapping@[k]@.len(),
                forall|k: int, jj: int| 0 <= k < keys@.len() && 0 <= jj < keys@[k]@.len()
                    ==> #[trigger] keys@[k]@[jj] == self.mapping@[k]@[jj].key_input.keycode,
                i <= sets,
                self.mapping == start.mapping,
                self.values == start.values,
                w0 == start.input_wrapper,
                Wrapper::obeys_frame_laws() ==> forall|k: Wrapper::KeyCode| #[trigger] self.input_wrapper.key_held(k, events) == w0.key_held(k, events),
                Wrapper::obeys_frame_laws() ==> forall|k: Wrapper::KeyCode| #[trigger] self.input_wrapper.key_pressed(k, events) == w0.key_pressed(k, events),
                Wrapper::obeys_frame_laws() ==> forall|k: Wrapper::KeyCode| #[trigger] self.input_wrapper.key_released(k, events) == w0.key_released(k, events),
                reports@.len() == i,
                forall|k: int| 0 <= k < i ==> {
                    &&& (#[trigger] reports@[k])@.len() == if self.mapping@[k]@.len() < self.values@[k]@.len() {
                        self.mapping@[k]@.len()
                    } else {
                        self.values@[k]@.len()
                    }
                },
                Wrapper::obeys_frame_laws() ==> forall|k: int, jj: int| 0 <= k < i && 0 <= jj < reports@[k]@.len() ==> #[trigger] reports@[k]@[jj] == if self.mapping@[k]@[jj].is_valid {
                    device_report(w0, self.mapping@[k]@[jj].key_input.keycode, events)
                } else {
                    (false, false, false)
                },
            decreases sets - i,
        {
            let n = if self.mapping[i].len() < self.values[i].len() { self.mapping[i].len() } else { self.values[i].len() };
            let mut row: Vec<(bool, bool, bool)> = Vec::new();
            let mut j: usize = 0;
            while j < n
                invariant
                    i < sets,
                    sets <= self.mapping@.len(),
                    sets <= self.values@.len(),
                    keys@.len() == self.mapping@.len(),
                    forall|k: int| 0 <= k < keys@.len() ==> (#[trigger] keys@[k])@.len() == self.mapping@[k]@.len(),
                    forall|k: int, jj: int| 0 <= k < keys@.len() && 0 <= jj < keys@[k]@.len()
                        ==> #[trigger] keys@[k]@[jj] == self.mapping@[k]@[jj].key_input.keycode,
                    n <= self.mapping@[i as int]@.len(),
                    j <= n,
                    self.mapping == start.mapping,
                    self.values == start.values,
                    Wrapper::obeys_frame_laws() ==> forall|k: Wrapper::KeyCode| #[trigger] self.input_wrapper.key_held(k, events) == w0.key_held(k, events),
                    Wrapper::obeys_frame_laws() ==> forall|k: Wrapper::KeyCode| #[trigger] self.input_wrapper.key_pressed(k, events) == w0.key_pressed(k, events),
                    Wrapper::obeys_frame_laws() ==> forall|k: Wrapper::KeyCode| #[trigger] self.input_wrapper.key_released(k, events) == w0.key_released(k, events),
                    row@.len() == j,
                    Wrapper::obeys_frame_laws() ==> forall|jj: int| 0 <= jj < j ==> #[trigger] row@[jj] == if self.mapping@[i as int]@[jj].is_valid {
                        device_report(w0, self.mapping@[i as int]@[jj].key_input.keycode, events)
                    } else {
                        (false, false, false)
                    },
                decreases n - j,
            {
                if self.mapping[i][j].is_valid {
                    let key = keys[i][j];
                    assert(key == self.mapping@[i as int]@[j as int].key_input.keycode);
                    let held = self.input_wrapper.update_held(&key, events);
                    let mut pressed = false;
                    let mut released = false;
                    if held {
                        pressed = self.input_wrapper.is_pressed(&key, events);
                    } else {
                        released = self.input_wrapper.is_released(&key, events);
                    }
                    row.push((held, pressed, released));
                } else {
                    row.push((false, false, false));
                }
                j = j + 1;
            }
            reports.push(row);
            i = i + 1;
        }
        let ghost before = *self;
        let ghost reps = reports@.map_values(|r: Vec<(bool, bool, bool)>| r@);
        assert(self.mapping_view() == start.mapping_view());
        assert(self.values_view() == start.values_view());
        assert forall|k: int| 0 <= k < self.mapping_view().len() && 0 <= k < self.values_view().len() implies {
            &&& k < reps.len()
            &&& (#[trigger] self.mapping_view()[k]).len() <= reps[k].len() || self.values_view()[k].len() <= reps[k].len()
        } by {
            assert(reps[k] == reports@[k]@);
        }
        self.apply_key_reports(&reports);
        assert forall|k: int, jj: int|
            0 <= k < before.values_view().len() && 0 <= jj < before.values_view()[k].len() && k < before.mapping_view().len()
                && jj < before.mapping_view()[k].len() && before.mapping_view()[k][jj].is_valid
            implies digital_outcome(before.values_view()[k][jj], #[trigger] self.values_view()[k][jj]) by {
            lemma_digital_outcome(before.values_view()[k][jj], reps[k][jj].0, reps[k][jj].1, reps[k][jj].2);
        }
        assert forall|k: int, jj: int|
            Wrapper::obeys_frame_laws() && 0 <= k < before.values_view().len() && 0 <= jj < before.values_view()[k].len() && k < before.mapping_view().len()
                && jj < before.mapping_view()[k].len() && before.mapping_view()[k][jj].is_valid
            implies {
                let r = device_report(self.input_wrapper, before.mapping_view()[k][jj].key_input.keycode, events);
                #[trigger] self.values_view()[k][jj] == digital_step(before.values_view()[k][jj], r.0, r.1, r.2)
            } by {
            assert(reps[k] == reports@[k]@);
            let key = before.mapping_view()[k][jj].key_input.keycode;
            assert(self.input_wrapper.key_held(key, events) == w0.key_held(key, events));
            assert(self.input_wrapper.key_pressed(key, events) == w0.key_pressed(key, events));
            assert(self.input_wrapper.key_released(key, events) == w0.key_released(key, events));
        }
    }

    /// Returns the [Values] for the first action in the mapping with the given ID: the first
    /// set, in order, that has an action with that id gives them.
    pub fn get_action(&self, id: ID) -> (res: Option<Values>)
        requires
            vstd::laws_eq::obeys_concrete_eq::<ID>(),
            forall|s: int|
                0 <= s < self.mapping_view().len() && (forall|t: int| 0 <= t < s ==> self.absent_in_set(t, id))
                    ==> #[trigger] self.lookup_ok(s, id),
        ensures
            match res {
                Some(v) => exists|s: int| {
                    &&& 0 <= s < self.mapping_view().len()
                    &&& #[trigger] self.lookup_in_set(s, id) == Some(v)
                    &&& forall|t: int| 0 <= t < s ==> self.lookup_in_set(t, id) is None
                },
                None => forall|s: int| 0 <= s < self.mapping_view().len() ==> #[trigger] self.lookup_in_set(s, id) is None,
            },
    {
        let mut i: usize = 0;
        while i < self.mapping.len()
            invariant
                i <= self.mapping_view().len(),
                self.mapping_view().len() == self.mapping@.len(),
                vstd::laws_eq::obeys_concrete_eq::<ID>(),
                forall|s: int|
                    0 <= s < self.mapping_view().len() && (forall|t: int| 0 <= t < s ==> self.absent_in_set(t, id))
                        ==> #[trigger] self.lookup_ok(s, id),
                forall|t: int| 0 <= t < i ==> #[trigger] self.absent_in_set(t, id),
                forall|t: int| 0 <= t < i ==> #[trigger] self.lookup_in_set(t, id) is None,
            decreases self.mapping@.len() - i,
        {
            assert(self.lookup_ok(i as int, id));
            if let Some(values) = self.get_action_in_set(i, id) {
                return Some(values);
            }
            i = i + 1;
        }
        None
    }

    /// Returns the [Values] for the first action with the given ID in the given set of
    /// mappings.
    pub fn get_action_in_set(&self, action_set: usize, id: ID) -> (res: Option<Values>)
        requires
            action_set < self.mapping_view().len(),
            vstd::laws_eq::obeys_concrete_eq::<ID>(),
            self.lookup_ok(action_set as int, id),
        ensures
            res == self.lookup_in_set(action_set as int, id),
            res is None <==> self.absent_in_set(action_set as int, id),
    {
        assert(self.mapping_view()[action_set as int] == self.mapping@[action_set as int]@);
        match find_action(&self.mapping[action_set], &id) {
            Some(i) => {
                assert(first_action(self.mapping_view()[action_set as int], id, i as int));
                assert(self.values_view()[action_set as int] == self.values@[action_set as int]@);
                Some(self.values[action_set][i])
            },
            None => None,
        }
    }

    /// Adds a single keymap to the logic: a valid digital action for `keycode` with id `id`
    /// at the end of set `locus_idx`, with values 0, adding empty sets up to that one where
    /// needed.
    pub fn add_key_map(&mut self, locus_idx: usize, keycode: Wrapper::KeyCode, id: ID)
        requires
            old(self).wf(),
            locus_idx < usize::MAX,
        ensures
            final(self).wf(),
            final(self).mapping_view().len() == if locus_idx < old(self).mapping_view().len() {
                old(self).mapping_view().len() as int
            } else {
                locus_idx + 1
            },
            forall|s: int| 0 <= s < final(self).mapping_view().len() && s != locus_idx ==> {
                &&& #[trigger] final(self).mapping_view()[s] == if s < old(self).mapping_view().len() {
                    old(self).mapping_view()[s]
                } else {
                    Seq::empty()
                }
                &&& final(self).values_view()[s] == if s < old(self).values_view().len() {
                    old(self).values_view()[s]
                } else {
                    Seq::empty()
                }
            },
            final(self).mapping_view()[locus_idx as int] == (if locus_idx < old(self).mapping_view().len() {
                old(self).mapping_view()[locus_idx as int]
            } else {
                Seq::empty()
            }).push(Action::spec_new(id, keycode, InputType::Digital)),
            final(self).values_view()[locus_idx as int] == (if locus_idx < old(self).values_view().len() {
                old(self).values_view()[locus_idx as int]
            } else {
                Seq::empty()
            }).push(Values { changed_by: 0, value: 0 }),
    {
        let ghost om = self.mapping_view();
        let ghost ov = self.values_view();
        assert(om.len() == self.mapping@.len());
        assert(ov.len() == self.values@.len());
        if locus_idx >= self.mapping.len() {
            while self.mapping.len() < locus_idx + 1
                invariant
                    locus_idx < usize::MAX,
                    om.len() <= self.mapping@.len() <= locus_idx + 1,
                    self.values@ == old(self).values@,
                    om == old(self).mapping_view(),
                    forall|s: int| 0 <= s < om.len() ==> #[trigger] self.mapping@[s]@ == om[s],
                    forall|s: int| om.len() <= s < self.mapping@.len() ==> #[trigger] self.mapping@[s]@ == Seq::<Action<ID, Wrapper::KeyCode>>::empty(),
                decreases locus_idx + 1 - self.mapping@.len(),
            {
                self.mapping.push(Vec::new());
            }
            let ghost grown = self.mapping@;
            while self.values.len() < locus_idx + 1
                invariant
                    locus_idx < usize::MAX,
                    self.mapping@ == grown,
                    grown.len() == locus_idx + 1,
                    ov.len() <= self.values@.len() <= locus_idx + 1,
                    ov == old(self).values_view(),
                    forall|s: int| 0 <= s < ov.len() ==> #[trigger] self.values@[s]@ == ov[s],
                    forall|s: int| ov.len() <= s < self.values@.len() ==> #[trigger] self.values@[s]@ == Seq::<Values>::empty(),
                decreases locus_idx + 1 - self.values@.len(),
            {
                self.values.push(Vec::new());
            }
        }
        assert(locus_idx < self.mapping@.len());
        assert(locus_idx < self.values@.len());
        let ghost mid_m = self.mapping@;
        let ghost mid_v = self.values@;
        self.mapping[locus_idx].push(Action::new(id, keycode, InputType::Digital));
        self.values[locus_idx].push(Values { value: 0, changed_by: 0 });
        assert(self.mapping@.len() == mid_m.len());
        assert(self.values@.len() == mid_v.len());
        assert(forall|s: int| 0 <= s < mid_m.len() && s != locus_idx ==> self.mapping@[s] == mid_m[s]);
        assert(forall|s: int| 0 <= s < mid_v.len() && s != locus_idx ==> self.values@[s] == mid_v[s]);
        assert forall|s: int| 0 <= s < self.mapping_view().len() implies (#[trigger] self.mapping_view()[s]).len()
            == self.values_view()[s].len() by {
            if s < om.len() {
                assert(om[s].len() == ov[s].len());
            }
        }
    }
}

impl<ID, Wrapper> Default for KeyboardControl<ID, Wrapper> where ID: Copy + Eq + Ord, Wrapper: InputWrapper {
    fn default() -> (res: Self)
        ensures
            res.mapping_view() == Seq::<Seq<Action<ID, Wrapper::KeyCode>>>::empty(),
            res.values_view() == Seq::<Seq<Values>>::empty(),
    {
        Self::new()
    }
}

/// The set of actions that a reaction is about.
pub open spec fn reaction_set<ID: Copy + Eq, KeyCode: Copy + Eq>(reaction: ControlReaction<ID, KeyCode>) -> usize {
    match reaction {
        ControlReaction::AddKeyToSet(idx, _, _, _) => idx,
        ControlReaction::RemoveKeyFromSet(idx, _) => idx,
        ControlReaction::SetKeyValid(idx, _) => idx,
        ControlReaction::SetKeyInvalid(idx, _) => idx,
    }
}

impl<ID, Wrapper> Logic for KeyboardControl<ID, Wrapper> where ID: Copy + Eq + Ord, Wrapper: InputWrapper {
    type Reaction = ControlReaction<ID, Wrapper::KeyCode>;

    /// The set exists; a set that gains or loses an action has its values too, and the action
    /// that `RemoveKeyFromSet` removes has its values.
    open spec fn can_handle(&self, reaction: &ControlReaction<ID, Wrapper::KeyCode>) -> bool {
        &&& vstd::laws_eq::obeys_concrete_eq::<ID>()
        &&& match *reaction {
            ControlReaction::AddKeyToSet(idx, _, _, _) => idx < self.mapping_view().len() && idx < self.values_view().len(),
            ControlReaction::RemoveKeyFromSet(idx, id) => idx < self.mapping_view().len() && idx < self.values_view().len()
                && self.lookup_ok(idx as int, id),
            ControlReaction::SetKeyValid(idx, _) => idx < self.mapping_view().len(),
            ControlReaction::SetKeyInvalid(idx, _) => idx < self.mapping_view().len(),
        }
    }

    /// `AddKeyToSet` appends an action to the set, with values 0; `RemoveKeyFromSet` removes
    /// the first action with the id from the set, and its values; `SetKeyValid` and
    /// `SetKeyInvalid` mark the first action with the id as valid or not. Every action keeps
    /// its own values.
    fn handle_predicate(&mut self, reaction: &ControlReaction<ID, Wrapper::KeyCode>)
        ensures
            final(self).mapping_view().len() == old(self).mapping_view().len(),
            final(self).values_view().len() == old(self).values_view().len(),
            forall|s: int| 0 <= s < old(self).mapping_view().len() && s != reaction_set(*reaction)
                ==> #[trigger] final(self).mapping_view()[s] == old(self).mapping_view()[s],
            forall|s: int| 0 <= s < old(self).values_view().len() && s != reaction_set(*reaction)
                ==> #[trigger] final(self).values_view()[s] == old(self).values_view()[s],
            old(self).wf() ==> final(self).wf(),
            match *reaction {
                ControlReaction::AddKeyToSet(idx, id, keycode, input_type) => {
                    &&& final(self).mapping_view()[idx as int] == old(self).mapping_view()[idx as int].push(Action::spec_new(id, keycode, input_type))
                    &&& final(self).values_view()[idx as int] == old(self).values_view()[idx as int].push(reset_values())
                },
                ControlReaction::RemoveKeyFromSet(idx, id) =>
                    if exists|i: int| first_action(old(self).mapping_view()[idx as int], id, i) {
                        exists|i: int| {
                            &&& #[trigger] first_action(old(self).mapping_view()[idx as int], id, i)
                            &&& final(self).mapping_view()[idx as int] == old(self).mapping_view()[idx as int].remove(i)
                            &&& final(self).values_view()[idx as int] == old(self).values_view()[idx as int].remove(i)
                        }
                    } else {
                        final(self).mapping_view()[idx as int] == old(self).mapping_view()[idx as int]
                            && final(self).values_view()[idx as int] == old(self).values_view()[idx as int]
                    },
                ControlReaction::SetKeyValid(idx, id) =>
                    final(self).values_view() == old(self).values_view()
                    && if exists|i: int| first_action(old(self).mapping_view()[idx as int], id, i) {
                        exists|i: int| {
                            let a = old(self).mapping_view()[idx as int][i];
                            #[trigger] first_action(old(self).mapping_view()[idx as int], id, i)
                            && final(self).mapping_view()[idx as int] == old(self).mapping_view()[idx as int].update(i, Action { is_valid: true, ..a })
                        }
                    } else {
                        final(self).mapping_view()[idx as int] == old(self).mapping_view()[idx as int]
                    },
                ControlReaction::SetKeyInvalid(idx, id) =>
                    final(self).values_view() == old(self).values_view()
                    && if exists|i: int| first_action(old(self).mapping_view()[idx as int], id, i) {
                        exists|i: int| {
                            let a = old(self).mapping_view()[idx as int][i];
                            #[trigger] first_action(old(self).mapping_view()[idx as int], id, i)
                            && final(self).mapping_view()[idx as int] == old(self).mapping_view()[idx as int].update(i, Action { is_valid: false, ..a })
                        }
                    } else {
                        final(self).mapping_view()[idx as int] == old(self).mapping_view()[idx as int]
                    },
            },
    {
        let ghost om = self.mapping@;
        let ghost ov = self.values@;
        match *reaction {
            ControlReaction::AddKeyToSet(idx, id, keycode, input_type) => {
                self.mapping[idx].push(Action::new(id, keycode, input_type));
                self.values[idx].push(Values { value: 0, changed_by: 0 });
            },
            ControlReaction::RemoveKeyFromSet(set_idx, id) => {
                assert(self.mapping_view()[set_idx as int] == self.mapping@[set_idx as int]@);
                if let Some(action_idx) = find_action(&self.mapping[set_idx], &id) {
                    assert(first_action(self.mapping_view()[set_idx as int], id, action_idx as int));
                    assert(self.values_view()[set_idx as int] == self.values@[set_idx as int]@);
                    self.mapping[set_idx].remove(action_idx);
                    self.values[set_idx].remove(action_idx);
                }
            },
            ControlReaction::SetKeyValid(set_idx, id) => {
                if let Some(action_idx) = find_action(&self.mapping[set_idx], &id) {
                    self.mapping[set_idx][action_idx].is_valid = true;
                }
            },
            ControlReaction::SetKeyInvalid(set_idx, id) => {
                if let Some(action_idx) = find_action(&self.mapping[set_idx], &id) {
                    self.mapping[set_idx][action_idx].is_valid = false;
                }
            },
        }
        assert(forall|s: int| 0 <= s < om.len() && s != reaction_set(*reaction) ==> self.mapping@[s] == om[s]);
        assert(forall|s: int| 0 <= s < ov.len() && s != reaction_set(*reaction) ==> self.values@[s] == ov[s]);
        assert(self.mapping_view().len() == om.len());
        assert(self.values_view().len() == ov.len());
        proof {
            if old(self).wf() {
                assert forall|s: int| 0 <= s < self.mapping_view().len() implies (#[trigger] self.mapping_view()[s]).len()
                    == self.values_view()[s].len() by {
                    assert(old(self).mapping_view()[s].len() == old(self).values_view()[s].len());
                }
            }
        }
    }
}

/// Whether `key` is among `keys`.
fn holds<K: Copy + Eq>(keys: &Vec<K>, key: &K) -> (res: bool)
    ensures
        vstd::laws_eq::obeys_concrete_eq::<K>() ==> res == keys@.contains(*key),
{
    proof {
        reveal(vstd::laws_eq::obeys_concrete_eq);
    }
    let mut i: usize = 0;
    while i < keys.len()
        invariant
            i <= keys@.len(),
            vstd::laws_eq::obeys_concrete_eq::<K>() ==> K::obeys_eq_spec(),
            vstd::laws_eq::obeys_concrete_eq::<K>() ==> forall|a: K, b: K| a.eq_spec(&b) <==> (a == b),
            vstd::laws_eq::obeys_concrete_eq::<K>() ==> forall|j: int| 0 <= j < i ==> keys@[j] != *key,
        decreases keys@.len() - i,
    {
        if keys[i] == *key {
            proof {
                if vstd::laws_eq::obeys_concrete_eq::<K>() {
                    assert(keys@[i as int] == *key);
                }
            }
            return true;
        }
        i = i + 1;
    }
    false
}

/// The keys that an input wrapper saw held this frame and last frame, for input handlers that
/// only report whether a key is down.
pub struct KeyFrames<K> {
    pub this_frame_keys: Vec<K>,
    pub last_frame_keys: Vec<K>,
}

impl<K: Copy + Eq> KeyFrames<K> {
    pub fn new() -> (res: Self)
        ensures
            res.this_frame_keys@ == Seq::<K>::empty(),
            res.last_frame_keys@ == Seq::<K>::empty(),
    {
        Self { this_frame_keys: Vec::new(), last_frame_keys: Vec::new() }
    }

    /// Starts a new frame: this frame's keys become last frame's.
    pub fn clear(&mut self)
        ensures
            final(self).last_frame_keys@ == old(self).this_frame_keys@,
            final(self).this_frame_keys@ == Seq::<K>::empty(),
    {
        let mut fresh: Vec<K> = Vec::new();
        std::mem::swap(&mut fresh, &mut self.this_frame_keys);
        self.last_frame_keys = fresh;
    }

    /// Records that `key` is held this frame.
    pub fn record_held(&mut self, key: K)
        ensures
            final(self).this_frame_keys@ == old(self).this_frame_keys@.push(key),
            final(self).last_frame_keys@ == old(self).last_frame_keys@,
    {
        self.this_frame_keys.push(key);
    }

    /// The key was held last frame and is not held this frame.
    pub fn is_released(&self, key: &K) -> (res: bool)
        ensures
            vstd::laws_eq::obeys_concrete_eq::<K>()
                ==> res == (self.last_frame_keys@.contains(*key) && !self.this_frame_keys@.contains(*key)),
    {
        let was_pressed = holds(&self.last_frame_keys, key);
        let is_not_pressed = !holds(&self.this_frame_keys, key);
        was_pressed && is_not_pressed
    }

    /// The key is held this frame and was not held last frame.
    pub fn is_pressed(&self, key: &K) -> (res: bool)
        ensures
            vstd::laws_eq::obeys_concrete_eq::<K>()
                ==> res == (self.this_frame_keys@.contains(*key) && !self.last_frame_keys@.contains(*key)),
    {
        holds(&self.this_frame_keys, key) && !holds(&self.last_frame_keys, key)
    }
}

} // verus!
