//! # Jumper
//!
//! The jumper game maps keys onto actions that happen while a key is down (`On`), up
//! (`Off`), or on the frame it goes down (`Pressed`) or up (`Released`), and moves each entity
//! through a map of states.

use vstd::prelude::*;

use crate::entity_state::StateMap;

verus! {

use vstd::std_specs::cmp::PartialEqSpec;

/// When an input activates its action.
#[derive(Clone)]
pub enum InputState {
    On,
    Off,
    Pressed,
    Released,
}

/// Whether an activated key's action occurs this frame: a `Pressed` or `Released` action
/// occurs only if the key was not among last frame's inputs; the others always occur.
pub fn action_occurs<K: Copy + Eq>(keycode: K, input_state: &InputState, last_frame_inputs: &[K]) -> (res: bool)
    ensures
        vstd::laws_eq::obeys_concrete_eq::<K>() ==> res == match *input_state {
            InputState::Pressed | InputState::Released => !last_frame_inputs@.contains(keycode),
            _ => true,
        },
{
    match input_state {
        InputState::Pressed | InputState::Released => {
            proof {
                reveal(vstd::laws_eq::obeys_concrete_eq);
            }
            let mut i: usize = 0;
            while i < last_frame_inputs.len()
                invariant
                    i <= last_frame_inputs@.len(),
                    *input_state is Pressed || *input_state is Released,
                    vstd::laws_eq::obeys_concrete_eq::<K>() ==> K::obeys_eq_spec(),
                    vstd::laws_eq::obeys_concrete_eq::<K>() ==> forall|a: K, b: K| a.eq_spec(&b) <==> (a == b),
                    vstd::laws_eq::obeys_concrete_eq::<K>() ==> forall|j: int| 0 <= j < i ==> last_frame_inputs@[j] != keycode,
                decreases last_frame_inputs@.len() - i,
            {
                if last_frame_inputs[i] == keycode {
                    proof {
                        if vstd::laws_eq::obeys_concrete_eq::<K>() {
                            assert(last_frame_inputs@[i as int] == keycode);
                        }
                    }
                    return false;
                }
                i = i + 1;
            }
            true
        },
        _ => true,
    }
}

/// The state after a step from `cur` along `edges`: each listed edge whose condition is set
/// is taken in turn, so the last of them wins; with none set, the state stays `cur`.
pub open spec fn last_enabled(edges: Seq<usize>, conds: Seq<bool>, cur: usize) -> usize
    decreases edges.len(),
{
    if edges.len() == 0 {
        cur
    } else {
        let before = last_enabled(edges.drop_last(), conds, cur);
        if conds[edges.last() as int] {
            edges.last()
        } else {
            before
        }
    }
}

/// A step follows the last listed edge whose condition is set: where some edge out of the
/// current state is enabled, the new state is the target of an enabled edge with no enabled
/// edge listed after it; where none is, the state stays where it was.
pub proof fn law_step_takes_last_enabled_edge(edges: Seq<usize>, conds: Seq<bool>, cur: usize)
    ensures
        (exists|k: int| 0 <= k < edges.len() && conds[#[trigger] edges[k] as int]) ==> exists|k: int| {
            &&& 0 <= k < edges.len()
            &&& conds[#[trigger] edges[k] as int]
            &&& last_enabled(edges, conds, cur) == edges[k]
            &&& forall|m: int| k < m < edges.len() ==> !conds[edges[m] as int]
        },
        (forall|k: int| 0 <= k < edges.len() ==> !conds[#[trigger] edges[k] as int]) ==> last_enabled(edges, conds, cur) == cur,
    decreases edges.len(),
{
    if edges.len() > 0 {
        let d = edges.drop_last();
        law_step_takes_last_enabled_edge(d, conds, cur);
        let n = edges.len() - 1;
        if conds[edges[n] as int] {
            assert(edges.last() == edges[n]);
            assert(conds[edges[n] as int] && last_enabled(edges, conds, cur) == edges[n]);
        } else {
            assert(edges.last() == edges[n]);
            if exists|k: int| 0 <= k < edges.len() && conds[#[trigger] edges[k] as int] {
                let k0 = choose|k: int| 0 <= k < edges.len() && conds[#[trigger] edges[k] as int];
                assert(k0 < n);
                assert(d[k0] == edges[k0]);
                let k = choose|k: int| {
                    &&& 0 <= k < d.len()
                    &&& conds[#[trigger] d[k] as int]
                    &&& last_enabled(d, conds, cur) == d[k]
                    &&& forall|m: int| k < m < d.len() ==> !conds[d[m] as int]
                };
                assert(edges[k] == d[k]);
                assert forall|m: int| k < m < edges.len() implies !conds[edges[m] as int] by {
                    if m < n {
                        assert(edges[m] == d[m]);
                    }
                }
            } else {
                assert forall|k: int| 0 <= k < d.len() implies !conds[#[trigger] d[k] as int] by {
                    assert(d[k] == edges[k]);
                }
            }
        }
    }
}

/// The entity-state logic of jumper: one state map, one condition table and one current state
/// per entity.
pub struct JumperEntityState<ID: Copy + Eq> {
    pub maps: Vec<StateMap<ID>>,
    pub conditions: Vec<Vec<bool>>,
    pub states: Vec<usize>,
}

impl<ID: Copy + Eq> JumperEntityState<ID> {
    pub fn new() -> (res: Self)
        ensures
            res.maps@.len() == 0,
            res.conditions@.len() == 0,
            res.states@.len() == 0,
    {
        Self { maps: Vec::new(), conditions: Vec::new(), states: Vec::new() }
    }

    /// The edges out of entity `i`'s current state.
    pub open spec fn edges_of(&self, i: int) -> Seq<usize> {
        self.maps@[i].states@[self.states@[i] as int].edges@
    }

    /// Every entity has a map and a condition table, its state is one of its map's, and each
    /// edge out of it has a condition.
    pub open spec fn steppable(&self) -> bool {
        forall|i: int| 0 <= i < self.states@.len() ==> {
            &&& i < self.maps@.len()
            &&& i < self.conditions@.len()
            &&& (#[trigger] self.states@[i]) < self.maps@[i].states@.len()
            &&& forall|k: int| 0 <= k < self.edges_of(i).len() ==> (#[trigger] self.edges_of(i)[k]) < self.conditions@[i]@.len()
        }
    }

    /// Moves each entity along the edges of its current state whose condition is set: the
    /// last such edge listed wins.
    pub fn update(&mut self)
        requires
            old(self).steppable(),
        ensures
            final(self).maps@ == old(self).maps@,
            final(self).conditions@ == old(self).conditions@,
            final(self).states@.len() == old(self).states@.len(),
            forall|i: int| 0 <= i < old(self).states@.len() ==> #[trigger] final(self).states@[i] == last_enabled(
                old(self).edges_of(i),
                old(self).conditions@[i]@,
                old(self).states@[i],
            ),
    {
        let n = self.states.len();
        let mut i: usize = 0;
        while i < n
            invariant
                n == self.states@.len(),
                n == old(self).states@.len(),
                i <= n,
                self.maps@ == old(self).maps@,
                self.conditions@ == old(self).conditions@,
                old(self).steppable(),
                forall|k: int| i <= k < n ==> #[trigger] self.states@[k] == old(self).states@[k],
                forall|k: int| 0 <= k < i ==> #[trigger] self.states@[k] == last_enabled(
                    old(self).edges_of(k),
                    old(self).conditions@[k]@,
                    old(self).states@[k],
                ),
            decreases n - i,
        {
            let start = self.states[i];
            assert(old(self).states@[i as int] == start);
            let edges = &self.maps[i].states[start].edges;
            assert(edges@ == old(self).edges_of(i as int));
            let mut state_idx = start;
            let mut e: usize = 0;
            while e < edges.len()
                invariant
                    e <= edges@.len(),
                    i < n,
                    n == old(self).states@.len(),
                    self.conditions@ == old(self).conditions@,
                    i < self.conditions@.len(),
                    edges@ == old(self).edges_of(i as int),
                    forall|k: int| 0 <= k < edges@.len() ==> (#[trigger] edges@[k]) < self.conditions@[i as int]@.len(),
                    state_idx == last_enabled(edges@.take(e as int), self.conditions@[i as int]@, start),
                decreases edges@.len() - e,
            {
                assert(edges@.take(e + 1).drop_last() == edges@.take(e as int));
                let edge = edges[e];
                if self.conditions[i][edge] {
                    state_idx = edge;
                }
                e = e + 1;
            }
            assert(edges@.take(edges@.len() as int) == edges@);
            self.states.set(i, state_idx);
            i = i + 1;
        }
    }

    /// The id of entity `ent`'s current state.
    pub fn get_id_for_entity(&self, ent: usize) -> (res: ID)
        requires
            ent < self.maps@.len(),
            ent < self.states@.len(),
            self.states@[ent as int] < self.maps@[ent as int].states@.len(),
        ensures
            res == self.maps@[ent as int].states@[self.states@[ent as int] as int].id,
    {
        self.maps[ent].states[self.states[ent]].id
    }
}

} // verus!
