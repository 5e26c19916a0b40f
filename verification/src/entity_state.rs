//! # Entity-state Logics
//!
//! Entity-state logics communicate that game entities act in different ways or have different
//! capabilities at different times, in ways that are intrinsic to each such entity. They govern
//! the finite, discrete states of a set of game characters or other entities, update states when
//! necessary, and condition the operators of other logics on entities' discrete states.

use vstd::prelude::*;

use crate::graph::{StateMachine, adjacency_ids, adjacency_matrix, edge_list, first_enabled, is_first_pos, true_indices, position_of, targets_known};
use crate::tables::OutputTable;
use crate::{Event, Logic, Reaction};

verus! {

/// An entity-state logic for flat entity state machines.
pub struct FlatEntityState<ID: Copy + Eq> {
    /// A vec of state machines
    pub graphs: Vec<StateMachine<ID>>,
    /// If each state machine has just traversed an edge or not
    pub just_traversed: Vec<bool>,
}

/// A representation of a map of states.
pub struct StateMap<ID> {
    pub states: Vec<State<ID>>,
}

/// A state in a state machine.
pub struct State<ID> {
    pub id: ID,
    /// The edges to the states that the entity can move to from the current state.
    pub edges: Vec<usize>,
}

#[derive(Clone, Copy, PartialEq, Eq, Debug)]
pub struct EntityEvent {
    pub graph: usize,
    pub node: usize,
    pub event_type: EntityEventType,
}

#[derive(Clone, Copy, PartialEq, Eq, Debug)]
pub enum EntityEventType {
    Activated,
    Traversed,
}

impl EntityEvent {
    /// The kind of the event.
    pub fn get_type(&self) -> (res: &EntityEventType)
        ensures
            *res == self.event_type,
    {
        &self.event_type
    }

    /// The event with the given fields.
    pub open spec fn spec_new(graph: int, node: int, event_type: EntityEventType) -> EntityEvent {
        EntityEvent { graph: graph as usize, node: node as usize, event_type }
    }
}

impl Event for EntityEvent {}

pub enum EntityReaction {
    Activate(usize, usize),
    Traverse(usize, usize),
}

impl Reaction for EntityReaction {}

/// The `Activated` events of graph `g` for the nodes below `k` whose condition is set, other
/// than the current node `cur`, in node order.
pub open spec fn activated_events(g: int, conds: Seq<bool>, cur: int, k: int) -> Seq<EntityEvent>
    decreases k,
{
    if k <= 0 {
        Seq::empty()
    } else {
        let rest = activated_events(g, conds, cur, k - 1);
        if conds[k - 1] && k - 1 != cur {
            rest.push(EntityEvent::spec_new(g, k - 1, EntityEventType::Activated))
        } else {
            rest
        }
    }
}

/// The events of graph `g`: a `Traversed` event at its current node if it has just
/// traversed, then its `Activated` events.
pub open spec fn graph_events<ID: Copy>(g: int, sm: StateMachine<ID>, traversed: bool) -> Seq<EntityEvent> {
    (if traversed {
        seq![EntityEvent::spec_new(g, sm.current_node as int, EntityEventType::Traversed)]
    } else {
        Seq::empty()
    }) + activated_events(g, sm.conditions@, sm.current_node as int, sm.conditions@.len() as int)
}

impl<ID: Copy + Eq> FlatEntityState<ID> {
    /// One traversal flag per graph, every graph well formed.
    pub open spec fn wf(&self) -> bool {
        &&& self.graphs@.len() == self.just_traversed@.len()
        &&& forall|i: int| 0 <= i < self.graphs@.len() ==> #[trigger] self.graphs@[i].wf()
    }

    /// Every graph is on one of its nodes.
    pub open spec fn currents_valid(&self) -> bool {
        forall|i: int| 0 <= i < self.graphs@.len() ==> #[trigger] self.graphs@[i].current_valid()
    }

    /// The events of the graphs below `k`, graph by graph.
    pub open spec fn events_upto(&self, k: int) -> Seq<EntityEvent>
        decreases k,
    {
        if k <= 0 {
            Seq::empty()
        } else {
            self.events_upto(k - 1) + graph_events(k - 1, self.graphs@[k - 1], self.just_traversed@[k - 1])
        }
    }

    /// The pairs of each graph's index with the id of its current node.
    pub open spec fn ident_table(&self) -> Seq<(usize, ID)> {
        Seq::new(self.graphs@.len(), |i: int| (i as usize, self.graphs@[i].nodes@[self.graphs@[i].current_node as int]))
    }

    pub fn new() -> (res: Self)
        ensures
            res.graphs@ == Seq::<StateMachine<ID>>::empty(),
            res.just_traversed@ == Seq::<bool>::empty(),
            res.wf(),
    {
        Self { graphs: Vec::new(), just_traversed: Vec::new() }
    }

    /// Updates the entity-state logic.
    ///
    /// Check the status of all the links from the current node in the condition table. If any
    /// of those links are `true`, i.e. that node can be moved to, move the current position to
    /// the first of them.
    pub fn update(&mut self)
        requires
            old(self).wf(),
            old(self).currents_valid(),
        ensures
            final(self).wf(),
            final(self).currents_valid(),
            final(self).graphs@.len() == old(self).graphs@.len(),
            forall|i: int| 0 <= i < old(self).graphs@.len() ==> {
                &&& (#[trigger] final(self).graphs@[i]).nodes@ == old(self).graphs@[i].nodes@
                &&& final(self).graphs@[i].edges@ == old(self).graphs@[i].edges@
                &&& final(self).graphs@[i].conditions@ == old(self).graphs@[i].conditions@
                &&& final(self).graphs@[i].current_node == old(self).graphs@[i].stepped_current()
                &&& final(self).just_traversed@[i] == old(self).graphs@[i].next_node() is Some
            },
    {
        let n = self.graphs.len();
        let mut i: usize = 0;
        while i < n
            invariant
                n == self.graphs@.len(),
                n == self.just_traversed@.len(),
                i <= n,
                self.graphs@ == old(self).graphs@,
                forall|k: int| 0 <= k < i ==> !#[trigger] self.just_traversed@[k],
            decreases n - i,
        {
            self.just_traversed.set(i, false);
            i = i + 1;
        }
        let mut g: usize = 0;
        while g < n
            invariant
                n == self.graphs@.len(),
                n == self.just_traversed@.len(),
                n == old(self).graphs@.len(),
                g <= n,
                old(self).wf(),
                old(self).currents_valid(),
                forall|k: int| g <= k < n ==> #[trigger] self.graphs@[k] == old(self).graphs@[k],
                forall|k: int| g <= k < n ==> !#[trigger] self.just_traversed@[k],
                forall|k: int| 0 <= k < g ==> {
                    &&& (#[trigger] self.graphs@[k]).nodes@ == old(self).graphs@[k].nodes@
                    &&& self.graphs@[k].edges@ == old(self).graphs@[k].edges@
                    &&& self.graphs@[k].conditions@ == old(self).graphs@[k].conditions@
                    &&& self.graphs@[k].current_node == old(self).graphs@[k].stepped_current()
                    &&& self.just_traversed@[k] == old(self).graphs@[k].next_node() is Some
                },
            decreases n - g,
        {
            assert(self.graphs@[g as int].wf());
            assert(self.graphs@[g as int].current_valid());
            let c = self.graphs[g].current_node;
            let list = edge_list(&self.graphs[g].edges[c]);
            let next = first_active(&list, &self.graphs[g].conditions);
            let ghost og = self.graphs@[g as int];
            assert(og == old(self).graphs@[g as int]);
            let ghost prev_graphs = self.graphs@;
            proof {
                lemma_first_enabled_bounded(list@, self.graphs@[g as int].conditions@);
                assert(og.next_node() == next);
            }
            if let Some(t) = next {
                self.graphs[g].current_node = t;
                self.just_traversed.set(g, true);
            }
            assert forall|k: int| 0 <= k < g + 1 implies (#[trigger] self.graphs@[k]).nodes@ == old(self).graphs@[k].nodes@
                    && self.graphs@[k].edges@ == old(self).graphs@[k].edges@
                    && self.graphs@[k].conditions@ == old(self).graphs@[k].conditions@
                    && self.graphs@[k].current_node == old(self).graphs@[k].stepped_current()
                    && self.just_traversed@[k] == old(self).graphs@[k].next_node() is Some by {
                if k < g {
                    assert(prev_graphs[k] == self.graphs@[k]);
                } else {
                    assert(k == g);
                }
            }
            g = g + 1;
        }
        assert forall|i: int| 0 <= i < self.graphs@.len() implies #[trigger] self.graphs@[i].wf() by {
            assert(old(self).graphs@[i].wf());
        }
        assert forall|i: int| 0 <= i < self.graphs@.len() implies #[trigger] self.graphs@[i].current_valid() by {
            assert(old(self).graphs@[i].wf());
            assert(old(self).graphs@[i].current_valid());
            lemma_first_enabled_bounded(true_indices(old(self).graphs@[i].edges@[old(self).graphs@[i].current_node as int]@), old(self).graphs@[i].conditions@);
        }
    }

    /// Gets the current state of the entity by its index
    pub fn get_id_for_entity(&self, ent: usize) -> (res: ID)
        requires
            ent < self.graphs@.len(),
            self.graphs@[ent as int].current_valid(),
        ensures
            res == self.graphs@[ent as int].nodes@[self.graphs@[ent as int].current_node as int],
    {
        self.graphs[ent].get_current_node()
    }

    /// The id of the current node of graph `ident`.
    pub fn get_synthesis(&self, ident: usize) -> (res: ID)
        requires
            ident < self.graphs@.len(),
            self.graphs@[ident as int].current_valid(),
        ensures
            res == self.graphs@[ident as int].nodes@[self.graphs@[ident as int].current_node as int],
    {
        self.graphs[ident].get_current_node()
    }

    /// Moves graph `ident` to the first node with id `data`, if it has one.
    pub fn update_synthesis(&mut self, ident: usize, data: ID)
        requires
            ident < old(self).graphs@.len(),
            vstd::laws_eq::obeys_concrete_eq::<ID>(),
        ensures
            final(self).just_traversed@ == old(self).just_traversed@,
            final(self).graphs@.len() == old(self).graphs@.len(),
            forall|i: int| 0 <= i < old(self).graphs@.len() && i != ident ==> #[trigger] final(self).graphs@[i] == old(self).graphs@[i],
            final(self).graphs@[ident as int].nodes@ == old(self).graphs@[ident as int].nodes@,
            final(self).graphs@[ident as int].edges@ == old(self).graphs@[ident as int].edges@,
            final(self).graphs@[ident as int].conditions@ == old(self).graphs@[ident as int].conditions@,
            old(self).graphs@[ident as int].nodes@.contains(data) ==> is_first_pos(
                old(self).graphs@[ident as int].nodes@,
                data,
                final(self).graphs@[ident as int].current_node as int,
            ),
            !old(self).graphs@[ident as int].nodes@.contains(data)
                ==> final(self).graphs@[ident as int].current_node == old(self).graphs@[ident as int].current_node,
    {
        let pos = position_of(self.graphs[ident].nodes.as_slice(), &data);
        if let Some(idx) = pos {
            self.graphs[ident].current_node = idx;
        }
    }

    /// Adds a map of nodes to the logic.
    ///
    /// `starting_pos` is where the node the graph traversal starts on. `edges` is a list of
    /// adjacency lists. All conditions are set to false.
    pub fn add_graph<const NUM_NODES: usize>(
        &mut self,
        starting_pos: usize,
        edges: [(ID, &[ID]); NUM_NODES],
    )
        requires
            vstd::laws_eq::obeys_concrete_eq::<ID>(),
            targets_known(edges),
            old(self).graphs@.len() < usize::MAX,
            old(self).just_traversed@.len() < usize::MAX,
        ensures
            final(self).graphs@.len() == old(self).graphs@.len() + 1,
            forall|i: int| 0 <= i < old(self).graphs@.len() ==> #[trigger] final(self).graphs@[i] == old(self).graphs@[i],
            final(self).graphs@.last().nodes@ == adjacency_ids(edges),
            final(self).graphs@.last().matrix() == adjacency_matrix(edges),
            final(self).graphs@.last().current_node == starting_pos,
            final(self).graphs@.last().conditions@ == Seq::new(NUM_NODES as nat, |i: int| false),
            final(self).just_traversed@ == old(self).just_traversed@.push(false),
            old(self).wf() ==> final(self).wf(),
    {
        let graph = StateMachine::from_adjacency(starting_pos, &edges);
        self.graphs.push(graph);
        self.just_traversed.push(false);
    }
}

/// The first index of `list`, from the front, whose flag in `conds` is set.
pub fn first_active(list: &Vec<usize>, conds: &Vec<bool>) -> (res: Option<usize>)
    ensures
        res == first_enabled(list@, conds@),
{
    let mut k: usize = 0;
    assert(list@.skip(0) == list@);
    while k < list.len()
        invariant
            k <= list@.len(),
            first_enabled(list@, conds@) == first_enabled(list@.skip(k as int), conds@),
        decreases list@.len() - k,
    {
        assert(list@.skip(k as int).drop_first() == list@.skip(k + 1));
        let t = list[k];
        if t < conds.len() && conds[t] {
            return Some(t);
        }
        k = k + 1;
    }
    None
}

/// What `first_enabled` finds is a node of the condition table.
pub proof fn lemma_first_enabled_bounded(list: Seq<usize>, conds: Seq<bool>)
    ensures
        first_enabled(list, conds) matches Some(x) ==> x < conds.len() && conds[x as int],
    decreases list.len(),
{
    if list.len() > 0 {
        lemma_first_enabled_bounded(list.drop_first(), conds);
    }
}

impl<ID: Copy + Eq> Logic for FlatEntityState<ID> {
    type Reaction = EntityReaction;

    open spec fn can_handle(&self, reaction: &EntityReaction) -> bool {
        match *reaction {
            EntityReaction::Activate(graph, node) => graph < self.graphs@.len() && node
                < self.graphs@[graph as int].conditions@.len(),
            EntityReaction::Traverse(graph, node) => graph < self.graphs@.len() && graph
                < self.just_traversed@.len(),
        }
    }

    /// `Activate(graph, node)` sets the condition of `node` in `graph`; `Traverse(graph, node)`
    /// moves `graph` to `node`, clears its conditions and marks it as just traversed.
    fn handle_predicate(&mut self, reaction: &EntityReaction)
        ensures
            final(self).graphs@.len() == old(self).graphs@.len(),
            match *reaction {
                EntityReaction::Activate(graph, node) => {
                    &&& final(self).just_traversed@ == old(self).just_traversed@
                    &&& forall|i: int| 0 <= i < old(self).graphs@.len() && i != graph ==> #[trigger] final(self).graphs@[i] == old(self).graphs@[i]
                    &&& final(self).graphs@[graph as int].nodes@ == old(self).graphs@[graph as int].nodes@
                    &&& final(self).graphs@[graph as int].edges@ == old(self).graphs@[graph as int].edges@
                    &&& final(self).graphs@[graph as int].current_node == old(self).graphs@[graph as int].current_node
                    &&& final(self).graphs@[graph as int].conditions@ == old(self).graphs@[graph as int].conditions@.update(node as int, true)
                },
                EntityReaction::Traverse(graph, node) => {
                    &&& final(self).just_traversed@ == old(self).just_traversed@.update(graph as int, true)
                    &&& forall|i: int| 0 <= i < old(self).graphs@.len() && i != graph ==> #[trigger] final(self).graphs@[i] == old(self).graphs@[i]
                    &&& final(self).graphs@[graph as int].nodes@ == old(self).graphs@[graph as int].nodes@
                    &&& final(self).graphs@[graph as int].edges@ == old(self).graphs@[graph as int].edges@
                    &&& final(self).graphs@[graph as int].current_node == node
                    &&& final(self).graphs@[graph as int].conditions@ == Seq::new(old(self).graphs@[graph as int].conditions@.len(), |i: int| false)
                },
            },
    {
        match *reaction {
            EntityReaction::Activate(graph, node) => {
                self.graphs[graph].conditions.set(node, true);
            },
            EntityReaction::Traverse(graph, node) => {
                self.graphs[graph].set_current_node(node);
                self.just_traversed.set(graph, true);
            },
        }
    }
}

impl<ID: Copy + Eq> FlatEntityState<ID> {
    /// Each graph's index with the id of its current node.
    pub fn get_ident_table(&self) -> (res: Vec<(usize, ID)>)
        requires
            self.currents_valid(),
        ensures
            res@ == self.ident_table(),
    {
        let mut res: Vec<(usize, ID)> = Vec::new();
        let mut i: usize = 0;
        while i < self.graphs.len()
            invariant
                i <= self.graphs@.len(),
                self.currents_valid(),
                res@ == self.ident_table().take(i as int),
            decreases self.graphs@.len() - i,
        {
            let id = self.get_synthesis(i);
            res.push((i, id));
            i = i + 1;
            assert(res@ =~= self.ident_table().take(i as int));
        }
        assert(self.ident_table().take(i as int) =~= self.ident_table());
        res
    }

    /// For each graph in order: a `Traversed` event at its current node if it has just
    /// traversed, then an `Activated` event for each other node whose condition is set.
    pub fn get_event_table(&self) -> (res: Vec<EntityEvent>)
        requires
            self.graphs@.len() == self.just_traversed@.len(),
        ensures
            res@ == self.events_upto(self.graphs@.len() as int),
    {
        let mut events: Vec<EntityEvent> = Vec::new();
        let mut i: usize = 0;
        while i < self.graphs.len()
            invariant
                i <= self.graphs@.len(),
                self.graphs@.len() == self.just_traversed@.len(),
                events@ == self.events_upto(i as int),
            decreases self.graphs@.len() - i,
        {
            let graph = &self.graphs[i];
            let ghost before = events@;
            if self.just_traversed[i] {
                events.push(EntityEvent { graph: i, node: graph.current_node, event_type: EntityEventType::Traversed });
            }
            let ghost head = events@;
            let mut node: usize = 0;
            while node < graph.conditions.len()
                invariant
                    node <= graph.conditions@.len(),
                    events@ == head + activated_events(i as int, graph.conditions@, graph.current_node as int, node as int),
                decreases graph.conditions@.len() - node,
            {
                if graph.conditions[node] && node != graph.current_node {
                    events.push(EntityEvent { graph: i, node, event_type: EntityEventType::Activated });
                }
                node = node + 1;
            }
            assert(events@ =~= before + graph_events(i as int, self.graphs@[i as int], self.just_traversed@[i as int]));
            i = i + 1;
        }
        events
    }
}

impl<ID: Copy + Eq> OutputTable<(usize, ID)> for FlatEntityState<ID> {
    open spec fn table_ready(&self) -> bool {
        self.currents_valid()
    }

    /// Each graph's index with the id of its current node.
    open spec fn table(&self) -> Seq<(usize, ID)> {
        self.ident_table()
    }

    fn get_table(&self) -> Vec<(usize, ID)> {
        self.get_ident_table()
    }
}

impl<ID: Copy + Eq> OutputTable<EntityEvent> for FlatEntityState<ID> {
    open spec fn table_ready(&self) -> bool {
        self.graphs@.len() == self.just_traversed@.len()
    }

    /// The events of every graph, graph by graph.
    open spec fn table(&self) -> Seq<EntityEvent> {
        self.events_upto(self.graphs@.len() as int)
    }

    fn get_table(&self) -> Vec<EntityEvent> {
        self.get_event_table()
    }
}

} // verus!
