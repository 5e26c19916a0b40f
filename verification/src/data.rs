//! # Interaction data
//!
//! A registry of which reactions follow which events. Events and reactions are kept once each,
//! in one list per logic; the interaction graph maps an event, by its logic and its index in
//! that logic's list, to the reactions it triggers, in the order they were added. A reaction
//! on the game state itself is kept as an empty entry.

use std::collections::BTreeMap;
use vstd::prelude::*;

use crate::physics::{PhysicsEvent, PhysicsReaction};
use crate::resources::{ResourceError, ResourceEvent, ResourceEventType, Transaction};

verus! {

use vstd::std_specs::cmp::PartialEqSpec;

broadcast use vstd::std_specs::btree::group_btree_axioms;

/// The tag of the physics logic.
pub const PHYSICS: u8 = 0;

/// The tag of the collision logic.
pub const COLLISION: u8 = 1;

/// The tag of the resource logic.
pub const RESOURCE: u8 = 2;

/// Two collision entities touch.
#[derive(Debug, PartialEq, Eq, Clone, Copy)]
pub struct CollisionEvent<ID>(pub ID, pub ID);

/// A change to the collision world, given by its handle in the game's own table.
#[derive(Debug, PartialEq, Eq, Clone, Copy)]
pub struct CollisionReaction(pub usize);

/// A resource reaction: a transaction on a pool.
pub type ResourceReaction<PoolID, Value> = (PoolID, Transaction<Value>);

/// An event of one of the logics.
#[derive(Debug, Clone, Copy, PartialEq)]
pub enum EventWrapper<CollisionID, PoolID> {
    Physics(PhysicsEvent),
    Collision(CollisionEvent<CollisionID>),
    Resource(ResourceEvent<PoolID>),
}

/// A reaction of one of the logics, or one on the game state.
#[derive(Debug, PartialEq)]
pub enum ReactionWrapper<PoolID, Value> {
    Physics(PhysicsReaction),
    Collision(CollisionReaction),
    Resource(ResourceReaction<PoolID, Value>),
    GameState,
}

/// A value whose `==` can be decided, where its parts' equality follows their values.
pub trait Comparable: Sized {
    /// The equality of the parts follows their values.
    spec fn eq_laws() -> bool;

    /// `self` and `other` are the same value.
    fn same(&self, other: &Self) -> (res: bool)
        requires
            Self::eq_laws(),
        ensures
            res == (*self == *other),
    ;
}

/// The equality of `T` is that of its values.
pub open spec fn eq_follows_values<T: PartialEq>() -> bool {
    vstd::laws_eq::obeys_concrete_eq::<T>()
}

fn same_value<T: Copy + Eq>(a: &T, b: &T) -> (res: bool)
    requires
        eq_follows_values::<T>(),
    ensures
        res == (*a == *b),
{
    proof {
        reveal(vstd::laws_eq::obeys_concrete_eq);
    }
    *a == *b
}

impl Comparable for PhysicsEvent {
    open spec fn eq_laws() -> bool {
        true
    }

    fn same(&self, other: &Self) -> (res: bool) {
        match (*self, *other) {
            (PhysicsEvent::VelChange, PhysicsEvent::VelChange) => true,
            (PhysicsEvent::PosChange, PhysicsEvent::PosChange) => true,
            _ => false,
        }
    }
}

impl<ID: Copy + Eq> Comparable for CollisionEvent<ID> {
    open spec fn eq_laws() -> bool {
        eq_follows_values::<ID>()
    }

    fn same(&self, other: &Self) -> (res: bool) {
        same_value(&self.0, &other.0) && same_value(&self.1, &other.1)
    }
}

fn same_error(a: ResourceError, b: ResourceError) -> (res: bool)
    ensures
        res == (a == b),
{
    match (a, b) {
        (ResourceError::PoolNotFound, ResourceError::PoolNotFound) => true,
        (ResourceError::TooBig, ResourceError::TooBig) => true,
        (ResourceError::TooSmall, ResourceError::TooSmall) => true,
        _ => false,
    }
}

impl<ID: Copy + Eq> Comparable for ResourceEvent<ID> {
    open spec fn eq_laws() -> bool {
        eq_follows_values::<ID>()
    }

    fn same(&self, other: &Self) -> (res: bool) {
        same_value(&self.pool, &other.pool) && match (self.event_type, other.event_type) {
            (ResourceEventType::PoolUpdated, ResourceEventType::PoolUpdated) => true,
            (ResourceEventType::TransactionUnsuccessful(a), ResourceEventType::TransactionUnsuccessful(b)) => same_error(a, b),
            _ => false,
        }
    }
}

impl Comparable for PhysicsReaction {
    open spec fn eq_laws() -> bool {
        true
    }

    fn same(&self, other: &Self) -> (res: bool) {
        match (*self, *other) {
            (PhysicsReaction::SetPos(a, b), PhysicsReaction::SetPos(c, d)) => a == c && b == d,
            (PhysicsReaction::SetVel(a, b), PhysicsReaction::SetVel(c, d)) => a == c && b == d,
            (PhysicsReaction::SetAcc(a, b), PhysicsReaction::SetAcc(c, d)) => a == c && b == d,
            (PhysicsReaction::RemoveBody(a), PhysicsReaction::RemoveBody(c)) => a == c,
            (
                PhysicsReaction::AddBody { pos: a, vel: b, acc: c },
                PhysicsReaction::AddBody { pos: d, vel: e, acc: f },
            ) => a == d && b == e && c == f,
            _ => false,
        }
    }
}

impl Comparable for CollisionReaction {
    open spec fn eq_laws() -> bool {
        true
    }

    fn same(&self, other: &Self) -> (res: bool) {
        self.0 == other.0
    }
}

impl<ID: Copy + Eq, Value: Copy + Eq> Comparable for (ID, Transaction<Value>) {
    open spec fn eq_laws() -> bool {
        eq_follows_values::<ID>() && eq_follows_values::<Value>()
    }

    fn same(&self, other: &Self) -> (res: bool) {
        same_value(&self.0, &other.0) && match (self.1, other.1) {
            (Transaction::Change(a), Transaction::Change(b)) => same_value(&a, &b),
            (Transaction::SetValue(a), Transaction::SetValue(b)) => same_value(&a, &b),
            (Transaction::SetMax(a), Transaction::SetMax(b)) => same_value(&a, &b),
            (Transaction::SetMin(a), Transaction::SetMin(b)) => same_value(&a, &b),
            _ => false,
        }
    }
}

/// No value occurs twice in `s`.
pub open spec fn no_repeats<T>(s: Seq<T>) -> bool {
    forall|i: int, j: int| 0 <= i < j < s.len() ==> s[i] != s[j]
}

/// The index of `x` in `s`, if `s` holds it.
pub open spec fn index_in<T>(s: Seq<T>, x: T) -> Option<int> {
    if s.contains(x) {
        Some(choose|i: int| 0 <= i < s.len() && s[i] == x)
    } else {
        None
    }
}

/// `s` with `x` added at the end, unless it holds `x` already.
pub open spec fn with_value<T>(s: Seq<T>, x: T) -> Seq<T> {
    if s.contains(x) {
        s
    } else {
        s.push(x)
    }
}

/// In a list without repeats, `i` is the index of `x` exactly when it holds `x` there.
pub proof fn lemma_index_in<T>(s: Seq<T>, x: T, i: int)
    requires
        no_repeats(s),
        0 <= i < s.len(),
        s[i] == x,
    ensures
        index_in(s, x) == Some(i),
{
    assert(s.contains(x));
    let k = choose|k: int| 0 <= k < s.len() && s[k] == x;
    if k != i {
        if k < i {
            assert(s[k] != s[i]);
        } else {
            assert(s[i] != s[k]);
        }
    }
}

/// The index of `x` in `list`.
pub fn position<T: Comparable>(list: &Vec<T>, x: &T) -> (res: Option<usize>)
    requires
        T::eq_laws(),
        no_repeats(list@),
    ensures
        match res {
            Some(i) => index_in(list@, *x) == Some(i as int) && i < list@.len(),
            None => index_in(list@, *x) is None,
        },
{
    let mut i: usize = 0;
    while i < list.len()
        invariant
            T::eq_laws(),
            no_repeats(list@),
            i <= list@.len(),
            forall|k: int| 0 <= k < i ==> list@[k] != *x,
        decreases list@.len() - i,
    {
        if list[i].same(x) {
            proof {
                lemma_index_in(list@, *x, i as int);
            }
            return Some(i);
        }
        i = i + 1;
    }
    None
}

/// The index of `x` in `list`, which gets `x` at its end if it did not hold it.
pub fn find_or_push<T: Comparable>(list: &mut Vec<T>, x: T) -> (res: usize)
    requires
        T::eq_laws(),
        no_repeats(old(list)@),
    ensures
        final(list)@ == with_value(old(list)@, x),
        no_repeats(final(list)@),
        index_in(final(list)@, x) == Some(res as int),
        res < final(list)@.len(),
{
    match position(list, &x) {
        Some(i) => i,
        None => {
            list.push(x);
            let i = list.len() - 1;
            proof {
                assert(list@[i as int] == x);
                lemma_index_in(list@, x, i as int);
            }
            i
        },
    }
}

/// The graph `g` with `entry` added at the end of the reactions of `key`.
pub open spec fn with_entry(
    g: Map<(u8, usize), Seq<Option<(u8, usize)>>>,
    key: (u8, usize),
    entry: Option<(u8, usize)>,
) -> Map<(u8, usize), Seq<Option<(u8, usize)>>> {
    g.insert(key, (if g.contains_key(key) { g[key] } else { Seq::empty() }).push(entry))
}

/// Graph keys are ordered by their values.
proof fn lemma_key_order()
    ensures
        vstd::laws_cmp::obeys_cmp::<(u8, usize)>(),
{
    broadcast use vstd::laws_cmp::group_laws_cmp;
}

/// The events that have reactions, one list per logic.
pub struct Events<CollisionID, PoolID> {
    pub physics: Vec<PhysicsEvent>,
    pub collision: Vec<CollisionEvent<CollisionID>>,
    pub resource: Vec<ResourceEvent<PoolID>>,
}

/// The reactions that follow events, one list per logic.
pub struct Reactions<PoolID, Value> {
    pub physics: Vec<PhysicsReaction>,
    pub collision: Vec<CollisionReaction>,
    pub resource: Vec<ResourceReaction<PoolID, Value>>,
}

/// The events and reactions of a game, and which reactions follow which events.
pub struct Data<CollisionID, PoolID, Value> {
    pub events: Events<CollisionID, PoolID>,
    pub reactions: Reactions<PoolID, Value>,
    /// From an event (its logic's tag and its index in that logic's list) to the reactions
    /// that follow it, in order: a reaction by its logic's tag and index, or nothing for a
    /// reaction on the game state.
    pub graph: BTreeMap<(u8, usize), Vec<Option<(u8, usize)>>>,
}

/// The tag of the logic an event belongs to.
pub open spec fn event_tag<C, P>(event: EventWrapper<C, P>) -> u8 {
    match event {
        EventWrapper::Physics(_) => PHYSICS,
        EventWrapper::Collision(_) => COLLISION,
        EventWrapper::Resource(_) => RESOURCE,
    }
}

/// The tag of the logic a reaction belongs to; the game state has none.
pub open spec fn reaction_tag<P, V>(reaction: ReactionWrapper<P, V>) -> Option<u8> {
    match reaction {
        ReactionWrapper::Physics(_) => Some(PHYSICS),
        ReactionWrapper::Collision(_) => Some(COLLISION),
        ReactionWrapper::Resource(_) => Some(RESOURCE),
        ReactionWrapper::GameState => None,
    }
}

/// The equality of the ids and values follows their values.
pub open spec fn data_laws<C: PartialEq, P: PartialEq, V: PartialEq>() -> bool {
    &&& eq_follows_values::<C>()
    &&& eq_follows_values::<P>()
    &&& eq_follows_values::<V>()
}

impl<CollisionID: Copy + Eq, PoolID: Copy + Eq, Value: Copy + Eq> Data<CollisionID, PoolID, Value> {
    /// The interaction graph, with each list of reactions as a sequence.
    pub open spec fn graph_view(&self) -> Map<(u8, usize), Seq<Option<(u8, usize)>>> {
        self.graph@.map_values(|v: Vec<Option<(u8, usize)>>| v@)
    }

    /// The number of events of the logic tagged `tag`.
    pub open spec fn event_count(&self, tag: u8) -> nat {
        if tag == PHYSICS {
            self.events.physics@.len()
        } else if tag == COLLISION {
            self.events.collision@.len()
        } else if tag == RESOURCE {
            self.events.resource@.len()
        } else {
            0
        }
    }

    /// The number of reactions of the logic tagged `tag`.
    pub open spec fn reaction_count(&self, tag: u8) -> nat {
        if tag == PHYSICS {
            self.reactions.physics@.len()
        } else if tag == COLLISION {
            self.reactions.collision@.len()
        } else if tag == RESOURCE {
            self.reactions.resource@.len()
        } else {
            0
        }
    }

    /// The index of `event` in its logic's list, if it is there.
    pub open spec fn event_index(&self, event: EventWrapper<CollisionID, PoolID>) -> Option<int> {
        match event {
            EventWrapper::Physics(e) => index_in(self.events.physics@, e),
            EventWrapper::Collision(e) => index_in(self.events.collision@, e),
            EventWrapper::Resource(e) => index_in(self.events.resource@, e),
        }
    }

    /// The index of `reaction` in its logic's list, if it is there.
    pub open spec fn reaction_index(&self, reaction: ReactionWrapper<PoolID, Value>) -> Option<int> {
        match reaction {
            ReactionWrapper::Physics(r) => index_in(self.reactions.physics@, r),
            ReactionWrapper::Collision(r) => index_in(self.reactions.collision@, r),
            ReactionWrapper::Resource(r) => index_in(self.reactions.resource@, r),
            ReactionWrapper::GameState => None,
        }
    }

    /// The reaction that a graph entry stands for.
    pub open spec fn reaction_of(&self, entry: Option<(u8, usize)>) -> ReactionWrapper<PoolID, Value> {
        match entry {
            Some((tag, i)) => if tag == PHYSICS {
                ReactionWrapper::Physics(self.reactions.physics@[i as int])
            } else if tag == COLLISION {
                ReactionWrapper::Collision(self.reactions.collision@[i as int])
            } else {
                ReactionWrapper::Resource(self.reactions.resource@[i as int])
            },
            None => ReactionWrapper::GameState,
        }
    }

    /// No list holds a value twice; every event in the graph, and every reaction it leads
    /// to, is in its logic's list.
    pub open spec fn wf(&self) -> bool {
        &&& no_repeats(self.events.physics@)
        &&& no_repeats(self.events.collision@)
        &&& no_repeats(self.events.resource@)
        &&& no_repeats(self.reactions.physics@)
        &&& no_repeats(self.reactions.collision@)
        &&& no_repeats(self.reactions.resource@)
        &&& forall|key: (u8, usize)| #[trigger] self.graph_view().contains_key(key) ==> {
            &&& key.0 <= RESOURCE
            &&& key.1 < self.event_count(key.0)
            &&& forall|k: int| 0 <= k < self.graph_view()[key].len() ==> match #[trigger] self.graph_view()[key][k] {
                Some((tag, i)) => tag <= RESOURCE && i < self.reaction_count(tag),
                None => true,
            }
        }
    }

    pub fn new() -> (res: Self)
        ensures
            res.events.physics@ == Seq::<PhysicsEvent>::empty(),
            res.events.collision@ == Seq::<CollisionEvent<CollisionID>>::empty(),
            res.events.resource@ == Seq::<ResourceEvent<PoolID>>::empty(),
            res.reactions.physics@ == Seq::<PhysicsReaction>::empty(),
            res.reactions.collision@ == Seq::<CollisionReaction>::empty(),
            res.reactions.resource@ == Seq::<ResourceReaction<PoolID, Value>>::empty(),
            res.graph_view() == Map::<(u8, usize), Seq<Option<(u8, usize)>>>::empty(),
            res.wf(),
    {
        let res = Self {
            events: Events { physics: Vec::new(), collision: Vec::new(), resource: Vec::new() },
            reactions: Reactions { physics: Vec::new(), collision: Vec::new(), resource: Vec::new() },
            graph: BTreeMap::new(),
        };
        assert(res.graph_view() =~= Map::<(u8, usize), Seq<Option<(u8, usize)>>>::empty());
        res
    }

    /// Records that `reaction` follows `event`: each is added to its logic's list unless it
    /// is there already (a reaction on the game state is kept in no list), and the reaction
    /// goes at the end of the event's reactions in the graph.
    pub fn add_interaction(&mut self, event: EventWrapper<CollisionID, PoolID>, reaction: ReactionWrapper<PoolID, Value>)
        requires
            old(self).wf(),
            data_laws::<CollisionID, PoolID, Value>(),
        ensures
            final(self).wf(),
            final(self).events.physics@ == match event {
                EventWrapper::Physics(e) => with_value(old(self).events.physics@, e),
                _ => old(self).events.physics@,
            },
            final(self).events.collision@ == match event {
                EventWrapper::Collision(e) => with_value(old(self).events.collision@, e),
                _ => old(self).events.collision@,
            },
            final(self).events.resource@ == match event {
                EventWrapper::Resource(e) => with_value(old(self).events.resource@, e),
                _ => old(self).events.resource@,
            },
            final(self).reactions.physics@ == match reaction {
                ReactionWrapper::Physics(r) => with_value(old(self).reactions.physics@, r),
                _ => old(self).reactions.physics@,
            },
            final(self).reactions.collision@ == match reaction {
                ReactionWrapper::Collision(r) => with_value(old(self).reactions.collision@, r),
                _ => old(self).reactions.collision@,
            },
            final(self).reactions.resource@ == match reaction {
                ReactionWrapper::Resource(r) => with_value(old(self).reactions.resource@, r),
                _ => old(self).reactions.resource@,
            },
            final(self).event_index(event) is Some,
            reaction !is GameState ==> final(self).reaction_index(reaction) is Some,
            final(self).graph_view() == with_entry(
                old(self).graph_view(),
                (event_tag(event), final(self).event_index(event)->Some_0 as usize),
                match reaction_tag(reaction) {
                    Some(tag) => Some((tag, final(self).reaction_index(reaction)->Some_0 as usize)),
                    None => None,
                },
            ),
    {
        proof {
            lemma_key_order();
        }
        let ghost old_data = *self;
        let (tag, idx) = match event {
            EventWrapper::Physics(e) => (PHYSICS, find_or_push(&mut self.events.physics, e)),
            EventWrapper::Collision(e) => (COLLISION, find_or_push(&mut self.events.collision, e)),
            EventWrapper::Resource(e) => (RESOURCE, find_or_push(&mut self.events.resource, e)),
        };
        let entry: Option<(u8, usize)> = match reaction {
            ReactionWrapper::Physics(r) => Some((PHYSICS, find_or_push(&mut self.reactions.physics, r))),
            ReactionWrapper::Collision(r) => Some((COLLISION, find_or_push(&mut self.reactions.collision, r))),
            ReactionWrapper::Resource(r) => Some((RESOURCE, find_or_push(&mut self.reactions.resource, r))),
            ReactionWrapper::GameState => None,
        };
        let ghost mid = self.graph_view();
        assert(mid == old_data.graph_view());
        let key = (tag, idx);
        let mut list = match self.graph.remove(&key) {
            Some(v) => v,
            None => Vec::new(),
        };
        let ghost before = list@;
        assert(before == if mid.contains_key(key) { mid[key] } else { Seq::empty() });
        list.push(entry);
        self.graph.insert(key, list);
        assert(self.graph_view() =~= with_entry(mid, key, entry));
        proof {
            assert forall|t: u8| #[trigger] self.event_count(t) >= old_data.event_count(t) by {}
            assert forall|t: u8| #[trigger] self.reaction_count(t) >= old_data.reaction_count(t) by {}
            assert forall|k: (u8, usize)| #[trigger] self.graph_view().contains_key(k) implies {
                &&& k.0 <= RESOURCE
                &&& k.1 < self.event_count(k.0)
                &&& forall|j: int| 0 <= j < self.graph_view()[k].len() ==> match #[trigger] self.graph_view()[k][j] {
                    Some((t, i)) => t <= RESOURCE && i < self.reaction_count(t),
                    None => true,
                }
            } by {
                assert(self.event_count(k.0) >= old_data.event_count(k.0));
                if k == key {
                    assert forall|j: int| 0 <= j < self.graph_view()[k].len() implies match #[trigger] self.graph_view()[k][j] {
                        Some((t, i)) => t <= RESOURCE && i < self.reaction_count(t),
                        None => true,
                    } by {
                        if j < before.len() {
                            assert(self.graph_view()[k][j] == mid[k][j]);
                            match mid[k][j] {
                                Some((t, i)) => {
                                    assert(self.reaction_count(t) >= old_data.reaction_count(t));
                                },
                                None => {},
                            }
                        }
                    }
                } else {
                    assert(self.graph_view()[k] == mid[k]);
                    assert forall|j: int| 0 <= j < self.graph_view()[k].len() implies match #[trigger] self.graph_view()[k][j] {
                        Some((t, i)) => t <= RESOURCE && i < self.reaction_count(t),
                        None => true,
                    } by {
                        match mid[k][j] {
                            Some((t, i)) => {
                                assert(self.reaction_count(t) >= old_data.reaction_count(t));
                            },
                            None => {},
                        }
                    }
                }
            }
        }
    }

    /// The reactions that follow `event`, in the order they were added, or `None` where the
    /// event is unknown or has no reactions recorded.
    pub fn get_reaction(&self, event: EventWrapper<CollisionID, PoolID>) -> (res: Option<Vec<ReactionWrapper<PoolID, Value>>>)
        requires
            self.wf(),
            data_laws::<CollisionID, PoolID, Value>(),
        ensures
            match self.event_index(event) {
                None => res is None,
                Some(i) => {
                    let key = (event_tag(event), i as usize);
                    if self.graph_view().contains_key(key) {
                        res matches Some(v) && v@ == self.graph_view()[key].map_values(|e: Option<(u8, usize)>| self.reaction_of(e))
                    } else {
                        res is None
                    }
                },
            },
    {
        proof {
            lemma_key_order();
        }
        let found = match event {
            EventWrapper::Physics(e) => match position(&self.events.physics, &e) {
                Some(i) => Some((PHYSICS, i)),
                None => None,
            },
            EventWrapper::Collision(e) => match position(&self.events.collision, &e) {
                Some(i) => Some((COLLISION, i)),
                None => None,
            },
            EventWrapper::Resource(e) => match position(&self.events.resource, &e) {
                Some(i) => Some((RESOURCE, i)),
                None => None,
            },
        };
        let key = match found {
            Some(k) => k,
            None => {
                return None;
            },
        };
        let entries = match self.graph.get(&key) {
            Some(v) => v,
            None => {
                return None;
            },
        };
        assert(self.graph_view().contains_key(key));
        assert(entries@ == self.graph_view()[key]);
        let mut res: Vec<ReactionWrapper<PoolID, Value>> = Vec::new();
        let mut j: usize = 0;
        while j < entries.len()
            invariant
                self.wf(),
                self.graph_view().contains_key(key),
                entries@ == self.graph_view()[key],
                j <= entries@.len(),
                res@.len() == j,
                forall|k: int| 0 <= k < j ==> #[trigger] res@[k] == self.reaction_of(entries@[k]),
            decreases entries@.len() - j,
        {
            assert(match entries@[j as int] {
                Some((t, i)) => t <= RESOURCE && i < self.reaction_count(t),
                None => true,
            });
            let r = match entries[j] {
                Some((t, i)) => if t == PHYSICS {
                    ReactionWrapper::Physics(self.reactions.physics[i])
                } else if t == COLLISION {
                    ReactionWrapper::Collision(self.reactions.collision[i])
                } else {
                    ReactionWrapper::Resource(self.reactions.resource[i])
                },
                None => ReactionWrapper::GameState,
            };
            res.push(r);
            j = j + 1;
        }
        assert(res@ =~= self.graph_view()[key].map_values(|e: Option<(u8, usize)>| self.reaction_of(e)));
        Some(res)
    }
}

} // verus!
