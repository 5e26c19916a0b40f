use asterism::data::{
    CollisionEvent, CollisionReaction, Data, EventWrapper, ReactionWrapper, COLLISION, PHYSICS, RESOURCE,
};
use asterism::physics::{PhysicsEvent, PhysicsReaction};
use asterism::resources::{ResourceEvent, ResourceEventType, Transaction};

type Game = Data<u32, u32, i64>;

#[test]
fn new_data_is_empty() {
    let d: Game = Data::new();
    assert!(d.events.physics.is_empty());
    assert!(d.events.collision.is_empty());
    assert!(d.events.resource.is_empty());
    assert!(d.reactions.physics.is_empty());
    assert!(d.reactions.collision.is_empty());
    assert!(d.reactions.resource.is_empty());
    assert!(d.graph.is_empty());
}

#[test]
fn reactions_come_back_in_order() {
    let mut d: Game = Data::new();
    let ev = EventWrapper::Physics(PhysicsEvent::PosChange);
    d.add_interaction(ev, ReactionWrapper::Physics(PhysicsReaction::SetPos(0, 1)));
    d.add_interaction(ev, ReactionWrapper::GameState);
    d.add_interaction(ev, ReactionWrapper::Collision(CollisionReaction(4)));
    assert_eq!(
        d.get_reaction(ev),
        Some(vec![
            ReactionWrapper::Physics(PhysicsReaction::SetPos(0, 1)),
            ReactionWrapper::GameState,
            ReactionWrapper::Collision(CollisionReaction(4)),
        ])
    );
    assert_eq!(d.graph.get(&(PHYSICS, 0)), Some(&vec![Some((PHYSICS, 0)), None, Some((COLLISION, 0))]));
}

#[test]
fn events_and_reactions_are_kept_once() {
    let mut d: Game = Data::new();
    let touch = EventWrapper::Collision(CollisionEvent(1, 2));
    let pay = ReactionWrapper::Resource((7, Transaction::Change(5)));
    d.add_interaction(touch, pay);
    d.add_interaction(touch, ReactionWrapper::Resource((7, Transaction::Change(5))));
    d.add_interaction(EventWrapper::Collision(CollisionEvent(2, 1)), ReactionWrapper::Resource((7, Transaction::Change(6))));
    assert_eq!(d.events.collision, vec![CollisionEvent(1, 2), CollisionEvent(2, 1)]);
    assert_eq!(d.reactions.resource, vec![(7, Transaction::Change(5)), (7, Transaction::Change(6))]);
    assert_eq!(d.graph.get(&(COLLISION, 0)), Some(&vec![Some((RESOURCE, 0)), Some((RESOURCE, 0))]));
    assert_eq!(d.graph.get(&(COLLISION, 1)), Some(&vec![Some((RESOURCE, 1))]));
    assert_eq!(
        d.get_reaction(EventWrapper::Collision(CollisionEvent(2, 1))),
        Some(vec![ReactionWrapper::Resource((7, Transaction::Change(6)))])
    );
}

#[test]
fn unknown_event_has_no_reactions() {
    let mut d: Game = Data::new();
    d.add_interaction(EventWrapper::Physics(PhysicsEvent::PosChange), ReactionWrapper::GameState);
    assert_eq!(d.get_reaction(EventWrapper::Physics(PhysicsEvent::VelChange)), None);
    let ev = ResourceEvent { pool: 3, event_type: ResourceEventType::PoolUpdated };
    assert_eq!(d.get_reaction(EventWrapper::Resource(ev)), None);
    // an event in its list but without an entry in the graph has none either
    d.events.resource.push(ev);
    assert_eq!(d.get_reaction(EventWrapper::Resource(ev)), None);
}

#[test]
fn game_state_reaction_adds_no_reaction() {
    let mut d: Game = Data::new();
    let ev = EventWrapper::Resource(ResourceEvent { pool: 1, event_type: ResourceEventType::PoolUpdated });
    d.add_interaction(ev, ReactionWrapper::GameState);
    assert!(d.reactions.physics.is_empty() && d.reactions.collision.is_empty() && d.reactions.resource.is_empty());
    assert_eq!(d.events.resource.len(), 1);
    assert_eq!(d.get_reaction(ev), Some(vec![ReactionWrapper::GameState]));
}
