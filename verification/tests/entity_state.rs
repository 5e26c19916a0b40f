use asterism::entity_state::{first_active, EntityEvent, EntityEventType, EntityReaction, FlatEntityState};
use asterism::Logic;

fn door() -> FlatEntityState<char> {
    // closed -> open, closed -> locked, open -> closed, locked -> closed
    let mut es: FlatEntityState<char> = FlatEntityState::new();
    es.add_graph(0, [('c', &['o', 'l'][..]), ('o', &['c'][..]), ('l', &['c'][..])]);
    es
}

#[test]
fn add_graph_starts_with_no_traversal() {
    let es = door();
    assert_eq!(es.graphs.len(), 1);
    assert_eq!(es.just_traversed, vec![false]);
    assert_eq!(es.get_id_for_entity(0), 'c');
    assert_eq!(es.graphs[0].conditions, vec![false; 3]);
}

#[test]
fn update_follows_lowest_enabled_edge() {
    let mut es = door();
    es.handle_predicate(&EntityReaction::Activate(0, 2));
    es.handle_predicate(&EntityReaction::Activate(0, 1));
    es.update();
    assert_eq!(es.graphs[0].current_node, 1);
    assert_eq!(es.just_traversed, vec![true]);
    assert_eq!(es.get_id_for_entity(0), 'o');
}

#[test]
fn update_without_enabled_edge_stays() {
    let mut es = door();
    // node 0 has no edge to itself
    es.handle_predicate(&EntityReaction::Activate(0, 0));
    es.update();
    assert_eq!(es.graphs[0].current_node, 0);
    assert_eq!(es.just_traversed, vec![false]);
}

#[test]
fn update_keeps_conditions() {
    let mut es = door();
    es.handle_predicate(&EntityReaction::Activate(0, 1));
    es.update();
    assert_eq!(es.graphs[0].conditions, vec![false, true, false]);
    // from node 1 the only edge is to node 0, whose condition is unset
    es.update();
    assert_eq!(es.graphs[0].current_node, 1);
    assert_eq!(es.just_traversed, vec![false]);
}

#[test]
fn traverse_reaction_moves_and_clears_conditions() {
    let mut es = door();
    es.handle_predicate(&EntityReaction::Activate(0, 1));
    es.handle_predicate(&EntityReaction::Traverse(0, 2));
    assert_eq!(es.graphs[0].current_node, 2);
    assert_eq!(es.graphs[0].conditions, vec![false; 3]);
    assert_eq!(es.just_traversed, vec![true]);
}

#[test]
fn event_table_lists_traversal_then_activations() {
    let mut es = door();
    es.handle_predicate(&EntityReaction::Traverse(0, 1));
    es.handle_predicate(&EntityReaction::Activate(0, 0));
    es.handle_predicate(&EntityReaction::Activate(0, 1));
    es.handle_predicate(&EntityReaction::Activate(0, 2));
    let events = es.get_event_table();
    assert_eq!(
        events,
        vec![
            EntityEvent { graph: 0, node: 1, event_type: EntityEventType::Traversed },
            EntityEvent { graph: 0, node: 0, event_type: EntityEventType::Activated },
            EntityEvent { graph: 0, node: 2, event_type: EntityEventType::Activated },
        ]
    );
    assert_eq!(*events[0].get_type(), EntityEventType::Traversed);
}

#[test]
fn ident_table_pairs_graphs_with_current_ids() {
    let mut es = door();
    es.add_graph(1, [('x', &[][..]), ('y', &[][..])]);
    assert_eq!(es.get_ident_table(), vec![(0, 'c'), (1, 'y')]);
    assert_eq!(es.get_synthesis(1), 'y');
}

#[test]
fn update_synthesis_moves_to_first_node_with_id() {
    let mut es = door();
    es.update_synthesis(0, 'l');
    assert_eq!(es.graphs[0].current_node, 2);
    es.update_synthesis(0, 'z');
    assert_eq!(es.graphs[0].current_node, 2);
}

#[test]
fn first_active_picks_first_listed_enabled() {
    assert_eq!(first_active(&vec![2, 0, 1], &vec![true, false, true]), Some(2));
    assert_eq!(first_active(&vec![1, 5], &vec![true, false]), None);
}
