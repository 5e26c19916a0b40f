use asterism::linking::{GraphedLinking, LinkingEvent, LinkingEventType, LinkingReaction};
use asterism::Logic;

fn rooms() -> GraphedLinking<u8> {
    let mut l: GraphedLinking<u8> = GraphedLinking::new();
    l.add_graph(0, [(1, &[2, 3][..]), (2, &[1][..]), (3, &[1][..])]);
    l
}

#[test]
fn linking_update_records_the_node_left() {
    let mut l = rooms();
    l.handle_predicate(&LinkingReaction::Activate(0, 2));
    l.update();
    assert_eq!(l.graphs[0].current_node, 2);
    assert_eq!(l.just_traversed, vec![Some(0)]);
    assert_eq!(l.get_id_for_entity(0), 3);
}

#[test]
fn linking_update_without_enabled_edge() {
    let mut l = rooms();
    l.update();
    assert_eq!(l.graphs[0].current_node, 0);
    assert_eq!(l.just_traversed, vec![None]);
}

#[test]
fn linking_traverse_reaction() {
    let mut l = rooms();
    l.handle_predicate(&LinkingReaction::Activate(0, 1));
    l.handle_predicate(&LinkingReaction::Traverse(0, 1));
    assert_eq!(l.graphs[0].current_node, 1);
    assert_eq!(l.graphs[0].conditions, vec![false; 3]);
    assert_eq!(l.just_traversed, vec![Some(0)]);
}

#[test]
fn linking_event_table() {
    let mut l = rooms();
    l.handle_predicate(&LinkingReaction::Activate(0, 1));
    l.update();
    l.handle_predicate(&LinkingReaction::Activate(0, 0));
    let events = l.get_event_table();
    assert_eq!(
        events,
        vec![
            LinkingEvent { graph: 0, node: 1, event_type: LinkingEventType::Traversed(0) },
            LinkingEvent { graph: 0, node: 0, event_type: LinkingEventType::Activated },
        ]
    );
    assert_eq!(*events[0].get_type(), LinkingEventType::Traversed(0));
}

#[test]
fn linking_ident_table_and_synthesis() {
    let mut l = rooms();
    l.update_synthesis(0, 2);
    assert_eq!(l.get_ident_table(), vec![(0, 2)]);
    assert_eq!(l.get_synthesis(0), 2);
}
