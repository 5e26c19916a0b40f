use asterism::graph::{edge_list, StateMachine};

fn three_nodes() -> StateMachine<u32> {
    let mut sm: StateMachine<u32> = StateMachine::new();
    sm.add_nodes(&[10, 20, 30]);
    sm
}

#[test]
fn new_state_machine_is_empty() {
    let sm: StateMachine<u32> = StateMachine::new();
    assert!(sm.nodes.is_empty());
    assert!(sm.edges.is_empty());
    assert!(sm.conditions.is_empty());
    assert_eq!(sm.current_node, 0);
}

#[test]
fn add_nodes_makes_square_matrix_of_false() {
    let sm = three_nodes();
    assert_eq!(sm.nodes, vec![10, 20, 30]);
    assert_eq!(sm.edges, vec![vec![false; 3]; 3]);
    assert_eq!(sm.conditions, vec![false; 3]);
}

#[test]
fn add_node_grows_matrix_by_one() {
    let mut sm: StateMachine<u32> = StateMachine::new();
    sm.add_node(7);
    assert_eq!(sm.edges, vec![vec![false]]);
    sm.add_node(8);
    assert_eq!(sm.edges, vec![vec![false, false], vec![false, false]]);
    assert_eq!(sm.conditions, vec![false, false]);
}

#[test]
fn add_edge_then_edge_exists() {
    let mut sm = three_nodes();
    sm.add_edge(0, 2);
    assert!(sm.edge_exists(0, 2));
    assert!(!sm.edge_exists(2, 0));
    assert!(!sm.edge_exists(0, 1));
    assert_eq!(sm.get_edges(0), vec![2]);
    assert_eq!(sm.get_edges(2), Vec::<usize>::new());
}

#[test]
fn add_edge_twice_is_the_same_as_once() {
    let mut sm = three_nodes();
    sm.add_edge(1, 0);
    let once = sm.edges.clone();
    sm.add_edge(1, 0);
    assert_eq!(sm.edges, once);
}

#[test]
fn add_node_keeps_existing_edges_and_conditions() {
    let mut sm = three_nodes();
    sm.add_edge(0, 1);
    sm.add_edge(2, 0);
    sm.conditions[1] = true;
    sm.add_node(40);
    assert!(sm.edge_exists(0, 1));
    assert!(sm.edge_exists(2, 0));
    assert_eq!(sm.get_edges(3), Vec::<usize>::new());
    assert_eq!(sm.edges[0][3], false);
    assert_eq!(sm.conditions, vec![false, true, false, false]);
}

#[test]
fn get_edges_lists_targets_in_increasing_order() {
    let mut sm = three_nodes();
    sm.add_edge(1, 2);
    sm.add_edge(1, 0);
    assert_eq!(sm.get_edges(1), vec![0, 2]);
}

#[test]
fn set_current_node_clears_conditions() {
    let mut sm = three_nodes();
    sm.conditions[0] = true;
    sm.conditions[2] = true;
    sm.set_current_node(2);
    assert_eq!(sm.current_node, 2);
    assert_eq!(sm.conditions, vec![false; 3]);
    assert_eq!(sm.get_current_node(), 30);
}

#[test]
fn from_adjacency_builds_edges_to_first_node_with_id() {
    let sm = StateMachine::from_adjacency(1, &[(5u32, &[6u32, 5][..]), (6, &[][..]), (7, &[5][..])]);
    assert_eq!(sm.nodes, vec![5, 6, 7]);
    assert_eq!(sm.edges, vec![vec![true, true, false], vec![false, false, false], vec![true, false, false]]);
    assert_eq!(sm.current_node, 1);
    assert_eq!(sm.conditions, vec![false; 3]);
}

#[test]
fn edge_list_of_row() {
    assert_eq!(edge_list(&vec![true, false, true, true]), vec![0, 2, 3]);
    assert_eq!(edge_list(&vec![false, false]), Vec::<usize>::new());
}

#[test]
fn add_nodes_at_once_equals_one_by_one() {
    let mut a: StateMachine<u32> = StateMachine::new();
    a.add_node(1);
    a.add_edge(0, 0);
    a.conditions[0] = true;
    let mut b: StateMachine<u32> = StateMachine::new();
    b.add_node(1);
    b.add_edge(0, 0);
    b.conditions[0] = true;
    a.add_nodes(&[2, 3]);
    b.add_node(2);
    b.add_node(3);
    assert_eq!(a.nodes, b.nodes);
    assert_eq!(a.edges, b.edges);
    assert_eq!(a.conditions, b.conditions);
}

#[test]
fn added_edge_survives_later_calls() {
    let mut sm = three_nodes();
    sm.add_edge(0, 2);
    sm.add_node(40);
    sm.add_edge(3, 0);
    sm.add_nodes(&[50, 60]);
    sm.set_current_node(3);
    assert!(sm.edge_exists(0, 2));
    assert!(sm.edge_exists(3, 0));
    assert!(!sm.edge_exists(2, 0));
    assert_eq!(sm.get_edges(0), vec![2]);
    assert_eq!(sm.edges.len(), 6);
    assert!(sm.edges.iter().all(|row| row.len() == 6));
}
