use asterism::control::KeyFrames;
use asterism::entity_state::{State, StateMap};
use asterism::jumper::JumperEntityState;
use asterism::maze::{inside_all_walls, is_item, Collectible, Wall, World, WIDTH};
use asterism::physics::{add_body_events, clear_events, remove_body_events, PhysicsEvent};
use asterism::tables::{keep_rows, zip_rows};

fn jumper_states() -> JumperEntityState<&'static str> {
    let mut es = JumperEntityState::new();
    es.maps.push(StateMap {
        states: vec![
            State { id: "idle", edges: vec![1, 2] },
            State { id: "walk", edges: vec![0] },
            State { id: "jump", edges: vec![0] },
        ],
    });
    es.conditions.push(vec![false, false, false]);
    es.states.push(0);
    es
}

#[test]
fn jumper_update_takes_last_enabled_edge() {
    let mut es = jumper_states();
    es.conditions[0] = vec![false, true, true];
    es.update();
    assert_eq!(es.states, vec![2]);
    assert_eq!(es.get_id_for_entity(0), "jump");
}

#[test]
fn jumper_update_without_enabled_edge_stays() {
    let mut es = jumper_states();
    es.conditions[0] = vec![true, false, false];
    es.update();
    assert_eq!(es.states, vec![0]);
    assert_eq!(es.get_id_for_entity(0), "idle");
}

#[test]
fn maze_world_starts_with_the_maze() {
    let w = World::new();
    assert_eq!((w.x, w.y, w.vx, w.vy, w.score), (58, 8, 16, 16, 0));
    assert_eq!(w.walls.len(), 22);
    assert_eq!(w.items.len(), 5);
    assert_eq!((w.items[0].x, w.items[0].y), (112, 72));
    assert_eq!((w.walls[21].x, w.walls[21].y, w.walls[21].w, w.walls[21].h), (320, -1, 1, 242));
}

#[test]
fn maze_touch_pickup_finds_first_touched_item() {
    let mut w = World::new();
    assert_eq!(w.touch_pickup(), None);
    w.x = 110;
    w.y = 70;
    assert_eq!(w.touch_pickup(), Some(0));
    // touching at the far edge counts
    w.x = 92;
    w.y = 52;
    assert_eq!(w.touch_pickup(), Some(0));
    w.x = 91;
    assert_eq!(w.touch_pickup(), None);
}

#[test]
fn maze_point_tests() {
    let walls = vec![Wall::new(0, 0, 2, 2)];
    assert!(inside_all_walls(1, 1, &walls));
    assert!(!inside_all_walls(2, 1, &walls));
    let items = vec![Collectible::new(5, 5)];
    assert!(is_item(14, 14, &items));
    assert!(!is_item(15, 5, &items));
}

#[test]
fn maze_draw_colours_walls_box_items_and_background() {
    let mut w = World::new();
    w.x = 100;
    w.y = 100;
    let walls = vec![Wall::new(0, 0, 3, 1)];
    let items = vec![Collectible::new(200, 200)];
    let mut frame = vec![0u8; 4 * (WIDTH as usize) * 240 + 2];
    w.draw(&mut frame, &walls, &items);
    let px = |x: usize, y: usize| {
        let k = 4 * (WIDTH as usize * y + x);
        [frame[k], frame[k + 1], frame[k + 2], frame[k + 3]]
    };
    assert_eq!(px(2, 0), [0xff, 0xff, 0xff, 0xff]);
    assert_eq!(px(3, 0), [0x48, 0xb2, 0xe8, 0xff]);
    assert_eq!(px(119, 119), [0x5e, 0x48, 0xe8, 0xff]);
    assert_eq!(px(120, 119), [0x48, 0xb2, 0xe8, 0xff]);
    assert_eq!(px(209, 209), [0x95, 0xed, 0xc1, 0xff]);
    // the two bytes after the last whole pixel are kept
    assert_eq!(frame[frame.len() - 1], 0);
    assert_eq!(frame[frame.len() - 2], 0);
}

#[test]
fn physics_event_table_grows_clears_and_shrinks() {
    let mut events: Vec<Vec<Option<PhysicsEvent>>> = Vec::new();
    add_body_events(&mut events, 1);
    assert_eq!(events, vec![vec![None, None]]);
    add_body_events(&mut events, 2);
    assert_eq!(events, vec![vec![None, None, None], vec![None, None, None]]);
    events[0][1] = Some(PhysicsEvent::VelChange);
    events[1][2] = Some(PhysicsEvent::PosChange);
    remove_body_events(&mut events, 0);
    assert_eq!(events, vec![vec![None, Some(PhysicsEvent::PosChange)]]);
    clear_events(&mut events);
    assert_eq!(events, vec![vec![None, None]]);
}

#[test]
fn key_frames_track_presses_and_releases() {
    let mut k: KeyFrames<u8> = KeyFrames::new();
    k.record_held(1);
    assert!(k.is_pressed(&1));
    assert!(!k.is_released(&1));
    k.clear();
    assert_eq!(k.last_frame_keys, vec![1]);
    assert!(k.this_frame_keys.is_empty());
    assert!(k.is_released(&1));
    k.record_held(1);
    assert!(!k.is_pressed(&1));
    assert!(!k.is_released(&1));
}

#[test]
fn zip_rows_stops_at_shorter_table() {
    assert_eq!(zip_rows(&[1, 2, 3], &['a', 'b']), vec![(1, 'a'), (2, 'b')]);
    assert_eq!(zip_rows::<u8, u8>(&[], &[1]), vec![]);
}

#[test]
fn keep_rows_keeps_flagged_rows_in_order() {
    assert_eq!(keep_rows(&["a", "b", "c", "d"], &[true, false, false, true]), vec!["a", "d"]);
    assert_eq!(keep_rows(&[1, 2], &[false, false]), Vec::<i32>::new());
}
