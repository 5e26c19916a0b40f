use asterism::bitsy::{
    add_link, add_room_from_str, parse_room, remove_character_contacts, Room, RoomError, WORLD_SIZE,
};
use asterism::boxsy::{Contact, IVec2};
use asterism::graph::StateMachine;

const ROOM: &str = "00000000\n0      0\n0   1  0\n0 1    0\n0   2  0\n0      0\n0      0\n00000000";

/// The room of the documentation: eight lines of seven cells.
const DOC_ROOM: &str = "
0000000
0     0
0   1 0
0 1   0
0   2 0
0     0
0     0
0000000
";

#[test]
fn room_is_read_in_drawing_order() {
    let tiles = parse_room(ROOM, WORLD_SIZE, 3).unwrap();
    // 8 + 8 on the top and bottom rows, 2 on each of the 6 rows between, and 3 inner tiles
    assert_eq!(tiles.len(), 8 + 8 + 2 * 6 + 3);
    assert_eq!(tiles[0], (0, 0, 0));
    assert_eq!(tiles[7], (0, 7, 0));
    assert_eq!(tiles[8], (0, 0, 1));
    assert_eq!(tiles[9], (0, 7, 1));
    assert_eq!(tiles[11], (1, 4, 2));
    assert_eq!(tiles[14], (1, 2, 3));
    assert_eq!(tiles[17], (2, 4, 4));
    assert_eq!(tiles[tiles.len() - 1], (0, 7, 7));
}

#[test]
fn documented_room_loads() {
    let tiles = parse_room(DOC_ROOM, WORLD_SIZE, 3).unwrap();
    assert_eq!(tiles.len(), 7 + 7 + 2 * 6 + 3);
    assert_eq!(tiles[6], (0, 6, 0));
    assert_eq!(tiles[10], (1, 4, 2));
    assert_eq!(tiles[tiles.len() - 1], (0, 6, 7));
    let mut rooms = Vec::new();
    assert_eq!(add_room_from_str(&mut rooms, DOC_ROOM, WORLD_SIZE, 3), Ok(0));
    assert_eq!(rooms[0].map[2][4], Some(1));
    assert_eq!(rooms[0].map[4][4], Some(2));
    assert_eq!(rooms[0].map[0][7], None);
}

#[test]
fn white_space_around_the_room_is_ignored() {
    let framed = format!("\n\t  {}  \n\n", ROOM);
    assert_eq!(parse_room(&framed, WORLD_SIZE, 3), parse_room(ROOM, WORLD_SIZE, 3));
}

#[test]
fn line_with_an_extra_cell_is_too_big() {
    let big = format!("{}0", ROOM);
    assert_eq!(parse_room(&big, WORLD_SIZE, 3), Err(RoomError::TooBig));
    assert_eq!(parse_room("1 1\n1", 2, 3), Err(RoomError::TooBig));
}

#[test]
fn extra_line_is_too_big() {
    let big = format!("{}\n0", ROOM);
    assert_eq!(parse_room(&big, WORLD_SIZE, 3), Err(RoomError::TooBig));
    // size is checked before the characters
    assert_eq!(parse_room("x\n\n1", 2, 3), Err(RoomError::TooBig));
}

#[test]
fn smaller_drawings_fill_part_of_the_room() {
    assert_eq!(parse_room("", WORLD_SIZE, 3), Ok(vec![]));
    assert_eq!(parse_room("1", 2, 3), Ok(vec![(1, 0, 0)]));
    // white space at the start is trimmed, so the drawing starts at its first non-blank
    assert_eq!(parse_room("\n\n 2", 3, 3), Ok(vec![(2, 0, 0)]));
    assert_eq!(parse_room("1\n\n 2", 3, 3), Ok(vec![(1, 0, 0), (2, 1, 2)]));
}

#[test]
fn unknown_tile_type_is_refused() {
    // with three tile types logged, tiles 0, 1 and 2 exist, and 3 does not
    assert!(parse_room(ROOM, WORLD_SIZE, 3).is_ok());
    assert_eq!(parse_room(ROOM, WORLD_SIZE, 2), Err(RoomError::TileNotFound(2)));
    assert_eq!(parse_room("03\n 1", 2, 3), Err(RoomError::TileNotFound(3)));
    assert_eq!(parse_room("0", 2, 0), Err(RoomError::TileNotFound(0)));
}

#[test]
fn other_characters_are_refused() {
    assert_eq!(parse_room("0x\n 1", 2, 2), Err(RoomError::Unrecognized('x')));
    assert_eq!(parse_room("0\r\n1", 2, 2), Err(RoomError::Unrecognized('\r')));
    assert_eq!(parse_room("0é\n1", 2, 2), Err(RoomError::Unrecognized('é')));
    // the first refusal wins
    assert_eq!(parse_room("x9\n 1", 2, 2), Err(RoomError::Unrecognized('x')));
}

#[test]
fn small_world_room() {
    assert_eq!(parse_room("01\n 1", 2, 2), Ok(vec![(0, 0, 0), (1, 1, 0), (1, 1, 1)]));
}

#[test]
fn new_room_has_no_tiles() {
    let room = Room::new(3);
    assert_eq!(room.map, vec![vec![None; 3]; 3]);
}

#[test]
fn tile_is_put_at_its_place() {
    let mut room = Room::new(3);
    room.add_tile_at_pos(4, 2, 1);
    assert_eq!(room.map[1], vec![None, None, Some(4)]);
    assert_eq!(room.map[0], vec![None; 3]);
    room.add_tile_at_pos(5, 2, 1);
    assert_eq!(room.map[1][2], Some(5));
}

#[test]
fn room_from_str_places_its_tiles() {
    let mut rooms = vec![Room::new(2)];
    assert_eq!(add_room_from_str(&mut rooms, "01\n 1", 2, 2), Ok(1));
    assert_eq!(rooms.len(), 2);
    assert_eq!(rooms[1].map, vec![vec![Some(0), Some(1)], vec![None, Some(1)]]);
    assert_eq!(rooms[0].map, vec![vec![None; 2]; 2]);
}

#[test]
fn refused_room_leaves_an_empty_room() {
    let mut rooms = Vec::new();
    assert_eq!(add_room_from_str(&mut rooms, "01\n 5", 2, 2), Err(RoomError::TileNotFound(5)));
    assert_eq!(rooms.len(), 1);
    assert_eq!(rooms[0].map, vec![vec![None; 2]; 2]);
    assert_eq!(add_room_from_str(&mut rooms, ROOM, WORLD_SIZE, 3), Ok(1));
    assert_eq!(rooms[1].map[2][4], Some(1));
    assert_eq!(rooms[1].map[1][1], None);
}

#[test]
fn links_are_made_once_per_place() {
    let mut locations = Vec::new();
    let mut graph: StateMachine<usize> = StateMachine::new();
    let door = (0, IVec2::new(3, 0));
    let stairs = (1, IVec2::new(3, 7));
    assert_eq!(add_link(&mut locations, &mut graph, door, stairs), 0);
    assert_eq!(locations, vec![door, stairs]);
    assert_eq!(graph.nodes, vec![0, 1]);
    assert!(graph.edge_exists(0, 1));
    assert!(!graph.edge_exists(1, 0));
    // the way back reuses both links
    assert_eq!(add_link(&mut locations, &mut graph, stairs, door), 1);
    assert_eq!(locations.len(), 2);
    assert_eq!(graph.nodes, vec![0, 1]);
    assert!(graph.edge_exists(1, 0));
    assert!(graph.edge_exists(0, 1));
    // a new place gets the next id
    let hatch = (2, IVec2::new(1, 1));
    assert_eq!(add_link(&mut locations, &mut graph, hatch, door), 2);
    assert_eq!(graph.nodes, vec![0, 1, 2]);
    assert!(graph.edge_exists(2, 0));
}

#[test]
fn removed_character_loses_its_contacts() {
    let mut events = vec![
        (Contact::Ent(0, 2), 0, "player meets second"),
        (Contact::Ent(0, 3), 0, "player meets third"),
        (Contact::Tile(2, IVec2::new(1, 1)), 0, "second on a tile"),
        (Contact::Tile(3, IVec2::new(2, 2)), 0, "third on a tile"),
        (Contact::Ent(0, 2), 1, "other room"),
        (Contact::Ent(1, 0), 0, "first meets player"),
    ];
    // the character at index 1 has collision index 2
    remove_character_contacts(&mut events, 0, 1);
    assert_eq!(
        events,
        vec![
            (Contact::Ent(0, 2), 0, "player meets third"),
            (Contact::Tile(2, IVec2::new(2, 2)), 0, "third on a tile"),
            (Contact::Ent(0, 2), 1, "other room"),
            (Contact::Ent(1, 0), 0, "first meets player"),
        ]
    );
}
