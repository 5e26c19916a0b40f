use asterism::boxsy::{
    move_player, normalize, ActionID, ColIdent, CollisionData, CollisionReaction, Contact, IVec2, TileMapColData, TileMapCollision,
};
use asterism::Logic;

const WALL: u8 = 1;
const GRASS: u8 = 2;

/// A 5x5 grid; tile kinds 1 (solid) and 2 (not solid) are known.
fn grid() -> TileMapCollision<u8, char> {
    let mut c: TileMapCollision<u8, char> = TileMapCollision::new(5, 5);
    c.tile_solid.insert(WALL, true);
    c.tile_solid.insert(GRASS, false);
    c
}

fn add_ent(c: &mut TileMapCollision<u8, char>, pos: IVec2, moved: IVec2, solid: bool, fixed: bool, id: char) {
    c.positions.push(pos);
    c.amt_moved.push(moved);
    c.metadata.push(CollisionData::new(solid, fixed, id));
}

#[test]
fn normalize_cuts_each_component() {
    assert_eq!(normalize(IVec2::new(5, -7)), IVec2::new(1, -1));
    assert_eq!(normalize(IVec2::new(0, 1)), IVec2::new(0, 1));
    assert_eq!(normalize(IVec2::new(-1, 2)), IVec2::new(-1, 1));
    assert_eq!(IVec2::zero(), IVec2::new(0, 0));
}

#[test]
fn new_grid_is_empty() {
    let c: TileMapCollision<u8, char> = TileMapCollision::new(3, 2);
    assert_eq!(c.map, vec![vec![None; 3]; 2]);
    assert!(c.tile_solid.is_empty());
    assert!(c.positions.is_empty() && c.metadata.is_empty() && c.amt_moved.is_empty());
    assert!(c.contacts.is_empty());
}

#[test]
fn tile_reactions_set_and_remove() {
    let mut c = grid();
    c.handle_predicate(&CollisionReaction::SetTileAtPos(IVec2::new(3, 1), WALL));
    assert_eq!(c.map[1][3], Some(WALL));
    c.handle_predicate(&CollisionReaction::RemoveTileAtPos(IVec2::new(3, 1)));
    assert_eq!(c.map[1][3], None);
}

#[test]
fn entity_reactions() {
    let mut c = grid();
    add_ent(&mut c, IVec2::new(0, 0), IVec2::zero(), true, false, 'p');
    add_ent(&mut c, IVec2::new(1, 1), IVec2::zero(), true, false, 'q');
    c.handle_predicate(&CollisionReaction::SetEntPos(0, IVec2::new(2, 2)));
    c.handle_predicate(&CollisionReaction::SetEntVel(0, IVec2::new(1, 0)));
    c.handle_predicate(&CollisionReaction::SetEntData(0, false, true, 'r'));
    assert_eq!(c.positions[0], IVec2::new(2, 2));
    assert_eq!(c.amt_moved[0], IVec2::new(1, 0));
    assert!(!c.metadata[0].solid && c.metadata[0].fixed && c.metadata[0].id == 'r');
    c.handle_predicate(&CollisionReaction::RemoveEnt(0));
    assert_eq!(c.positions, vec![IVec2::new(1, 1)]);
    assert_eq!(c.metadata.len(), 1);
    assert_eq!(c.amt_moved.len(), 1);
}

#[test]
fn contacts_list_tiles_then_pairs_with_fixed_second() {
    let mut c = grid();
    c.map[2][2] = Some(GRASS);
    add_ent(&mut c, IVec2::new(2, 2), IVec2::zero(), false, true, 'a');
    add_ent(&mut c, IVec2::new(2, 2), IVec2::zero(), false, false, 'b');
    add_ent(&mut c, IVec2::new(0, 4), IVec2::zero(), false, false, 'c');
    c.update();
    assert_eq!(
        c.contacts,
        vec![Contact::Tile(0, IVec2::new(2, 2)), Contact::Tile(1, IVec2::new(2, 2)), Contact::Ent(1, 0)]
    );
    assert_eq!(c.get_contact_table(), c.contacts);
}

#[test]
fn entity_moved_onto_solid_tile_is_pushed_back() {
    let mut c = grid();
    c.map[1][3] = Some(WALL);
    // moved right from (2, 1) onto the wall at (3, 1)
    add_ent(&mut c, IVec2::new(3, 1), IVec2::new(1, 0), true, false, 'p');
    c.update();
    assert_eq!(c.contacts, vec![Contact::Tile(0, IVec2::new(3, 1))]);
    assert_eq!(c.positions, vec![IVec2::new(2, 1)]);
}

#[test]
fn push_back_stops_on_first_tile_that_is_not_solid() {
    let mut c = grid();
    c.map[1][3] = Some(WALL);
    c.map[1][2] = Some(WALL);
    c.map[1][1] = Some(GRASS);
    add_ent(&mut c, IVec2::new(3, 1), IVec2::new(3, 0), true, false, 'p');
    c.update();
    assert_eq!(c.positions, vec![IVec2::new(1, 1)]);
}

#[test]
fn push_back_off_the_grid_leaves_entity_one_step_back() {
    let mut c = grid();
    c.map[0][1] = Some(WALL);
    c.map[0][0] = Some(WALL);
    add_ent(&mut c, IVec2::new(1, 0), IVec2::new(1, 0), true, false, 'p');
    c.update();
    assert_eq!(c.positions, vec![IVec2::new(0, 0)]);
}

#[test]
fn fixed_and_nonsolid_entities_stay() {
    let mut c = grid();
    c.map[2][2] = Some(WALL);
    add_ent(&mut c, IVec2::new(2, 2), IVec2::new(0, 1), true, true, 'f');
    add_ent(&mut c, IVec2::new(2, 2), IVec2::new(1, 0), false, false, 'g');
    c.update();
    assert_eq!(c.positions, vec![IVec2::new(2, 2), IVec2::new(2, 2)]);
}

#[test]
fn entities_on_same_cell_are_separated() {
    let mut c = grid();
    // a moved up into b's cell; b stands still and is not fixed
    add_ent(&mut c, IVec2::new(2, 2), IVec2::new(0, -1), true, false, 'a');
    add_ent(&mut c, IVec2::new(2, 2), IVec2::new(0, 0), true, true, 'b');
    c.update();
    assert_eq!(c.contacts, vec![Contact::Ent(0, 1)]);
    assert_eq!(c.positions, vec![IVec2::new(2, 3), IVec2::new(2, 2)]);
}

#[test]
fn ident_data_of_tiles_and_entities() {
    let mut c = grid();
    c.map[0][4] = Some(WALL);
    add_ent(&mut c, IVec2::new(1, 1), IVec2::new(0, 1), true, false, 'p');
    match c.get_ident_data(ColIdent::Position(IVec2::new(4, 0))) {
        TileMapColData::Position { pos, solid, id } => {
            assert_eq!(pos, IVec2::new(4, 0));
            assert!(solid);
            assert_eq!(id, WALL);
        }
        _ => panic!("expected a tile"),
    }
    match c.get_ident_data(ColIdent::EntIdx(0)) {
        TileMapColData::Ent { pos, amt_moved, solid, fixed, id } => {
            assert_eq!(pos, IVec2::new(1, 1));
            assert_eq!(amt_moved, IVec2::new(0, 1));
            assert!(solid && !fixed);
            assert_eq!(id, 'p');
        }
        _ => panic!("expected an entity"),
    }
}

#[test]
fn update_ident_data_moves_a_tile() {
    let mut c = grid();
    c.map[0][0] = Some(GRASS);
    c.update_ident_data(
        ColIdent::Position(IVec2::new(0, 0)),
        TileMapColData::Position { pos: IVec2::new(1, 0), solid: true, id: GRASS },
    );
    assert_eq!(c.map[0][0], None);
    assert_eq!(c.map[0][1], Some(GRASS));
    assert_eq!(c.tile_solid.get(&GRASS), Some(&true));
}

#[test]
fn ident_table_lists_tiles_row_by_row_then_entities() {
    let mut c = grid();
    c.map[1][0] = Some(GRASS);
    c.map[0][3] = Some(WALL);
    add_ent(&mut c, IVec2::new(4, 4), IVec2::zero(), true, false, 'p');
    let table = c.get_ident_table();
    let idents: Vec<String> = table
        .iter()
        .map(|(ident, _)| match ident {
            ColIdent::Position(p) => format!("tile {} {}", p.x, p.y),
            ColIdent::EntIdx(i) => format!("ent {}", i),
        })
        .collect();
    assert_eq!(idents, vec!["tile 3 0", "tile 0 1", "ent 0"]);
}

#[test]
fn clearing_entities_and_tile_data() {
    let mut c = grid();
    add_ent(&mut c, IVec2::new(1, 1), IVec2::zero(), true, false, 'p');
    c.clear_entities();
    assert!(c.positions.is_empty() && c.metadata.is_empty() && c.amt_moved.is_empty());
    c.clear_tile_data();
    assert!(c.tile_solid.is_empty());
    c.clear_and_resize_map(2, 3);
    assert_eq!(c.map, vec![vec![None; 2]; 3]);
}

#[test]
fn player_moves_one_tile() {
    let (p, a) = move_player(IVec2::new(3, 3), IVec2::zero(), ActionID::Up, 8);
    assert_eq!((p.x, p.y, a.x, a.y), (3, 2, 0, -1));
    let (p, a) = move_player(IVec2::new(3, 3), IVec2::zero(), ActionID::Down, 8);
    assert_eq!((p.x, p.y, a.x, a.y), (3, 4, 0, 1));
    let (p, a) = move_player(IVec2::new(3, 3), IVec2::zero(), ActionID::Left, 8);
    assert_eq!((p.x, p.y, a.x, a.y), (2, 3, -1, 0));
    let (p, a) = move_player(IVec2::new(3, 3), IVec2::new(1, 0), ActionID::Right, 8);
    assert_eq!((p.x, p.y, a.x, a.y), (4, 3, 1, 0));
}

#[test]
fn player_stays_in_the_room() {
    let (p, a) = move_player(IVec2::new(0, 0), IVec2::new(-1, -1), ActionID::Up, 8);
    assert_eq!((p.x, p.y, a.x, a.y), (0, 0, -1, -1));
    let (p, _) = move_player(IVec2::new(0, 5), IVec2::zero(), ActionID::Left, 8);
    assert_eq!((p.x, p.y), (0, 5));
    let (p, _) = move_player(IVec2::new(7, 7), IVec2::zero(), ActionID::Right, 8);
    assert_eq!((p.x, p.y), (7, 7));
    let (p, _) = move_player(IVec2::new(7, 7), IVec2::zero(), ActionID::Down, 8);
    assert_eq!((p.x, p.y), (7, 7));
}
