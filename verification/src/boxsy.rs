//! # Tile-map collision
//!
//! The collision logic of boxsy: entities stand on the cells of a grid of tiles. An entity that
//! ends up on a solid tile, or on the cell of another solid entity, is pushed back the way it
//! came, one cell at a time, until it reaches a tile that is not solid; where the walk back
//! meets an empty cell or the edge of the grid first, the entity ends one step back.

use std::collections::BTreeMap;
use vstd::prelude::*;

use crate::resources::id_laws;
use crate::tables::OutputTable;
use crate::{Event, Logic, Reaction};

verus! {

broadcast use vstd::std_specs::btree::group_btree_axioms;

/// A cell of the grid, or a movement between cells: `x` is the column, `y` the row.
#[derive(Clone, Copy, PartialEq, Eq, Structural, Debug)]
pub struct IVec2 {
    pub x: i32,
    pub y: i32,
}

impl IVec2 {
    pub fn new(x: i32, y: i32) -> (res: Self)
        ensures
            res == (IVec2 { x, y }),
    {
        IVec2 { x, y }
    }

    /// The zero vector.
    pub fn zero() -> (res: Self)
        ensures
            res == (IVec2 { x: 0, y: 0 }),
    {
        IVec2 { x: 0, y: 0 }
    }
}

/// `a - b`, componentwise.
pub open spec fn minus(a: IVec2, b: IVec2) -> IVec2 {
    IVec2 { x: (a.x - b.x) as i32, y: (a.y - b.y) as i32 }
}

/// A step of at most one cell from a cell with coordinates in `0..i32::MAX` is exact.
pub proof fn lemma_minus_step(a: IVec2, b: IVec2)
    requires
        0 <= a.x < i32::MAX,
        0 <= a.y < i32::MAX,
        -1 <= b.x <= 1,
        -1 <= b.y <= 1,
    ensures
        minus(a, b).x == a.x - b.x,
        minus(a, b).y == a.y - b.y,
{
    let (ax, ay, bx, by) = (a.x, a.y, b.x, b.y);
    assert((ax - bx) as i32 == ax - bx) by (bit_vector)
        requires
            0 <= ax < 0x7fff_ffff,
            -1 <= bx <= 1,
    ;
    assert((ay - by) as i32 == ay - by) by (bit_vector)
        requires
            0 <= ay < 0x7fff_ffff,
            -1 <= by <= 1,
    ;
}

/// Each component cut to -1, 0 or 1.
pub open spec fn spec_normalize(v: IVec2) -> IVec2 {
    IVec2 {
        x: if v.x > 1 { 1i32 } else if v.x < -1 { -1i32 } else { v.x },
        y: if v.y > 1 { 1i32 } else if v.y < -1 { -1i32 } else { v.y },
    }
}

/// Each component of `vec2` cut to -1, 0 or 1.
pub fn normalize(vec2: IVec2) -> (res: IVec2)
    ensures
        res == spec_normalize(vec2),
{
    let mut vec2 = vec2;
    if vec2.x > 1 {
        vec2.x = 1;
    }
    if vec2.x < -1 {
        vec2.x = -1;
    }
    if vec2.y > 1 {
        vec2.y = 1;
    }
    if vec2.y < -1 {
        vec2.y = -1;
    }
    vec2
}

/// The moves of the player.
#[derive(Clone, Copy, Debug, PartialEq, Eq)]
pub enum ActionID {
    Left,
    Right,
    Up,
    Down,
}

/// The arithmetic of the move stays within `i32`: a step down from a coordinate or amount
/// moved must not go below its least value, a step up not above its greatest, and the room's
/// last coordinate `world_size - 1` must exist.
pub open spec fn move_in_range(pos: IVec2, amt_moved: IVec2, action: ActionID, world_size: i32) -> bool {
    match action {
        ActionID::Up => pos.y > i32::MIN && amt_moved.y > i32::MIN,
        ActionID::Down => pos.y < i32::MAX && amt_moved.y < i32::MAX && world_size > i32::MIN,
        ActionID::Left => pos.x > i32::MIN && amt_moved.x > i32::MIN,
        ActionID::Right => pos.x < i32::MAX && amt_moved.x < i32::MAX && world_size > i32::MIN,
    }
}

/// `v` raised to at least `lo`.
pub open spec fn at_least(v: int, lo: int) -> int {
    if v < lo { lo } else { v }
}

/// `v` lowered to at most `hi`.
pub open spec fn at_most(v: int, hi: int) -> int {
    if v > hi { hi } else { v }
}

/// The player's position and amount moved after a key press for `action` in a room of side
/// `world_size`: one tile in that direction, but not past the room's edge, and the amount
/// moved one step that way, but not past -1 or 1.
pub open spec fn spec_move_player(pos: IVec2, amt_moved: IVec2, action: ActionID, world_size: i32) -> (IVec2, IVec2) {
    match action {
        ActionID::Up => (
            IVec2 { y: at_least(pos.y - 1, 0) as i32, ..pos },
            IVec2 { y: at_least(amt_moved.y - 1, -1) as i32, ..amt_moved },
        ),
        ActionID::Down => (
            IVec2 { y: at_most(pos.y + 1, world_size - 1) as i32, ..pos },
            IVec2 { y: at_most(amt_moved.y + 1, 1) as i32, ..amt_moved },
        ),
        ActionID::Left => (
            IVec2 { x: at_least(pos.x - 1, 0) as i32, ..pos },
            IVec2 { x: at_least(amt_moved.x - 1, -1) as i32, ..amt_moved },
        ),
        ActionID::Right => (
            IVec2 { x: at_most(pos.x + 1, world_size - 1) as i32, ..pos },
            IVec2 { x: at_most(amt_moved.x + 1, 1) as i32, ..amt_moved },
        ),
    }
}

/// Moves the player one tile for a key press, kept inside the room; returns the new position
/// and amount moved.
pub fn move_player(pos: IVec2, amt_moved: IVec2, action: ActionID, world_size: i32) -> (res: (IVec2, IVec2))
    requires
        move_in_range(pos, amt_moved, action, world_size),
    ensures
        res == spec_move_player(pos, amt_moved, action, world_size),
{
    let mut pos = pos;
    let mut amt_moved = amt_moved;
    match action {
        ActionID::Up => {
            pos.y = if pos.y - 1 < 0 { 0 } else { pos.y - 1 };
            amt_moved.y = if amt_moved.y - 1 < -1 { -1 } else { amt_moved.y - 1 };
        },
        ActionID::Down => {
            pos.y = if pos.y + 1 > world_size - 1 { world_size - 1 } else { pos.y + 1 };
            amt_moved.y = if amt_moved.y + 1 > 1 { 1 } else { amt_moved.y + 1 };
        },
        ActionID::Left => {
            pos.x = if pos.x - 1 < 0 { 0 } else { pos.x - 1 };
            amt_moved.x = if amt_moved.x - 1 < -1 { -1 } else { amt_moved.x - 1 };
        },
        ActionID::Right => {
            pos.x = if pos.x + 1 > world_size - 1 { world_size - 1 } else { pos.x + 1 };
            amt_moved.x = if amt_moved.x + 1 > 1 { 1 } else { amt_moved.x + 1 };
        },
    }
    (pos, amt_moved)
}

/// A player inside a room of side `world_size`, whose amount moved is -1, 0 or 1 each way,
/// stays so after any move, and the move changes only the coordinate of its direction, by at
/// most one.
pub proof fn law_move_stays_in_room(pos: IVec2, amt_moved: IVec2, action: ActionID, world_size: i32)
    requires
        1 <= world_size,
        0 <= pos.x < world_size,
        0 <= pos.y < world_size,
        -1 <= amt_moved.x <= 1,
        -1 <= amt_moved.y <= 1,
    ensures
        move_in_range(pos, amt_moved, action, world_size),
        ({
            let (p, a) = spec_move_player(pos, amt_moved, action, world_size);
            &&& 0 <= p.x < world_size
            &&& 0 <= p.y < world_size
            &&& -1 <= a.x <= 1
            &&& -1 <= a.y <= 1
            &&& (action is Left || action is Right) ==> p.y == pos.y && -1 <= p.x - pos.x <= 1
            &&& (action is Up || action is Down) ==> p.x == pos.x && -1 <= p.y - pos.y <= 1
        }),
{
}

/// Metadata of each collision entity.
pub struct CollisionData<ID> {
    /// True if the entity is solid, i.e. can stop other entities.
    pub solid: bool,
    /// True if the entity is fixed, i.e. does not take part in restitution.
    pub fixed: bool,
    pub id: ID,
}

impl<ID> CollisionData<ID> {
    pub fn new(solid: bool, fixed: bool, id: ID) -> (res: Self)
        ensures
            res == (CollisionData { solid, fixed, id }),
    {
        Self { solid, fixed, id }
    }
}

/// Two things on the same cell: two entities, or an entity and the tile under it.
#[derive(PartialEq, Eq, Clone, Copy, Debug)]
pub enum Contact {
    Ent(usize, usize),
    Tile(usize, IVec2),
}

impl Event for Contact {}

pub enum CollisionReaction<TileID, EntID> {
    SetTileAtPos(IVec2, TileID),
    RemoveTileAtPos(IVec2),
    SetEntPos(usize, IVec2),
    SetEntVel(usize, IVec2),
    /// idx, solid, fixed, id
    SetEntData(usize, bool, bool, EntID),
    RemoveEnt(usize),
}

impl<TileID, EntID> Reaction for CollisionReaction<TileID, EntID> {}

#[derive(Clone, Copy)]
pub enum ColIdent {
    Position(IVec2),
    EntIdx(usize),
}

#[allow(inconsistent_fields)]
#[derive(Clone, Copy)]
pub enum TileMapColData<TileID, EntID> {
    Position { pos: IVec2, solid: bool, id: TileID },
    Ent { pos: IVec2, amt_moved: IVec2, solid: bool, fixed: bool, id: EntID },
}

/// A collision logic over a grid of tiles and entities that stand on its cells.
pub struct TileMapCollision<TileID, EntID> {
    /// The tiles, row by row: `map[y][x]` is the tile at column `x` of row `y`, if any.
    pub map: Vec<Vec<Option<TileID>>>,
    /// Whether each kind of tile is solid.
    pub tile_solid: BTreeMap<TileID, bool>,
    pub positions: Vec<IVec2>,
    pub metadata: Vec<CollisionData<EntID>>,
    /// How far each entity moved in the last frame.
    pub amt_moved: Vec<IVec2>,
    /// The contacts found by the last update.
    pub contacts: Vec<Contact>,
}

/// The number of columns of a grid: the length of its first row.
pub open spec fn width<T>(tiles: Seq<Seq<Option<T>>>) -> int {
    if tiles.len() > 0 { tiles[0].len() as int } else { 0 }
}

/// `pos` is a cell of the grid.
pub open spec fn in_grid<T>(tiles: Seq<Seq<Option<T>>>, pos: IVec2) -> bool {
    &&& 0 <= pos.x < width(tiles)
    &&& 0 <= pos.y < tiles.len()
}

/// The tile at a cell of the grid.
pub open spec fn tile_at<T>(tiles: Seq<Seq<Option<T>>>, pos: IVec2) -> Option<T> {
    tiles[pos.y as int][pos.x as int]
}

/// Whether a tile is solid, where that is specified.
pub open spec fn solid_of<T>(solid: Map<T, bool>, id: T) -> Option<bool> {
    if solid.contains_key(id) {
        Some(solid[id])
    } else {
        None
    }
}

/// `moved` is a step of one cell at most in each direction, and not zero.
pub open spec fn unit_step(moved: IVec2) -> bool {
    &&& -1 <= moved.x <= 1
    &&& -1 <= moved.y <= 1
    &&& (moved.x != 0 || moved.y != 0)
}

/// How many more steps back along `moved` a walk from `pos` can take before it leaves the
/// grid.
pub open spec fn steps_left<T>(tiles: Seq<Seq<Option<T>>>, pos: IVec2, moved: IVec2) -> int {
    if moved.x > 0 {
        pos.x + 1
    } else if moved.x < 0 {
        width(tiles) - pos.x
    } else if moved.y > 0 {
        pos.y + 1
    } else if moved.y < 0 {
        tiles.len() - pos.y
    } else {
        0
    }
}

/// Where an entity pushed back from `start` ends up, walking back along `moved` from `cur`: it
/// stops on the first tile that is not solid; it stays at `start` where the walk meets an
/// empty cell or leaves the grid. `None` where the walk meets a tile whose solidity is not
/// specified.
pub open spec fn walk<T>(tiles: Seq<Seq<Option<T>>>, solid: Map<T, bool>, start: IVec2, cur: IVec2, moved: IVec2) -> Option<IVec2>
    decreases (if in_grid(tiles, cur) && unit_step(moved) { steps_left(tiles, cur, moved) } else { 0 }),
{
    if !in_grid(tiles, cur) || !unit_step(moved) || width(tiles) > i32::MAX || tiles.len() > i32::MAX {
        None
    } else {
        match tile_at(tiles, cur) {
            None => Some(start),
            Some(t) => match solid_of(solid, t) {
                None => None,
                Some(false) => Some(cur),
                Some(true) => {
                    let next = minus(cur, moved);
                    if !in_grid(tiles, next) {
                        Some(start)
                    } else {
                        proof {
                            lemma_minus_step(cur, moved);
                        }
                        walk(tiles, solid, start, next, moved)
                    }
                },
            },
        }
    }
}

/// All four neighbours of `pos` are cells of the grid.
pub open spec fn interior<T>(tiles: Seq<Seq<Option<T>>>, pos: IVec2) -> bool {
    &&& 1 <= pos.x
    &&& pos.x + 1 < width(tiles)
    &&& 1 <= pos.y
    &&& pos.y + 1 < tiles.len()
}

/// Where restitution moves an entity at `pos` that moved by `moved` (each component -1, 0 or
/// 1). `None` where restitution fails: the walk starts off the grid or meets a tile whose
/// solidity is not specified, or, for an entity that did not move, it would step off the grid
/// (from a cell on its edge) or never end (on a solid tile).
pub open spec fn restitute<T>(tiles: Seq<Seq<Option<T>>>, solid: Map<T, bool>, pos: IVec2, moved: IVec2) -> Option<IVec2> {
    if moved.x == 0 && moved.y == 0 {
        if !interior(tiles, pos) {
            None
        } else {
            match tile_at(tiles, pos) {
                None => Some(pos),
                Some(t) => match solid_of(solid, t) {
                    Some(false) => Some(pos),
                    _ => None,
                },
            }
        }
    } else {
        walk(tiles, solid, pos, pos, moved)
    }
}

/// `p` is `k` steps of `m` back from `from`.
pub open spec fn back_along(p: IVec2, from: IVec2, m: IVec2, k: int) -> bool {
    &&& k >= 0
    &&& p.x == from.x - k * m.x
    &&& p.y == from.y - k * m.y
}

/// `p` is a cell with a tile that is not solid.
pub open spec fn on_open_tile<T>(tiles: Seq<Seq<Option<T>>>, solid: Map<T, bool>, p: IVec2) -> bool {
    tile_at(tiles, p) matches Some(t) && solid_of(solid, t) == Some(false)
}

proof fn lemma_walk_back<T>(tiles: Seq<Seq<Option<T>>>, solid: Map<T, bool>, start: IVec2, cur: IVec2, moved: IVec2)
    requires
        walk(tiles, solid, start, cur, moved) is Some,
    ensures
        ({
            let p = walk(tiles, solid, start, cur, moved)->Some_0;
            p == start || (on_open_tile(tiles, solid, p) && exists|k: int| #[trigger] back_along(p, cur, moved, k))
        }),
    decreases (if in_grid(tiles, cur) && unit_step(moved) { steps_left(tiles, cur, moved) } else { 0 }),
{
    let p = walk(tiles, solid, start, cur, moved)->Some_0;
    match tile_at(tiles, cur) {
        None => {},
        Some(t) => match solid_of(solid, t) {
            None => {},
            Some(false) => {
                assert(back_along(p, cur, moved, 0));
            },
            Some(true) => {
                let next = minus(cur, moved);
                if in_grid(tiles, next) {
                    lemma_minus_step(cur, moved);
                    lemma_walk_back(tiles, solid, start, next, moved);
                    if p != start {
                        let k = choose|k: int| #[trigger] back_along(p, next, moved, k);
                        let (mx, my) = (moved.x as int, moved.y as int);
                        assert(k * mx + mx == (k + 1) * mx) by (nonlinear_arith);
                        assert(k * my + my == (k + 1) * my) by (nonlinear_arith);
                        assert(back_along(p, cur, moved, k + 1));
                    }
                }
            },
        },
    }
}

/// Restitution moves an entity only back along its movement: where it moves it at all, the
/// entity ends some whole number of steps back from where it was, on a tile that is not
/// solid, or on the first cell back.
pub proof fn law_restitution_goes_back<T>(tiles: Seq<Seq<Option<T>>>, solid: Map<T, bool>, pos: IVec2, moved: IVec2)
    requires
        restitute(tiles, solid, pos, moved) is Some,
    ensures
        ({
            let p = restitute(tiles, solid, pos, moved)->Some_0;
            p == pos || (on_open_tile(tiles, solid, p) && exists|k: int| #[trigger] back_along(p, pos, moved, k))
        }),
{
    if !(moved.x == 0 && moved.y == 0) {
        lemma_walk_back(tiles, solid, pos, pos, moved);
    }
}

/// What the restitution of contacts reads of the logic: the tiles, whether each kind of tile
/// is solid, and each entity's metadata and movement.
#[verifier::reject_recursive_types(T)]
pub struct Scene<T, E> {
    pub tiles: Seq<Seq<Option<T>>>,
    pub solid: Map<T, bool>,
    pub meta: Seq<CollisionData<E>>,
    pub amt: Seq<IVec2>,
}

/// The entity positions after the restitution of contact `c`; `None` where it fails.
pub open spec fn after_contact<T, E>(sc: Scene<T, E>, ps: Seq<IVec2>, c: Contact) -> Option<Seq<IVec2>> {
    match c {
        Contact::Tile(i, pos) => {
            let i = i as int;
            if ps[i] != pos || !sc.meta[i].solid || sc.meta[i].fixed {
                Some(ps)
            } else {
                match tile_at(sc.tiles, pos) {
                    None => Some(ps),
                    Some(t) => match solid_of(sc.solid, t) {
                        None => None,
                        Some(false) => Some(ps),
                        Some(true) => {
                            let m = spec_normalize(sc.amt[i]);
                            match restitute(sc.tiles, sc.solid, minus(ps[i], m), m) {
                                None => None,
                                Some(p) => Some(ps.update(i, p)),
                            }
                        },
                    },
                }
            }
        },
        Contact::Ent(i, j) => {
            let i = i as int;
            let j = j as int;
            if ps[i] != ps[j] || !sc.meta[i].solid || sc.meta[i].fixed || !sc.meta[j].solid {
                Some(ps)
            } else {
                let mi = spec_normalize(sc.amt[i]);
                match restitute(sc.tiles, sc.solid, minus(ps[i], mi), mi) {
                    None => None,
                    Some(p) => {
                        let ps1 = ps.update(i, p);
                        if sc.meta[j].fixed {
                            Some(ps1)
                        } else {
                            let mj = spec_normalize(sc.amt[j]);
                            match restitute(sc.tiles, sc.solid, ps1[j], mj) {
                                None => None,
                                Some(q) => Some(ps1.update(j, q)),
                            }
                        }
                    },
                }
            }
        },
    }
}

/// Contact `c` names entity `e`.
pub open spec fn names(c: Contact, e: int) -> bool {
    match c {
        Contact::Tile(i, _) => i == e,
        Contact::Ent(i, j) => i == e || j == e,
    }
}

/// `q` is `p` pushed back along `m` by at least one step: to the first cell back, or further
/// to a tile that is not solid.
pub open spec fn pushed_back<T>(tiles: Seq<Seq<Option<T>>>, solid: Map<T, bool>, q: IVec2, p: IVec2, m: IVec2) -> bool {
    &&& exists|k: int| #[trigger] back_along(q, p, m, k) && k >= 1
    &&& q == minus(p, m) || on_open_tile(tiles, solid, q)
}

proof fn lemma_one_more_step(q: IVec2, start: IVec2, p: IVec2, m: IVec2, k: int)
    requires
        back_along(q, start, m, k),
        start.x == p.x - m.x,
        start.y == p.y - m.y,
    ensures
        back_along(q, p, m, k + 1),
{
    let (mx, my) = (m.x as int, m.y as int);
    assert(k * mx + mx == (k + 1) * mx) by (nonlinear_arith);
    assert(k * my + my == (k + 1) * my) by (nonlinear_arith);
}

proof fn lemma_push_back<T>(tiles: Seq<Seq<Option<T>>>, solid: Map<T, bool>, p: IVec2, m: IVec2)
    requires
        in_grid(tiles, p),
        width(tiles) <= i32::MAX,
        tiles.len() <= i32::MAX,
        -1 <= m.x <= 1,
        -1 <= m.y <= 1,
        restitute(tiles, solid, minus(p, m), m) is Some,
    ensures
        pushed_back(tiles, solid, restitute(tiles, solid, minus(p, m), m)->Some_0, p, m),
{
    let start = minus(p, m);
    let q = restitute(tiles, solid, start, m)->Some_0;
    lemma_minus_step(p, m);
    law_restitution_goes_back(tiles, solid, start, m);
    assert(back_along(start, start, m, 0));
    if q == start {
        lemma_one_more_step(q, start, p, m, 0);
    } else {
        let k = choose|k: int| #[trigger] back_along(q, start, m, k);
        lemma_one_more_step(q, start, p, m, k);
    }
}

/// What the restitution of one contact does: entities it does not name stay; an entity on a
/// solid tile, solid and not fixed, is pushed back along its movement; of two entities on the
/// same cell, the first, solid and not fixed, is pushed back along its movement, while the
/// second, if solid, stays if fixed and otherwise steps back along its own movement as far
/// as restitution takes it; in every other case nothing moves.
pub proof fn law_contact_pushes_back<T, E>(sc: Scene<T, E>, ps: Seq<IVec2>, c: Contact)
    requires
        after_contact(sc, ps, c) is Some,
        contact_ok(c, ps.len() as int),
        c is Ent ==> c->Ent_0 != c->Ent_1,
        forall|e: int| 0 <= e < ps.len() ==> in_grid(sc.tiles, #[trigger] ps[e]),
        width(sc.tiles) <= i32::MAX,
        sc.tiles.len() <= i32::MAX,
    ensures
        ({
            let q = after_contact(sc, ps, c)->Some_0;
            &&& q.len() == ps.len()
            &&& forall|e: int| 0 <= e < ps.len() && !names(c, e) ==> #[trigger] q[e] == ps[e]
            &&& match c {
                Contact::Tile(i, pos) => {
                    let i = i as int;
                    if ps[i] == pos && sc.meta[i].solid && !sc.meta[i].fixed && (tile_at(sc.tiles, pos) matches Some(t)
                        && solid_of(sc.solid, t) == Some(true)) {
                        pushed_back(sc.tiles, sc.solid, q[i], ps[i], spec_normalize(sc.amt[i]))
                    } else {
                        q[i] == ps[i]
                    }
                },
                Contact::Ent(i, j) => {
                    let i = i as int;
                    let j = j as int;
                    if ps[i] == ps[j] && sc.meta[i].solid && !sc.meta[i].fixed && sc.meta[j].solid {
                        &&& pushed_back(sc.tiles, sc.solid, q[i], ps[i], spec_normalize(sc.amt[i]))
                        &&& sc.meta[j].fixed ==> q[j] == ps[j]
                        &&& !sc.meta[j].fixed ==> (q[j] == ps[j] || (on_open_tile(sc.tiles, sc.solid, q[j])
                            && exists|k: int| #[trigger] back_along(q[j], ps[j], spec_normalize(sc.amt[j]), k)))
                    } else {
                        q[i] == ps[i] && q[j] == ps[j]
                    }
                },
            }
        }),
{
    match c {
        Contact::Tile(i, pos) => {
            let i = i as int;
            if ps[i] == pos && sc.meta[i].solid && !sc.meta[i].fixed {
                if let Some(t) = tile_at(sc.tiles, pos) {
                    if solid_of(sc.solid, t) == Some(true) {
                        let m = spec_normalize(sc.amt[i]);
                        lemma_push_back(sc.tiles, sc.solid, ps[i], m);
                    }
                }
            }
        },
        Contact::Ent(i, j) => {
            let i = i as int;
            let j = j as int;
            if ps[i] == ps[j] && sc.meta[i].solid && !sc.meta[i].fixed && sc.meta[j].solid {
                let mi = spec_normalize(sc.amt[i]);
                lemma_push_back(sc.tiles, sc.solid, ps[i], mi);
                if !sc.meta[j].fixed {
                    let p = restitute(sc.tiles, sc.solid, minus(ps[i], mi), mi)->Some_0;
                    let ps1 = ps.update(i, p);
                    assert(ps1[j] == ps[j]);
                    law_restitution_goes_back(sc.tiles, sc.solid, ps[j], spec_normalize(sc.amt[j]));
                }
            }
        },
    }
}

/// The entity positions after the restitution of the contacts in order; `None` where one of
/// them fails.
pub open spec fn after_contacts<T, E>(sc: Scene<T, E>, ps: Seq<IVec2>, cs: Seq<Contact>) -> Option<Seq<IVec2>>
    decreases cs.len(),
{
    if cs.len() == 0 {
        Some(ps)
    } else {
        match after_contacts(sc, ps, cs.drop_last()) {
            None => None,
            Some(q) => after_contact(sc, q, cs.last()),
        }
    }
}

/// The contacts of the first `k` entities with the tiles under them, entity by entity.
pub open spec fn tile_contacts<T>(tiles: Seq<Seq<Option<T>>>, ps: Seq<IVec2>, k: int) -> Seq<Contact>
    decreases k,
{
    if k <= 0 {
        Seq::empty()
    } else {
        let rest = tile_contacts(tiles, ps, k - 1);
        if tile_at(tiles, ps[k - 1]) is Some {
            rest.push(Contact::Tile((k - 1) as usize, ps[k - 1]))
        } else {
            rest
        }
    }
}

/// The contact of entities `i` and `j`, `i < j`, that stand on the same cell: the fixed one
/// comes second where only one of them is fixed.
pub open spec fn pair_contact<E>(meta: Seq<CollisionData<E>>, i: int, j: int) -> Contact {
    if meta[i].fixed && !meta[j].fixed {
        Contact::Ent(j as usize, i as usize)
    } else {
        Contact::Ent(i as usize, j as usize)
    }
}

/// The contacts of entity `i` with the entities after it and before `j`.
pub open spec fn pair_contacts<E>(meta: Seq<CollisionData<E>>, ps: Seq<IVec2>, i: int, j: int) -> Seq<Contact>
    decreases j - i,
{
    if j <= i + 1 {
        Seq::empty()
    } else {
        let rest = pair_contacts(meta, ps, i, j - 1);
        if ps[i] == ps[j - 1] {
            rest.push(pair_contact(meta, i, j - 1))
        } else {
            rest
        }
    }
}

/// The contacts between entities, for the first `k` entities against every later one.
pub open spec fn ent_contacts<E>(meta: Seq<CollisionData<E>>, ps: Seq<IVec2>, k: int) -> Seq<Contact>
    decreases k,
{
    if k <= 0 {
        Seq::empty()
    } else {
        ent_contacts(meta, ps, k - 1) + pair_contacts(meta, ps, k - 1, ps.len() as int)
    }
}

/// The indices of a contact name entities among the first `n`.
pub open spec fn contact_ok(c: Contact, n: int) -> bool {
    match c {
        Contact::Tile(i, _) => i < n,
        Contact::Ent(i, j) => i < n && j < n,
    }
}

/// Where a walk from a cell of the grid ends is a cell of the grid.
pub proof fn lemma_walk_in_grid<T>(tiles: Seq<Seq<Option<T>>>, solid: Map<T, bool>, start: IVec2, cur: IVec2, moved: IVec2)
    requires
        in_grid(tiles, start),
    ensures
        walk(tiles, solid, start, cur, moved) matches Some(p) ==> in_grid(tiles, p),
    decreases (if in_grid(tiles, cur) && unit_step(moved) { steps_left(tiles, cur, moved) } else { 0 }),
{
    if in_grid(tiles, cur) && unit_step(moved) && width(tiles) <= i32::MAX && tiles.len() <= i32::MAX {
        let next = minus(cur, moved);
        if in_grid(tiles, next) {
            lemma_minus_step(cur, moved);
            lemma_walk_in_grid(tiles, solid, start, next, moved);
        }
    }
}

/// Restitution leaves an entity on a cell of the grid.
pub proof fn lemma_restitute_in_grid<T>(tiles: Seq<Seq<Option<T>>>, solid: Map<T, bool>, pos: IVec2, moved: IVec2)
    ensures
        restitute(tiles, solid, pos, moved) matches Some(p) ==> in_grid(tiles, p),
{
    if !(moved.x == 0 && moved.y == 0) && in_grid(tiles, pos) {
        lemma_walk_in_grid(tiles, solid, pos, pos, moved);
    }
}

/// The restitution of a contact keeps every entity on a cell of the grid.
pub proof fn lemma_after_contact_in_grid<T, E>(sc: Scene<T, E>, ps: Seq<IVec2>, c: Contact)
    requires
        forall|i: int| 0 <= i < ps.len() ==> in_grid(sc.tiles, #[trigger] ps[i]),
        contact_ok(c, ps.len() as int),
        after_contact(sc, ps, c) is Some,
    ensures
        after_contact(sc, ps, c)->Some_0.len() == ps.len(),
        forall|i: int| 0 <= i < ps.len() ==> in_grid(sc.tiles, #[trigger] after_contact(sc, ps, c)->Some_0[i]),
{
    match c {
        Contact::Tile(i, pos) => {
            let m = spec_normalize(sc.amt[i as int]);
            lemma_restitute_in_grid(sc.tiles, sc.solid, minus(ps[i as int], m), m);
        },
        Contact::Ent(i, j) => {
            let mi = spec_normalize(sc.amt[i as int]);
            lemma_restitute_in_grid(sc.tiles, sc.solid, minus(ps[i as int], mi), mi);
            match restitute(sc.tiles, sc.solid, minus(ps[i as int], mi), mi) {
                Some(p) => {
                    let ps1 = ps.update(i as int, p);
                    let mj = spec_normalize(sc.amt[j as int]);
                    lemma_restitute_in_grid(sc.tiles, sc.solid, ps1[j as int], mj);
                },
                None => {},
            }
        },
    }
}

/// Restitution that succeeds for a list of contacts succeeds for each of its prefixes.
pub proof fn lemma_after_contacts_prefix<T, E>(sc: Scene<T, E>, ps: Seq<IVec2>, cs: Seq<Contact>, k: int)
    requires
        0 <= k <= cs.len(),
        after_contacts(sc, ps, cs) is Some,
    ensures
        after_contacts(sc, ps, cs.take(k)) is Some,
    decreases cs.len(),
{
    if k < cs.len() {
        lemma_after_contacts_prefix(sc, ps, cs.drop_last(), k);
        assert(cs.drop_last().take(k) == cs.take(k));
    } else {
        assert(cs.take(k) == cs);
    }
}

/// The tile contacts of the first `k` entities name entities among them.
pub proof fn lemma_tile_contacts_ok<T>(tiles: Seq<Seq<Option<T>>>, ps: Seq<IVec2>, k: int)
    requires
        0 <= k <= ps.len(),
        ps.len() <= usize::MAX,
    ensures
        forall|c: int| 0 <= c < tile_contacts(tiles, ps, k).len() ==> contact_ok(#[trigger] tile_contacts(tiles, ps, k)[c], ps.len() as int),
    decreases k,
{
    if k > 0 {
        lemma_tile_contacts_ok(tiles, ps, k - 1);
        let rest = tile_contacts(tiles, ps, k - 1);
        if tile_at(tiles, ps[k - 1]) is Some {
            assert forall|c: int| 0 <= c < tile_contacts(tiles, ps, k).len() implies contact_ok(#[trigger] tile_contacts(tiles, ps, k)[c], ps.len() as int) by {
                if c < rest.len() {
                    assert(tile_contacts(tiles, ps, k)[c] == rest[c]);
                }
            }
        }
    }
}

/// The contacts of entity `i` with later entities before `j` name entities before `j`.
pub proof fn lemma_pair_contacts_ok<E>(meta: Seq<CollisionData<E>>, ps: Seq<IVec2>, i: int, j: int)
    requires
        0 <= i,
        j <= ps.len(),
        ps.len() <= usize::MAX,
    ensures
        forall|c: int| 0 <= c < pair_contacts(meta, ps, i, j).len() ==> contact_ok(#[trigger] pair_contacts(meta, ps, i, j)[c], ps.len() as int),
    decreases j - i,
{
    if j > i + 1 {
        lemma_pair_contacts_ok(meta, ps, i, j - 1);
        let rest = pair_contacts(meta, ps, i, j - 1);
        if ps[i] == ps[j - 1] {
            assert forall|c: int| 0 <= c < pair_contacts(meta, ps, i, j).len() implies contact_ok(#[trigger] pair_contacts(meta, ps, i, j)[c], ps.len() as int) by {
                if c < rest.len() {
                    assert(pair_contacts(meta, ps, i, j)[c] == rest[c]);
                }
            }
        }
    }
}

/// The contacts between entities name entities.
pub proof fn lemma_ent_contacts_ok<E>(meta: Seq<CollisionData<E>>, ps: Seq<IVec2>, k: int)
    requires
        0 <= k <= ps.len(),
        ps.len() <= usize::MAX,
    ensures
        forall|c: int| 0 <= c < ent_contacts(meta, ps, k).len() ==> contact_ok(#[trigger] ent_contacts(meta, ps, k)[c], ps.len() as int),
    decreases k,
{
    if k > 0 {
        lemma_ent_contacts_ok(meta, ps, k - 1);
        lemma_pair_contacts_ok(meta, ps, k - 1, ps.len() as int);
        let a = ent_contacts(meta, ps, k - 1);
        let b = pair_contacts(meta, ps, k - 1, ps.len() as int);
        assert forall|c: int| 0 <= c < (a + b).len() implies contact_ok(#[trigger] (a + b)[c], ps.len() as int) by {
            if c < a.len() {
                assert((a + b)[c] == a[c]);
            } else {
                assert((a + b)[c] == b[c - a.len()]);
            }
        }
    }
}

/// `c` is a contact between two different entities among the first `n` that stand on the same
/// cell of `ps`.
pub open spec fn same_cell_contact(c: Contact, ps: Seq<IVec2>) -> bool {
    match c {
        Contact::Ent(a, b) => a != b && a < ps.len() && b < ps.len() && ps[a as int] == ps[b as int],
        Contact::Tile(_, _) => false,
    }
}

/// `c` is a contact of an entity of `ps` with the tile under it.
pub open spec fn on_tile_contact<T>(c: Contact, tiles: Seq<Seq<Option<T>>>, ps: Seq<IVec2>) -> bool {
    match c {
        Contact::Tile(a, p) => a < ps.len() && ps[a as int] == p && tile_at(tiles, p) is Some,
        Contact::Ent(_, _) => false,
    }
}

/// The entities `i` and `j` are in contact in `cs`, in one order or the other.
pub open spec fn in_contact(cs: Seq<Contact>, i: int, j: int) -> bool {
    cs.contains(Contact::Ent(i as usize, j as usize)) || cs.contains(Contact::Ent(j as usize, i as usize))
}

proof fn lemma_pair_contacts_exact<E>(meta: Seq<CollisionData<E>>, ps: Seq<IVec2>, i: int, j: int)
    requires
        0 <= i,
        j <= ps.len(),
        ps.len() <= usize::MAX,
    ensures
        forall|k: int| i < k < j && ps[i] == ps[k] ==> in_contact(pair_contacts(meta, ps, i, j), i, k),
        forall|c: int| 0 <= c < pair_contacts(meta, ps, i, j).len() ==> same_cell_contact(#[trigger] pair_contacts(meta, ps, i, j)[c], ps),
    decreases j - i,
{
    if j > i + 1 {
        lemma_pair_contacts_exact(meta, ps, i, j - 1);
        let rest = pair_contacts(meta, ps, i, j - 1);
        let all = pair_contacts(meta, ps, i, j);
        if ps[i] == ps[j - 1] {
            assert(all == rest.push(pair_contact(meta, i, j - 1)));
            assert(all[rest.len() as int] == pair_contact(meta, i, j - 1));
            assert forall|k: int| i < k < j && ps[i] == ps[k] implies in_contact(all, i, k) by {
                if k < j - 1 {
                    assert(in_contact(rest, i, k));
                    if rest.contains(Contact::Ent(i as usize, k as usize)) {
                        let w = choose|w: int| 0 <= w < rest.len() && rest[w] == Contact::Ent(i as usize, k as usize);
                        assert(all[w] == rest[w]);
                    } else {
                        let w = choose|w: int| 0 <= w < rest.len() && rest[w] == Contact::Ent(k as usize, i as usize);
                        assert(all[w] == rest[w]);
                    }
                }
            }
            assert forall|c: int| 0 <= c < all.len() implies same_cell_contact(#[trigger] all[c], ps) by {
                if c < rest.len() {
                    assert(all[c] == rest[c]);
                }
            }
        }
    }
}

proof fn lemma_ent_contacts_exact<E>(meta: Seq<CollisionData<E>>, ps: Seq<IVec2>, k: int)
    requires
        0 <= k <= ps.len(),
        ps.len() <= usize::MAX,
    ensures
        forall|a: int, b: int| 0 <= a < k && a < b < ps.len() && ps[a] == ps[b] ==> in_contact(ent_contacts(meta, ps, k), a, b),
        forall|c: int| 0 <= c < ent_contacts(meta, ps, k).len() ==> same_cell_contact(#[trigger] ent_contacts(meta, ps, k)[c], ps),
    decreases k,
{
    if k > 0 {
        lemma_ent_contacts_exact(meta, ps, k - 1);
        lemma_pair_contacts_exact(meta, ps, k - 1, ps.len() as int);
        let x = ent_contacts(meta, ps, k - 1);
        let y = pair_contacts(meta, ps, k - 1, ps.len() as int);
        assert(ent_contacts(meta, ps, k) == x + y);
        assert forall|a: int, b: int| 0 <= a < k && a < b < ps.len() && ps[a] == ps[b] implies in_contact(x + y, a, b) by {
            let s = if a < k - 1 { x } else { y };
            assert(in_contact(s, a, b));
            let e1 = Contact::Ent(a as usize, b as usize);
            let e2 = Contact::Ent(b as usize, a as usize);
            if s.contains(e1) {
                let w = choose|w: int| 0 <= w < s.len() && s[w] == e1;
                if a < k - 1 { assert((x + y)[w] == x[w]); } else { assert((x + y)[x.len() + w] == y[w]); }
            } else {
                let w = choose|w: int| 0 <= w < s.len() && s[w] == e2;
                if a < k - 1 { assert((x + y)[w] == x[w]); } else { assert((x + y)[x.len() + w] == y[w]); }
            }
        }
        assert forall|c: int| 0 <= c < (x + y).len() implies same_cell_contact(#[trigger] (x + y)[c], ps) by {
            if c < x.len() {
                assert((x + y)[c] == x[c]);
            } else {
                assert((x + y)[c] == y[c - x.len()]);
            }
        }
    }
}

proof fn lemma_tile_contacts_exact<T>(tiles: Seq<Seq<Option<T>>>, ps: Seq<IVec2>, k: int)
    requires
        0 <= k <= ps.len(),
        ps.len() <= usize::MAX,
    ensures
        forall|a: int| 0 <= a < k && tile_at(tiles, ps[a]) is Some ==> tile_contacts(tiles, ps, k).contains(Contact::Tile(a as usize, ps[a])),
        forall|c: int| 0 <= c < tile_contacts(tiles, ps, k).len() ==> on_tile_contact(#[trigger] tile_contacts(tiles, ps, k)[c], tiles, ps),
    decreases k,
{
    if k > 0 {
        lemma_tile_contacts_exact(tiles, ps, k - 1);
        let rest = tile_contacts(tiles, ps, k - 1);
        let all = tile_contacts(tiles, ps, k);
        if tile_at(tiles, ps[k - 1]) is Some {
            assert(all[rest.len() as int] == Contact::Tile((k - 1) as usize, ps[k - 1]));
            assert forall|a: int| 0 <= a < k && tile_at(tiles, ps[a]) is Some implies all.contains(Contact::Tile(a as usize, ps[a])) by {
                if a < k - 1 {
                    let w = choose|w: int| 0 <= w < rest.len() && rest[w] == Contact::Tile(a as usize, ps[a]);
                    assert(all[w] == rest[w]);
                }
            }
            assert forall|c: int| 0 <= c < all.len() implies on_tile_contact(#[trigger] all[c], tiles, ps) by {
                if c < rest.len() {
                    assert(all[c] == rest[c]);
                }
            }
        }
    }
}

/// The lower entity index of an entity contact.
pub open spec fn low(c: Contact) -> int {
    match c {
        Contact::Ent(a, b) => if a < b { a as int } else { b as int },
        Contact::Tile(a, _) => a as int,
    }
}

/// The higher entity index of an entity contact.
pub open spec fn high(c: Contact) -> int {
    match c {
        Contact::Ent(a, b) => if a < b { b as int } else { a as int },
        Contact::Tile(a, _) => a as int,
    }
}

/// The entity named first in an entity contact is the one pushed back: the one with the lower
/// index, unless it is fixed and the other is not.
pub open spec fn pushed_first<E>(c: Contact, meta: Seq<CollisionData<E>>) -> bool {
    match c {
        Contact::Ent(a, b) => {
            ||| a < b && !(meta[a as int].fixed && !meta[b as int].fixed)
            ||| b < a && meta[b as int].fixed && !meta[a as int].fixed
        },
        Contact::Tile(_, _) => true,
    }
}

proof fn lemma_pair_contacts_order<E>(meta: Seq<CollisionData<E>>, ps: Seq<IVec2>, i: int, j: int)
    requires
        0 <= i,
        j <= ps.len(),
        ps.len() <= usize::MAX,
    ensures
        forall|c: int| 0 <= c < pair_contacts(meta, ps, i, j).len() ==> {
            let x = #[trigger] pair_contacts(meta, ps, i, j)[c];
            &&& x is Ent
            &&& low(x) == i
            &&& i < high(x) < j
            &&& pushed_first(x, meta)
        },
        forall|p: int, q: int| 0 <= p < q < pair_contacts(meta, ps, i, j).len()
            ==> high(#[trigger] pair_contacts(meta, ps, i, j)[p]) < high(#[trigger] pair_contacts(meta, ps, i, j)[q]),
    decreases j - i,
{
    if j > i + 1 {
        lemma_pair_contacts_order(meta, ps, i, j - 1);
        let rest = pair_contacts(meta, ps, i, j - 1);
        let all = pair_contacts(meta, ps, i, j);
        if ps[i] == ps[j - 1] {
            assert(all == rest.push(pair_contact(meta, i, j - 1)));
            assert forall|c: int| 0 <= c < all.len() implies {
                let x = #[trigger] all[c];
                &&& x is Ent
                &&& low(x) == i
                &&& i < high(x) < j
                &&& pushed_first(x, meta)
            } by {
                if c < rest.len() {
                    assert(all[c] == rest[c]);
                }
            }
            assert forall|p: int, q: int| 0 <= p < q < all.len() implies high(#[trigger] all[p]) < high(#[trigger] all[q]) by {
                assert(all[p] == rest[p]);
                if q < rest.len() {
                    assert(all[q] == rest[q]);
                }
            }
        }
    }
}

proof fn lemma_ent_contacts_order<E>(meta: Seq<CollisionData<E>>, ps: Seq<IVec2>, k: int)
    requires
        0 <= k <= ps.len(),
        ps.len() <= usize::MAX,
    ensures
        forall|c: int| 0 <= c < ent_contacts(meta, ps, k).len() ==> {
            let x = #[trigger] ent_contacts(meta, ps, k)[c];
            &&& x is Ent
            &&& 0 <= low(x) < k
            &&& low(x) < high(x) < ps.len()
            &&& pushed_first(x, meta)
        },
        forall|p: int, q: int| 0 <= p < q < ent_contacts(meta, ps, k).len() ==> {
            let x = #[trigger] ent_contacts(meta, ps, k)[p];
            let y = #[trigger] ent_contacts(meta, ps, k)[q];
            low(x) < low(y) || (low(x) == low(y) && high(x) < high(y))
        },
    decreases k,
{
    if k > 0 {
        lemma_ent_contacts_order(meta, ps, k - 1);
        lemma_pair_contacts_order(meta, ps, k - 1, ps.len() as int);
        let a = ent_contacts(meta, ps, k - 1);
        let b = pair_contacts(meta, ps, k - 1, ps.len() as int);
        assert(ent_contacts(meta, ps, k) == a + b);
        assert forall|c: int| 0 <= c < (a + b).len() implies {
            let x = #[trigger] (a + b)[c];
            &&& x is Ent
            &&& 0 <= low(x) < k
            &&& low(x) < high(x) < ps.len()
            &&& pushed_first(x, meta)
        } by {
            if c < a.len() {
                assert((a + b)[c] == a[c]);
            } else {
                assert((a + b)[c] == b[c - a.len()]);
            }
        }
        assert forall|p: int, q: int| 0 <= p < q < (a + b).len() implies {
            let x = #[trigger] (a + b)[p];
            let y = #[trigger] (a + b)[q];
            low(x) < low(y) || (low(x) == low(y) && high(x) < high(y))
        } by {
            if q < a.len() {
                assert((a + b)[p] == a[p]);
                assert((a + b)[q] == a[q]);
            } else if p < a.len() {
                assert((a + b)[p] == a[p]);
                assert((a + b)[q] == b[q - a.len()]);
            } else {
                assert((a + b)[p] == b[p - a.len()]);
                assert((a + b)[q] == b[q - a.len()]);
            }
        }
    }
}

/// The contacts between entities come pair by pair in index order, each pair once; the entity
/// named first is the one pushed back, the lower index unless it is fixed and the other is
/// not.
pub proof fn law_entity_contacts_once_in_order<E>(meta: Seq<CollisionData<E>>, ps: Seq<IVec2>)
    requires
        ps.len() <= usize::MAX,
    ensures
        forall|c: int| 0 <= c < ent_contacts(meta, ps, ps.len() as int).len()
            ==> pushed_first(#[trigger] ent_contacts(meta, ps, ps.len() as int)[c], meta),
        forall|p: int, q: int| 0 <= p < q < ent_contacts(meta, ps, ps.len() as int).len() ==> {
            let x = #[trigger] ent_contacts(meta, ps, ps.len() as int)[p];
            let y = #[trigger] ent_contacts(meta, ps, ps.len() as int)[q];
            low(x) < low(y) || (low(x) == low(y) && high(x) < high(y))
        },
{
    lemma_ent_contacts_order(meta, ps, ps.len() as int);
}

/// The contacts that an update reports are exactly what stands together: every two entities
/// on the same cell are in contact (in one order or the other), every entity on a tile is in
/// contact with it, and every contact is one of these, for two different entities.
pub proof fn law_contacts_are_what_stands_together<T, E>(tiles: Seq<Seq<Option<T>>>, meta: Seq<CollisionData<E>>, ps: Seq<IVec2>)
    requires
        ps.len() <= usize::MAX,
    ensures
        forall|i: int, j: int| 0 <= i < j < ps.len() && ps[i] == ps[j]
            ==> in_contact(tile_contacts(tiles, ps, ps.len() as int) + ent_contacts(meta, ps, ps.len() as int), i, j),
        forall|i: int| 0 <= i < ps.len() && tile_at(tiles, ps[i]) is Some
            ==> (tile_contacts(tiles, ps, ps.len() as int) + ent_contacts(meta, ps, ps.len() as int)).contains(Contact::Tile(i as usize, ps[i])),
        forall|c: int| 0 <= c < (tile_contacts(tiles, ps, ps.len() as int) + ent_contacts(meta, ps, ps.len() as int)).len() ==> {
            let x = #[trigger] (tile_contacts(tiles, ps, ps.len() as int) + ent_contacts(meta, ps, ps.len() as int))[c];
            same_cell_contact(x, ps) || on_tile_contact(x, tiles, ps)
        },
{
    let n = ps.len() as int;
    lemma_tile_contacts_exact(tiles, ps, n);
    lemma_ent_contacts_exact(meta, ps, n);
    let t = tile_contacts(tiles, ps, n);
    let e = ent_contacts(meta, ps, n);
    assert forall|i: int, j: int| 0 <= i < j < ps.len() && ps[i] == ps[j] implies in_contact(t + e, i, j) by {
        assert(in_contact(e, i, j));
        if e.contains(Contact::Ent(i as usize, j as usize)) {
            let w = choose|w: int| 0 <= w < e.len() && e[w] == Contact::Ent(i as usize, j as usize);
            assert((t + e)[t.len() + w] == e[w]);
        } else {
            let w = choose|w: int| 0 <= w < e.len() && e[w] == Contact::Ent(j as usize, i as usize);
            assert((t + e)[t.len() + w] == e[w]);
        }
    }
    assert forall|i: int| 0 <= i < ps.len() && tile_at(tiles, ps[i]) is Some implies (t + e).contains(Contact::Tile(i as usize, ps[i])) by {
        let w = choose|w: int| 0 <= w < t.len() && t[w] == Contact::Tile(i as usize, ps[i]);
        assert((t + e)[w] == t[w]);
    }
    assert forall|c: int| 0 <= c < (t + e).len() implies {
        let x = #[trigger] (t + e)[c];
        same_cell_contact(x, ps) || on_tile_contact(x, tiles, ps)
    } by {
        if c < t.len() {
            assert((t + e)[c] == t[c]);
        } else {
            assert((t + e)[c] == e[c - t.len()]);
        }
    }
}

impl<TileID: Copy + Ord, EntID: Copy> TileMapCollision<TileID, EntID> {
    /// The tiles as a grid of rows.
    pub open spec fn grid(&self) -> Seq<Seq<Option<TileID>>> {
        self.map@.map_values(|r: Vec<Option<TileID>>| r@)
    }

    /// What restitution reads of the logic.
    pub open spec fn scene(&self) -> Scene<TileID, EntID> {
        Scene { tiles: self.grid(), solid: self.tile_solid@, meta: self.metadata@, amt: self.amt_moved@ }
    }

    /// Every row is as long as the first, and the grid fits the range of a coordinate.
    pub open spec fn rectangular(&self) -> bool {
        &&& forall|y: int| 0 <= y < self.map@.len() ==> (#[trigger] self.map@[y])@.len() == width(self.grid())
        &&& width(self.grid()) <= i32::MAX
        &&& self.map@.len() <= i32::MAX
    }

    /// One position, metadata and movement per entity.
    pub open spec fn ents_aligned(&self) -> bool {
        &&& self.metadata@.len() == self.positions@.len()
        &&& self.amt_moved@.len() == self.positions@.len()
    }

    /// `pos` names a cell that the map holds: a row that exists, and a column of that row.
    pub open spec fn on_map(&self, pos: IVec2) -> bool {
        &&& 0 <= pos.y < self.map@.len()
        &&& 0 <= pos.x < self.map@[pos.y as int]@.len()
    }

    /// Every entity stands on a cell of the grid.
    pub open spec fn ents_in_bounds(&self) -> bool {
        forall|i: int| 0 <= i < self.positions@.len() ==> in_grid(self.grid(), #[trigger] self.positions@[i])
    }

    /// All contacts: every entity on a tile, then every pair of entities on the same cell.
    pub open spec fn all_contacts(&self) -> Seq<Contact> {
        tile_contacts(self.grid(), self.positions@, self.positions@.len() as int)
            + ent_contacts(self.metadata@, self.positions@, self.positions@.len() as int)
    }

    /// Whether `pos` is a cell of the grid.
    fn in_bounds(&self, pos: IVec2) -> (res: bool)
        requires
            self.map@.len() > 0,
            self.rectangular(),
        ensures
            res == in_grid(self.grid(), pos),
    {
        let w = self.map[0].len();
        let h = self.map.len();
        pos.x < w as i32 && pos.y < h as i32 && pos.x >= 0 && pos.y >= 0
    }

    /// Whether a tile is solid.
    fn tile_solid(&self, tile_id: &TileID) -> (res: bool)
        requires
            id_laws::<TileID>(),
            self.tile_solid@.contains_key(*tile_id),
        ensures
            res == self.tile_solid@[*tile_id],
    {
        *self.tile_solid.get(tile_id).unwrap()
    }

    /// The tile at a cell of the grid.
    fn tile_at_pos(&self, pos: &IVec2) -> (res: &Option<TileID>)
        requires
            self.on_map(*pos),
        ensures
            *res == tile_at(self.grid(), *pos),
    {
        &self.map[pos.y as usize][pos.x as usize]
    }

    /// Pushes an entity at `pos` that moved by `moved` back along its way, as `restitute` says.
    fn restitute_ent(&self, pos: &mut IVec2, moved: IVec2)
        requires
            self.rectangular(),
            id_laws::<TileID>(),
            moved == spec_normalize(moved),
            restitute(self.grid(), self.tile_solid@, *old(pos), moved) is Some,
        ensures
            *final(pos) == restitute(self.grid(), self.tile_solid@, *old(pos), moved)->Some_0,
    {
        let ghost start = *pos;
        let ghost tiles = self.grid();
        let ghost solid = self.tile_solid@;
        if moved == IVec2::zero() {
            assert(interior(tiles, start));
            if !self.in_bounds(IVec2::new(pos.x, pos.y - 1)) {
                pos.y = pos.y - 1;
            } else if !self.in_bounds(IVec2::new(pos.x, pos.y + 1)) {
                pos.y = pos.y + 1;
            } else if !self.in_bounds(IVec2::new(pos.x - 1, pos.y)) {
                pos.x = pos.x - 1;
            } else if !self.in_bounds(IVec2::new(pos.x + 1, pos.y)) {
                pos.x = pos.x + 1;
            }
        }
        let mut new_pos = *pos;
        loop
            invariant_except_break
                in_grid(tiles, new_pos),
                *pos == start,
                moved.x == 0 && moved.y == 0 ==> new_pos == start,
                !(moved.x == 0 && moved.y == 0) ==> walk(tiles, solid, start, new_pos, moved) == restitute(tiles, solid, start, moved),
            invariant
                tiles == self.grid(),
                solid == self.tile_solid@,
                self.rectangular(),
                id_laws::<TileID>(),
                moved == spec_normalize(moved),
                restitute(tiles, solid, start, moved) is Some,
            ensures
                *pos == restitute(tiles, solid, start, moved)->Some_0,
            decreases (if unit_step(moved) { steps_left(tiles, new_pos, moved) } else { 0 }),
        {
            match self.map[new_pos.y as usize][new_pos.x as usize] {
                None => {
                    break;
                },
                Some(tile_id) => {
                    assert(tile_at(tiles, new_pos) == Some(tile_id));
                    if self.tile_solid(&tile_id) {
                        new_pos = IVec2::new(new_pos.x - moved.x, new_pos.y - moved.y);
                        if !self.in_bounds(new_pos) {
                            break;
                        }
                    } else {
                        *pos = new_pos;
                        break;
                    }
                },
            }
        }
    }
}

impl<TileID: Copy + Ord, EntID: Copy> TileMapCollision<TileID, EntID> {
    /// Finds the contacts, then restitutes them in order.
    ///
    /// Contacts are every entity that stands on a tile, in entity order, then every pair of
    /// entities on the same cell (the fixed one second where only one is fixed), pair by pair.
    /// A solid entity that is not fixed and is still on the solid tile it touched is pushed
    /// back along its movement; of two entities still on the same cell, both solid, the first
    /// (if not fixed) is pushed back along its movement, and the second, if not fixed, is moved
    /// on from where it stands.
    pub fn update(&mut self)
        requires
            old(self).rectangular(),
            old(self).ents_aligned(),
            old(self).ents_in_bounds(),
            id_laws::<TileID>(),
            after_contacts(old(self).scene(), old(self).positions@, old(self).all_contacts()) is Some,
        ensures
            final(self).contacts@ == old(self).all_contacts(),
            forall|i: int, j: int| 0 <= i < j < old(self).positions@.len() && old(self).positions@[i] == old(self).positions@[j]
                ==> in_contact(final(self).contacts@, i, j),
            forall|i: int| 0 <= i < old(self).positions@.len() && tile_at(old(self).grid(), old(self).positions@[i]) is Some
                ==> final(self).contacts@.contains(Contact::Tile(i as usize, old(self).positions@[i])),
            forall|c: int| 0 <= c < final(self).contacts@.len() ==> same_cell_contact(#[trigger] final(self).contacts@[c], old(self).positions@)
                || on_tile_contact(final(self).contacts@[c], old(self).grid(), old(self).positions@),
            final(self).positions@ == after_contacts(old(self).scene(), old(self).positions@, old(self).all_contacts())->Some_0,
            final(self).map@ == old(self).map@,
            final(self).tile_solid@ == old(self).tile_solid@,
            final(self).metadata@ == old(self).metadata@,
            final(self).amt_moved@ == old(self).amt_moved@,
            final(self).ents_in_bounds(),
    {
        self.contacts.clear();
        let n = self.positions.len();
        let ghost ps = self.positions@;
        let ghost tiles = self.grid();
        let ghost meta = self.metadata@;
        // ent vs tile
        let mut i: usize = 0;
        while i < n
            invariant
                self.map@ == old(self).map@,
                self.tile_solid@ == old(self).tile_solid@,
                self.metadata@ == old(self).metadata@,
                self.amt_moved@ == old(self).amt_moved@,
                n == ps.len(),
                i <= n,
                self.positions@ == ps,
                self.grid() == tiles,
                self.rectangular(),
                self.ents_in_bounds(),
                self.contacts@ == tile_contacts(tiles, ps, i as int),
            decreases n - i,
        {
            let pos_i = self.positions[i];
            assert(self.map@[pos_i.y as int]@.len() == width(self.grid()));
            if self.tile_at_pos(&pos_i).is_some() {
                self.contacts.push(Contact::Tile(i, pos_i));
            }
            i = i + 1;
        }
        let ghost tcs = self.contacts@;
        // ent vs ent
        let mut i: usize = 0;
        while i < n
            invariant
                self.map@ == old(self).map@,
                self.tile_solid@ == old(self).tile_solid@,
                self.metadata@ == old(self).metadata@,
                self.amt_moved@ == old(self).amt_moved@,
                n == ps.len(),
                i <= n,
                self.positions@ == ps,
                self.metadata@ == meta,
                meta.len() == n,
                self.contacts@ == tcs + ent_contacts(meta, ps, i as int),
            decreases n - i,
        {
            let mut j: usize = i + 1;
            while j < n
                invariant
                    self.map@ == old(self).map@,
                    self.tile_solid@ == old(self).tile_solid@,
                    self.metadata@ == old(self).metadata@,
                    self.amt_moved@ == old(self).amt_moved@,
                    n == ps.len(),
                    i < n,
                    i + 1 <= j <= n,
                    self.positions@ == ps,
                    self.metadata@ == meta,
                    meta.len() == n,
                    self.contacts@ == tcs + ent_contacts(meta, ps, i as int) + pair_contacts(meta, ps, i as int, j as int),
                decreases n - j,
            {
                if self.positions[i] == self.positions[j] {
                    let mut a = i;
                    let mut b = j;
                    if self.metadata[i].fixed && !self.metadata[j].fixed {
                        a = j;
                        b = i;
                    }
                    self.contacts.push(Contact::Ent(a, b));
                }
                j = j + 1;
            }
            assert(tcs + ent_contacts(meta, ps, i + 1) == tcs + ent_contacts(meta, ps, i as int) + pair_contacts(meta, ps, i as int, n as int));
            i = i + 1;
        }
        // restitute
        let ghost cs = self.contacts@;
        let ghost sc = self.scene();
        assert(cs == old(self).all_contacts());
        proof {
            law_contacts_are_what_stands_together(tiles, meta, ps);
            lemma_tile_contacts_ok(tiles, ps, n as int);
            lemma_ent_contacts_ok(meta, ps, n as int);
            assert forall|c: int| 0 <= c < cs.len() implies contact_ok(#[trigger] cs[c], n as int) by {
                let a = tile_contacts(tiles, ps, n as int);
                let b = ent_contacts(meta, ps, n as int);
                if c < a.len() {
                    assert(cs[c] == a[c]);
                } else {
                    assert(cs[c] == b[c - a.len()]);
                }
            }
            assert(cs.take(0) == Seq::<Contact>::empty());
        }
        let m = self.contacts.len();
        let mut k: usize = 0;
        while k < m
            invariant
                self.map@ == old(self).map@,
                self.tile_solid@ == old(self).tile_solid@,
                self.metadata@ == old(self).metadata@,
                self.amt_moved@ == old(self).amt_moved@,
                m == cs.len(),
                k <= m,
                n == ps.len(),
                self.contacts@ == cs,
                sc == self.scene(),
                sc.tiles == tiles,
                self.rectangular(),
                self.ents_aligned(),
                self.positions@.len() == n,
                self.ents_in_bounds(),
                id_laws::<TileID>(),
                forall|c: int| 0 <= c < cs.len() ==> contact_ok(#[trigger] cs[c], n as int),
                after_contacts(sc, ps, cs) is Some,
                after_contacts(sc, ps, cs.take(k as int)) == Some(self.positions@),
            decreases m - k,
        {
            let c = self.contacts[k];
            proof {
                lemma_after_contacts_prefix(sc, ps, cs, k + 1);
                assert(cs.take(k + 1).drop_last() == cs.take(k as int));
                assert(cs.take(k + 1).last() == cs[k as int]);
                assert(contact_ok(c, n as int));
            }
            let ghost before = self.positions@;
            match c {
                Contact::Tile(i, pos) => {
                    if self.positions[i] == pos && self.metadata[i].solid && !self.metadata[i].fixed {
                        assert(self.map@[pos.y as int]@.len() == width(self.grid()));
                        let tile = *self.tile_at_pos(&pos);
                        if let Some(tile_id) = tile {
                            if self.tile_solid(&tile_id) {
                                let moved = normalize(self.amt_moved[i]);
                                let p0 = self.positions[i];
                                let mut p = IVec2::new(p0.x - moved.x, p0.y - moved.y);
                                self.restitute_ent(&mut p, moved);
                                self.positions.set(i, p);
                            }
                        }
                    }
                },
                Contact::Ent(i, j) => {
                    if self.positions[i] == self.positions[j] && self.metadata[i].solid && !self.metadata[i].fixed
                        && self.metadata[j].solid {
                        let moved = normalize(self.amt_moved[i]);
                        let p0 = self.positions[i];
                        let mut p = IVec2::new(p0.x - moved.x, p0.y - moved.y);
                        self.restitute_ent(&mut p, moved);
                        self.positions.set(i, p);
                        if !self.metadata[j].fixed {
                            let moved = normalize(self.amt_moved[j]);
                            let mut q = self.positions[j];
                            self.restitute_ent(&mut q, moved);
                            self.positions.set(j, q);
                        }
                    }
                },
            }
            proof {
                lemma_after_contact_in_grid(sc, before, c);
            }
            k = k + 1;
        }
        assert(cs.take(m as int) == cs);
    }
}

/// A grid of `height` rows of `width` empty cells.
pub open spec fn empty_grid<T>(width: nat, height: nat) -> Seq<Seq<Option<T>>> {
    Seq::new(height, |y: int| Seq::new(width, |x: int| None::<T>))
}

/// `n` empty cells.
fn empty_row<T>(n: usize) -> (res: Vec<Option<T>>)
    ensures
        res@ == Seq::new(n as nat, |x: int| None::<T>),
{
    let mut row: Vec<Option<T>> = Vec::with_capacity(n);
    while row.len() < n
        invariant
            row@.len() <= n,
            forall|x: int| 0 <= x < row@.len() ==> (#[trigger] row@[x]) is None,
        decreases n - row@.len(),
    {
        row.push(None);
    }
    assert(row@ =~= Seq::new(n as nat, |x: int| None::<T>));
    row
}

impl<TileID: Copy + Ord, EntID: Copy> TileMapCollision<TileID, EntID> {
    /// A logic over an empty grid of `height` rows of `width` cells, with no entities and no
    /// tile data.
    pub fn new(width: usize, height: usize) -> (res: Self)
        ensures
            res.grid() == empty_grid::<TileID>(width as nat, height as nat),
            res.tile_solid@ == Map::<TileID, bool>::empty(),
            res.positions@ == Seq::<IVec2>::empty(),
            res.metadata@ == Seq::<CollisionData<EntID>>::empty(),
            res.amt_moved@ == Seq::<IVec2>::empty(),
            res.contacts@ == Seq::<Contact>::empty(),
    {
        let mut collision = Self {
            map: Vec::new(),
            tile_solid: BTreeMap::new(),
            positions: Vec::new(),
            metadata: Vec::new(),
            amt_moved: Vec::new(),
            contacts: Vec::new(),
        };
        collision.clear_and_resize_map(width, height);
        collision
    }

    /// Replaces the grid with `height` rows of `width` empty cells.
    pub fn clear_and_resize_map(&mut self, width: usize, height: usize)
        ensures
            final(self).grid() == empty_grid::<TileID>(width as nat, height as nat),
            final(self).tile_solid@ == old(self).tile_solid@,
            final(self).positions@ == old(self).positions@,
            final(self).metadata@ == old(self).metadata@,
            final(self).amt_moved@ == old(self).amt_moved@,
            final(self).contacts@ == old(self).contacts@,
    {
        self.map.clear();
        while self.map.len() < height
            invariant
                self.map@.len() <= height,
                forall|y: int| 0 <= y < self.map@.len() ==> (#[trigger] self.map@[y])@ == Seq::new(width as nat, |x: int| None::<TileID>),
                self.tile_solid@ == old(self).tile_solid@,
                self.positions@ == old(self).positions@,
                self.metadata@ == old(self).metadata@,
                self.amt_moved@ == old(self).amt_moved@,
                self.contacts@ == old(self).contacts@,
            decreases height - self.map@.len(),
        {
            self.map.push(empty_row(width));
        }
        assert(self.grid() =~~= empty_grid::<TileID>(width as nat, height as nat));
    }

    /// Removes every entity.
    pub fn clear_entities(&mut self)
        ensures
            final(self).positions@ == Seq::<IVec2>::empty(),
            final(self).amt_moved@ == Seq::<IVec2>::empty(),
            final(self).metadata@ == Seq::<CollisionData<EntID>>::empty(),
            final(self).map@ == old(self).map@,
            final(self).tile_solid@ == old(self).tile_solid@,
            final(self).contacts@ == old(self).contacts@,
    {
        self.positions.clear();
        self.amt_moved.clear();
        self.metadata.clear();
    }

    /// Forgets whether each kind of tile is solid.
    pub fn clear_tile_data(&mut self)
        ensures
            final(self).tile_solid@ == Map::<TileID, bool>::empty(),
            final(self).map@ == old(self).map@,
            final(self).positions@ == old(self).positions@,
            final(self).amt_moved@ == old(self).amt_moved@,
            final(self).metadata@ == old(self).metadata@,
            final(self).contacts@ == old(self).contacts@,
    {
        self.tile_solid.clear();
    }

    /// What `get_ident_data` gives for `ident`.
    pub open spec fn ident_data(&self, ident: ColIdent) -> TileMapColData<TileID, EntID> {
        match ident {
            ColIdent::Position(pos) => {
                let id = tile_at(self.grid(), pos)->Some_0;
                TileMapColData::Position { pos, solid: self.tile_solid@[id], id }
            },
            ColIdent::EntIdx(idx) => {
                let meta = self.metadata@[idx as int];
                TileMapColData::Ent {
                    pos: self.positions@[idx as int],
                    amt_moved: self.amt_moved@[idx as int],
                    solid: meta.solid,
                    fixed: meta.fixed,
                    id: meta.id,
                }
            },
        }
    }

    /// `get_ident_data` can answer for `ident`: a tile there whose solidity is specified, or
    /// an entity with that index.
    pub open spec fn ident_readable(&self, ident: ColIdent) -> bool {
        match ident {
            ColIdent::Position(pos) => {
                &&& self.on_map(pos)
                &&& tile_at(self.grid(), pos) is Some
                &&& self.tile_solid@.contains_key(tile_at(self.grid(), pos)->Some_0)
            },
            ColIdent::EntIdx(idx) => {
                &&& idx < self.positions@.len()
                &&& idx < self.metadata@.len()
                &&& idx < self.amt_moved@.len()
            },
        }
    }

    /// The tile at a cell with its solidity, or an entity's position, movement and metadata.
    pub fn get_ident_data(&self, ident: ColIdent) -> (res: TileMapColData<TileID, EntID>)
        requires
            id_laws::<TileID>(),
            self.ident_readable(ident),
        ensures
            res == self.ident_data(ident),
    {
        match ident {
            ColIdent::Position(pos) => {
                let id = self.tile_at_pos(&pos).unwrap();
                TileMapColData::Position { pos, solid: self.tile_solid(&id), id }
            },
            ColIdent::EntIdx(idx) => {
                let meta = &self.metadata[idx];
                TileMapColData::Ent {
                    pos: self.positions[idx],
                    amt_moved: self.amt_moved[idx],
                    solid: meta.solid,
                    fixed: meta.fixed,
                    id: meta.id,
                }
            },
        }
    }

    /// Writes back data for an ident: a tile moves from the cell `ident` names to the cell the
    /// data names (emptying the first where they differ) and its solidity is recorded; an
    /// entity takes the data's position, movement and metadata.
    pub fn update_ident_data(&mut self, ident: ColIdent, data: TileMapColData<TileID, EntID>)
        requires
            id_laws::<TileID>(),
            match (ident, data) {
                (ColIdent::Position(p), TileMapColData::Position { pos, .. }) => old(self).on_map(p) && old(self).on_map(pos),
                (ColIdent::EntIdx(idx), TileMapColData::Ent { .. }) => {
                    &&& idx < old(self).positions@.len()
                    &&& idx < old(self).metadata@.len()
                    &&& idx < old(self).amt_moved@.len()
                },
                _ => false,
            },
        ensures
            old(self).rectangular() ==> final(self).rectangular(),
            final(self).contacts@ == old(self).contacts@,
            match (ident, data) {
                (ColIdent::Position(p), TileMapColData::Position { pos, solid, id }) => {
                    let cleared = if p != pos { set_tile(old(self).grid(), p, None) } else { old(self).grid() };
                    &&& final(self).grid() == set_tile(cleared, pos, Some(id))
                    &&& final(self).tile_solid@ == old(self).tile_solid@.insert(id, solid)
                    &&& final(self).positions@ == old(self).positions@
                    &&& final(self).amt_moved@ == old(self).amt_moved@
                    &&& final(self).metadata@ == old(self).metadata@
                },
                (ColIdent::EntIdx(idx), TileMapColData::Ent { pos, amt_moved, solid, fixed, id }) => {
                    &&& final(self).map@ == old(self).map@
                    &&& final(self).tile_solid@ == old(self).tile_solid@
                    &&& final(self).positions@ == old(self).positions@.update(idx as int, pos)
                    &&& final(self).amt_moved@ == old(self).amt_moved@.update(idx as int, amt_moved)
                    &&& final(self).metadata@ == old(self).metadata@.update(idx as int, CollisionData { solid, fixed, id })
                },
                _ => false,
            },
    {
        match (ident, data) {
            (ColIdent::Position(pos_ident), TileMapColData::Position { pos, solid, id }) => {
                if pos_ident != pos {
                    self.set_tile_at(pos_ident, None);
                }
                self.set_tile_at(pos, Some(id));
                self.tile_solid.insert(id, solid);
            },
            (ColIdent::EntIdx(idx), TileMapColData::Ent { pos, amt_moved, solid, fixed, id }) => {
                self.positions.set(idx, pos);
                self.amt_moved.set(idx, amt_moved);
                self.metadata.set(idx, CollisionData { solid, fixed, id });
            },
            _ => {},
        }
    }

    /// Puts `tile` at a cell of the grid.
    fn set_tile_at(&mut self, pos: IVec2, tile: Option<TileID>)
        requires
            old(self).on_map(pos),
        ensures
            final(self).grid() == set_tile(old(self).grid(), pos, tile),
            final(self).map@.len() == old(self).map@.len(),
            forall|y: int| 0 <= y < old(self).map@.len() ==> (#[trigger] final(self).map@[y])@.len() == old(self).map@[y]@.len(),
            old(self).rectangular() ==> final(self).rectangular(),
            final(self).tile_solid@ == old(self).tile_solid@,
            final(self).positions@ == old(self).positions@,
            final(self).amt_moved@ == old(self).amt_moved@,
            final(self).metadata@ == old(self).metadata@,
            final(self).contacts@ == old(self).contacts@,
    {
        let ghost g = self.grid();
        self.map[pos.y as usize].set(pos.x as usize, tile);
        assert(self.grid() =~~= set_tile(g, pos, tile));
    }
}

/// The grid with `tile` at cell `pos`.
pub open spec fn set_tile<T>(tiles: Seq<Seq<Option<T>>>, pos: IVec2, tile: Option<T>) -> Seq<Seq<Option<T>>> {
    tiles.update(pos.y as int, tiles[pos.y as int].update(pos.x as int, tile))
}

impl<TileID: Copy + Ord, EntID: Copy> Logic for TileMapCollision<TileID, EntID> {
    type Reaction = CollisionReaction<TileID, EntID>;

    open spec fn can_handle(&self, reaction: &CollisionReaction<TileID, EntID>) -> bool {
        match *reaction {
            CollisionReaction::SetTileAtPos(pos, _) => self.on_map(pos),
            CollisionReaction::RemoveTileAtPos(pos) => self.on_map(pos),
            CollisionReaction::SetEntPos(idx, _) => idx < self.positions@.len(),
            CollisionReaction::SetEntVel(idx, _) => idx < self.amt_moved@.len(),
            CollisionReaction::SetEntData(idx, _, _, _) => idx < self.metadata@.len(),
            CollisionReaction::RemoveEnt(idx) => {
                &&& idx < self.positions@.len()
                &&& idx < self.amt_moved@.len()
                &&& idx < self.metadata@.len()
            },
        }
    }

    /// Sets or removes the tile at a cell, or sets, or removes, an entity's position,
    /// movement or metadata.
    fn handle_predicate(&mut self, reaction: &CollisionReaction<TileID, EntID>)
        ensures
            old(self).rectangular() ==> final(self).rectangular(),
            final(self).tile_solid@ == old(self).tile_solid@,
            final(self).contacts@ == old(self).contacts@,
            match *reaction {
                CollisionReaction::SetTileAtPos(pos, id) => {
                    &&& final(self).grid() == set_tile(old(self).grid(), pos, Some(id))
                    &&& final(self).positions@ == old(self).positions@
                    &&& final(self).amt_moved@ == old(self).amt_moved@
                    &&& final(self).metadata@ == old(self).metadata@
                },
                CollisionReaction::RemoveTileAtPos(pos) => {
                    &&& final(self).grid() == set_tile(old(self).grid(), pos, None)
                    &&& final(self).positions@ == old(self).positions@
                    &&& final(self).amt_moved@ == old(self).amt_moved@
                    &&& final(self).metadata@ == old(self).metadata@
                },
                CollisionReaction::SetEntPos(idx, pos) => {
                    &&& final(self).map@ == old(self).map@
                    &&& final(self).positions@ == old(self).positions@.update(idx as int, pos)
                    &&& final(self).amt_moved@ == old(self).amt_moved@
                    &&& final(self).metadata@ == old(self).metadata@
                },
                CollisionReaction::SetEntVel(idx, vel) => {
                    &&& final(self).map@ == old(self).map@
                    &&& final(self).positions@ == old(self).positions@
                    &&& final(self).amt_moved@ == old(self).amt_moved@.update(idx as int, vel)
                    &&& final(self).metadata@ == old(self).metadata@
                },
                CollisionReaction::SetEntData(idx, solid, fixed, id) => {
                    &&& final(self).map@ == old(self).map@
                    &&& final(self).positions@ == old(self).positions@
                    &&& final(self).amt_moved@ == old(self).amt_moved@
                    &&& final(self).metadata@ == old(self).metadata@.update(idx as int, CollisionData { solid, fixed, id })
                },
                CollisionReaction::RemoveEnt(idx) => {
                    &&& final(self).map@ == old(self).map@
                    &&& final(self).positions@ == old(self).positions@.remove(idx as int)
                    &&& final(self).amt_moved@ == old(self).amt_moved@.remove(idx as int)
                    &&& final(self).metadata@ == old(self).metadata@.remove(idx as int)
                },
            },
    {
        match *reaction {
            CollisionReaction::SetTileAtPos(pos, id) => {
                self.set_tile_at(pos, Some(id));
            },
            CollisionReaction::RemoveTileAtPos(pos) => {
                self.set_tile_at(pos, None);
            },
            CollisionReaction::SetEntPos(idx, pos) => {
                self.positions.set(idx, pos);
            },
            CollisionReaction::SetEntVel(idx, vel) => {
                self.amt_moved.set(idx, vel);
            },
            CollisionReaction::SetEntData(idx, solid, fixed, id) => {
                self.metadata.set(idx, CollisionData { solid, fixed, id });
            },
            CollisionReaction::RemoveEnt(idx) => {
                self.positions.remove(idx);
                self.amt_moved.remove(idx);
                self.metadata.remove(idx);
            },
        }
    }
}

impl<TileID: Copy + Ord, EntID: Copy> TileMapCollision<TileID, EntID> {
    /// Every row and column index of the map is a coordinate.
    pub open spec fn coords_fit(&self) -> bool {
        &&& self.map@.len() <= i32::MAX
        &&& forall|y: int| 0 <= y < self.map@.len() ==> (#[trigger] self.map@[y])@.len() <= i32::MAX
    }

    /// Every entity has metadata and a movement.
    pub open spec fn ents_readable(&self) -> bool {
        &&& self.metadata@.len() >= self.positions@.len()
        &&& self.amt_moved@.len() >= self.positions@.len()
    }

    /// Every tile on the grid has its solidity specified.
    pub open spec fn tiles_known(&self) -> bool {
        forall|y: int, x: int|
            0 <= y < self.grid().len() && 0 <= x < self.grid()[y].len() && (#[trigger] self.grid()[y][x]) is Some
                ==> self.tile_solid@.contains_key(self.grid()[y][x]->Some_0)
    }

    /// The idents of the tiles of row `y` before column `x`, with their data.
    pub open spec fn row_idents(&self, y: int, x: int) -> Seq<(ColIdent, TileMapColData<TileID, EntID>)>
        decreases x,
    {
        if x <= 0 {
            Seq::empty()
        } else {
            let rest = self.row_idents(y, x - 1);
            if self.grid()[y][x - 1] is Some {
                let ident = ColIdent::Position(IVec2 { x: (x - 1) as i32, y: y as i32 });
                rest.push((ident, self.ident_data(ident)))
            } else {
                rest
            }
        }
    }

    /// The idents of the tiles of the rows before `y`, row by row, with their data.
    pub open spec fn rows_idents(&self, y: int) -> Seq<(ColIdent, TileMapColData<TileID, EntID>)>
        decreases y,
    {
        if y <= 0 {
            Seq::empty()
        } else {
            self.rows_idents(y - 1) + self.row_idents(y - 1, self.grid()[y - 1].len() as int)
        }
    }

    /// The idents of the entities, with their data.
    pub open spec fn ent_idents(&self) -> Seq<(ColIdent, TileMapColData<TileID, EntID>)> {
        Seq::new(self.positions@.len(), |i: int| (ColIdent::EntIdx(i as usize), self.ident_data(ColIdent::EntIdx(i as usize))))
    }

    /// Every tile in row order with its data, then every entity with its data.
    pub fn get_ident_table(&self) -> (res: Vec<(ColIdent, TileMapColData<TileID, EntID>)>)
        requires
            self.coords_fit(),
            self.ents_readable(),
            self.tiles_known(),
            id_laws::<TileID>(),
        ensures
            res@ == self.rows_idents(self.grid().len() as int) + self.ent_idents(),
    {
        let mut idents: Vec<(ColIdent, TileMapColData<TileID, EntID>)> = Vec::new();
        let h = self.map.len();
        let mut y: usize = 0;
        while y < h
            invariant
                h == self.grid().len(),
                y <= h,
                self.coords_fit(),
                self.ents_readable(),
                self.tiles_known(),
                id_laws::<TileID>(),
                idents@ == self.rows_idents(y as int),
            decreases h - y,
        {
            let w = self.map[y].len();
            assert(w == self.grid()[y as int].len());
            let ghost head = idents@;
            let mut x: usize = 0;
            while x < w
                invariant
                    h == self.grid().len(),
                    y < h,
                    w == self.grid()[y as int].len(),
                    x <= w,
                    self.coords_fit(),
                    self.ents_readable(),
                    self.tiles_known(),
                    id_laws::<TileID>(),
                    idents@ == head + self.row_idents(y as int, x as int),
                decreases w - x,
            {
                if self.map[y][x].is_some() {
                    assert(self.grid()[y as int][x as int] is Some);
                    assert(self.map@[y as int]@.len() == w);
                    let ident = ColIdent::Position(IVec2::new(x as i32, y as i32));
                    let data = self.get_ident_data(ident);
                    idents.push((ident, data));
                }
                x = x + 1;
            }
            y = y + 1;
        }
        let ghost tiles_part = idents@;
        let n = self.positions.len();
        let mut idx: usize = 0;
        while idx < n
            invariant
                n == self.positions@.len(),
                idx <= n,
                self.ents_readable(),
                id_laws::<TileID>(),
                idents@ == tiles_part + self.ent_idents().take(idx as int),
            decreases n - idx,
        {
            let ident = ColIdent::EntIdx(idx);
            let data = self.get_ident_data(ident);
            idents.push((ident, data));
            idx = idx + 1;
            assert(idents@ =~= tiles_part + self.ent_idents().take(idx as int));
        }
        assert(self.ent_idents().take(n as int) =~= self.ent_idents());
        idents
    }

    /// The contacts found by the last update.
    pub fn get_contact_table(&self) -> (res: Vec<Contact>)
        ensures
            res@ == self.contacts@,
    {
        let mut res: Vec<Contact> = Vec::new();
        let mut i: usize = 0;
        while i < self.contacts.len()
            invariant
                i <= self.contacts@.len(),
                res@ == self.contacts@.take(i as int),
            decreases self.contacts@.len() - i,
        {
            res.push(self.contacts[i]);
            i = i + 1;
            assert(res@ =~= self.contacts@.take(i as int));
        }
        assert(self.contacts@.take(i as int) =~= self.contacts@);
        res
    }
}

impl<TileID: Copy + Ord, EntID: Copy> OutputTable<(ColIdent, TileMapColData<TileID, EntID>)> for TileMapCollision<TileID, EntID> {
    open spec fn table_ready(&self) -> bool {
        &&& self.coords_fit()
        &&& self.ents_readable()
        &&& self.tiles_known()
        &&& id_laws::<TileID>()
    }

    /// Every tile in row order with its data, then every entity with its data.
    open spec fn table(&self) -> Seq<(ColIdent, TileMapColData<TileID, EntID>)> {
        self.rows_idents(self.grid().len() as int) + self.ent_idents()
    }

    fn get_table(&self) -> Vec<(ColIdent, TileMapColData<TileID, EntID>)> {
        self.get_ident_table()
    }
}

impl<TileID: Copy + Ord, EntID: Copy> OutputTable<Contact> for TileMapCollision<TileID, EntID> {
    open spec fn table_ready(&self) -> bool {
        true
    }

    /// The contacts found by the last update.
    open spec fn table(&self) -> Seq<Contact> {
        self.contacts@
    }

    fn get_table(&self) -> Vec<Contact> {
        self.get_contact_table()
    }
}

/// Restitution moves only solid entities that are not fixed.
pub proof fn lemma_after_contacts_keeps<T, E>(sc: Scene<T, E>, ps: Seq<IVec2>, cs: Seq<Contact>, k: int)
    requires
        forall|c: int| 0 <= c < cs.len() ==> contact_ok(#[trigger] cs[c], ps.len() as int),
        after_contacts(sc, ps, cs) is Some,
        0 <= k < ps.len(),
        sc.meta[k].fixed || !sc.meta[k].solid,
    ensures
        after_contacts(sc, ps, cs)->Some_0.len() == ps.len(),
        after_contacts(sc, ps, cs)->Some_0[k] == ps[k],
    decreases cs.len(),
{
    if cs.len() > 0 {
        let init = cs.drop_last();
        assert forall|c: int| 0 <= c < init.len() implies contact_ok(#[trigger] init[c], ps.len() as int) by {
            assert(init[c] == cs[c]);
        }
        lemma_after_contacts_keeps(sc, ps, init, k);
        assert(contact_ok(cs[cs.len() - 1], ps.len() as int));
    }
}

/// Fixed entities, and entities that are not solid, take no part in restitution: an update
/// leaves them where they stand.
pub proof fn law_fixed_and_nonsolid_stay<TileID: Copy + Ord, EntID: Copy>(col: TileMapCollision<TileID, EntID>, k: int)
    requires
        col.ents_aligned(),
        after_contacts(col.scene(), col.positions@, col.all_contacts()) is Some,
        0 <= k < col.positions@.len(),
        col.metadata@[k].fixed || !col.metadata@[k].solid,
    ensures
        after_contacts(col.scene(), col.positions@, col.all_contacts())->Some_0[k] == col.positions@[k],
{
    let ps = col.positions@;
    let n = ps.len() as int;
    assert(col.positions.len() == ps.len());
    lemma_tile_contacts_ok(col.grid(), ps, n);
    lemma_ent_contacts_ok(col.metadata@, ps, n);
    let cs = col.all_contacts();
    assert forall|c: int| 0 <= c < cs.len() implies contact_ok(#[trigger] cs[c], n) by {
        let a = tile_contacts(col.grid(), ps, n);
        let b = ent_contacts(col.metadata@, ps, n);
        if c < a.len() {
            assert(cs[c] == a[c]);
        } else {
            assert(cs[c] == b[c - a.len()]);
        }
    }
    lemma_after_contacts_keeps(col.scene(), ps, cs, k);
}

} // verus!
