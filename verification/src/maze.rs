//! # Maze
//!
//! The maze minigame: a box walks a maze of walls and collects items, each of which adds to
//! the score.

use vstd::prelude::*;

verus! {

use vstd::arithmetic::div_mod::lemma_fundamental_div_mod_converse;

/// Width of the frame, in pixels.
pub const WIDTH: u32 = 320;

/// Height of the frame, in pixels.
pub const HEIGHT: u32 = 240;

/// Side of the player's box.
pub const BOX_SIZE: i16 = 20;

/// Side of an item.
pub const ITEM_SIZE: i8 = 10;

/// What an item is worth.
pub const ITEM_VAL: u8 = 1;

/// Walls of the maze
pub struct Wall {
    pub x: i16,
    pub y: i16,
    pub w: i16,
    pub h: i16,
}

impl Wall {
    pub fn new(x: i16, y: i16, w: i16, h: i16) -> (res: Wall)
        ensures
            res == (Wall { x, y, w, h }),
    {
        Wall { x: x, y: y, w: w, h: h }
    }
}

/// Items that can be obtained and added to score
pub struct Collectible {
    pub x: i16,
    pub y: i16,
}

impl Collectible {
    pub fn new(x: i16, y: i16) -> (res: Self)
        ensures
            res == (Collectible { x, y }),
    {
        Self { x: x, y: y }
    }
}

/// The maze's resources: the score, what the current frame adds to it, and the item touched
/// this frame, counted among the collision bodies (walls first, then items).
pub struct MazeResources {
    pub score: u8,
    pub score_change: u8,
    pub touched_item: Option<usize>,
}

impl MazeResources {
    pub fn new() -> (res: Self)
        ensures
            res.score == 0,
            res.score_change == 0,
            res.touched_item is None,
    {
        Self { score: 0, score_change: 0, touched_item: None }
    }

    /// Adds the frame's change to the score, removes the touched item (its body index less
    /// the number of walls), and resets the change and the touched item.
    pub fn update(&mut self, all_items: &mut Vec<Collectible>, walls: &Vec<Wall>)
        requires
            old(self).score + old(self).score_change <= u8::MAX,
            old(self).touched_item matches Some(t) ==> walls@.len() <= t < walls@.len() + old(all_items)@.len(),
        ensures
            final(self).score == old(self).score + old(self).score_change,
            final(self).score_change == 0,
            final(self).touched_item is None,
            final(all_items)@ == match old(self).touched_item {
                Some(t) => old(all_items)@.remove(t - walls@.len()),
                None => old(all_items)@,
            },
    {
        self.score = self.score + self.score_change;
        if let Some(t) = self.touched_item {
            all_items.remove(t - walls.len());
        }
        self.score_change = 0;
        self.touched_item = None;
    }
}

/// `(x, y)` lies in the wall.
pub open spec fn in_wall(w: Wall, x: i16, y: i16) -> bool {
    x >= w.x && x < w.x + w.w && y >= w.y && y < w.y + w.h
}

/// `(x, y)` lies in the item.
pub open spec fn in_item(c: Collectible, x: i16, y: i16) -> bool {
    x >= c.x && x < c.x + ITEM_SIZE && y >= c.y && y < c.y + ITEM_SIZE
}

/// The extent of every wall fits the coordinates.
pub open spec fn walls_fit(walls: Seq<Wall>) -> bool {
    forall|i: int| 0 <= i < walls.len() ==> {
        &&& i16::MIN <= (#[trigger] walls[i]).x + walls[i].w <= i16::MAX
        &&& i16::MIN <= walls[i].y + walls[i].h <= i16::MAX
    }
}

/// The extent of every item fits the coordinates.
pub open spec fn items_fit(items: Seq<Collectible>) -> bool {
    forall|i: int| 0 <= i < items.len() ==> {
        &&& (#[trigger] items[i]).x + ITEM_SIZE <= i16::MAX
        &&& items[i].y + ITEM_SIZE <= i16::MAX
    }
}

/// Whether `(x, y)` lies in one of the walls.
pub fn inside_all_walls(x: i16, y: i16, walls: &Vec<Wall>) -> (res: bool)
    requires
        walls_fit(walls@),
    ensures
        res == exists|i: int| 0 <= i < walls@.len() && in_wall(#[trigger] walls@[i], x, y),
{
    let mut i: usize = 0;
    while i < walls.len()
        invariant
            i <= walls@.len(),
            walls_fit(walls@),
            forall|j: int| 0 <= j < i ==> !in_wall(#[trigger] walls@[j], x, y),
        decreases walls@.len() - i,
    {
        let a_wall = &walls[i];
        assert(i16::MIN <= a_wall.x + a_wall.w <= i16::MAX && i16::MIN <= a_wall.y + a_wall.h <= i16::MAX);
        if x >= a_wall.x && x < a_wall.x + a_wall.w && y >= a_wall.y && y < a_wall.y + a_wall.h {
            assert(in_wall(walls@[i as int], x, y));
            return true;
        }
        i = i + 1;
    }
    false
}

/// Whether `(x, y)` lies in one of the items.
pub fn is_item(x: i16, y: i16, items: &Vec<Collectible>) -> (res: bool)
    requires
        items_fit(items@),
    ensures
        res == exists|i: int| 0 <= i < items@.len() && in_item(#[trigger] items@[i], x, y),
{
    let mut i: usize = 0;
    while i < items.len()
        invariant
            i <= items@.len(),
            items_fit(items@),
            forall|j: int| 0 <= j < i ==> !in_item(#[trigger] items@[j], x, y),
        decreases items@.len() - i,
    {
        let an_item = &items[i];
        assert(an_item.x + ITEM_SIZE <= i16::MAX && an_item.y + ITEM_SIZE <= i16::MAX);
        if x >= an_item.x && x < an_item.x + ITEM_SIZE as i16 && y >= an_item.y && y < an_item.y + ITEM_SIZE as i16 {
            assert(in_item(items@[i as int], x, y));
            return true;
        }
        i = i + 1;
    }
    false
}

/// Representation of the application state
pub struct World {
    pub x: i16,
    pub y: i16,
    pub vx: i16,
    pub vy: i16,
    pub score: u8,
    pub walls: Vec<Wall>,
    pub items: Vec<Collectible>,
}

/// The colour of a pixel: walls first, then the box, then items, then the background.
pub open spec fn pixel_rgba(world: &World, walls: Seq<Wall>, items: Seq<Collectible>, x: i16, y: i16) -> Seq<u8> {
    if exists|i: int| 0 <= i < walls.len() && in_wall(#[trigger] walls[i], x, y) {
        seq![0xffu8, 0xff, 0xff, 0xff]
    } else if x >= world.x && x < world.x + BOX_SIZE && y >= world.y && y < world.y + BOX_SIZE {
        seq![0x5eu8, 0x48, 0xe8, 0xff]
    } else if exists|i: int| 0 <= i < items.len() && in_item(#[trigger] items[i], x, y) {
        seq![0x95u8, 0xed, 0xc1, 0xff]
    } else {
        seq![0x48u8, 0xb2, 0xe8, 0xff]
    }
}

/// The column of pixel `i`, as the drawing computes it.
pub open spec fn pixel_x(i: int) -> i16 {
    (i % (WIDTH as int)) as i16
}

/// The row of pixel `i`, as the drawing computes it.
pub open spec fn pixel_y(i: int) -> i16 {
    (i / (WIDTH as int)) as i16
}

/// The box touches the item.
pub open spec fn touches(world: &World, c: Collectible) -> bool {
    &&& world.x < c.x + ITEM_SIZE
    &&& world.x + BOX_SIZE >= c.x
    &&& world.y < c.y + ITEM_SIZE
    &&& world.y + BOX_SIZE >= c.y
}

/// `(x, y)` lies in the item, and within the box's reach: the box's square with its far
/// edges included.
pub open spec fn shared_point(world: &World, c: Collectible, x: int, y: int) -> bool {
    &&& c.x <= x < c.x + ITEM_SIZE
    &&& c.y <= y < c.y + ITEM_SIZE
    &&& world.x <= x <= world.x + BOX_SIZE
    &&& world.y <= y <= world.y + BOX_SIZE
}

/// Some point lies both in the item and within the box's reach.
pub open spec fn meets(world: &World, c: Collectible) -> bool {
    exists|x: int, y: int| #[trigger] shared_point(world, c, x, y)
}

/// The box touches an item exactly when some point lies both in the item and within the
/// box's reach: the two must meet across both axes, not just one.
pub proof fn law_touch_is_overlap(world: &World, c: Collectible)
    ensures
        touches(world, c) <==> meets(world, c),
{
    if touches(world, c) {
        let x: int = if c.x < world.x { world.x as int } else { c.x as int };
        let y: int = if c.y < world.y { world.y as int } else { c.y as int };
        assert(shared_point(world, c, x, y));
    }
}

/// The walls of the maze: horizontal walls, vertical walls, then the borders.
pub open spec fn maze_walls() -> Seq<Wall> {
    seq![
        Wall { x: 8, y: 11, w: 43, h: 3 },
        Wall { x: 94, y: 11, w: 218, h: 3 },
        Wall { x: 94, y: 54, w: 46, h: 3 },
        Wall { x: 180, y: 54, w: 86, h: 3 },
        Wall { x: 223, y: 97, w: 43, h: 3 },
        Wall { x: 8, y: 140, w: 46, h: 3 },
        Wall { x: 266, y: 140, w: 46, h: 3 },
        Wall { x: 51, y: 183, w: 132, h: 3 },
        Wall { x: 223, y: 183, w: 43, h: 3 },
        Wall { x: 8, y: 226, w: 218, h: 3 },
        Wall { x: 266, y: 226, w: 46, h: 3 },
        Wall { x: 8, y: 11, w: 3, h: 218 },
        Wall { x: 51, y: 54, w: 3, h: 89 },
        Wall { x: 94, y: 54, w: 3, h: 132 },
        Wall { x: 137, y: 54, w: 3, h: 89 },
        Wall { x: 180, y: 11, w: 3, h: 175 },
        Wall { x: 223, y: 97, w: 3, h: 132 },
        Wall { x: 309, y: 11, w: 3, h: 218 },
        Wall { x: -1i16, y: -1i16, w: 322, h: 1 },
        Wall { x: -1i16, y: 240, w: 322, h: 1 },
        Wall { x: -1i16, y: -1i16, w: 1, h: 242 },
        Wall { x: 320, y: -1i16, w: 1, h: 242 },
    ]
}

/// The items of the maze.
pub open spec fn maze_items() -> Seq<Collectible> {
    seq![
        Collectible { x: 112, y: 72 },
        Collectible { x: 26, y: 198 },
        Collectible { x: 195, y: 198 },
        Collectible { x: 195, y: 29 },
        Collectible { x: 281, y: 198 },
    ]
}

impl World {
    /// A new `World` with the box at its start, standing still, no score, and the maze's
    /// walls and items.
    pub fn new() -> (res: Self)
        ensures
            res.x == 58 && res.y == 8,
            res.vx == 16 && res.vy == 16,
            res.score == 0,
            res.walls@ == maze_walls(),
            res.items@ == maze_items(),
    {
        let walls = vec![
            // horizontal walls
            Wall::new(8, 11, 43, 3),
            Wall::new(94, 11, 218, 3),
            Wall::new(94, 54, 46, 3),
            Wall::new(180, 54, 86, 3),
            Wall::new(223, 97, 43, 3),
            Wall::new(8, 140, 46, 3),
            Wall::new(266, 140, 46, 3),
            Wall::new(51, 183, 132, 3),
            Wall::new(223, 183, 43, 3),
            Wall::new(8, 226, 218, 3),
            Wall::new(266, 226, 46, 3),
            // vertical walls
            Wall::new(8, 11, 3, 218),
            Wall::new(51, 54, 3, 89),
            Wall::new(94, 54, 3, 132),
            Wall::new(137, 54, 3, 89),
            Wall::new(180, 11, 3, 175),
            Wall::new(223, 97, 3, 132),
            Wall::new(309, 11, 3, 218),
            // borders
            Wall::new(-1, -1, 322, 1),
            Wall::new(-1, 240, 322, 1),
            Wall::new(-1, -1, 1, 242),
            Wall::new(320, -1, 1, 242),
        ];
        let items = vec![
            Collectible::new(112, 72),
            Collectible::new(26, 198),
            Collectible::new(195, 198),
            Collectible::new(195, 29),
            Collectible::new(281, 198),
        ];
        assert(walls@ =~= maze_walls());
        assert(items@ =~= maze_items());
        Self { x: 58, y: 8, vx: 16, vy: 16, score: 0, walls, items }
    }

    /// The box's extent fits the coordinates.
    pub open spec fn box_fits(&self) -> bool {
        &&& self.x + BOX_SIZE <= i16::MAX
        &&& self.y + BOX_SIZE <= i16::MAX
    }

    /// The first item that the box touches or overlaps, if any: only one is found at a time.
    pub fn touch_pickup(&self) -> (res: Option<usize>)
        requires
            self.box_fits(),
            items_fit(self.items@),
        ensures
            match res {
                Some(i) => i < self.items@.len() && touches(self, self.items@[i as int])
                    && forall|j: int| 0 <= j < i ==> !touches(self, #[trigger] self.items@[j]),
                None => forall|j: int| 0 <= j < self.items@.len() ==> !touches(self, #[trigger] self.items@[j]),
            },
            match res {
                Some(i) => meets(self, self.items@[i as int]),
                None => forall|j: int| 0 <= j < self.items@.len() ==> !meets(self, #[trigger] self.items@[j]),
            },
    {
        let mut i: usize = 0;
        while i < self.items.len()
            invariant
                i <= self.items@.len(),
                self.box_fits(),
                items_fit(self.items@),
                forall|j: int| 0 <= j < i ==> !touches(self, #[trigger] self.items@[j]),
            decreases self.items@.len() - i,
        {
            assert(self.items@[i as int].x + ITEM_SIZE <= i16::MAX && self.items@[i as int].y + ITEM_SIZE <= i16::MAX);
            if self.x < self.items[i].x + ITEM_SIZE as i16 && self.x + BOX_SIZE >= self.items[i].x
                && self.y < self.items[i].y + ITEM_SIZE as i16 && self.y + BOX_SIZE >= self.items[i].y {
                if i < self.items.len() {
                    proof {
                        assert(touches(self, self.items@[i as int]));
                        law_touch_is_overlap(self, self.items@[i as int]);
                        let c = self.items@[i as int];
                        let x: int = if c.x < self.x { self.x as int } else { c.x as int };
                        let y: int = if c.y < self.y { self.y as int } else { c.y as int };
                        assert(shared_point(self, c, x, y));
                        assert(meets(self, c));
                    }
                    return Some(i);
                }
            }
            i = i + 1;
        }
        proof {
            assert forall|j: int| 0 <= j < self.items@.len() implies !meets(self, #[trigger] self.items@[j]) by {
                law_touch_is_overlap(self, self.items@[j]);
            }
        }
        None
    }

    /// Draws the `World` state to the frame buffer, four bytes per pixel, row after row of
    /// `WIDTH` pixels: walls, then the box, then items, over the background. Bytes after the
    /// last whole pixel are kept.
    pub fn draw(&self, frame: &mut [u8], walls: &Vec<Wall>, items: &Vec<Collectible>)
        requires
            self.box_fits(),
            walls_fit(walls@),
            items_fit(items@),
        ensures
            final(frame)@.len() == old(frame)@.len(),
            forall|k: int| 0 <= k < old(frame)@.len() ==> #[trigger] final(frame)@[k] == if k < 4 * (old(frame)@.len() / 4) {
                pixel_rgba(self, walls@, items@, pixel_x(k / 4), pixel_y(k / 4))[k % 4]
            } else {
                old(frame)@[k]
            },
    {
        let len = frame.len();
        let n = len / 4;
        let ghost start = frame@;
        let mut i: usize = 0;
        while i < n
            invariant
                len == start.len(),
                n == start.len() / 4,
                i <= n,
                frame@.len() == start.len(),
                self.box_fits(),
                walls_fit(walls@),
                items_fit(items@),
                forall|k: int| 0 <= k < start.len() ==> #[trigger] frame@[k] == if k < 4 * i {
                    pixel_rgba(self, walls@, items@, pixel_x(k / 4), pixel_y(k / 4))[k % 4]
                } else {
                    start[k]
                },
            decreases n - i,
        {
            let x = (i % (WIDTH as usize)) as i16;
            let y = #[verifier::truncate] ((i / (WIDTH as usize)) as i16);
            let rgba: [u8; 4] = if inside_all_walls(x, y, walls) {
                [0xff, 0xff, 0xff, 0xff]
            } else if x >= self.x && x < self.x + BOX_SIZE && y >= self.y && y < self.y + BOX_SIZE {
                [0x5e, 0x48, 0xe8, 0xff]
            } else if is_item(x, y, items) {
                [0x95, 0xed, 0xc1, 0xff]
            } else {
                [0x48, 0xb2, 0xe8, 0xff]
            };
            proof {
                assert(x == pixel_x(i as int));
                assert(y == pixel_y(i as int));
                assert(rgba@ == pixel_rgba(self, walls@, items@, x, y));
            }
            assert(4 * i + 4 <= start.len()) by (nonlinear_arith)
                requires
                    i < n,
                    n == start.len() / 4,
            ;
            let base = 4 * i;
            frame[base] = rgba[0];
            frame[base + 1] = rgba[1];
            frame[base + 2] = rgba[2];
            frame[base + 3] = rgba[3];
            proof {
                assert forall|k: int| 0 <= k < start.len() implies #[trigger] frame@[k] == if k < 4 * (i + 1) {
                    pixel_rgba(self, walls@, items@, pixel_x(k / 4), pixel_y(k / 4))[k % 4]
                } else {
                    start[k]
                } by {
                    if base <= k < base + 4 {
                        lemma_fundamental_div_mod_converse(k, 4, i as int, k - base);
                    }
                }
            }
            i = i + 1;
        }
    }
}

} // verus!
