//! # Paddles engine types
//!
//! Identifiers and small records of the paddles engine: each game object is named by its index
//! in the engine's lists.

use vstd::prelude::*;

verus! {

/// A paddle, by its index.
#[derive(Clone, Copy, PartialEq, Eq)]
pub struct PaddleID(usize);

impl PaddleID {
    pub fn new(idx: usize) -> (res: Self)
        ensures
            res.idx_spec() == idx,
    {
        Self(idx)
    }

    /// The index this id names.
    pub closed spec fn idx_spec(&self) -> usize {
        self.0
    }

    pub fn idx(&self) -> (res: usize)
        ensures
            res == self.idx_spec(),
    {
        self.0
    }
}

/// A wall, by its index.
#[derive(Clone, Copy, PartialEq, Eq)]
pub struct WallID(usize);

impl WallID {
    pub fn new(idx: usize) -> (res: Self)
        ensures
            res.idx_spec() == idx,
    {
        Self(idx)
    }

    /// The index this id names.
    pub closed spec fn idx_spec(&self) -> usize {
        self.0
    }

    pub fn idx(&self) -> (res: usize)
        ensures
            res == self.idx_spec(),
    {
        self.0
    }
}

/// A ball, by its index.
#[derive(Clone, Copy, PartialEq, Eq)]
pub struct BallID(usize);

impl BallID {
    pub fn new(idx: usize) -> (res: Self)
        ensures
            res.idx_spec() == idx,
    {
        Self(idx)
    }

    /// The index this id names.
    pub closed spec fn idx_spec(&self) -> usize {
        self.0
    }

    pub fn idx(&self) -> (res: usize)
        ensures
            res == self.idx_spec(),
    {
        self.0
    }
}

/// A score, by its index.
#[derive(PartialOrd, Ord, Debug, Clone, Copy, PartialEq, Eq)]
pub struct ScoreID(usize);

impl ScoreID {
    pub fn new(idx: usize) -> (res: Self)
        ensures
            res.idx_spec() == idx,
    {
        Self(idx)
    }

    /// The index this id names.
    pub closed spec fn idx_spec(&self) -> usize {
        self.0
    }

    pub fn idx(&self) -> (res: usize)
        ensures
            res == self.idx_spec(),
    {
        self.0
    }
}

/// A control action, by its index.
#[derive(PartialOrd, Ord, Debug, Clone, Copy, PartialEq, Eq)]
pub struct ActionID(usize);

impl ActionID {
    pub fn new(idx: usize) -> (res: Self)
        ensures
            res.idx_spec() == idx,
    {
        Self(idx)
    }

    /// The index this id names.
    pub closed spec fn idx_spec(&self) -> usize {
        self.0
    }

    pub fn idx(&self) -> (res: usize)
        ensures
            res == self.idx_spec(),
    {
        self.0
    }
}

/// A query of the user's, by its index.
#[derive(Hash, Debug, Clone, Copy, PartialEq, Eq)]
pub struct UserQueryID(usize);

impl UserQueryID {
    pub fn new(idx: usize) -> (res: Self)
        ensures
            res.idx_spec() == idx,
    {
        Self(idx)
    }

    /// The index this id names.
    pub closed spec fn idx_spec(&self) -> usize {
        self.0
    }

    pub fn idx(&self) -> (res: usize)
        ensures
            res == self.idx_spec(),
    {
        self.0
    }
}

#[derive(Hash, Eq, PartialEq, Debug, Clone, Copy)]
pub enum QueryType {
    CtrlEvent,
    CtrlIdent,
    ColEvent,
    ColIdent,
    PhysEvent,
    PhysIdent,
    RsrcEvent,
    RsrcIdent,
    BallCol,
    User(UserQueryID),
}

#[derive(Clone, Copy, PartialEq, Eq)]
pub enum CollisionEnt {
    Paddle,
    Wall,
    Ball,
}

#[derive(PartialEq, Eq, PartialOrd, Ord, Clone, Copy, Debug)]
pub enum RsrcPool {
    Score(ScoreID),
}

/// A score.
pub struct Score {
    pub value: u16,
}

impl Score {
    /// The lowest score.
    pub const MIN: u16 = 0;

    /// The highest score.
    pub const MAX: u16 = u16::MAX;

    /// A score of 0.
    pub fn new() -> (res: Self)
        ensures
            res.value == 0,
    {
        Self { value: 0 }
    }

    pub fn set_value(&mut self, value: u16)
        ensures
            final(self).value == value,
    {
        self.value = value;
    }
}

/// Adds a control map to a paddle's controls: the new action's id is its index.
pub fn add_control_map<K>(controls: &mut Vec<(ActionID, K, bool)>, keycode: K, valid: bool) -> (res: ActionID)
    ensures
        res.idx_spec() == old(controls)@.len(),
        final(controls)@ == old(controls)@.push((res, keycode, valid)),
{
    let act_id = ActionID(controls.len());
    controls.push((act_id, keycode, valid));
    act_id
}

/// A game object, by its kind and id.
#[derive(Clone, Copy, PartialEq, Eq)]
pub enum EntID {
    Wall(WallID),
    Ball(BallID),
    Paddle(PaddleID),
    Score(ScoreID),
}

/// The game objects in play. In the collision logic, the paddles come first, then the walls,
/// then the balls.
pub struct State {
    pub paddles: Vec<PaddleID>,
    pub walls: Vec<WallID>,
    pub balls: Vec<BallID>,
    pub scores: Vec<ScoreID>,
}

impl State {
    /// No game objects.
    pub fn new() -> (res: Self)
        ensures
            res.paddles@ == Seq::<PaddleID>::empty(),
            res.walls@ == Seq::<WallID>::empty(),
            res.balls@ == Seq::<BallID>::empty(),
            res.scores@ == Seq::<ScoreID>::empty(),
    {
        State { paddles: Vec::new(), walls: Vec::new(), balls: Vec::new(), scores: Vec::new() }
    }

    /// The collision index of object `i` of kind `col`.
    pub open spec fn col_idx(&self, i: int, col: CollisionEnt) -> int {
        match col {
            CollisionEnt::Paddle => i,
            CollisionEnt::Wall => i + self.paddles@.len(),
            CollisionEnt::Ball => i + self.paddles@.len() + self.walls@.len(),
        }
    }

    /// The number of objects in the collision logic.
    pub open spec fn col_count(&self) -> int {
        (self.paddles@.len() + self.walls@.len() + self.balls@.len()) as int
    }

    /// The game object at collision index `idx`.
    pub open spec fn id_at(&self, idx: int) -> EntID {
        if idx < self.paddles@.len() {
            EntID::Paddle(self.paddles@[idx])
        } else if idx < self.paddles@.len() + self.walls@.len() {
            EntID::Wall(self.walls@[idx - self.paddles@.len()])
        } else {
            EntID::Ball(self.balls@[idx - self.paddles@.len() - self.walls@.len()])
        }
    }

    /// The collision index of object `i` of kind `col`.
    pub fn get_col_idx(&self, i: usize, col: CollisionEnt) -> (res: usize)
        requires
            self.col_idx(i as int, col) <= usize::MAX,
        ensures
            res == self.col_idx(i as int, col),
    {
        match col {
            CollisionEnt::Paddle => i,
            CollisionEnt::Wall => i + self.paddles.len(),
            CollisionEnt::Ball => i + self.paddles.len() + self.walls.len(),
        }
    }

    /// The game object at collision index `idx`.
    pub fn get_id(&self, idx: usize) -> (res: EntID)
        requires
            idx < self.col_count(),
        ensures
            res == self.id_at(idx as int),
    {
        if idx < self.paddles.len() {
            return EntID::Paddle(self.paddles[idx]);
        }
        let idx = idx - self.paddles.len();
        if idx < self.walls.len() {
            return EntID::Wall(self.walls[idx]);
        }
        let idx = idx - self.walls.len();
        EntID::Ball(self.balls[idx])
    }
}

/// The collision index of an object gives the object back: object `i` of a kind is at
/// collision index `get_col_idx(i, kind)`, and `get_id` there names it; the collision indices
/// of all objects are exactly `0` up to their number.
pub proof fn law_col_idx_round_trip(state: &State, i: int, col: CollisionEnt)
    requires
        0 <= i < match col {
            CollisionEnt::Paddle => state.paddles@.len(),
            CollisionEnt::Wall => state.walls@.len(),
            CollisionEnt::Ball => state.balls@.len(),
        },
    ensures
        0 <= state.col_idx(i, col) < state.col_count(),
        state.id_at(state.col_idx(i, col)) == match col {
            CollisionEnt::Paddle => EntID::Paddle(state.paddles@[i]),
            CollisionEnt::Wall => EntID::Wall(state.walls@[i]),
            CollisionEnt::Ball => EntID::Ball(state.balls@[i]),
        },
{
}

/// Every collision index names the object whose collision index it is.
pub proof fn law_id_round_trip(state: &State, idx: int)
    requires
        0 <= idx < state.col_count(),
    ensures
        match state.id_at(idx) {
            EntID::Paddle(p) => p == state.paddles@[idx] && state.col_idx(idx, CollisionEnt::Paddle) == idx,
            EntID::Wall(w) => w == state.walls@[idx - state.paddles@.len()]
                && state.col_idx(idx - state.paddles@.len(), CollisionEnt::Wall) == idx,
            EntID::Ball(b) => b == state.balls@[idx - state.paddles@.len() - state.walls@.len()]
                && state.col_idx(idx - state.paddles@.len() - state.walls@.len(), CollisionEnt::Ball) == idx,
            EntID::Score(_) => false,
        },
{
}

} // verus!
