//! Directions, actions and the small enumerations of the dungeon game.

use vstd::prelude::*;

verus! {

/// Index of an actor in the state's list of actors.
pub type ActorId = usize;

pub const ACTOR_TYPE_YOU: usize = 0;
pub const ACTOR_TYPE_MONTE: usize = 1;
pub const ACTOR_TYPE_THEM: usize = 2;
pub const ACTOR_TYPE_ARE: usize = 3;
pub const ACTOR_TYPE_ONE: usize = 4;

/// The actor that the human plays, and the search tree of the dungeon.
pub const YOU_ID: usize = 0;
pub const MON2Y_ID: usize = 1;

pub const PLAYER_MAX_HEALTH: usize = 7;
pub const ROOM_SPLITS_MIN: usize = 2;
pub const ROOM_SPLITS_MAX: usize = 8;
pub const PRESCRIPTION_TURNS: usize = 5;

/// The floor below which every level has stairs; on this floor the goal tile
/// wins the game.
pub const LAST_LEVEL: usize = 9;

/// Side of the square board that every level is built on.
pub const BOARD_SIDE: usize = 11;

#[derive(Copy, Clone, PartialEq, Eq, Hash, Debug, Structural)]
pub enum Dir {
    N,
    S,
    E,
    W,
    NE,
    NW,
    SE,
    SW,
}

/// Column step of a direction.
pub open spec fn dir_dx(d: Dir) -> int {
    match d {
        Dir::N => 0,
        Dir::S => 0,
        Dir::E => 1,
        Dir::W => -1,
        Dir::NE => 1,
        Dir::NW => -1,
        Dir::SE => 1,
        Dir::SW => -1,
    }
}

/// Row step of a direction (rows grow southwards).
pub open spec fn dir_dy(d: Dir) -> int {
    match d {
        Dir::N => -1,
        Dir::S => 1,
        Dir::E => 0,
        Dir::W => 0,
        Dir::NE => -1,
        Dir::NW => -1,
        Dir::SE => 1,
        Dir::SW => 1,
    }
}

pub open spec fn is_cardinal(d: Dir) -> bool {
    d is N || d is S || d is E || d is W
}

/// The step of a direction as a pair of signed offsets.
pub fn dir_delta(d: Dir) -> (r: (isize, isize))
    ensures
        r.0 == dir_dx(d),
        r.1 == dir_dy(d),
{
    match d {
        Dir::N => (0, -1),
        Dir::S => (0, 1),
        Dir::E => (1, 0),
        Dir::W => (-1, 0),
        Dir::NE => (1, -1),
        Dir::NW => (-1, -1),
        Dir::SE => (1, 1),
        Dir::SW => (-1, 1),
    }
}

/// The cell one step from `(x, y)` in direction `d`, which must lie at
/// non-negative coordinates.
pub fn apply_dir(x: usize, y: usize, d: Dir) -> (r: (usize, usize))
    requires
        x + dir_dx(d) >= 0,
        y + dir_dy(d) >= 0,
        x + dir_dx(d) <= usize::MAX,
        y + dir_dy(d) <= usize::MAX,
    ensures
        r.0 == x + dir_dx(d),
        r.1 == y + dir_dy(d),
{
    match d {
        Dir::N => (x, y - 1),
        Dir::S => (x, y + 1),
        Dir::E => (x + 1, y),
        Dir::W => (x - 1, y),
        Dir::NE => (x + 1, y - 1),
        Dir::NW => (x - 1, y - 1),
        Dir::SE => (x + 1, y + 1),
        Dir::SW => (x - 1, y + 1),
    }
}

#[derive(Copy, Clone, PartialEq, Eq, Hash, Debug, Structural)]
pub enum UtwidAction {
    NoAction,
    Move(Dir),
    Wait,
    Explode,
    /// Jump as far as the floor allows, then strike what lies beyond.
    Conclusion(Dir),
    Redemption,
    Contemplation(Dir),
    /// Raise a wall across the board next to the actor.
    Stagnation(Dir),
    /// Take several turns in a row.
    Prescription,
    Attention,
    Demonstration,
    /// Rotate the whole board.
    Contention(Dir),
    Assumption,
}

/// The health that an action costs the actor who takes it.
pub open spec fn spec_action_cost(action: UtwidAction) -> nat {
    match action {
        UtwidAction::Conclusion(_) => 1,
        UtwidAction::Redemption => 1,
        UtwidAction::Attention => 1,
        UtwidAction::Stagnation(_) => 2,
        UtwidAction::Prescription => 2,
        UtwidAction::Contemplation(_) => 2,
        UtwidAction::Demonstration => 3,
        UtwidAction::Contention(_) => 0,
        UtwidAction::Assumption => 3,
        _ => 0,
    }
}

pub fn action_cost(action: UtwidAction) -> (r: usize)
    ensures
        r == spec_action_cost(action),
{
    match action {
        UtwidAction::Conclusion(_) => 1,
        UtwidAction::Redemption => 1,
        UtwidAction::Attention => 1,
        UtwidAction::Stagnation(_) => 2,
        UtwidAction::Prescription => 2,
        UtwidAction::Contemplation(_) => 2,
        UtwidAction::Demonstration => 3,
        UtwidAction::Contention(_) => 0,
        UtwidAction::Assumption => 3,
        _ => 0,
    }
}

#[derive(Copy, Clone, PartialEq, Eq, Debug, Structural)]
pub enum GameState {
    Ongoing,
    Won,
    Lost,
    Checkpoint,
    Mon2yShortcircuit,
}

#[derive(Copy, Clone, PartialEq, Eq, Hash, Debug, Structural)]
pub enum Repr {
    Floor,
    Wall,
    Stairs,
    Win,
    You,
    Monte,
    Them,
    Are,
    One,
}

#[derive(Copy, Clone, PartialEq, Eq, Hash, Debug, Structural)]
pub enum ReprSet {
    Room1,
    Room2,
    Room3,
    Room4,
    Room5,
    Room6,
    Room7,
}

} // verus!
