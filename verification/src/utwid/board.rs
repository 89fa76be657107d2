//! Tiles, the board of a level, and the random generator that builds boards.

use vstd::prelude::*;
use rand::rngs::SmallRng;
use rand::Rng;
use rand::SeedableRng;
use crate::utwid::types::{Dir, Repr, ReprSet, dir_dx, dir_dy, dir_delta};

verus! {

/// The random generator the dungeon draws from; its state is opaque here.
#[verifier::external_type_specification]
#[verifier::external_body]
pub struct ExSmallRng(SmallRng);

/// `Rng::random_range(lo..hi)` on a `SmallRng`: a number in `lo..hi`, which
/// must not be empty; which one depends on the generator's state.
#[verifier::external_body]
pub(crate) fn draw_range(rng: &mut SmallRng, lo: usize, hi: usize) -> (r: usize)
    requires
        lo < hi,
    ensures
        lo <= r < hi,
{
    rng.random_range(lo..hi)
}

/// `Rng::random_ratio(1, 2)` on a `SmallRng`: a fair coin.
#[verifier::external_body]
pub(crate) fn draw_coin(rng: &mut SmallRng) -> bool {
    rng.random_ratio(1, 2)
}

/// `SmallRng::clone`: a generator in the same state, which draws the same
/// numbers.
#[verifier::external_body]
pub(crate) fn copy_rng(rng: &SmallRng) -> (r: SmallRng)
    ensures
        r == *rng,
{
    rng.clone()
}

/// `SeedableRng::from_os_rng` for `SmallRng`: a generator seeded by the
/// operating system.
#[verifier::external_body]
pub(crate) fn fresh_rng() -> SmallRng {
    SmallRng::from_os_rng()
}

#[derive(Copy, Clone, PartialEq, Eq, Hash, Debug, Structural)]
pub struct TileTraits {
    pub walkable: bool,
    pub stairs: bool,
    pub win: bool,
}

#[derive(Copy, Clone, PartialEq, Eq, Debug, Structural)]
pub struct Tile {
    pub traits: TileTraits,
    /// Walls have health and crumble to floor when it runs out.
    pub health: Option<isize>,
    pub repr: Option<Repr>,
    pub repr_set: ReprSet,
}

pub open spec fn floor_tile() -> Tile {
    Tile {
        traits: TileTraits { walkable: true, stairs: false, win: false },
        repr: Some(Repr::Floor),
        repr_set: ReprSet::Room1,
        health: None,
    }
}

pub open spec fn wall_tile() -> Tile {
    Tile {
        traits: TileTraits { walkable: false, stairs: false, win: false },
        repr: Some(Repr::Wall),
        repr_set: ReprSet::Room1,
        health: Some(5),
    }
}

pub open spec fn stair_tile() -> Tile {
    Tile {
        traits: TileTraits { walkable: true, stairs: true, win: false },
        repr: Some(Repr::Stairs),
        repr_set: ReprSet::Room1,
        health: None,
    }
}

pub open spec fn win_tile() -> Tile {
    Tile {
        traits: TileTraits { walkable: true, stairs: false, win: true },
        repr: Some(Repr::Win),
        repr_set: ReprSet::Room1,
        health: None,
    }
}

/// A tile after taking `d` of health change: walls whose health drops to
/// zero or below become floor; tiles without health do not change.
pub open spec fn damaged_tile(t: Tile, d: int) -> Tile {
    match t.health {
        None => t,
        Some(h) => if h + d <= 0 {
            Tile {
                traits: TileTraits { walkable: true, stairs: false, win: false },
                repr: Some(Repr::Floor),
                health: None,
                repr_set: t.repr_set,
            }
        } else {
            Tile { health: Some((h + d) as isize), ..t }
        },
    }
}

impl Tile {
    pub fn floor() -> (r: Tile)
        ensures
            r == floor_tile(),
    {
        Tile {
            traits: TileTraits { walkable: true, stairs: false, win: false },
            repr: Some(Repr::Floor),
            repr_set: ReprSet::Room1,
            health: None,
        }
    }

    pub fn wall() -> (r: Tile)
        ensures
            r == wall_tile(),
    {
        Tile {
            traits: TileTraits { walkable: false, stairs: false, win: false },
            repr: Some(Repr::Wall),
            repr_set: ReprSet::Room1,
            health: Some(5),
        }
    }

    pub fn stair() -> (r: Tile)
        ensures
            r == stair_tile(),
    {
        Tile {
            traits: TileTraits { walkable: true, stairs: true, win: false },
            repr: Some(Repr::Stairs),
            repr_set: ReprSet::Room1,
            health: None,
        }
    }

    pub fn win() -> (r: Tile)
        ensures
            r == win_tile(),
    {
        Tile {
            traits: TileTraits { walkable: true, stairs: false, win: true },
            repr: Some(Repr::Win),
            repr_set: ReprSet::Room1,
            health: None,
        }
    }

    pub fn repr(&self) -> (r: Option<Repr>)
        ensures
            r == self.repr,
    {
        self.repr
    }

    pub fn modify_health(&mut self, dhealth: isize)
        requires
            old(self).health matches Some(h) ==> isize::MIN <= h + dhealth <= isize::MAX,
        ensures
            *final(self) == damaged_tile(*old(self), dhealth as int),
    {
        if let Some(h) = self.health {
            let nh = h + dhealth;
            if nh <= 0 {
                self.traits = TileTraits { walkable: true, stairs: false, win: false };
                self.repr = Some(Repr::Floor);
                self.health = None;
            } else {
                self.health = Some(nh);
            }
        }
    }
}

/// A level: `geography[x + y * width]` is the tile in column `x`, row `y`.
pub struct Board {
    pub geography: Vec<Tile>,
    pub width: usize,
    pub height: usize,
    /// The generator that the next level's board is built from.
    pub rng: SmallRng,
}

/// Largest side a board may have.
pub const BOARD_MAX_SIDE: usize = 4096;

pub open spec fn board_wf(geo: Seq<Tile>, w: int, h: int) -> bool {
    &&& 0 < w <= BOARD_MAX_SIDE
    &&& 0 < h <= BOARD_MAX_SIDE
    &&& geo.len() == w * h
}

pub open spec fn cell(x: int, y: int, w: int) -> int {
    x + y * w
}

/// Each cell of a `w` by `h` board has its own index in `0..w * h`.
pub proof fn lemma_cell_in_range(x: int, y: int, w: int, h: int)
    requires
        0 <= x < w,
        0 <= y < h,
        w <= BOARD_MAX_SIDE,
        h <= BOARD_MAX_SIDE,
    ensures
        0 <= cell(x, y, w) < w * h,
        w * h <= BOARD_MAX_SIDE * BOARD_MAX_SIDE,
        0 <= y * w,
        cell(x, y, w) % w == x,
        cell(x, y, w) / w == y,
{
    assert(0 <= y * w <= (h - 1) * w) by (nonlinear_arith)
        requires 0 <= y < h, 0 < w;
    assert((h - 1) * w + w == w * h) by (nonlinear_arith);
    assert(w * h <= BOARD_MAX_SIDE * BOARD_MAX_SIDE) by (nonlinear_arith)
        requires 0 < w <= BOARD_MAX_SIDE, 0 < h <= BOARD_MAX_SIDE;
    vstd::arithmetic::div_mod::lemma_fundamental_div_mod_converse(x + y * w, w, y, x);
}

impl Board {
    pub open spec fn wf(&self) -> bool {
        board_wf(self.geography@, self.width as int, self.height as int)
    }

    pub open spec fn tile(&self, x: int, y: int) -> Tile {
        self.geography@[cell(x, y, self.width as int)]
    }

    pub open spec fn on_board(&self, x: int, y: int) -> bool {
        0 <= x < self.width && 0 <= y < self.height
    }

    pub fn get(&self, x: usize, y: usize) -> (r: Tile)
        requires
            self.wf(),
            self.on_board(x as int, y as int),
        ensures
            r == self.tile(x as int, y as int),
    {
        proof {
            lemma_cell_in_range(x as int, y as int, self.width as int, self.height as int);
        }
        self.geography[y * self.width + x]
    }

    /// Whether a step from `(x, y)` in direction `d` lands on the board, on
    /// a tile that can be walked on or, with `melee`, struck.
    pub open spec fn step_ok(&self, x: int, y: int, d: Dir, melee: bool) -> bool {
        let tx = x + dir_dx(d);
        let ty = y + dir_dy(d);
        &&& self.on_board(tx, ty)
        &&& (self.tile(tx, ty).traits.walkable || (melee && self.tile(tx, ty).health is Some))
    }

    pub open spec fn keep(&self, x: int, y: int, d: Dir, allowed: bool, melee: bool) -> Seq<Dir> {
        if allowed && self.step_ok(x, y, d, melee) {
            seq![d]
        } else {
            seq![]
        }
    }

    /// The directions an actor at `(x, y)` may step in: the cardinal ones
    /// where `cardinal`, then the diagonal ones where `diagonal`, each kept
    /// where the step is open.
    pub open spec fn spec_moves(&self, x: int, y: int, cardinal: bool, diagonal: bool, melee: bool) -> Seq<Dir> {
        self.keep(x, y, Dir::N, cardinal, melee) + self.keep(x, y, Dir::S, cardinal, melee)
            + self.keep(x, y, Dir::E, cardinal, melee) + self.keep(x, y, Dir::W, cardinal, melee)
            + self.keep(x, y, Dir::NE, diagonal, melee) + self.keep(x, y, Dir::NW, diagonal, melee)
            + self.keep(x, y, Dir::SE, diagonal, melee) + self.keep(x, y, Dir::SW, diagonal, melee)
    }

    pub(crate) fn step_open(&self, from_x: usize, from_y: usize, d: Dir, melee: bool) -> (r: bool)
        requires
            self.wf(),
            from_x <= BOARD_MAX_SIDE,
            from_y <= BOARD_MAX_SIDE,
        ensures
            r == self.step_ok(from_x as int, from_y as int, d, melee),
    {
        let (dx, dy) = dir_delta(d);
        let x = from_x as isize + dx;
        let y = from_y as isize + dy;
        if x >= 0 && (x as usize) < self.width && y >= 0 && (y as usize) < self.height {
            let t = self.get(x as usize, y as usize);
            t.traits.walkable || (melee && t.health.is_some())
        } else {
            false
        }
    }

    fn push_step(&self, r: &mut Vec<Dir>, from_x: usize, from_y: usize, d: Dir, allowed: bool, melee: bool)
        requires
            self.wf(),
            from_x <= BOARD_MAX_SIDE,
            from_y <= BOARD_MAX_SIDE,
        ensures
            final(r)@ == old(r)@ + self.keep(from_x as int, from_y as int, d, allowed, melee),
    {
        if allowed && self.step_open(from_x, from_y, d, melee) {
            r.push(d);
        }
        assert(final(r)@ =~= old(r)@ + self.keep(from_x as int, from_y as int, d, allowed, melee));
    }

    pub fn board_permitted_moves(&self, from_x: usize, from_y: usize, cardinal: bool, diagonal: bool, melee: bool) -> (r: Vec<Dir>)
        requires
            self.wf(),
            from_x <= BOARD_MAX_SIDE,
            from_y <= BOARD_MAX_SIDE,
        ensures
            r@ == self.spec_moves(from_x as int, from_y as int, cardinal, diagonal, melee),
    {
        let mut r: Vec<Dir> = Vec::new();
        self.push_step(&mut r, from_x, from_y, Dir::N, cardinal, melee);
        assert(r@ =~= self.keep(from_x as int, from_y as int, Dir::N, cardinal, melee));
        self.push_step(&mut r, from_x, from_y, Dir::S, cardinal, melee);
        self.push_step(&mut r, from_x, from_y, Dir::E, cardinal, melee);
        self.push_step(&mut r, from_x, from_y, Dir::W, cardinal, melee);
        self.push_step(&mut r, from_x, from_y, Dir::NE, diagonal, melee);
        self.push_step(&mut r, from_x, from_y, Dir::NW, diagonal, melee);
        self.push_step(&mut r, from_x, from_y, Dir::SE, diagonal, melee);
        self.push_step(&mut r, from_x, from_y, Dir::SW, diagonal, melee);
        r
    }
}

} // verus!
