//! Raising a wall: the player builds a wall through the cell next to it,
//! across the board, as far as open floor with nobody on it reaches.

use vstd::prelude::*;
use crate::utwid::types::{Dir, dir_dx, dir_dy, apply_dir, is_cardinal};
use crate::utwid::board::{Tile, wall_tile, cell, lemma_cell_in_range};
use crate::utwid::state::{UtwidState, UtwidView, live, stands_at, is_occupant};
use crate::utwid::moves::{state_wf, actor_values_bounded, acting};
use crate::utwid::conclusion::view_on_board;

verus! {

/// Whether a wall may go up on `(x, y)`: walkable floor that is not the
/// stairs, with nobody standing on it.
pub open spec fn wall_ok(v: UtwidView, x: int, y: int) -> bool {
    let t = v.geography[cell(x, y, v.width as int)];
    &&& t.traits.walkable
    &&& !t.traits.stairs
    &&& forall|j: int| 0 <= j < v.actors.len() ==> !stands_at(#[trigger] v.actors[j], x, y)
}

/// Whether the cells of column `x` from row `a` to row `b`, both included,
/// can all take a wall.
pub open spec fn column_ok(v: UtwidView, x: int, a: int, b: int) -> bool {
    forall|k: int| a <= k <= b ==> #[trigger] wall_ok(v, x, k)
}

/// Whether the cells of row `y` from column `a` to column `b`, both
/// included, can all take a wall.
pub open spec fn row_ok(v: UtwidView, y: int, a: int, b: int) -> bool {
    forall|k: int| a <= k <= b ==> #[trigger] wall_ok(v, k, y)
}

/// Whether `(x, y)` is walled by a wall through `(sx, sy)`, running along
/// the column where `vertical`, else along the row: the cell itself where
/// it can take a wall, and from there outwards each cell reached through
/// cells that can all take one.
pub open spec fn in_wall(v: UtwidView, sx: int, sy: int, vertical: bool, x: int, y: int) -> bool {
    ||| x == sx && y == sy && wall_ok(v, sx, sy)
    ||| vertical && x == sx && 0 <= y < sy && column_ok(v, sx, y, sy - 1)
    ||| vertical && x == sx && sy < y < v.height && column_ok(v, sx, sy + 1, y)
    ||| !vertical && y == sy && 0 <= x < sx && row_ok(v, sy, x, sx - 1)
    ||| !vertical && y == sy && sx < x < v.width && row_ok(v, sy, sx + 1, x)
}

/// The position after the acting actor raises a wall in direction `d`: the
/// wall crosses the neighbouring cell, along the column for east and west,
/// along the row for north and south.
pub open spec fn spec_stagnation(v: UtwidView, d: Dir) -> UtwidView {
    let a = acting(v);
    let sx = a.x + dir_dx(d);
    let sy = a.y + dir_dy(d);
    let vertical = d is E || d is W;
    let w = v.width as int;
    UtwidView {
        geography: Seq::new(v.geography.len(), |i: int|
            if in_wall(v, sx, sy, vertical, i % w, i / w) { wall_tile() } else { v.geography[i] }),
        ..v
    }
}

/// The cell of index `i` lies in column `x`, row `y`.
proof fn lemma_cell_of(i: int, x: int, y: int, w: int, h: int)
    requires
        0 < w <= crate::utwid::board::BOARD_MAX_SIDE,
        h <= crate::utwid::board::BOARD_MAX_SIDE,
        0 <= x < w,
        0 <= y < h,
    ensures
        (i == cell(x, y, w)) <==> (i % w == x && i / w == y),
{
    lemma_cell_in_range(x, y, w, h);
    if i % w == x && i / w == y {
        vstd::arithmetic::div_mod::lemma_fundamental_div_mod(i, w);
        assert(i == x + y * w) by (nonlinear_arith)
            requires i == w * (i / w) + i % w, i % w == x, i / w == y;
    }
}

/// Geography `g` is `v`'s with walls on the cells where `walled` holds.
pub open spec fn walls_where(v: UtwidView, g: Seq<Tile>, walled: spec_fn(int, int) -> bool) -> bool {
    &&& g.len() == v.geography.len()
    &&& forall|i: int| 0 <= i < g.len() ==> #[trigger] g[i] == (if walled(i % (v.width as int), i / (v.width as int)) { wall_tile() } else { v.geography[i] })
}

impl UtwidState {
    /// Whether a wall may go up on `(x, y)`.
    fn wall_allowed(&self, x: usize, y: usize) -> (r: bool)
        requires
            state_wf(self@),
            x < self.board.width,
            y < self.board.height,
        ensures
            r == wall_ok(self@, x as int, y as int),
    {
        let t = self.board.get(x, y);
        let o = self.actor_id_in_space(x, y);
        proof {
            if let Some(i) = o {
                assert(stands_at(self.actors@[i as int], x as int, y as int));
            }
        }
        t.traits.walkable && !t.traits.stairs && o.is_none()
    }

    /// The acting actor raises a wall in the cardinal direction `d`, whose
    /// neighbouring cell must lie on the board.
    pub fn execute_stagnation(&self, d: Dir) -> (r: UtwidState)
        requires
            state_wf(self@),
            live(self.actors@, self.to_act as int),
            is_cardinal(d),
            view_on_board(self@, acting(self@).x + dir_dx(d), acting(self@).y + dir_dy(d)),
        ensures
            r@ == spec_stagnation(self@, d),
            r.board.rng == self.board.rng,
            r.spawn_rng == self.spawn_rng,
    {
        let ghost v = self@;
        let a = self.actors[self.to_act].unwrap();
        assert(v.actors[v.to_act as int] matches Some(b) ==> actor_values_bounded(b, v.width as int, v.height as int));
        let (sx, sy) = apply_dir(a.x, a.y, d);
        let vertical = match d {
            Dir::E | Dir::W => true,
            _ => false,
        };
        let w = self.board.width;
        let h = self.board.height;
        let ghost isx = sx as int;
        let ghost isy = sy as int;
        let mut s = self.duplicate();
        proof { lemma_cell_in_range(isx, isy, w as int, h as int); }
        let split_ok = self.wall_allowed(sx, sy);
        if split_ok {
            s.board.geography.set(sx + sy * w, Tile::wall());
        }
        proof {
            let walled = |x: int, y: int| x == isx && y == isy && wall_ok(v, isx, isy);
            assert forall|i: int| 0 <= i < s.board.geography@.len() implies #[trigger] s.board.geography@[i]
                == (if walled(i % (w as int), i / (w as int)) { wall_tile() } else { v.geography[i] }) by {
                lemma_cell_of(i, isx, isy, w as int, h as int);
            }
        }
        if vertical {
            // Upwards from the split.
            let mut y = sy;
            while y > 0 && self.wall_allowed(sx, y - 1)
                invariant
                    v == self@,
                    state_wf(v),
                    w == v.width,
                    h == v.height,
                    sx < w,
                    sy < h,
                    isx == sx,
                    isy == sy,
                    y <= sy,
                    column_ok(v, isx, y as int, isy - 1),
                    s@ == (UtwidView { geography: s@.geography, ..v }),
                    s.board.rng == self.board.rng,
                    s.spawn_rng == self.spawn_rng,
                    walls_where(v, s@.geography, |x: int, yy: int| (x == isx && yy == isy && wall_ok(v, isx, isy)) || (x == isx && y <= yy < isy)),
                decreases y,
            {
                y -= 1;
                proof { lemma_cell_in_range(isx, y as int, w as int, h as int); }
                s.board.geography.set(sx + y * w, Tile::wall());
                proof {
                    assert forall|i: int| 0 <= i < s@.geography.len() implies #[trigger] s@.geography[i]
                        == (if ((i % (w as int)) == isx && (i / (w as int)) == isy && wall_ok(v, isx, isy)) || ((i % (w as int)) == isx && y <= (i / (w as int)) < isy) { wall_tile() } else { v.geography[i] }) by {
                        lemma_cell_of(i, isx, y as int, w as int, h as int);
                    }
                }
            }
            let ghost top = y as int;
            // Downwards from the split.
            let mut y = sy + 1;
            while y < h && self.wall_allowed(sx, y)
                invariant
                    v == self@,
                    state_wf(v),
                    w == v.width,
                    h == v.height,
                    sx < w,
                    sy < h,
                    isx == sx,
                    isy == sy,
                    sy < y <= h,
                    column_ok(v, isx, isy + 1, y - 1),
                    s@ == (UtwidView { geography: s@.geography, ..v }),
                    s.board.rng == self.board.rng,
                    s.spawn_rng == self.spawn_rng,
                    walls_where(v, s@.geography, |x: int, yy: int| (x == isx && yy == isy && wall_ok(v, isx, isy)) || (x == isx && top <= yy < isy) || (x == isx && isy < yy < y)),
                decreases h - y,
            {
                proof { lemma_cell_in_range(isx, y as int, w as int, h as int); }
                s.board.geography.set(sx + y * w, Tile::wall());
                y += 1;
                proof {
                    assert forall|i: int| 0 <= i < s@.geography.len() implies #[trigger] s@.geography[i]
                        == (if ((i % (w as int)) == isx && (i / (w as int)) == isy && wall_ok(v, isx, isy)) || ((i % (w as int)) == isx && top <= (i / (w as int)) < isy) || ((i % (w as int)) == isx && isy < (i / (w as int)) < y) { wall_tile() } else { v.geography[i] }) by {
                        lemma_cell_of(i, isx, y - 1, w as int, h as int);
                    }
                }
            }
            let ghost bottom = y as int;
            proof {
                let e = spec_stagnation(v, d);
                assert forall|i: int| 0 <= i < v.geography.len() implies #[trigger] s@.geography[i] == e.geography[i] by {
                    let x = i % (w as int);
                    let yy = i / (w as int);
                    if x == isx && 0 <= yy < isy {
                        if yy < top {
                            assert(!wall_ok(v, isx, top - 1));
                            assert(!column_ok(v, isx, yy, isy - 1));
                        }
                    }
                    if x == isx && isy < yy < v.height {
                        if yy >= bottom {
                            assert(!wall_ok(v, isx, bottom));
                            assert(!column_ok(v, isx, isy + 1, yy));
                        }
                    }
                }
                assert(s@.geography =~= e.geography);
            }
        } else {
            // Leftwards from the split.
            let mut x = sx;
            while x > 0 && self.wall_allowed(x - 1, sy)
                invariant
                    v == self@,
                    state_wf(v),
                    w == v.width,
                    h == v.height,
                    sx < w,
                    sy < h,
                    isx == sx,
                    isy == sy,
                    x <= sx,
                    row_ok(v, isy, x as int, isx - 1),
                    s@ == (UtwidView { geography: s@.geography, ..v }),
                    s.board.rng == self.board.rng,
                    s.spawn_rng == self.spawn_rng,
                    walls_where(v, s@.geography, |xx: int, y: int| (xx == isx && y == isy && wall_ok(v, isx, isy)) || (y == isy && x <= xx < isx)),
                decreases x,
            {
                x -= 1;
                proof { lemma_cell_in_range(x as int, isy, w as int, h as int); }
                s.board.geography.set(x + sy * w, Tile::wall());
                proof {
                    assert forall|i: int| 0 <= i < s@.geography.len() implies #[trigger] s@.geography[i]
                        == (if ((i % (w as int)) == isx && (i / (w as int)) == isy && wall_ok(v, isx, isy)) || ((i / (w as int)) == isy && x <= (i % (w as int)) < isx) { wall_tile() } else { v.geography[i] }) by {
                        lemma_cell_of(i, x as int, isy, w as int, h as int);
                    }
                }
            }
            let ghost left = x as int;
            // Rightwards from the split.
            let mut x = sx + 1;
            while x < w && self.wall_allowed(x, sy)
                invariant
                    v == self@,
                    state_wf(v),
                    w == v.width,
                    h == v.height,
                    sx < w,
                    sy < h,
                    isx == sx,
                    isy == sy,
                    sx < x <= w,
                    row_ok(v, isy, isx + 1, x - 1),
                    s@ == (UtwidView { geography: s@.geography, ..v }),
                    s.board.rng == self.board.rng,
                    s.spawn_rng == self.spawn_rng,
                    walls_where(v, s@.geography, |xx: int, y: int| (xx == isx && y == isy && wall_ok(v, isx, isy)) || (y == isy && left <= xx < isx) || (y == isy && isx < xx < x)),
                decreases w - x,
            {
                proof { lemma_cell_in_range(x as int, isy, w as int, h as int); }
                s.board.geography.set(x + sy * w, Tile::wall());
                x += 1;
                proof {
                    assert forall|i: int| 0 <= i < s@.geography.len() implies #[trigger] s@.geography[i]
                        == (if ((i % (w as int)) == isx && (i / (w as int)) == isy && wall_ok(v, isx, isy)) || ((i / (w as int)) == isy && left <= (i % (w as int)) < isx) || ((i / (w as int)) == isy && isx < (i % (w as int)) < x) { wall_tile() } else { v.geography[i] }) by {
                        lemma_cell_of(i, x - 1, isy, w as int, h as int);
                    }
                }
            }
            let ghost right = x as int;
            proof {
                let e = spec_stagnation(v, d);
                assert forall|i: int| 0 <= i < v.geography.len() implies #[trigger] s@.geography[i] == e.geography[i] by {
                    let xx = i % (w as int);
                    let yy = i / (w as int);
                    if yy == isy && 0 <= xx < isx {
                        if xx < left {
                            assert(!wall_ok(v, left - 1, isy));
                            assert(!row_ok(v, isy, xx, isx - 1));
                        }
                    }
                    if yy == isy && isx < xx < v.width {
                        if xx >= right {
                            assert(!wall_ok(v, right, isy));
                            assert(!row_ok(v, isy, isx + 1, xx));
                        }
                    }
                }
                assert(s@.geography =~= e.geography);
            }
        }
        s
    }
}

} // verus!
