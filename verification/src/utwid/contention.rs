//! Glitching the map: the whole board turns over, by the distance from the
//! player to the first obstacle in a direction, and everyone else is thrown
//! together.

use vstd::prelude::*;
use crate::utwid::types::{Dir, dir_dx, dir_dy, dir_delta};
use crate::utwid::board::{Tile, BOARD_MAX_SIDE, cell, lemma_cell_in_range};
use crate::utwid::actor::GameActor;
use crate::utwid::state::{UtwidState, UtwidView, live};
use crate::utwid::moves::{state_wf, actor_values_bounded, acting};
use crate::utwid::conclusion::{view_on_board, edge_dist};

verus! {

/// From `(x, y)` onwards in direction `d`: the first cell that is off the
/// board or not walkable.
pub open spec fn beam(v: UtwidView, d: Dir, x: int, y: int) -> (int, int)
    decreases edge_dist(d, x, y, v.width as int, v.height as int),
{
    if view_on_board(v, x, y) && v.geography[cell(x, y, v.width as int)].traits.walkable
        && edge_dist(d, x + dir_dx(d), y + dir_dy(d), v.width as int, v.height as int) < edge_dist(d, x, y, v.width as int, v.height as int)
        && edge_dist(d, x + dir_dx(d), y + dir_dy(d), v.width as int, v.height as int) >= 0 {
        beam(v, d, x + dir_dx(d), y + dir_dy(d))
    } else {
        (x, y)
    }
}

/// How far the board turns: the offset, in cells, from the acting actor to
/// the end of its beam in direction `d`, counted from the end back, and
/// taken once more round the board where it falls below zero.
pub open spec fn rotation(v: UtwidView, d: Dir) -> int {
    let a = acting(v);
    let (tx, ty) = beam(v, d, a.x + dir_dx(d), a.y + dir_dy(d));
    let w = v.width as int;
    let r = (tx - a.x) + (a.y - ty) * w;
    if r >= 0 { r } else { r + w * v.height }
}

/// The position after the acting actor glitches the map in direction `d`:
/// tile `i` becomes the tile `rotation` cells further on, and every other
/// actor lands where the acting actor's cell is turned to.
pub open spec fn spec_contention(v: UtwidView, d: Dir) -> UtwidView {
    let a = acting(v);
    let rot = rotation(v, d);
    let w = v.width as int;
    let n = w * v.height;
    let p = (a.x + a.y * w + rot) % n;
    UtwidView {
        geography: Seq::new(n as nat, |i: int| v.geography[(i + rot) % n]),
        actors: Seq::new(v.actors.len(), |i: int|
            if i == v.to_act { v.actors[i] } else {
                match v.actors[i] {
                    Some(b) => Some(GameActor { x: (p % w) as usize, y: (p / w) as usize, ..b }),
                    None => None,
                }
            }),
        ..v
    }
}

proof fn lemma_beam_dist(d: Dir, x: int, y: int, w: int, h: int)
    requires
        0 <= x < w,
        0 <= y < h,
    ensures
        edge_dist(d, x + dir_dx(d), y + dir_dy(d), w, h) < edge_dist(d, x, y, w, h),
        edge_dist(d, x + dir_dx(d), y + dir_dy(d), w, h) >= 0,
{
}

impl UtwidState {
    /// The acting actor glitches the map in direction `d`; the turn must
    /// come out at or above zero.
    pub fn execute_contention(&self, d: Dir) -> (r: UtwidState)
        requires
            state_wf(self@),
            live(self.actors@, self.to_act as int),
            rotation(self@, d) >= 0,
        ensures
            r@ == spec_contention(self@, d),
            r.board.rng == self.board.rng,
            r.spawn_rng == self.spawn_rng,
    {
        let ghost v = self@;
        let a = self.actors[self.to_act].unwrap();
        assert(v.actors[v.to_act as int] matches Some(b) ==> actor_values_bounded(b, v.width as int, v.height as int));
        let w = self.board.width;
        let h = self.board.height;
        let (dx, dy) = dir_delta(d);
        let mut tx: isize = a.x as isize + dx;
        let mut ty: isize = a.y as isize + dy;
        loop
            invariant
                v == self@,
                state_wf(v),
                w == v.width,
                h == v.height,
                dx == dir_dx(d),
                dy == dir_dy(d),
                -1 <= tx <= w,
                -1 <= ty <= h,
                0 <= edge_dist(d, tx as int, ty as int, w as int, h as int),
                beam(v, d, tx as int, ty as int) == beam(v, d, a.x + dir_dx(d), a.y + dir_dy(d)),
            ensures
                (tx as int, ty as int) == beam(v, d, a.x + dir_dx(d), a.y + dir_dy(d)),
            decreases edge_dist(d, tx as int, ty as int, w as int, h as int),
        {
            if !(tx >= 0 && tx < w as isize && ty >= 0 && ty < h as isize) {
                break;
            }
            let t = self.board.get(tx as usize, ty as usize);
            if !t.traits.walkable {
                break;
            }
            proof { lemma_beam_dist(d, tx as int, ty as int, w as int, h as int); }
            tx = tx + dx;
            ty = ty + dy;
        }
        proof {
            lemma_cell_in_range(0, 0, w as int, h as int);
            let wi = w as int;
            let dyi = a.y - ty;
            assert(-(BOARD_MAX_SIDE as int) * BOARD_MAX_SIDE <= dyi * wi <= (BOARD_MAX_SIDE as int + 1) * BOARD_MAX_SIDE) by (nonlinear_arith)
                requires -(BOARD_MAX_SIDE as int) <= dyi <= BOARD_MAX_SIDE as int + 1, 0 < wi <= BOARD_MAX_SIDE;
        }
        let n = w * h;
        let raw: isize = (tx - a.x as isize) + (a.y as isize - ty) * (w as isize);
        let rot: usize = if raw >= 0 { raw as usize } else { (raw + n as isize) as usize };
        assert(rot == rotation(v, d));
        let mut geography: Vec<Tile> = Vec::new();
        let mut i: usize = 0;
        while i < n
            invariant
                v == self@,
                n == w * h,
                n == v.geography.len(),
                0 < n <= BOARD_MAX_SIDE * BOARD_MAX_SIDE,
                rot == rotation(v, d),
                rot <= 2 * BOARD_MAX_SIDE * BOARD_MAX_SIDE + 2 * BOARD_MAX_SIDE + 2,
                i <= n,
                geography@.len() == i,
                forall|k: int| 0 <= k < i ==> #[trigger] geography@[k] == v.geography[(k + rot) % (n as int)],
            decreases n - i,
        {
            let j = (i + rot) % n;
            proof { vstd::arithmetic::div_mod::lemma_mod_bound((i + rot) as int, n as int); }
            geography.push(self.board.geography[j]);
            i += 1;
        }
        proof { lemma_cell_in_range(a.x as int, a.y as int, w as int, h as int); }
        let p = (a.x + a.y * w + rot) % n;
        let mut actors: Vec<Option<GameActor>> = Vec::new();
        let mut k: usize = 0;
        while k < self.actors.len()
            invariant
                v == self@,
                0 < w,
                w == v.width,
                n == w * h,
                h == v.height,
                a == acting(v),
                rot == rotation(v, d),
                p == (a.x + a.y * w + rot) % (n as int),
                k <= v.actors.len(),
                actors@.len() == k,
                forall|j: int| 0 <= j < k ==> #[trigger] actors@[j] == spec_contention(v, d).actors[j],
            decreases v.actors.len() - k,
        {
            let e = if k == self.to_act {
                self.actors[k]
            } else {
                match self.actors[k] {
                    Some(b) => Some(GameActor { x: p % w, y: p / w, ..b }),
                    None => None,
                }
            };
            actors.push(e);
            k += 1;
        }
        proof {
            assert(geography@ =~= spec_contention(v, d).geography);
            assert(actors@ =~= spec_contention(v, d).actors);
        }
        let mut r = self.duplicate();
        r.board.geography = geography;
        r.actors = actors;
        r
    }
}

} // verus!
