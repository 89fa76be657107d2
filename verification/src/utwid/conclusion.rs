//! The jump: the player slides along open floor in a direction, gaining a
//! damage bonus for every cell, and strikes what lies beyond.

use vstd::prelude::*;
use crate::utwid::types::{Dir, dir_dx, dir_dy, dir_delta, apply_dir, ROOM_SPLITS_MAX, BOARD_SIDE};
use crate::utwid::board::{Board, BOARD_MAX_SIDE, lemma_cell_in_range};
use crate::utwid::actor::{GameActor, spec_you_actor};
use crate::utwid::state::{UtwidState, UtwidView, live};
use crate::utwid::moves::{
    state_wf, actor_values_bounded, acting, spec_step, step_result, lands_on, after_stairs, fresh_level, anyone_at,
    lemma_step_wf, someone_at, VALUE_BOUND,
};

verus! {

pub open spec fn view_on_board(v: UtwidView, x: int, y: int) -> bool {
    0 <= x < v.width && 0 <= y < v.height
}

/// Whether a step from `(x, y)` in direction `d` lands on the board, on a
/// walkable tile or, with `melee`, one that can be struck.
pub open spec fn view_step_ok(v: UtwidView, x: int, y: int, d: Dir, melee: bool) -> bool {
    let tx = x + dir_dx(d);
    let ty = y + dir_dy(d);
    let t = v.geography[tx + ty * v.width];
    &&& view_on_board(v, tx, ty)
    &&& (t.traits.walkable || (melee && t.health is Some))
}

/// How far `(x, y)` lies from the edge that direction `d` runs into.
pub open spec fn edge_dist(d: Dir, x: int, y: int, w: int, h: int) -> int {
    (if dir_dx(d) > 0 { w - x } else if dir_dx(d) < 0 { x + 1 } else { 0 })
        + (if dir_dy(d) > 0 { h - y } else if dir_dy(d) < 0 { y + 1 } else { 0 })
}

/// The slide from `(x, y)`: while the next cell is open and nobody stands
/// here, move on and count a cell. The result is the last cell reached and
/// the count.
pub open spec fn slide(v: UtwidView, d: Dir, x: int, y: int, lx: int, ly: int, b: nat) -> (int, int, nat)
    decreases edge_dist(d, x, y, v.width as int, v.height as int),
{
    if view_on_board(v, x, y) && view_step_ok(v, x, y, d, false) && !anyone_at(v.actors, x, y) {
        slide(v, d, x + dir_dx(d), y + dir_dy(d), x, y, b + 1)
    } else {
        (lx, ly, b)
    }
}

/// Where the jump of the acting actor in direction `d` ends, and its bonus.
pub open spec fn jump(v: UtwidView, d: Dir) -> (int, int, nat) {
    let a = acting(v);
    let x0 = a.x + dir_dx(d);
    let y0 = a.y + dir_dy(d);
    slide(v, d, x0, y0, x0, y0, 0)
}

/// The outcome of a jump: the step to where the slide ends, the bonus
/// kept for the rest of the game, and a strike one cell further where that
/// cell can be struck.
pub open spec fn conclusion_result(v: UtwidView, d: Dir, r: UtwidView) -> bool {
    let (lx, ly, b) = jump(v, d);
    exists|s1: UtwidView| #[trigger] step_result(v, lx, ly, s1) && {
        let s2 = UtwidView { temporary_damage_bonus: Some(b as usize), ..s1 };
        if view_step_ok(s2, lx, ly, d, true) {
            step_result(s2, lx + dir_dx(d), ly + dir_dy(d), r)
        } else {
            r == s2
        }
    }
}

/// A jump ends on the board, and its bonus grows by at most the distance
/// to the edge it runs towards.
pub proof fn lemma_slide(v: UtwidView, d: Dir, x: int, y: int, lx: int, ly: int, b: nat)
    requires
        board_wf_view(v),
        view_on_board(v, x, y),
        view_on_board(v, lx, ly),
    ensures
        view_on_board(v, slide(v, d, x, y, lx, ly, b).0, slide(v, d, x, y, lx, ly, b).1),
        slide(v, d, x, y, lx, ly, b).2 <= b + edge_dist(d, x, y, v.width as int, v.height as int),
    decreases edge_dist(d, x, y, v.width as int, v.height as int),
{
    if view_on_board(v, x, y) && view_step_ok(v, x, y, d, false) && !anyone_at(v.actors, x, y) {
        lemma_slide(v, d, x + dir_dx(d), y + dir_dy(d), x, y, b + 1);
    }
}

/// The board of a position is well formed.
pub open spec fn board_wf_view(v: UtwidView) -> bool {
    crate::utwid::board::board_wf(v.geography, v.width as int, v.height as int)
}

/// A step leaves a playable position with the acting actor in place.
pub proof fn lemma_step_result_wf(v: UtwidView, x: int, y: int, r: UtwidView)
    requires
        state_wf(v),
        live(v.actors, v.to_act as int),
        0 <= x < v.width,
        0 <= y < v.height,
        step_result(v, x, y, r),
        v.short_circuit_at_turns matches Some(c) ==> (v.short_circuit_at_turns_increment matches Some(i) ==> c + i <= usize::MAX),
    ensures
        state_wf(r),
        live(r.actors, r.to_act as int),
        r.current_level <= v.current_level + 1,
        r.temporary_damage_bonus == v.temporary_damage_bonus,
        r.short_circuit_at_turns_increment == v.short_circuit_at_turns_increment,
        r.short_circuit_at_turns is None <==> v.short_circuit_at_turns is None,
        r.short_circuit_at_turns matches Some(c2) ==> (v.short_circuit_at_turns matches Some(c) && (c2 == c
            || (v.short_circuit_at_turns_increment matches Some(i) && c2 == c + i))),
{
    lemma_step_wf(v, x, y);
    let s = spec_step(v, x, y);
    if lands_on(s, true) {
        let you = if s.actors.len() > 0 && s.actors[0] is Some { s.actors[0]->0 } else { spec_you_actor() };
        if s.actors.len() > 0 && s.actors[0] is Some {
            assert(s.actors[0] matches Some(a) ==> actor_values_bounded(a, s.width as int, s.height as int));
        }
        assert(r.actors[0] matches Some(a) ==> actor_values_bounded(a, r.width as int, r.height as int));
        assert forall|i: int| 0 <= i < r.geography.len() implies (#[trigger] r.geography[i].health matches Some(n) ==> -(VALUE_BOUND as int) <= n <= VALUE_BOUND) by {
            assert(crate::utwid::rooms::built_tiles(r.geography, (s.current_level + 1) as nat));
            let t = r.geography[i];
            assert(t == crate::utwid::board::floor_tile() || t == crate::utwid::board::wall_tile() || t == crate::utwid::rooms::goal_tile((s.current_level + 1) as nat));
        }
    }
}

impl UtwidState {
    fn slide_from(&self, d: Dir, x0: usize, y0: usize) -> (r: (usize, usize, usize))
        requires
            state_wf(self@),
            view_on_board(self@, x0 as int, y0 as int),
        ensures
            (r.0 as int, r.1 as int, r.2 as nat) == slide(self@, d, x0 as int, y0 as int, x0 as int, y0 as int, 0),
    {
        let ghost v = self@;
        let (dx, dy) = dir_delta(d);
        let mut x = x0;
        let mut y = y0;
        let mut lx = x0;
        let mut ly = y0;
        let mut bonus: usize = 0;
        proof { lemma_slide(v, d, x0 as int, y0 as int, x0 as int, y0 as int, 0); }
        loop
            invariant
                v == self@,
                state_wf(v),
                view_on_board(v, x as int, y as int),
                view_on_board(v, lx as int, ly as int),
                bonus <= 2 * BOARD_MAX_SIDE + 2 * BOARD_MAX_SIDE - edge_dist(d, x as int, y as int, v.width as int, v.height as int),
                0 <= edge_dist(d, x as int, y as int, v.width as int, v.height as int) <= 2 * BOARD_MAX_SIDE + 2,
                slide(v, d, x as int, y as int, lx as int, ly as int, bonus as nat)
                    == slide(v, d, x0 as int, y0 as int, x0 as int, y0 as int, 0),
            ensures
                (lx as int, ly as int, bonus as nat) == slide(v, d, x0 as int, y0 as int, x0 as int, y0 as int, 0),
            decreases edge_dist(d, x as int, y as int, v.width as int, v.height as int),
        {
            let open = self.board.step_open(x, y, d, false);
            let busy = someone_at(&self.actors, x, y);
            if !(open && !busy) {
                break;
            }
            lx = x;
            ly = y;
            bonus += 1;
            let (nx, ny) = apply_dir(x, y, d);
            x = nx;
            y = ny;
        }
        (lx, ly, bonus)
    }

    /// The jump in direction `d`, which must start on the board.
    pub fn execute_conclusion(&self, d: Dir) -> (r: UtwidState)
        requires
            state_wf(self@),
            live(self.actors@, self.to_act as int),
            view_on_board(self@, acting(self@).x + dir_dx(d), acting(self@).y + dir_dy(d)),
            self.current_level + 1 < usize::MAX - ROOM_SPLITS_MAX,
            self.short_circuit_at_turns matches Some(c) ==> (self.short_circuit_at_turns_increment matches Some(i) ==> c + 2 * i <= usize::MAX),
        ensures
            conclusion_result(self@, d, r@),
            r.spawn_rng == self.spawn_rng,
    {
        let a = self.actors[self.to_act].unwrap();
        let (x0, y0) = apply_dir(a.x, a.y, d);
        let (lx, ly, bonus) = self.slide_from(d, x0, y0);
        proof { lemma_slide(self@, d, x0 as int, y0 as int, x0 as int, y0 as int, 0); }
        let mut s1 = self.move_to(lx, ly);
        let ghost s1v = s1@;
        proof { lemma_step_result_wf(self@, lx as int, ly as int, s1v); }
        s1.temporary_damage_bonus = Some(bonus);
        assert(state_wf(s1@)) by {
            assert forall|i: int| 0 <= i < s1@.actors.len() implies (#[trigger] s1@.actors[i] matches Some(a) ==> actor_values_bounded(a, s1@.width as int, s1@.height as int)) by {
                assert(s1v.actors[i] matches Some(a) ==> actor_values_bounded(a, s1v.width as int, s1v.height as int));
            }
            assert forall|i: int| 0 <= i < s1@.geography.len() implies (#[trigger] s1@.geography[i].health matches Some(n) ==> -(VALUE_BOUND as int) <= n <= VALUE_BOUND) by {
                assert(s1v.geography[i].health matches Some(n) ==> -(VALUE_BOUND as int) <= n <= VALUE_BOUND);
            }
        }
        let r = if s1.board.step_open(lx, ly, d, true) {
            let (nx, ny) = apply_dir(lx, ly, d);
            s1.move_to(nx, ny)
        } else {
            s1
        };
        assert(step_result(self@, lx as int, ly as int, s1v));
        r
    }
}

} // verus!
