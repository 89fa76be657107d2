//! The bomb: an actor that explodes hurts every tile and actor on its own
//! cell and the eight around it.

use vstd::prelude::*;
use crate::utwid::board::{Tile, damaged_tile, cell, lemma_cell_in_range};
use crate::utwid::actor::{GameActor, hurt_actor};
use crate::utwid::state::{UtwidState, UtwidView, live};
use crate::utwid::moves::{state_wf, actor_values_bounded, acting, hurt_at, VALUE_BOUND};

verus! {

/// First cell of the neighbourhood of `c`.
pub open spec fn near_lo(c: int) -> int {
    if c >= 1 { c - 1 } else { 0 }
}

/// One past the last cell of the neighbourhood of `c` on a side of `max`.
pub open spec fn near_hi(c: int, max: int) -> int {
    if c + 2 < max { c + 2 } else { max }
}

pub open spec fn in_blast(x: int, y: int, x0: int, y0: int, w: int, h: int) -> bool {
    near_lo(x0) <= x < near_hi(x0, w) && near_lo(y0) <= y < near_hi(y0, h)
}

/// The blow of a bomb: its attack, without any jump bonus.
pub open spec fn blast_damage(v: UtwidView) -> int {
    -(match acting(v).attack_damage { Some(n) => n as int, None => 0 })
}

/// The position after the acting actor explodes.
pub open spec fn spec_explode(v: UtwidView) -> UtwidView {
    let a = acting(v);
    let d = blast_damage(v);
    let w = v.width as int;
    let h = v.height as int;
    UtwidView {
        geography: Seq::new(v.geography.len(), |i: int|
            if in_blast(i % w, i / w, a.x as int, a.y as int, w, h) { damaged_tile(v.geography[i], d as int) } else { v.geography[i] }),
        actors: Seq::new(v.actors.len(), |i: int| match v.actors[i] {
            Some(b) => if in_blast(b.x as int, b.y as int, a.x as int, a.y as int, w, h) { Some(hurt_actor(b, d as int)) } else { Some(b) },
            None => None,
        }),
        ..v
    }
}

/// Whether cell `(x, y)` comes before `(cx, cy)` in the order the blast
/// visits its neighbourhood: column by column, each from the top.
pub open spec fn visited(x: int, y: int, cx: int, cy: int) -> bool {
    x < cx || (x == cx && y < cy)
}

/// The cells from one before `center` to one after it, cut to `0..max`, as
/// a half-open range.
pub fn neighborhood_range(center: usize, max: usize) -> (r: (usize, usize))
    ensures
        r.0 == near_lo(center as int),
        r.1 == near_hi(center as int, max as int),
{
    let lo = center.saturating_sub(1);
    let hi = if center < max && max - center > 2 { center + 2 } else { max };
    (lo, hi)
}

impl UtwidState {
    /// The acting actor explodes.
    pub fn execute_explode(&self) -> (r: UtwidState)
        requires
            state_wf(self@),
            live(self.actors@, self.to_act as int),
        ensures
            r@ == spec_explode(self@),
            r.board.rng == self.board.rng,
            r.spawn_rng == self.spawn_rng,
    {
        let ghost v = self@;
        let mut s = self.duplicate();
        let a = s.actors[s.to_act].unwrap();
        assert(v.actors[v.to_act as int] matches Some(b) ==> actor_values_bounded(b, v.width as int, v.height as int));
        let d: isize = match a.attack_damage { Some(n) => -(n as isize), None => 0 };
        let w = s.board.width;
        let h = s.board.height;
        let (x_lo, x_hi) = neighborhood_range(a.x, w);
        let (y_lo, y_hi) = neighborhood_range(a.y, h);
        let ghost x0 = a.x as int;
        let ghost y0 = a.y as int;
        let mut ix = x_lo;
        while ix < x_hi
            invariant
                state_wf(v),
                s.board.width == w,
                s.board.height == h,
                w == v.width,
                h == v.height,
                s.board.geography@.len() == v.geography.len(),
                s.actors@.len() == v.actors.len(),
                x0 == acting(v).x,
                y0 == acting(v).y,
                d == blast_damage(v),
                -(VALUE_BOUND as int) <= d <= 0,
                x_lo == near_lo(x0),
                x_hi == near_hi(x0, w as int),
                y_lo == near_lo(y0),
                y_hi == near_hi(y0, h as int),
                x_lo <= ix <= x_hi,
                x_hi <= w,
                y_hi <= h,
                y_lo <= y_hi,
                s@ == (UtwidView { geography: s@.geography, actors: s@.actors, ..v }),
                s.board.rng == self.board.rng,
                s.spawn_rng == self.spawn_rng,
                forall|i: int| 0 <= i < v.geography.len() ==> #[trigger] s.board.geography@[i] == (
                    if in_blast(i % (w as int), i / (w as int), x0, y0, w as int, h as int) && visited(i % (w as int), i / (w as int), ix as int, y_lo as int) {
                        damaged_tile(v.geography[i], d as int)
                    } else {
                        v.geography[i]
                    }),
                forall|i: int| 0 <= i < v.actors.len() ==> #[trigger] s.actors@[i] == (match v.actors[i] {
                    Some(b) => if in_blast(b.x as int, b.y as int, x0, y0, w as int, h as int) && visited(b.x as int, b.y as int, ix as int, y_lo as int) {
                        Some(hurt_actor(b, d as int))
                    } else {
                        Some(b)
                    },
                    None => None,
                }),
            decreases x_hi - ix,
        {
            let mut iy = y_lo;
            while iy < y_hi
                invariant
                    state_wf(v),
                    s.board.width == w,
                    s.board.height == h,
                    w == v.width,
                    h == v.height,
                    s.board.geography@.len() == v.geography.len(),
                    s.actors@.len() == v.actors.len(),
                    d == blast_damage(v),
                    -(VALUE_BOUND as int) <= d <= 0,
                    x_lo == near_lo(x0),
                    x_hi == near_hi(x0, w as int),
                    y_lo == near_lo(y0),
                    y_hi == near_hi(y0, h as int),
                    x_lo <= ix < x_hi,
                    x_hi <= w,
                    y_hi <= h,
                    y_lo <= iy <= y_hi,
                    s@ == (UtwidView { geography: s@.geography, actors: s@.actors, ..v }),
                    s.board.rng == self.board.rng,
                    s.spawn_rng == self.spawn_rng,
                    forall|i: int| 0 <= i < v.geography.len() ==> #[trigger] s.board.geography@[i] == (
                        if in_blast(i % (w as int), i / (w as int), x0, y0, w as int, h as int) && visited(i % (w as int), i / (w as int), ix as int, iy as int) {
                            damaged_tile(v.geography[i], d as int)
                        } else {
                            v.geography[i]
                        }),
                    forall|i: int| 0 <= i < v.actors.len() ==> #[trigger] s.actors@[i] == (match v.actors[i] {
                        Some(b) => if in_blast(b.x as int, b.y as int, x0, y0, w as int, h as int) && visited(b.x as int, b.y as int, ix as int, iy as int) {
                            Some(hurt_actor(b, d as int))
                        } else {
                            Some(b)
                        },
                        None => None,
                    }),
                decreases y_hi - iy,
            {
                proof { lemma_cell_in_range(ix as int, iy as int, w as int, h as int); }
                let c = ix + iy * w;
                let mut t = s.board.geography[c];
                assert(v.geography[c as int].health matches Some(n) ==> -(VALUE_BOUND as int) <= n <= VALUE_BOUND);
                t.modify_health(d);
                s.board.geography.set(c, t);
                let ghost before = s.actors@;
                proof {
                    assert forall|i: int| 0 <= i < s.actors@.len() implies (#[trigger] s.actors@[i] matches Some(b) ==> (b.health matches Some(n) ==> n <= VALUE_BOUND)) by {
                        assert(v.actors[i] matches Some(b) ==> actor_values_bounded(b, v.width as int, v.height as int));
                    }
                }
                crate::utwid::moves::hurt_all_at(&mut s.actors, ix, iy, d);
                proof {
                    assert forall|i: int| 0 <= i < v.geography.len() implies #[trigger] s.board.geography@[i] == (
                        if in_blast(i % (w as int), i / (w as int), x0, y0, w as int, h as int) && visited(i % (w as int), i / (w as int), ix as int, iy + 1) {
                            damaged_tile(v.geography[i], d as int)
                        } else {
                            v.geography[i]
                        }) by {
                        if i != c as int {
                            let x = i % (w as int);
                            let y = i / (w as int);
                            vstd::arithmetic::div_mod::lemma_fundamental_div_mod(i, w as int);
                            if x == ix && y == iy {
                                let ww = w as int;
                                let cc = c as int;
                                assert(i == cc) by (nonlinear_arith)
                                    requires i == ww * y + x, x == ix, y == iy, cc == ix + iy * ww;
                            }
                        }
                    }
                    assert forall|i: int| 0 <= i < v.actors.len() implies #[trigger] s.actors@[i] == (match v.actors[i] {
                        Some(b) => if in_blast(b.x as int, b.y as int, x0, y0, w as int, h as int) && visited(b.x as int, b.y as int, ix as int, iy + 1) {
                            Some(hurt_actor(b, d as int))
                        } else {
                            Some(b)
                        },
                        None => None,
                    }) by {
                        assert(v.actors[i] matches Some(b) ==> actor_values_bounded(b, v.width as int, v.height as int));
                        assert(s.actors@[i] == crate::utwid::moves::hurt_at(before, ix as int, iy as int, d as int)[i]);
                    }
                }
                iy += 1;
            }
            proof {
                assert forall|i: int| 0 <= i < v.geography.len() implies #[trigger] s.board.geography@[i] == (
                    if in_blast(i % (w as int), i / (w as int), x0, y0, w as int, h as int) && visited(i % (w as int), i / (w as int), ix + 1, y_lo as int) {
                        damaged_tile(v.geography[i], d as int)
                    } else {
                        v.geography[i]
                    }) by {
                    let x = i % (w as int);
                    let y = i / (w as int);
                    if in_blast(x, y, x0, y0, w as int, h as int) {
                        assert(visited(x, y, ix as int, iy as int) == visited(x, y, ix + 1, y_lo as int));
                    }
                }
                assert forall|i: int| 0 <= i < v.actors.len() implies #[trigger] s.actors@[i] == (match v.actors[i] {
                    Some(b) => if in_blast(b.x as int, b.y as int, x0, y0, w as int, h as int) && visited(b.x as int, b.y as int, ix + 1, y_lo as int) {
                        Some(hurt_actor(b, d as int))
                    } else {
                        Some(b)
                    },
                    None => None,
                }) by {
                    match v.actors[i] {
                        Some(b) => {
                            if in_blast(b.x as int, b.y as int, x0, y0, w as int, h as int) {
                                assert(visited(b.x as int, b.y as int, ix as int, iy as int) == visited(b.x as int, b.y as int, ix + 1, y_lo as int));
                            }
                        },
                        None => {},
                    }
                }
            }
            ix += 1;
        }
        proof {
            let e = spec_explode(v);
            assert forall|i: int| 0 <= i < v.geography.len() implies #[trigger] s.board.geography@[i] == e.geography[i] by {
                let x = i % (w as int);
                let y = i / (w as int);
                if in_blast(x, y, x0, y0, w as int, h as int) {
                    assert(visited(x, y, ix as int, y_lo as int));
                }
            }
            assert(s.board.geography@ =~= e.geography);
            assert forall|i: int| 0 <= i < v.actors.len() implies #[trigger] s.actors@[i] == e.actors[i] by {
                match v.actors[i] {
                    Some(b) => {
                        if in_blast(b.x as int, b.y as int, x0, y0, w as int, h as int) {
                            assert(visited(b.x as int, b.y as int, ix as int, y_lo as int));
                        }
                    },
                    None => {},
                }
            }
            assert(s.actors@ =~= e.actors);
        }
        s
    }
}

} // verus!

verus! {

/// Whether `(x, y)` lies within one step of `(x0, y0)` across, down or
/// diagonally.
pub open spec fn within_one(x: int, y: int, x0: int, y0: int) -> bool {
    -1 <= x - x0 <= 1 && -1 <= y - y0 <= 1
}

proof fn lemma_in_blast_near(x: int, y: int, x0: int, y0: int, w: int, h: int)
    requires
        0 <= x < w,
        0 <= y < h,
        0 <= x0 < w,
        0 <= y0 < h,
    ensures
        in_blast(x, y, x0, y0, w, h) == within_one(x, y, x0, y0),
{
}

/// An explosion reaches exactly the bomb's cell and the eight cells around
/// it: every tile and every actor within one step of the bomb is hurt by the
/// bomb's attack, and every tile and actor farther away, and the rest of the
/// position, is left as it was.
pub proof fn lemma_explode_reach(v: UtwidView)
    requires
        state_wf(v),
        live(v.actors, v.to_act as int),
    ensures
        ({
            let e = spec_explode(v);
            let a = acting(v);
            let w = v.width as int;
            let d = -(match a.attack_damage { Some(n) => n as int, None => 0 });
            &&& e == (UtwidView { geography: e.geography, actors: e.actors, ..v })
            &&& e.geography.len() == v.geography.len()
            &&& e.actors.len() == v.actors.len()
            &&& forall|i: int| 0 <= i < v.geography.len() ==> #[trigger] e.geography[i] == (if within_one(
                i % w,
                i / w,
                a.x as int,
                a.y as int,
            ) {
                damaged_tile(v.geography[i], d)
            } else {
                v.geography[i]
            })
            &&& forall|i: int| 0 <= i < v.actors.len() ==> #[trigger] e.actors[i] == match v.actors[i] {
                Some(b) => Some(if within_one(b.x as int, b.y as int, a.x as int, a.y as int) {
                    hurt_actor(b, d)
                } else {
                    b
                }),
                None => None,
            }
        }),
{
    let e = spec_explode(v);
    let a = acting(v);
    let w = v.width as int;
    let h = v.height as int;
    assert(v.actors[v.to_act as int] matches Some(b) ==> actor_values_bounded(b, w, h));
    assert forall|i: int| 0 <= i < v.geography.len() implies #[trigger] in_blast(i % w, i / w, a.x as int, a.y as int, w, h)
        == within_one(i % w, i / w, a.x as int, a.y as int) by {
        vstd::arithmetic::div_mod::lemma_fundamental_div_mod(i, w);
        vstd::arithmetic::div_mod::lemma_mod_bound(i, w);
        assert(0 <= i / w < h) by (nonlinear_arith)
            requires
                0 <= i < w * h,
                w > 0,
                i == w * (i / w) + i % w,
                0 <= i % w < w,
        ;
        lemma_in_blast_near(i % w, i / w, a.x as int, a.y as int, w, h);
    }
    assert forall|i: int| 0 <= i < v.actors.len() implies (#[trigger] v.actors[i] matches Some(b) ==> in_blast(
        b.x as int,
        b.y as int,
        a.x as int,
        a.y as int,
        w,
        h,
    ) == within_one(b.x as int, b.y as int, a.x as int, a.y as int)) by {
        if let Some(b) = v.actors[i] {
            assert(actor_values_bounded(b, w, h));
            lemma_in_blast_near(b.x as int, b.y as int, a.x as int, a.y as int, w, h);
        }
    }
    assert(e == (UtwidView { geography: e.geography, actors: e.actors, ..v }));
}

} // verus!
