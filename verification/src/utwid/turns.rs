//! Whose turn it is: keeping the turn order to the actors still in the
//! game, and finding free cells for new monsters.

use vstd::prelude::*;
use std::collections::VecDeque;
use crate::utwid::types::ActorId;
use crate::utwid::board::{lemma_cell_in_range, draw_range};
use crate::utwid::actor::GameActor;
use crate::utwid::state::{UtwidState, UtwidView, live, stands_at};
use crate::utwid::moves::state_wf;
use crate::utwid::rooms::PLACEMENT_ATTEMPTS;

verus! {

/// The lowest number of an actor not removed.
pub open spec fn first_live(actors: Seq<Option<GameActor>>) -> Option<int>
    decreases actors.len(),
{
    if actors.len() == 0 {
        None
    } else {
        match first_live(actors.drop_last()) {
            Some(i) => Some(i),
            None => if actors.last() is Some { Some(actors.len() - 1) } else { None },
        }
    }
}

pub open spec fn live_pred(actors: Seq<Option<GameActor>>) -> spec_fn(ActorId) -> bool {
    |id: ActorId| live(actors, id as int)
}

/// The turn order tidied up: only actors still in the game keep their
/// turns; an emptied order gets the lowest remaining actor; and where the
/// actor to act has gone, the first in the order acts.
pub open spec fn normalized(v: UtwidView) -> UtwidView {
    let kept = v.turn_order.filter(live_pred(v.actors));
    let order = if kept.len() == 0 {
        match first_live(v.actors) {
            Some(i) => seq![i as usize],
            None => kept,
        }
    } else {
        kept
    };
    let to_act = if !live(v.actors, v.to_act as int) && order.len() > 0 { order[0] } else { v.to_act };
    UtwidView { turn_order: order, to_act, ..v }
}

/// Whether nobody alive stands on `(x, y)`.
pub open spec fn free_cell(v: UtwidView, x: int, y: int) -> bool {
    &&& 0 <= x < v.width
    &&& 0 <= y < v.height
    &&& forall|j: int| 0 <= j < v.actors.len() ==> !stands_at(#[trigger] v.actors[j], x, y)
}

/// `first_live` names the first actor still in the game, or none when all
/// have left.
pub(crate) proof fn lemma_first_live(actors: Seq<Option<GameActor>>)
    ensures
        first_live(actors) matches Some(i) ==> (0 <= i < actors.len() && actors[i] is Some
            && forall|j: int| 0 <= j < i ==> #[trigger] actors[j] is None),
        first_live(actors) is None ==> forall|j: int| 0 <= j < actors.len() ==> #[trigger] actors[j] is None,
    decreases actors.len(),
{
    if actors.len() > 0 {
        lemma_first_live(actors.drop_last());
        assert forall|j: int| 0 <= j < actors.len() - 1 implies #[trigger] actors[j] == actors.drop_last()[j] by {}
    }
}

impl UtwidState {
    /// Keeps the turn order to the actors still in the game.
    pub fn normalize_turn_state(&mut self)
        ensures
            final(self)@ == normalized(old(self)@),
            final(self).board.rng == old(self).board.rng,
            final(self).spawn_rng == old(self).spawn_rng,
    {
        let ghost v = self@;
        let ghost pred = live_pred(v.actors);
        let mut kept: VecDeque<ActorId> = VecDeque::new();
        let mut i: usize = 0;
        while i < self.turn_order.len()
            invariant
                v == self@,
                pred == live_pred(v.actors),
                i <= v.turn_order.len(),
                kept@ == v.turn_order.take(i as int).filter(pred),
            decreases v.turn_order.len() - i,
        {
            let id = self.turn_order[i];
            proof {
                assert(v.turn_order.take(i + 1).drop_last() =~= v.turn_order.take(i as int));
                reveal(Seq::filter);
            }
            if self.has_actor(id) {
                kept.push_back(id);
            }
            i += 1;
        }
        assert(v.turn_order.take(i as int) =~= v.turn_order);
        if kept.len() == 0 {
            if self.has_actor(0) {
                kept.push_back(0);
                proof {
                    lemma_first_live(v.actors);
                }
            } else {
                if let Some(k) = self.first_live_id() {
                    kept.push_back(k);
                }
            }
        }
        self.turn_order = kept;
        if !self.has_actor(self.to_act) {
            if self.turn_order.len() > 0 {
                self.to_act = self.turn_order[0];
            }
        }
        proof {
            lemma_first_live(v.actors);
            let n = normalized(v);
            assert(self.turn_order@ =~= n.turn_order);
        }
    }

    /// The lowest number of an actor not removed.
    fn first_live_id(&self) -> (r: Option<usize>)
        ensures
            r matches Some(k) ==> first_live(self.actors@) == Some(k as int),
            r is None ==> first_live(self.actors@) is None,
    {
        let ghost v = self@;
        let mut k: usize = 0;
        while k < self.actors.len()
            invariant
                v == self@,
                k <= v.actors.len(),
                first_live(v.actors.take(k as int)) is None,
            decreases v.actors.len() - k,
        {
            proof { assert(v.actors.take(k + 1).drop_last() =~= v.actors.take(k as int)); }
            if self.actors[k].is_some() {
                proof {
                    lemma_first_live(v.actors.take(k + 1));
                    lemma_first_live(v.actors);
                    lemma_first_live(v.actors.take(k as int));
                    assert forall|j: int| 0 <= j < k implies #[trigger] v.actors[j] is None by {
                        assert(v.actors.take(k as int)[j] == v.actors[j]);
                    }
                    match first_live(v.actors) {
                        Some(i) => {
                            if i < k {
                                assert(v.actors[i] is None);
                            }
                            if i > k {
                                assert(v.actors[k as int] is None);
                            }
                        },
                        None => {
                            assert(v.actors[k as int] is None);
                        },
                    }
                }
                return Some(k);
            }
            k += 1;
        }
        assert(v.actors.take(k as int) =~= v.actors);
        None
    }

    /// Whether nobody alive stands on `(x, y)`.
    fn cell_free(&self, x: usize, y: usize) -> (r: bool)
        requires
            x < self.board.width,
            y < self.board.height,
        ensures
            r == free_cell(self@, x as int, y as int),
    {
        let o = self.actor_id_in_space(x, y);
        proof {
            if let Some(i) = o {
                assert(stands_at(self@.actors[i as int], x as int, y as int));
            }
        }
        o.is_none()
    }

    /// A free cell for a new monster: random draws first, then the first
    /// free cell in reading order. Some cell must be free.
    pub fn suggest_spawn(&mut self) -> (r: (usize, usize))
        requires
            state_wf(old(self)@),
            exists|x: int, y: int| #[trigger] free_cell(old(self)@, x, y),
        ensures
            free_cell(old(self)@, r.0 as int, r.1 as int),
            final(self)@ == old(self)@,
            final(self).board.rng == old(self).board.rng,
    {
        let w = self.board.width;
        let h = self.board.height;
        let mut attempt: usize = 0;
        while attempt < PLACEMENT_ATTEMPTS
            invariant
                self@ == old(self)@,
                self.board.rng == old(self).board.rng,
                w == self.board.width,
                h == self.board.height,
                0 < w,
                0 < h,
            decreases PLACEMENT_ATTEMPTS - attempt,
        {
            let x = draw_range(&mut self.spawn_rng, 0, w);
            let y = draw_range(&mut self.spawn_rng, 0, h);
            if self.cell_free(x, y) {
                return (x, y);
            }
            attempt += 1;
        }
        let mut y: usize = 0;
        while y < h
            invariant
                self@ == old(self)@,
                self.board.rng == old(self).board.rng,
                w == self.board.width,
                h == self.board.height,
                y <= h,
                exists|x: int, y: int| #[trigger] free_cell(old(self)@, x, y),
                forall|xx: int, yy: int| 0 <= yy < y ==> !#[trigger] free_cell(old(self)@, xx, yy),
            decreases h - y,
        {
            let mut x: usize = 0;
            while x < w
                invariant
                    self@ == old(self)@,
                    self.board.rng == old(self).board.rng,
                    w == self.board.width,
                    h == self.board.height,
                    y < h,
                    x <= w,
                    forall|xx: int, yy: int| 0 <= yy < y ==> !#[trigger] free_cell(old(self)@, xx, yy),
                    forall|xx: int| 0 <= xx < x ==> !#[trigger] free_cell(old(self)@, xx, y as int),
                decreases w - x,
            {
                if self.cell_free(x, y) {
                    return (x, y);
                }
                x += 1;
            }
            proof {
                assert forall|xx: int, yy: int| 0 <= yy < y + 1 implies !#[trigger] free_cell(old(self)@, xx, yy) by {
                    if yy == y && 0 <= xx < w {
                        assert(!free_cell(old(self)@, xx, y as int));
                    }
                }
            }
            y += 1;
        }
        proof {
            let (fx, fy) = choose|x: int, y: int| #[trigger] free_cell(old(self)@, x, y);
            assert(!free_cell(old(self)@, fx, fy));
        }
        (0, 0)
    }
}

} // verus!
