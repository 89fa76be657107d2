//! New monsters: every few player turns a monster appears on a free cell.

use vstd::prelude::*;
use crate::utwid::types::{ACTOR_TYPE_ARE, ACTOR_TYPE_THEM, ACTOR_TYPE_ONE};
use crate::utwid::actor::{GameActor, spec_are_actor, spec_them_actor, spec_one_actor};
use crate::utwid::state::{UtwidState, UtwidView, stands_at};
use crate::utwid::moves::{state_wf, actor_values_bounded, VALUE_BOUND};
use crate::utwid::turns::free_cell;

verus! {

/// The monsters that appear on player turn `t`, in order: one that moves
/// straight every ninth turn, one that moves diagonally every thirteenth,
/// and a bomb every fifth.
pub open spec fn spawn_kinds(t: int) -> Seq<usize> {
    (if t % 9 == 0 { seq![ACTOR_TYPE_ARE] } else { seq![] })
        + (if t % 13 == 0 { seq![ACTOR_TYPE_THEM] } else { seq![] })
        + (if t % 5 == 0 { seq![ACTOR_TYPE_ONE] } else { seq![] })
}

pub open spec fn spawn_actor(kind: usize, x: usize, y: usize) -> GameActor {
    if kind == ACTOR_TYPE_ARE {
        spec_are_actor(x, y)
    } else if kind == ACTOR_TYPE_THEM {
        spec_them_actor(x, y)
    } else {
        spec_one_actor(x, y)
    }
}

/// The position with a monster of `kind` added on `(x, y)`.
pub open spec fn with_spawn(v: UtwidView, kind: usize, x: usize, y: usize) -> UtwidView {
    UtwidView {
        actors: v.actors.push(Some(spawn_actor(kind, x, y))),
        turn_order: v.turn_order.push(v.actor_id_counter),
        actor_id_counter: (v.actor_id_counter + 1) as usize,
        ..v
    }
}

/// The position after monsters of `kinds` appear, one after another, on
/// `cells`.
pub open spec fn after_spawns(v: UtwidView, kinds: Seq<usize>, cells: Seq<(usize, usize)>) -> UtwidView
    decreases kinds.len(),
{
    if kinds.len() == 0 || cells.len() == 0 {
        v
    } else {
        let before = after_spawns(v, kinds.drop_last(), cells.drop_last());
        with_spawn(before, kinds.last(), cells.last().0, cells.last().1)
    }
}

/// Whether each of `cells` was free when its monster appeared.
pub open spec fn spawns_ok(v: UtwidView, kinds: Seq<usize>, cells: Seq<(usize, usize)>) -> bool
    decreases kinds.len(),
{
    &&& cells.len() == kinds.len()
    &&& (kinds.len() > 0 ==> {
        let before = after_spawns(v, kinds.drop_last(), cells.drop_last());
        &&& spawns_ok(v, kinds.drop_last(), cells.drop_last())
        &&& free_cell(before, cells.last().0 as int, cells.last().1 as int)
    })
}

/// Whether `cells` are distinct free cells of `v`.
pub open spec fn free_cells(v: UtwidView, cells: Seq<(int, int)>) -> bool {
    &&& cells.no_duplicates()
    &&& forall|i: int| 0 <= i < cells.len() ==> #[trigger] free_cell(v, cells[i].0, cells[i].1)
}

/// What a spawn leaves of a list of free cells: all but the one taken.
pub open spec fn after_taking(cells: Seq<(int, int)>, x: int, y: int) -> Seq<(int, int)> {
    if cells.contains((x, y)) {
        cells.remove(cells.index_of((x, y)))
    } else {
        cells.drop_last()
    }
}

proof fn lemma_after_taking(v: UtwidView, cells: Seq<(int, int)>, kind: usize, x: usize, y: usize)
    requires
        free_cells(v, cells),
        cells.len() >= 1,
        free_cell(v, x as int, y as int),
    ensures
        free_cells(with_spawn(v, kind, x, y), after_taking(cells, x as int, y as int)),
        after_taking(cells, x as int, y as int).len() == cells.len() - 1,
{
    let w = with_spawn(v, kind, x, y);
    let rest = after_taking(cells, x as int, y as int);
    if cells.contains((x as int, y as int)) {
        let j = cells.index_of((x as int, y as int));
        assert(rest =~= cells.subrange(0, j) + cells.subrange(j + 1, cells.len() as int));
        assert forall|a: int, b: int| 0 <= a < b < rest.len() implies rest[a] != rest[b] by {
            let ia = if a < j { a } else { a + 1 };
            let ib = if b < j { b } else { b + 1 };
            assert(rest[a] == cells[ia]);
            assert(rest[b] == cells[ib]);
        }
        assert forall|i: int| 0 <= i < rest.len() implies #[trigger] free_cell(w, rest[i].0, rest[i].1) by {
            let ii = if i < j { i } else { i + 1 };
            assert(rest[i] == cells[ii]);
            assert(free_cell(v, cells[ii].0, cells[ii].1));
            assert(cells[ii] != cells[j]);
            assert forall|k: int| 0 <= k < w.actors.len() implies !stands_at(#[trigger] w.actors[k], rest[i].0, rest[i].1) by {
                if k < v.actors.len() {
                    assert(w.actors[k] == v.actors[k]);
                }
            }
        }
    } else {
        assert forall|i: int| 0 <= i < rest.len() implies #[trigger] free_cell(w, rest[i].0, rest[i].1) by {
            assert(rest[i] == cells[i]);
            assert(free_cell(v, cells[i].0, cells[i].1));
            assert(cells[i] != (x as int, y as int));
            assert forall|k: int| 0 <= k < w.actors.len() implies !stands_at(#[trigger] w.actors[k], rest[i].0, rest[i].1) by {
                if k < v.actors.len() {
                    assert(w.actors[k] == v.actors[k]);
                }
            }
        }
    }
}

impl UtwidState {
    /// A monster of `kind` appears on a free cell; one of the distinct free
    /// cells `cells` proves that one exists.
    pub(crate) fn spawn_one(&mut self, kind: usize, Ghost(cells): Ghost<Seq<(int, int)>>) -> (r: (usize, usize))
        requires
            state_wf(old(self)@),
            free_cells(old(self)@, cells),
            cells.len() >= 1,
            old(self).actor_id_counter < usize::MAX,
            old(self).actors@.len() < usize::MAX,
        ensures
            free_cell(old(self)@, r.0 as int, r.1 as int),
            final(self)@ == with_spawn(old(self)@, kind, r.0, r.1),
            state_wf(final(self)@),
            free_cells(final(self)@, after_taking(cells, r.0 as int, r.1 as int)),
            after_taking(cells, r.0 as int, r.1 as int).len() == cells.len() - 1,
            final(self).board.rng == old(self).board.rng,
    {
        assert(free_cell(self@, cells[0].0, cells[0].1));
        let (x, y) = self.suggest_spawn();
        let actor = if kind == ACTOR_TYPE_ARE {
            GameActor::are_actor(x, y)
        } else if kind == ACTOR_TYPE_THEM {
            GameActor::them_actor(x, y)
        } else {
            GameActor::one_actor(x, y)
        };
        let ghost before = self@;
        self.add_actor(actor);
        proof {
            lemma_after_taking(before, cells, kind, x, y);
            let w = self@;
            assert(w == with_spawn(before, kind, x, y));
            assert forall|i: int| 0 <= i < w.actors.len() implies (#[trigger] w.actors[i] matches Some(a) ==> actor_values_bounded(a, w.width as int, w.height as int)) by {
                if i < before.actors.len() {
                    assert(w.actors[i] == before.actors[i]);
                    assert(before.actors[i] matches Some(a) ==> actor_values_bounded(a, before.width as int, before.height as int));
                }
            }
        }
        (x, y)
    }
}

} // verus!
