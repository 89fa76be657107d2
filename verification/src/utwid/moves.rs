//! Stepping and striking: how an actor moves onto a cell, hurting what
//! stands there, and what happens when the player reaches the goal tile.

use vstd::prelude::*;
use std::collections::VecDeque;
use crate::utwid::types::{GameState, BOARD_SIDE, LAST_LEVEL, ROOM_SPLITS_MAX};
use crate::utwid::board::{Board, Tile, BOARD_MAX_SIDE, board_wf, cell, damaged_tile, lemma_cell_in_range, copy_rng};
use crate::utwid::actor::{GameActor, hurt_actor, spec_you_actor};
use crate::utwid::rooms::{built_tiles, at_most_one_goal, one_walkable_goal, laid_out};
use crate::utwid::state::{UtwidState, UtwidView, live};

verus! {

/// Bound on health and damage values, far above anything the game deals.
pub const VALUE_BOUND: usize = 100000000;

pub open spec fn actor_values_bounded(a: GameActor, w: int, h: int) -> bool {
    &&& a.x < w
    &&& a.y < h
    &&& (a.health matches Some(n) ==> n <= VALUE_BOUND)
    &&& (a.attack_damage matches Some(n) ==> n <= VALUE_BOUND)
}

/// A position that the rules can be played on: a well-formed board, every
/// actor on it, and health and damage values in range.
pub open spec fn state_wf(v: UtwidView) -> bool {
    &&& board_wf(v.geography, v.width as int, v.height as int)
    &&& forall|i: int| 0 <= i < v.actors.len() ==> (#[trigger] v.actors[i] matches Some(a) ==> actor_values_bounded(a, v.width as int, v.height as int))
    &&& forall|i: int| 0 <= i < v.geography.len() ==> (#[trigger] v.geography[i].health matches Some(n) ==> -(VALUE_BOUND as int) <= n <= VALUE_BOUND)
    &&& (v.temporary_damage_bonus matches Some(b) ==> b <= VALUE_BOUND)
}

/// The actor whose turn it is.
pub open spec fn acting(v: UtwidView) -> GameActor {
    v.actors[v.to_act as int]->0
}

/// The health change that the acting actor's blow deals: its attack and the
/// bonus of a long jump, as a loss.
pub open spec fn strike_damage(v: UtwidView) -> int {
    let att = match acting(v).attack_damage { Some(n) => n as int, None => 0 };
    let bonus = match v.temporary_damage_bonus { Some(n) => n as int, None => 0 };
    -att - bonus
}

/// Every actor on `(x, y)`, the dead included, takes the change `d`.
pub open spec fn hurt_at(actors: Seq<Option<GameActor>>, x: int, y: int, d: int) -> Seq<Option<GameActor>> {
    Seq::new(actors.len(), |i: int| match actors[i] {
        Some(a) => if a.x == x && a.y == y { Some(hurt_actor(a, d)) } else { Some(a) },
        None => None,
    })
}

/// Whether any actor, dead or alive, is on `(x, y)`.
pub open spec fn anyone_at(actors: Seq<Option<GameActor>>, x: int, y: int) -> bool {
    exists|i: int| 0 <= i < actors.len() && (#[trigger] actors[i] matches Some(a) && a.x == x && a.y == y)
}

/// The acting actor moves onto `(x, y)`: whatever is there takes the blow,
/// and the actor steps in if the cell is then free and walkable.
pub open spec fn spec_step(v: UtwidView, x: int, y: int) -> UtwidView {
    let d = strike_damage(v);
    let actors1 = hurt_at(v.actors, x, y, d);
    let c = cell(x, y, v.width as int);
    let geo = v.geography.update(c, damaged_tile(v.geography[c], d));
    let moved = !anyone_at(actors1, x, y) && geo[c].traits.walkable;
    let me = actors1[v.to_act as int]->0;
    let actors = if moved {
        actors1.update(v.to_act as int, Some(GameActor { x: x as usize, y: y as usize, ..me }))
    } else {
        actors1
    };
    UtwidView { actors, geography: geo, ..v }
}

/// Whether the player ends a step on the tile of `kind`: stairs with
/// `stairs`, else the winning tile.
pub open spec fn lands_on(v: UtwidView, stairs: bool) -> bool {
    let a = acting(v);
    let t = v.geography[cell(a.x as int, a.y as int, v.width as int)];
    a.traits.human && (if stairs { t.traits.stairs } else { !t.traits.stairs && t.traits.win })
}

/// The checkpoint after the stairs, but for the new board: the next level,
/// the player alone at the entrance, and the short circuit pushed back.
pub open spec fn after_stairs(v: UtwidView, geo: Seq<Tile>, w: usize, h: usize) -> UtwidView {
    let you = match v.actors.len() > 0 {
        true => match v.actors[0] {
            Some(a) => a,
            None => spec_you_actor(),
        },
        false => spec_you_actor(),
    };
    UtwidView {
        current_level: (v.current_level + 1) as usize,
        game_state: GameState::Checkpoint,
        geography: geo,
        width: w,
        height: h,
        actors: seq![Some(GameActor { x: 1, y: 3, traits: crate::utwid::actor::ActorTraits { dead: false, ..you.traits }, ..you })],
        turn_order: seq![0usize],
        to_act: 0,
        actor_id_counter: 1,
        short_circuit_at_turns: match (v.short_circuit_at_turns, v.short_circuit_at_turns_increment) {
            (Some(c), Some(i)) => Some((c + i) as usize),
            _ => v.short_circuit_at_turns,
        },
        ..v
    }
}

/// A new level was built for `level`: square, of the usual side, laid out
/// from drawn splits and a drawn goal cell, with floor, walls and exactly one
/// goal tile, which can be walked onto.
pub open spec fn fresh_level(geo: Seq<Tile>, w: usize, h: usize, level: nat) -> bool {
    &&& w == BOARD_SIDE
    &&& h == BOARD_SIDE
    &&& geo.len() == BOARD_SIDE * BOARD_SIDE
    &&& built_tiles(geo, level)
    &&& at_most_one_goal(geo)
    &&& one_walkable_goal(geo, level)
    &&& laid_out(geo, level)
}

/// What a step by the acting actor onto `(x, y)` leads to: the plain step,
/// the player's win, or, where `r` takes the stairs, a checkpoint on a new
/// level.
pub open spec fn step_result(v: UtwidView, x: int, y: int, r: UtwidView) -> bool {
    let s = spec_step(v, x, y);
    if lands_on(s, true) {
        &&& fresh_level(r.geography, r.width, r.height, (s.current_level + 1) as nat)
        &&& r == after_stairs(s, r.geography, r.width, r.height)
    } else if lands_on(s, false) {
        r == UtwidView { game_state: GameState::Won, ..s }
    } else {
        r == s
    }
}

pub(crate) fn hurt_all_at(actors: &mut Vec<Option<GameActor>>, x: usize, y: usize, d: isize)
    requires
        -2 * (VALUE_BOUND as int) <= d <= 0,
        forall|i: int| 0 <= i < old(actors)@.len() ==> (#[trigger] old(actors)@[i] matches Some(a) ==> (a.health matches Some(n) ==> n <= VALUE_BOUND)),
    ensures
        final(actors)@ == hurt_at(old(actors)@, x as int, y as int, d as int),
{
    let ghost start = actors@;
    let mut i: usize = 0;
    while i < actors.len()
        invariant
            i <= actors@.len(),
            actors@.len() == start.len(),
            -2 * (VALUE_BOUND as int) <= d <= 0,
            forall|j: int| 0 <= j < start.len() ==> (#[trigger] start[j] matches Some(a) ==> (a.health matches Some(n) ==> n <= VALUE_BOUND)),
            forall|j: int| 0 <= j < i ==> #[trigger] actors@[j] == hurt_at(start, x as int, y as int, d as int)[j],
            forall|j: int| i <= j < start.len() ==> #[trigger] actors@[j] == start[j],
        decreases start.len() - i,
    {
        if let Some(a) = actors[i] {
            if a.x == x && a.y == y {
                let mut b = a;
                b.modify_health(d);
                actors.set(i, Some(b));
            }
        }
        i += 1;
    }
    assert(actors@ =~= hurt_at(start, x as int, y as int, d as int));
}

pub(crate) fn someone_at(actors: &Vec<Option<GameActor>>, x: usize, y: usize) -> (r: bool)
    ensures
        r == anyone_at(actors@, x as int, y as int),
{
    let mut i: usize = 0;
    while i < actors.len()
        invariant
            i <= actors@.len(),
            forall|j: int| 0 <= j < i ==> !(#[trigger] actors@[j] matches Some(a) && a.x == x && a.y == y),
        decreases actors@.len() - i,
    {
        if let Some(a) = actors[i] {
            if a.x == x && a.y == y {
                assert(actors@[i as int] matches Some(a) && a.x == x && a.y == y);
                return true;
            }
        }
        i += 1;
    }
    false
}

impl UtwidState {
    /// The blow of the acting actor.
    fn strike(&self) -> (r: isize)
        requires
            state_wf(self@),
            live(self.actors@, self.to_act as int),
        ensures
            r == strike_damage(self@),
            -2 * (VALUE_BOUND as int) <= r <= 0,
    {
        let a = self.actors[self.to_act].unwrap();
        assert(self.actors@[self.to_act as int] matches Some(a) ==> actor_values_bounded(a, self.board.width as int, self.board.height as int));
        let att: isize = match a.attack_damage { Some(n) => n as isize, None => 0 };
        let bonus: isize = match self.temporary_damage_bonus { Some(n) => n as isize, None => 0 };
        -att - bonus
    }

    /// The step itself, without the goal tiles.
    fn step_body(&mut self, x: usize, y: usize)
        requires
            state_wf(old(self)@),
            live(old(self).actors@, old(self).to_act as int),
            x < old(self).board.width,
            y < old(self).board.height,
        ensures
            final(self)@ == spec_step(old(self)@, x as int, y as int),
            final(self).board.rng == old(self).board.rng,
            final(self).spawn_rng == old(self).spawn_rng,
    {
        let ghost v = self@;
        let d = self.strike();
        proof {
            lemma_cell_in_range(x as int, y as int, self.board.width as int, self.board.height as int);
            assert forall|i: int| 0 <= i < self.actors@.len() implies (#[trigger] self.actors@[i] matches Some(a) ==> (a.health matches Some(n) ==> n <= VALUE_BOUND)) by {
                assert(self.actors@[i] matches Some(a) ==> actor_values_bounded(a, self.board.width as int, self.board.height as int));
            }
        }
        hurt_all_at(&mut self.actors, x, y, d);
        let c = x + y * self.board.width;
        let mut t = self.board.geography[c];
        assert(t.health matches Some(n) ==> -(VALUE_BOUND as int) <= n <= VALUE_BOUND) by {
            assert(v.geography[c as int].health matches Some(n) ==> -(VALUE_BOUND as int) <= n <= VALUE_BOUND);
        }
        if t.health.is_some() {
            t.modify_health(d);
        }
        self.board.geography.set(c, t);
        let occupied = someone_at(&self.actors, x, y);
        if !occupied && self.board.geography[c].traits.walkable {
            let me = self.actors[self.to_act].unwrap();
            self.actors.set(self.to_act, Some(GameActor { x, y, ..me }));
        }
        proof {
            let s = spec_step(v, x as int, y as int);
            assert(self.board.geography@ =~= s.geography);
            assert(self.actors@ =~= s.actors);
        }
    }

    /// The player takes the stairs: the next level's board is built from a
    /// copy of this board's generator, and the player starts it alone at
    /// the entrance.
    pub fn execute_stairs(&self) -> (r: UtwidState)
        requires
            self.current_level < usize::MAX - ROOM_SPLITS_MAX,
            self.short_circuit_at_turns matches Some(c) ==> (self.short_circuit_at_turns_increment matches Some(i) ==> c + i <= usize::MAX),
        ensures
            fresh_level(r.board.geography@, r.board.width, r.board.height, (self.current_level + 1) as nat),
            r@ == after_stairs(self@, r.board.geography@, r.board.width, r.board.height),
            r.spawn_rng == self.spawn_rng,
    {
        let level = self.current_level + 1;
        let mut board_rng = copy_rng(&self.board.rng);
        let board = Board::new(level, &mut board_rng);
        let mut you = match self.actor(0) {
            Some(a) => a,
            None => GameActor::you_actor(),
        };
        you.x = 1;
        you.y = 3;
        you.traits.dead = false;
        let mut actors: Vec<Option<GameActor>> = Vec::new();
        actors.push(Some(you));
        let mut turn_order: VecDeque<usize> = VecDeque::new();
        turn_order.push_back(0);
        let short = match (self.short_circuit_at_turns, self.short_circuit_at_turns_increment) {
            (Some(c), Some(i)) => Some(c + i),
            _ => self.short_circuit_at_turns,
        };
        let r = UtwidState {
            current_level: level,
            board,
            actors,
            to_act: 0,
            game_state: GameState::Checkpoint,
            turn_order,
            turn_number: self.turn_number,
            short_circuit_at_turns: short,
            short_circuit_at_turns_increment: self.short_circuit_at_turns_increment,
            witnessed_you_actions: self.witnessed_you_actions,
            prescription_turns: self.prescription_turns,
            temporary_damage_bonus: self.temporary_damage_bonus,
            ai_turns: self.ai_turns,
            spawn_rng: copy_rng(&self.spawn_rng),
            actor_id_counter: 1,
        };
        proof {
            assert(r.actors@ =~= after_stairs(self@, r.board.geography@, r.board.width, r.board.height).actors);
            assert(r.turn_order@ =~= seq![0usize]);
        }
        r
    }

    /// The acting actor moves onto `(x, y)`; the player may reach the
    /// stairs or win there.
    pub fn move_to(&self, x: usize, y: usize) -> (r: UtwidState)
        requires
            state_wf(self@),
            live(self.actors@, self.to_act as int),
            x < self.board.width,
            y < self.board.height,
            self.current_level < usize::MAX - ROOM_SPLITS_MAX,
            self.short_circuit_at_turns matches Some(c) ==> (self.short_circuit_at_turns_increment matches Some(i) ==> c + i <= usize::MAX),
        ensures
            step_result(self@, x as int, y as int, r@),
            r.spawn_rng == self.spawn_rng,
    {
        let mut s = self.duplicate();
        s.step_body(x, y);
        proof { lemma_step_wf(self@, x as int, y as int); }
        let me = s.actors[s.to_act].unwrap();
        proof {
            assert(s.actors@[s.to_act as int] matches Some(a) ==> actor_values_bounded(a, s.board.width as int, s.board.height as int));
        }
        if me.traits.human {
            let t = s.board.get(me.x, me.y);
            if t.traits.stairs {
                return s.execute_stairs();
            } else if t.traits.win {
                s.game_state = GameState::Won;
                return s;
            }
        }
        s
    }
}

/// A step keeps the position playable.
pub proof fn lemma_step_wf(v: UtwidView, x: int, y: int)
    requires
        state_wf(v),
        live(v.actors, v.to_act as int),
        0 <= x < v.width,
        0 <= y < v.height,
    ensures
        state_wf(spec_step(v, x, y)),
        live(spec_step(v, x, y).actors, v.to_act as int),
{
    let s = spec_step(v, x, y);
    let d = strike_damage(v);
    assert(v.actors[v.to_act as int] matches Some(a) ==> actor_values_bounded(a, v.width as int, v.height as int));
    assert(-2 * (VALUE_BOUND as int) <= d <= 0);
    lemma_cell_in_range(x, y, v.width as int, v.height as int);
    assert forall|i: int| 0 <= i < s.actors.len() implies (#[trigger] s.actors[i] matches Some(a) ==> actor_values_bounded(a, s.width as int, s.height as int)) by {
        assert(v.actors[i] matches Some(a) ==> actor_values_bounded(a, v.width as int, v.height as int));
    }
    assert forall|i: int| 0 <= i < s.geography.len() implies (#[trigger] s.geography[i].health matches Some(n) ==> -(VALUE_BOUND as int) <= n <= VALUE_BOUND) by {
        assert(v.geography[i].health matches Some(n) ==> -(VALUE_BOUND as int) <= n <= VALUE_BOUND);
    }
}

} // verus!
