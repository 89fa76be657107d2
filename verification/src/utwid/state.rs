//! The state of a dungeon game and the queries on it.

use vstd::prelude::*;
use std::collections::VecDeque;
use rand::rngs::SmallRng;
use crate::utwid::types::{ActorId, GameState, MON2Y_ID};
use crate::utwid::board::{Board, Tile, copy_rng};
use crate::utwid::actor::GameActor;

verus! {

/// Player actions that the monsters have seen; no kind is tracked yet.
#[derive(Copy, Clone, PartialEq, Eq, Debug, Structural)]
pub struct WitnessedYouActions {
    pub bits: u8,
}

impl WitnessedYouActions {
    pub fn empty() -> (r: WitnessedYouActions)
        ensures
            r.bits == 0,
    {
        WitnessedYouActions { bits: 0 }
    }
}

pub struct UtwidState {
    pub current_level: usize,
    pub board: Board,
    /// Actor `i` is `actors[i]`; removed actors leave `None` behind.
    pub actors: Vec<Option<GameActor>>,
    pub to_act: ActorId,
    pub game_state: GameState,
    pub turn_order: VecDeque<ActorId>,
    pub turn_number: usize,
    pub short_circuit_at_turns: Option<usize>,
    pub short_circuit_at_turns_increment: Option<usize>,
    pub witnessed_you_actions: WitnessedYouActions,
    pub prescription_turns: Option<usize>,
    pub temporary_damage_bonus: Option<usize>,
    /// Turns the human has taken; each thousand of them shrinks the
    /// player's reward for running out the clock.
    pub ai_turns: usize,
    pub spawn_rng: SmallRng,
    pub actor_id_counter: ActorId,
}

/// A position as plain values: everything but the random generators.
pub struct UtwidView {
    pub current_level: usize,
    pub geography: Seq<Tile>,
    pub width: usize,
    pub height: usize,
    pub actors: Seq<Option<GameActor>>,
    pub to_act: ActorId,
    pub game_state: GameState,
    pub turn_order: Seq<ActorId>,
    pub turn_number: usize,
    pub short_circuit_at_turns: Option<usize>,
    pub short_circuit_at_turns_increment: Option<usize>,
    pub witnessed_you_actions: WitnessedYouActions,
    pub prescription_turns: Option<usize>,
    pub temporary_damage_bonus: Option<usize>,
    pub ai_turns: usize,
    pub actor_id_counter: ActorId,
}

impl View for UtwidState {
    type V = UtwidView;

    open spec fn view(&self) -> UtwidView {
        UtwidView {
            current_level: self.current_level,
            geography: self.board.geography@,
            width: self.board.width,
            height: self.board.height,
            actors: self.actors@,
            to_act: self.to_act,
            game_state: self.game_state,
            turn_order: self.turn_order@,
            turn_number: self.turn_number,
            short_circuit_at_turns: self.short_circuit_at_turns,
            short_circuit_at_turns_increment: self.short_circuit_at_turns_increment,
            witnessed_you_actions: self.witnessed_you_actions,
            prescription_turns: self.prescription_turns,
            temporary_damage_bonus: self.temporary_damage_bonus,
            ai_turns: self.ai_turns,
            actor_id_counter: self.actor_id_counter,
        }
    }
}

/// Whether `id` names an actor that has not been removed.
pub open spec fn live(actors: Seq<Option<GameActor>>, id: int) -> bool {
    0 <= id < actors.len() && actors[id] is Some
}

/// Whether an entry is an actor, not dead, standing on `(x, y)`.
pub open spec fn stands_at(a: Option<GameActor>, x: int, y: int) -> bool {
    a matches Some(g) && !g.traits.dead && g.x == x && g.y == y
}

/// `r` is the first actor standing on `(x, y)`, or `None` where none does.
pub open spec fn is_occupant(actors: Seq<Option<GameActor>>, x: int, y: int, r: Option<usize>) -> bool {
    match r {
        Some(i) => {
            &&& i < actors.len()
            &&& stands_at(actors[i as int], x, y)
            &&& forall|j: int| 0 <= j < i ==> !stands_at(#[trigger] actors[j], x, y)
        },
        None => forall|j: int| 0 <= j < actors.len() ==> !stands_at(#[trigger] actors[j], x, y),
    }
}

/// The number of actors not removed.
pub open spec fn live_count(actors: Seq<Option<GameActor>>) -> nat
    decreases actors.len(),
{
    if actors.len() == 0 {
        0
    } else {
        live_count(actors.drop_last()) + if actors.last() is Some { 1nat } else { 0nat }
    }
}

/// The tree number of an entry: that of its search, or zero.
pub open spec fn tree_of(a: Option<GameActor>) -> int {
    match a {
        Some(g) => match g.mon2y {
            Some(m) => m.tree_id as int,
            None => 0,
        },
        None => 0,
    }
}

/// The highest tree number among the actors, zero without any.
pub open spec fn high_tree(actors: Seq<Option<GameActor>>) -> int
    decreases actors.len(),
{
    if actors.len() == 0 {
        0
    } else {
        let rest = high_tree(actors.drop_last());
        let t = tree_of(actors.last());
        if t > rest { t } else { rest }
    }
}

/// The same position, the generators included.
pub open spec fn same_state(a: &UtwidState, b: &UtwidState) -> bool {
    &&& a@ == b@
    &&& a.board.rng == b.board.rng
    &&& a.spawn_rng == b.spawn_rng
}

pub(crate) fn copy_order(v: &VecDeque<ActorId>) -> (r: VecDeque<ActorId>)
    ensures
        r@ == v@,
{
    let mut r: VecDeque<ActorId> = VecDeque::new();
    let mut i: usize = 0;
    while i < v.len()
        invariant
            i <= v@.len(),
            r@ == v@.take(i as int),
        decreases v@.len() - i,
    {
        r.push_back(v[i]);
        i += 1;
        assert(r@ =~= v@.take(i as int));
    }
    assert(v@.take(i as int) =~= v@);
    r
}

pub(crate) fn copy_actors(v: &Vec<Option<GameActor>>) -> (r: Vec<Option<GameActor>>)
    ensures
        r@ == v@,
{
    let mut r: Vec<Option<GameActor>> = Vec::new();
    let mut i: usize = 0;
    while i < v.len()
        invariant
            i <= v@.len(),
            r@ == v@.take(i as int),
        decreases v@.len() - i,
    {
        r.push(v[i]);
        i += 1;
        assert(r@ =~= v@.take(i as int));
    }
    assert(v@.take(i as int) =~= v@);
    r
}

impl Board {
    pub fn duplicate(&self) -> (r: Board)
        ensures
            r.geography@ == self.geography@,
            r.width == self.width,
            r.height == self.height,
            r.rng == self.rng,
    {
        let mut geography = Vec::new();
        let mut i: usize = 0;
        while i < self.geography.len()
            invariant
                i <= self.geography@.len(),
                geography@ == self.geography@.take(i as int),
            decreases self.geography@.len() - i,
        {
            geography.push(self.geography[i]);
            i += 1;
            assert(geography@ =~= self.geography@.take(i as int));
        }
        assert(self.geography@.take(i as int) =~= self.geography@);
        Board { geography, width: self.width, height: self.height, rng: copy_rng(&self.rng) }
    }
}

impl Clone for UtwidState {
    fn clone(&self) -> (r: UtwidState)
        ensures
            same_state(&r, self),
    {
        self.duplicate()
    }
}

impl UtwidState {
    pub fn duplicate(&self) -> (r: UtwidState)
        ensures
            same_state(&r, self),
    {
        UtwidState {
            current_level: self.current_level,
            board: self.board.duplicate(),
            actors: copy_actors(&self.actors),
            to_act: self.to_act,
            game_state: self.game_state,
            turn_order: copy_order(&self.turn_order),
            turn_number: self.turn_number,
            short_circuit_at_turns: self.short_circuit_at_turns,
            short_circuit_at_turns_increment: self.short_circuit_at_turns_increment,
            witnessed_you_actions: self.witnessed_you_actions,
            prescription_turns: self.prescription_turns,
            temporary_damage_bonus: self.temporary_damage_bonus,
            ai_turns: self.ai_turns,
            spawn_rng: copy_rng(&self.spawn_rng),
            actor_id_counter: self.actor_id_counter,
        }
    }

    pub open spec fn live(&self, id: int) -> bool {
        live(self.actors@, id)
    }

    pub fn actor(&self, actor_id: ActorId) -> (r: Option<GameActor>)
        ensures
            r == (if self.live(actor_id as int) { self.actors@[actor_id as int] } else { None }),
    {
        if actor_id < self.actors.len() {
            self.actors[actor_id]
        } else {
            None
        }
    }

    pub fn has_actor(&self, actor_id: ActorId) -> (r: bool)
        ensures
            r == self.live(actor_id as int),
    {
        actor_id < self.actors.len() && self.actors[actor_id].is_some()
    }

    /// Takes actor `actor_id` out, leaving `None` in its place.
    pub fn remove_actor(&mut self, actor_id: ActorId) -> (r: Option<GameActor>)
        ensures
            r == (if old(self).live(actor_id as int) { old(self).actors@[actor_id as int] } else { None }),
            final(self).actors@ == (if actor_id < old(self).actors@.len() {
                old(self).actors@.update(actor_id as int, None)
            } else {
                old(self).actors@
            }),
            final(self).board == old(self).board,
            final(self).turn_order == old(self).turn_order,
            final(self).to_act == old(self).to_act,
            final(self).game_state == old(self).game_state,
            final(self).current_level == old(self).current_level,
            final(self).turn_number == old(self).turn_number,
            final(self).short_circuit_at_turns == old(self).short_circuit_at_turns,
            final(self).short_circuit_at_turns_increment == old(self).short_circuit_at_turns_increment,
            final(self).witnessed_you_actions == old(self).witnessed_you_actions,
            final(self).prescription_turns == old(self).prescription_turns,
            final(self).temporary_damage_bonus == old(self).temporary_damage_bonus,
            final(self).ai_turns == old(self).ai_turns,
            final(self).spawn_rng == old(self).spawn_rng,
            final(self).actor_id_counter == old(self).actor_id_counter,
    {
        if actor_id < self.actors.len() {
            let a = self.actors[actor_id];
            self.actors.set(actor_id, None);
            a
        } else {
            None
        }
    }

    /// Adds an actor at the end of the list and of the turn order, under
    /// the next number of the counter.
    pub fn add_actor(&mut self, actor: GameActor) -> (r: ActorId)
        requires
            old(self).actor_id_counter < usize::MAX,
            old(self).actors@.len() < usize::MAX,
        ensures
            r == old(self).actor_id_counter,
            final(self).actors@ == old(self).actors@.push(Some(actor)),
            final(self).actor_id_counter == old(self).actor_id_counter + 1,
            final(self).turn_order@ == old(self).turn_order@.push(r),
            final(self).board == old(self).board,
            final(self).to_act == old(self).to_act,
            final(self).game_state == old(self).game_state,
            final(self).current_level == old(self).current_level,
            final(self).turn_number == old(self).turn_number,
            final(self).short_circuit_at_turns == old(self).short_circuit_at_turns,
            final(self).short_circuit_at_turns_increment == old(self).short_circuit_at_turns_increment,
            final(self).witnessed_you_actions == old(self).witnessed_you_actions,
            final(self).prescription_turns == old(self).prescription_turns,
            final(self).temporary_damage_bonus == old(self).temporary_damage_bonus,
            final(self).ai_turns == old(self).ai_turns,
            final(self).spawn_rng == old(self).spawn_rng,
    {
        let id = self.actor_id_counter;
        self.actors.push(Some(actor));
        self.actor_id_counter = self.actor_id_counter + 1;
        self.turn_order.push_back(id);
        id
    }

    pub fn actor_count(&self) -> (r: usize)
        ensures
            r == live_count(self.actors@),
    {
        let mut n: usize = 0;
        let mut i: usize = 0;
        while i < self.actors.len()
            invariant
                i <= self.actors@.len(),
                n == live_count(self.actors@.take(i as int)),
                n <= i,
            decreases self.actors@.len() - i,
        {
            assert(self.actors@.take(i + 1).drop_last() =~= self.actors@.take(i as int));
            if self.actors[i].is_some() {
                n = n + 1;
            }
            i += 1;
        }
        assert(self.actors@.take(i as int) =~= self.actors@);
        n
    }

    /// The highest search tree number among the actors.
    pub fn mon2y_high_actor_id(&self) -> (r: u8)
        ensures
            r == high_tree(self.actors@),
    {
        let mut best: u8 = 0;
        let mut i: usize = 0;
        while i < self.actors.len()
            invariant
                i <= self.actors@.len(),
                best == high_tree(self.actors@.take(i as int)),
            decreases self.actors@.len() - i,
        {
            assert(self.actors@.take(i + 1).drop_last() =~= self.actors@.take(i as int));
            let t: u8 = match self.actors[i] {
                Some(g) => match g.mon2y {
                    Some(m) => m.tree_id,
                    None => 0,
                },
                None => 0,
            };
            if t > best {
                best = t;
            }
            i += 1;
        }
        assert(self.actors@.take(i as int) =~= self.actors@);
        best
    }

    /// How many players a reward vector has: one past the highest tree, and
    /// at least the player and the dungeon.
    pub fn reward_actor_count(&self) -> (r: usize)
        ensures
            r == (if high_tree(self.actors@) > MON2Y_ID { high_tree(self.actors@) } else { MON2Y_ID as int }) + 1,
    {
        let high = self.mon2y_high_actor_id() as usize;
        if high > MON2Y_ID { high + 1 } else { MON2Y_ID + 1 }
    }

    /// The first actor, not dead, that stands on `(x, y)`.
    pub fn actor_id_in_space(&self, x: usize, y: usize) -> (r: Option<ActorId>)
        ensures
            is_occupant(self.actors@, x as int, y as int, r),
    {
        let mut i: usize = 0;
        while i < self.actors.len()
            invariant
                i <= self.actors@.len(),
                forall|j: int| 0 <= j < i ==> !stands_at(#[trigger] self.actors@[j], x as int, y as int),
            decreases self.actors@.len() - i,
        {
            if let Some(g) = self.actors[i] {
                if !g.traits.dead && g.x == x && g.y == y {
                    return Some(i);
                }
            }
            i += 1;
        }
        None
    }

    /// The first actor, not dead, that stands on `(x, y)`.
    pub fn actor_in_space(&self, x: usize, y: usize) -> (r: Option<GameActor>)
        ensures
            exists|o: Option<usize>| #[trigger] is_occupant(self.actors@, x as int, y as int, o) && match o {
                Some(i) => r == self.actors@[i as int],
                None => r is None,
            },
    {
        let o = self.actor_id_in_space(x, y);
        match o {
            Some(i) => self.actors[i],
            None => None,
        }
    }
}

} // verus!
