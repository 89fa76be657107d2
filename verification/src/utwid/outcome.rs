//! Starting a game and scoring it.

use vstd::prelude::*;
use std::collections::VecDeque;
use crate::utwid::types::{GameState, YOU_ID, MON2Y_ID, PLAYER_MAX_HEALTH};
use crate::utwid::board::{Board, Tile, fresh_rng};
use crate::utwid::actor::{GameActor, spec_you_actor};
use crate::utwid::state::{UtwidState, UtwidView, WitnessedYouActions, live, high_tree};
use crate::utwid::moves::{state_wf, fresh_level, actor_values_bounded, VALUE_BOUND};

verus! {

/// A new game on the board `geo`: the player alone at the entrance of the
/// first level, and nothing counted yet.
pub open spec fn spec_new_game(geo: Seq<Tile>) -> UtwidView {
    UtwidView {
        current_level: 0,
        geography: geo,
        width: crate::utwid::types::BOARD_SIDE,
        height: crate::utwid::types::BOARD_SIDE,
        actors: seq![Some(spec_you_actor())],
        to_act: 0,
        game_state: GameState::Ongoing,
        turn_order: seq![0usize],
        turn_number: 0,
        short_circuit_at_turns: None,
        short_circuit_at_turns_increment: None,
        witnessed_you_actions: WitnessedYouActions { bits: 0 },
        prescription_turns: None,
        temporary_damage_bonus: None,
        ai_turns: 0,
        actor_id_counter: 1,
    }
}

/// The health of the player, none counting as zero.
pub open spec fn player_health(v: UtwidView) -> int {
    if live(v.actors, YOU_ID as int) {
        match v.actors[YOU_ID as int]->0.health {
            Some(h) => h as int,
            None => 0,
        }
    } else {
        0
    }
}

/// Whether some actor is played by search tree `t`.
pub open spec fn has_tree(actors: Seq<Option<GameActor>>, t: int) -> bool {
    exists|j: int| 0 <= j < actors.len() && (#[trigger] actors[j] matches Some(a) && (a.mon2y matches Some(m) && m.tree_id == t))
}

/// The number of players a reward covers.
pub open spec fn reward_len(v: UtwidView) -> int {
    (if high_tree(v.actors) > MON2Y_ID { high_tree(v.actors) } else { MON2Y_ID as int }) + 1
}

/// The reward of player `i` as a fraction, numerator and denominator: at a
/// checkpoint the player's share of full health, to the dungeon its loss;
/// when the short circuit ends the game, half a point lost by every search
/// tree and to the player a share that grows with the level and shrinks
/// with every thousand turns; one point either way for a win or a loss.
pub open spec fn reward_entry(v: UtwidView, i: int) -> (int, int) {
    match v.game_state {
        GameState::Checkpoint => if i == YOU_ID {
            (player_health(v), PLAYER_MAX_HEALTH as int)
        } else if i == MON2Y_ID {
            (-player_health(v), PLAYER_MAX_HEALTH as int)
        } else {
            (0, 1)
        },
        GameState::Mon2yShortcircuit => if i == YOU_ID {
            ((10 + v.current_level) * (1000 - v.ai_turns), 20000)
        } else if has_tree(v.actors, i) {
            (-1, 2)
        } else {
            (0, 1)
        },
        GameState::Lost => if i == YOU_ID { (-1, 1) } else if i == MON2Y_ID { (1, 1) } else { (0, 1) },
        GameState::Won => if i == YOU_ID { (1, 1) } else if i == MON2Y_ID { (-1, 1) } else { (0, 1) },
        GameState::Ongoing => (0, 1),
    }
}

impl UtwidState {
    /// A new game, on a first level built from a generator that the
    /// operating system seeds.
    pub fn new() -> (r: UtwidState)
        ensures
            fresh_level(r.board.geography@, r.board.width, r.board.height, 0),
            r@ == spec_new_game(r.board.geography@),
            state_wf(r@),
    {
        let mut board_rng = fresh_rng();
        let spawn_rng = fresh_rng();
        let board = Board::new(0, &mut board_rng);
        let mut actors: Vec<Option<GameActor>> = Vec::new();
        actors.push(Some(GameActor::you_actor()));
        let mut turn_order: VecDeque<usize> = VecDeque::new();
        turn_order.push_back(0);
        let r = UtwidState {
            current_level: 0,
            board,
            actors,
            to_act: 0,
            game_state: GameState::Ongoing,
            turn_order,
            turn_number: 0,
            short_circuit_at_turns: None,
            short_circuit_at_turns_increment: None,
            witnessed_you_actions: WitnessedYouActions::empty(),
            prescription_turns: None,
            temporary_damage_bonus: None,
            ai_turns: 0,
            spawn_rng,
            actor_id_counter: 1,
        };
        proof {
            assert(r.actors@ =~= seq![Some(spec_you_actor())]);
            assert(r.turn_order@ =~= seq![0usize]);
            assert(r.actors@[0] matches Some(a) ==> actor_values_bounded(a, r@.width as int, r@.height as int));
            assert forall|i: int| 0 <= i < r@.geography.len() implies (#[trigger] r@.geography[i].health matches Some(n) ==> -(VALUE_BOUND as int) <= n <= VALUE_BOUND) by {
                let t = r@.geography[i];
                assert(t == crate::utwid::board::floor_tile() || t == crate::utwid::board::wall_tile() || t == crate::utwid::rooms::goal_tile(0));
            }
        }
        r
    }

    /// The health of the player.
    pub fn player_health(&self) -> (r: usize)
        ensures
            r == player_health(self@),
    {
        match self.actor(YOU_ID) {
            Some(a) => match a.health {
                Some(h) => h,
                None => 0,
            },
            None => 0,
        }
    }

    /// The reward of each player as a fraction, numerator and denominator.
    /// The bounds on the level and the count of the search's turns are
    /// overflow guards for the 64-bit numerators.
    pub fn reward_parts(&self) -> (r: Vec<(i64, i64)>)
        requires
            state_wf(self@),
            self.current_level <= 1000000,
            self.ai_turns <= 1000000000,
        ensures
            r@.len() == reward_len(self@),
            forall|i: int| 0 <= i < r@.len() ==> (#[trigger] r@[i]).0 == reward_entry(self@, i).0 && r@[i].1 == reward_entry(self@, i).1,
    {
        let ghost v = self@;
        let n = self.reward_actor_count();
        let mut r: Vec<(i64, i64)> = Vec::new();
        let mut i: usize = 0;
        while i < n
            invariant
                i <= n,
                r@.len() == i,
                forall|j: int| 0 <= j < i ==> #[trigger] r@[j] == (0i64, 1i64),
            decreases n - i,
        {
            r.push((0, 1));
            i += 1;
        }
        let h = self.player_health();
        assert(h <= VALUE_BOUND) by {
            if live(v.actors, YOU_ID as int) {
                assert(v.actors[YOU_ID as int] matches Some(a) ==> actor_values_bounded(a, v.width as int, v.height as int));
            }
        }
        match self.game_state {
            GameState::Checkpoint => {
                r.set(YOU_ID, (h as i64, PLAYER_MAX_HEALTH as i64));
                r.set(MON2Y_ID, (-(h as i64), PLAYER_MAX_HEALTH as i64));
            },
            GameState::Mon2yShortcircuit => {
                let mut k: usize = 0;
                while k < self.actors.len()
                    invariant
                        v == self@,
                        k <= v.actors.len(),
                        r@.len() == n,
                        n == reward_len(v),
                        forall|j: int| 0 <= j < n ==> #[trigger] r@[j] == (if exists|q: int| 0 <= q < k && (#[trigger] v.actors[q] matches Some(a) && (a.mon2y matches Some(m) && m.tree_id == j)) {
                            (-1i64, 2i64)
                        } else {
                            (0i64, 1i64)
                        }),
                    decreases v.actors.len() - k,
                {
                    if let Some(a) = self.actors[k] {
                        if let Some(m) = a.mon2y {
                            proof { lemma_tree_below(v.actors, k as int); }
                            r.set(m.tree_id as usize, (-1, 2));
                        }
                    }
                    k += 1;
                }
                let lv = 10 + self.current_level as i64;
                let left = 1000 - self.ai_turns as i64;
                assert(-2000000000000000 <= lv * left <= 2000000000000000) by (nonlinear_arith)
                    requires 10 <= lv <= 1000010, -1000000000 <= left <= 1000;
                let you = lv * left;
                r.set(YOU_ID, (you, 20000));
                proof {
                    assert forall|j: int| 0 <= j < n && j != YOU_ID implies #[trigger] has_tree(v.actors, j) == (exists|q: int| 0 <= q < k && (#[trigger] v.actors[q] matches Some(a) && (a.mon2y matches Some(m) && m.tree_id == j))) by {}
                }
            },
            GameState::Lost => {
                r.set(YOU_ID, (-1, 1));
                r.set(MON2Y_ID, (1, 1));
            },
            GameState::Won => {
                r.set(YOU_ID, (1, 1));
                r.set(MON2Y_ID, (-1, 1));
            },
            GameState::Ongoing => {},
        }
        r
    }
}

impl UtwidState {
    /// Play goes on after a checkpoint or a game cut short for the search,
    /// and the search's clock starts again.
    pub fn resume(&mut self)
        ensures
            final(self)@ == (UtwidView {
                game_state: match old(self).game_state {
                    GameState::Checkpoint | GameState::Mon2yShortcircuit => GameState::Ongoing,
                    g => g,
                },
                ai_turns: 0,
                ..old(self)@
            }),
            final(self).board.rng == old(self).board.rng,
            final(self).spawn_rng == old(self).spawn_rng,
    {
        match self.game_state {
            GameState::Checkpoint | GameState::Mon2yShortcircuit => {
                self.game_state = GameState::Ongoing;
            },
            _ => {},
        }
        self.ai_turns = 0;
    }

    /// The position as a search explores it: cut short after `turns` more
    /// turns of the player, the limit pushed back by `increment` at every
    /// stairs, and the search's clock at zero.
    pub fn marked_for_search(&self, turns: usize, increment: usize) -> (r: UtwidState)
        ensures
            r@ == (UtwidView {
                short_circuit_at_turns: Some(turns),
                short_circuit_at_turns_increment: Some(increment),
                ai_turns: 0,
                ..self@
            }),
    {
        let mut r = self.duplicate();
        r.short_circuit_at_turns = Some(turns);
        r.short_circuit_at_turns_increment = Some(increment);
        r.ai_turns = 0;
        r
    }
}

/// Every search tree number lies below the length of a reward.
proof fn lemma_tree_below(actors: Seq<Option<GameActor>>, k: int)
    requires
        0 <= k < actors.len(),
        actors[k] matches Some(a) && a.mon2y is Some,
    ensures
        actors[k]->0.mon2y->0.tree_id <= high_tree(actors),
    decreases actors.len(),
{
    if k < actors.len() - 1 {
        lemma_tree_below(actors.drop_last(), k);
        assert(actors.drop_last()[k] == actors[k]);
    }
}

/// The dungeon crawler, as a game to play.
pub struct Utwid;

impl Utwid {
    pub fn init_game(&self) -> (r: UtwidState)
        ensures
            fresh_level(r.board.geography@, r.board.width, r.board.height, 0),
            r@ == spec_new_game(r.board.geography@),
            state_wf(r@),
    {
        UtwidState::new()
    }
}

} // verus!
