//! A whole turn: the action's effect, its cost in health, the player's
//! turn count with its new monsters and its clocks, the dead taken off the
//! board, and the turn passed on.

use vstd::prelude::*;
use crate::utwid::types::{
    UtwidAction, GameState, ActorId, dir_dx, dir_dy, apply_dir, is_cardinal, action_cost, spec_action_cost,
    PRESCRIPTION_TURNS, ROOM_SPLITS_MAX, ACTOR_TYPE_ARE, ACTOR_TYPE_THEM, ACTOR_TYPE_ONE,
};
use crate::utwid::board::{wall_tile, damaged_tile};
use crate::utwid::actor::{GameActor, hurt_actor};
use crate::utwid::state::{UtwidState, UtwidView, live, stands_at};
use crate::utwid::moves::{state_wf, actor_values_bounded, acting, step_result, VALUE_BOUND};
use crate::utwid::conclusion::{view_on_board, conclusion_result, lemma_step_result_wf};
use crate::utwid::blast::spec_explode;
use crate::utwid::stagnation::spec_stagnation;
use crate::utwid::contention::{spec_contention, rotation};
use crate::utwid::turns::{normalized, free_cell};
use crate::utwid::spawn::{spawn_kinds, after_spawns, spawns_ok, free_cells, after_taking, with_spawn};

verus! {

/// Whether `action` can be carried out by the actor to act: the game has
/// rules for it, and the cell it works on lies on the board.
pub open spec fn action_ready(v: UtwidView, action: UtwidAction) -> bool {
    let a = acting(v);
    match action {
        UtwidAction::Move(d) => view_on_board(v, a.x + dir_dx(d), a.y + dir_dy(d)),
        UtwidAction::Wait => true,
        UtwidAction::Explode => true,
        UtwidAction::Prescription => true,
        UtwidAction::Conclusion(d) => view_on_board(v, a.x + dir_dx(d), a.y + dir_dy(d)),
        UtwidAction::Stagnation(d) => is_cardinal(d) && view_on_board(v, a.x + dir_dx(d), a.y + dir_dy(d)),
        UtwidAction::Contention(d) => rotation(v, d) >= 0,
        _ => false,
    }
}

/// Whether `mid` is what the action itself makes of `v`, before its cost
/// and the passing of the turn.
pub open spec fn effect_result(v: UtwidView, action: UtwidAction, mid: UtwidView) -> bool {
    let a = acting(v);
    match action {
        UtwidAction::Move(d) => step_result(v, a.x + dir_dx(d), a.y + dir_dy(d), mid),
        UtwidAction::Wait => mid == v,
        UtwidAction::Explode => mid == spec_explode(v),
        UtwidAction::Prescription => mid == (UtwidView { prescription_turns: Some(PRESCRIPTION_TURNS), ..v }),
        UtwidAction::Conclusion(d) => conclusion_result(v, d, mid),
        UtwidAction::Stagnation(d) => mid == spec_stagnation(v, d),
        UtwidAction::Contention(d) => mid == spec_contention(v, d),
        _ => false,
    }
}

/// The acting actor pays the action's cost in health.
pub open spec fn with_cost(mid: UtwidView, id: ActorId, cost: nat) -> UtwidView {
    UtwidView { actors: mid.actors.update(id as int, Some(hurt_actor(mid.actors[id as int]->0, -cost))), ..mid }
}

/// The player's turn is counted: within a run of turns the run shortens,
/// else the turn number goes up and its monsters appear on `cells`; the
/// clock of the search advances, and the short circuit counts down,
/// ending the game when it runs out.
pub open spec fn human_turn(s: UtwidView, cells: Seq<(usize, usize)>) -> UtwidView {
    let s1 = match s.prescription_turns {
        Some(p) => UtwidView { prescription_turns: if p > 0 { Some((p - 1) as usize) } else { None }, ..s },
        None => {
            let t = UtwidView { turn_number: (s.turn_number + 1) as usize, ..s };
            after_spawns(t, spawn_kinds(t.turn_number as int), cells)
        },
    };
    let s2 = UtwidView { ai_turns: (s1.ai_turns + 1) as usize, ..s1 };
    match s2.short_circuit_at_turns {
        Some(r) => UtwidView {
            short_circuit_at_turns: Some((r - 1) as usize),
            game_state: if r == 1 { GameState::Mon2yShortcircuit } else { s2.game_state },
            ..s2
        },
        None => s2,
    }
}

pub open spec fn is_dead(actors: Seq<Option<GameActor>>, i: int) -> bool {
    live(actors, i) && actors[i]->0.traits.dead
}

/// The actors with the dead taken off.
pub open spec fn without_dead(actors: Seq<Option<GameActor>>) -> Seq<Option<GameActor>> {
    Seq::new(actors.len(), |i: int| if is_dead(actors, i) { None } else { actors[i] })
}

pub open spec fn human_died(actors: Seq<Option<GameActor>>) -> bool {
    exists|i: int| #[trigger] is_dead(actors, i) && actors[i]->0.traits.human
}

/// The first place of `x` in `s`.
pub open spec fn first_index(s: Seq<ActorId>, x: ActorId) -> Option<int>
    decreases s.len(),
{
    if s.len() == 0 {
        None
    } else {
        match first_index(s.drop_last(), x) {
            Some(i) => Some(i),
            None => if s.last() == x { Some(s.len() - 1) } else { None },
        }
    }
}

/// The actor that acted goes to the back of the order, and the first in
/// the order acts next.
pub open spec fn rotated(s: UtwidView, acted: ActorId) -> UtwidView {
    let order = match first_index(s.turn_order, acted) {
        Some(k) => {
            let o = s.turn_order.remove(k);
            if live(s.actors, acted as int) { o.push(acted) } else { o }
        },
        None => s.turn_order,
    };
    if order.len() == 0 {
        UtwidView { turn_order: order, game_state: GameState::Lost, ..s }
    } else {
        UtwidView { turn_order: order, to_act: order[0], ..s }
    }
}

/// The end of a turn: the dead leave the board, the game is lost if the
/// player died or nobody is left, and unless the game is over or the
/// player is in a run of turns, the turn passes on.
pub open spec fn cleanup(s: UtwidView, acted: ActorId) -> UtwidView {
    let s1 = UtwidView {
        actors: without_dead(s.actors),
        game_state: if human_died(s.actors) { GameState::Lost } else { s.game_state },
        ..s
    };
    let s2 = normalized(s1);
    if s2.game_state is Won || s2.game_state is Lost {
        s2
    } else if s2.turn_order.len() == 0 {
        UtwidView { game_state: GameState::Lost, ..s2 }
    } else if s2.prescription_turns is Some {
        s2
    } else {
        rotated(s2, acted)
    }
}

/// The turn after the effect `mid` of `action` on `v`, with new monsters,
/// if any, on `cells`.
pub open spec fn finish(v: UtwidView, action: UtwidAction, mid: UtwidView, cells: Seq<(usize, usize)>) -> UtwidView {
    let s0 = with_cost(mid, v.to_act, spec_action_cost(action));
    let s1 = if acting(v).traits.human { human_turn(s0, cells) } else { s0 };
    let s2 = if v.game_state is Checkpoint && s1.game_state is Checkpoint {
        UtwidView { game_state: GameState::Ongoing, ..s1 }
    } else {
        s1
    };
    cleanup(s2, v.to_act)
}

/// Whether `cells` are where the turn's monsters may appear: free cells,
/// one per monster due, or none where no monster is due.
pub open spec fn cells_ok(v: UtwidView, action: UtwidAction, mid: UtwidView, cells: Seq<(usize, usize)>) -> bool {
    let s0 = with_cost(mid, v.to_act, spec_action_cost(action));
    if acting(v).traits.human && s0.prescription_turns is None {
        let t = UtwidView { turn_number: (s0.turn_number + 1) as usize, ..s0 };
        spawns_ok(t, spawn_kinds(t.turn_number as int), cells)
    } else {
        cells.len() == 0
    }
}

/// Whether a turn whose effect was `mid` can be completed: the actor who
/// acted is still there to pay, the short circuit has not already run out,
/// and there is a free cell for every monster due.
pub open spec fn turn_can_finish(v: UtwidView, mid: UtwidView) -> bool {
    &&& live(mid.actors, v.to_act as int)
    &&& (acting(v).traits.human ==> (mid.short_circuit_at_turns matches Some(r) ==> r >= 1))
    &&& (acting(v).traits.human && mid.prescription_turns is None ==> exists|c: Seq<(int, int)>|
            c.len() == spawn_kinds(mid.turn_number + 1).len() && #[trigger] free_cells(mid, c))
}

/// The counters and levels stay clear of the integer limits for a turn.
pub open spec fn turn_in_range(s: &UtwidState) -> bool {
    &&& s.current_level + 1 < usize::MAX - ROOM_SPLITS_MAX
    &&& (s.short_circuit_at_turns matches Some(c) ==> (s.short_circuit_at_turns_increment matches Some(i) ==> c + 2 * i <= usize::MAX))
    &&& s.actor_id_counter + 3 <= usize::MAX
    &&& s.actors@.len() + 3 <= usize::MAX
    &&& s.turn_number + 1 <= usize::MAX
    &&& s.ai_turns + 1 <= usize::MAX
}

proof fn lemma_explode_wf(v: UtwidView)
    requires
        state_wf(v),
        live(v.actors, v.to_act as int),
    ensures
        state_wf(spec_explode(v)),
{
    let e = spec_explode(v);
    assert(v.actors[v.to_act as int] matches Some(b) ==> actor_values_bounded(b, v.width as int, v.height as int));
    assert forall|i: int| 0 <= i < e.actors.len() implies (#[trigger] e.actors[i] matches Some(b) ==> actor_values_bounded(b, e.width as int, e.height as int)) by {
        assert(v.actors[i] matches Some(b) ==> actor_values_bounded(b, v.width as int, v.height as int));
    }
    assert forall|i: int| 0 <= i < e.geography.len() implies (#[trigger] e.geography[i].health matches Some(n) ==> -(VALUE_BOUND as int) <= n <= VALUE_BOUND) by {
        assert(v.geography[i].health matches Some(n) ==> -(VALUE_BOUND as int) <= n <= VALUE_BOUND);
    }
}

proof fn lemma_stagnation_wf(v: UtwidView, d: crate::utwid::types::Dir)
    requires
        state_wf(v),
    ensures
        state_wf(spec_stagnation(v, d)),
{
    let e = spec_stagnation(v, d);
    assert forall|i: int| 0 <= i < e.geography.len() implies (#[trigger] e.geography[i].health matches Some(n) ==> -(VALUE_BOUND as int) <= n <= VALUE_BOUND) by {
        assert(v.geography[i].health matches Some(n) ==> -(VALUE_BOUND as int) <= n <= VALUE_BOUND);
    }
}

proof fn lemma_contention_wf(v: UtwidView, d: crate::utwid::types::Dir)
    requires
        state_wf(v),
        live(v.actors, v.to_act as int),
        rotation(v, d) >= 0,
    ensures
        state_wf(spec_contention(v, d)),
{
    let a = acting(v);
    assert(v.actors[v.to_act as int] matches Some(b) ==> actor_values_bounded(b, v.width as int, v.height as int));
    let e = spec_contention(v, d);
    let w = v.width as int;
    let n = w * v.height;
    let rot = rotation(v, d);
    let p = (a.x + a.y * w + rot) % n;
    crate::utwid::board::lemma_cell_in_range(0, 0, w, v.height as int);
    vstd::arithmetic::div_mod::lemma_mod_bound(a.x + a.y * w + rot, n);
    vstd::arithmetic::div_mod::lemma_mod_bound(p, w);
    vstd::arithmetic::div_mod::lemma_fundamental_div_mod(p, w);
    assert(p / w < v.height) by (nonlinear_arith)
        requires 0 <= p < n, n == w * v.height, p == w * (p / w) + p % w, 0 <= p % w < w, w > 0;
    assert(p / w >= 0) by (nonlinear_arith)
        requires 0 <= p, w > 0;
    assert forall|i: int| 0 <= i < e.actors.len() implies (#[trigger] e.actors[i] matches Some(b) ==> actor_values_bounded(b, e.width as int, e.height as int)) by {
        assert(v.actors[i] matches Some(b) ==> actor_values_bounded(b, v.width as int, v.height as int));
    }
    assert forall|i: int| 0 <= i < e.geography.len() implies (#[trigger] e.geography[i].health matches Some(m) ==> -(VALUE_BOUND as int) <= m <= VALUE_BOUND) by {
        vstd::arithmetic::div_mod::lemma_mod_bound(i + rot, n);
        assert(v.geography[(i + rot) % n].health matches Some(m) ==> -(VALUE_BOUND as int) <= m <= VALUE_BOUND);
    }
}

proof fn lemma_conclusion_wf(v: UtwidView, d: crate::utwid::types::Dir, mid: UtwidView)
    requires
        state_wf(v),
        live(v.actors, v.to_act as int),
        view_on_board(v, acting(v).x + dir_dx(d), acting(v).y + dir_dy(d)),
        conclusion_result(v, d, mid),
        v.short_circuit_at_turns matches Some(c) ==> (v.short_circuit_at_turns_increment matches Some(i) ==> c + 2 * i <= usize::MAX),
    ensures
        state_wf(mid),
        mid.turn_number == v.turn_number,
        mid.ai_turns == v.ai_turns,
        mid.actor_id_counter == v.actor_id_counter || mid.actor_id_counter == 1,
        mid.actors.len() == v.actors.len() || mid.actors.len() == 1,
{
    let a = acting(v);
    let (lx, ly, b) = crate::utwid::conclusion::jump(v, d);
    crate::utwid::conclusion::lemma_slide(v, d, a.x + dir_dx(d), a.y + dir_dy(d), a.x + dir_dx(d), a.y + dir_dy(d), 0);
    let s1 = choose|s1: UtwidView| #[trigger] step_result(v, lx, ly, s1) && {
        let s2 = UtwidView { temporary_damage_bonus: Some(b as usize), ..s1 };
        if crate::utwid::conclusion::view_step_ok(s2, lx, ly, d, true) {
            step_result(s2, lx + dir_dx(d), ly + dir_dy(d), mid)
        } else {
            mid == s2
        }
    };
    lemma_step_result_wf(v, lx, ly, s1);
    lemma_step_counters(v, lx, ly, s1);
    let s2 = UtwidView { temporary_damage_bonus: Some(b as usize), ..s1 };
    assert(state_wf(s2)) by {
        assert forall|i: int| 0 <= i < s2.actors.len() implies (#[trigger] s2.actors[i] matches Some(g) ==> actor_values_bounded(g, s2.width as int, s2.height as int)) by {
            assert(s1.actors[i] matches Some(g) ==> actor_values_bounded(g, s1.width as int, s1.height as int));
        }
        assert forall|i: int| 0 <= i < s2.geography.len() implies (#[trigger] s2.geography[i].health matches Some(m) ==> -(VALUE_BOUND as int) <= m <= VALUE_BOUND) by {
            assert(s1.geography[i].health matches Some(m) ==> -(VALUE_BOUND as int) <= m <= VALUE_BOUND);
        }
    }
    if crate::utwid::conclusion::view_step_ok(s2, lx, ly, d, true) {
        lemma_step_result_wf(s2, lx + dir_dx(d), ly + dir_dy(d), mid);
        lemma_step_counters(s2, lx + dir_dx(d), ly + dir_dy(d), mid);
    }
}

/// A step changes none of the counters but by taking the stairs.
proof fn lemma_step_counters(v: UtwidView, x: int, y: int, r: UtwidView)
    requires
        step_result(v, x, y, r),
        live(v.actors, v.to_act as int),
    ensures
        r.turn_number == v.turn_number,
        r.ai_turns == v.ai_turns,
        r.actor_id_counter == v.actor_id_counter || r.actor_id_counter == 1,
        r.actors.len() == v.actors.len() || r.actors.len() == 1,
{
    let s = crate::utwid::moves::spec_step(v, x, y);
    let h = crate::utwid::moves::hurt_at(v.actors, x, y, crate::utwid::moves::strike_damage(v));
    assert(h.len() == v.actors.len());
    assert(s.actors.len() == v.actors.len());
}

/// The effect of an action keeps the position playable, and changes none
/// of the counters but by taking the stairs.
pub proof fn lemma_effect_wf(v: UtwidView, action: UtwidAction, mid: UtwidView)
    requires
        state_wf(v),
        live(v.actors, v.to_act as int),
        action_ready(v, action),
        effect_result(v, action, mid),
        v.short_circuit_at_turns matches Some(c) ==> (v.short_circuit_at_turns_increment matches Some(i) ==> c + 2 * i <= usize::MAX),
    ensures
        state_wf(mid),
        mid.turn_number == v.turn_number,
        mid.ai_turns == v.ai_turns,
        mid.actor_id_counter == v.actor_id_counter || mid.actor_id_counter == 1,
        mid.actors.len() == v.actors.len() || mid.actors.len() == 1,
{
    let a = acting(v);
    match action {
        UtwidAction::Move(d) => {
            lemma_step_result_wf(v, a.x + dir_dx(d), a.y + dir_dy(d), mid);
            lemma_step_counters(v, a.x + dir_dx(d), a.y + dir_dy(d), mid);
        },
        UtwidAction::Explode => lemma_explode_wf(v),
        UtwidAction::Stagnation(d) => lemma_stagnation_wf(v, d),
        UtwidAction::Contention(d) => lemma_contention_wf(v, d),
        UtwidAction::Conclusion(d) => lemma_conclusion_wf(v, d, mid),
        _ => {},
    }
}

/// Adding one more monster extends the record of monsters by one step.
proof fn lemma_spawn_push(t: UtwidView, ks: Seq<usize>, cs: Seq<(usize, usize)>, k: usize, c: (usize, usize))
    requires
        ks.len() == cs.len(),
    ensures
        after_spawns(t, ks.push(k), cs.push(c)) == with_spawn(after_spawns(t, ks, cs), k, c.0, c.1),
        spawns_ok(t, ks.push(k), cs.push(c)) == (spawns_ok(t, ks, cs) && free_cell(after_spawns(t, ks, cs), c.0 as int, c.1 as int)),
{
    assert(ks.push(k).drop_last() =~= ks);
    assert(cs.push(c).drop_last() =~= cs);
}

/// Taking the dead off keeps the position playable.
proof fn lemma_cleanup_wf(s: UtwidView, acted: ActorId)
    requires
        state_wf(s),
    ensures
        state_wf(cleanup(s, acted)),
{
    let c = cleanup(s, acted);
    let nd = without_dead(s.actors);
    assert(c.actors == nd);
    assert forall|i: int| 0 <= i < nd.len() implies (#[trigger] nd[i] matches Some(a) ==> actor_values_bounded(a, s.width as int, s.height as int)) by {
        assert(s.actors[i] matches Some(a) ==> actor_values_bounded(a, s.width as int, s.height as int));
    }
}

impl UtwidState {
    /// What the action itself does.
    fn apply_effect(&self, action: UtwidAction) -> (r: UtwidState)
        requires
            state_wf(self@),
            live(self.actors@, self.to_act as int),
            action_ready(self@, action),
            turn_in_range(self),
        ensures
            effect_result(self@, action, r@),
    {
        let a = self.actors[self.to_act].unwrap();
        assert(self@.actors[self@.to_act as int] matches Some(b) ==> actor_values_bounded(b, self@.width as int, self@.height as int));
        match action {
            UtwidAction::Move(d) => {
                let (x, y) = apply_dir(a.x, a.y, d);
                self.move_to(x, y)
            },
            UtwidAction::Wait => self.duplicate(),
            UtwidAction::Explode => self.execute_explode(),
            UtwidAction::Prescription => {
                let mut t = self.duplicate();
                t.prescription_turns = Some(PRESCRIPTION_TURNS);
                t
            },
            UtwidAction::Conclusion(d) => self.execute_conclusion(d),
            UtwidAction::Stagnation(d) => self.execute_stagnation(d),
            UtwidAction::Contention(d) => self.execute_contention(d),
            _ => {
                assert(false);
                self.duplicate()
            },
        }
    }

    /// Counts a turn of the player: a run of turns shortens, or the turn
    /// number goes up and its monsters appear on free cells, of which
    /// `free` shows enough; then the clocks advance.
    fn count_human_turn(&mut self, Ghost(free): Ghost<Seq<(int, int)>>) -> (cells: Ghost<Seq<(usize, usize)>>)
        requires
            state_wf(old(self)@),
            old(self).short_circuit_at_turns matches Some(r) ==> r >= 1,
            old(self).prescription_turns is None ==> free.len() == spawn_kinds(old(self).turn_number + 1).len()
                && free_cells(old(self)@, free),
            old(self).actor_id_counter + 3 <= usize::MAX,
            old(self).actors@.len() + 3 <= usize::MAX,
            old(self).turn_number + 1 <= usize::MAX,
            old(self).ai_turns + 1 <= usize::MAX,
        ensures
            final(self)@ == human_turn(old(self)@, cells@),
            old(self).prescription_turns is None ==> spawns_ok(
                UtwidView { turn_number: (old(self).turn_number + 1) as usize, ..old(self)@ },
                spawn_kinds(old(self).turn_number + 1),
                cells@,
            ),
            old(self).prescription_turns is Some ==> cells@.len() == 0,
            state_wf(final(self)@),
    {
        let ghost mut cells: Seq<(usize, usize)> = Seq::empty();
        match self.prescription_turns {
            Some(p) => {
                self.prescription_turns = if p > 0 { Some(p - 1) } else { None };
            },
            None => {
                self.turn_number = self.turn_number + 1;
                let ghost t = self@;
                let ghost mut ks: Seq<usize> = Seq::empty();
                let ghost mut wit = free;
                let tn = self.turn_number;
                let ghost due9: int = if tn % 9 == 0 { 1 } else { 0 };
                let ghost due13: int = if tn % 13 == 0 { 1 } else { 0 };
                let ghost due5: int = if tn % 5 == 0 { 1 } else { 0 };
                assert(spawn_kinds(tn as int).len() == due9 + due13 + due5);
                assert(after_spawns(t, ks, cells) == t);
                proof {
                    assert forall|i: int| 0 <= i < wit.len() implies #[trigger] free_cell(t, wit[i].0, wit[i].1) by {
                        assert(free_cell(old(self)@, wit[i].0, wit[i].1));
                    }
                }
                if tn % 9 == 0 {
                    let c = self.spawn_one(ACTOR_TYPE_ARE, Ghost(wit));
                    proof {
                        lemma_spawn_push(t, ks, cells, ACTOR_TYPE_ARE, c);
                        ks = ks.push(ACTOR_TYPE_ARE);
                        cells = cells.push(c);
                        wit = after_taking(wit, c.0 as int, c.1 as int);
                    }
                }
                assert(wit.len() == due13 + due5);
                if tn % 13 == 0 {
                    let c = self.spawn_one(ACTOR_TYPE_THEM, Ghost(wit));
                    proof {
                        lemma_spawn_push(t, ks, cells, ACTOR_TYPE_THEM, c);
                        ks = ks.push(ACTOR_TYPE_THEM);
                        cells = cells.push(c);
                        wit = after_taking(wit, c.0 as int, c.1 as int);
                    }
                }
                assert(wit.len() == due5);
                if tn % 5 == 0 {
                    let c = self.spawn_one(ACTOR_TYPE_ONE, Ghost(wit));
                    proof {
                        lemma_spawn_push(t, ks, cells, ACTOR_TYPE_ONE, c);
                        ks = ks.push(ACTOR_TYPE_ONE);
                        cells = cells.push(c);
                        wit = after_taking(wit, c.0 as int, c.1 as int);
                    }
                }
                assert(ks =~= spawn_kinds(tn as int));
            },
        }
        self.ai_turns = self.ai_turns + 1;
        if let Some(r) = self.short_circuit_at_turns {
            self.short_circuit_at_turns = Some(r - 1);
            if r == 1 {
                self.game_state = GameState::Mon2yShortcircuit;
            }
        }
        Ghost(cells)
    }

    /// The end of a turn: the dead leave, and the turn passes on.
    fn finish_turn(&mut self, acted: ActorId)
        ensures
            final(self)@ == cleanup(old(self)@, acted),
    {
        let ghost v = self@;
        let mut died_human = false;
        let mut i: usize = 0;
        while i < self.actors.len()
            invariant
                i <= v.actors.len(),
                self@ == (UtwidView { actors: self@.actors, ..v }),
                self.actors@.len() == v.actors.len(),
                forall|j: int| 0 <= j < i ==> #[trigger] self.actors@[j] == without_dead(v.actors)[j],
                forall|j: int| i <= j < v.actors.len() ==> #[trigger] self.actors@[j] == v.actors[j],
                died_human == exists|j: int| 0 <= j < i && #[trigger] is_dead(v.actors, j) && v.actors[j]->0.traits.human,
            decreases v.actors.len() - i,
        {
            if let Some(a) = self.actors[i] {
                if a.traits.dead {
                    if a.traits.human {
                        died_human = true;
                    }
                    self.actors.set(i, None);
                }
            }
            proof {
                if died_human && !(exists|j: int| 0 <= j < i && #[trigger] is_dead(v.actors, j) && v.actors[j]->0.traits.human) {
                    assert(is_dead(v.actors, i as int));
                }
            }
            i += 1;
        }
        assert(self.actors@ =~= without_dead(v.actors));
        if died_human {
            self.game_state = GameState::Lost;
        }
        self.normalize_turn_state();
        let ghost s2 = self@;
        if matches!(self.game_state, GameState::Won) || matches!(self.game_state, GameState::Lost) {
            return;
        }
        if self.turn_order.len() == 0 {
            self.game_state = GameState::Lost;
            return;
        }
        if self.prescription_turns.is_some() {
            return;
        }
        let place = first_place(&self.turn_order, acted);
        if let Some(k) = place {
            let removed = self.turn_order.remove(k);
            if let Some(id) = removed {
                if self.has_actor(id) {
                    self.turn_order.push_back(id);
                }
            }
        }
        if self.turn_order.len() == 0 {
            self.game_state = GameState::Lost;
            return;
        }
        self.to_act = self.turn_order[0];
    }

    /// Plays `action` for the actor to act. Where the player takes the
    /// stairs, the next level is built from the board's generator; new
    /// monsters appear on cells drawn from the state's spawn generator.
    pub fn execute(&self, action: UtwidAction) -> (r: UtwidState)
        requires
            state_wf(self@),
            live(self.actors@, self.to_act as int),
            action_ready(self@, action),
            turn_in_range(self),
            forall|mid: UtwidView| #[trigger] effect_result(self@, action, mid) ==> turn_can_finish(self@, mid),
        ensures
            exists|mid: UtwidView, cells: Seq<(usize, usize)>| #[trigger] effect_result(self@, action, mid)
                && #[trigger] cells_ok(self@, action, mid, cells) && r@ == finish(self@, action, mid, cells),
            state_wf(r@),
            turns_sound(r@),
    {
        let ghost v = self@;
        let a0 = self.actors[self.to_act].unwrap();
        let mut s = self.apply_effect(action);
        let ghost mid = s@;
        proof { lemma_effect_wf(v, action, mid); }
        assert(turn_can_finish(v, mid));
        let me = s.actors[self.to_act].unwrap();
        assert(mid.actors[v.to_act as int] matches Some(b) ==> actor_values_bounded(b, mid.width as int, mid.height as int));
        let mut paid = me;
        paid.modify_health(-(action_cost(action) as isize));
        s.actors.set(self.to_act, Some(paid));
        let ghost s0 = s@;
        proof {
            assert(s0 == with_cost(mid, v.to_act, spec_action_cost(action)));
            assert forall|i: int| 0 <= i < s0.actors.len() implies (#[trigger] s0.actors[i] matches Some(b) ==> actor_values_bounded(b, s0.width as int, s0.height as int)) by {
                assert(mid.actors[i] matches Some(b) ==> actor_values_bounded(b, mid.width as int, mid.height as int));
            }
        }
        let ghost mut cells: Seq<(usize, usize)> = Seq::empty();
        if a0.traits.human {
            let ghost free: Seq<(int, int)> = if mid.prescription_turns is None {
                choose|c: Seq<(int, int)>| c.len() == spawn_kinds(mid.turn_number + 1).len() && #[trigger] free_cells(mid, c)
            } else {
                Seq::empty()
            };
            proof {
                if mid.prescription_turns is None {
                    assert forall|i: int| 0 <= i < free.len() implies #[trigger] free_cell(s0, free[i].0, free[i].1) by {
                        assert(free_cell(mid, free[i].0, free[i].1));
                        assert forall|j: int| 0 <= j < s0.actors.len() implies !stands_at(#[trigger] s0.actors[j], free[i].0, free[i].1) by {
                            assert(!stands_at(mid.actors[j], free[i].0, free[i].1));
                        }
                    }
                }
            }
            let got = s.count_human_turn(Ghost(free));
            proof { cells = got@; }
        }
        if matches!(self.game_state, GameState::Checkpoint) && matches!(s.game_state, GameState::Checkpoint) {
            s.game_state = GameState::Ongoing;
        }
        let ghost s2 = s@;
        let _count = s.actors.len();
        s.finish_turn(self.to_act);
        proof {
            lemma_cleanup_wf(s2, v.to_act);
            lemma_cleanup_turns(s2, v.to_act);
            assert(effect_result(v, action, mid) && cells_ok(v, action, mid, cells) && s@ == finish(v, action, mid, cells));
        }
        s
    }
}

/// The first place of `acted` in the turn order.
fn first_place(order: &std::collections::VecDeque<ActorId>, acted: ActorId) -> (r: Option<usize>)
    ensures
        r matches Some(k) ==> first_index(order@, acted) == Some(k as int) && k < order@.len() && order@[k as int] == acted,
        r is None ==> first_index(order@, acted) is None,
{
    let mut k: usize = 0;
    while k < order.len()
        invariant
            k <= order@.len(),
            first_index(order@.take(k as int), acted) is None,
        decreases order@.len() - k,
    {
        proof { assert(order@.take(k + 1).drop_last() =~= order@.take(k as int)); }
        if order[k] == acted {
            proof { lemma_first_index_prefix(order@, acted, k as int); }
            return Some(k);
        }
        k += 1;
    }
    assert(order@.take(k as int) =~= order@);
    None
}

/// The first place of `x` in `s`, found at `k`, is `k` in all of `s`.
proof fn lemma_first_index_prefix(s: Seq<ActorId>, x: ActorId, k: int)
    requires
        0 <= k < s.len(),
        s[k] == x,
        first_index(s.take(k), x) is None,
    ensures
        first_index(s, x) == Some(k),
    decreases s.len(),
{
    if k == s.len() - 1 {
        assert(s.drop_last() =~= s.take(k));
    } else {
        assert(s.drop_last().take(k) =~= s.take(k));
        lemma_first_index_prefix(s.drop_last(), x, k);
    }
}

/// Turns go to actors in the game: every actor in the turn order is still
/// there, and while anyone is, the actor to act is.
pub open spec fn turns_sound(v: UtwidView) -> bool {
    &&& forall|k: int| 0 <= k < v.turn_order.len() ==> live(v.actors, #[trigger] v.turn_order[k] as int)
    &&& (exists|i: int| live(v.actors, i)) ==> live(v.actors, v.to_act as int)
}

proof fn lemma_normalized_turns(v: UtwidView)
    requires
        v.actors.len() <= usize::MAX,
    ensures
        turns_sound(normalized(v)),
        normalized(v).actors == v.actors,
        normalized(v).turn_order.len() == 0 ==> forall|i: int| !live(v.actors, i),
{
    let n = normalized(v);
    let pred = crate::utwid::turns::live_pred(v.actors);
    let kept = v.turn_order.filter(pred);
    crate::utwid::turns::lemma_first_live(v.actors);
    assert forall|k: int| 0 <= k < kept.len() implies live(v.actors, #[trigger] kept[k] as int) by {
        v.turn_order.lemma_filter_pred(pred, k);
        assert(pred(kept[k]));
    }
    if kept.len() == 0 {
        if let Some(i) = crate::utwid::turns::first_live(v.actors) {
            assert(n.turn_order == seq![i as usize]);
            assert(live(v.actors, i));
            assert(n.turn_order[0] as int == i);
        }
    } else {
        assert(n.turn_order == kept);
        assert(live(v.actors, kept[0] as int));
    }
    assert forall|k: int| 0 <= k < n.turn_order.len() implies live(n.actors, #[trigger] n.turn_order[k] as int) by {
        if kept.len() != 0 {
            assert(live(v.actors, kept[k] as int));
        }
    }
    if exists|i: int| live(v.actors, i) {
        let i = choose|i: int| live(v.actors, i);
        if kept.len() == 0 {
            assert(v.actors[i] is Some);
        }
    }
}

/// After the end of a turn, turns go to actors in the game.
pub proof fn lemma_cleanup_turns(s: UtwidView, acted: ActorId)
    requires
        s.actors.len() <= usize::MAX,
    ensures
        turns_sound(cleanup(s, acted)),
{
    let s1 = UtwidView {
        actors: without_dead(s.actors),
        game_state: if human_died(s.actors) { GameState::Lost } else { s.game_state },
        ..s
    };
    let s2 = normalized(s1);
    lemma_normalized_turns(s1);
    if !(s2.game_state is Won || s2.game_state is Lost) && s2.turn_order.len() != 0 && s2.prescription_turns is None {
        let r = rotated(s2, acted);
        match first_index(s2.turn_order, acted) {
            Some(k) => {
                lemma_first_index_range(s2.turn_order, acted);
                let o = s2.turn_order.remove(k);
                assert forall|j: int| 0 <= j < o.len() implies live(s2.actors, #[trigger] o[j] as int) by {
                    if j < k {
                        assert(o[j] == s2.turn_order[j]);
                    } else {
                        assert(o[j] == s2.turn_order[j + 1]);
                    }
                }
                assert(live(s2.actors, acted as int));
                assert(r.turn_order.len() > 0);
                assert(live(r.actors, r.turn_order[0] as int));
            },
            None => {
                assert(live(r.actors, r.turn_order[0] as int));
            },
        }
    }
}

proof fn lemma_first_index_range(s: Seq<ActorId>, x: ActorId)
    ensures
        first_index(s, x) matches Some(k) ==> 0 <= k < s.len() && s[k] == x,
    decreases s.len(),
{
    if s.len() > 0 {
        lemma_first_index_range(s.drop_last(), x);
    }
}

} // verus!
