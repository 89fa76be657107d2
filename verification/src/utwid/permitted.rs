//! What the actor to act may do, who plays it, and when the game is over.

use vstd::prelude::*;
use crate::actor::Actor;
use crate::utwid::types::{Dir, UtwidAction, GameState, ACTOR_TYPE_YOU, dir_dx, dir_dy, apply_dir};
use crate::utwid::board::Board;
use crate::utwid::actor::{GameActor, Allegiance};
use crate::utwid::state::{UtwidState, UtwidView, live, is_occupant};
use crate::utwid::moves::{state_wf, actor_values_bounded, acting};

verus! {

/// Whether the acting actor may step in direction `d` as far as the
/// actors go: onto an empty cell, or, striking in melee, onto a cell whose
/// first standing actor fights for the other side.
pub open spec fn step_free_of_friends(v: UtwidView, a: GameActor, d: Dir) -> bool {
    forall|o: Option<usize>| #[trigger] is_occupant(v.actors, a.x + dir_dx(d), a.y + dir_dy(d), o) ==> match o {
        Some(i) => a.traits.melee && a.allegiance != v.actors[i as int]->0.allegiance,
        None => true,
    }
}

pub open spec fn stagnation_dir_ok(v: UtwidView, a: GameActor, d: Dir) -> bool {
    match d {
        Dir::N => a.y > 0,
        Dir::S => a.y + 1 < v.height,
        Dir::E => a.x + 1 < v.width,
        Dir::W => a.x > 0,
        _ => false,
    }
}

pub open spec fn as_moves(s: Seq<Dir>) -> Seq<UtwidAction> {
    Seq::new(s.len(), |i: int| UtwidAction::Move(s[i]))
}

pub open spec fn as_conclusions(s: Seq<Dir>) -> Seq<UtwidAction> {
    Seq::new(s.len(), |i: int| UtwidAction::Conclusion(s[i]))
}

pub open spec fn as_stagnations(s: Seq<Dir>) -> Seq<UtwidAction> {
    Seq::new(s.len(), |i: int| UtwidAction::Stagnation(s[i]))
}

pub open spec fn free_of_friends(v: UtwidView, a: GameActor) -> spec_fn(Dir) -> bool {
    |d: Dir| step_free_of_friends(v, a, d)
}

pub open spec fn stagnation_ok(v: UtwidView, a: GameActor) -> spec_fn(Dir) -> bool {
    |d: Dir| stagnation_dir_ok(v, a, d)
}

/// The actions open to the actor to act: its steps onto open cells without
/// a friend on them; the bomb's explosion; for the player also a jump in
/// every open direction, a wall in every cardinal direction with room for
/// it, and a run of turns; and waiting where nothing else is open.
pub open spec fn spec_permitted(s: &UtwidState) -> Seq<UtwidAction> {
    let v = s@;
    let a = acting(v);
    let bm = s.board.spec_moves(a.x as int, a.y as int, a.traits.cardinal_move, a.traits.diagonal_move, a.traits.melee);
    let steps = as_moves(bm.filter(free_of_friends(v, a)));
    let bomb = if a.traits.bomb { seq![UtwidAction::Explode] } else { seq![] };
    let you = if a.actor_type == ACTOR_TYPE_YOU {
        as_conclusions(bm) + as_stagnations(seq![Dir::N, Dir::S, Dir::E, Dir::W].filter(stagnation_ok(v, a)))
            + seq![UtwidAction::Prescription]
    } else {
        seq![]
    };
    let all = steps + bomb + you;
    if all.len() == 0 { seq![UtwidAction::Wait] } else { all }
}

proof fn lemma_occupant_unique(actors: Seq<Option<GameActor>>, x: int, y: int, o1: Option<usize>, o2: Option<usize>)
    requires
        is_occupant(actors, x, y, o1),
        is_occupant(actors, x, y, o2),
    ensures
        o1 == o2,
{
    match (o1, o2) {
        (Some(i), Some(j)) => {
            if i < j {
                assert(!crate::utwid::state::stands_at(actors[i as int], x, y));
            }
            if j < i {
                assert(!crate::utwid::state::stands_at(actors[j as int], x, y));
            }
        },
        (Some(i), None) => {
            assert(!crate::utwid::state::stands_at(actors[i as int], x, y));
        },
        (None, Some(j)) => {
            assert(!crate::utwid::state::stands_at(actors[j as int], x, y));
        },
        (None, None) => {},
    }
}

impl UtwidState {
    /// Whether the acting actor `a` may step in direction `d`, which leads
    /// onto the board.
    fn step_allowed(&self, a: GameActor, d: Dir) -> (r: bool)
        requires
            state_wf(self@),
            a == acting(self@),
            live(self.actors@, self.to_act as int),
            self.board.step_ok(a.x as int, a.y as int, d, a.traits.melee),
        ensures
            r == step_free_of_friends(self@, a, d),
    {
        let (x, y) = apply_dir(a.x, a.y, d);
        let o = self.actor_id_in_space(x, y);
        let r = match o {
            Some(i) => a.traits.melee && a.allegiance != self.actors[i].unwrap().allegiance,
            None => true,
        };
        proof {
            assert forall|o2: Option<usize>| #[trigger] is_occupant(self@.actors, a.x + dir_dx(d), a.y + dir_dy(d), o2) implies match o2 {
                Some(i) => a.traits.melee && a.allegiance != self@.actors[i as int]->0.allegiance,
                None => true,
            } == r by {
                lemma_occupant_unique(self@.actors, a.x + dir_dx(d), a.y + dir_dy(d), o, o2);
            }
        }
        r
    }

    /// The player's own actions: a jump in every open direction, a wall in
    /// every cardinal direction with room for it, and a run of turns.
    fn push_player_actions(&self, r: &mut Vec<UtwidAction>, a: GameActor, bm: &Vec<Dir>)
        requires
            a.x < self.board.width,
            a.y < self.board.height,
        ensures
            final(r)@ == old(r)@ + as_conclusions(bm@)
                + as_stagnations(seq![Dir::N, Dir::S, Dir::E, Dir::W].filter(stagnation_ok(self@, a)))
                + seq![UtwidAction::Prescription],
    {
        let ghost first = r@;
        let mut k: usize = 0;
        while k < bm.len()
            invariant
                k <= bm@.len(),
                r@ == first + as_conclusions(bm@.take(k as int)),
            decreases bm@.len() - k,
        {
            r.push(UtwidAction::Conclusion(bm[k]));
            k += 1;
            assert(r@ =~= first + as_conclusions(bm@.take(k as int)));
        }
        assert(bm@.take(k as int) =~= bm@);
        let ghost second = r@;
        let ghost card = seq![Dir::N, Dir::S, Dir::E, Dir::W];
        if a.y > 0 {
            r.push(UtwidAction::Stagnation(Dir::N));
        }
        if a.y + 1 < self.board.height {
            r.push(UtwidAction::Stagnation(Dir::S));
        }
        if a.x + 1 < self.board.width {
            r.push(UtwidAction::Stagnation(Dir::E));
        }
        if a.x > 0 {
            r.push(UtwidAction::Stagnation(Dir::W));
        }
        proof {
            let p = stagnation_ok(self@, a);
            reveal_with_fuel(Seq::filter, 5);
            assert(card.drop_last() =~= seq![Dir::N, Dir::S, Dir::E]);
            assert(card.drop_last().drop_last() =~= seq![Dir::N, Dir::S]);
            assert(card.drop_last().drop_last().drop_last() =~= seq![Dir::N]);
            assert(card.drop_last().drop_last().drop_last().drop_last() =~= Seq::<Dir>::empty());
            assert(r@ =~= second + as_stagnations(card.filter(p)));
        }
        r.push(UtwidAction::Prescription);
    }

    /// The steps of the acting actor `a` onto open cells without a friend.
    fn step_actions(&self, a: GameActor, bm: &Vec<Dir>) -> (r: Vec<UtwidAction>)
        requires
            state_wf(self@),
            live(self.actors@, self.to_act as int),
            a == acting(self@),
            bm@ == self.board.spec_moves(a.x as int, a.y as int, a.traits.cardinal_move, a.traits.diagonal_move, a.traits.melee),
        ensures
            r@ == as_moves(bm@.filter(free_of_friends(self@, a))),
    {
        let ghost sm = bm@;
        let ghost fpred = free_of_friends(self@, a);
        let mut r: Vec<UtwidAction> = Vec::new();
        let mut i: usize = 0;
        while i < bm.len()
            invariant
                state_wf(self@),
                live(self.actors@, self.to_act as int),
                a == acting(self@),
                sm == bm@,
                fpred == free_of_friends(self@, a),
                sm == self.board.spec_moves(a.x as int, a.y as int, a.traits.cardinal_move, a.traits.diagonal_move, a.traits.melee),
                i <= sm.len(),
                r@ == as_moves(sm.take(i as int).filter(fpred)),
            decreases sm.len() - i,
        {
            let d = bm[i];
            proof {
                lemma_spec_moves_ok(self.board, a.x as int, a.y as int, a.traits.cardinal_move, a.traits.diagonal_move, a.traits.melee, i as int);
            }
            let ok = self.step_allowed(a, d);
            proof {
                assert(sm.take(i + 1).drop_last() =~= sm.take(i as int));
                reveal(Seq::filter);
                let f0 = sm.take(i as int).filter(fpred);
                let f1 = sm.take(i + 1).filter(fpred);
                assert(f1 == (if fpred(d) { f0.push(d) } else { f0 }));
            }
            if ok {
                r.push(UtwidAction::Move(d));
            }
            proof {
                let f1 = sm.take(i + 1).filter(fpred);
                assert(r@ =~= as_moves(f1));
            }
            i += 1;
        }
        assert(sm.take(i as int) =~= sm);
        r
    }

    /// The actions open to the actor to act.
    pub fn permitted_actions(&self) -> (r: Vec<UtwidAction>)
        requires
            state_wf(self@),
            live(self.actors@, self.to_act as int),
        ensures
            r@ == spec_permitted(self),
    {
        let ghost v = self@;
        let a = self.actors[self.to_act].unwrap();
        assert(v.actors[v.to_act as int] matches Some(b) ==> actor_values_bounded(b, v.width as int, v.height as int));
        let bm = self.board.board_permitted_moves(a.x, a.y, a.traits.cardinal_move, a.traits.diagonal_move, a.traits.melee);
        let mut r = self.step_actions(a, &bm);
        let ghost steps = r@;
        if a.traits.bomb {
            r.push(UtwidAction::Explode);
        }
        let ghost bomb: Seq<UtwidAction> = if a.traits.bomb { seq![UtwidAction::Explode] } else { seq![] };
        assert(r@ =~= steps + bomb);
        let ghost mid = r@;
        if a.actor_type == ACTOR_TYPE_YOU {
            self.push_player_actions(&mut r, a, &bm);
        }
        proof {
            let you = if a.actor_type == ACTOR_TYPE_YOU {
                as_conclusions(bm@) + as_stagnations(seq![Dir::N, Dir::S, Dir::E, Dir::W].filter(stagnation_ok(v, a)))
                    + seq![UtwidAction::Prescription]
            } else {
                seq![]
            };
            if a.actor_type == ACTOR_TYPE_YOU {
                assert(r@ =~= mid + you);
            } else {
                assert(r@ =~= mid + you);
            }
        }
        if r.len() == 0 {
            let mut w: Vec<UtwidAction> = Vec::new();
            w.push(UtwidAction::Wait);
            proof {
                assert(w@ =~= spec_permitted(self));
            }
            return w;
        }
        r
    }

    /// Who plays the actor to act: the human for the player, else the
    /// monster's search tree.
    pub fn next_actor(&self) -> (r: Actor<UtwidAction>)
        requires
            live(self.actors@, self.to_act as int),
            !acting(self@).traits.human ==> acting(self@).mon2y is Some,
        ensures
            r matches Actor::Player(p) && p == (if acting(self@).traits.human { 0 } else { acting(self@).mon2y->0.tree_id }),
    {
        let a = self.actors[self.to_act].unwrap();
        if a.traits.human {
            Actor::Player(0)
        } else {
            Actor::Player(a.mon2y.unwrap().tree_id)
        }
    }

    /// The game is over, for the search, at any state but an ongoing one.
    pub fn terminal(&self) -> (r: bool)
        ensures
            r == !(self.game_state is Ongoing),
    {
        match self.game_state {
            GameState::Ongoing => false,
            _ => true,
        }
    }
}

/// The directions that the board lists are open steps.
pub(crate) proof fn lemma_spec_moves_ok(b: Board, x: int, y: int, c: bool, dg: bool, m: bool, i: int)
    requires
        0 <= i < b.spec_moves(x, y, c, dg, m).len(),
    ensures
        b.step_ok(x, y, b.spec_moves(x, y, c, dg, m)[i], m),
{
    let s = b.spec_moves(x, y, c, dg, m);
    let d = s[i];
    assert(s.contains(d));
    let parts = seq![
        b.keep(x, y, Dir::N, c, m), b.keep(x, y, Dir::S, c, m), b.keep(x, y, Dir::E, c, m), b.keep(x, y, Dir::W, c, m),
        b.keep(x, y, Dir::NE, dg, m), b.keep(x, y, Dir::NW, dg, m), b.keep(x, y, Dir::SE, dg, m), b.keep(x, y, Dir::SW, dg, m),
    ];
    crate::seqs::lemma_concat_contains(parts[0], parts[1], d);
    crate::seqs::lemma_concat_contains(parts[0] + parts[1], parts[2], d);
    crate::seqs::lemma_concat_contains(parts[0] + parts[1] + parts[2], parts[3], d);
    crate::seqs::lemma_concat_contains(parts[0] + parts[1] + parts[2] + parts[3], parts[4], d);
    crate::seqs::lemma_concat_contains(parts[0] + parts[1] + parts[2] + parts[3] + parts[4], parts[5], d);
    crate::seqs::lemma_concat_contains(parts[0] + parts[1] + parts[2] + parts[3] + parts[4] + parts[5], parts[6], d);
    crate::seqs::lemma_concat_contains(parts[0] + parts[1] + parts[2] + parts[3] + parts[4] + parts[5] + parts[6], parts[7], d);
}

} // verus!
