//! Properties that tie the offered actions to the turn that carries them out.

use vstd::prelude::*;
use crate::utwid::types::{UtwidAction, Dir, dir_dx, dir_dy};
use crate::utwid::state::{UtwidState, live};
use crate::utwid::moves::{state_wf, acting};
use crate::utwid::conclusion::view_on_board;
use crate::utwid::permitted::{
    spec_permitted, as_moves, as_conclusions, as_stagnations, free_of_friends, stagnation_ok,
    lemma_spec_moves_ok,
};
use crate::utwid::execute::action_ready;

verus! {

/// The directions the board opens to the actor to act.
spec fn open_dirs(s: &UtwidState) -> Seq<Dir> {
    let a = acting(s@);
    s.board.spec_moves(a.x as int, a.y as int, a.traits.cardinal_move, a.traits.diagonal_move, a.traits.melee)
}

/// A direction the board opens leads to a cell on the board.
proof fn lemma_open_dir_on_board(s: &UtwidState, d: Dir)
    requires
        open_dirs(s).contains(d),
    ensures
        view_on_board(s@, acting(s@).x + dir_dx(d), acting(s@).y + dir_dy(d)),
{
    let a = acting(s@);
    let j = choose|j: int| 0 <= j < open_dirs(s).len() && open_dirs(s)[j] == d;
    lemma_spec_moves_ok(s.board, a.x as int, a.y as int, a.traits.cardinal_move, a.traits.diagonal_move, a.traits.melee, j);
}

/// Where each offered action comes from: a step or a jump in an open
/// direction, a wall in a cardinal direction with room for it, or one of
/// the actions that work on no cell.
proof fn lemma_offer_source(s: &UtwidState, i: int)
    requires
        0 <= i < spec_permitted(s).len(),
    ensures
        ({
            let x = spec_permitted(s)[i];
            let a = acting(s@);
            match x {
                UtwidAction::Move(d) => open_dirs(s).contains(d),
                UtwidAction::Conclusion(d) => open_dirs(s).contains(d),
                UtwidAction::Stagnation(d) => crate::utwid::permitted::stagnation_dir_ok(s@, a, d),
                UtwidAction::Wait => true,
                UtwidAction::Explode => true,
                UtwidAction::Prescription => true,
                _ => false,
            }
        }),
{
    let v = s@;
    let a = acting(v);
    let bm = open_dirs(s);
    let fl = bm.filter(free_of_friends(v, a));
    let steps = as_moves(fl);
    let bomb = if a.traits.bomb { seq![UtwidAction::Explode] } else { seq![] };
    let cards = seq![Dir::N, Dir::S, Dir::E, Dir::W];
    let st = cards.filter(stagnation_ok(v, a));
    let you = if a.actor_type == crate::utwid::types::ACTOR_TYPE_YOU {
        as_conclusions(bm) + as_stagnations(st) + seq![UtwidAction::Prescription]
    } else {
        seq![]
    };
    let all = steps + bomb + you;
    if all.len() == 0 {
        return;
    }
    assert(spec_permitted(s) == all);
    if i < steps.len() {
        let d = fl[i];
        assert(all[i] == UtwidAction::Move(d));
        assert(fl.contains(d));
        bm.lemma_filter_contains_rev(free_of_friends(v, a), d);
    } else if i < steps.len() + bomb.len() {
        assert(all[i] == UtwidAction::Explode);
    } else {
        let k = i - steps.len() - bomb.len();
        assert(all[i] == you[k]);
        let nc = as_conclusions(bm).len();
        let ns = as_stagnations(st).len();
        if k < nc {
            assert(you[k] == UtwidAction::Conclusion(bm[k]));
            assert(bm.contains(bm[k]));
        } else if k < nc + ns {
            let d = st[k - nc];
            assert(you[k] == UtwidAction::Stagnation(d));
            cards.lemma_filter_pred(stagnation_ok(v, a), k - nc);
        } else {
            assert(you[k] == UtwidAction::Prescription);
        }
    }
}

/// Every action that the game offers to the actor to act is one that a turn
/// can carry out: steps and jumps land on the board, walls go up in a
/// cardinal direction on the board, and the rest need nothing.
pub proof fn lemma_permitted_ready(s: &UtwidState, i: int)
    requires
        state_wf(s@),
        live(s.actors@, s.to_act as int),
        0 <= i < spec_permitted(s).len(),
    ensures
        action_ready(s@, spec_permitted(s)[i]),
{
    let v = s@;
    assert(v.actors[v.to_act as int] matches Some(b) ==> b.x < v.width && b.y < v.height);
    lemma_offer_source(s, i);
    match spec_permitted(s)[i] {
        UtwidAction::Move(d) => lemma_open_dir_on_board(s, d),
        UtwidAction::Conclusion(d) => lemma_open_dir_on_board(s, d),
        _ => {},
    }
}

} // verus!
