use vstd::prelude::*;
use crate::actor::Actor;
use crate::ebr::actions::EBRAction;
use crate::ebr::state::{EBRState, EBRStateView};
use crate::ebr::spec::state_wf;

verus! {

/// `b` is the first player with the most cash.
pub open spec fn is_richest(cash: Seq<i64>, b: int) -> bool {
    &&& 0 <= b < cash.len()
    &&& forall|j: int| 0 <= j < cash.len() ==> #[trigger] cash[j] <= cash[b]
    &&& forall|j: int| 0 <= j < b ==> #[trigger] cash[j] < cash[b]
}

/// `w` is the last player with the least cash.
pub open spec fn is_poorest(cash: Seq<i64>, w: int) -> bool {
    &&& 0 <= w < cash.len()
    &&& forall|j: int| 0 <= j < cash.len() ==> #[trigger] cash[w] <= cash[j]
    &&& forall|j: int| w < j < cash.len() ==> #[trigger] cash[w] < cash[j]
}

/// The points each player scores: none before the end; at the end one for
/// the richest player and minus one for the poorest, when there are two
/// players or more (ties go to the earlier player for the lead, and to the
/// later one for the tail).
pub open spec fn spec_reward_points(v: EBRStateView, best: int, worst: int) -> Seq<i8> {
    Seq::new(
        v.player_count as nat,
        |p: int|
            if !v.terminal {
                0i8
            } else if v.player_count > 1 && p == worst {
                -1i8
            } else if p == best {
                1i8
            } else {
                0i8
            },
    )
}

/// The first player with the most cash.
pub fn richest(cash: &Vec<i64>) -> (b: usize)
    requires
        cash.len() > 0,
    ensures
        is_richest(cash@, b as int),
{
    let mut b: usize = 0;
    let mut i: usize = 1;
    while i < cash.len()
        invariant
            1 <= i <= cash.len(),
            b < i,
            forall|j: int| 0 <= j < i ==> #[trigger] cash@[j] <= cash@[b as int],
            forall|j: int| 0 <= j < b ==> #[trigger] cash@[j] < cash@[b as int],
        decreases cash.len() - i,
    {
        if cash[i] > cash[b] {
            b = i;
        }
        i += 1;
    }
    b
}

/// The last player with the least cash.
pub fn poorest(cash: &Vec<i64>) -> (w: usize)
    requires
        cash.len() > 0,
    ensures
        is_poorest(cash@, w as int),
{
    let mut w: usize = 0;
    let mut i: usize = 1;
    while i < cash.len()
        invariant
            1 <= i <= cash.len(),
            w < i,
            forall|j: int| 0 <= j < i ==> #[trigger] cash@[w as int] <= cash@[j],
            forall|j: int| w < j < i ==> #[trigger] cash@[w as int] < cash@[j],
        decreases cash.len() - i,
    {
        if cash[i] <= cash[w] {
            w = i;
        }
        i += 1;
    }
    w
}

impl EBRState {
    /// The player to move.
    pub fn next_actor(&self) -> (r: Actor<EBRAction>)
        ensures
            r == Actor::<EBRAction>::Player(self.next_player),
    {
        Actor::Player(self.next_player)
    }

    /// Whether the game is over.
    pub fn terminal(&self) -> (r: bool)
        ensures
            r == self.terminal,
    {
        self.terminal
    }

    /// The points each player scores (see `spec_reward_points`).
    pub fn reward_points(&self) -> (r: Vec<i8>)
        requires
            state_wf(self@),
        ensures
            exists|b: int, w: int|
                is_richest(self@.player_cash, b) && is_poorest(self@.player_cash, w) && r@
                    == spec_reward_points(self@, b, w),
    {
        let b = richest(&self.player_cash);
        let w = poorest(&self.player_cash);
        let pc = self.player_count as usize;
        let mut r: Vec<i8> = Vec::new();
        let mut p: usize = 0;
        while p < pc
            invariant
                p <= pc,
                pc == self.player_count,
                r.len() == p,
                forall|j: int| 0 <= j < p ==> #[trigger] r@[j] == spec_reward_points(self@, b as int, w as int)[j],
            decreases pc - p,
        {
            let x: i8 = if !self.terminal {
                0
            } else if self.player_count > 1 && p == w {
                -1
            } else if p == b {
                1
            } else {
                0
            };
            r.push(x);
            p += 1;
        }
        assert(r@ =~= spec_reward_points(self@, b as int, w as int));
        r
    }
}

} // verus!
