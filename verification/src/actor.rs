use vstd::prelude::*;

verus! {

/// Who moves next in a game: a player, or the game itself, which picks one
/// of the listed actions with a chance proportional to its weight.
#[derive(Debug, Clone)]
pub enum Actor<A> {
    Player(u8),
    GameAction(Vec<(A, u32)>),
}

} // verus!
