//! How the search picks the turn to play once it has explored.

use vstd::prelude::*;
use vstd::string::StringExecFns;

verus! {

#[derive(Debug, Clone, Copy, PartialEq, Eq, Structural)]
pub enum BestTurnPolicy {
    MostVisits,
    Ucb0,
}

impl BestTurnPolicy {
    /// The policy's name as the command line writes it.
    pub fn label(&self) -> (r: String)
        ensures
            r@ == match self {
                BestTurnPolicy::MostVisits => "most-visits"@,
                BestTurnPolicy::Ucb0 => "ucb0"@,
            },
    {
        match self {
            BestTurnPolicy::MostVisits => String::from_str("most-visits"),
            BestTurnPolicy::Ucb0 => String::from_str("ucb0"),
        }
    }
}

} // verus!
