use vstd::prelude::*;
use crate::ebr::board::Coordinate;
use crate::ebr::company::Company;
use crate::ebr::params::Bond;

verus! {

/// The kinds of action on the action table.
#[derive(Debug, Clone, Copy, Hash, PartialEq, Eq, PartialOrd, Ord, Structural)]
pub enum ChoosableAction {
    BuildTrack,
    AuctionShare,
    TakeResources,
    IssueBond,
    Merge,
    PayDividend,
}

impl ChoosableAction {
    pub open spec fn spec_index(self) -> int {
        match self {
            ChoosableAction::BuildTrack => 0,
            ChoosableAction::AuctionShare => 1,
            ChoosableAction::TakeResources => 2,
            ChoosableAction::IssueBond => 3,
            ChoosableAction::Merge => 4,
            ChoosableAction::PayDividend => 5,
        }
    }

    pub fn index(&self) -> (r: usize)
        ensures
            r == self.spec_index(),
    {
        match self {
            ChoosableAction::BuildTrack => 0,
            ChoosableAction::AuctionShare => 1,
            ChoosableAction::TakeResources => 2,
            ChoosableAction::IssueBond => 3,
            ChoosableAction::Merge => 4,
            ChoosableAction::PayDividend => 5,
        }
    }
}

/// The eleven spaces of the action table and the action of each.
pub const ACTION_CUBE_SPACES: [ChoosableAction; 11] = [
    ChoosableAction::BuildTrack,
    ChoosableAction::BuildTrack,
    ChoosableAction::BuildTrack,
    ChoosableAction::AuctionShare,
    ChoosableAction::AuctionShare,
    ChoosableAction::TakeResources,
    ChoosableAction::TakeResources,
    ChoosableAction::TakeResources,
    ChoosableAction::IssueBond,
    ChoosableAction::Merge,
    ChoosableAction::PayDividend,
];

/// The starting occupation of the action table: cubes on the three
/// take-resources spaces and on the dividend space.
pub const ACTION_CUBE_INIT: [bool; 11] = [
    false, false, false, false, false, true, true, true, false, false, true,
];

#[derive(Copy, Clone, PartialEq, Eq, Hash, Debug)]
pub enum EBRAction {
    Bid(usize),
    Pass,
    MoveCube(ChoosableAction, ChoosableAction),
    Stalemate,
    ChooseAuctionCompany(Company),
    StartPrivateAt(Company, Coordinate),
    ChooseBuildCompany(Company),
    BuildTrack(Coordinate),
    BuildPass,
    ChooseBondCompany(Company),
    IssueBond(Company, Bond),
    Merge(Company, Company),
    ChooseTakeResourcesCompany(Company, Option<Company>),
    TakeResources(Coordinate),
    PassTakeResources,
}

} // verus!
