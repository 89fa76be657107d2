use vstd::prelude::*;
use std::sync::Arc;
use crate::ebr::board::{Coordinate, interior};
use crate::ebr::company::{Company, COMPANY_COUNT};
use crate::ebr::params::{Bond, EBRHyperparams, CompanyFixedDetailsParams, PARAM_LIMIT, COUNT_LIMIT, small_revenue};

verus! {

#[derive(Debug, Clone, Copy, PartialEq, Eq, PartialOrd, Ord, Structural)]
pub enum EndGameReason {
    InProgress,
    Shares,
    Bonds,
    Track,
    Resources,
    Stalemate,
    Dividends,
    Bankruptcy,
}

#[derive(Clone, Copy, Debug, PartialEq, Eq, Structural)]
pub enum TrackType {
    CompanyOwned(Company),
    Narrow,
}

/// A piece of track on the board.
#[derive(Clone, Copy, Debug)]
pub struct Track {
    pub location: Coordinate,
    pub track_type: TrackType,
}

#[derive(Debug, Clone, Copy)]
pub struct BondDetails {
    pub bond: Bond,
    pub deferred: bool,
}

/// The building and revenue rules of one terrain.
#[derive(Debug, Clone, Copy)]
pub struct CommonAttributes {
    pub build_cost: u32,
    pub buildable: bool,
    pub multiple_allowed: bool,
    pub revenue: [i64; 6],
}

#[derive(Debug)]
pub struct CompanyDetails {
    pub shares_held: usize,
    pub shares_remaining: usize,
    pub merged: Option<bool>,
    pub cash: i64,
    pub available: Option<bool>,
    pub hq: Option<Coordinate>,
    pub track_remaining: usize,
    pub bonds: Vec<BondDetails>,
    pub owned_privates: Vec<Company>,
}

pub struct CompanyDetailsView {
    pub shares_held: usize,
    pub shares_remaining: usize,
    pub merged: Option<bool>,
    pub cash: i64,
    pub available: Option<bool>,
    pub hq: Option<Coordinate>,
    pub track_remaining: usize,
    pub bonds: Seq<BondDetails>,
    pub owned_privates: Seq<Company>,
}

impl View for CompanyDetails {
    type V = CompanyDetailsView;

    open spec fn view(&self) -> CompanyDetailsView {
        CompanyDetailsView {
            shares_held: self.shares_held,
            shares_remaining: self.shares_remaining,
            merged: self.merged,
            cash: self.cash,
            available: self.available,
            hq: self.hq,
            track_remaining: self.track_remaining,
            bonds: self.bonds@,
            owned_privates: self.owned_privates@,
        }
    }
}

impl Clone for CompanyDetails {
    fn clone(&self) -> (r: Self)
        ensures
            r@ == self@,
    {
        CompanyDetails {
            shares_held: self.shares_held,
            shares_remaining: self.shares_remaining,
            merged: self.merged,
            cash: self.cash,
            available: self.available,
            hq: self.hq,
            track_remaining: self.track_remaining,
            bonds: copy_vec(&self.bonds),
            owned_privates: copy_vec(&self.owned_privates),
        }
    }
}

/// The phase of the turn.
#[derive(Debug)]
pub enum Stage {
    Auction {
        initial_auction: bool,
        current_bid: Option<i64>,
        lot: Company,
        winning_bidder: Option<u8>,
        passed: Vec<u8>,
    },
    BuildTrack { company: Company, completed_builds: usize },
    ChooseAction,
    TakeResources { company: Company, delivery_company: Company, taken_resources: u8 },
    ChooseTakeResourcesCompany,
    ChooseAuctionCompany,
    ChoosePrivateStart(Company),
    ChooseBuildCompany,
    ChooseBondCompany,
    ChooseBond(Company),
    ChooseMerge,
}

pub enum StageView {
    Auction {
        initial_auction: bool,
        current_bid: Option<i64>,
        lot: Company,
        winning_bidder: Option<u8>,
        passed: Seq<u8>,
    },
    BuildTrack { company: Company, completed_builds: usize },
    ChooseAction,
    TakeResources { company: Company, delivery_company: Company, taken_resources: u8 },
    ChooseTakeResourcesCompany,
    ChooseAuctionCompany,
    ChoosePrivateStart(Company),
    ChooseBuildCompany,
    ChooseBondCompany,
    ChooseBond(Company),
    ChooseMerge,
}

impl View for Stage {
    type V = StageView;

    open spec fn view(&self) -> StageView {
        match self {
            Stage::Auction { initial_auction, current_bid, lot, winning_bidder, passed } => StageView::Auction {
                initial_auction: *initial_auction,
                current_bid: *current_bid,
                lot: *lot,
                winning_bidder: *winning_bidder,
                passed: passed@,
            },
            Stage::BuildTrack { company, completed_builds } => StageView::BuildTrack {
                company: *company,
                completed_builds: *completed_builds,
            },
            Stage::ChooseAction => StageView::ChooseAction,
            Stage::TakeResources { company, delivery_company, taken_resources } => StageView::TakeResources {
                company: *company,
                delivery_company: *delivery_company,
                taken_resources: *taken_resources,
            },
            Stage::ChooseTakeResourcesCompany => StageView::ChooseTakeResourcesCompany,
            Stage::ChooseAuctionCompany => StageView::ChooseAuctionCompany,
            Stage::ChoosePrivateStart(c) => StageView::ChoosePrivateStart(*c),
            Stage::ChooseBuildCompany => StageView::ChooseBuildCompany,
            Stage::ChooseBondCompany => StageView::ChooseBondCompany,
            Stage::ChooseBond(c) => StageView::ChooseBond(*c),
            Stage::ChooseMerge => StageView::ChooseMerge,
        }
    }
}

impl Clone for Stage {
    fn clone(&self) -> (r: Self)
        ensures
            r@ == self@,
    {
        match self {
            Stage::Auction { initial_auction, current_bid, lot, winning_bidder, passed } => Stage::Auction {
                initial_auction: *initial_auction,
                current_bid: *current_bid,
                lot: *lot,
                winning_bidder: *winning_bidder,
                passed: copy_vec(passed),
            },
            Stage::BuildTrack { company, completed_builds } => Stage::BuildTrack {
                company: *company,
                completed_builds: *completed_builds,
            },
            Stage::ChooseAction => Stage::ChooseAction,
            Stage::TakeResources { company, delivery_company, taken_resources } => Stage::TakeResources {
                company: *company,
                delivery_company: *delivery_company,
                taken_resources: *taken_resources,
            },
            Stage::ChooseTakeResourcesCompany => Stage::ChooseTakeResourcesCompany,
            Stage::ChooseAuctionCompany => Stage::ChooseAuctionCompany,
            Stage::ChoosePrivateStart(c) => Stage::ChoosePrivateStart(*c),
            Stage::ChooseBuildCompany => Stage::ChooseBuildCompany,
            Stage::ChooseBondCompany => Stage::ChooseBondCompany,
            Stage::ChooseBond(c) => Stage::ChooseBond(*c),
            Stage::ChooseMerge => Stage::ChooseMerge,
        }
    }
}

/// A position of the game.
///
/// Lists indexed by player have one entry per player; lists indexed by
/// company (`company_details`, `company_fixed_details`, `revenue`,
/// `initial_auction_winners`) are indexed by `Company::index`;
/// `terrain_attributes` is indexed by `Terrain::index`.
#[derive(Debug)]
pub struct EBRState {
    pub terminal: bool,
    pub end_game_reason: EndGameReason,
    pub next_player: u8,
    pub active_player: u8,
    pub player_count: u8,
    pub track: Vec<Track>,
    pub stage: Stage,
    pub holdings: Vec<Vec<Company>>,
    pub player_cash: Vec<i64>,
    pub action_cubes: [bool; 11],
    pub revenue: Vec<i64>,
    pub dividends_paid: usize,
    pub company_details: Vec<CompanyDetails>,
    pub unissued_bonds: Vec<Bond>,
    pub resource_cubes: Vec<Coordinate>,
    pub narrow_gauge_remaining: usize,
    pub terrain_attributes: Vec<CommonAttributes>,
    pub company_fixed_details: Vec<CompanyFixedDetailsParams>,
    pub hyperparams: Arc<EBRHyperparams>,
    pub initial_auction_winners: Vec<Option<u8>>,
}

pub struct EBRStateView {
    pub terminal: bool,
    pub end_game_reason: EndGameReason,
    pub next_player: u8,
    pub active_player: u8,
    pub player_count: u8,
    pub track: Seq<Track>,
    pub stage: StageView,
    pub holdings: Seq<Seq<Company>>,
    pub player_cash: Seq<i64>,
    pub action_cubes: Seq<bool>,
    pub revenue: Seq<i64>,
    pub dividends_paid: usize,
    pub company_details: Seq<CompanyDetailsView>,
    pub unissued_bonds: Seq<Bond>,
    pub resource_cubes: Seq<Coordinate>,
    pub narrow_gauge_remaining: usize,
    pub terrain_attributes: Seq<CommonAttributes>,
    pub company_fixed_details: Seq<CompanyFixedDetailsParams>,
    pub hyperparams: EBRHyperparams,
    pub initial_auction_winners: Seq<Option<u8>>,
}

impl View for EBRState {
    type V = EBRStateView;

    open spec fn view(&self) -> EBRStateView {
        EBRStateView {
            terminal: self.terminal,
            end_game_reason: self.end_game_reason,
            next_player: self.next_player,
            active_player: self.active_player,
            player_count: self.player_count,
            track: self.track@,
            stage: self.stage@,
            holdings: self.holdings@.map_values(|h: Vec<Company>| h@),
            player_cash: self.player_cash@,
            action_cubes: self.action_cubes@,
            revenue: self.revenue@,
            dividends_paid: self.dividends_paid,
            company_details: self.company_details@.map_values(|d: CompanyDetails| d@),
            unissued_bonds: self.unissued_bonds@,
            resource_cubes: self.resource_cubes@,
            narrow_gauge_remaining: self.narrow_gauge_remaining,
            terrain_attributes: self.terrain_attributes@,
            company_fixed_details: self.company_fixed_details@,
            hyperparams: *self.hyperparams,
            initial_auction_winners: self.initial_auction_winners@,
        }
    }
}

/// A copy of a list of plain values.
pub fn copy_vec<T: Copy>(v: &Vec<T>) -> (r: Vec<T>)
    ensures
        r@ == v@,
{
    let mut r: Vec<T> = Vec::new();
    let mut i: usize = 0;
    while i < v.len()
        invariant
            i <= v.len(),
            r@ == v@.take(i as int),
        decreases v.len() - i,
    {
        r.push(v[i]);
        i += 1;
        assert(r@ =~= v@.take(i as int));
    }
    assert(v@.take(v.len() as int) =~= v@);
    r
}

fn clone_holdings(h: &Vec<Vec<Company>>) -> (r: Vec<Vec<Company>>)
    ensures
        r@.map_values(|v: Vec<Company>| v@) == h@.map_values(|v: Vec<Company>| v@),
{
    let mut r: Vec<Vec<Company>> = Vec::new();
    let mut i: usize = 0;
    while i < h.len()
        invariant
            i <= h.len(),
            r.len() == i,
            forall|j: int| 0 <= j < i ==> #[trigger] r@[j]@ == h@[j]@,
        decreases h.len() - i,
    {
        r.push(copy_vec(&h[i]));
        i += 1;
    }
    assert(r@.map_values(|v: Vec<Company>| v@) =~= h@.map_values(|v: Vec<Company>| v@));
    r
}

fn clone_details(d: &Vec<CompanyDetails>) -> (r: Vec<CompanyDetails>)
    ensures
        r@.map_values(|v: CompanyDetails| v@) == d@.map_values(|v: CompanyDetails| v@),
{
    let mut r: Vec<CompanyDetails> = Vec::new();
    let mut i: usize = 0;
    while i < d.len()
        invariant
            i <= d.len(),
            r.len() == i,
            forall|j: int| 0 <= j < i ==> #[trigger] r@[j]@ == d@[j]@,
        decreases d.len() - i,
    {
        r.push(d[i].clone());
        i += 1;
    }
    assert(r@.map_values(|v: CompanyDetails| v@) =~= d@.map_values(|v: CompanyDetails| v@));
    r
}

impl Clone for EBRState {
    fn clone(&self) -> (r: Self)
        ensures
            r@ == self@,
    {
        EBRState {
            terminal: self.terminal,
            end_game_reason: self.end_game_reason,
            next_player: self.next_player,
            active_player: self.active_player,
            player_count: self.player_count,
            track: copy_vec(&self.track),
            stage: self.stage.clone(),
            holdings: clone_holdings(&self.holdings),
            player_cash: copy_vec(&self.player_cash),
            action_cubes: self.action_cubes,
            revenue: copy_vec(&self.revenue),
            dividends_paid: self.dividends_paid,
            company_details: clone_details(&self.company_details),
            unissued_bonds: copy_vec(&self.unissued_bonds),
            resource_cubes: copy_vec(&self.resource_cubes),
            narrow_gauge_remaining: self.narrow_gauge_remaining,
            terrain_attributes: copy_vec(&self.terrain_attributes),
            company_fixed_details: copy_vec(&self.company_fixed_details),
            hyperparams: self.hyperparams.clone(),
            initial_auction_winners: copy_vec(&self.initial_auction_winners),
        }
    }
}

} // verus!
