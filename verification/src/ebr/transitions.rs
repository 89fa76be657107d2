use vstd::prelude::*;
use crate::ebr::board::{Coordinate, Terrain, spec_neighbors, spec_terrain, on_board, interior};
use crate::ebr::company::{Company, COMPANY_COUNT};
use crate::ebr::params::{Bond, COUNT_LIMIT, PARAM_LIMIT};
use crate::ebr::actions::{ChoosableAction, EBRAction, ACTION_CUBE_SPACES};
use crate::ebr::state::{
    EBRStateView, StageView, CompanyDetailsView, Track, TrackType, BondDetails, EndGameReason,
};
use crate::ebr::spec::{
    details, fixed, is_private, spec_owned_cost, spec_can_build, track_of_type_at, owns_terrain, CASH_LIMIT,
};
use crate::ebr::dividend::spec_pay_dividend;

verus! {

/// The player `k` seats after `from`, among `pc` players.
pub open spec fn seat(pc: int, from: int, k: int) -> int {
    (from + k) % pc
}

/// `r` is the first player after `from`, in turn order, who has not passed.
pub open spec fn is_first_unpassed(pc: int, passed: Seq<u8>, from: int, r: int) -> bool {
    exists|k: int|
        1 <= k <= pc && r == #[trigger] seat(pc, from, k) && !passed.contains(r as u8) && forall|j: int|
            1 <= j < k ==> passed.contains(#[trigger] seat(pc, from, j) as u8)
}

pub open spec fn first_unpassed(pc: int, passed: Seq<u8>, from: int) -> int {
    choose|r: int| is_first_unpassed(pc, passed, from, r)
}

/// Each seat follows the one before it around the table.
pub proof fn lemma_seat_step(pc: int, from: int, k: int)
    requires
        pc > 0,
        from >= 0,
        k >= 0,
    ensures
        seat(pc, from, k + 1) == (seat(pc, from, k) + 1) % pc,
        0 <= seat(pc, from, k) < pc,
{
    vstd::arithmetic::div_mod::lemma_add_mod_noop_right(1, from + k, pc);
    vstd::arithmetic::div_mod::lemma_mod_bound(from + k, pc);
}

/// Every player sits within `pc` seats after `from`.
pub proof fn lemma_seat_covers(pc: int, from: int, p: int)
    requires
        0 <= from < pc,
        0 <= p < pc,
    ensures
        1 <= (if p > from { p - from } else { p - from + pc }) <= pc,
        seat(pc, from, if p > from { p - from } else { p - from + pc }) == p,
{
    vstd::arithmetic::div_mod::lemma_small_mod(p as nat, pc as nat);
    if p <= from {
        vstd::arithmetic::div_mod::lemma_mod_add_multiples_vanish(p, pc);
    }
}

/// Seat numbers are determined by the player: two seats within one round
/// of the table name different players.
pub proof fn lemma_seat_unique(pc: int, from: int, a: int, b: int)
    requires
        0 <= from < pc,
        1 <= a <= pc,
        1 <= b <= pc,
        seat(pc, from, a) == seat(pc, from, b),
    ensures
        a == b,
{
    let pa = seat(pc, from, a);
    lemma_seat_step(pc, from, a);
    lemma_seat_covers(pc, from, pa);
    if from + a < pc {
        vstd::arithmetic::div_mod::lemma_small_mod((from + a) as nat, pc as nat);
    } else {
        vstd::arithmetic::div_mod::lemma_mod_sub_multiples_vanish(from + a, pc);
        vstd::arithmetic::div_mod::lemma_small_mod((from + a - pc) as nat, pc as nat);
    }
    if from + b < pc {
        vstd::arithmetic::div_mod::lemma_small_mod((from + b) as nat, pc as nat);
    } else {
        vstd::arithmetic::div_mod::lemma_mod_sub_multiples_vanish(from + b, pc);
        vstd::arithmetic::div_mod::lemma_small_mod((from + b - pc) as nat, pc as nat);
    }
}

/// There is exactly one first player after `from` who has not passed,
/// when fewer than all players have passed.
pub proof fn lemma_first_unpassed_unique(pc: int, passed: Seq<u8>, from: int, r1: int, r2: int)
    requires
        0 <= from < pc,
        is_first_unpassed(pc, passed, from, r1),
        is_first_unpassed(pc, passed, from, r2),
    ensures
        r1 == r2,
{
    let k1 = choose|k: int|
        1 <= k <= pc && r1 == #[trigger] seat(pc, from, k) && !passed.contains(r1 as u8) && forall|j: int|
            1 <= j < k ==> passed.contains(#[trigger] seat(pc, from, j) as u8);
    let k2 = choose|k: int|
        1 <= k <= pc && r2 == #[trigger] seat(pc, from, k) && !passed.contains(r2 as u8) && forall|j: int|
            1 <= j < k ==> passed.contains(#[trigger] seat(pc, from, j) as u8);
    if k1 < k2 {
        assert(passed.contains(seat(pc, from, k1) as u8));
    } else if k2 < k1 {
        assert(passed.contains(seat(pc, from, k2) as u8));
    }
}

/// The turn passes to the player after the active one, who chooses an action.
pub open spec fn end_turn(v: EBRStateView) -> EBRStateView {
    EBRStateView {
        stage: StageView::ChooseAction,
        next_player: ((v.active_player + 1) % (v.player_count as int)) as u8,
        ..v
    }
}

pub open spec fn with_details(v: EBRStateView, c: Company, d: CompanyDetailsView) -> EBRStateView {
    EBRStateView { company_details: v.company_details.update(c.spec_index(), d), ..v }
}

pub open spec fn fresh_auction(c: Company) -> StageView {
    StageView::Auction {
        initial_auction: false,
        current_bid: None,
        lot: c,
        winning_bidder: None,
        passed: Seq::empty(),
    }
}

/// The company auctioned after `c` in the opening auction.
pub open spec fn next_ipo(c: Company) -> Company {
    match c {
        Company::LW => Company::TMLC,
        Company::TMLC => Company::EBRC,
        _ => Company::GT,
    }
}

pub open spec fn spec_execute_bid(v: EBRStateView, bid: usize) -> EBRStateView {
    match v.stage {
        StageView::Auction { lot, initial_auction, passed, .. } => EBRStateView {
            stage: StageView::Auction {
                current_bid: Some(bid as i64),
                lot,
                initial_auction,
                winning_bidder: Some(v.next_player),
                passed,
            },
            next_player: first_unpassed(v.player_count as int, passed, v.next_player as int) as u8,
            ..v
        },
        _ => v,
    }
}

/// The passes of an auction with `p` among them.
pub open spec fn with_passed(passed: Seq<u8>, p: u8) -> Seq<u8> {
    if passed.contains(p) { passed } else { passed.push(p) }
}

/// The sale of the lot of an auction that everyone else has passed.
pub open spec fn spec_sell_lot(v: EBRStateView) -> EBRStateView {
    match v.stage {
        StageView::Auction { current_bid, lot, initial_auction, winning_bidder, .. } => {
            let winner = winning_bidder.unwrap();
            let price = match current_bid { Some(b) => b as int, None => 0 };
            let d = details(v, lot);
            let d2 = CompanyDetailsView {
                shares_held: (d.shares_held + 1) as usize,
                shares_remaining: (d.shares_remaining - 1) as usize,
                cash: (d.cash + current_bid.unwrap()) as i64,
                ..d
            };
            let v1 = EBRStateView {
                holdings: v.holdings.update(winner as int, v.holdings[winner as int].push(lot)),
                player_cash: v.player_cash.update(winner as int, (v.player_cash[winner as int] - price) as i64),
                ..with_details(v, lot, d2)
            };
            let v2 = if is_private(v1, lot) {
                let v1b = match lot.spec_next_private() {
                    Some(n) => with_details(v1, n, CompanyDetailsView { available: Some(true), ..details(v1, n) }),
                    None => v1,
                };
                with_details(v1b, lot, CompanyDetailsView { available: Some(false), ..details(v1b, lot) })
            } else {
                v1
            };
            if initial_auction {
                let v3 = EBRStateView {
                    initial_auction_winners: v2.initial_auction_winners.update(lot.spec_index(), Some(winner)),
                    ..v2
                };
                if lot == Company::GT {
                    EBRStateView { stage: StageView::ChooseAction, next_player: winner, ..v3 }
                } else {
                    EBRStateView {
                        stage: StageView::Auction {
                            initial_auction: true,
                            current_bid: None,
                            lot: next_ipo(lot),
                            winning_bidder: None,
                            passed: Seq::empty(),
                        },
                        ..v3
                    }
                }
            } else {
                end_turn(v2)
            }
        },
        _ => v,
    }
}

pub open spec fn spec_execute_pass(v: EBRStateView) -> EBRStateView {
    match v.stage {
        StageView::Auction { current_bid, lot, initial_auction, winning_bidder, passed } => {
            if passed.len() < v.player_count - 2 {
                EBRStateView {
                    next_player: winning_bidder.unwrap(),
                    stage: StageView::Auction {
                        initial_auction,
                        lot,
                        current_bid,
                        winning_bidder,
                        passed: with_passed(passed, v.next_player),
                    },
                    ..v
                }
            } else {
                spec_sell_lot(v)
            }
        },
        _ => v,
    }
}

/// Index of the first action space satisfying `occupied` for action `a`.
pub open spec fn first_space(cubes: Seq<bool>, a: ChoosableAction, occupied: bool) -> int {
    choose|i: int|
        0 <= i < 11 && cubes[i] == occupied && ACTION_CUBE_SPACES@[i] == a && forall|j: int|
            0 <= j < i ==> !(cubes[j] == occupied && #[trigger] ACTION_CUBE_SPACES@[j] == a)
}

pub open spec fn has_space(cubes: Seq<bool>, a: ChoosableAction, occupied: bool) -> bool {
    exists|i: int| 0 <= i < 11 && cubes[i] == occupied && #[trigger] ACTION_CUBE_SPACES@[i] == a
}

pub open spec fn spec_execute_move_cube(v: EBRStateView, from: ChoosableAction, to: ChoosableAction) -> EBRStateView {
    let ri = first_space(v.action_cubes, from, true);
    let ai = first_space(v.action_cubes, to, false);
    let v1 = EBRStateView {
        active_player: v.next_player,
        action_cubes: v.action_cubes.update(ri, false).update(ai, true),
        ..v
    };
    match to {
        ChoosableAction::AuctionShare => EBRStateView { stage: StageView::ChooseAuctionCompany, ..v1 },
        ChoosableAction::PayDividend => spec_pay_dividend(v1),
        ChoosableAction::BuildTrack => EBRStateView { stage: StageView::ChooseBuildCompany, ..v1 },
        ChoosableAction::IssueBond => EBRStateView { stage: StageView::ChooseBondCompany, ..v1 },
        ChoosableAction::Merge => EBRStateView { stage: StageView::ChooseMerge, ..v1 },
        ChoosableAction::TakeResources => EBRStateView { stage: StageView::ChooseTakeResourcesCompany, ..v1 },
    }
}

/// The resource cubes that a new private's headquarters at `loc` brings:
/// one on each forest and two on each mountain among `loc`'s neighbours and
/// `loc` itself, in that order.
pub open spec fn cubes_around(hexes: Seq<Coordinate>) -> Seq<Coordinate>
    decreases hexes.len(),
{
    if hexes.len() == 0 {
        Seq::empty()
    } else {
        let h = hexes.last();
        let add = if !on_board(h) {
            Seq::empty()
        } else if spec_terrain(h) == Terrain::Forest {
            seq![h]
        } else if spec_terrain(h) == Terrain::Mountain {
            seq![h, h]
        } else {
            Seq::empty()
        };
        cubes_around(hexes.drop_last()) + add
    }
}

pub open spec fn spec_execute_start_private_at(v: EBRStateView, c: Company, loc: Coordinate) -> EBRStateView {
    let v1 = with_details(v, c, CompanyDetailsView { hq: Some(loc), ..details(v, c) });
    let track = if track_of_type_at(v.track, loc, TrackType::Narrow) {
        v.track
    } else {
        v.track.push(Track { location: loc, track_type: TrackType::Narrow })
    };
    EBRStateView {
        stage: fresh_auction(c),
        track,
        resource_cubes: v.resource_cubes + cubes_around(spec_neighbors(loc).push(loc)),
        ..v1
    }
}

pub open spec fn spec_execute_build_track(v: EBRStateView, loc: Coordinate) -> EBRStateView {
    match v.stage {
        StageView::BuildTrack { company, completed_builds } => {
            let private = is_private(v, company);
            let cost = if private { v.hyperparams.narrow_track_cost as int } else { spec_owned_cost(v, loc) };
            let d = details(v, company);
            let d2 = CompanyDetailsView {
                track_remaining: if private { d.track_remaining } else { (d.track_remaining - 1) as usize },
                cash: (d.cash - cost) as i64,
                ..d
            };
            let v1 = EBRStateView {
                narrow_gauge_remaining: if private { (v.narrow_gauge_remaining - 1) as usize } else { v.narrow_gauge_remaining },
                track: v.track.push(Track {
                    location: loc,
                    track_type: if private { TrackType::Narrow } else { TrackType::CompanyOwned(company) },
                }),
                ..with_details(v, company, d2)
            };
            if completed_builds < v.hyperparams.max_builds && spec_can_build(v1, company, v1.next_player as int) {
                EBRStateView {
                    stage: StageView::BuildTrack { company, completed_builds: (completed_builds + 1) as usize },
                    ..v1
                }
            } else {
                end_turn(v1)
            }
        },
        _ => v,
    }
}

/// Keeps the bonds other than `bond`.
pub open spec fn bond_differs(bond: Bond) -> spec_fn(Bond) -> bool {
    |b: Bond| b != bond
}

/// Keeps the hexes other than `coord`.
pub open spec fn coord_differs(coord: Coordinate) -> spec_fn(Coordinate) -> bool {
    |c: Coordinate| c != coord
}

pub open spec fn spec_execute_issue_bond(v: EBRStateView, c: Company, bond: Bond) -> EBRStateView {
    let d = details(v, c);
    let v1 = with_details(
        v,
        c,
        CompanyDetailsView {
            cash: (d.cash + bond.face_value) as i64,
            bonds: d.bonds.push(BondDetails { bond, deferred: true }),
            ..d
        },
    );
    end_turn(EBRStateView { unissued_bonds: v.unissued_bonds.filter(bond_differs(bond)), ..v1 })
}

pub open spec fn replace_company(hs: Seq<Company>, from: Company, to: Company) -> Seq<Company> {
    hs.map_values(|c: Company| if c != from { c } else { to })
}

pub open spec fn spec_execute_merge(v: EBRStateView, private: Company, company: Company) -> EBRStateView {
    let v1 = with_details(v, private, CompanyDetailsView { merged: Some(true), ..details(v, private) });
    let pd = details(v1, private);
    let cd = details(v1, company);
    let cd2 = CompanyDetailsView {
        cash: (cd.cash + pd.cash) as i64,
        bonds: cd.bonds + pd.bonds,
        shares_held: if company != Company::EBRC { (cd.shares_held + 1) as usize } else { cd.shares_held },
        shares_remaining: if company != Company::EBRC { (cd.shares_remaining - 1) as usize } else { cd.shares_remaining },
        owned_privates: cd.owned_privates.push(private),
        ..cd
    };
    let v2 = with_details(v1, company, cd2);
    end_turn(EBRStateView {
        holdings: v.holdings.map_values(|hs: Seq<Company>| replace_company(hs, private, company)),
        ..v2
    })
}

/// The bonus that a holding of `c` brings when `company` takes a cube
/// delivered by `dc`.
pub open spec fn take_bonus(v: EBRStateView, c: Company, company: Company, dc: Company) -> int {
    (if c == company { v.hyperparams.take_dividend as int } else { 0 }) + if c == dc {
        if owns_terrain(v, dc, Terrain::Port) {
            v.hyperparams.take_port_deliver_dividend as int
        } else if owns_terrain(v, dc, Terrain::Town) {
            v.hyperparams.take_town_deliver_dividend as int
        } else {
            0
        }
    } else {
        0
    }
}

pub open spec fn take_income(v: EBRStateView, hs: Seq<Company>, company: Company, dc: Company) -> int
    decreases hs.len(),
{
    if hs.len() == 0 {
        0
    } else {
        take_income(v, hs.drop_last(), company, dc) + take_bonus(v, hs.last(), company, dc)
    }
}

pub open spec fn spec_execute_take_resources(v: EBRStateView, coord: Coordinate) -> EBRStateView {
    match v.stage {
        StageView::TakeResources { company, delivery_company, taken_resources } => {
            let v1 = EBRStateView { resource_cubes: v.resource_cubes.filter(coord_differs(coord)), ..v };
            EBRStateView {
                player_cash: Seq::new(
                    v.player_count as nat,
                    |p: int| (v.player_cash[p] + take_income(v1, v.holdings[p], company, delivery_company)) as i64,
                ),
                stage: StageView::TakeResources {
                    company,
                    delivery_company,
                    taken_resources: (taken_resources + 1) as u8,
                },
                ..v1
            }
        },
        _ => v,
    }
}

/// The position after `action`.
pub open spec fn spec_execute(v: EBRStateView, action: EBRAction) -> EBRStateView {
    match action {
        EBRAction::Stalemate => EBRStateView { terminal: true, end_game_reason: EndGameReason::Stalemate, ..v },
        EBRAction::Bid(bid) => spec_execute_bid(v, bid),
        EBRAction::Pass => spec_execute_pass(v),
        EBRAction::MoveCube(from, to) => spec_execute_move_cube(v, from, to),
        EBRAction::ChooseAuctionCompany(c) => EBRStateView {
            stage: if !is_private(v, c) { fresh_auction(c) } else { StageView::ChoosePrivateStart(c) },
            ..v
        },
        EBRAction::StartPrivateAt(c, loc) => spec_execute_start_private_at(v, c, loc),
        EBRAction::ChooseBuildCompany(c) => EBRStateView {
            stage: StageView::BuildTrack { company: c, completed_builds: 0 },
            ..v
        },
        EBRAction::BuildTrack(loc) => spec_execute_build_track(v, loc),
        EBRAction::BuildPass => end_turn(v),
        EBRAction::ChooseBondCompany(c) => EBRStateView { stage: StageView::ChooseBond(c), ..v },
        EBRAction::IssueBond(c, bond) => spec_execute_issue_bond(v, c, bond),
        EBRAction::Merge(p, c) => spec_execute_merge(v, p, c),
        EBRAction::ChooseTakeResourcesCompany(c, dc) => EBRStateView {
            stage: StageView::TakeResources {
                company: c,
                delivery_company: match dc { Some(d) => d, None => c },
                taken_resources: 0,
            },
            ..v
        },
        EBRAction::TakeResources(coord) => spec_execute_take_resources(v, coord),
        EBRAction::PassTakeResources => end_turn(v),
    }
}

/// The inputs on which `action` runs without failing: the stage it belongs
/// to, a lot or cube space that exists, and counts that do not run out.
pub open spec fn execute_ok(v: EBRStateView, action: EBRAction) -> bool {
    match action {
        EBRAction::Bid(_) => v.stage matches StageView::Auction { passed, .. } && passed.len() < v.player_count,
        EBRAction::Pass => match v.stage {
            StageView::Auction { current_bid, lot, initial_auction, winning_bidder, passed } => {
                &&& v.player_count >= 2
                &&& winning_bidder is Some
                &&& passed.len() >= v.player_count - 2 ==> {
                    &&& current_bid is Some
                    &&& details(v, lot).shares_remaining > 0
                    &&& (is_private(v, lot) ==> lot == Company::GT || lot == Company::NMFT || lot == Company::NED
                        || lot == Company::MLM)
                    &&& (initial_auction ==> lot == Company::LW || lot == Company::TMLC || lot == Company::EBRC
                        || lot == Company::GT)
                }
            },
            _ => false,
        },
        EBRAction::MoveCube(from, to) => {
            &&& has_space(v.action_cubes, from, true)
            &&& has_space(v.action_cubes, to, false)
            &&& (to == ChoosableAction::PayDividend ==> v.dividends_paid < 6)
        },
        EBRAction::StartPrivateAt(_, loc) => interior(loc),
        EBRAction::BuildTrack(loc) => match v.stage {
            StageView::BuildTrack { company, completed_builds } => {
                &&& interior(loc)
                &&& if is_private(v, company) { v.narrow_gauge_remaining > 0 } else { details(v, company).track_remaining > 0 }
                &&& v.track.len() < COUNT_LIMIT
                &&& details(v, company).cash - (if is_private(v, company) {
                    v.hyperparams.narrow_track_cost as int
                } else {
                    spec_owned_cost(v, loc)
                }) >= -CASH_LIMIT
            },
            _ => false,
        },
        EBRAction::IssueBond(_, bond) => bond.face_value <= PARAM_LIMIT,
        EBRAction::Merge(_, c) => c != Company::EBRC ==> details(v, c).shares_remaining > 0,
        EBRAction::TakeResources(_) => v.stage matches StageView::TakeResources { taken_resources, .. } ==> taken_resources < 255,
        _ => true,
    }
}

} // verus!
