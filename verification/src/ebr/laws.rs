use vstd::prelude::*;
use crate::ebr::board::{Coordinate, interior};
use crate::ebr::company::{Company, COMPANY_COUNT};
use crate::ebr::actions::{ChoosableAction, EBRAction};
use crate::ebr::state::{EBRStateView, StageView, CompanyDetailsView, Track, TrackType};
use crate::ebr::spec::{state_wf, stage_wf, details, is_private, bounded, CASH_LIMIT};
use crate::ebr::params::COUNT_LIMIT;
use crate::ebr::transitions::{
    seat, is_first_unpassed, first_unpassed, lemma_seat_step, lemma_seat_covers, end_turn, with_details,
    with_passed, spec_execute, execute_ok, spec_sell_lot, spec_execute_pass, spec_execute_bid,
    spec_execute_move_cube, spec_execute_start_private_at, spec_execute_build_track, spec_execute_issue_bond,
    spec_execute_merge, spec_execute_take_resources, fresh_auction, replace_company,
};
use crate::ebr::dividend::{spec_pay_dividend, with_undeferred_bonds, FINAL_DIVIDEND_COUNT};
use crate::seqs::lemma_unique_within;

verus! {

proof fn lemma_scan_unpassed(pc: int, passed: Seq<u8>, from: int, k: int)
    requires
        0 <= from < pc,
        pc <= 255,
        passed.len() < pc,
        passed.no_duplicates(),
        forall|i: int| 0 <= i < passed.len() ==> #[trigger] passed[i] < pc,
        1 <= k <= pc,
        forall|j: int| 1 <= j < k ==> passed.contains(#[trigger] seat(pc, from, j) as u8),
    ensures
        exists|r: int| 0 <= r < pc && is_first_unpassed(pc, passed, from, r),
    decreases pc - k,
{
    lemma_seat_step(pc, from, k);
    let s = seat(pc, from, k);
    if !passed.contains(s as u8) {
        assert(is_first_unpassed(pc, passed, from, s));
    } else if k < pc {
        lemma_scan_unpassed(pc, passed, from, k + 1);
    } else {
        let all = Seq::new(pc as nat, |i: int| i as u8);
        assert forall|i: int| 0 <= i < all.len() implies passed.contains(#[trigger] all[i]) by {
            lemma_seat_covers(pc, from, i);
            let j = if i > from { i - from } else { i - from + pc };
            assert(seat(pc, from, j) == i);
            if j < k {
                assert(passed.contains(seat(pc, from, j) as u8));
            }
        }
        assert(all.no_duplicates());
        lemma_unique_within(all, passed);
    }
}

/// While some player has not passed, the turn goes to the first of them
/// after `from`, who is a player.
pub proof fn lemma_first_unpassed_exists(pc: int, passed: Seq<u8>, from: int)
    requires
        0 <= from < pc,
        pc <= 255,
        passed.len() < pc,
        passed.no_duplicates(),
        forall|i: int| 0 <= i < passed.len() ==> #[trigger] passed[i] < pc,
    ensures
        is_first_unpassed(pc, passed, from, first_unpassed(pc, passed, from)),
        0 <= first_unpassed(pc, passed, from) < pc,
{
    lemma_scan_unpassed(pc, passed, from, 1);
    let r = first_unpassed(pc, passed, from);
    let k = choose|k: int|
        1 <= k <= pc && r == #[trigger] seat(pc, from, k) && !passed.contains(r as u8) && forall|j: int|
            1 <= j < k ==> passed.contains(#[trigger] seat(pc, from, j) as u8);
    lemma_seat_step(pc, from, k);
}

/// Replacing the details of a company keeps the invariant when the
/// headquarters and a private's availability keep their shape.
proof fn lemma_with_details_wf(v: EBRStateView, c: Company, d: CompanyDetailsView)
    requires
        state_wf(v),
        d.hq matches Some(h) ==> interior(h),
        is_private(v, c) ==> d.available is Some,
    ensures
        state_wf(with_details(v, c, d)),
{
    let w = with_details(v, c, d);
    assert forall|i: int| 0 <= i < COMPANY_COUNT implies (#[trigger] w.company_details[i].hq matches Some(h) ==> interior(h)) by {
        if i != c.spec_index() {
            assert(w.company_details[i] == v.company_details[i]);
        }
    }
    assert forall|i: int| 0 <= i < COMPANY_COUNT && #[trigger] w.company_fixed_details[i].private
        implies w.company_details[i].available is Some by {
        if i != c.spec_index() {
            assert(w.company_details[i] == v.company_details[i]);
        }
    }
}

proof fn lemma_end_turn_wf(v: EBRStateView)
    requires
        state_wf(v),
    ensures
        state_wf(end_turn(v)),
{
    assert(0 <= (v.active_player + 1) % (v.player_count as int) < v.player_count);
}

proof fn lemma_bid_wf(v: EBRStateView, bid: usize)
    requires
        state_wf(v),
        execute_ok(v, EBRAction::Bid(bid)),
        bid <= i64::MAX,
    ensures
        state_wf(spec_execute(v, EBRAction::Bid(bid))),
{
    if let StageView::Auction { passed, .. } = v.stage {
        lemma_first_unpassed_exists(v.player_count as int, passed, v.next_player as int);
    }
}

proof fn lemma_sell_lot_wf(v: EBRStateView)
    requires
        state_wf(v),
        execute_ok(v, EBRAction::Pass),
        v.stage matches StageView::Auction { passed, .. } && passed.len() >= v.player_count - 2,
    ensures
        state_wf(spec_sell_lot(v)),
{
    if let StageView::Auction { current_bid, lot, initial_auction, winning_bidder, .. } = v.stage {
        let winner = winning_bidder.unwrap();
        let price = match current_bid { Some(b) => b as int, None => 0 };
        let d = details(v, lot);
        let d2 = CompanyDetailsView {
            shares_held: (d.shares_held + 1) as usize,
            shares_remaining: (d.shares_remaining - 1) as usize,
            cash: (d.cash + current_bid.unwrap()) as i64,
            ..d
        };
        lemma_with_details_wf(v, lot, d2);
        let v0 = with_details(v, lot, d2);
        let v1 = EBRStateView {
            holdings: v.holdings.update(winner as int, v.holdings[winner as int].push(lot)),
            player_cash: v.player_cash.update(winner as int, (v.player_cash[winner as int] - price) as i64),
            ..v0
        };
        assert(state_wf(v1));
        if is_private(v1, lot) {
            let v1b = match lot.spec_next_private() {
                Some(n) => {
                    lemma_with_details_wf(v1, n, CompanyDetailsView { available: Some(true), ..details(v1, n) });
                    with_details(v1, n, CompanyDetailsView { available: Some(true), ..details(v1, n) })
                },
                None => v1,
            };
            lemma_with_details_wf(v1b, lot, CompanyDetailsView { available: Some(false), ..details(v1b, lot) });
        }
    }
}

proof fn lemma_pass_wf(v: EBRStateView)
    requires
        state_wf(v),
        execute_ok(v, EBRAction::Pass),
    ensures
        state_wf(spec_execute(v, EBRAction::Pass)),
{
    if let StageView::Auction { current_bid, lot, initial_auction, winning_bidder, passed } = v.stage {
        if passed.len() < v.player_count - 2 {
            let np = with_passed(passed, v.next_player);
            assert(np.no_duplicates()) by {
                if !passed.contains(v.next_player) {
                    assert forall|i: int, j: int| 0 <= i < j < np.len() implies np[i] != np[j] by {
                        if j == passed.len() {
                            assert(passed.contains(np[i]));
                        }
                    }
                }
            }
            assert forall|i: int| 0 <= i < np.len() implies #[trigger] np[i] < v.player_count by {
                if i < passed.len() {
                    assert(np[i] == passed[i]);
                }
            }
        } else {
            lemma_sell_lot_wf(v);
        }
    }
}

proof fn lemma_move_cube_wf(v: EBRStateView, from: ChoosableAction, to: ChoosableAction)
    requires
        state_wf(v),
        execute_ok(v, EBRAction::MoveCube(from, to)),
    ensures
        state_wf(spec_execute(v, EBRAction::MoveCube(from, to))),
{
    let ri = crate::ebr::transitions::first_space(v.action_cubes, from, true);
    let ai = crate::ebr::transitions::first_space(v.action_cubes, to, false);
    let v1 = EBRStateView {
        active_player: v.next_player,
        action_cubes: v.action_cubes.update(ri, false).update(ai, true),
        ..v
    };
    assert(state_wf(v1));
    if to == ChoosableAction::PayDividend {
        let w = spec_pay_dividend(v1);
        assert(0 <= (v1.next_player + 1) % (v1.player_count as int) < v1.player_count);
        assert forall|i: int| 0 <= i < COMPANY_COUNT implies (#[trigger] w.company_details[i].hq matches Some(h) ==> interior(h)) by {
            assert(w.company_details[i] == with_undeferred_bonds(v1.company_details[i]));
        }
        assert forall|i: int| 0 <= i < COMPANY_COUNT && #[trigger] w.company_fixed_details[i].private
            implies w.company_details[i].available is Some by {
            assert(w.company_details[i] == with_undeferred_bonds(v1.company_details[i]));
        }
        assert(w.dividends_paid < FINAL_DIVIDEND_COUNT || w.terminal);
    }
}

proof fn lemma_start_private_wf(v: EBRStateView, c: Company, loc: Coordinate)
    requires
        state_wf(v),
        execute_ok(v, EBRAction::StartPrivateAt(c, loc)),
    ensures
        state_wf(spec_execute(v, EBRAction::StartPrivateAt(c, loc))),
{
    let d = CompanyDetailsView { hq: Some(loc), ..details(v, c) };
    lemma_with_details_wf(v, c, d);
    let w = spec_execute_start_private_at(v, c, loc);
    assert forall|i: int| 0 <= i < w.track.len() implies interior(#[trigger] w.track[i].location) by {
        if i < v.track.len() {
            assert(w.track[i] == v.track[i]);
        }
    }
}

proof fn lemma_build_track_wf(v: EBRStateView, loc: Coordinate)
    requires
        state_wf(v),
        execute_ok(v, EBRAction::BuildTrack(loc)),
    ensures
        state_wf(spec_execute(v, EBRAction::BuildTrack(loc))),
{
    if let StageView::BuildTrack { company, completed_builds } = v.stage {
        let private = is_private(v, company);
        let cost = if private {
            v.hyperparams.narrow_track_cost as int
        } else {
            crate::ebr::spec::spec_owned_cost(v, loc)
        };
        let d = details(v, company);
        let d2 = CompanyDetailsView {
            track_remaining: if private { d.track_remaining } else { (d.track_remaining - 1) as usize },
            cash: (d.cash - cost) as i64,
            ..d
        };
        lemma_with_details_wf(v, company, d2);
        let v1 = EBRStateView {
            narrow_gauge_remaining: if private { (v.narrow_gauge_remaining - 1) as usize } else { v.narrow_gauge_remaining },
            track: v.track.push(Track {
                location: loc,
                track_type: if private { TrackType::Narrow } else { TrackType::CompanyOwned(company) },
            }),
            ..with_details(v, company, d2)
        };
        assert forall|i: int| 0 <= i < v1.track.len() implies interior(#[trigger] v1.track[i].location) by {
            if i < v.track.len() {
                assert(v1.track[i] == v.track[i]);
            }
        }
        assert(state_wf(v1));
        lemma_end_turn_wf(v1);
    }
}

proof fn lemma_issue_bond_wf(v: EBRStateView, c: Company, bond: crate::ebr::params::Bond)
    requires
        state_wf(v),
        execute_ok(v, EBRAction::IssueBond(c, bond)),
    ensures
        state_wf(spec_execute(v, EBRAction::IssueBond(c, bond))),
{
    let d = details(v, c);
    let d2 = CompanyDetailsView {
        cash: (d.cash + bond.face_value) as i64,
        bonds: d.bonds.push(crate::ebr::state::BondDetails { bond, deferred: true }),
        ..d
    };
    lemma_with_details_wf(v, c, d2);
    let v1 = with_details(v, c, d2);
    let v2 = EBRStateView { unissued_bonds: v.unissued_bonds.filter(crate::ebr::transitions::bond_differs(bond)), ..v1 };
    assert(state_wf(v2));
    lemma_end_turn_wf(v2);
}

proof fn lemma_merge_wf(v: EBRStateView, p: Company, c: Company)
    requires
        state_wf(v),
        execute_ok(v, EBRAction::Merge(p, c)),
    ensures
        state_wf(spec_execute(v, EBRAction::Merge(p, c))),
{
    let pd0 = CompanyDetailsView { merged: Some(true), ..details(v, p) };
    lemma_with_details_wf(v, p, pd0);
    let v1 = with_details(v, p, pd0);
    let pd = details(v1, p);
    let cd = details(v1, c);
    let cd2 = CompanyDetailsView {
        cash: (cd.cash + pd.cash) as i64,
        bonds: cd.bonds + pd.bonds,
        shares_held: if c != Company::EBRC { (cd.shares_held + 1) as usize } else { cd.shares_held },
        shares_remaining: if c != Company::EBRC { (cd.shares_remaining - 1) as usize } else { cd.shares_remaining },
        owned_privates: cd.owned_privates.push(p),
        ..cd
    };
    lemma_with_details_wf(v1, c, cd2);
    let v2 = with_details(v1, c, cd2);
    let v3 = EBRStateView {
        holdings: v.holdings.map_values(|hs: Seq<Company>| replace_company(hs, p, c)),
        ..v2
    };
    assert(state_wf(v3));
    lemma_end_turn_wf(v3);
}

/// Every action keeps the structural invariant of a position, on the inputs
/// it runs on (a bid has to fit the signed cash type).
pub proof fn lemma_execute_keeps_wf(v: EBRStateView, a: EBRAction)
    requires
        state_wf(v),
        execute_ok(v, a),
        a matches EBRAction::Bid(b) ==> b <= i64::MAX,
    ensures
        state_wf(spec_execute(v, a)),
{
    match a {
        EBRAction::Bid(b) => lemma_bid_wf(v, b),
        EBRAction::Pass => lemma_pass_wf(v),
        EBRAction::MoveCube(from, to) => lemma_move_cube_wf(v, from, to),
        EBRAction::StartPrivateAt(c, loc) => lemma_start_private_wf(v, c, loc),
        EBRAction::BuildTrack(loc) => lemma_build_track_wf(v, loc),
        EBRAction::IssueBond(c, b) => lemma_issue_bond_wf(v, c, b),
        EBRAction::Merge(p, c) => lemma_merge_wf(v, p, c),
        EBRAction::BuildPass => lemma_end_turn_wf(v),
        EBRAction::PassTakeResources => lemma_end_turn_wf(v),
        _ => {},
    }
}

} // verus!

verus! {

/// The shares of a company: those held by players and those still to sell.
pub open spec fn share_total(v: EBRStateView, c: Company) -> int {
    details(v, c).shares_held + details(v, c).shares_remaining
}

/// No action creates or destroys shares: a share sold at auction or on a
/// merge moves from the company's remaining shares to those held, and every
/// other action leaves both counts of every company alone. (The counts are
/// taken within the machine margins that `execute` runs in.)
pub proof fn lemma_shares_conserved(v: EBRStateView, a: EBRAction, c: Company)
    requires
        state_wf(v),
        bounded(v),
        execute_ok(v, a),
    ensures
        share_total(spec_execute(v, a), c) == share_total(v, c),
{
    crate::ebr::company::lemma_company_index(c);
    match a {
        EBRAction::Pass => {
            match v.stage {
                StageView::Auction { passed, .. } => {
                    if !(passed.len() < v.player_count - 2) {
                        lemma_sell_lot_shares(v, c);
                    }
                },
                _ => {},
            }
        },
        EBRAction::Merge(p, m) => {
            crate::ebr::company::lemma_company_index(p);
            crate::ebr::company::lemma_company_index(m);
            assert(v.company_details[m.spec_index()].shares_held <= COUNT_LIMIT);
        },
        EBRAction::MoveCube(from, to) => {
            if to == ChoosableAction::PayDividend {
                let ri = crate::ebr::transitions::first_space(v.action_cubes, from, true);
                let ai = crate::ebr::transitions::first_space(v.action_cubes, to, false);
                let v1 = EBRStateView {
                    active_player: v.next_player,
                    action_cubes: v.action_cubes.update(ri, false).update(ai, true),
                    ..v
                };
                lemma_dividend_shares(v1, c);
            }
        },
        EBRAction::StartPrivateAt(p, _) => crate::ebr::company::lemma_company_index(p),
        EBRAction::IssueBond(b, _) => crate::ebr::company::lemma_company_index(b),
        EBRAction::BuildTrack(_) => {
            match v.stage {
                StageView::BuildTrack { company, .. } => crate::ebr::company::lemma_company_index(company),
                _ => {},
            }
        },
        EBRAction::TakeResources(_) => {
            match v.stage {
                StageView::TakeResources { company, delivery_company, .. } => {
                    crate::ebr::company::lemma_company_index(company);
                    crate::ebr::company::lemma_company_index(delivery_company);
                },
                _ => {},
            }
        },
        _ => {},
    }
}

/// Selling the lot of an auction moves one of its shares from those
/// remaining to those held.
proof fn lemma_sell_lot_shares(v: EBRStateView, c: Company)
    requires
        state_wf(v),
        bounded(v),
        v.stage matches StageView::Auction { lot, current_bid, winning_bidder, .. } && details(v, lot).shares_remaining > 0
            && current_bid is Some && winning_bidder is Some,
    ensures
        share_total(spec_sell_lot(v), c) == share_total(v, c),
{
    crate::ebr::company::lemma_company_index(c);
    match v.stage {
        StageView::Auction { current_bid, lot, initial_auction, winning_bidder, .. } => {
            crate::ebr::company::lemma_company_index(lot);
            assert(v.company_details[lot.spec_index()].shares_held <= COUNT_LIMIT);
            let winner = winning_bidder.unwrap();
            let price = match current_bid { Some(b) => b as int, None => 0 };
            let d = details(v, lot);
            let d2 = CompanyDetailsView {
                shares_held: (d.shares_held + 1) as usize,
                shares_remaining: (d.shares_remaining - 1) as usize,
                cash: (d.cash + current_bid.unwrap()) as i64,
                ..d
            };
            let v1 = EBRStateView {
                holdings: v.holdings.update(winner as int, v.holdings[winner as int].push(lot)),
                player_cash: v.player_cash.update(winner as int, (v.player_cash[winner as int] - price) as i64),
                ..with_details(v, lot, d2)
            };
            assert(share_total(v1, c) == share_total(v, c));
            let v2 = if is_private(v1, lot) {
                let v1b = match lot.spec_next_private() {
                    Some(n) => with_details(v1, n, CompanyDetailsView { available: Some(true), ..details(v1, n) }),
                    None => v1,
                };
                if let Some(n) = lot.spec_next_private() {
                    crate::ebr::company::lemma_company_index(n);
                }
                assert(share_total(v1b, c) == share_total(v1, c));
                with_details(v1b, lot, CompanyDetailsView { available: Some(false), ..details(v1b, lot) })
            } else {
                v1
            };
            assert(share_total(v2, c) == share_total(v, c));
        },
        _ => {},
    }
}

/// A dividend round leaves every company's shares as they were.
proof fn lemma_dividend_shares(v: EBRStateView, c: Company)
    requires
        v.company_details.len() == COMPANY_COUNT,
    ensures
        share_total(spec_pay_dividend(v), c) == share_total(v, c),
{
    crate::ebr::company::lemma_company_index(c);
}

} // verus!

verus! {

/// The start of a game of one or more players under well-formed parameters
/// is a well-formed position.
pub proof fn lemma_init_wf(pc: u8, h: crate::ebr::params::EBRHyperparams)
    requires
        h.wf(),
        pc >= 1,
    ensures
        state_wf(crate::ebr::setup::spec_init_game(pc, h)),
{
    let v = crate::ebr::setup::spec_init_game(pc, h);
    assert forall|j: int| 0 <= j < v.track.len() implies interior(#[trigger] v.track[j].location) by {}
    assert forall|j: int| 0 <= j < COMPANY_COUNT implies (#[trigger] v.company_details[j].hq matches Some(x)
        ==> interior(x)) by {
        assert(h.company_fixed_details@[j] == v.company_fixed_details[j]);
    }
}

} // verus!
