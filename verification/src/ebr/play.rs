use vstd::prelude::*;
use crate::ebr::board::{Coordinate, Terrain, interior, on_board, spec_terrain, lemma_terrain_interior};
use crate::ebr::company::Company;
use crate::ebr::params::{COUNT_LIMIT, PARAM_LIMIT};
use crate::ebr::actions::{ChoosableAction, EBRAction};
use crate::ebr::state::{EBRStateView, StageView, CompanyDetailsView};
use crate::ebr::spec::{
    state_wf, bounded, details, is_private, attrs, merge_option, spec_min_bid, spec_can_auction, owned_candidate,
    narrow_candidate, spec_owned_cost, cash_ok, CASH_LIMIT,
};
use crate::ebr::transitions::{execute_ok, has_space, spec_execute};
use crate::ebr::permitted::{
    spec_permitted, auction_choices, move_choices, may_add, company_choices, start_choices, hex_of,
    build_choices, build_hexes, build_target, board_in_order, merge_list, merge_pred, all_pairs, as_build_track,
    as_issue, as_merge, as_take, choosable_of,
};
use crate::ebr::queries::lemma_attrs_small;

verus! {

/// The limits of the machine integers that a position must stay clear of
/// for every action to run: room for another piece of track, companies'
/// cash a build away from the bottom of the cash range, and room to count
/// another resource taken.
pub open spec fn machine_margins(v: EBRStateView) -> bool {
    &&& v.track.len() < COUNT_LIMIT
    &&& forall|i: int| 0 <= i < v.company_details.len() ==> #[trigger] v.company_details[i].cash >= PARAM_LIMIT - CASH_LIMIT
    &&& (v.stage matches StageView::TakeResources { taken_resources, .. } ==> taken_resources < 255)
}

/// The private companies, in the order they become available.
pub open spec fn listed_private(c: Company) -> bool {
    c == Company::GT || c == Company::NMFT || c == Company::NED || c == Company::MLM
}

/// `d` comes after `c` in the order of the private companies.
pub open spec fn later_private(c: Company, d: Company) -> bool {
    listed_private(c) && listed_private(d) && c.spec_index() < d.spec_index()
}

/// The lots of the opening auction.
pub open spec fn ipo_lot(c: Company) -> bool {
    c == Company::LW || c == Company::TMLC || c == Company::EBRC || c == Company::GT
}

/// `c` is `lot` or a lot after it in the opening auction.
pub open spec fn ipo_from(lot: Company, c: Company) -> bool {
    match lot {
        Company::LW => ipo_lot(c),
        Company::TMLC => c == Company::TMLC || c == Company::EBRC || c == Company::GT,
        Company::EBRC => c == Company::EBRC || c == Company::GT,
        Company::GT => c == Company::GT,
        _ => false,
    }
}

/// What the rules keep true of the private companies: only the listed
/// companies are private; one not yet sold still has its share; at most one
/// is up for sale, unsold, with every later one unsold too.
pub open spec fn privates_sound(v: EBRStateView) -> bool {
    &&& forall|c: Company| #[trigger] is_private(v, c) ==> listed_private(c)
    &&& forall|c: Company|
        #[trigger] is_private(v, c) && details(v, c).shares_held == 0 ==> details(v, c).shares_remaining > 0
    &&& forall|c: Company|
        #[trigger] is_private(v, c) && details(v, c).available == Some(true) ==> details(v, c).shares_held == 0
            && forall|d: Company| #[trigger] is_private(v, d) && later_private(c, d) ==> details(v, d).shares_held == 0
    &&& forall|c: Company, d: Company|
        #[trigger] is_private(v, c) && #[trigger] is_private(v, d) && details(v, c).available == Some(true)
            && details(v, d).available == Some(true) ==> c == d
}

/// What the rules keep true of the stage: a bid stands exactly when a bidder
/// does; the lot has a share to sell; a lot sold outside the opening is up
/// for sale; a fresh auction outside the opening, or the choice of a
/// private's headquarters, comes to a player with cash; and during the
/// opening, every lot still to come has its share and no private has been
/// sold or put up for sale.
pub open spec fn stage_sound(v: EBRStateView) -> bool {
    match v.stage {
        StageView::Auction { initial_auction, current_bid, lot, winning_bidder, .. } => {
            &&& (current_bid is Some <==> winning_bidder is Some)
            &&& details(v, lot).shares_remaining > 0
            &&& (!initial_auction && is_private(v, lot) ==> details(v, lot).available == Some(true))
            &&& (!initial_auction && current_bid is None ==> v.player_cash[v.next_player as int] >= 1)
            &&& (initial_auction ==> {
                &&& ipo_lot(lot)
                &&& forall|c: Company| #[trigger] ipo_from(lot, c) ==> details(v, c).shares_remaining > 0
                &&& forall|c: Company| #[trigger] is_private(v, c) ==> details(v, c).available != Some(true)
                &&& forall|c: Company| #[trigger] is_private(v, c) && !ipo_from(lot, c) ==> details(v, c).shares_held == 0
                &&& forall|c: Company| #[trigger] is_private(v, c) && c == Company::GT ==> details(v, c).shares_held == 0
            })
        },
        StageView::ChoosePrivateStart(c) => {
            &&& v.player_cash[v.next_player as int] >= 1
            &&& is_private(v, c)
            &&& details(v, c).available == Some(true)
        },
        _ => true,
    }
}

/// The invariant of play on top of the structural one.
pub open spec fn play_sound(v: EBRStateView) -> bool {
    privates_sound(v) && stage_sound(v)
}

proof fn lemma_move_choice(v: EBRStateView, k: int, a: EBRAction)
    requires
        move_choices(v, k).contains(a),
    ensures
        a matches EBRAction::MoveCube(from, to) && has_space(v.action_cubes, from, true) && may_add(v, to),
    decreases k,
{
    if k > 0 {
        let from = choosable_of((k - 1) / 6);
        let to = choosable_of((k - 1) % 6);
        let prev = move_choices(v, k - 1);
        let add = if from != to && has_space(v.action_cubes, from, true) && may_add(v, to) {
            seq![EBRAction::MoveCube(from, to)]
        } else {
            Seq::empty()
        };
        let i = choose|i: int| 0 <= i < move_choices(v, k).len() && move_choices(v, k)[i] == a;
        if i < prev.len() {
            assert(prev[i] == a);
            assert(prev.contains(a));
            lemma_move_choice(v, k - 1, a);
        } else {
            assert(add[i - prev.len()] == a);
        }
    }
}

proof fn lemma_company_choice(
    pred: spec_fn(Company) -> bool,
    make: spec_fn(Company) -> EBRAction,
    k: int,
    a: EBRAction,
)
    requires
        company_choices(pred, make, k).contains(a),
    ensures
        exists|c: Company| #[trigger] pred(c) && a == make(c),
    decreases k,
{
    if k > 0 {
        let c = Company::spec_from_index(k - 1);
        let prev = company_choices(pred, make, k - 1);
        let add = if pred(c) { seq![make(c)] } else { Seq::empty() };
        let i = choose|i: int| 0 <= i < company_choices(pred, make, k).len() && company_choices(pred, make, k)[i] == a;
        if i < prev.len() {
            assert(prev[i] == a);
            assert(prev.contains(a));
            lemma_company_choice(pred, make, k - 1, a);
        } else {
            assert(add[i - prev.len()] == a);
            assert(pred(c) && a == make(c));
        }
    }
}

proof fn lemma_start_choice(v: EBRStateView, c: Company, k: int, a: EBRAction)
    requires
        start_choices(v, c, k).contains(a),
    ensures
        a matches EBRAction::StartPrivateAt(c2, loc) && c2 == c && (spec_terrain(loc) == Terrain::Forest
            || spec_terrain(loc) == Terrain::Mountain),
    decreases k,
{
    if k > 0 {
        let loc = hex_of(k - 1);
        let prev = start_choices(v, c, k - 1);
        let add = if (spec_terrain(loc) == Terrain::Forest || spec_terrain(loc) == Terrain::Mountain)
            && !crate::ebr::permitted::hq_taken(v, loc) {
            seq![EBRAction::StartPrivateAt(c, loc)]
        } else {
            Seq::empty()
        };
        let i = choose|i: int| 0 <= i < start_choices(v, c, k).len() && start_choices(v, c, k)[i] == a;
        if i < prev.len() {
            assert(prev[i] == a);
            assert(prev.contains(a));
            lemma_start_choice(v, c, k - 1, a);
        } else {
            assert(add[i - prev.len()] == a);
        }
    }
}

proof fn lemma_delivery_choice(v: EBRStateView, c: Company, k: int, a: EBRAction)
    requires
        crate::ebr::permitted::delivery_choices(v, c, k).contains(a),
    ensures
        a is ChooseTakeResourcesCompany,
    decreases k,
{
    if k > 0 {
        let prev = crate::ebr::permitted::delivery_choices(v, c, k - 1);
        let s = crate::ebr::permitted::delivery_choices(v, c, k);
        let i = choose|i: int| 0 <= i < s.len() && s[i] == a;
        if i < prev.len() {
            assert(prev[i] == a);
            assert(prev.contains(a));
            lemma_delivery_choice(v, c, k - 1, a);
        }
    }
}

proof fn lemma_take_company_choice(v: EBRStateView, k: int, a: EBRAction)
    requires
        crate::ebr::permitted::take_company_choices(v, k).contains(a),
    ensures
        a is ChooseTakeResourcesCompany,
    decreases k,
{
    if k > 0 {
        let c = Company::spec_from_index(k - 1);
        let prev = crate::ebr::permitted::take_company_choices(v, k - 1);
        let s = crate::ebr::permitted::take_company_choices(v, k);
        let i = choose|i: int| 0 <= i < s.len() && s[i] == a;
        if i < prev.len() {
            assert(prev[i] == a);
            assert(prev.contains(a));
            lemma_take_company_choice(v, k - 1, a);
        } else {
            let d = crate::ebr::permitted::delivery_choices(v, c, 7);
            if d.len() > 0 {
                assert(d[i - prev.len()] == a);
                assert(d.contains(a));
                lemma_delivery_choice(v, c, 7, a);
            }
        }
    }
}

/// A hex that a company may build on is an interior hex.
proof fn lemma_build_target_interior(v: EBRStateView, c: Company, t: Coordinate)
    requires
        state_wf(v),
        build_target(v, c)(t),
    ensures
        interior(t),
{
    lemma_attrs_small(v, spec_terrain(t));
    assert(attrs(v, spec_terrain(t)).buildable);
    assert(spec_terrain(t) != Terrain::Nothing);
    lemma_terrain_interior(t);
}

/// Every action that the position permits can be executed: on a
/// well-formed, soundly played position of two or more players, clear of the
/// machine limits, every permitted action runs.
pub proof fn lemma_permitted_executable(v: EBRStateView, a: EBRAction)
    requires
        state_wf(v),
        bounded(v),
        machine_margins(v),
        v.player_count >= 2,
        spec_permitted(v).contains(a),
        play_sound(v),
    ensures
        execute_ok(v, a),
{
    assert(!v.terminal);
    match v.stage {
        StageView::Auction { initial_auction, current_bid, lot, winning_bidder, passed } => {
            let s = auction_choices(v, initial_auction, current_bid);
            let i = choose|i: int| 0 <= i < s.len() && s[i] == a;
            let cash = v.player_cash[v.next_player as int] as int;
            let low = match current_bid { Some(b) => b as int, None => -1 };
            if low < cash {
                let start = match current_bid { Some(b) => b as int + 1, None => 1 };
                let bids = Seq::new((cash - start + 1) as nat, |j: int| EBRAction::Bid((start + j) as usize));
                if i < bids.len() {
                    assert(bids[i] is Bid);
                    assert(a is Bid);
                    assert(execute_ok(v, a));
                } else {
                    assert(a == EBRAction::Bid(0) || (a == EBRAction::Pass && current_bid is Some));
                    assert(execute_ok(v, a));
                }
            } else {
                assert(a == EBRAction::Bid(0) || (a == EBRAction::Pass && (current_bid is Some || !initial_auction)));
                if a == EBRAction::Pass {
                    assert(current_bid is Some);
                    assert(winning_bidder is Some);
                }
                assert(execute_ok(v, a));
            }
        },
        StageView::ChooseAction => {
            let m = move_choices(v, 36);
            if m.len() > 0 {
                lemma_move_choice(v, 36, a);
            }
            assert(execute_ok(v, a));
        },
        StageView::ChoosePrivateStart(c) => {
            lemma_start_choice(v, c, 182, a);
            if let EBRAction::StartPrivateAt(_, loc) = a {
                lemma_terrain_interior(loc);
            }
            assert(execute_ok(v, a));
        },
        StageView::BuildTrack { company, completed_builds } => {
            let s = build_choices(v, company, completed_builds);
            let out = if is_private(v, company) { v.narrow_gauge_remaining == 0 } else { details(v, company).track_remaining == 0 };
            if !out && a != EBRAction::BuildPass {
                let hexes = build_hexes(v, company);
                let mapped = hexes.map_values(as_build_track());
                let i = choose|i: int| 0 <= i < s.len() && s[i] == a;
                assert(i < mapped.len());
                let t = hexes[i];
                assert(a == EBRAction::BuildTrack(t));
                board_in_order().lemma_filter_pred(build_target(v, company), i);
                lemma_build_target_interior(v, company, t);
                assert(cash_ok(v.company_details[company.spec_index()].cash));
                if !is_private(v, company) {
                    assert(owned_candidate(v, company, t));
                }
            }
            assert(execute_ok(v, a));
        },
        StageView::ChooseBond(c) => {
            let s = v.unissued_bonds.map_values(as_issue(c));
            let i = choose|i: int| 0 <= i < s.len() && s[i] == a;
            assert(v.unissued_bonds[i].face_value <= PARAM_LIMIT);
            assert(execute_ok(v, a));
        },
        StageView::ChooseMerge => {
            let ml = merge_list(v, v.next_player as int);
            let s = ml.map_values(as_merge());
            let i = choose|i: int| 0 <= i < s.len() && s[i] == a;
            all_pairs().lemma_filter_pred(merge_pred(v, v.next_player as int), i);
            assert(merge_option(v, v.next_player as int, ml[i].0, ml[i].1));
            assert(execute_ok(v, a));
        },
        StageView::ChooseAuctionCompany => {
            lemma_company_choice(
                crate::ebr::permitted::auction_pred(v),
                crate::ebr::permitted::as_auction_choice(),
                7,
                a,
            );
        },
        StageView::ChooseBuildCompany => {
            lemma_company_choice(
                crate::ebr::permitted::build_pred(v),
                crate::ebr::permitted::as_build_choice(),
                7,
                a,
            );
        },
        StageView::ChooseBondCompany => {
            lemma_company_choice(
                crate::ebr::permitted::bond_pred(v),
                crate::ebr::permitted::as_bond_choice(),
                7,
                a,
            );
        },
        StageView::ChooseTakeResourcesCompany => {
            lemma_take_company_choice(v, 7, a);
        },
        StageView::TakeResources { company, taken_resources, .. } => {
            let hexes = crate::ebr::spec::spec_accessible_resources(v, company);
            let mapped = hexes.map_values(as_take());
            let s = spec_permitted(v);
            let i = choose|i: int| 0 <= i < s.len() && s[i] == a;
            if i < mapped.len() {
                assert(a == EBRAction::TakeResources(hexes[i]));
            }
        },
    }
}

/// A change that leaves the private companies' shares and availability
/// alone keeps what the rules keep true of them.
proof fn lemma_privates_same(v: EBRStateView, w: EBRStateView)
    requires
        privates_sound(v),
        w.company_fixed_details == v.company_fixed_details,
        forall|c: Company| #[trigger] is_private(v, c) ==> {
            &&& details(w, c).shares_held == details(v, c).shares_held
            &&& details(w, c).shares_remaining == details(v, c).shares_remaining
            &&& details(w, c).available == details(v, c).available
        },
    ensures
        privates_sound(w),
{
    assert forall|c: Company| #[trigger] is_private(w, c) implies is_private(v, c) by {}
}

proof fn lemma_details_of_with(v: EBRStateView, x: Company, d: CompanyDetailsView, c: Company)
    requires
        v.company_details.len() == 7,
    ensures
        details(crate::ebr::transitions::with_details(v, x, d), c) == if c == x { d } else { details(v, c) },
        crate::ebr::transitions::with_details(v, x, d).company_details.len() == 7,
        crate::ebr::transitions::with_details(v, x, d).company_fixed_details == v.company_fixed_details,
{
    crate::ebr::company::lemma_company_index(x);
    crate::ebr::company::lemma_company_index(c);
}

proof fn lemma_sell_privates(v: EBRStateView, v1: EBRStateView, lot: Company, initial: bool)
    requires
        state_wf(v),
        privates_sound(v),
        v1.company_fixed_details == v.company_fixed_details,
        v1.company_details.len() == 7,
        forall|c: Company| c != lot ==> #[trigger] details(v1, c) == details(v, c),
        details(v1, lot).shares_held > 0,
        details(v1, lot).available == details(v, lot).available,
        is_private(v, lot) ==> listed_private(lot),
        is_private(v, lot) && !initial ==> details(v, lot).available == Some(true),
        is_private(v, lot) && initial ==> lot == Company::GT && forall|c: Company| #[trigger] is_private(v, c)
            ==> details(v, c).available != Some(true) && (c != Company::GT ==> details(v, c).shares_held == 0),
    ensures
        privates_sound(if is_private(v1, lot) {
            let v1b = match lot.spec_next_private() {
                Some(n) => crate::ebr::transitions::with_details(
                    v1,
                    n,
                    CompanyDetailsView { available: Some(true), ..details(v1, n) },
                ),
                None => v1,
            };
            crate::ebr::transitions::with_details(
                v1b,
                lot,
                CompanyDetailsView { available: Some(false), ..details(v1b, lot) },
            )
        } else {
            v1
        }),
{
    crate::ebr::company::lemma_company_index(lot);
    if is_private(v1, lot) {
        let v1b = match lot.spec_next_private() {
            Some(n) => crate::ebr::transitions::with_details(
                v1,
                n,
                CompanyDetailsView { available: Some(true), ..details(v1, n) },
            ),
            None => v1,
        };
        let v2 = crate::ebr::transitions::with_details(
            v1b,
            lot,
            CompanyDetailsView { available: Some(false), ..details(v1b, lot) },
        );
        let nx = lot.spec_next_private();
        assert forall|c: Company| #[trigger] details(v2, c) == if c == lot {
            CompanyDetailsView { available: Some(false), ..details(v1b, lot) }
        } else if Some(c) == nx {
            CompanyDetailsView { available: Some(true), ..details(v1, c) }
        } else {
            details(v, c)
        } by {
            match nx {
                Some(n) => {
                    lemma_details_of_with(v1, n, CompanyDetailsView { available: Some(true), ..details(v1, n) }, c);
                    lemma_details_of_with(v1, n, CompanyDetailsView { available: Some(true), ..details(v1, n) }, lot);
                },
                None => {},
            }
            lemma_details_of_with(v1b, lot, CompanyDetailsView { available: Some(false), ..details(v1b, lot) }, c);
        }
        if let Some(n) = nx {
            assert(n != lot);
            lemma_details_of_with(v1, n, CompanyDetailsView { available: Some(true), ..details(v1, n) }, lot);
        }
        lemma_details_of_with(v1b, lot, CompanyDetailsView { available: Some(false), ..details(v1b, lot) }, lot);
        assert(v2.company_fixed_details == v.company_fixed_details) by {
            if let Some(n) = nx {
                lemma_details_of_with(v1, n, CompanyDetailsView { available: Some(true), ..details(v1, n) }, lot);
            }
        }
        assert(forall|c: Company| #[trigger] is_private(v2, c) == is_private(v, c));
        assert(details(v2, lot).shares_held > 0);
        assert(details(v2, lot).available == Some(false));
        // Only the next private can be up for sale afterwards.
        assert forall|c: Company| #[trigger] is_private(v2, c) && details(v2, c).available == Some(true)
            implies Some(c) == nx by {
            if Some(c) != nx {
                assert(c != lot);
                assert(details(v2, c) == details(v, c));
                assert(is_private(v, c));
                assert(is_private(v, lot));
                if !initial {
                    assert(details(v, lot).available == Some(true));
                    assert(c == lot);
                } else {
                    assert(details(v, c).available != Some(true));
                }
            }
        }
        assert forall|c: Company| #[trigger] is_private(v2, c) && details(v2, c).shares_held == 0
            implies details(v2, c).shares_remaining > 0 by {
            if c != lot {
                assert(details(v1, c) == details(v, c));
            }
        }
        assert forall|c: Company| #[trigger] is_private(v2, c) && details(v2, c).available == Some(true)
            implies details(v2, c).shares_held == 0 && forall|e: Company|
            #[trigger] is_private(v2, e) && later_private(c, e) ==> details(v2, e).shares_held == 0 by {
            assert(Some(c) == nx);
            assert(later_private(lot, c));
            assert(c != lot);
            assert(details(v1, c) == details(v, c));
            assert(is_private(v, c));
            assert(is_private(v, lot));
            if !initial {
                assert(details(v, lot).available == Some(true));
                assert(details(v, c).shares_held == 0);
            } else {
                assert(c != Company::GT);
                assert(details(v, c).shares_held == 0);
            }
            assert forall|e: Company| #[trigger] is_private(v2, e) && later_private(c, e) implies details(v2, e).shares_held == 0 by {
                assert(later_private(lot, e));
                assert(e != lot && Some(e) != nx);
                assert(details(v2, e) == details(v, e));
                assert(is_private(v, e));
                if !initial {
                    assert(details(v, lot).available == Some(true));
                } else {
                    assert(e != Company::GT);
                }
            }
        }
        assert forall|c: Company, e: Company|
            #[trigger] is_private(v2, c) && #[trigger] is_private(v2, e) && details(v2, c).available == Some(true)
            && details(v2, e).available == Some(true) implies c == e by {
            assert(Some(c) == nx);
            assert(Some(e) == nx);
        }
        assert(privates_sound(v2));
    } else {
        assert forall|c: Company| #[trigger] is_private(v, c) implies {
            &&& details(v1, c).shares_held == details(v, c).shares_held
            &&& details(v1, c).shares_remaining == details(v, c).shares_remaining
            &&& details(v1, c).available == details(v, c).available
        } by {
            assert(c != lot);
        }
        lemma_privates_same(v, v1);
    }
}

proof fn lemma_sell_sound(v: EBRStateView)
    requires
        state_wf(v),
        bounded(v),
        play_sound(v),
        execute_ok(v, EBRAction::Pass),
        v.stage matches StageView::Auction { passed, current_bid, .. } && passed.len() >= v.player_count - 2
            && current_bid is Some,
    ensures
        play_sound(crate::ebr::transitions::spec_sell_lot(v)),
{
    if let StageView::Auction { current_bid, lot, initial_auction, winning_bidder, .. } = v.stage {
        let w = crate::ebr::transitions::spec_sell_lot(v);
        let winner = winning_bidder.unwrap();
        let price = match current_bid { Some(b) => b as int, None => 0 };
        let d = details(v, lot);
        let d2 = CompanyDetailsView {
            shares_held: (d.shares_held + 1) as usize,
            shares_remaining: (d.shares_remaining - 1) as usize,
            cash: (d.cash + current_bid.unwrap()) as i64,
            ..d
        };
        let v0 = crate::ebr::transitions::with_details(v, lot, d2);
        let v1 = EBRStateView {
            holdings: v.holdings.update(winner as int, v.holdings[winner as int].push(lot)),
            player_cash: v.player_cash.update(winner as int, (v.player_cash[winner as int] - price) as i64),
            ..v0
        };
        crate::ebr::company::lemma_company_index(lot);
        assert forall|c: Company| c != lot implies #[trigger] details(v1, c) == details(v, c) by {
            crate::ebr::company::lemma_company_index(c);
        }
        if is_private(v, lot) && initial_auction {
            assert(listed_private(lot));
            assert(ipo_lot(lot));
            assert(lot == Company::GT);
            assert forall|c: Company| #[trigger] is_private(v, c) implies details(v, c).available != Some(true)
                && (c != Company::GT ==> details(v, c).shares_held == 0) by {
                if c != Company::GT {
                    assert(!ipo_from(lot, c));
                }
            }
        }
        lemma_sell_privates(v, v1, lot, initial_auction);
        let v2 = if is_private(v1, lot) {
            let v1b = match lot.spec_next_private() {
                Some(n) => crate::ebr::transitions::with_details(
                    v1,
                    n,
                    CompanyDetailsView { available: Some(true), ..details(v1, n) },
                ),
                None => v1,
            };
            crate::ebr::transitions::with_details(
                v1b,
                lot,
                CompanyDetailsView { available: Some(false), ..details(v1b, lot) },
            )
        } else {
            v1
        };
        assert(privates_sound(v2));
        assert(w.company_details == v2.company_details);
        assert(w.company_fixed_details == v2.company_fixed_details);
        lemma_privates_same(v2, w);
        if initial_auction && lot != Company::GT {
            assert(!is_private(v, lot)) by {
                if is_private(v, lot) {
                    assert(listed_private(lot));
                }
            }
            let n = crate::ebr::transitions::next_ipo(lot);
            assert(ipo_from(lot, n) && n != lot);
            assert forall|c: Company| #[trigger] ipo_from(n, c) implies details(w, c).shares_remaining > 0 by {
                assert(ipo_from(lot, c) && c != lot);
            }
            assert forall|c: Company| #[trigger] is_private(w, c) implies details(w, c).available != Some(true) by {
                assert(is_private(v, c) && c != lot);
            }
            assert forall|c: Company| #[trigger] is_private(w, c) && !ipo_from(n, c) implies details(w, c).shares_held == 0 by {
                assert(is_private(v, c) && c != lot);
            }
            assert forall|c: Company| #[trigger] is_private(w, c) && c == Company::GT implies details(w, c).shares_held == 0 by {
                assert(is_private(v, c) && c != lot);
                assert(ipo_from(lot, c));
            }
        }
    }
}

proof fn lemma_auction_keeps_sound(v: EBRStateView, a: EBRAction)
    requires
        state_wf(v),
        bounded(v),
        play_sound(v),
        machine_margins(v),
        v.player_count >= 2,
        !v.terminal,
        v.stage is Auction,
        spec_permitted(v).contains(a),
    ensures
        play_sound(spec_execute(v, a)),
{
    lemma_permitted_executable(v, a);
    let w = spec_execute(v, a);
    if let StageView::Auction { initial_auction, current_bid, lot, winning_bidder, passed } = v.stage {
        let s = auction_choices(v, initial_auction, current_bid);
        let i = choose|i: int| 0 <= i < s.len() && s[i] == a;
        let cash = v.player_cash[v.next_player as int] as int;
        let low = match current_bid { Some(b) => b as int, None => -1 };
        if low < cash {
            let start = match current_bid { Some(b) => b as int + 1, None => 1 };
            let bids = Seq::new((cash - start + 1) as nat, |j: int| EBRAction::Bid((start + j) as usize));
            if i < bids.len() {
                assert(bids[i] is Bid);
            }
        }
        if a == EBRAction::Pass {
            assert(current_bid is Some);
            if passed.len() < v.player_count - 2 {
                lemma_privates_same(v, w);
                assert(w.company_details == v.company_details);
                assert(forall|c: Company| #[trigger] is_private(w, c) == is_private(v, c));
                assert(forall|c: Company| #[trigger] details(w, c) == details(v, c));
                assert(stage_sound(w));
            } else {
                lemma_sell_sound(v);
                assert(w == crate::ebr::transitions::spec_sell_lot(v));
            }
        } else {
            assert(a is Bid);
            lemma_privates_same(v, w);
            assert(w.company_details == v.company_details);
            assert(forall|c: Company| #[trigger] is_private(w, c) == is_private(v, c));
            assert(forall|c: Company| #[trigger] details(w, c) == details(v, c));
            assert(stage_sound(w));
        }
    }
}

proof fn lemma_choose_action_keeps_sound(v: EBRStateView, a: EBRAction)
    requires
        state_wf(v),
        play_sound(v),
        !v.terminal,
        v.stage is ChooseAction,
        spec_permitted(v).contains(a),
    ensures
        play_sound(spec_execute(v, a)),
{
    let w = spec_execute(v, a);
    let m = move_choices(v, 36);
    if m.len() > 0 {
        lemma_move_choice(v, 36, a);
        if let EBRAction::MoveCube(from, to) = a {
            if to == ChoosableAction::PayDividend {
                let ri = crate::ebr::transitions::first_space(v.action_cubes, from, true);
                let ai = crate::ebr::transitions::first_space(v.action_cubes, to, false);
                let v1 = EBRStateView {
                    active_player: v.next_player,
                    action_cubes: v.action_cubes.update(ri, false).update(ai, true),
                    ..v
                };
                assert forall|c: Company| #[trigger] is_private(v, c) implies {
                    &&& details(w, c).shares_held == details(v, c).shares_held
                    &&& details(w, c).shares_remaining == details(v, c).shares_remaining
                    &&& details(w, c).available == details(v, c).available
                } by {
                    crate::ebr::company::lemma_company_index(c);
                    assert(details(w, c) == crate::ebr::dividend::with_undeferred_bonds(details(v1, c)));
                }
            }
            lemma_privates_same(v, w);
        }
    } else {
        lemma_privates_same(v, w);
    }
}

proof fn lemma_merge_keeps_sound(v: EBRStateView, a: EBRAction)
    requires
        state_wf(v),
        play_sound(v),
        !v.terminal,
        v.stage is ChooseMerge,
        spec_permitted(v).contains(a),
    ensures
        play_sound(spec_execute(v, a)),
{
    let w = spec_execute(v, a);
    let ml = merge_list(v, v.next_player as int);
    let s = ml.map_values(as_merge());
    let i = choose|i: int| 0 <= i < s.len() && s[i] == a;
    all_pairs().lemma_filter_pred(merge_pred(v, v.next_player as int), i);
    let (p, q) = ml[i];
    assert(merge_option(v, v.next_player as int, p, q));
    assert forall|c: Company| #[trigger] is_private(v, c) implies {
        &&& details(w, c).shares_held == details(v, c).shares_held
        &&& details(w, c).shares_remaining == details(v, c).shares_remaining
        &&& details(w, c).available == details(v, c).available
    } by {
        crate::ebr::company::lemma_company_index(c);
        crate::ebr::company::lemma_company_index(q);
        crate::ebr::company::lemma_company_index(p);
    }
    lemma_privates_same(v, w);
}

/// Every permitted action keeps the invariant of play.
pub proof fn lemma_permitted_keeps_sound(v: EBRStateView, a: EBRAction)
    requires
        state_wf(v),
        bounded(v),
        play_sound(v),
        machine_margins(v),
        v.player_count >= 2,
        spec_permitted(v).contains(a),
    ensures
        play_sound(spec_execute(v, a)),
{
    let w = spec_execute(v, a);
    assert(!v.terminal);
    match v.stage {
        StageView::Auction { .. } => {
            lemma_auction_keeps_sound(v, a);
        },
        StageView::ChooseAction => {
            lemma_choose_action_keeps_sound(v, a);
        },
        StageView::ChooseAuctionCompany => {
            lemma_company_choice(
                crate::ebr::permitted::auction_pred(v),
                crate::ebr::permitted::as_auction_choice(),
                7,
                a,
            );
            let c = choose|c: Company| #[trigger] crate::ebr::permitted::auction_pred(v)(c)
                && a == crate::ebr::permitted::as_auction_choice()(c);
            assert(spec_can_auction(v, c, v.player_cash[v.next_player as int] as int));
            assert(spec_min_bid(v, c) >= 1);
            lemma_privates_same(v, w);
        },
        StageView::ChoosePrivateStart(c) => {
            lemma_start_choice(v, c, 182, a);
            lemma_privates_same(v, w);
        },
        StageView::ChooseMerge => {
            lemma_merge_keeps_sound(v, a);
        },
        StageView::BuildTrack { company, completed_builds } => {
            lemma_privates_same(v, w);
        },
        StageView::ChooseBond(c) => {
            lemma_privates_same(v, w);
        },
        StageView::ChooseBuildCompany => {
            lemma_company_choice(
                crate::ebr::permitted::build_pred(v),
                crate::ebr::permitted::as_build_choice(),
                7,
                a,
            );
            lemma_privates_same(v, w);
        },
        StageView::ChooseBondCompany => {
            lemma_company_choice(
                crate::ebr::permitted::bond_pred(v),
                crate::ebr::permitted::as_bond_choice(),
                7,
                a,
            );
            lemma_privates_same(v, w);
        },
        StageView::ChooseTakeResourcesCompany => {
            lemma_take_company_choice(v, 7, a);
            lemma_privates_same(v, w);
        },
        StageView::TakeResources { company, taken_resources, .. } => {
            let hexes = crate::ebr::spec::spec_accessible_resources(v, company);
            let mapped = hexes.map_values(as_take());
            let s = spec_permitted(v);
            let i = choose|i: int| 0 <= i < s.len() && s[i] == a;
            if i < mapped.len() {
                assert(a == EBRAction::TakeResources(hexes[i]));
            }
            lemma_privates_same(v, w);
        },
    }
}

/// Parameters under which the rules can be played soundly: only the listed
/// companies are private, and every lot of the opening auction and every
/// private company has a share to sell.
pub open spec fn params_sound(h: crate::ebr::params::EBRHyperparams) -> bool {
    &&& forall|c: Company| #[trigger] h.fixed(c).private ==> listed_private(c)
    &&& forall|c: Company| (ipo_lot(c) || h.fixed(c).private) ==> #[trigger] h.fixed(c).stock_available >= 1
}

/// The standard parameters are sound.
pub proof fn lemma_default_params_sound(h: crate::ebr::params::EBRHyperparams)
    requires
        crate::ebr::setup::is_default_hyperparams(h),
    ensures
        params_sound(h),
{
    assert forall|c: Company| #[trigger] h.fixed(c).private implies listed_private(c) by {
        crate::ebr::company::lemma_company_index(c);
    }
    assert forall|c: Company| (ipo_lot(c) || h.fixed(c).private) implies #[trigger] h.fixed(c).stock_available >= 1 by {
        crate::ebr::company::lemma_company_index(c);
    }
}

/// A game starts soundly under sound parameters.
pub proof fn lemma_init_sound(pc: u8, h: crate::ebr::params::EBRHyperparams)
    requires
        params_sound(h),
        h.wf(),
    ensures
        play_sound(crate::ebr::setup::spec_init_game(pc, h)),
{
    let v = crate::ebr::setup::spec_init_game(pc, h);
    assert forall|c: Company| #[trigger] details(v, c) == crate::ebr::setup::initial_details(h.fixed(c)) by {
        crate::ebr::company::lemma_company_index(c);
    }
    assert forall|c: Company| #[trigger] is_private(v, c) == h.fixed(c).private by {
        crate::ebr::company::lemma_company_index(c);
    }
    assert forall|c: Company| #[trigger] ipo_from(Company::LW, c) implies details(v, c).shares_remaining > 0 by {
        assert(h.fixed(c).stock_available >= 1);
    }
    assert forall|c: Company| #[trigger] is_private(v, c) && details(v, c).shares_held == 0
        implies details(v, c).shares_remaining > 0 by {
        assert(h.fixed(c).stock_available >= 1);
    }
    assert(privates_sound(v));
}

/// Every bid a position permits fits the signed cash type.
proof fn lemma_permitted_bid_small(v: EBRStateView, a: EBRAction)
    requires
        state_wf(v),
        bounded(v),
        !v.terminal,
        spec_permitted(v).contains(a),
        v.stage is Auction,
        a is Bid,
    ensures
        a->Bid_0 <= i64::MAX,
{
    if let StageView::Auction { initial_auction, current_bid, .. } = v.stage {
        let s = auction_choices(v, initial_auction, current_bid);
        let i = choose|i: int| 0 <= i < s.len() && s[i] == a;
        let cash = v.player_cash[v.next_player as int] as int;
        let low = match current_bid { Some(b) => b as int, None => -1 };
        assert(cash_ok(v.player_cash[v.next_player as int]));
        if low < cash {
            let start = match current_bid { Some(b) => b as int + 1, None => 1 };
            let bids = Seq::new((cash - start + 1) as nat, |j: int| EBRAction::Bid((start + j) as usize));
            if i < bids.len() {
                let x = start + i;
                assert(0 <= x <= CASH_LIMIT);
                assert((x as usize) <= i64::MAX);
                assert(a == EBRAction::Bid(x as usize));
            } else {
                assert(a == EBRAction::Bid(0));
            }
        } else {
            assert(a == EBRAction::Bid(0));
        }
    }
}

/// The rules can be played from any sound position: each permitted action
/// runs, and the position it leads to is again well formed and sound.
/// Together with `lemma_init_sound`, every game of two or more players
/// under sound parameters can be played by permitted actions for as long as
/// the machine margins hold.
pub proof fn lemma_play_step(v: EBRStateView, a: EBRAction)
    requires
        state_wf(v),
        bounded(v),
        play_sound(v),
        machine_margins(v),
        v.player_count >= 2,
        spec_permitted(v).contains(a),
    ensures
        execute_ok(v, a),
        state_wf(spec_execute(v, a)),
        play_sound(spec_execute(v, a)),
{
    lemma_permitted_executable(v, a);
    lemma_permitted_keeps_sound(v, a);
    if a is Bid {
        lemma_permitted_bid_small(v, a);
    }
    crate::ebr::laws::lemma_execute_keeps_wf(v, a);
}

} // verus!

verus! {

/// The position reached from the start of a game of `pc` players under `h`
/// by playing `moves` in turn: none unless each move was permitted where it
/// was played, at a position within the machine margins.
pub open spec fn played(pc: u8, h: crate::ebr::params::EBRHyperparams, moves: Seq<EBRAction>) -> Option<EBRStateView>
    decreases moves.len(),
{
    if moves.len() == 0 {
        Some(crate::ebr::setup::spec_init_game(pc, h))
    } else {
        match played(pc, h, moves.drop_last()) {
            Some(v) => if bounded(v) && machine_margins(v) && spec_permitted(v).contains(moves.last()) {
                Some(spec_execute(v, moves.last()))
            } else {
                None
            },
            None => None,
        }
    }
}

/// Every position that permitted moves reach from the start of a game of two
/// or more players under sound parameters is well formed and soundly played.
pub proof fn lemma_played_sound(pc: u8, h: crate::ebr::params::EBRHyperparams, moves: Seq<EBRAction>)
    requires
        h.wf(),
        params_sound(h),
        pc >= 2,
        played(pc, h, moves) is Some,
    ensures
        state_wf(played(pc, h, moves)->0),
        play_sound(played(pc, h, moves)->0),
        played(pc, h, moves)->0.player_count == pc,
    decreases moves.len(),
{
    if moves.len() == 0 {
        crate::ebr::laws::lemma_init_wf(pc, h);
        lemma_init_sound(pc, h);
    } else {
        lemma_played_sound(pc, h, moves.drop_last());
        let v = played(pc, h, moves.drop_last())->0;
        lemma_play_step(v, moves.last());
        assert(spec_execute(v, moves.last()).player_count == v.player_count);
    }
}

/// Shares are neither created nor lost in play: at every position that
/// permitted moves reach from the start of a game of two or more players
/// under sound parameters, each company's shares held and shares remaining
/// add up to what they did at the start.
pub proof fn lemma_played_shares(
    pc: u8,
    h: crate::ebr::params::EBRHyperparams,
    moves: Seq<EBRAction>,
    c: Company,
)
    requires
        h.wf(),
        params_sound(h),
        pc >= 2,
        played(pc, h, moves) is Some,
    ensures
        crate::ebr::laws::share_total(played(pc, h, moves)->0, c)
            == crate::ebr::laws::share_total(crate::ebr::setup::spec_init_game(pc, h), c),
    decreases moves.len(),
{
    if moves.len() > 0 {
        lemma_played_shares(pc, h, moves.drop_last(), c);
        lemma_played_sound(pc, h, moves.drop_last());
        let v = played(pc, h, moves.drop_last())->0;
        lemma_play_step(v, moves.last());
        crate::ebr::laws::lemma_shares_conserved(v, moves.last(), c);
    }
}

} // verus!
