use vstd::prelude::*;
use crate::ebr::board::{Coordinate, Terrain, same_coord, get_neighbors, spec_neighbors, terrain_at, spec_terrain, on_board, interior, WIDTH, HEIGHT};
use crate::ebr::company::{Company, COMPANY_COUNT};
use crate::ebr::params::{Bond, COUNT_LIMIT, PARAM_LIMIT};
use crate::ebr::actions::{ChoosableAction, EBRAction, ACTION_CUBE_SPACES};
use crate::ebr::state::{
    EBRState, EBRStateView, Stage, StageView, CompanyDetails, CompanyDetailsView, Track, TrackType,
    BondDetails, EndGameReason, copy_vec,
};
use crate::ebr::spec::{state_wf, bounded, details, fixed, is_private, cash_ok, CASH_LIMIT};
use crate::ebr::transitions::{spec_execute_build_track, spec_execute_issue_bond, spec_execute_merge, spec_execute_take_resources, replace_company, bond_differs, coord_differs, take_bonus, take_income,
    spec_sell_lot, spec_execute_pass, with_passed, next_ipo, first_space, has_space, cubes_around, spec_execute_start_private_at, spec_execute_move_cube};
use crate::ebr::network::coord_in;
use crate::ebr::spec::{track_of_type_at, owns_terrain};
use crate::ebr::transitions::{
    seat, is_first_unpassed, first_unpassed, lemma_seat_step, lemma_seat_covers,
    lemma_first_unpassed_unique, end_turn, with_details, fresh_auction, spec_execute,
    spec_execute_bid, execute_ok,
};
use crate::seqs::lemma_unique_within;

verus! {

/// Whether `x` occurs in `v`.
pub fn u8_in(v: &Vec<u8>, x: u8) -> (r: bool)
    ensures
        r == v@.contains(x),
{
    let mut i: usize = 0;
    while i < v.len()
        invariant
            i <= v.len(),
            forall|j: int| 0 <= j < i ==> v@[j] != x,
        decreases v.len() - i,
    {
        if v[i] == x {
            return true;
        }
        i += 1;
    }
    false
}

/// The first player after `from`, in turn order, who has not passed.
pub fn first_unpassed_after(pc: u8, passed: &Vec<u8>, from: u8) -> (r: u8)
    requires
        1 <= pc,
        from < pc,
        passed.len() < pc,
        passed@.no_duplicates(),
        forall|i: int| 0 <= i < passed.len() ==> #[trigger] passed@[i] < pc,
    ensures
        r < pc,
        r == first_unpassed(pc as int, passed@, from as int),
{
    let mut next: u8 = (from + 1) % pc;
    let mut k: u8 = 1;
    proof { lemma_seat_step(pc as int, from as int, 0); }
    while u8_in(passed, next)
        invariant
            1 <= pc,
            from < pc,
            passed.len() < pc,
            passed@.no_duplicates(),
            forall|i: int| 0 <= i < passed.len() ==> #[trigger] passed@[i] < pc,
            1 <= k <= pc,
            next == seat(pc as int, from as int, k as int),
            forall|j: int| 1 <= j < k ==> passed@.contains(#[trigger] seat(pc as int, from as int, j) as u8),
        decreases pc - k,
    {
        proof {
            lemma_seat_step(pc as int, from as int, k as int);
            if k == pc {
                let all = Seq::new(pc as nat, |i: int| i as u8);
                assert forall|i: int| 0 <= i < all.len() implies passed@.contains(#[trigger] all[i]) by {
                    lemma_seat_covers(pc as int, from as int, i);
                    let j = if i > from { i - from } else { i - from + pc };
                    assert(seat(pc as int, from as int, j) == i);
                    if j < k {
                        assert(passed@.contains(seat(pc as int, from as int, j) as u8));
                    }
                }
                assert(all.no_duplicates());
                lemma_unique_within(all, passed@);
                assert(false);
            }
        }
        next = (next + 1) % pc;
        k = k + 1;
    }
    proof {
        lemma_seat_step(pc as int, from as int, k as int);
        assert(is_first_unpassed(pc as int, passed@, from as int, next as int));
        let r2 = first_unpassed(pc as int, passed@, from as int);
        lemma_first_unpassed_unique(pc as int, passed@, from as int, next as int, r2);
    }
    next
}

/// Replaces the details of `c`.
fn set_details(state: &mut EBRState, c: Company, d: CompanyDetails)
    requires
        old(state).company_details.len() == COMPANY_COUNT,
    ensures
        final(state)@ == with_details(old(state)@, c, d@),
        final(state).company_details.len() == COMPANY_COUNT,
{
    let ghost dv = d@;
    let i = c.index();
    state.company_details.set(i, d);
    assert(state@.company_details =~= old(state)@.company_details.update(c.spec_index(), dv));
}

/// Replaces the holdings of player `p`.
fn set_holdings(state: &mut EBRState, p: usize, h: Vec<Company>)
    requires
        p < old(state).holdings.len(),
    ensures
        final(state)@ == (EBRStateView { holdings: old(state)@.holdings.update(p as int, h@), ..old(state)@ }),
        final(state).holdings.len() == old(state).holdings.len(),
{
    let ghost hv = h@;
    state.holdings.set(p, h);
    assert(state@.holdings =~= old(state)@.holdings.update(p as int, hv));
}

/// Index of the first action space of action `a` whose occupation is `occupied`.
/// `hs` with every `from` replaced by `to`.
fn replace_in(hs: &Vec<Company>, from: Company, to: Company) -> (r: Vec<Company>)
    ensures
        r@ == replace_company(hs@, from, to),
{
    let mut r: Vec<Company> = Vec::new();
    let mut i: usize = 0;
    while i < hs.len()
        invariant
            i <= hs.len(),
            r.len() == i,
            forall|j: int| 0 <= j < i ==> #[trigger] r@[j] == (if hs@[j] != from { hs@[j] } else { to }),
        decreases hs.len() - i,
    {
        let c = hs[i];
        if c != from {
            r.push(c);
        } else {
            r.push(to);
        }
        i += 1;
    }
    assert(r@ =~= replace_company(hs@, from, to));
    r
}

fn find_space(cubes: &[bool; 11], a: ChoosableAction, occupied: bool) -> (r: usize)
    requires
        has_space(cubes@, a, occupied),
    ensures
        r < 11,
        r == first_space(cubes@, a, occupied),
{
    let mut i: usize = 0;
    while i < 11
        invariant
            i <= 11,
            has_space(cubes@, a, occupied),
            forall|j: int| 0 <= j < i ==> !(cubes@[j] == occupied && #[trigger] ACTION_CUBE_SPACES@[j] == a),
        decreases 11 - i,
    {
        if cubes[i] == occupied && ACTION_CUBE_SPACES[i] == a {
            proof {
                let f = first_space(cubes@, a, occupied);
                let w = choose|w: int| 0 <= w < 11 && cubes@[w] == occupied && #[trigger] ACTION_CUBE_SPACES@[w] == a;
                assert(0 <= f < 11 && cubes@[f] == occupied && ACTION_CUBE_SPACES@[f] == a && forall|j: int|
                    0 <= j < f ==> !(cubes@[j] == occupied && #[trigger] ACTION_CUBE_SPACES@[j] == a)) by {
                    let m = i as int;
                    assert(0 <= m < 11 && cubes@[m] == occupied && ACTION_CUBE_SPACES@[m] == a && forall|j: int|
                        0 <= j < m ==> !(cubes@[j] == occupied && #[trigger] ACTION_CUBE_SPACES@[j] == a));
                }
                if f < i {
                } else if f > i {
                    assert(!(cubes@[i as int] == occupied && ACTION_CUBE_SPACES@[i as int] == a));
                }
            }
            return i;
        }
        i += 1;
    }
    proof {
        let w = choose|w: int| 0 <= w < 11 && cubes@[w] == occupied && #[trigger] ACTION_CUBE_SPACES@[w] == a;
    }
    0
}

impl EBRAction {
    pub fn execute_stalemate(&self, state: &EBRState) -> (r: EBRState)
        ensures
            r@ == spec_execute(state@, EBRAction::Stalemate),
    {
        let mut state = state.clone();
        state.terminal = true;
        state.end_game_reason = EndGameReason::Stalemate;
        state
    }

    pub fn execute_bid(&self, state: &EBRState, bid: &usize) -> (r: EBRState)
        requires
            state_wf(state@),
            execute_ok(state@, EBRAction::Bid(*bid)),
        ensures
            r@ == spec_execute(state@, EBRAction::Bid(*bid)),
    {
        let mut state = state.clone();
        let actor = state.next_player;
        let next = match &state.stage {
            Stage::Auction { passed, .. } => first_unpassed_after(state.player_count, passed, actor),
            _ => { proof { assert(false); } 0 },
        };
        let stage = match &state.stage {
            Stage::Auction { lot, initial_auction, passed, .. } => Stage::Auction {
                current_bid: Some(*bid as i64),
                lot: *lot,
                initial_auction: *initial_auction,
                winning_bidder: Some(actor),
                passed: copy_vec(passed),
            },
            _ => Stage::ChooseAction,
        };
        state.stage = stage;
        state.next_player = next;
        state
    }

    pub fn execute_choose_auction_company(&self, state: &EBRState, company: &Company) -> (r: EBRState)
        requires
            state_wf(state@),
        ensures
            r@ == spec_execute(state@, EBRAction::ChooseAuctionCompany(*company)),
    {
        let mut state = state.clone();
        if !state.company_fixed_details[company.index()].private {
            let passed: Vec<u8> = Vec::new();
            assert(passed@ =~= Seq::<u8>::empty());
            state.stage = Stage::Auction {
                initial_auction: false,
                current_bid: None,
                lot: *company,
                winning_bidder: None,
                passed,
            };
        } else {
            state.stage = Stage::ChoosePrivateStart(*company);
        }
        state
    }

    pub fn execute_choose_build_company(&self, state: &EBRState, company: &Company) -> (r: EBRState)
        ensures
            r@ == spec_execute(state@, EBRAction::ChooseBuildCompany(*company)),
    {
        let mut state = state.clone();
        state.stage = Stage::BuildTrack { company: *company, completed_builds: 0 };
        state
    }

    pub fn execute_build_pass(&self, state: &EBRState) -> (r: EBRState)
        requires
            state_wf(state@),
        ensures
            r@ == spec_execute(state@, EBRAction::BuildPass),
    {
        let mut state = state.clone();
        state.stage = Stage::ChooseAction;
        state.next_player = (state.active_player + 1) % state.player_count;
        state
    }

    pub fn execute_choose_bond_company(&self, state: &EBRState, company: &Company) -> (r: EBRState)
        ensures
            r@ == spec_execute(state@, EBRAction::ChooseBondCompany(*company)),
    {
        let mut state = state.clone();
        state.stage = Stage::ChooseBond(*company);
        state
    }

    pub fn execute_choose_take_resources_company(
        &self,
        state: &EBRState,
        company: &Company,
        delivery_company: &Option<Company>,
    ) -> (r: EBRState)
        ensures
            r@ == spec_execute(state@, EBRAction::ChooseTakeResourcesCompany(*company, *delivery_company)),
    {
        let mut state = state.clone();
        let dc = match delivery_company {
            Some(d) => *d,
            None => *company,
        };
        state.stage = Stage::TakeResources { company: *company, delivery_company: dc, taken_resources: 0 };
        state
    }

    pub fn execute_pass_take_resources(&self, state: &EBRState) -> (r: EBRState)
        requires
            state_wf(state@),
        ensures
            r@ == spec_execute(state@, EBRAction::PassTakeResources),
    {
        let mut state = state.clone();
        state.stage = Stage::ChooseAction;
        state.next_player = (state.active_player + 1) % state.player_count;
        state
    }

    pub fn execute_pass(&self, state: &EBRState) -> (r: EBRState)
        requires
            state_wf(state@),
            bounded(state@),
            execute_ok(state@, EBRAction::Pass),
        ensures
            r@ == spec_execute(state@, EBRAction::Pass),
    {
        let ghost v = state@;
        let mut state = state.clone();
        let (current_bid, lot, initial_auction, winning_bidder) = match &state.stage {
            Stage::Auction { current_bid, lot, initial_auction, winning_bidder, .. } => (
                *current_bid,
                *lot,
                *initial_auction,
                *winning_bidder,
            ),
            _ => {
                proof { assert(false); }
                return state;
            },
        };
        let passed_len = match &state.stage {
            Stage::Auction { passed, .. } => passed.len(),
            _ => 0,
        };
        if passed_len < (state.player_count - 2) as usize {
            let mut new_passed = match &state.stage {
                Stage::Auction { passed, .. } => copy_vec(passed),
                _ => Vec::new(),
            };
            let me = state.next_player;
            if !u8_in(&new_passed, me) {
                new_passed.push(me);
            }
            state.next_player = winning_bidder.unwrap();
            state.stage = Stage::Auction {
                initial_auction,
                lot,
                current_bid,
                winning_bidder,
                passed: new_passed,
            };
            return state;
        }
        let winner = winning_bidder.unwrap();
        let li = lot.index();
        assert(v.company_details[li as int] == state.company_details@[li as int]@);
        assert(v.holdings[winner as int] == state.holdings@[winner as int]@);
        assert(cash_ok(v.player_cash[winner as int]));
        assert(cash_ok(v.company_details[li as int].cash));
        let price = match current_bid {
            Some(b) => b,
            None => 0,
        };
        let mut h = copy_vec(&state.holdings[winner as usize]);
        h.push(lot);
        set_holdings(&mut state, winner as usize, h);
        let c = state.player_cash[winner as usize] - price;
        state.player_cash.set(winner as usize, c);
        let mut d = state.company_details[li].clone();
        d.shares_held = d.shares_held + 1;
        d.shares_remaining = d.shares_remaining - 1;
        d.cash = d.cash + current_bid.unwrap();
        set_details(&mut state, lot, d);
        proof {
            assert(state@.player_cash =~= v.player_cash.update(winner as int, (v.player_cash[winner as int] - price) as i64));
        }
        if state.company_fixed_details[li].private {
            match lot.next_private() {
                Some(n) => {
                    let mut nd = state.company_details[n.index()].clone();
                    nd.available = Some(true);
                    set_details(&mut state, n, nd);
                },
                None => {},
            }
            let mut ld = state.company_details[li].clone();
            ld.available = Some(false);
            set_details(&mut state, lot, ld);
        }
        if initial_auction {
            state.initial_auction_winners.set(li, Some(winner));
            if lot == Company::GT {
                state.stage = Stage::ChooseAction;
                state.next_player = winner;
            } else {
                let next_lot = match lot {
                    Company::LW => Company::TMLC,
                    Company::TMLC => Company::EBRC,
                    _ => Company::GT,
                };
                let passed: Vec<u8> = Vec::new();
                assert(passed@ =~= Seq::<u8>::empty());
                state.stage = Stage::Auction {
                    initial_auction: true,
                    current_bid: None,
                    lot: next_lot,
                    winning_bidder: None,
                    passed,
                };
            }
        } else {
            state.stage = Stage::ChooseAction;
            state.next_player = (state.active_player + 1) % state.player_count;
        }
        state
    }

    pub fn execute_move_cube(&self, state: &EBRState, from: &ChoosableAction, to: &ChoosableAction) -> (r: EBRState)
        requires
            state_wf(state@),
            bounded(state@),
            execute_ok(state@, EBRAction::MoveCube(*from, *to)),
        ensures
            r@ == spec_execute(state@, EBRAction::MoveCube(*from, *to)),
    {
        let ghost v = state@;
        let mut state = state.clone();
        state.active_player = state.next_player;
        let remove_idx = find_space(&state.action_cubes, *from, true);
        let add_idx = find_space(&state.action_cubes, *to, false);
        state.action_cubes[remove_idx] = false;
        state.action_cubes[add_idx] = true;
        proof {
            assert(state@.action_cubes =~= v.action_cubes.update(remove_idx as int, false).update(add_idx as int, true));
        }
        match to {
            ChoosableAction::AuctionShare => state.stage = Stage::ChooseAuctionCompany,
            ChoosableAction::PayDividend => state.pay_dividend(),
            ChoosableAction::BuildTrack => state.stage = Stage::ChooseBuildCompany,
            ChoosableAction::IssueBond => state.stage = Stage::ChooseBondCompany,
            ChoosableAction::Merge => state.stage = Stage::ChooseMerge,
            ChoosableAction::TakeResources => state.stage = Stage::ChooseTakeResourcesCompany,
        }
        state
    }

    pub fn execute_start_private_at(&self, state: &EBRState, company: &Company, location: &Coordinate) -> (r: EBRState)
        requires
            state_wf(state@),
            execute_ok(state@, EBRAction::StartPrivateAt(*company, *location)),
        ensures
            r@ == spec_execute(state@, EBRAction::StartPrivateAt(*company, *location)),
    {
        let ghost v = state@;
        let mut state = state.clone();
        let loc = *location;
        let mut d = state.company_details[company.index()].clone();
        d.hq = Some(loc);
        set_details(&mut state, *company, d);
        let passed: Vec<u8> = Vec::new();
        assert(passed@ =~= Seq::<u8>::empty());
        state.stage = Stage::Auction {
            initial_auction: false,
            current_bid: None,
            lot: *company,
            winning_bidder: None,
            passed,
        };
        if !state.has_track_at(loc, TrackType::Narrow) {
            state.track.push(Track { location: loc, track_type: TrackType::Narrow });
        }
        let neighbors = get_neighbors(loc);
        let ghost hexes = spec_neighbors(loc).push(loc);
        let ghost start = state@.resource_cubes;
        let ghost mid = state@;
        let mut i: usize = 0;
        while i < 7
            invariant
                i <= 7,
                state@ == (EBRStateView { resource_cubes: state@.resource_cubes, ..mid }),
                neighbors@ == spec_neighbors(loc),
                hexes == spec_neighbors(loc).push(loc),
                state@.resource_cubes == start + cubes_around(hexes.take(i as int)),
            decreases 7 - i,
        {
            let h = if i < 6 { neighbors[i] } else { loc };
            assert(h == hexes[i as int]);
            assert(hexes.take(i + 1).drop_last() =~= hexes.take(i as int));
            assert(hexes.take(i + 1).last() == h);
            let ghost before = state@.resource_cubes;
            if h.0 < WIDTH && h.1 < HEIGHT {
                let terrain = terrain_at(h);
                match terrain {
                    Terrain::Forest => {
                        state.resource_cubes.push(h);
                    },
                    Terrain::Mountain => {
                        state.resource_cubes.push(h);
                        state.resource_cubes.push(h);
                    },
                    _ => {},
                }
            }
            proof {
                assert(cubes_around(hexes.take(i + 1)) == cubes_around(hexes.take(i as int)) + (if !on_board(h) {
                    Seq::<Coordinate>::empty()
                } else if spec_terrain(h) == Terrain::Forest {
                    seq![h]
                } else if spec_terrain(h) == Terrain::Mountain {
                    seq![h, h]
                } else {
                    Seq::<Coordinate>::empty()
                }));
                assert(state@.resource_cubes =~= start + cubes_around(hexes.take(i + 1)));
            }
            i += 1;
        }
        assert(hexes.take(7) =~= hexes);
        proof {
            let w = spec_execute_start_private_at(v, *company, loc);
            assert(start == v.resource_cubes);
            assert(state@.resource_cubes == w.resource_cubes);
            assert(state@.track == w.track);
            assert(state@.company_details == w.company_details);
            assert(state@.stage == w.stage);
        }
        state
    }

    pub fn execute_build_track(&self, state: &EBRState, location: &Coordinate) -> (r: EBRState)
        requires
            state_wf(state@),
            bounded(state@),
            execute_ok(state@, EBRAction::BuildTrack(*location)),
        ensures
            r@ == spec_execute(state@, EBRAction::BuildTrack(*location)),
    {
        let ghost v = state@;
        let mut state = state.clone();
        let (company, completed_builds) = match &state.stage {
            Stage::BuildTrack { company, completed_builds } => (*company, *completed_builds),
            _ => {
                proof { assert(false); }
                return state;
            },
        };
        let loc = *location;
        let ci = company.index();
        assert(v.company_details[ci as int] == state.company_details@[ci as int]@);
        let is_private = state.company_fixed_details[ci].private;
        let track_type;
        let cost;
        let mut d = state.company_details[ci].clone();
        if is_private {
            track_type = TrackType::Narrow;
            cost = state.narrow_cost(loc);
            state.narrow_gauge_remaining = state.narrow_gauge_remaining - 1;
        } else {
            track_type = TrackType::CompanyOwned(company);
            cost = state.owned_cost(loc, None);
            d.track_remaining = d.track_remaining - 1;
        }
        state.track.push(Track { location: loc, track_type });
        d.cash = d.cash - cost as i64;
        set_details(&mut state, company, d);
        let ghost v1 = state@;
        proof {
            assert(state_wf(v1)) by {
                assert forall|i: int| 0 <= i < v1.track.len() implies interior(#[trigger] v1.track[i].location) by {
                    if i < v.track.len() {
                        assert(v1.track[i] == v.track[i]);
                    }
                }
                assert forall|i: int| 0 <= i < COMPANY_COUNT implies (#[trigger] v1.company_details[i].hq matches Some(h) ==> interior(h)) by {
                    if i != ci {
                        assert(v1.company_details[i] == v.company_details[i]);
                    }
                }
                assert forall|i: int| 0 <= i < COMPANY_COUNT && #[trigger] v1.company_fixed_details[i].private
                    implies v1.company_details[i].available is Some by {
                    if i != ci {
                        assert(v1.company_details[i] == v.company_details[i]);
                    }
                }
            }
            assert(bounded(v1)) by {
                assert forall|i: int| 0 <= i < v1.company_details.len() implies {
                    let dd = #[trigger] v1.company_details[i];
                    &&& cash_ok(dd.cash)
                    &&& crate::ebr::spec::bonds_ok(dd.bonds)
                    &&& dd.owned_privates.len() <= COUNT_LIMIT
                    &&& dd.shares_held <= COUNT_LIMIT
                    &&& dd.shares_remaining <= COUNT_LIMIT
                    &&& dd.track_remaining <= COUNT_LIMIT
                } by {
                    if i != ci {
                        assert(v1.company_details[i] == v.company_details[i]);
                    }
                }
            }
        }
        if completed_builds < state.hyperparams.max_builds && state.can_build(company, state.next_player) {
            state.stage = Stage::BuildTrack { company, completed_builds: completed_builds + 1 };
        } else {
            state.stage = Stage::ChooseAction;
            state.next_player = (state.active_player + 1) % state.player_count;
        }
        proof {
            let w = spec_execute_build_track(v, loc);
            assert(v1.track == v.track.push(Track { location: loc, track_type: track_type }));
        }
        state
    }

    pub fn execute_issue_bond(&self, state: &EBRState, company: &Company, bond: &Bond) -> (r: EBRState)
        requires
            state_wf(state@),
            bounded(state@),
            execute_ok(state@, EBRAction::IssueBond(*company, *bond)),
        ensures
            r@ == spec_execute(state@, EBRAction::IssueBond(*company, *bond)),
    {
        let ghost v = state@;
        let mut state = state.clone();
        let ci = company.index();
        assert(v.company_details[ci as int] == state.company_details@[ci as int]@);
        assert(cash_ok(v.company_details[ci as int].cash));
        let mut d = state.company_details[ci].clone();
        d.cash = d.cash + bond.face_value as i64;
        d.bonds.push(BondDetails { bond: *bond, deferred: true });
        set_details(&mut state, *company, d);
        let mut kept: Vec<Bond> = Vec::new();
        let ghost pred = bond_differs(*bond);
        let mut i: usize = 0;
        while i < state.unissued_bonds.len()
            invariant
                i <= state.unissued_bonds.len(),
                pred == bond_differs(*bond),
                kept@ == state@.unissued_bonds.take(i as int).filter(pred),
            decreases state.unissued_bonds.len() - i,
        {
            proof { reveal_with_fuel(Seq::<_>::filter, 1); }
            assert(state@.unissued_bonds.take(i + 1).drop_last() =~= state@.unissued_bonds.take(i as int));
            let b = state.unissued_bonds[i];
            if b != *bond {
                kept.push(b);
            }
            i += 1;
        }
        assert(state@.unissued_bonds.take(state.unissued_bonds.len() as int) =~= state@.unissued_bonds);
        assert(state@.unissued_bonds == v.unissued_bonds);
        assert(kept@ == v.unissued_bonds.filter(pred));
        state.unissued_bonds = kept;
        state.stage = Stage::ChooseAction;
        state.next_player = (state.active_player + 1) % state.player_count;
        proof {
            let w = spec_execute_issue_bond(v, *company, *bond);
            assert(state@.unissued_bonds == w.unissued_bonds);
            assert(state@.company_details == w.company_details);
            assert(state@.stage == w.stage);
        }
        state
    }

    pub fn execute_merge(&self, state: &EBRState, private: &Company, company: &Company) -> (r: EBRState)
        requires
            state_wf(state@),
            bounded(state@),
            execute_ok(state@, EBRAction::Merge(*private, *company)),
        ensures
            r@ == spec_execute(state@, EBRAction::Merge(*private, *company)),
    {
        let ghost v = state@;
        let mut state = state.clone();
        let pi = private.index();
        let ci = company.index();
        assert(v.company_details[pi as int] == state.company_details@[pi as int]@);
        let mut pd = state.company_details[pi].clone();
        pd.merged = Some(true);
        let private_cash = pd.cash;
        let mut private_bonds = copy_vec(&pd.bonds);
        set_details(&mut state, *private, pd);
        let ghost v1 = state@;
        assert(v1.company_details[ci as int] == state.company_details@[ci as int]@);
        assert(cash_ok(v.company_details[ci as int].cash));
        assert(cash_ok(v.company_details[pi as int].cash));
        let mut cd = state.company_details[ci].clone();
        cd.cash = cd.cash + private_cash;
        cd.bonds.append(&mut private_bonds);
        if *company != Company::EBRC {
            cd.shares_held = cd.shares_held + 1;
            cd.shares_remaining = cd.shares_remaining - 1;
        }
        cd.owned_privates.push(*private);
        set_details(&mut state, *company, cd);
        let ghost v2 = state@;
        let mut i: usize = 0;
        while i < state.holdings.len()
            invariant
                i <= state.holdings.len(),
                state.holdings.len() == v.holdings.len(),
                state@ == (EBRStateView { holdings: state@.holdings, ..v2 }),
                v2.holdings == v.holdings,
                forall|j: int| 0 <= j < i ==> #[trigger] state@.holdings[j] == replace_company(v.holdings[j], *private, *company),
                forall|j: int| i <= j < v.holdings.len() ==> #[trigger] state@.holdings[j] == v.holdings[j],
            decreases state.holdings.len() - i,
        {
            assert(state@.holdings[i as int] == state.holdings@[i as int]@);
            let h = replace_in(&state.holdings[i], *private, *company);
            assert(h@ == replace_company(v.holdings[i as int], *private, *company));
            let ghost before = state@.holdings;
            set_holdings(&mut state, i, h);
            assert(state@.holdings == before.update(i as int, h@));
            i += 1;
        }
        assert(state@.holdings =~= v.holdings.map_values(|hs: Seq<Company>| replace_company(hs, *private, *company)));
        state.stage = Stage::ChooseAction;
        state.next_player = (state.active_player + 1) % state.player_count;
        state
    }

    pub fn execute_take_resources(&self, state: &EBRState, coordinate: &Coordinate) -> (r: EBRState)
        requires
            state_wf(state@),
            bounded(state@),
            execute_ok(state@, EBRAction::TakeResources(*coordinate)),
        ensures
            r@ == spec_execute(state@, EBRAction::TakeResources(*coordinate)),
            state@.stage matches StageView::TakeResources { company, delivery_company, .. } ==> forall|p: int|
                0 <= p < state@.player_count ==> #[trigger] r@.player_cash[p] == state@.player_cash[p] + take_income(
                    EBRStateView { resource_cubes: state@.resource_cubes.filter(coord_differs(*coordinate)), ..state@ },
                    state@.holdings[p],
                    company,
                    delivery_company,
                ),
    {
        let ghost v = state@;
        let mut state = state.clone();
        let (company, dc, taken) = match &state.stage {
            Stage::TakeResources { company, delivery_company, taken_resources } => (*company, *delivery_company, *taken_resources),
            _ => return state,
        };
        let mut kept: Vec<Coordinate> = Vec::new();
        let ghost pred = coord_differs(*coordinate);
        let mut i: usize = 0;
        while i < state.resource_cubes.len()
            invariant
                i <= state.resource_cubes.len(),
                pred == coord_differs(*coordinate),
                kept@ == state@.resource_cubes.take(i as int).filter(pred),
            decreases state.resource_cubes.len() - i,
        {
            proof { reveal_with_fuel(Seq::<_>::filter, 1); }
            assert(state@.resource_cubes.take(i + 1).drop_last() =~= state@.resource_cubes.take(i as int));
            let c = state.resource_cubes[i];
            if !same_coord(c, *coordinate) {
                kept.push(c);
            }
            i += 1;
        }
        assert(state@.resource_cubes.take(state.resource_cubes.len() as int) =~= state@.resource_cubes);
        state.resource_cubes = kept;
        let ghost v1 = state@;
        assert(v1 == (EBRStateView { resource_cubes: v.resource_cubes.filter(coord_differs(*coordinate)), ..v }));
        let port = state.has_port(dc);
        let town = state.has_town(dc);
        let take_dividend = state.hyperparams.take_dividend as i64;
        let port_dividend = state.hyperparams.take_port_deliver_dividend as i64;
        let town_dividend = state.hyperparams.take_town_deliver_dividend as i64;
        let mut cash: Vec<i64> = Vec::new();
        let pc = state.player_count as usize;
        let mut p: usize = 0;
        while p < pc
            invariant
                p <= pc,
                pc == v.player_count,
                state@ == v1,
                state_wf(v),
                bounded(v),
                v1.holdings == v.holdings,
                v1.player_cash == v.player_cash,
                v1.hyperparams == v.hyperparams,
                port == owns_terrain(v1, dc, Terrain::Port),
                town == owns_terrain(v1, dc, Terrain::Town),
                take_dividend == v.hyperparams.take_dividend,
                port_dividend == v.hyperparams.take_port_deliver_dividend,
                town_dividend == v.hyperparams.take_town_deliver_dividend,
                cash.len() == p,
                forall|q: int| 0 <= q < p ==> #[trigger] cash@[q] == v.player_cash[q] + take_income(v1, v.holdings[q], company, dc),
            decreases pc - p,
        {
            assert(state@.holdings[p as int] == state.holdings@[p as int]@);
            let hs = &state.holdings[p];
            assert(hs@.len() <= COUNT_LIMIT);
            let mut inc: i64 = 0;
            let mut j: usize = 0;
            while j < hs.len()
                invariant
                    j <= hs.len(),
                    hs.len() <= COUNT_LIMIT,
                    port == owns_terrain(v1, dc, Terrain::Port),
                    town == owns_terrain(v1, dc, Terrain::Town),
                    take_dividend == v1.hyperparams.take_dividend,
                    port_dividend == v1.hyperparams.take_port_deliver_dividend,
                    town_dividend == v1.hyperparams.take_town_deliver_dividend,
                    v1.hyperparams.wf(),
                    0 <= inc <= j * 12288,
                    inc == take_income(v1, hs@.take(j as int), company, dc),
                decreases hs.len() - j,
            {
                assert(hs@.take(j + 1).drop_last() =~= hs@.take(j as int));
                let c = hs[j];
                if c == company {
                    inc = inc + take_dividend;
                }
                if c == dc {
                    if port {
                        inc = inc + port_dividend;
                    } else if town {
                        inc = inc + town_dividend;
                    }
                }
                j += 1;
            }
            assert(hs@.take(hs.len() as int) =~= hs@);
            assert(cash_ok(v.player_cash[p as int]));
            cash.push(state.player_cash[p] + inc);
            p += 1;
        }
        assert(cash@ =~= Seq::new(
            v.player_count as nat,
            |q: int| (v.player_cash[q] + take_income(v1, v.holdings[q], company, dc)) as i64,
        ));
        state.player_cash = cash;
        state.stage = Stage::TakeResources { company, delivery_company: dc, taken_resources: taken + 1 };
        state
    }

    /// The position after this action.
    pub fn execute(&self, state: &EBRState) -> (r: EBRState)
        requires
            state_wf(state@),
            bounded(state@),
            execute_ok(state@, *self),
        ensures
            r@ == spec_execute(state@, *self),
    {
        match self {
            EBRAction::Stalemate => self.execute_stalemate(state),
            EBRAction::Bid(bid) => self.execute_bid(state, bid),
            EBRAction::Pass => self.execute_pass(state),
            EBRAction::MoveCube(from, to) => self.execute_move_cube(state, from, to),
            EBRAction::ChooseAuctionCompany(company) => self.execute_choose_auction_company(state, company),
            EBRAction::StartPrivateAt(company, location) => self.execute_start_private_at(state, company, location),
            EBRAction::ChooseBuildCompany(company) => self.execute_choose_build_company(state, company),
            EBRAction::BuildTrack(location) => self.execute_build_track(state, location),
            EBRAction::BuildPass => self.execute_build_pass(state),
            EBRAction::ChooseBondCompany(company) => self.execute_choose_bond_company(state, company),
            EBRAction::IssueBond(company, bond) => self.execute_issue_bond(state, company, bond),
            EBRAction::Merge(private, company) => self.execute_merge(state, private, company),
            EBRAction::ChooseTakeResourcesCompany(company, delivery_company) => {
                self.execute_choose_take_resources_company(state, company, delivery_company)
            },
            EBRAction::TakeResources(coordinate) => self.execute_take_resources(state, coordinate),
            EBRAction::PassTakeResources => self.execute_pass_take_resources(state),
        }
    }
}

} // verus!
