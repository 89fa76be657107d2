use mon2y::actor::Actor;
use mon2y::ebr::actions::{ChoosableAction, EBRAction};
use mon2y::ebr::company::Company;
use mon2y::ebr::div_ceil;
use mon2y::ebr::params::EBRHyperparams;
use mon2y::ebr::setup::EBR;
use mon2y::ebr::state::{EBRState, EndGameReason, Stage};

fn start(players: u8) -> EBRState {
    EBR { player_count: players }.init_game(&EBRHyperparams::default())
}

#[test]
fn default_parameters_hold_the_standard_rules() {
    let h = EBRHyperparams::default();
    assert_eq!(h.max_builds, 3);
    assert_eq!(h.narrow_gauge_initial, 12);
    assert_eq!(h.water_1_cost, 1);
    assert_eq!(h.water_2_cost, 3);
    assert_eq!(h.bonds.len(), 7);
    assert_eq!(h.initial_cash, vec![(2, 20), (3, 13), (4, 10), (5, 8)]);
    assert_eq!(h.features.len(), 7);
    assert_eq!(h.features[0].1.location_name.as_deref(), Some("Burnie"));
    assert_eq!(h.water_features.len(), 12);
    assert!(h.company_fixed_details[Company::GT.index()].private);
    assert!(!h.company_fixed_details[Company::LW.index()].private);
}

#[test]
fn a_game_starts_with_the_opening_auction_of_the_lw() {
    let state = start(3);
    assert_eq!(state.player_cash, vec![8, 8, 8]);
    assert_eq!(start(2).player_cash, vec![12, 12]);
    assert_eq!(start(5).player_cash, vec![4, 4, 4, 4, 4]);
    assert_eq!(state.next_player, 0);
    assert_eq!(state.track.len(), 4);
    assert_eq!(state.resource_cubes, vec![(2, 4), (2, 3), (3, 4), (3, 4)]);
    match &state.stage {
        Stage::Auction { initial_auction, current_bid, lot, winning_bidder, passed } => {
            assert!(*initial_auction);
            assert_eq!(*current_bid, None);
            assert_eq!(*lot, Company::LW);
            assert_eq!(*winning_bidder, None);
            assert!(passed.is_empty());
        }
        _ => panic!("expected the opening auction"),
    }
    assert!(matches!(state.next_actor(), Actor::Player(0)));
    assert!(!state.terminal());
}

#[test]
fn opening_bids_run_from_one_to_the_players_cash_then_zero() {
    let state = start(3);
    let mut expected: Vec<EBRAction> = (1..=8).map(EBRAction::Bid).collect();
    expected.push(EBRAction::Bid(0));
    assert_eq!(state.permitted_actions(), expected);
}

#[test]
fn a_lot_goes_to_the_bidder_once_the_others_pass() {
    let state = start(3);
    let state = EBRAction::Bid(5).execute(&state);
    assert_eq!(state.next_player, 1);
    let mut expected: Vec<EBRAction> = (6..=8).map(EBRAction::Bid).collect();
    expected.push(EBRAction::Pass);
    assert_eq!(state.permitted_actions(), expected);
    let state = EBRAction::Pass.execute(&state);
    // The turn goes back to the leading bidder.
    assert_eq!(state.next_player, 0);
    let state = EBRAction::Pass.execute(&state);
    assert_eq!(state.holdings[0], vec![Company::LW]);
    assert_eq!(state.player_cash, vec![3, 8, 8]);
    let lw = &state.company_details[Company::LW.index()];
    assert_eq!(lw.shares_held, 1);
    assert_eq!(lw.shares_remaining, 2);
    assert_eq!(lw.cash, 5);
    assert_eq!(state.initial_auction_winners[Company::LW.index()], Some(0));
    match &state.stage {
        Stage::Auction { initial_auction, lot, current_bid, .. } => {
            assert!(*initial_auction);
            assert_eq!(*lot, Company::TMLC);
            assert_eq!(*current_bid, None);
        }
        _ => panic!("expected the auction of the TMLC"),
    }
}

fn sell_opening_lot(state: EBRState, bid: usize) -> EBRState {
    let state = EBRAction::Bid(bid).execute(&state);
    let state = EBRAction::Pass.execute(&state);
    EBRAction::Pass.execute(&state)
}

#[test]
fn the_opening_auction_ends_with_the_gt_and_its_buyer_moves() {
    let mut state = start(3);
    for _ in 0..4 {
        state = sell_opening_lot(state, 1);
    }
    assert!(matches!(state.stage, Stage::ChooseAction));
    assert_eq!(state.next_player, 0);
    assert_eq!(state.holdings[0], vec![Company::LW, Company::TMLC, Company::EBRC, Company::GT]);
    // The sale of the GT makes the next private available.
    assert_eq!(state.company_details[Company::GT.index()].available, Some(false));
    assert_eq!(state.company_details[Company::NMFT.index()].available, Some(true));
    let actions = state.permitted_actions();
    assert!(!actions.is_empty());
    assert!(actions.iter().all(|a| matches!(a, EBRAction::MoveCube(_, _))));
}

#[test]
fn moving_a_cube_opens_the_chosen_action() {
    let mut state = start(3);
    for _ in 0..4 {
        state = sell_opening_lot(state, 1);
    }
    let state = EBRAction::MoveCube(ChoosableAction::TakeResources, ChoosableAction::BuildTrack).execute(&state);
    assert!(matches!(state.stage, Stage::ChooseBuildCompany));
    assert_eq!(state.active_player, 0);
    assert_eq!(state.action_cubes[0], true);
    assert_eq!(state.action_cubes[5], false);
}

#[test]
fn a_stalemate_ends_the_game_and_scores_the_richest_and_poorest() {
    let mut state = start(3);
    state.player_cash = vec![4, 9, 4];
    let state = EBRAction::Stalemate.execute(&state);
    assert!(state.terminal());
    assert_eq!(state.end_game_reason, EndGameReason::Stalemate);
    assert_eq!(state.reward_points(), vec![0, 1, -1]);
    assert!(state.permitted_actions().is_empty());
}

#[test]
fn an_unfinished_game_scores_nothing() {
    let state = start(3);
    assert_eq!(state.reward_points(), vec![0, 0, 0]);
}

#[test]
fn div_ceil_truncates_for_large_negative_numerators() {
    assert_eq!(div_ceil(-5, 3), -1);
    assert_eq!(div_ceil(-6, 3), -1);
    assert_eq!(div_ceil(0, 4), 0);
    assert_eq!(div_ceil(1, 4), 1);
}

#[test]
fn round_summary_counts_track_and_connections() {
    let state = start(3);
    // LW and TMLC share Launceston, EBRC sits in Queenstown.
    assert!(state.company_connected(Company::LW, (9, 4)));
    assert!(state.company_connected(Company::EBRC, (3, 5)));
    assert!(!state.company_connected(Company::EBRC, (10, 9)));
    assert!(state.company_connected(Company::GT, (2, 4)));
    assert!(!state.company_connected(Company::NMFT, (2, 4)));
    let counts = state.terrain_track_counts();
    assert_eq!(counts.len(), 6);
    // Track on a port (Launceston), a town (Queenstown) and a forest (the GT's home).
    assert_eq!(counts[5].0, 1);
    assert_eq!(counts[4].0, 1);
    assert_eq!(counts[2].0, 1);
    let total: usize = counts.iter().skip(1).map(|c| c.1).sum();
    assert_eq!(total, 182 - counts[0].1);
    assert_eq!(state.total_bonds_issued(), 0);
    let mut s = state;
    s.player_cash = vec![3, 11, 7];
    assert_eq!(s.player_scores(), vec![11, 7, 3]);
}

#[test]
fn merge_options_of_a_fresh_game_join_the_gt_to_the_ebrc() {
    let state = start(3);
    assert_eq!(state.connected_majors(Company::GT), vec![Company::EBRC]);
}

#[test]
fn shares_are_neither_created_nor_lost() {
    let companies = [Company::EBRC, Company::LW, Company::TMLC, Company::GT, Company::NMFT, Company::NED, Company::MLM];
    let totals = |s: &EBRState| -> Vec<usize> {
        companies
            .iter()
            .map(|c| s.company_details[c.index()].shares_held + s.company_details[c.index()].shares_remaining)
            .collect()
    };
    let mut state = start(3);
    let before = totals(&state);
    for _ in 0..4 {
        state = sell_opening_lot(state, 1);
        assert_eq!(totals(&state), before);
    }
    let lw = &state.company_details[Company::LW.index()];
    assert_eq!((lw.shares_held, lw.shares_remaining), (1, 2));
    for action in state.permitted_actions() {
        assert_eq!(totals(&action.execute(&state)), before);
    }
}

#[test]
fn the_winner_is_the_first_richest_player_once_the_game_ends() {
    let mut state = start(3);
    assert_eq!(state.winning_player(), None);
    state.terminal = true;
    state.player_cash = vec![5, 9, 9];
    assert_eq!(state.winning_player(), Some((1, 9)));
}

#[test]
fn margins_reject_cash_beyond_the_guard() {
    let mut state = start(3);
    assert!(state.within_margins());
    state.player_cash[0] = i64::MAX;
    assert!(!state.within_margins());
}

#[test]
fn public_companies_take_from_their_track_and_their_privates_networks() {
    let mut state = start(3);
    state.resource_cubes = vec![(3, 5), (2, 4), (9, 4), (5, 5), (2, 3)];
    assert_eq!(state.company_accessible_resources(Company::EBRC), vec![(3, 5)]);
    assert_eq!(state.company_accessible_resources(Company::LW), vec![(9, 4)]);
    state.company_details[Company::GT.index()].hq = Some((2, 4));
    state.company_details[Company::EBRC.index()].owned_privates = vec![Company::GT];
    assert_eq!(state.company_accessible_resources(Company::EBRC), vec![(3, 5), (2, 4)]);
    // A private reaches the hexes its narrow gauge can extend to.
    let narrow = state.possible_narrow_track(Company::GT);
    let expected: Vec<(usize, usize)> = state.resource_cubes.iter().copied().filter(|c| narrow.contains(c)).collect();
    assert_eq!(state.company_accessible_resources(Company::GT), expected);
    assert!(!state.company_accessible_resources(Company::GT).contains(&(9, 4)));
}
