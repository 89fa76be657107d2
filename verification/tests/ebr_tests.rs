use std::collections::HashSet;

use mon2y::ebr::board::{get_neighbors, Coordinate};
use mon2y::ebr::company::Company;
use mon2y::ebr::div_ceil;
use mon2y::ebr::params::EBRHyperparams;
use mon2y::ebr::setup::EBR;
use mon2y::ebr::state::{EBRState, Track, TrackType};

fn init_game() -> EBRState {
    let game = EBR { player_count: 3 };
    let hyperparams = EBRHyperparams::default();
    game.init_game(&hyperparams)
}

fn div_ceil_cases() {
    assert_eq!(div_ceil(10, 3), 4);
    assert_eq!(div_ceil(10, 4), 3);
    assert_eq!(div_ceil(10, 5), 2);
}

fn connected_to_cases() {
    // Test will break if HQ of GT or EBRC moved
    let mut game_state = init_game();

    // Assert GT initially connected to EBRC
    assert!(game_state.connected_to(Company::GT, Company::EBRC));
    // And not initially connected to LW
    assert!(!game_state.connected_to(Company::GT, Company::LW));
    // But connected if we build some track between them
    game_state.track.push(Track { location: (2, 3), track_type: TrackType::Narrow });
    game_state.track.push(Track { location: (3, 3), track_type: TrackType::Narrow });
    game_state.track.push(Track { location: (4, 3), track_type: TrackType::Narrow });
    game_state.track.push(Track { location: (5, 3), track_type: TrackType::Narrow });
    game_state.track.push(Track { location: (6, 3), track_type: TrackType::CompanyOwned(Company::LW) });
    game_state.track.push(Track { location: (7, 3), track_type: TrackType::CompanyOwned(Company::LW) });
    game_state.track.push(Track { location: (8, 3), track_type: TrackType::CompanyOwned(Company::LW) });
    assert!(game_state.connected_to(Company::GT, Company::LW));
}

fn gt_start(state: &EBRState) -> Coordinate {
    state.company_fixed_details[Company::GT.index()].starting.unwrap()
}

fn reachable_narrow_track_cases() {
    // Test will break if HQ of GT moved
    let mut game_state = init_game();

    // Check GT has its HQ initially
    assert!(game_state.reachable_narrow_track(Company::GT) == vec![gt_start(&game_state)]);

    // Check that nearby track not connected
    game_state.track.push(Track { location: (4, 4), track_type: TrackType::Narrow });
    assert!(game_state.reachable_narrow_track(Company::GT) == vec![gt_start(&game_state)]);

    // Check that once connected, all three are there
    game_state.track.push(Track { location: (3, 4), track_type: TrackType::Narrow });
    assert!(
        game_state.reachable_narrow_track(Company::GT).iter().map(|t| t.clone()).collect::<HashSet<Coordinate>>()
            == vec![gt_start(&game_state), (3, 4), (4, 4)].iter().map(|t| t.clone()).collect::<HashSet<Coordinate>>()
    );
}

fn get_neighbors_cases() {
    let expected1: Vec<Coordinate> = vec![(1, 4), (2, 3), (3, 4), (3, 5), (2, 5), (1, 5)];
    let actual1 = get_neighbors((2, 4));
    assert_eq!(
        expected1.iter().map(|t| t.clone()).collect::<HashSet<Coordinate>>(),
        actual1.iter().map(|t| t.clone()).collect::<HashSet<Coordinate>>()
    );

    let expected2: Vec<Coordinate> = vec![(2, 4), (2, 3), (3, 3), (4, 3), (4, 4), (3, 5)];
    let actual2 = get_neighbors((3, 4));
    assert_eq!(
        expected2.iter().map(|t| t.clone()).collect::<HashSet<Coordinate>>(),
        actual2.iter().map(|t| t.clone()).collect::<HashSet<Coordinate>>()
    );
}

#[test]
fn ebr_test_div_ceil() {
    div_ceil_cases();
}

#[test]
fn other_branch_ebr_test_div_ceil() {
    div_ceil_cases();
}

#[test]
fn ebr_test_connected_to() {
    connected_to_cases();
}

#[test]
fn other_branch_ebr_test_connected_to() {
    connected_to_cases();
}

#[test]
fn ebr_test_reachable_narrow_track() {
    reachable_narrow_track_cases();
}

#[test]
fn other_branch_ebr_test_reachable_narrow_track() {
    reachable_narrow_track_cases();
}

#[test]
fn ebr_test_get_neighbors() {
    get_neighbors_cases();
}

#[test]
fn other_branch_ebr_test_get_neighbors() {
    get_neighbors_cases();
}
