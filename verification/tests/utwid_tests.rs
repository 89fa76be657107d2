use mon2y::actor::Actor;
use mon2y::utwid::actor::GameActor;
use mon2y::utwid::board::{Board, Tile};
use mon2y::utwid::rooms::{lay_out_splits, SplitDraw};
use mon2y::utwid::outcome::Utwid;
use mon2y::utwid::state::UtwidState;
use mon2y::utwid::types::{action_cost, Dir, GameState, UtwidAction, MON2Y_ID, YOU_ID};
use rand::rngs::SmallRng;
use rand::SeedableRng;

const DIRS: [(Dir, isize, isize); 8] = [
    (Dir::N, 0, -1),
    (Dir::S, 0, 1),
    (Dir::E, 1, 0),
    (Dir::W, -1, 0),
    (Dir::NE, 1, -1),
    (Dir::NW, -1, -1),
    (Dir::SE, 1, 1),
    (Dir::SW, -1, 1),
];

fn find_tile(state: &UtwidState, stairs: bool) -> Option<(usize, usize)> {
    for y in 0..state.board.height {
        for x in 0..state.board.width {
            let t = state.board.get(x, y).traits;
            if (stairs && t.stairs) || (!stairs && t.win) {
                return Some((x, y));
            }
        }
    }
    None
}

fn stair_location(state: &UtwidState) -> (usize, usize) {
    find_tile(state, true).expect("Expected stairs on board")
}

fn adjacent_move_to(state: &mut UtwidState, target_x: usize, target_y: usize) -> UtwidAction {
    for (action, dx, dy) in DIRS.iter() {
        let from_x = target_x as isize - dx;
        let from_y = target_y as isize - dy;
        if from_x < 0 || from_y < 0 || from_x as usize >= state.board.width || from_y as usize >= state.board.height {
            continue;
        }
        if state.board.get(from_x as usize, from_y as usize).traits.walkable {
            let mut you = state.actors[0].unwrap();
            you.x = from_x as usize;
            you.y = from_y as usize;
            state.actors[0] = Some(you);
            state.to_act = 0;
            state.turn_order.clear();
            state.turn_order.push_back(0);
            return UtwidAction::Move(*action);
        }
    }
    panic!("Expected a walkable tile adjacent to target");
}

fn as_f64(parts: &[(i64, i64)]) -> Vec<f64> {
    parts.iter().map(|(n, d)| *n as f64 / *d as f64).collect()
}

#[test]
fn utwid_stairs_transition_resets_turn_state_across_multiple_floors() {
    let mut state = UtwidState::new();
    let mut transitioned = false;

    for _ in 0..5 {
        state.add_actor(GameActor::are_actor(2, 2));
        state.add_actor(GameActor::them_actor(3, 3));
        state.to_act = 2;

        if find_tile(&state, true).is_none() {
            break;
        }
        state = state.execute_stairs();
        transitioned = true;

        assert_eq!(state.to_act, 0);
        assert_eq!(state.turn_order, vec![0]);
        assert_eq!(state.actor_id_counter, 1);
        assert_eq!(state.actor_count(), 1);
        assert!(state.has_actor(0));
        assert!(matches!(state.next_actor(), Actor::Player(0)));

        state.game_state = GameState::Ongoing;
    }

    assert!(transitioned);
}

#[test]
fn utwid_stairs_transition_clears_monsters_dead_entries_and_stale_turn_ids() {
    let mut state = UtwidState::new();
    let mut transitioned = false;

    for _ in 0..5 {
        let are_id = state.add_actor(GameActor::are_actor(2, 2));
        let them_id = state.add_actor(GameActor::them_actor(3, 3));
        if let Some(mut actor) = state.actor(are_id) {
            actor.traits.dead = true;
            state.actors[are_id] = Some(actor);
        }
        state.turn_order.push_back(9999);
        state.turn_order.push_back(are_id);
        state.turn_order.push_back(them_id);
        state.to_act = them_id;

        if find_tile(&state, true).is_none() {
            break;
        }
        state = state.execute_stairs();
        transitioned = true;

        assert_eq!(state.to_act, 0);
        assert_eq!(state.turn_order, vec![0]);
        assert_eq!(state.actor_id_counter, 1);
        assert_eq!(state.actor_count(), 1);
        assert!(state.has_actor(0));
        assert!(!state.has_actor(are_id));
        assert!(!state.has_actor(them_id));
        assert!(!state.turn_order.contains(&9999));
        assert!(matches!(state.next_actor(), Actor::Player(0)));

        state.game_state = GameState::Ongoing;
    }

    assert!(transitioned);
}

#[test]
fn utwid_execute_path_keeps_to_act_valid_between_floors_and_after_win() {
    let mut state = UtwidState::new();
    state.add_actor(GameActor::are_actor(2, 2));
    state.add_actor(GameActor::them_actor(3, 3));

    let (stairs_x, stairs_y) = stair_location(&state);
    let action = adjacent_move_to(&mut state, stairs_x, stairs_y);
    state = state.execute(action);

    assert!(matches!(state.game_state, GameState::Checkpoint));
    assert!(state.has_actor(state.to_act));
    assert!(matches!(state.next_actor(), Actor::Player(_)));

    state.game_state = GameState::Won;
    assert!(state.has_actor(state.to_act));
    assert!(matches!(state.next_actor(), Actor::Player(_)));
}

#[test]
fn utwid_entering_stairs_turn_keeps_to_act_valid_and_terminal_node_safe() {
    let mut state = UtwidState::new();
    let are_id = state.add_actor(GameActor::are_actor(2, 2));
    let them_id = state.add_actor(GameActor::them_actor(3, 3));
    if let Some(mut actor) = state.actor(are_id) {
        actor.traits.dead = true;
        state.actors[are_id] = Some(actor);
    }
    state.turn_order.push_back(9999);
    state.turn_order.push_back(are_id);
    state.turn_order.push_back(them_id);

    let (stairs_x, stairs_y) = stair_location(&state);
    let action = adjacent_move_to(&mut state, stairs_x, stairs_y);
    let post_stairs = state.execute(action);

    assert!(matches!(post_stairs.game_state, GameState::Checkpoint));
    assert_eq!(post_stairs.to_act, 0);
    assert_eq!(post_stairs.turn_order, vec![0]);
    assert!(post_stairs.has_actor(post_stairs.to_act));
    assert!(matches!(post_stairs.next_actor(), Actor::Player(0)));

    // A terminal state is expanded into a node without children.
    assert!(post_stairs.terminal());
}

#[test]
fn utwid_checkpoint_reward_uses_player_health_ratio_and_stays_terminal() {
    let mut state = UtwidState::new();
    state.add_actor(GameActor::are_actor(2, 2));

    let (stairs_x, stairs_y) = stair_location(&state);
    let action = adjacent_move_to(&mut state, stairs_x, stairs_y);
    let mut you = state.actors[0].unwrap();
    you.health = Some(4);
    state.actors[0] = Some(you);

    let post_stairs = state.execute(action);
    let rewards = as_f64(&post_stairs.reward_parts());

    assert!(post_stairs.terminal());
    assert_eq!(rewards.len(), 2);
    assert!((rewards[YOU_ID] - 4.0 / 7.0).abs() < f64::EPSILON);
    assert!((rewards[MON2Y_ID] + 4.0 / 7.0).abs() < f64::EPSILON);
}

#[test]
fn utwid_lost_and_won_rewards_match_actor_outcomes() {
    let mut lost_state = UtwidState::new();
    lost_state.game_state = GameState::Lost;
    assert_eq!(as_f64(&lost_state.reward_parts()), vec![-1.0, 1.0]);

    let mut won_state = UtwidState::new();
    won_state.game_state = GameState::Won;
    assert_eq!(as_f64(&won_state.reward_parts()), vec![1.0, -1.0]);
}

/// An open 11 by 11 level of floor, with the stairs in the far corner.
fn open_state() -> UtwidState {
    let mut state = UtwidState::new();
    let mut geography = vec![Tile::floor(); 121];
    geography[120] = Tile::stair();
    state.board = Board { geography, width: 11, height: 11, rng: SmallRng::seed_from_u64(7) };
    state.spawn_rng = SmallRng::seed_from_u64(11);
    state
}

#[test]
fn a_new_game_starts_with_the_player_alone_on_a_built_level() {
    let state = Utwid.init_game();
    assert_eq!(state.current_level, 0);
    assert_eq!(state.board.width, 11);
    assert_eq!(state.board.height, 11);
    assert_eq!(state.board.geography.len(), 121);
    assert_eq!(state.actor_count(), 1);
    assert_eq!(state.actors[0], Some(GameActor::you_actor()));
    assert_eq!(state.turn_order, vec![0]);
    assert!(!state.terminal());
    let goals = state.board.geography.iter().filter(|t| t.traits.stairs || t.traits.win).count();
    assert!(goals <= 1);
    assert!(state.board.geography.iter().all(|t| *t == Tile::floor() || *t == Tile::wall() || *t == Tile::stair()));
}

#[test]
fn levels_built_from_one_generator_state_agree() {
    let mut a = SmallRng::seed_from_u64(42);
    let mut b = SmallRng::seed_from_u64(42);
    let first = Board::new(3, &mut a);
    let second = Board::new(3, &mut b);
    assert_eq!(first.geography, second.geography);
    let last = Board::new(9, &mut a);
    assert!(last.geography.iter().all(|t| !t.traits.stairs));
    assert!(last.geography.iter().filter(|t| t.traits.win).count() <= 1);
}

#[test]
fn the_player_may_step_jump_wall_and_run() {
    let mut state = open_state();
    let mut you = state.actors[0].unwrap();
    you.x = 5;
    you.y = 5;
    state.actors[0] = Some(you);
    let actions = state.permitted_actions();
    let mut expected: Vec<UtwidAction> = DIRS.iter().map(|(d, _, _)| UtwidAction::Move(*d)).collect();
    expected.extend(DIRS.iter().map(|(d, _, _)| UtwidAction::Conclusion(*d)));
    expected.extend([Dir::N, Dir::S, Dir::E, Dir::W].iter().map(|d| UtwidAction::Stagnation(*d)));
    expected.push(UtwidAction::Prescription);
    assert_eq!(actions, expected);
}

#[test]
fn a_monster_does_not_step_onto_a_friend() {
    let mut state = open_state();
    let are = state.add_actor(GameActor::are_actor(4, 4));
    state.add_actor(GameActor::are_actor(4, 3));
    state.to_act = are;
    let actions = state.permitted_actions();
    assert_eq!(
        actions,
        vec![UtwidAction::Move(Dir::S), UtwidAction::Move(Dir::E), UtwidAction::Move(Dir::W)]
    );
}

#[test]
fn action_costs_follow_the_rules() {
    assert_eq!(action_cost(UtwidAction::Conclusion(Dir::N)), 1);
    assert_eq!(action_cost(UtwidAction::Stagnation(Dir::E)), 2);
    assert_eq!(action_cost(UtwidAction::Prescription), 2);
    assert_eq!(action_cost(UtwidAction::Demonstration), 3);
    assert_eq!(action_cost(UtwidAction::Contention(Dir::S)), 0);
    assert_eq!(action_cost(UtwidAction::Move(Dir::S)), 0);
}

#[test]
fn a_step_strikes_an_enemy_instead_of_moving() {
    let mut state = open_state();
    let them = state.add_actor(GameActor::them_actor(2, 3));
    let state = state.execute(UtwidAction::Move(Dir::E));
    let you = state.actors[0].unwrap();
    assert_eq!((you.x, you.y), (1, 3));
    assert_eq!(state.actors[them].unwrap().health, Some(1));
    // The monster acts next.
    assert_eq!(state.to_act, them);
    assert_eq!(state.turn_number, 1);
    assert_eq!(state.ai_turns, 1);
}

#[test]
fn a_killed_monster_leaves_the_game() {
    let mut state = open_state();
    let mut weak = GameActor::them_actor(2, 3);
    weak.health = Some(1);
    let them = state.add_actor(weak);
    let state = state.execute(UtwidAction::Move(Dir::E));
    assert!(!state.has_actor(them));
    assert_eq!(state.turn_order, vec![0]);
    assert_eq!(state.to_act, 0);
    assert_eq!(state.game_state, GameState::Ongoing);
}

#[test]
fn a_wall_runs_across_the_board_until_blocked() {
    let mut state = open_state();
    let mut you = state.actors[0].unwrap();
    you.x = 5;
    you.y = 5;
    state.actors[0] = Some(you);
    // Someone stands in the column below, stopping the wall there.
    state.add_actor(GameActor::are_actor(6, 8));
    state.to_act = 0;
    state.turn_order.clear();
    state.turn_order.push_back(0);
    let state = state.execute(UtwidAction::Stagnation(Dir::E));
    for y in 0..11 {
        let walled = !state.board.get(6, y).traits.walkable;
        assert_eq!(walled, y < 8, "row {}", y);
    }
    assert_eq!(state.actors[0].unwrap().health, Some(5));
}

#[test]
fn a_bomb_hurts_everything_around_it() {
    let mut state = open_state();
    state.board.geography[4 + 4 * 11] = Tile::wall();
    let bomb = state.add_actor(GameActor::one_actor(5, 5));
    let victim = state.add_actor(GameActor::are_actor(6, 6));
    let far = state.add_actor(GameActor::are_actor(8, 8));
    state.to_act = bomb;
    let state = state.execute(UtwidAction::Explode);
    // The bomb's blast kills the bomb and the monster next to it, and
    // breaks the wall.
    assert!(!state.has_actor(bomb));
    assert!(!state.has_actor(victim));
    assert_eq!(state.actors[far].unwrap().health, Some(3));
    assert!(state.board.get(4, 4).traits.walkable);
}

#[test]
fn a_jump_slides_to_the_end_of_the_floor_and_strikes_harder() {
    let mut state = open_state();
    let them = state.add_actor(GameActor::them_actor(6, 3));
    let state = state.execute(UtwidAction::Conclusion(Dir::E));
    let you = state.actors[0].unwrap();
    // From (1, 3) the player slides east up to the cell before the monster,
    // four cells on.
    assert_eq!((you.x, you.y), (5, 3));
    assert_eq!(state.temporary_damage_bonus, Some(4));
    assert!(!state.has_actor(them));
    assert_eq!(you.health, Some(6));
}

#[test]
fn a_run_of_turns_keeps_the_turn_with_the_player() {
    let mut state = open_state();
    let them = state.add_actor(GameActor::them_actor(9, 9));
    state.turn_order.clear();
    state.turn_order.push_back(0);
    state.turn_order.push_back(them);
    let state = state.execute(UtwidAction::Prescription);
    assert_eq!(state.prescription_turns, Some(4));
    assert_eq!(state.to_act, 0);
    assert_eq!(state.actors[0].unwrap().health, Some(5));
    let state = state.execute(UtwidAction::Wait);
    assert_eq!(state.prescription_turns, Some(3));
    assert_eq!(state.to_act, 0);
}

#[test]
fn monsters_appear_on_the_fifth_turn() {
    let mut state = open_state();
    state.turn_number = 4;
    let state = state.execute(UtwidAction::Wait);
    assert_eq!(state.turn_number, 5);
    assert_eq!(state.actor_count(), 2);
    let bomb = state.actors[1].unwrap();
    assert!(bomb.traits.bomb);
    assert!(bomb.x < 11 && bomb.y < 11);
    assert!((bomb.x, bomb.y) != (1, 3));
    assert_eq!(state.turn_order, vec![1, 0]);
    assert_eq!(state.to_act, 1);
}

#[test]
fn the_short_circuit_ends_the_game() {
    let mut state = open_state();
    state.short_circuit_at_turns = Some(1);
    let state = state.execute(UtwidAction::Wait);
    assert_eq!(state.short_circuit_at_turns, Some(0));
    assert_eq!(state.game_state, GameState::Mon2yShortcircuit);
    assert!(state.terminal());
    // The player's share: (0.5 + level / 20) * (1 - turns / 1000).
    let parts = state.reward_parts();
    assert_eq!(parts[YOU_ID], (10 * 999, 20000));
    assert_eq!(parts[MON2Y_ID], (0, 1));
}

#[test]
fn the_dungeon_loses_half_a_point_per_tree_when_cut_short() {
    let mut state = open_state();
    state.add_actor(GameActor::are_actor(9, 9));
    state.game_state = GameState::Mon2yShortcircuit;
    state.current_level = 2;
    let parts = state.reward_parts();
    assert_eq!(parts, vec![(12 * 1000, 20000), (-1, 2)]);
}

#[test]
fn the_map_glitch_turns_the_board_and_gathers_the_monsters() {
    let mut state = open_state();
    state.board.geography[4 + 3 * 11] = Tile::wall();
    let a = state.add_actor(GameActor::are_actor(9, 9));
    let b = state.add_actor(GameActor::them_actor(8, 2));
    state.to_act = 0;
    state.turn_order.clear();
    state.turn_order.push_back(0);
    let before = state.board.geography.clone();
    let state = state.execute(UtwidAction::Contention(Dir::E));
    // The beam east from (1, 3) stops at the wall on (4, 3): a turn by 3.
    for i in 0..121 {
        assert_eq!(state.board.geography[i], before[(i + 3) % 121]);
    }
    let you = state.actors[0].unwrap();
    assert_eq!((you.x, you.y), (1, 3));
    let cell = (1 + 3 * 11 + 3) % 121;
    for id in [a, b] {
        let m = state.actors[id].unwrap();
        assert_eq!((m.x, m.y), (cell % 11, cell / 11));
    }
}

#[test]
fn the_win_tile_ends_the_game() {
    let mut state = open_state();
    state.board.geography[120] = Tile::floor();
    state.board.geography[2 + 3 * 11] = Tile::win();
    let state = state.execute(UtwidAction::Move(Dir::E));
    assert_eq!(state.game_state, GameState::Won);
    assert_eq!(as_f64(&state.reward_parts()), vec![1.0, -1.0]);
}

#[test]
fn health_never_drops_below_zero_and_zero_is_death() {
    let mut a = GameActor::are_actor(0, 0);
    a.modify_health(-10);
    assert_eq!(a.health, Some(0));
    assert!(a.traits.dead);
    let mut t = Tile::wall();
    t.modify_health(-2);
    assert_eq!(t.health, Some(3));
    t.modify_health(-3);
    assert_eq!(t, Tile { health: None, ..Tile::floor() });
}

#[test]
fn every_offered_action_can_be_played() {
    let mut state = open_state();
    let mut you = state.actors[0].unwrap();
    you.x = 0;
    you.y = 10;
    state.actors[0] = Some(you);
    let actions = state.permitted_actions();
    assert!(!actions.contains(&UtwidAction::Stagnation(Dir::W)));
    assert!(!actions.contains(&UtwidAction::Stagnation(Dir::S)));
    assert!(actions.contains(&UtwidAction::Stagnation(Dir::N)));
    for action in actions {
        let next = state.execute(action);
        assert!(next.actor_count() >= 1);
    }
}

#[test]
fn every_new_level_has_exactly_one_walkable_goal() {
    for seed in 0..200u64 {
        for level in [0usize, 4, 9] {
            let mut rng = SmallRng::seed_from_u64(seed);
            let board = Board::new(level, &mut rng);
            let stairs: Vec<&Tile> = board.geography.iter().filter(|t| t.traits.stairs).collect();
            let wins: Vec<&Tile> = board.geography.iter().filter(|t| t.traits.win).collect();
            if level < 9 {
                assert_eq!(stairs.len(), 1);
                assert!(wins.is_empty());
                assert!(stairs[0].traits.walkable);
            } else {
                assert_eq!(wins.len(), 1);
                assert!(stairs.is_empty());
                assert!(wins[0].traits.walkable);
            }
        }
    }
}

#[test]
fn a_split_walls_its_column_and_a_crowded_one_is_skipped() {
    let draws = vec![
        SplitDraw { vertical: true, x: 5, y: 5 },
        SplitDraw { vertical: true, x: 6, y: 2 },
    ];
    let (geo, splits) = lay_out_splits(&draws);
    assert_eq!(splits, vec![5 + 5 * 11]);
    for y in 0..11 {
        for x in 0..11 {
            let expected = if x == 5 && y != 5 { Tile::wall() } else { Tile::floor() };
            assert_eq!(geo[x + y * 11], expected, "cell ({}, {})", x, y);
        }
    }
}

#[test]
fn a_wall_run_stops_at_the_first_wall() {
    let draws = vec![
        SplitDraw { vertical: true, x: 5, y: 5 },
        SplitDraw { vertical: false, x: 2, y: 3 },
    ];
    let (geo, splits) = lay_out_splits(&draws);
    assert_eq!(splits, vec![5 + 5 * 11, 2 + 3 * 11]);
    for x in 0..11 {
        let expected = if x == 2 || x > 5 { Tile::floor() } else { Tile::wall() };
        assert_eq!(geo[x + 3 * 11], expected, "cell ({}, 3)", x);
    }
    assert_eq!(geo[5 + 5 * 11], Tile::floor());
    assert_eq!(geo[5 + 9 * 11], Tile::wall());
}
