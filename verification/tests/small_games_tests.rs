use mon2y::actor::Actor;
use mon2y::c4::{check_for_win, C4Action, C4Cell, C4Hyperparams, CheckForWinResult, C4};
use mon2y::cs::{dice_actions, CSAction, CSState, CS};
use mon2y::nt::{CardState, NTAction, NT};
use mon2y::policy::BestTurnPolicy;
use mon2y::sender::NoopSender;
use mon2y::weighted_random::{pick_weighted, weighted_random};

#[test]
fn no_thanks_starts_with_the_deck_and_eleven_tokens_each() {
    let state = NT { player_count: 3 }.init_game();
    assert_eq!(state.tokens, vec![11, 11, 11]);
    assert_eq!(state.cards.len(), 256);
    assert_eq!(state.cards.iter().filter(|c| **c == Some(CardState::Drawable)).count(), 32);
    assert_eq!(state.cards[3], Some(CardState::Drawable));
    assert_eq!(state.cards[34], Some(CardState::Drawable));
    assert_eq!(state.cards[35], None);
    assert!(state.to_draw);
    match state.next_actor() {
        Actor::GameAction(draws) => {
            assert_eq!(draws.len(), 32);
            assert_eq!(draws[0], (NTAction::Draw(3), 1));
            assert_eq!(draws[31], (NTAction::Draw(34), 1));
        }
        _ => panic!("a card is drawn first"),
    }
    assert_eq!(NT { player_count: 6 }.init_game().tokens[0], 9);
    assert_eq!(NT { player_count: 7 }.init_game().tokens[0], 7);
}

#[test]
fn passing_pays_a_token_and_taking_collects_them() {
    let state = NT { player_count: 3 }.init_game();
    let state = NTAction::Draw(10).execute(&state);
    assert_eq!(state.current_card, Some(10));
    assert!(matches!(state.next_actor(), Actor::Player(0)));
    assert_eq!(state.permitted_actions(), vec![NTAction::Take, NTAction::NoThanks]);
    let state = NTAction::NoThanks.execute(&state);
    assert_eq!(state.tokens, vec![10, 11, 11]);
    assert_eq!(state.tokens_on_card, 1);
    assert_eq!(state.next_player, 1);
    let state = NTAction::Take.execute(&state);
    assert_eq!(state.tokens, vec![10, 12, 11]);
    assert_eq!(state.tokens_on_card, 0);
    assert_eq!(state.cards[10], Some(CardState::Taken(1)));
    // Tokens are neither made nor lost.
    let total: u32 = state.tokens.iter().map(|t| *t as u32).sum::<u32>() + state.tokens_on_card as u32;
    assert_eq!(total, 33);
    assert_eq!(state.scores(), vec![-10, 10 - 12, -11]);
    assert!(!state.terminal());
}

#[test]
fn runs_of_cards_count_their_lowest_card() {
    let mut state = NT { player_count: 2 }.init_game();
    state.tokens = vec![0, 0];
    state.cards[3] = Some(CardState::Taken(0));
    state.cards[4] = Some(CardState::Taken(0));
    state.cards[6] = Some(CardState::Taken(0));
    state.cards[7] = Some(CardState::Taken(1));
    assert_eq!(state.scores(), vec![9, 7]);
    assert_eq!(state.permitted_actions(), vec![NTAction::Take]);
}

#[test]
fn the_game_of_no_thanks_ends_after_twenty_four_cards() {
    let mut state = NT { player_count: 2 }.init_game();
    for i in 0..23 {
        state.cards[i + 3] = Some(CardState::Taken(0));
    }
    assert!(!state.terminal());
    state.cards[26] = Some(CardState::Taken(1));
    assert!(state.terminal());
}

#[test]
fn dice_weights_add_up_to_every_ordered_roll() {
    let actions = dice_actions();
    assert_eq!(actions.len(), 126);
    assert_eq!(actions.iter().map(|(_, w)| *w).sum::<u32>(), 1296);
    assert_eq!(actions[0], (CSAction::DiceRoll(1, 1, 1, 1), 1));
    assert_eq!(actions[125], (CSAction::DiceRoll(6, 6, 6, 6), 1));
    assert!(actions.contains(&(CSAction::DiceRoll(1, 2, 3, 4), 24)));
}

fn cs_start() -> CSState {
    CS { player_count: 2 }.init_game()
}

#[test]
fn cant_stop_begins_with_a_roll_of_the_dice() {
    let state = cs_start();
    match state.next_actor() {
        Actor::GameAction(rolls) => assert_eq!(rolls.len(), 126),
        _ => panic!("the dice are rolled first"),
    }
    assert_eq!(state.permitted_actions(), vec![CSAction::Roll, CSAction::Done]);
    assert!(!state.terminal());
}

#[test]
fn repeated_moves_are_offered_once() {
    let state = CSAction::DiceRoll(1, 1, 1, 1).execute(&cs_start());
    assert!(matches!(state.next_actor(), Actor::Player(0)));
    assert_eq!(state.permitted_actions(), vec![CSAction::Move(2, Some(2))]);
    let state = CSAction::DiceRoll(1, 2, 3, 4).execute(&cs_start());
    assert_eq!(
        state.permitted_actions(),
        vec![CSAction::Move(3, Some(7)), CSAction::Move(4, Some(6)), CSAction::Move(5, Some(5))]
    );
}

#[test]
fn a_repeated_move_keeps_the_place_of_its_last_offer() {
    // The pairings give (3, 5), (4, 4) and (3, 5) again.
    let state = CSAction::DiceRoll(1, 2, 3, 2).execute(&cs_start());
    assert_eq!(state.permitted_actions(), vec![CSAction::Move(4, Some(4)), CSAction::Move(3, Some(5))]);
}

#[test]
fn climbing_and_stopping_keeps_the_heights() {
    let state = CSAction::DiceRoll(1, 1, 1, 1).execute(&cs_start());
    let state = CSAction::Move(2, Some(2)).execute(&state);
    assert_eq!(state.temp_position[0], Some(2));
    assert_eq!(state.locked_in_columns, vec![2]);
    assert_eq!(state.last_roll, None);
    let state = CSAction::Roll.execute(&state);
    assert!(state.dice_next);
    let state = CSAction::Done.execute(&state);
    assert_eq!(state.positions[0][0], 2);
    assert_eq!(state.claimed_columns[0], None);
    assert_eq!(state.next_player, 1);
    assert!(state.locked_in_columns.is_empty());
}

#[test]
fn topping_a_column_claims_it() {
    let mut state = cs_start();
    state.temp_position[0] = Some(3);
    state.locked_in_columns = vec![2];
    let state = CSAction::Done.execute(&state);
    assert_eq!(state.claimed_columns[0], Some(0));
}

#[test]
fn a_roll_without_moves_busts() {
    let mut state = cs_start();
    state.locked_in_columns = vec![10, 11, 12];
    state.temp_position[8] = Some(3);
    let state = CSAction::DiceRoll(1, 1, 1, 1).execute(&state);
    assert_eq!(state.next_player, 1);
    assert!(state.locked_in_columns.is_empty());
    assert_eq!(state.temp_position, [None; 11]);
    assert!(state.dice_next);
}

#[test]
fn three_claimed_columns_win() {
    let mut state = cs_start();
    state.claimed_columns[0] = Some(1);
    state.claimed_columns[1] = Some(1);
    assert!(!state.terminal());
    assert_eq!(state.reward_flags(), vec![false, false]);
    state.claimed_columns[2] = Some(1);
    assert!(state.terminal());
    assert_eq!(state.reward_flags(), vec![false, true]);
}

#[test]
fn claimed_columns_are_counted_per_player() {
    let mut state = cs_start();
    assert_eq!(state.player_claimed_count(), vec![0, 0]);
    state.claimed_columns[4] = Some(0);
    state.claimed_columns[7] = Some(1);
    state.claimed_columns[9] = Some(1);
    assert_eq!(state.player_claimed_count(), vec![1, 2]);
}

#[test]
fn connect_four_drops_to_the_bottom_and_finds_four_down() {
    let game = C4;
    let mut state = game.init_game(&C4Hyperparams::default());
    assert_eq!(state.board.len(), 42);
    assert_eq!(state.permitted_actions().len(), 7);
    state = C4Action::Drop(3).execute(&state);
    assert_eq!(state.board[5 * 7 + 3], C4Cell::Filled(0));
    assert_eq!(state.next_player, 1);
    let mut state = game.init_game(&C4Hyperparams::default());
    for _ in 0..3 {
        state = C4Action::Drop(0).execute(&state);
        state = C4Action::Drop(1).execute(&state);
    }
    assert!(!state.terminal());
    state = C4Action::Drop(0).execute(&state);
    assert!(state.terminal());
    assert_eq!(state.outcome, CheckForWinResult::Winner(0));
    assert!(state.first_player_won());
}

#[test]
fn connect_four_finds_lines_across_and_diagonally_and_full_boards() {
    let mut board = vec![C4Cell::Empty; 42];
    for c in 2..6 {
        board[5 * 7 + c] = C4Cell::Filled(1);
    }
    assert_eq!(check_for_win(&board, 7, 6), CheckForWinResult::Winner(1));
    let mut board = vec![C4Cell::Empty; 42];
    for k in 0..4 {
        board[(5 - k) * 7 + k] = C4Cell::Filled(0);
    }
    assert_eq!(check_for_win(&board, 7, 6), CheckForWinResult::Winner(0));
    let mut board = vec![C4Cell::Empty; 42];
    for k in 0..4 {
        board[k * 7 + k] = C4Cell::Filled(1);
    }
    assert_eq!(check_for_win(&board, 7, 6), CheckForWinResult::Winner(1));
    let board: Vec<C4Cell> = (0..42).map(|i| C4Cell::Filled(((i / 2) % 2) as u8)).collect();
    assert_eq!(check_for_win(&board, 7, 6), CheckForWinResult::Stalemate);
    assert_eq!(check_for_win(&vec![C4Cell::Empty; 42], 7, 6), CheckForWinResult::Ongoing);
}

#[test]
fn a_full_column_is_not_offered() {
    let mut state = C4.init_game(&C4Hyperparams::default());
    for _ in 0..6 {
        state = C4Action::Drop(2).execute(&state);
    }
    assert!(!state.permitted_actions().contains(&C4Action::Drop(2)));
    assert_eq!(state.permitted_actions().len(), 6);
}

#[test]
fn a_draw_lands_on_the_item_its_weight_covers() {
    let items = || vec![("a", 1u32), ("b", 2), ("c", 3)];
    assert_eq!(pick_weighted(items(), 0), "a");
    assert_eq!(pick_weighted(items(), 1), "b");
    assert_eq!(pick_weighted(items(), 2), "b");
    assert_eq!(pick_weighted(items(), 3), "c");
    assert_eq!(pick_weighted(items(), 5), "c");
}

#[test]
fn weightless_items_are_never_picked() {
    for _ in 0..50 {
        assert_eq!(weighted_random(vec![("x", 0u32), ("y", 3), ("z", 0)]), "y");
    }
    let mut seen = [false; 2];
    for _ in 0..200 {
        let i: usize = weighted_random(vec![(0usize, 1u32), (1, 1)]);
        seen[i] = true;
    }
    assert!(seen[0] && seen[1]);
}

#[test]
fn the_silent_sender_accepts_everything() {
    let sender: NoopSender<u32> = NoopSender::new();
    assert!(sender.send(7).is_ok());
}

#[test]
fn best_turn_policies_have_their_names() {
    assert_eq!(BestTurnPolicy::MostVisits.label(), "most-visits");
    assert_eq!(BestTurnPolicy::Ucb0.label(), "ucb0");
}

#[test]
fn any_value_can_be_drawn() {
    let state = NT { player_count: 3 }.init_game();
    let state = NTAction::Draw(200).execute(&state);
    assert_eq!(state.current_card, Some(200));
    assert!(!state.to_draw);
    assert_eq!(state.tokens_on_card, 0);
    let state = NTAction::NoThanks.execute(&state);
    assert_eq!(state.tokens, vec![10, 11, 11]);
    assert_eq!(state.tokens_on_card, 1);
    assert_eq!(state.next_player, 1);
    // A value from outside the deck can be taken too; its tokens go along.
    let state = NTAction::Take.execute(&state);
    assert_eq!(state.cards[200], Some(CardState::Taken(1)));
    assert_eq!(state.tokens, vec![10, 12, 11]);
    assert_eq!(state.tokens_on_card, 0);
    assert_eq!(state.scores(), vec![-10, 200 - 12, -11]);
}

#[test]
fn places_rank_the_lowest_score_first_and_ties_by_seat() {
    let mut state = NT { player_count: 3 }.init_game();
    assert_eq!(state.places(), vec![0, 1, 2]);
    state.tokens = vec![11, 5, 8];
    assert_eq!(state.scores(), vec![-11, -5, -8]);
    assert_eq!(state.places(), vec![0, 2, 1]);
}

#[test]
fn lines_are_found_on_any_board_of_three_by_three_or_more() {
    let w = 300;
    let h = 3;
    let mut board = vec![C4Cell::Empty; w * h];
    for c in 296..300 {
        board[2 * w + c] = C4Cell::Filled(5);
    }
    assert_eq!(check_for_win(&board, w, h), CheckForWinResult::Winner(5));
    let small = vec![C4Cell::Empty; 9];
    assert_eq!(check_for_win(&small, 3, 3), CheckForWinResult::Ongoing);
}
