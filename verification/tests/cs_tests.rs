use std::collections::HashMap;

use mon2y::cs::{dice_actions, CSAction};

#[test]
fn test_dice_actions_weights() {
    let test_cases = vec![
        (CSAction::DiceRoll(1, 1, 1, 1), 1),
        (CSAction::DiceRoll(1, 4, 4, 4), 4),
        (CSAction::DiceRoll(1, 3, 3, 5), 12),
        (CSAction::DiceRoll(1, 3, 4, 6), 24),
    ];

    let actions: HashMap<CSAction, u32> = dice_actions().iter().map(|(action, weight)| (*action, *weight)).collect();

    for (action, expected_weight) in test_cases {
        let actual_weight = actions.get(&action).unwrap_or(&0);
        assert_eq!(
            *actual_weight, expected_weight,
            "Action {:?} has weight {}, expected {}",
            action, actual_weight, expected_weight
        );
    }
}
