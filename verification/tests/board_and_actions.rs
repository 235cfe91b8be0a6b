use std::collections::HashSet;
use demon_bluff_logic_engine::player_action::{AbilityAttempt, PlayerAction};
use demon_bluff_logic_engine::prediction::{
    execute_most_common, kill_board_configs, most_common_evil_indices, prefer_hidden_or_knights, shared_evil_index,
    EvilPlacement,
};
use demon_bluff_logic_engine::prediction_error::PredictionError;
use demon_bluff_logic_engine::reveal_strategy::{simple_reveal, RevealStrategy};
use demon_bluff_logic_engine::villager::{
    any_revealed, can_get_more_information, first_hidden_index, first_revealable_index, GameState,
    VillagerIndex, VillagerStatus,
};

fn hidden(cant_reveal: bool) -> VillagerStatus {
    VillagerStatus::Hidden { cant_reveal, cant_kill: false }
}

fn active(has_testimony: bool, is_knight: bool) -> VillagerStatus {
    VillagerStatus::Active { has_testimony, action_available: false, cant_kill: false, is_knight }
}

fn confirmed(has_testimony: bool) -> VillagerStatus {
    VillagerStatus::Confirmed { has_testimony, action_available: false }
}

fn v(i: usize) -> VillagerIndex {
    VillagerIndex(i)
}

#[test]
fn nothing_revealed_at_start() {
    let state = GameState { villagers: vec![hidden(false), hidden(false), hidden(false)] };
    assert!(!any_revealed(&state));
    assert_eq!(first_revealable_index(&state), Some(v(0)));
    assert_eq!(first_hidden_index(&state), Some(v(0)));
}

#[test]
fn first_revealable_skips_unrevealable() {
    let state = GameState { villagers: vec![active(true, false), hidden(true), hidden(false)] };
    assert!(any_revealed(&state));
    assert_eq!(first_revealable_index(&state), Some(v(2)));
    assert_eq!(first_hidden_index(&state), Some(v(1)));
}

#[test]
fn no_revealable_villager() {
    let state = GameState { villagers: vec![active(true, false), hidden(true), confirmed(true)] };
    assert_eq!(first_revealable_index(&state), None);
    assert!(!can_get_more_information(&state));
}

#[test]
fn more_information_from_missing_testimony() {
    let state = GameState { villagers: vec![active(true, false), confirmed(false)] };
    assert!(can_get_more_information(&state));
    let state = GameState { villagers: vec![active(false, false), confirmed(true)] };
    assert!(can_get_more_information(&state));
    let state = GameState { villagers: vec![active(true, false), hidden(false)] };
    assert!(can_get_more_information(&state));
}

#[test]
fn simple_strategy_reveals_lowest_hidden_seat() {
    let state = GameState { villagers: vec![active(true, false), confirmed(true), hidden(true), hidden(false)] };
    let actions = RevealStrategy::Simple.get_reveal(&state);
    assert_eq!(actions, vec![PlayerAction::TryReveal(v(2))]);
    assert_eq!(simple_reveal(&state), vec![PlayerAction::TryReveal(v(2))]);
}

#[test]
fn ability_attempt_equality_ignores_target_order_and_repetition() {
    let a = AbilityAttempt::new(v(1), vec![v(3), v(0), v(3)]);
    let b = AbilityAttempt::new(v(1), vec![v(0), v(3)]);
    let c = AbilityAttempt::new(v(2), vec![v(0), v(3)]);
    let d = AbilityAttempt::new(v(1), vec![v(0), v(4)]);
    assert_eq!(a, b);
    assert_ne!(a, c);
    assert_ne!(a, d);
    assert_eq!(a.targets(), &[v(0), v(3)]);
    assert_eq!(*a.source(), v(1));
    assert_eq!(PlayerAction::Ability(a.clone()), PlayerAction::Ability(b));
    assert_ne!(PlayerAction::TryExecute(v(1)), PlayerAction::TryReveal(v(1)));
    assert_eq!(PlayerAction::TryExecute(v(1)), PlayerAction::TryExecute(v(1)));
}

#[test]
fn equal_attempts_hash_alike() {
    let mut set = HashSet::new();
    set.insert(PlayerAction::Ability(AbilityAttempt::new(v(1), vec![v(3), v(0)])));
    set.insert(PlayerAction::Ability(AbilityAttempt::new(v(1), vec![v(0), v(3), v(0)])));
    assert_eq!(set.len(), 1);
}

#[test]
fn prediction_error_messages() {
    assert_eq!(
        PredictionError::ConclusiveNoAction.message(),
        "Evaluation could not determine an action to perform!"
    );
    assert_eq!(
        PredictionError::GameUnsolvable.message(),
        "The SAT solver could not find a solution to the game based on available permutations!"
    );
}

#[test]
fn most_common_evil_seat_counts() {
    let layouts = vec![vec![v(1), v(4)], vec![v(1), v(2)], vec![v(2), v(1)]];
    let result = most_common_evil_indices(&layouts);
    assert_eq!(result.highest_count, 3);
    assert_eq!(result.most_common, vec![v(1)]);
    assert_eq!(shared_evil_index(&layouts), Some(v(1)));
}

#[test]
fn most_common_evil_seats_tie() {
    let layouts = vec![vec![v(1), v(4)], vec![v(2), v(4)], vec![v(2), v(1)]];
    let result = most_common_evil_indices(&layouts);
    assert_eq!(result.highest_count, 2);
    let mut seats = result.most_common.clone();
    seats.sort();
    assert_eq!(seats, vec![v(1), v(2), v(4)]);
    assert_eq!(shared_evil_index(&layouts), None);
}

#[test]
fn no_layouts_no_common_seat() {
    let layouts: Vec<Vec<VillagerIndex>> = vec![];
    let result = most_common_evil_indices(&layouts);
    assert_eq!(result.highest_count, 0);
    assert!(result.most_common.is_empty());
    assert_eq!(shared_evil_index(&layouts), None);
}

#[test]
fn two_seats_in_every_layout_are_not_a_single_shared_seat() {
    let layouts = vec![vec![v(1), v(2)], vec![v(2), v(1)]];
    assert_eq!(shared_evil_index(&layouts), None);
}

#[test]
fn prefers_hidden_then_knights() {
    let state = GameState {
        villagers: vec![active(true, true), hidden(false), active(true, false), hidden(true)],
    };
    assert_eq!(prefer_hidden_or_knights(&state, vec![v(0), v(1), v(2), v(3)]), vec![v(1), v(3)]);
    assert_eq!(prefer_hidden_or_knights(&state, vec![v(2), v(0)]), vec![v(0)]);
    assert_eq!(prefer_hidden_or_knights(&state, vec![v(2)]), vec![v(2)]);
}

fn evil(i: usize, night: bool) -> EvilPlacement {
    EvilPlacement { index: v(i), night_affect: night }
}

#[test]
fn kills_all_evils_without_night_roles() {
    let boards = vec![vec![evil(1, false), evil(3, false)], vec![evil(3, false), evil(5, false)]];
    let kills = kill_board_configs(&boards);
    assert_eq!(
        kills,
        vec![PlayerAction::TryExecute(v(1)), PlayerAction::TryExecute(v(3)), PlayerAction::TryExecute(v(5))]
    );
}

#[test]
fn night_role_is_executed_first() {
    let boards = vec![
        vec![evil(0, false)],
        vec![evil(2, false), evil(4, true), evil(6, true)],
        vec![evil(7, false)],
    ];
    let kills = kill_board_configs(&boards);
    assert_eq!(kills, vec![PlayerAction::TryExecute(v(0)), PlayerAction::TryExecute(v(4))]);
}

#[test]
fn no_layouts_no_kills() {
    let boards: Vec<Vec<EvilPlacement>> = vec![];
    assert!(kill_board_configs(&boards).is_empty());
}

#[test]
fn most_common_seats_are_executed_once_each() {
    let actions = execute_most_common(&vec![VillagerIndex(3), VillagerIndex(1), VillagerIndex(3)]);
    assert_eq!(actions.len(), 2);
    let set: HashSet<PlayerAction> = actions.into_iter().collect();
    assert!(set.contains(&PlayerAction::TryExecute(VillagerIndex(3))));
    assert!(set.contains(&PlayerAction::TryExecute(VillagerIndex(1))));
    assert!(execute_most_common(&vec![]).is_empty());
}
