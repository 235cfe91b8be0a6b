use demon_bluff_logic_engine::board_prediction::{evil_locations, predict_board_configs, BoardPrediction};
use demon_bluff_logic_engine::expression::Expression;
use demon_bluff_logic_engine::hypotheses::{
    ExecuteHypothesisBuilder, HypothesisBuilderType, MasterHypothesisBuilder, RevealHypothesisBuilder,
};
use demon_bluff_logic_engine::hypothesis::{
    HypothesisEvaluator, HypothesisRegistrar, ResultStatus, StackData, SubEvaluation,
};
use demon_bluff_logic_engine::next_step::{best_ability_uses, predict_step, AbilityScore};
use demon_bluff_logic_engine::optimized_expression::OptimizedExpression;
use demon_bluff_logic_engine::player_action::{AbilityAttempt, PlayerAction};
use demon_bluff_logic_engine::prediction::EvilPlacement;
use demon_bluff_logic_engine::prediction_error::PredictionError;
use demon_bluff_logic_engine::reveal_strategy::RevealStrategy;
use demon_bluff_logic_engine::testimony::{IndexTestimony, Role, Testimony};
use demon_bluff_logic_engine::theoretical::{Assignment, LayoutWithTestimonyAssigments};
use demon_bluff_logic_engine::validation::{BoardLayout, TheoreticalVillager};
use demon_bluff_logic_engine::villager::{GameState, VillagerIndex, VillagerStatus};

fn good() -> TheoreticalVillager {
    TheoreticalVillager {
        identity: Role::Villager(0),
        archetype: Role::Villager(0),
        revealed: true,
        actually_dead: false,
        appears_evil: false,
        corrupted: false,
        will_lie: false,
        was_corrupt: false,
        baked_from: None,
        affection: None,
        unknown_unrevealed_good: false,
        testimony: None,
    }
}

fn evil() -> TheoreticalVillager {
    TheoreticalVillager {
        identity: Role::Minion(0),
        archetype: Role::Minion(0),
        appears_evil: true,
        will_lie: true,
        ..good()
    }
}

fn says(v: TheoreticalVillager, t: Testimony) -> TheoreticalVillager {
    TheoreticalVillager { testimony: Some(Expression::Leaf(t)), ..v }
}

fn candidate(villagers: Vec<TheoreticalVillager>) -> LayoutWithTestimonyAssigments<BoardLayout, IndexTestimony> {
    LayoutWithTestimonyAssigments { layout: BoardLayout { villagers }, satisfying_assignments: vec![] }
}

fn claim_one_is_evil() -> IndexTestimony {
    IndexTestimony { index: VillagerIndex(0), testimony: Testimony::Evil(VillagerIndex(1)) }
}

fn compiled_claim() -> Option<OptimizedExpression<IndexTestimony>> {
    Some(OptimizedExpression::new(&Expression::Leaf(claim_one_is_evil())))
}

fn active() -> VillagerStatus {
    VillagerStatus::Active { has_testimony: true, action_available: false, cant_kill: false, is_knight: false }
}

fn all_active(n: usize) -> GameState {
    GameState { villagers: vec![active(); n] }
}

fn predict(
    configs: &Vec<LayoutWithTestimonyAssigments<BoardLayout, IndexTestimony>>,
    expressions: &Vec<Option<OptimizedExpression<IndexTestimony>>>,
    tried: &Vec<Vec<bool>>,
    state: &GameState,
) -> Result<BoardPrediction, PredictionError> {
    predict_board_configs(configs, expressions, tried, state, true, false, false, false, false)
}

#[test]
fn evil_locations_are_the_seats_of_evil_roles() {
    let seats = evil_locations(&vec![good(), evil(), good(), evil()]);
    assert_eq!(seats, vec![VillagerIndex(1), VillagerIndex(3)]);
}

#[test]
fn no_candidate_is_unsolvable() {
    let result = predict(&vec![], &vec![], &vec![vec![true]], &all_active(3));
    assert!(matches!(result, Err(PredictionError::GameUnsolvable)));
}

#[test]
fn one_candidate_settles_the_evils() {
    let configs = vec![candidate(vec![good(), evil(), good()])];
    match predict(&configs, &vec![None], &vec![], &all_active(3)) {
        Ok(BoardPrediction::Prediction { matching, most_common }) => {
            assert_eq!(matching.len(), 1);
            assert_eq!(matching[0].0, 0);
            assert!(matching[0].1.is_empty());
            assert!(most_common.is_none());
        }
        _ => panic!("one candidate gives a prediction"),
    }
}

#[test]
fn no_testimony_needs_more_information() {
    let configs = vec![candidate(vec![good(), evil(), good()]), candidate(vec![good(), good(), evil()])];
    match predict(&configs, &vec![None, None], &vec![vec![true]], &all_active(3)) {
        Ok(BoardPrediction::NeedMoreInfo(all)) => {
            assert_eq!(all.len(), 2);
            assert_eq!(all[0].0, 0);
            assert_eq!(all[1].0, 1);
            assert!(all[0].1.is_empty() && all[1].1.is_empty());
        }
        _ => panic!("without testimony more information is needed"),
    }
}

#[test]
fn nothing_to_try_is_unsolvable() {
    let configs = vec![
        candidate(vec![says(good(), Testimony::Evil(VillagerIndex(1))), evil(), good()]),
        candidate(vec![says(good(), Testimony::Evil(VillagerIndex(1))), good(), evil()]),
    ];
    let result = predict(&configs, &vec![compiled_claim(), compiled_claim()], &vec![], &all_active(3));
    assert!(matches!(result, Err(PredictionError::GameUnsolvable)));
}

#[test]
fn no_agreeing_candidate_is_unsolvable() {
    let configs = vec![
        candidate(vec![says(good(), Testimony::Evil(VillagerIndex(1))), good(), evil()]),
        candidate(vec![says(good(), Testimony::Evil(VillagerIndex(1))), good(), evil()]),
    ];
    let result = predict(&configs, &vec![compiled_claim(), compiled_claim()], &vec![vec![true], vec![false]], &all_active(3));
    assert!(matches!(result, Err(PredictionError::GameUnsolvable)));
}

#[test]
fn only_the_agreeing_candidate_is_kept() {
    let configs = vec![
        candidate(vec![says(good(), Testimony::Evil(VillagerIndex(1))), evil(), good()]),
        candidate(vec![says(good(), Testimony::Evil(VillagerIndex(1))), good(), evil()]),
    ];
    let result = predict(&configs, &vec![compiled_claim(), compiled_claim()], &vec![vec![true], vec![false]], &all_active(3));
    match result {
        Ok(BoardPrediction::Prediction { matching, most_common }) => {
            assert_eq!(matching.len(), 1);
            assert_eq!(matching[0].0, 0);
            assert_eq!(matching[0].1.len(), 1);
            assert_eq!(matching[0].1[0].get(&claim_one_is_evil()), Some(true));
            assert!(most_common.is_none());
        }
        _ => panic!("the first candidate agrees"),
    }
}

#[test]
fn a_seat_every_layout_shares_is_executed() {
    let configs = vec![
        candidate(vec![says(good(), Testimony::Evil(VillagerIndex(1))), evil(), evil(), good()]),
        candidate(vec![says(good(), Testimony::Evil(VillagerIndex(1))), evil(), good(), evil()]),
    ];
    let result = predict(&configs, &vec![compiled_claim(), compiled_claim()], &vec![vec![true]], &all_active(4));
    match result {
        Ok(BoardPrediction::Prediction { matching, most_common: Some((seats, count)) }) => {
            assert_eq!(matching.len(), 2);
            assert_eq!(seats, vec![VillagerIndex(1)]);
            assert_eq!(count, Some(2));
        }
        _ => panic!("seat 1 is evil in every agreeing layout"),
    }
}

#[test]
fn hypothetical_pass_checks_own_assignments() {
    let mut yes = Assignment::new();
    yes.insert(claim_one_is_evil(), true);
    let mut no = Assignment::new();
    no.insert(claim_one_is_evil(), false);
    let configs = vec![
        LayoutWithTestimonyAssigments {
            layout: BoardLayout { villagers: vec![says(good(), Testimony::Evil(VillagerIndex(1))), evil(), good()] },
            satisfying_assignments: vec![no, yes],
        },
        LayoutWithTestimonyAssigments {
            layout: BoardLayout { villagers: vec![says(good(), Testimony::Evil(VillagerIndex(1))), good(), evil()] },
            satisfying_assignments: vec![],
        },
    ];
    let result = predict_board_configs(
        &configs,
        &vec![compiled_claim(), compiled_claim()],
        &vec![],
        &all_active(3),
        false,
        false,
        false,
        false,
        false,
    );
    match result {
        Ok(BoardPrediction::Prediction { matching, most_common }) => {
            assert_eq!(matching.len(), 1);
            assert_eq!(matching[0].0, 0);
            assert_eq!(matching[0].1.len(), 1);
            assert_eq!(matching[0].1[0].get(&claim_one_is_evil()), Some(true));
            assert!(most_common.is_none());
        }
        _ => panic!("the first candidate agrees with one of its assignments"),
    }
}

fn score(source: usize, highest: usize, total: usize, groups: usize) -> AbilityScore {
    AbilityScore { attempt: AbilityAttempt::new(VillagerIndex(source), vec![]), highest, total, groups }
}

#[test]
fn best_uses_compare_shares_exactly() {
    let scores = vec![score(0, 1, 2, 5), score(1, 2, 3, 0), score(2, 4, 6, 0), score(3, 2, 3, 1)];
    assert_eq!(best_ability_uses(&scores), vec![3]);
    let ties = vec![score(0, 1, 2, 5), score(1, 2, 3, 0), score(2, 4, 6, 0)];
    assert_eq!(best_ability_uses(&ties), vec![1, 2]);
}

#[test]
fn weighing_stops_at_the_first_settling_use() {
    let scores = vec![score(0, 1, 2, 0), score(1, 3, 3, 0), score(2, 2, 2, 9)];
    assert_eq!(best_ability_uses(&scores), vec![1]);
    assert!(best_ability_uses(&vec![]).is_empty());
}

fn executed(actions: &[PlayerAction]) -> Vec<usize> {
    let mut seats: Vec<usize> = actions
        .iter()
        .map(|a| match a {
            PlayerAction::TryExecute(x) => x.0,
            _ => panic!("only executions expected"),
        })
        .collect();
    seats.sort();
    seats
}

#[test]
fn step_executes_the_given_seats() {
    let board = BoardPrediction::Prediction {
        matching: vec![],
        most_common: Some((vec![VillagerIndex(3), VillagerIndex(1)], None)),
    };
    let actions = predict_step(&all_active(4), board, &vec![], RevealStrategy::Simple, &vec![]).unwrap();
    assert_eq!(executed(&actions), vec![1, 3]);
}

#[test]
fn step_without_seats_is_inconclusive() {
    let board = BoardPrediction::Prediction { matching: vec![], most_common: Some((vec![], None)) };
    let result = predict_step(&all_active(4), board, &vec![], RevealStrategy::Simple, &vec![]);
    assert!(matches!(result, Err(PredictionError::ConclusiveNoAction)));
}

#[test]
fn step_kills_a_night_evil_first() {
    let placements = vec![
        vec![
            EvilPlacement { index: VillagerIndex(1), night_affect: false },
            EvilPlacement { index: VillagerIndex(2), night_affect: true },
        ],
        vec![EvilPlacement { index: VillagerIndex(3), night_affect: false }],
    ];
    let board = BoardPrediction::Prediction { matching: vec![(0, vec![])], most_common: None };
    let actions = predict_step(&all_active(4), board, &placements, RevealStrategy::Simple, &vec![]).unwrap();
    assert_eq!(executed(&actions), vec![2]);
    let board = BoardPrediction::Prediction { matching: vec![(1, vec![])], most_common: None };
    let actions = predict_step(&all_active(4), board, &placements, RevealStrategy::Simple, &vec![]).unwrap();
    assert_eq!(executed(&actions), vec![3]);
}

#[test]
fn step_reveals_while_it_can() {
    let state = GameState {
        villagers: vec![active(), VillagerStatus::Hidden { cant_reveal: false, cant_kill: false }, active()],
    };
    let actions = predict_step(&state, BoardPrediction::NeedMoreInfo(vec![]), &vec![], RevealStrategy::Simple, &vec![]).unwrap();
    assert_eq!(actions.len(), 1);
    assert!(matches!(actions[0], PlayerAction::TryReveal(VillagerIndex(1))));
}

#[test]
fn step_uses_the_best_abilities() {
    let scores = vec![score(0, 1, 2, 0), score(2, 2, 3, 0), score(1, 4, 6, 0)];
    let actions = predict_step(&all_active(3), BoardPrediction::NeedMoreInfo(vec![]), &vec![], RevealStrategy::Simple, &scores).unwrap();
    let sources: Vec<usize> = actions
        .iter()
        .map(|a| match a {
            PlayerAction::Ability(attempt) => attempt.source().0,
            _ => panic!("only ability uses expected"),
        })
        .collect();
    assert_eq!(sources, vec![2, 1]);
}

#[test]
fn step_without_ability_uses_is_inconclusive() {
    let result = predict_step(&all_active(3), BoardPrediction::NeedMoreInfo(vec![]), &vec![], RevealStrategy::Simple, &vec![]);
    assert!(matches!(result, Err(PredictionError::ConclusiveNoAction)));
}

fn references() -> (HypothesisRegistrar, Vec<demon_bluff_logic_engine::hypothesis::HypothesisReference>) {
    let mut registrar = HypothesisRegistrar::new();
    let a = registrar.register(HypothesisBuilderType::Master(MasterHypothesisBuilder {}));
    let b = registrar.register(HypothesisBuilderType::Execute(ExecuteHypothesisBuilder {}));
    let c = registrar.register(HypothesisBuilderType::Reveal(RevealHypothesisBuilder {}));
    (registrar, vec![a, b, c])
}

#[test]
fn sub_evaluation_enters_new_hypotheses_and_records_dependencies() {
    let (_, r) = references();
    let mut evaluator = HypothesisEvaluator { stack: StackData::new(&r[0]), break_at: None, dependencies: vec![vec![], vec![], vec![]] };
    let current = vec![ResultStatus::Pending, ResultStatus::Unknown, ResultStatus::Unknown];
    assert!(matches!(evaluator.sub_evaluate(&r[1], &current, None), SubEvaluation::Enter));
    assert!(matches!(evaluator.sub_evaluate(&r[1], &current, None), SubEvaluation::Enter));
    assert_eq!(evaluator.dependencies[0].len(), 1);
    assert_eq!(evaluator.dependencies[0][0].index(), 1);
    assert!(evaluator.dependencies[1].is_empty());
}

#[test]
fn sub_evaluation_reuses_known_results() {
    let (_, r) = references();
    let mut evaluator = HypothesisEvaluator { stack: StackData::new(&r[0]), break_at: None, dependencies: vec![vec![], vec![], vec![]] };
    let current = vec![ResultStatus::Pending, ResultStatus::Pending, ResultStatus::Unknown];
    assert!(matches!(
        evaluator.sub_evaluate(&r[1], &current, None),
        SubEvaluation::Reuse { previous: false, conclusive: false }
    ));
    let previous = vec![ResultStatus::Pending, ResultStatus::Pending, ResultStatus::Conclusive];
    assert!(matches!(
        evaluator.sub_evaluate(&r[2], &current, Some(&previous)),
        SubEvaluation::Reuse { previous: true, conclusive: false }
    ));
}

#[test]
fn sub_evaluation_breaking_a_cycle_is_conclusive() {
    let (_, r) = references();
    let mut evaluator = HypothesisEvaluator {
        stack: StackData::new(&r[0]),
        break_at: Some(r[0].clone()),
        dependencies: vec![vec![], vec![], vec![]],
    };
    let current = vec![ResultStatus::Pending, ResultStatus::Unknown, ResultStatus::Unknown];
    let previous = vec![ResultStatus::Pending, ResultStatus::Pending, ResultStatus::Pending];
    assert!(matches!(
        evaluator.sub_evaluate(&r[1], &current, Some(&previous)),
        SubEvaluation::Reuse { previous: true, conclusive: true }
    ));
}

#[test]
fn sub_evaluation_detects_a_cycle() {
    let (_, r) = references();
    let stack = StackData::new(&r[0]).push(r[1].clone());
    let mut evaluator = HypothesisEvaluator { stack, break_at: None, dependencies: vec![vec![], vec![], vec![]] };
    let current = vec![ResultStatus::Unknown, ResultStatus::Pending, ResultStatus::Unknown];
    let previous = vec![ResultStatus::Pending, ResultStatus::Pending, ResultStatus::Pending];
    match evaluator.sub_evaluate(&r[0], &current, Some(&previous)) {
        SubEvaluation::Cycle(cycle) => {
            let order: Vec<usize> = cycle.order_from_root().iter().map(|x| x.index()).collect();
            assert_eq!(order, vec![0, 1]);
        }
        other => panic!("expected a cycle, got {:?}", other),
    }
    assert_eq!(evaluator.dependencies[1].len(), 1);
    assert_eq!(evaluator.dependencies[1][0].index(), 0);
}
