use demon_bluff_logic_engine::player_action::AbilityAttempt;
use demon_bluff_logic_engine::theoretical::{
    expand_assignments, AbilityPrediction, Assignment, LayoutWithTestimonyAssigments,
};
use demon_bluff_logic_engine::villager::VillagerIndex;

fn assignment(pairs: &[(u32, bool)]) -> Assignment<u32> {
    let mut a = Assignment::new();
    for (k, b) in pairs {
        a.insert(*k, *b);
    }
    a
}

#[test]
fn insert_then_get() {
    let mut a = assignment(&[(1, true)]);
    assert_eq!(a.get(&1), Some(true));
    assert_eq!(a.get(&2), None);
    a.insert(1, false);
    assert_eq!(a.get(&1), Some(false));
    assert!(a.contains_key(&1));
    assert!(!a.contains_key(&5));
}

#[test]
fn expansion_doubles_per_new_testimony() {
    let start = vec![assignment(&[(1, true)]), assignment(&[(1, false)])];
    let expanded = expand_assignments(&start, &vec![7, 1, 8, 7]);
    assert_eq!(expanded.len(), 8);
    // testimony 7: the first two assign it true, the next two false
    let sevens: Vec<Option<bool>> = expanded.iter().map(|a| a.get(&7)).collect();
    assert_eq!(sevens, vec![Some(true), Some(true), Some(false), Some(false), Some(true), Some(true), Some(false), Some(false)]);
    let eights: Vec<Option<bool>> = expanded.iter().map(|a| a.get(&8)).collect();
    assert_eq!(eights, vec![Some(true), Some(true), Some(true), Some(true), Some(false), Some(false), Some(false), Some(false)]);
    let ones: Vec<Option<bool>> = expanded.iter().map(|a| a.get(&1)).collect();
    assert_eq!(ones, vec![Some(true), Some(false), Some(true), Some(false), Some(true), Some(false), Some(true), Some(false)]);
}

#[test]
fn known_testimony_does_not_expand() {
    let start = vec![assignment(&[(1, true), (2, false)])];
    let expanded = expand_assignments(&start, &vec![2, 1]);
    assert_eq!(expanded.len(), 1);
    assert_eq!(expanded[0].get(&2), Some(false));
}

fn layout(name: &str) -> LayoutWithTestimonyAssigments<String, u32> {
    LayoutWithTestimonyAssigments { layout: name.to_string(), satisfying_assignments: vec![Assignment::new()] }
}

#[test]
fn predictions_group_by_attempt_and_original_layout() {
    let mut prediction: AbilityPrediction<String, String, u32> = AbilityPrediction::new();
    let a = AbilityAttempt::new(VillagerIndex(0), vec![VillagerIndex(1)]);
    let b = AbilityAttempt::new(VillagerIndex(0), vec![VillagerIndex(2)]);
    prediction.record(a.clone(), &"A".to_string(), layout("A1"));
    prediction.record(a.clone(), &"A".to_string(), layout("A2"));
    prediction.record(a.clone(), &"B".to_string(), layout("B1"));
    prediction.record(b.clone(), &"A".to_string(), layout("A3"));
    assert_eq!(prediction.attempt_predictions.len(), 2);
    let (first, mutations) = &prediction.attempt_predictions[0];
    assert_eq!(*first, a);
    assert_eq!(mutations.len(), 2);
    assert_eq!(mutations[0].original_layout, "A");
    let names: Vec<&str> = mutations[0].potential_layouts.iter().map(|l| l.layout.as_str()).collect();
    assert_eq!(names, vec!["A1", "A2"]);
    assert_eq!(mutations[1].original_layout, "B");
    assert_eq!(prediction.attempt_predictions[1].0, b);
    assert_eq!(prediction.attempt_predictions[1].1[0].potential_layouts[0].layout, "A3");
}
