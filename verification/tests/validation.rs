use demon_bluff_logic_engine::ability_prediction::{predict_ability_outcomes, testimonies_remain};
use demon_bluff_logic_engine::expression::Expression;
use demon_bluff_logic_engine::optimized_expression::OptimizedExpression;
use demon_bluff_logic_engine::testimony::{
    condemns, exonerates, Condemns, ConfessorClaim, Direction, IndexTestimony, Role, Testimony,
};
use demon_bluff_logic_engine::theoretical::{Assignment, LayoutWithTestimonyAssigments};
use demon_bluff_logic_engine::theoretical_testimony::{
    generate_theoreticals_for_first_villager_with_ability, jester_report, retain_consistent_assignments,
    theoretical_testimonies,
};
use demon_bluff_logic_engine::validation::{
    assignment_for_variables, assignment_matches_layout, index_offset, satisfying_assignment,
    testimony_valid, validate_assignment, BoardLayout, TheoreticalVillager,
};
use demon_bluff_logic_engine::villager::VillagerIndex;

fn good() -> TheoreticalVillager {
    TheoreticalVillager {
        identity: Role::Villager(0),
        archetype: Role::Villager(0),
        revealed: true,
        actually_dead: false,
        appears_evil: false,
        corrupted: false,
        will_lie: false,
        was_corrupt: false,
        baked_from: None,
        affection: None,
        unknown_unrevealed_good: false,
        testimony: None,
    }
}

fn evil() -> TheoreticalVillager {
    TheoreticalVillager {
        identity: Role::Minion(0),
        archetype: Role::Minion(0),
        appears_evil: true,
        will_lie: true,
        ..good()
    }
}

fn says(v: TheoreticalVillager, t: Testimony) -> TheoreticalVillager {
    TheoreticalVillager { testimony: Some(Expression::Leaf(t)), ..v }
}

fn board(villagers: Vec<TheoreticalVillager>) -> BoardLayout {
    BoardLayout { villagers }
}

fn holds(b: &BoardLayout, speaker: usize, t: Testimony, truthful: bool) -> bool {
    testimony_valid(&b.villagers, VillagerIndex(speaker), &t, truthful, false, false, false, false)
}

#[test]
fn offsets_wrap_around_the_table() {
    assert_eq!(index_offset(VillagerIndex(0), 5, 1, true), VillagerIndex(1));
    assert_eq!(index_offset(VillagerIndex(0), 5, 1, false), VillagerIndex(4));
    assert_eq!(index_offset(VillagerIndex(3), 5, 7, true), VillagerIndex(0));
    assert_eq!(index_offset(VillagerIndex(3), 5, 7, false), VillagerIndex(1));
    assert_eq!(index_offset(VillagerIndex(4), 5, 5, true), VillagerIndex(4));
    assert_eq!(index_offset(VillagerIndex(2), 5, usize::MAX, true), VillagerIndex((2 + usize::MAX % 5) % 5));
}

#[test]
fn offset_there_and_back() {
    for k in 0..12 {
        let there = index_offset(VillagerIndex(2), 7, k, true);
        assert_eq!(index_offset(there, 7, k, false), VillagerIndex(2));
    }
}

#[test]
fn evil_claim_checked_against_board() {
    let b = board(vec![says(good(), Testimony::Evil(VillagerIndex(1))), evil(), good()]);
    let variables = [IndexTestimony { index: VillagerIndex(0), testimony: Testimony::Evil(VillagerIndex(1)) }];
    assert!(validate_assignment(&vec![true], &variables, &b, false, false, false, false));
    assert!(!validate_assignment(&vec![false], &variables, &b, false, false, false, false));
}

#[test]
fn claims_outside_the_testimony_are_ignored() {
    let b = board(vec![says(good(), Testimony::Evil(VillagerIndex(1))), evil(), good()]);
    let variables = [IndexTestimony { index: VillagerIndex(0), testimony: Testimony::Good(VillagerIndex(1)) }];
    assert!(validate_assignment(&vec![true], &variables, &b, false, false, false, false));
    assert!(validate_assignment(&vec![false], &variables, &b, false, false, false, false));
}

#[test]
fn unknown_good_reads_as_the_claim_when_wretch_in_play() {
    let hidden = TheoreticalVillager { unknown_unrevealed_good: true, revealed: false, ..good() };
    let b = board(vec![good(), hidden]);
    let t = Testimony::Good(VillagerIndex(1));
    assert!(testimony_valid(&b.villagers, VillagerIndex(0), &t, false, true, false, false, false) == false);
    assert!(testimony_valid(&b.villagers, VillagerIndex(0), &t, true, true, false, false, false));
    // without a wretch the seat reads as good whatever the claim says
    assert!(holds(&b, 0, t, false));
}

#[test]
fn simple_claims() {
    let corrupt = TheoreticalVillager { corrupted: true, ..good() };
    let cured = TheoreticalVillager { was_corrupt: true, ..good() };
    let knight = TheoreticalVillager { identity: Role::Knight, ..good() };
    let wretch = TheoreticalVillager { identity: Role::Wretch, appears_evil: true, ..good() };
    let baked = TheoreticalVillager { baked_from: Some(Role::Villager(3)), ..good() };
    let b = board(vec![baked, evil(), corrupt, cured, knight, wretch]);
    assert!(holds(&b, 0, Testimony::Corrupt(VillagerIndex(2)), true));
    assert!(!holds(&b, 0, Testimony::Corrupt(VillagerIndex(3)), true));
    assert!(holds(&b, 0, Testimony::Cured(VillagerIndex(3)), true));
    assert!(holds(&b, 0, Testimony::Lying(VillagerIndex(1)), true));
    assert!(holds(&b, 0, Testimony::Invincible(VillagerIndex(4)), true));
    assert!(holds(&b, 0, Testimony::FakeEvil(VillagerIndex(5)), true));
    assert!(!holds(&b, 0, Testimony::SelfDestruct(VillagerIndex(5)), true));
    assert!(holds(&b, 0, Testimony::Baker { was: Some(Role::Villager(3)) }, true));
    assert!(!holds(&b, 0, Testimony::Baker { was: None }, true));
    assert!(holds(&b, 0, Testimony::Role { index: VillagerIndex(1), role: Role::Minion(0) }, true));
    // a wretch reads as a minion to a role claim
    assert!(holds(&b, 0, Testimony::Role { index: VillagerIndex(5), role: Role::Minion(7) }, true));
    assert!(holds(&b, 2, Testimony::Confess(ConfessorClaim::Dizzy), true));
    assert!(holds(&b, 0, Testimony::Confess(ConfessorClaim::Good), true));
    assert!(holds(&b, 0, Testimony::Slayed { index: VillagerIndex(1), slayed: true }, true));
    assert!(!holds(&b, 0, Testimony::Slayed { index: VillagerIndex(1), slayed: false }, true));
    assert!(holds(&b, 0, Testimony::Slayed { index: VillagerIndex(2), slayed: false }, true));
}

#[test]
fn scout_finds_nearest_evil() {
    // minion at seat 2, demon at seat 4: two places from the minion
    let demon = TheoreticalVillager { identity: Role::Demon(0), ..evil() };
    let b = board(vec![good(), good(), evil(), good(), demon]);
    let claim = |d| Testimony::Scout { evil_role: Role::Minion(0), distance: d };
    assert!(holds(&b, 0, claim(2), true));
    assert!(!holds(&b, 0, claim(1), true));
    assert!(!holds(&b, 0, claim(3), true));
    // nobody has the role
    assert!(!holds(&b, 0, Testimony::Scout { evil_role: Role::Minion(9), distance: 2 }, true));
}

#[test]
fn enlightened_points_to_nearest_evil() {
    let b = board(vec![good(), evil(), good(), good(), good()]);
    assert!(holds(&b, 0, Testimony::Enlightened(Direction::Clockwise), true));
    assert!(!holds(&b, 0, Testimony::Enlightened(Direction::CounterClockwise), true));
    let both = board(vec![good(), evil(), good(), evil()]);
    assert!(holds(&both, 2, Testimony::Enlightened(Direction::Equidistant), true));
}

#[test]
fn knitter_counts_neighbouring_evils() {
    let b = board(vec![evil(), evil(), good(), good()]);
    assert!(holds(&b, 2, Testimony::Knitter { pairs: 1 }, true));
    assert!(!holds(&b, 2, Testimony::Knitter { pairs: 0 }, true));
    assert!(!holds(&b, 2, Testimony::Knitter { pairs: 2 }, true));
}

#[test]
fn bard_measures_distance_to_corruption() {
    let corrupt = TheoreticalVillager { corrupted: true, ..good() };
    let b = board(vec![good(), good(), corrupt, good(), good()]);
    assert!(holds(&b, 0, Testimony::Bard(Some(2)), true));
    assert!(!holds(&b, 0, Testimony::Bard(Some(1)), true));
    assert!(!holds(&b, 0, Testimony::Bard(Some(3)), true));
    assert!(!holds(&b, 0, Testimony::Bard(Some(0)), true));
    assert!(!holds(&b, 0, Testimony::Bard(None), true));
    let clean = board(vec![good(), good(), good()]);
    assert!(holds(&clean, 0, Testimony::Bard(None), true));
}

#[test]
fn fortune_teller_and_druid() {
    let outcast = TheoreticalVillager { identity: Role::Outcast(1), ..good() };
    let b = board(vec![good(), evil(), good(), outcast]);
    let ft = |first, second, evil| Testimony::FortuneTeller {
        first: VillagerIndex(first),
        second: VillagerIndex(second),
        evil,
    };
    assert!(holds(&b, 0, ft(1, 2, true), true));
    assert!(!holds(&b, 0, ft(1, 2, false), true));
    assert!(holds(&b, 0, ft(2, 3, false), true));
    let druid = |outcast| Testimony::Druid {
        outcast,
        first: VillagerIndex(1),
        second: VillagerIndex(2),
        third: VillagerIndex(3),
    };
    assert!(holds(&b, 0, druid(Some(Role::Outcast(1))), true));
    assert!(!holds(&b, 0, druid(Some(Role::Outcast(2))), true));
    assert!(!holds(&b, 0, druid(None), true));
}

#[test]
fn testimonies_compare_by_value() {
    let a = Testimony::Scout { evil_role: Role::Minion(1), distance: 2 };
    assert!(a == Testimony::Scout { evil_role: Role::Minion(1), distance: 2 });
    assert!(a != Testimony::Scout { evil_role: Role::Minion(1), distance: 3 });
    assert!(Testimony::Bard(None) != Testimony::Bard(Some(1)));
    assert!(Testimony::Good(VillagerIndex(1)) != Testimony::Evil(VillagerIndex(1)));
}

#[test]
fn layout_matching_needs_expression_and_board() {
    let claim = IndexTestimony { index: VillagerIndex(0), testimony: Testimony::Evil(VillagerIndex(1)) };
    let expression = OptimizedExpression::new(&Expression::Leaf(claim));
    let b = board(vec![says(good(), claim.testimony), evil()]);
    assert!(assignment_matches_layout(&expression, &vec![true], &b, false, false, false, false));
    assert!(!assignment_matches_layout(&expression, &vec![false], &b, false, false, false, false));
    let honest = board(vec![says(good(), claim.testimony), good()]);
    assert!(!assignment_matches_layout(&expression, &vec![true], &honest, false, false, false, false));
}

#[test]
fn assignments_map_to_and_from_variables() {
    let a = IndexTestimony { index: VillagerIndex(0), testimony: Testimony::Evil(VillagerIndex(1)) };
    let c = IndexTestimony { index: VillagerIndex(1), testimony: Testimony::Good(VillagerIndex(0)) };
    let map = satisfying_assignment(&[a, c], &vec![true, false]);
    assert_eq!(map.get(&a), Some(true));
    assert_eq!(map.get(&c), Some(false));
    assert_eq!(assignment_for_variables(&[c, a], &map), vec![false, true]);
    let partial = satisfying_assignment(&[a], &vec![false]);
    assert_eq!(assignment_for_variables(&[c, a], &partial), vec![false]);
}

#[test]
fn judge_outcomes_cover_every_seat_both_ways() {
    let judge = TheoreticalVillager { archetype: Role::Judge, ..good() };
    let b = board(vec![judge, evil(), good()]);
    let outcomes = theoretical_testimonies(&b, VillagerIndex(0));
    assert_eq!(outcomes.len(), 6);
    for (k, (layout, attempt, claims)) in outcomes.iter().enumerate() {
        let target = VillagerIndex(k / 2);
        assert_eq!(*attempt.source(), VillagerIndex(0));
        assert_eq!(attempt.targets(), &[target]);
        assert_eq!(claims.len(), 1);
        assert!(claims[0] == IndexTestimony { index: VillagerIndex(0), testimony: Testimony::Lying(target) });
        match &layout.villagers[0].testimony {
            Some(Expression::Leaf(t)) => assert!(k % 2 == 0 && *t == Testimony::Lying(target)),
            Some(Expression::Not(inner)) => {
                assert!(k % 2 == 1);
                assert!(matches!(**inner, Expression::Leaf(t) if t == Testimony::Lying(target)));
            }
            _ => panic!("judge outcome without the judgement"),
        }
        assert!(layout.villagers[1].testimony.is_none());
    }
}

#[test]
fn slayer_kills_only_evil_looking_targets() {
    let slayer = TheoreticalVillager { archetype: Role::Slayer, ..good() };
    let dead = TheoreticalVillager { actually_dead: true, ..good() };
    let b = board(vec![slayer, evil(), good(), dead]);
    let outcomes = theoretical_testimonies(&b, VillagerIndex(0));
    assert_eq!(outcomes.len(), 2);
    let (first, attempt, claims) = &outcomes[0];
    assert_eq!(attempt.targets(), &[VillagerIndex(1)]);
    assert!(first.villagers[1].actually_dead);
    assert!(claims[0].testimony == Testimony::Slayed { index: VillagerIndex(1), slayed: true });
    let (second, _, claims) = &outcomes[1];
    assert!(!second.villagers[2].actually_dead);
    assert!(claims[0].testimony == Testimony::Slayed { index: VillagerIndex(2), slayed: false });
}

#[test]
fn plague_doctor_outcomes() {
    let doctor = TheoreticalVillager { archetype: Role::PlagueDoctor, ..good() };
    let corrupt = TheoreticalVillager { corrupted: true, ..good() };
    let b = board(vec![doctor, corrupt, evil(), good()]);
    let outcomes = theoretical_testimonies(&b, VillagerIndex(0));
    // seat 1 is corrupt: the doctor names the one evil-looking other seat (2);
    // seats 2 and 3 are not corrupt: one outcome each
    assert_eq!(outcomes.len(), 3);
    let (layout, attempt, claims) = &outcomes[0];
    assert_eq!(attempt.targets(), &[VillagerIndex(1)]);
    assert_eq!(claims.len(), 2);
    assert!(claims[1].testimony == Testimony::Evil(VillagerIndex(2)));
    assert!(matches!(layout.villagers[0].testimony, Some(Expression::And(_, _))));
    let (_, attempt, claims) = &outcomes[2];
    assert_eq!(attempt.targets(), &[VillagerIndex(3)]);
    assert!(claims[0].testimony == Testimony::Corrupt(VillagerIndex(3)));
}

#[test]
fn first_waiting_villager_gets_outcomes() {
    let judge = TheoreticalVillager { archetype: Role::Judge, ..good() };
    let spoken = says(good(), Testimony::Good(VillagerIndex(1)));
    let layout = LayoutWithTestimonyAssigments {
        layout: board(vec![spoken, judge]),
        satisfying_assignments: vec![Assignment::new()],
    };
    let generated = generate_theoreticals_for_first_villager_with_ability(&layout);
    assert_eq!(generated.len(), 4);
    for (attempt, candidate) in &generated {
        assert_eq!(*attempt.source(), VillagerIndex(1));
        assert_eq!(candidate.satisfying_assignments.len(), 2);
    }
    let everyone_spoke = LayoutWithTestimonyAssigments {
        layout: board(vec![says(good(), Testimony::Good(VillagerIndex(0)))]),
        satisfying_assignments: vec![Assignment::new()],
    };
    assert!(generate_theoreticals_for_first_villager_with_ability(&everyone_spoke).is_empty());
}

#[test]
fn inconsistent_assignments_are_dropped() {
    let claim = IndexTestimony { index: VillagerIndex(0), testimony: Testimony::Evil(VillagerIndex(1)) };
    let expression = OptimizedExpression::new(&Expression::Leaf(claim));
    let mut yes = Assignment::new();
    yes.insert(claim, true);
    let mut no = Assignment::new();
    no.insert(claim, false);
    let candidate = LayoutWithTestimonyAssigments {
        layout: board(vec![says(good(), claim.testimony), evil()]),
        satisfying_assignments: vec![no, yes],
    };
    let kept = retain_consistent_assignments(candidate, &expression, false, false, false, false)
        .expect("one assignment agrees");
    assert_eq!(kept.satisfying_assignments.len(), 1);
    assert_eq!(kept.satisfying_assignments[0].get(&claim), Some(true));

    let mut no_again = Assignment::new();
    no_again.insert(claim, false);
    let hopeless = LayoutWithTestimonyAssigments {
        layout: board(vec![says(good(), claim.testimony), evil()]),
        satisfying_assignments: vec![no_again],
    };
    assert!(retain_consistent_assignments(hopeless, &expression, false, false, false, false).is_none());
}

#[test]
fn ability_outcomes_group_by_use_then_candidate() {
    let judge = TheoreticalVillager { archetype: Role::Judge, ..good() };
    let spoken = says(good(), Testimony::Good(VillagerIndex(1)));
    let candidate = || LayoutWithTestimonyAssigments {
        layout: board(vec![spoken.clone(), judge.clone()]),
        satisfying_assignments: vec![Assignment::new()],
    };
    let prediction = predict_ability_outcomes(&vec![candidate(), candidate()]);
    assert_eq!(prediction.attempt_predictions.len(), 2);
    for (k, (attempt, mutations)) in prediction.attempt_predictions.iter().enumerate() {
        assert_eq!(*attempt.source(), VillagerIndex(1));
        assert_eq!(attempt.targets(), &[VillagerIndex(k)]);
        assert_eq!(mutations.len(), 2);
        assert_eq!(mutations[0].original_layout, 0);
        assert_eq!(mutations[1].original_layout, 1);
        assert_eq!(mutations[0].potential_layouts.len(), 2);
    }
    assert!(!testimonies_remain(&prediction));

    let waiting = TheoreticalVillager { revealed: true, ..good() };
    let with_waiting = LayoutWithTestimonyAssigments {
        layout: board(vec![spoken.clone(), judge.clone(), waiting]),
        satisfying_assignments: vec![Assignment::new()],
    };
    let prediction = predict_ability_outcomes(&vec![with_waiting]);
    assert_eq!(prediction.attempt_predictions.len(), 3);
    assert!(testimonies_remain(&prediction));
}

#[test]
fn claims_condemn_and_exonerate() {
    let (two, five) = (VillagerIndex(2), VillagerIndex(5));
    assert_eq!(condemns(&Testimony::Evil(two), &two, &five), Condemns::Yes);
    assert_eq!(condemns(&Testimony::Evil(five), &two, &five), Condemns::No);
    assert_eq!(condemns(&Testimony::Lying(two), &two, &five), Condemns::IfDefendantNotCorrupt);
    assert_eq!(condemns(&Testimony::Confess(ConfessorClaim::Dizzy), &five, &five), Condemns::IfDefendantNotCorrupt);
    assert_eq!(condemns(&Testimony::Confess(ConfessorClaim::Dizzy), &two, &five), Condemns::No);
    assert_eq!(condemns(&Testimony::Role { index: two, role: Role::Demon(1) }, &two, &five), Condemns::Yes);
    assert_eq!(condemns(&Testimony::Role { index: two, role: Role::Knight }, &two, &five), Condemns::No);
    assert_eq!(condemns(&Testimony::Good(two), &two, &five), Condemns::No);
    assert!(exonerates(&Testimony::Confess(ConfessorClaim::Good), &five, &five));
    assert!(!exonerates(&Testimony::Confess(ConfessorClaim::Good), &two, &five));
    assert!(exonerates(&Testimony::Role { index: two, role: Role::Knight }, &two, &five));
    assert!(!exonerates(&Testimony::Role { index: two, role: Role::Minion(0) }, &two, &five));
    assert!(exonerates(&Testimony::Good(two), &two, &five));
    assert!(!exonerates(&Testimony::Good(VillagerIndex(2)), &VillagerIndex(3), &VillagerIndex(0)));
    assert!(!exonerates(&Testimony::Corrupt(five), &two, &five));
    assert!(exonerates(&Testimony::Invincible(two), &two, &five));
    assert!(!exonerates(&Testimony::Invincible(five), &two, &five));
    assert!(!exonerates(&Testimony::Evil(two), &two, &five));
}

#[test]
fn fortune_teller_outcomes_cover_every_pair_both_ways() {
    let teller = TheoreticalVillager { archetype: Role::FortuneTeller, ..good() };
    let b = board(vec![teller, evil(), good()]);
    let outcomes = theoretical_testimonies(&b, VillagerIndex(0));
    // 3 seats: pairs (0,1), (0,2), (1,2), each "not evil" then "evil"
    assert_eq!(outcomes.len(), 6);
    let pairs = [(0, 1), (0, 2), (1, 2)];
    for (k, (layout, attempt, claims)) in outcomes.iter().enumerate() {
        let (i, j) = pairs[k / 2];
        let evil = k % 2 == 1;
        assert_eq!(attempt.targets(), &[VillagerIndex(i), VillagerIndex(j)]);
        let claim = Testimony::FortuneTeller { first: VillagerIndex(i), second: VillagerIndex(j), evil };
        assert!(claims.len() == 1 && claims[0].testimony == claim);
        assert!(matches!(layout.villagers[0].testimony, Some(Expression::Leaf(t)) if t == claim));
        assert!(layout.villagers[1].testimony.is_none());
    }
}

#[test]
fn jester_outcomes_cover_every_triple_and_count() {
    let jester = TheoreticalVillager { archetype: Role::Jester, ..good() };
    let b = board(vec![jester, evil(), good(), good()]);
    let outcomes = theoretical_testimonies(&b, VillagerIndex(0));
    // 4 seats: 4 triples, 4 counts each
    assert_eq!(outcomes.len(), 16);
    let (_, attempt, claims) = &outcomes[5];
    assert_eq!(attempt.targets(), &[VillagerIndex(0), VillagerIndex(1), VillagerIndex(3)]);
    assert_eq!(claims.len(), 3);
    assert!(claims[2].testimony == Testimony::Evil(VillagerIndex(3)));
}

fn evaluate(e: &Expression<Testimony>, env: &dyn Fn(&Testimony) -> bool) -> bool {
    match e {
        Expression::Leaf(t) => env(t),
        Expression::Not(inner) => !evaluate(inner, env),
        Expression::And(l, r) => evaluate(l, env) && evaluate(r, env),
        Expression::Or(l, r) => evaluate(l, env) || evaluate(r, env),
    }
}

#[test]
fn jester_report_holds_for_exactly_its_count() {
    for mask in 0..8u32 {
        let env = |t: &Testimony| match t {
            Testimony::Evil(v) => mask & (1 << (v.0 - 1)) != 0,
            _ => false,
        };
        let evils = mask.count_ones() as usize;
        for count in 0..4 {
            assert_eq!(evaluate(&jester_report(1, 2, 3, count), &env), evils == count);
        }
    }
}
