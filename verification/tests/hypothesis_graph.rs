use demon_bluff_logic_engine::archetype_odds::{archetype_in_play_odds, AffectKind, ArchetypeOdds, DeckCard, DrawStats};
use demon_bluff_logic_engine::hypotheses::{
    AppearsEvilHypothesisBuilder, IsEvilHypothesisBuilder, NegateHypothesisBuilder, NegatedHypothesisBuilder,
    TestimonyHypothesis, TestimonyHypothesisBuilder,
};
use demon_bluff_logic_engine::hypothesis::DesireType;
use demon_bluff_logic_engine::testimony::Testimony;
use demon_bluff_logic_engine::hypotheses::{
    ArchetypeInPlayHypothesisBuilder, IsTrulyArchetypeHypothesisBuilder, TemplateHypothesisBuilder,
    TrueIdentityHypothesisBuilder,
    AbilityHypothesisBuilder, AllEvilsAccountedForHypothesisBuilder, ExecuteHypothesisBuilder,
    ExecuteIndexHypothesisBuilder, GatherInformationHypothesisBuilder, HypothesisBuilderType,
    HypothesisType, MasterHypothesisBuilder, RevealHypothesisBuilder, RevealIndexHypothesisBuilder,
};
use demon_bluff_logic_engine::hypothesis::{HypothesisRegistrar, StackData};
use demon_bluff_logic_engine::testimony::Role;
use demon_bluff_logic_engine::villager::{GameState, VillagerIndex, VillagerStatus};

fn state() -> GameState {
    GameState {
        villagers: vec![
            VillagerStatus::Hidden { cant_reveal: false, cant_kill: false },
            VillagerStatus::Active { has_testimony: true, action_available: true, cant_kill: false, is_knight: false },
            VillagerStatus::Hidden { cant_reveal: true, cant_kill: true },
            VillagerStatus::Confirmed { has_testimony: false, action_available: true },
        ],
    }
}

#[test]
fn register_twice_gives_same_reference() {
    let mut registrar = HypothesisRegistrar::new();
    let a = registrar.register(HypothesisBuilderType::Master(MasterHypothesisBuilder {}));
    let b = registrar.register(HypothesisBuilderType::Execute(ExecuteHypothesisBuilder {}));
    let c = registrar.register(HypothesisBuilderType::Master(MasterHypothesisBuilder {}));
    assert_eq!(a, c);
    assert_ne!(a, b);
    assert_eq!(a.index(), 0);
    assert_eq!(b.index(), 1);
    assert_eq!(registrar.registrations().len(), 2);
}

#[test]
fn master_registers_execute_and_information() {
    let mut registrar = HypothesisRegistrar::new();
    match (MasterHypothesisBuilder {}).build(&state(), &mut registrar) {
        HypothesisType::Master(h) => {
            assert_eq!(h.execute_hypothesis.index(), 0);
            assert_eq!(h.info_hypothesis.index(), 1);
        }
        _ => panic!("expected a master hypothesis"),
    }
    assert_eq!(
        registrar.registrations(),
        &[
            HypothesisBuilderType::Execute(ExecuteHypothesisBuilder {}),
            HypothesisBuilderType::GatherInformation(GatherInformationHypothesisBuilder {}),
        ]
    );
    match (GatherInformationHypothesisBuilder {}).build(&state(), &mut registrar) {
        HypothesisType::GatherInformation(h) => {
            assert_eq!(h.reveal_hypothesis.index(), 2);
            assert_eq!(h.ability_hypothesis.index(), 3);
        }
        _ => panic!("expected an information hypothesis"),
    }
}

#[test]
fn reveal_registers_revealable_seats() {
    let mut registrar = HypothesisRegistrar::new();
    match (RevealHypothesisBuilder {}).build(&state(), &mut registrar) {
        HypothesisType::Reveal(h) => assert_eq!(h.revealable_hypotheses.len(), 1),
        _ => panic!("expected a reveal hypothesis"),
    }
    assert_eq!(
        registrar.registrations(),
        &[HypothesisBuilderType::RevealIndex(RevealIndexHypothesisBuilder::new(VillagerIndex(0)))]
    );
}

#[test]
fn execute_registers_killable_seats_once() {
    let mut registrar = HypothesisRegistrar::new();
    registrar.register(HypothesisBuilderType::ExecuteIndex(ExecuteIndexHypothesisBuilder::new(VillagerIndex(1))));
    match (ExecuteHypothesisBuilder {}).build(&state(), &mut registrar) {
        HypothesisType::Execute(h) => {
            let indices: Vec<usize> = h.executable_hypotheses.iter().map(|r| r.index()).collect();
            assert_eq!(indices, vec![1, 0]);
        }
        _ => panic!("expected an execute hypothesis"),
    }
    assert_eq!(registrar.registrations().len(), 2);
}

#[test]
fn ability_and_evil_hypotheses() {
    let mut registrar = HypothesisRegistrar::new();
    match (AbilityHypothesisBuilder {}).build(&state(), &mut registrar) {
        HypothesisType::Ability(h) => assert_eq!(h.index_hypotheses.len(), 2),
        _ => panic!("expected an ability hypothesis"),
    }
    match (AllEvilsAccountedForHypothesisBuilder {}).build(&state(), &mut registrar) {
        HypothesisType::AllEvilsAccountedFor(h) => {
            assert_eq!(h.index_evil_hypotheses.len(), 4);
            assert_eq!(h.index_evil_hypotheses[3].0, VillagerIndex(3));
            assert_eq!(h.index_evil_hypotheses[3].1.index(), 5);
        }
        _ => panic!("expected the evils hypothesis"),
    }
}

#[test]
fn stack_depth_and_cycles() {
    let mut registrar = HypothesisRegistrar::new();
    let r0 = registrar.register(HypothesisBuilderType::Master(MasterHypothesisBuilder {}));
    let r1 = registrar.register(HypothesisBuilderType::Execute(ExecuteHypothesisBuilder {}));
    let r2 = registrar.register(HypothesisBuilderType::Reveal(RevealHypothesisBuilder {}));
    let stack = StackData::new(&r0).push(r1.clone()).push(r2.clone());
    let depth = stack.depth();
    assert_eq!(depth.depth(), 2);
    assert_eq!(*depth.reference(), r2);
    assert_eq!(*stack.current_reference(), r2);
    let cycle = stack.into_cycle(&r1);
    assert_eq!(cycle.order_from_root(), &[r1.clone(), r2.clone()]);
    let cycle = stack.into_cycle(&r0);
    assert_eq!(cycle.order_from_root(), &[r0.clone(), r1.clone(), r2.clone()]);
    let r3 = registrar.register(HypothesisBuilderType::Ability(AbilityHypothesisBuilder {}));
    let cycle = stack.into_cycle(&r3);
    assert_eq!(cycle.order_from_root(), &[r3]);
}

#[test]
fn references_depths_and_cycles_are_labelled() {
    let mut registrar = HypothesisRegistrar::new();
    let master = registrar.register(HypothesisBuilderType::Master(MasterHypothesisBuilder {}));
    let execute = registrar.register(HypothesisBuilderType::Execute(ExecuteHypothesisBuilder {}));
    assert_eq!(master.label(), "H-00001");
    assert_eq!(execute.label(), "H-00002");
    let stack = StackData::new(&master).push(execute.clone());
    assert_eq!(stack.depth().label(), "  - [H-00002]");
    assert_eq!(StackData::new(&master).depth().label(), "- [H-00001]");
    let cycle = stack.into_cycle(&master);
    assert_eq!(cycle.label(), "H-00001 -> H-00002");
}

#[test]
fn role_hypotheses_register_role_in_play() {
    let mut registrar = HypothesisRegistrar::new();
    let builder = IsTrulyArchetypeHypothesisBuilder::new(Role::Minion(2), VillagerIndex(3));
    match builder.build(&state(), &mut registrar) {
        HypothesisType::IsTrulyArchetype(h) => {
            assert_eq!(h.index, VillagerIndex(3));
            assert_eq!(h.archetype, Role::Minion(2));
            assert_eq!(h.archetype_in_play_hypothesis.index(), 0);
        }
        _ => panic!("wrong hypothesis"),
    }
    assert!(registrar.registrations()[0]
        == HypothesisBuilderType::ArchetypeInPlay(ArchetypeInPlayHypothesisBuilder::new(Role::Minion(2))));
    match TrueIdentityHypothesisBuilder::new(VillagerIndex(1), Role::Knight).build(&state(), &mut registrar) {
        HypothesisType::TrueIdentity(h) => assert_eq!(h.archetype, Role::Knight),
        _ => panic!("wrong hypothesis"),
    }
    assert_eq!(registrar.registrations().len(), 1);
}

#[test]
fn template_registers_itself_once() {
    let mut registrar = HypothesisRegistrar::new();
    for _ in 0..2 {
        match (TemplateHypothesisBuilder {}).build(&state(), &mut registrar) {
            HypothesisType::Template(h) => assert_eq!(h.sub_hypothesis.index(), 0),
            _ => panic!("wrong hypothesis"),
        }
    }
    assert_eq!(registrar.registrations().len(), 1);
}

fn testimony_graph(
    speaker: usize,
    testimony: Testimony,
) -> (HypothesisRegistrar, TestimonyHypothesis) {
    let mut registrar = HypothesisRegistrar::new();
    let three = GameState { villagers: state().villagers[0..3].to_vec() };
    match TestimonyHypothesisBuilder::new(VillagerIndex(speaker), testimony).build(&three, &mut registrar) {
        HypothesisType::Testimony(h) => (registrar, h),
        _ => panic!("a testimony builder builds a testimony hypothesis"),
    }
}

fn desire_keys(h: &TestimonyHypothesis) -> Vec<usize> {
    let mut keys: Vec<usize> = h.reverse_testimony_desires.iter().map(|(v, _)| v.0).collect();
    keys.sort();
    keys
}

#[test]
fn testimony_of_good_doubts_the_villager_being_evil() {
    let (registrar, h) = testimony_graph(0, Testimony::Good(VillagerIndex(2)));
    assert_eq!(
        registrar.registrations(),
        &[HypothesisBuilderType::Negate(NegateHypothesisBuilder {
            target: NegatedHypothesisBuilder::IsEvil(IsEvilHypothesisBuilder { index: VillagerIndex(2) }),
        })]
    );
    assert_eq!(h.villager_sub_hypothesis.as_ref().map(|r| r.index()), Some(0));
    assert_eq!(desire_keys(&h), vec![0, 1, 2]);
    assert_eq!(
        registrar.desires(),
        &[
            DesireType::GetTestimony(VillagerIndex(0)),
            DesireType::GetTestimony(VillagerIndex(1)),
            DesireType::GetTestimony(VillagerIndex(2)),
        ]
    );
    for (v, r) in &h.reverse_testimony_desires {
        assert_eq!(registrar.desires()[r.index()], DesireType::GetTestimony(*v));
    }
}

#[test]
fn testimony_about_an_unseated_villager_adds_its_desire() {
    let (registrar, h) = testimony_graph(0, Testimony::Evil(VillagerIndex(5)));
    assert_eq!(
        registrar.registrations(),
        &[HypothesisBuilderType::AppearsEvil(AppearsEvilHypothesisBuilder { index: VillagerIndex(5) })]
    );
    assert_eq!(desire_keys(&h), vec![0, 1, 2, 5]);
    assert_eq!(registrar.desires().len(), 4);
}

#[test]
fn successful_slay_needs_no_sub_hypothesis() {
    let (registrar, h) = testimony_graph(1, Testimony::Slayed { index: VillagerIndex(2), slayed: true });
    assert!(registrar.registrations().is_empty());
    assert!(h.villager_sub_hypothesis.is_none());
    assert_eq!(desire_keys(&h), vec![0, 1, 2]);
}

fn card(role: Role, affect: AffectKind) -> DeckCard {
    DeckCard { role, affect }
}

fn draws() -> DrawStats {
    DrawStats { villagers: 5, outcasts: 1, minions: 2, demons: 1 }
}

#[test]
fn night_role_without_night_actions_is_impossible() {
    let deck = vec![card(Role::Minion(3), AffectKind::Night)];
    let odds = archetype_in_play_odds(Role::Minion(3), AffectKind::Night, false, &deck, &vec![], &vec![], &vec![], draws());
    assert_eq!(odds, ArchetypeOdds::Impossible);
    let odds = archetype_in_play_odds(Role::Minion(3), AffectKind::Night, true, &deck, &vec![], &vec![], &vec![], draws());
    assert_eq!(odds, ArchetypeOdds::Odds { draw_count: 2, deck_count: 1, conclusive: true });
}

#[test]
fn role_in_the_deck_has_draw_over_deck_odds() {
    let deck = vec![
        card(Role::Villager(1), AffectKind::NoAffect),
        card(Role::Knight, AffectKind::NoAffect),
        card(Role::Knight, AffectKind::NoAffect),
    ];
    let odds = archetype_in_play_odds(Role::Knight, AffectKind::NoAffect, false, &deck, &vec![], &vec![], &vec![], draws());
    assert_eq!(odds, ArchetypeOdds::Odds { draw_count: 5, deck_count: 3, conclusive: true });
    let odds =
        archetype_in_play_odds(Role::Knight, AffectKind::NoAffect, false, &deck, &vec![Role::Minion(1)], &vec![], &vec![], draws());
    assert_eq!(odds, ArchetypeOdds::Odds { draw_count: 5, deck_count: 3, conclusive: false });
}

#[test]
fn role_outside_the_deck_needs_a_conversion() {
    let deck = vec![card(Role::Minion(2), AffectKind::Outcast)];
    let none = archetype_in_play_odds(Role::Wretch, AffectKind::NoAffect, false, &deck, &vec![], &vec![Role::Wretch], &vec![], draws());
    assert_eq!(none, ArchetypeOdds::Impossible);
    let odds = archetype_in_play_odds(
        Role::Wretch,
        AffectKind::NoAffect,
        false,
        &deck,
        &vec![Role::Wretch],
        &vec![Role::Wretch],
        &vec![],
        draws(),
    );
    assert_eq!(odds, ArchetypeOdds::Odds { draw_count: 1, deck_count: 0, conclusive: false });
}

#[test]
fn odds_count_the_cards_of_the_role_class() {
    let deck = vec![
        card(Role::Minion(0), AffectKind::NoAffect),
        card(Role::Minion(1), AffectKind::NoAffect),
        card(Role::Villager(2), AffectKind::NoAffect),
        card(Role::Demon(0), AffectKind::NoAffect),
    ];
    let two_minions = DrawStats { villagers: 1, outcasts: 0, minions: 2, demons: 1 };
    let odds = archetype_in_play_odds(Role::Minion(0), AffectKind::NoAffect, false, &deck, &vec![], &vec![], &vec![], two_minions);
    assert_eq!(odds, ArchetypeOdds::Odds { draw_count: 2, deck_count: 2, conclusive: true });
    match odds {
        ArchetypeOdds::Odds { draw_count, deck_count, .. } => {
            let p = draw_count as f64 / deck_count as f64;
            assert!((0.0..=1.0).contains(&p));
        }
        ArchetypeOdds::Impossible => panic!("minion 0 is in the deck"),
    }
    let odds = archetype_in_play_odds(Role::Demon(0), AffectKind::NoAffect, false, &deck, &vec![], &vec![], &vec![], two_minions);
    assert_eq!(odds, ArchetypeOdds::Odds { draw_count: 1, deck_count: 1, conclusive: true });
}
