use crate::hypothesis::{designates_desire, DesireProducerReference, DesireType, HypothesisReference, HypothesisRegistrar};
use crate::optimized_expression::{extend_distinct, insert_new, lemma_extend_distinct_concat};
use crate::testimony::{Role, Testimony};
use crate::villager::{has_ability, is_killable, is_revealable, GameState, VillagerIndex, VillagerStatus};
use vstd::prelude::*;

verus! {

#[derive(Debug, Clone, Copy, PartialEq, Eq, Structural, Default)]
pub struct MasterHypothesisBuilder {}

#[derive(Debug, Clone, Copy, PartialEq, Eq, Structural, Default)]
pub struct GatherInformationHypothesisBuilder {}

#[derive(Debug, Clone, Copy, PartialEq, Eq, Structural, Default)]
pub struct RevealHypothesisBuilder {}

#[derive(Debug, Clone, Copy, PartialEq, Eq, Structural)]
pub struct RevealIndexHypothesisBuilder {
    pub index: VillagerIndex,
}

#[derive(Debug, Clone, Copy, PartialEq, Eq, Structural, Default)]
pub struct RevealingIsSafeHypothesisBuilder {}

#[derive(Debug, Clone, Copy, PartialEq, Eq, Structural)]
pub struct NeedTestimonyHypothesisBuilder {
    pub index: VillagerIndex,
}

#[derive(Debug, Clone, Copy, PartialEq, Eq, Structural, Default)]
pub struct ExecuteHypothesisBuilder {}

#[derive(Debug, Clone, Copy, PartialEq, Eq, Structural)]
pub struct ExecuteIndexHypothesisBuilder {
    pub index: VillagerIndex,
}

#[derive(Debug, Clone, Copy, PartialEq, Eq, Structural)]
pub struct IsEvilHypothesisBuilder {
    pub index: VillagerIndex,
}

#[derive(Debug, Clone, Copy, PartialEq, Eq, Structural, Default)]
pub struct AbilityHypothesisBuilder {}

#[derive(Debug, Clone, Copy, PartialEq, Eq, Structural)]
pub struct AbilityIndexHypothesisBuilder {
    pub index: VillagerIndex,
}

#[derive(Debug, Clone, Copy, PartialEq, Eq, Structural, Default)]
pub struct CorruptionInPlayHypothesisBuilder {}

#[derive(Debug, Clone, Copy, PartialEq, Eq, Structural, Default)]
pub struct AllEvilsAccountedForHypothesisBuilder {}

#[derive(Debug, Clone, Copy, PartialEq, Eq, Structural, Default)]
pub struct TemplateHypothesisBuilder {}

#[derive(Debug, Clone, Copy, PartialEq, Eq, Structural)]
pub struct ArchetypeInPlayHypothesisBuilder {
    pub archetype: Role,
}

#[derive(Debug, Clone, Copy, PartialEq, Eq, Structural)]
pub struct IsTrulyArchetypeHypothesisBuilder {
    pub archetype: Role,
    pub index: VillagerIndex,
}

#[derive(Debug, Clone, Copy, PartialEq, Eq, Structural)]
pub struct TrueIdentityHypothesisBuilder {
    pub index: VillagerIndex,
    pub archetype: Role,
}

#[derive(Debug, Clone, Copy, PartialEq, Eq, Structural)]
pub struct AppearsEvilHypothesisBuilder {
    pub index: VillagerIndex,
}

#[derive(Debug, Clone, Copy, PartialEq, Eq, Structural)]
pub struct IsCorruptHypothesisBuilder {
    pub index: VillagerIndex,
}

#[derive(Debug, Clone, Copy, PartialEq, Eq, Structural)]
pub struct IsTruthfulHypothesisBuilder {
    pub index: VillagerIndex,
}

/// A hypothesis that can be negated.
#[derive(Debug, Clone, Copy, PartialEq, Eq, Structural)]
pub enum NegatedHypothesisBuilder {
    IsEvil(IsEvilHypothesisBuilder),
    IsCorrupt(IsCorruptHypothesisBuilder),
    IsTruthful(IsTruthfulHypothesisBuilder),
}

#[derive(Debug, Clone, Copy, PartialEq, Eq, Structural)]
pub struct NegateHypothesisBuilder {
    pub target: NegatedHypothesisBuilder,
}

/// The validity of a testimony given by a villager, on grounds other than the
/// villager lying.
#[derive(Debug, Clone, Copy)]
pub struct TestimonyHypothesisBuilder {
    pub index: VillagerIndex,
    pub testimony: Testimony,
}

/// A hypothesis of the graph, before it is built.
#[derive(Debug, Clone, Copy, PartialEq, Eq, Structural)]
pub enum HypothesisBuilderType {
    Master(MasterHypothesisBuilder),
    Reveal(RevealHypothesisBuilder),
    RevealIndex(RevealIndexHypothesisBuilder),
    Execute(ExecuteHypothesisBuilder),
    RevealingIsSafe(RevealingIsSafeHypothesisBuilder),
    NeedTestimony(NeedTestimonyHypothesisBuilder),
    ExecuteIndex(ExecuteIndexHypothesisBuilder),
    IsEvil(IsEvilHypothesisBuilder),
    GatherInformation(GatherInformationHypothesisBuilder),
    Ability(AbilityHypothesisBuilder),
    AbilityIndex(AbilityIndexHypothesisBuilder),
    CorruptionInPlay(CorruptionInPlayHypothesisBuilder),
    AllEvilsAccountedFor(AllEvilsAccountedForHypothesisBuilder),
    ArchetypeInPlay(ArchetypeInPlayHypothesisBuilder),
    IsTrulyArchetype(IsTrulyArchetypeHypothesisBuilder),
    TrueIdentity(TrueIdentityHypothesisBuilder),
    Template(TemplateHypothesisBuilder),
    AppearsEvil(AppearsEvilHypothesisBuilder),
    IsCorrupt(IsCorruptHypothesisBuilder),
    IsTruthful(IsTruthfulHypothesisBuilder),
    Negate(NegateHypothesisBuilder),
}

/// Decide between executing and gathering information.
#[derive(Debug)]
pub struct MasterHypothesis {
    pub info_hypothesis: HypothesisReference,
    pub execute_hypothesis: HypothesisReference,
}

/// Decide between revealing and using an ability.
#[derive(Debug)]
pub struct GatherInformationHypothesis {
    pub reveal_hypothesis: HypothesisReference,
    pub ability_hypothesis: HypothesisReference,
}

/// Decide which villager to reveal.
#[derive(Debug)]
pub struct RevealHypothesis {
    pub revealable_hypotheses: Vec<HypothesisReference>,
}

/// Reveal one villager.
#[derive(Debug)]
pub struct RevealIndexHypothesis {
    pub index: VillagerIndex,
    pub revealing_is_safe_hypothesis: HypothesisReference,
    pub need_testimony_hypothesis: HypothesisReference,
}

/// Whether revealing villagers is safe.
#[derive(Debug)]
pub struct RevealingIsSafeHypothesis {}

/// Decide which villager to execute.
#[derive(Debug)]
pub struct ExecuteHypothesis {
    pub executable_hypotheses: Vec<HypothesisReference>,
}

/// Execute one villager.
#[derive(Debug)]
pub struct ExecuteIndexHypothesis {
    pub index: VillagerIndex,
    pub is_evil_hypothesis: HypothesisReference,
}

/// Decide whose ability to use.
#[derive(Debug)]
pub struct AbilityHypothesis {
    pub index_hypotheses: Vec<HypothesisReference>,
}

/// Use one villager's ability.
#[derive(Debug)]
pub struct AbilityIndexHypothesis {
    pub index: VillagerIndex,
}

/// Whether all evils are known: one evil hypothesis per seat.
#[derive(Debug)]
pub struct AllEvilsAccountedForHypothesis {
    pub index_evil_hypotheses: Vec<(VillagerIndex, HypothesisReference)>,
}

/// Whether corruption is in play: one hypothesis per corrupting role.
#[derive(Debug)]
pub struct CorruptionInPlayHypothesis {
    pub corrupting_archetype_hypotheses: Vec<HypothesisReference>,
}

/// The negation of another hypothesis.
#[derive(Debug)]
pub struct NegateHypothesis {
    pub target_hypothesis: HypothesisReference,
}

/// A hypothesis that evaluates a single sub-hypothesis.
#[derive(Debug)]
pub struct TemplateHypothesis {
    pub sub_hypothesis: HypothesisReference,
}

/// Whether the villager truly has the role.
#[derive(Debug)]
pub struct IsTrulyArchetypeHypothesis {
    pub archetype: Role,
    pub index: VillagerIndex,
    pub archetype_in_play_hypothesis: HypothesisReference,
}

/// The villager's true role.
#[derive(Debug)]
pub struct TrueIdentityHypothesis {
    pub index: VillagerIndex,
    pub archetype: Role,
}

/// Checks a testimony of the villager at `index`: the desires for the testimonies
/// of the villagers, by seat, and the hypothesis on the villager it speaks of.
#[derive(Debug)]
pub struct TestimonyHypothesis {
    pub index: VillagerIndex,
    pub testimony: Testimony,
    pub reverse_testimony_desires: Vec<(VillagerIndex, DesireProducerReference)>,
    pub villager_sub_hypothesis: Option<HypothesisReference>,
}

/// A built hypothesis of the graph.
#[derive(Debug)]
pub enum HypothesisType {
    Master(MasterHypothesis),
    GatherInformation(GatherInformationHypothesis),
    Reveal(RevealHypothesis),
    RevealIndex(RevealIndexHypothesis),
    RevealingIsSafe(RevealingIsSafeHypothesis),
    Execute(ExecuteHypothesis),
    ExecuteIndex(ExecuteIndexHypothesis),
    Ability(AbilityHypothesis),
    AbilityIndex(AbilityIndexHypothesis),
    AllEvilsAccountedFor(AllEvilsAccountedForHypothesis),
    IsTrulyArchetype(IsTrulyArchetypeHypothesis),
    TrueIdentity(TrueIdentityHypothesis),
    Template(TemplateHypothesis),
    Testimony(TestimonyHypothesis),
}

impl RevealIndexHypothesisBuilder {
    pub fn new(index: VillagerIndex) -> (result: Self)
        ensures
            result.index == index,
    {
        Self { index }
    }
}

impl NeedTestimonyHypothesisBuilder {
    pub fn new(index: VillagerIndex) -> (result: Self)
        ensures
            result.index == index,
    {
        Self { index }
    }
}

impl ExecuteIndexHypothesisBuilder {
    pub fn new(index: VillagerIndex) -> (result: Self)
        ensures
            result.index == index,
    {
        Self { index }
    }
}

impl IsEvilHypothesisBuilder {
    pub fn new(index: VillagerIndex) -> (result: Self)
        ensures
            result.index == index,
    {
        Self { index }
    }
}

impl AbilityIndexHypothesisBuilder {
    pub fn new(index: VillagerIndex) -> (result: Self)
        ensures
            result.index == index,
    {
        Self { index }
    }
}

/// The reference designates `builder` in `registrations`.
pub open spec fn designates(
    registrations: Seq<HypothesisBuilderType>,
    reference: HypothesisReference,
    builder: HypothesisBuilderType,
) -> bool {
    reference.spec_index() < registrations.len() && registrations[reference.spec_index() as int]
        == builder
}

/// The reveal builders for the seats below `n` whose villager may be revealed.
pub open spec fn reveal_index_builders(state: GameState, n: int) -> Seq<HypothesisBuilderType>
    decreases n,
{
    if n <= 0 {
        Seq::empty()
    } else {
        let rest = reveal_index_builders(state, n - 1);
        if is_revealable(state.villager_at(n - 1)) {
            rest.push(
                HypothesisBuilderType::RevealIndex(
                    RevealIndexHypothesisBuilder { index: VillagerIndex((n - 1) as usize) },
                ),
            )
        } else {
            rest
        }
    }
}

/// The execution builders for the seats below `n` whose villager may be executed.
pub open spec fn execute_index_builders(state: GameState, n: int) -> Seq<HypothesisBuilderType>
    decreases n,
{
    if n <= 0 {
        Seq::empty()
    } else {
        let rest = execute_index_builders(state, n - 1);
        if is_killable(state.villager_at(n - 1)) {
            rest.push(
                HypothesisBuilderType::ExecuteIndex(
                    ExecuteIndexHypothesisBuilder { index: VillagerIndex((n - 1) as usize) },
                ),
            )
        } else {
            rest
        }
    }
}

/// The ability builders for the seats below `n` whose villager can use an ability.
pub open spec fn ability_index_builders(state: GameState, n: int) -> Seq<HypothesisBuilderType>
    decreases n,
{
    if n <= 0 {
        Seq::empty()
    } else {
        let rest = ability_index_builders(state, n - 1);
        if has_ability(state.villager_at(n - 1)) {
            rest.push(
                HypothesisBuilderType::AbilityIndex(
                    AbilityIndexHypothesisBuilder { index: VillagerIndex((n - 1) as usize) },
                ),
            )
        } else {
            rest
        }
    }
}

/// The evil builders for the seats below `n`.
pub open spec fn is_evil_builders(n: int) -> Seq<HypothesisBuilderType>
    decreases n,
{
    if n <= 0 {
        Seq::empty()
    } else {
        is_evil_builders(n - 1).push(
            HypothesisBuilderType::IsEvil(IsEvilHypothesisBuilder { index: VillagerIndex((n - 1) as usize) }),
        )
    }
}

proof fn lemma_is_evil_builders_len(n: int)
    requires
        n >= 0,
    ensures
        is_evil_builders(n).len() == n,
    decreases n,
{
    if n > 0 {
        lemma_is_evil_builders_len(n - 1);
    }
}

/// Registering `b` keeps what was registered where it was.
proof fn lemma_insert_new_keeps(registrations: Seq<HypothesisBuilderType>, b: HypothesisBuilderType)
    ensures
        insert_new(registrations, b).len() >= registrations.len(),
        forall|k: int| 0 <= k < registrations.len() ==> #[trigger] insert_new(registrations, b)[k] == registrations[k],
{
}

/// Registering `builders` in order gives references to them, and the
/// registrations are extended by the new ones.
fn register_all(
    registrar: &mut HypothesisRegistrar,
    builders: &Vec<HypothesisBuilderType>,
) -> (result: Vec<HypothesisReference>)
    ensures
        final(registrar).spec_registrations() == extend_distinct(old(registrar).spec_registrations(), builders@),
        result@.len() == builders@.len(),
        forall|k: int| 0 <= k < builders@.len() ==> designates(final(registrar).spec_registrations(), #[trigger] result@[k], builders@[k]),
{
    let ghost start = registrar.spec_registrations();
    let mut references: Vec<HypothesisReference> = Vec::new();
    let mut i: usize = 0;
    proof {
        assert(builders@.subrange(0, 0) =~= Seq::<HypothesisBuilderType>::empty());
    }
    while i < builders.len()
        invariant
            i <= builders@.len(),
            registrar.spec_registrations() == extend_distinct(start, builders@.subrange(0, i as int)),
            references@.len() == i,
            forall|k: int| 0 <= k < i ==> designates(registrar.spec_registrations(), #[trigger] references@[k], builders@[k]),
        decreases builders.len() - i,
    {
        let ghost before = registrar.spec_registrations();
        let ghost references_before = references@;
        let reference = registrar.register(builders[i]);
        proof {
            lemma_insert_new_keeps(before, builders@[i as int]);
            let prefix = builders@.subrange(0, i as int);
            assert(builders@.subrange(0, i + 1) =~= prefix + seq![builders@[i as int]]);
            lemma_extend_distinct_concat(start, prefix, seq![builders@[i as int]]);
            assert(seq![builders@[i as int]].drop_first() =~= Seq::<HypothesisBuilderType>::empty());
            let single = seq![builders@[i as int]];
            assert(single[0] == builders@[i as int]);
            assert(extend_distinct(insert_new(before, builders@[i as int]), single.drop_first()) == insert_new(before, builders@[i as int]));
            assert(extend_distinct(before, single) == insert_new(before, builders@[i as int]));
        }
        references.push(reference);
        proof {
            assert forall|k: int| 0 <= k < i + 1 implies designates(registrar.spec_registrations(), #[trigger] references@[k], builders@[k]) by {
                if k < i {
                    assert(references@[k] == references_before[k]);
                }
            }
        }
        i = i + 1;
    }
    proof {
        assert(builders@.subrange(0, builders@.len() as int) =~= builders@);
    }
    references
}

impl MasterHypothesisBuilder {
    /// Registers the execution and the information hypotheses.
    pub fn build(self, _game_state: &GameState, registrar: &mut HypothesisRegistrar) -> (result: HypothesisType)
        ensures
            final(registrar).spec_registrations() == insert_new(
                insert_new(old(registrar).spec_registrations(), HypothesisBuilderType::Execute(ExecuteHypothesisBuilder {})),
                HypothesisBuilderType::GatherInformation(GatherInformationHypothesisBuilder {}),
            ),
            result matches HypothesisType::Master(h) && designates(
                final(registrar).spec_registrations(),
                h.execute_hypothesis,
                HypothesisBuilderType::Execute(ExecuteHypothesisBuilder {}),
            ) && designates(
                final(registrar).spec_registrations(),
                h.info_hypothesis,
                HypothesisBuilderType::GatherInformation(GatherInformationHypothesisBuilder {}),
            ),
    {
        let execute_hypothesis = registrar.register(HypothesisBuilderType::Execute(ExecuteHypothesisBuilder {}));
        let ghost middle = registrar.spec_registrations();
        let info_hypothesis = registrar.register(
            HypothesisBuilderType::GatherInformation(GatherInformationHypothesisBuilder {}),
        );
        proof {
            lemma_insert_new_keeps(middle, HypothesisBuilderType::GatherInformation(GatherInformationHypothesisBuilder {}));
        }
        HypothesisType::Master(MasterHypothesis { execute_hypothesis, info_hypothesis })
    }
}

impl GatherInformationHypothesisBuilder {
    /// Registers the reveal and the ability hypotheses.
    pub fn build(self, _game_state: &GameState, registrar: &mut HypothesisRegistrar) -> (result: HypothesisType)
        ensures
            final(registrar).spec_registrations() == insert_new(
                insert_new(old(registrar).spec_registrations(), HypothesisBuilderType::Reveal(RevealHypothesisBuilder {})),
                HypothesisBuilderType::Ability(AbilityHypothesisBuilder {}),
            ),
            result matches HypothesisType::GatherInformation(h) && designates(
                final(registrar).spec_registrations(),
                h.reveal_hypothesis,
                HypothesisBuilderType::Reveal(RevealHypothesisBuilder {}),
            ) && designates(
                final(registrar).spec_registrations(),
                h.ability_hypothesis,
                HypothesisBuilderType::Ability(AbilityHypothesisBuilder {}),
            ),
    {
        let reveal_hypothesis = registrar.register(HypothesisBuilderType::Reveal(RevealHypothesisBuilder {}));
        let ghost middle = registrar.spec_registrations();
        let ability_hypothesis = registrar.register(HypothesisBuilderType::Ability(AbilityHypothesisBuilder {}));
        proof {
            lemma_insert_new_keeps(middle, HypothesisBuilderType::Ability(AbilityHypothesisBuilder {}));
        }
        HypothesisType::GatherInformation(GatherInformationHypothesis { reveal_hypothesis, ability_hypothesis })
    }
}

impl RevealHypothesisBuilder {
    /// Registers a reveal hypothesis for each villager that may be revealed, in seat order.
    pub fn build(self, game_state: &GameState, registrar: &mut HypothesisRegistrar) -> (result: HypothesisType)
        ensures
            final(registrar).spec_registrations() == extend_distinct(
                old(registrar).spec_registrations(),
                reveal_index_builders(*game_state, game_state.num_villagers() as int),
            ),
            result matches HypothesisType::Reveal(h) && h.revealable_hypotheses@.len()
                == reveal_index_builders(*game_state, game_state.num_villagers() as int).len() && forall|k: int|
                0 <= k < h.revealable_hypotheses@.len() ==> designates(
                    final(registrar).spec_registrations(),
                    #[trigger] h.revealable_hypotheses@[k],
                    reveal_index_builders(*game_state, game_state.num_villagers() as int)[k],
                ),
    {
        let mut builders: Vec<HypothesisBuilderType> = Vec::new();
        let mut i: usize = 0;
        while i < game_state.villagers.len()
            invariant
                i <= game_state.num_villagers(),
                builders@ == reveal_index_builders(*game_state, i as int),
            decreases game_state.villagers.len() - i,
        {
            if let VillagerStatus::Hidden { cant_reveal, .. } = &game_state.villagers[i] {
                if !*cant_reveal {
                    builders.push(HypothesisBuilderType::RevealIndex(RevealIndexHypothesisBuilder::new(VillagerIndex(i))));
                }
            }
            i = i + 1;
        }
        let revealable_hypotheses = register_all(registrar, &builders);
        HypothesisType::Reveal(RevealHypothesis { revealable_hypotheses })
    }
}

impl ExecuteHypothesisBuilder {
    /// Registers an execution hypothesis for each villager that may be executed, in seat order.
    pub fn build(self, game_state: &GameState, registrar: &mut HypothesisRegistrar) -> (result: HypothesisType)
        ensures
            final(registrar).spec_registrations() == extend_distinct(
                old(registrar).spec_registrations(),
                execute_index_builders(*game_state, game_state.num_villagers() as int),
            ),
            result matches HypothesisType::Execute(h) && h.executable_hypotheses@.len()
                == execute_index_builders(*game_state, game_state.num_villagers() as int).len() && forall|k: int|
                0 <= k < h.executable_hypotheses@.len() ==> designates(
                    final(registrar).spec_registrations(),
                    #[trigger] h.executable_hypotheses@[k],
                    execute_index_builders(*game_state, game_state.num_villagers() as int)[k],
                ),
    {
        let mut builders: Vec<HypothesisBuilderType> = Vec::new();
        let mut i: usize = 0;
        while i < game_state.villagers.len()
            invariant
                i <= game_state.num_villagers(),
                builders@ == execute_index_builders(*game_state, i as int),
            decreases game_state.villagers.len() - i,
        {
            let killable = match &game_state.villagers[i] {
                VillagerStatus::Active { cant_kill, .. } => !*cant_kill,
                VillagerStatus::Hidden { cant_kill, .. } => !*cant_kill,
                VillagerStatus::Confirmed { .. } => false,
            };
            if killable {
                builders.push(HypothesisBuilderType::ExecuteIndex(ExecuteIndexHypothesisBuilder::new(VillagerIndex(i))));
            }
            i = i + 1;
        }
        let executable_hypotheses = register_all(registrar, &builders);
        HypothesisType::Execute(ExecuteHypothesis { executable_hypotheses })
    }
}

impl AbilityHypothesisBuilder {
    /// Registers an ability hypothesis for each villager that can use an ability, in seat order.
    pub fn build(self, game_state: &GameState, registrar: &mut HypothesisRegistrar) -> (result: HypothesisType)
        ensures
            final(registrar).spec_registrations() == extend_distinct(
                old(registrar).spec_registrations(),
                ability_index_builders(*game_state, game_state.num_villagers() as int),
            ),
            result matches HypothesisType::Ability(h) && h.index_hypotheses@.len()
                == ability_index_builders(*game_state, game_state.num_villagers() as int).len() && forall|k: int|
                0 <= k < h.index_hypotheses@.len() ==> designates(
                    final(registrar).spec_registrations(),
                    #[trigger] h.index_hypotheses@[k],
                    ability_index_builders(*game_state, game_state.num_villagers() as int)[k],
                ),
    {
        let mut builders: Vec<HypothesisBuilderType> = Vec::new();
        let mut i: usize = 0;
        while i < game_state.villagers.len()
            invariant
                i <= game_state.num_villagers(),
                builders@ == ability_index_builders(*game_state, i as int),
            decreases game_state.villagers.len() - i,
        {
            let available = match &game_state.villagers[i] {
                VillagerStatus::Active { action_available, .. } => *action_available,
                VillagerStatus::Hidden { .. } => false,
                VillagerStatus::Confirmed { action_available, .. } => *action_available,
            };
            if available {
                builders.push(HypothesisBuilderType::AbilityIndex(AbilityIndexHypothesisBuilder::new(VillagerIndex(i))));
            }
            i = i + 1;
        }
        let index_hypotheses = register_all(registrar, &builders);
        HypothesisType::Ability(AbilityHypothesis { index_hypotheses })
    }
}

impl AllEvilsAccountedForHypothesisBuilder {
    /// Registers an evil hypothesis for every seat.
    pub fn build(self, game_state: &GameState, registrar: &mut HypothesisRegistrar) -> (result: HypothesisType)
        ensures
            final(registrar).spec_registrations() == extend_distinct(
                old(registrar).spec_registrations(),
                is_evil_builders(game_state.num_villagers() as int),
            ),
            result matches HypothesisType::AllEvilsAccountedFor(h) && h.index_evil_hypotheses@.len()
                == game_state.num_villagers() && forall|k: int|
                0 <= k < h.index_evil_hypotheses@.len() ==> (#[trigger] h.index_evil_hypotheses@[k]).0
                    == VillagerIndex(k as usize) && designates(
                    final(registrar).spec_registrations(),
                    h.index_evil_hypotheses@[k].1,
                    is_evil_builders(game_state.num_villagers() as int)[k],
                ),
    {
        let mut builders: Vec<HypothesisBuilderType> = Vec::new();
        let mut i: usize = 0;
        while i < game_state.villagers.len()
            invariant
                i <= game_state.num_villagers(),
                builders@ == is_evil_builders(i as int),
            decreases game_state.villagers.len() - i,
        {
            builders.push(HypothesisBuilderType::IsEvil(IsEvilHypothesisBuilder::new(VillagerIndex(i))));
            i = i + 1;
        }
        let references = register_all(registrar, &builders);
        let ghost regs = registrar.spec_registrations();
        proof {
            lemma_is_evil_builders_len(game_state.num_villagers() as int);
        }
        let mut index_evil_hypotheses: Vec<(VillagerIndex, HypothesisReference)> = Vec::new();
        let mut k: usize = 0;
        while k < references.len()
            invariant
                k <= references@.len(),
                references@.len() == game_state.num_villagers(),
                index_evil_hypotheses@.len() == k,
                forall|m: int| 0 <= m < k ==> (#[trigger] index_evil_hypotheses@[m]).0 == VillagerIndex(m as usize)
                    && index_evil_hypotheses@[m].1 == references@[m],
            decreases references.len() - k,
        {
            index_evil_hypotheses.push((VillagerIndex(k), references[k].clone()));
            k = k + 1;
        }
        HypothesisType::AllEvilsAccountedFor(AllEvilsAccountedForHypothesis { index_evil_hypotheses })
    }
}

impl RevealIndexHypothesisBuilder {
    /// Registers whether revealing is safe and whether the villager's testimony is needed.
    pub fn build(self, _game_state: &GameState, registrar: &mut HypothesisRegistrar) -> (result: HypothesisType)
        ensures
            final(registrar).spec_registrations() == insert_new(
                insert_new(
                    old(registrar).spec_registrations(),
                    HypothesisBuilderType::RevealingIsSafe(RevealingIsSafeHypothesisBuilder {}),
                ),
                HypothesisBuilderType::NeedTestimony(NeedTestimonyHypothesisBuilder { index: self.index }),
            ),
            result matches HypothesisType::RevealIndex(h) && h.index == self.index && designates(
                final(registrar).spec_registrations(),
                h.revealing_is_safe_hypothesis,
                HypothesisBuilderType::RevealingIsSafe(RevealingIsSafeHypothesisBuilder {}),
            ) && designates(
                final(registrar).spec_registrations(),
                h.need_testimony_hypothesis,
                HypothesisBuilderType::NeedTestimony(NeedTestimonyHypothesisBuilder { index: self.index }),
            ),
    {
        let revealing_is_safe_hypothesis = registrar.register(
            HypothesisBuilderType::RevealingIsSafe(RevealingIsSafeHypothesisBuilder {}),
        );
        let ghost middle = registrar.spec_registrations();
        let need_testimony_hypothesis = registrar.register(
            HypothesisBuilderType::NeedTestimony(NeedTestimonyHypothesisBuilder::new(self.index)),
        );
        proof {
            lemma_insert_new_keeps(middle, HypothesisBuilderType::NeedTestimony(NeedTestimonyHypothesisBuilder { index: self.index }));
        }
        HypothesisType::RevealIndex(
            RevealIndexHypothesis { index: self.index, revealing_is_safe_hypothesis, need_testimony_hypothesis },
        )
    }
}

impl ExecuteIndexHypothesisBuilder {
    /// Registers whether the villager is evil.
    pub fn build(self, _game_state: &GameState, registrar: &mut HypothesisRegistrar) -> (result: HypothesisType)
        ensures
            final(registrar).spec_registrations() == insert_new(
                old(registrar).spec_registrations(),
                HypothesisBuilderType::IsEvil(IsEvilHypothesisBuilder { index: self.index }),
            ),
            result matches HypothesisType::ExecuteIndex(h) && h.index == self.index && designates(
                final(registrar).spec_registrations(),
                h.is_evil_hypothesis,
                HypothesisBuilderType::IsEvil(IsEvilHypothesisBuilder { index: self.index }),
            ),
    {
        let is_evil_hypothesis = registrar.register(HypothesisBuilderType::IsEvil(IsEvilHypothesisBuilder::new(self.index)));
        HypothesisType::ExecuteIndex(ExecuteIndexHypothesis { index: self.index, is_evil_hypothesis })
    }
}

impl AbilityIndexHypothesisBuilder {
    /// Builds the hypothesis; it has no sub-hypotheses.
    pub fn build(self, _game_state: &GameState, registrar: &mut HypothesisRegistrar) -> (result: HypothesisType)
        ensures
            final(registrar).spec_registrations() == old(registrar).spec_registrations(),
            result matches HypothesisType::AbilityIndex(h) && h.index == self.index,
    {
        HypothesisType::AbilityIndex(AbilityIndexHypothesis { index: self.index })
    }
}

impl RevealingIsSafeHypothesisBuilder {
    /// Builds the hypothesis; it has no sub-hypotheses.
    pub fn build(self, _game_state: &GameState, registrar: &mut HypothesisRegistrar) -> (result: HypothesisType)
        ensures
            final(registrar).spec_registrations() == old(registrar).spec_registrations(),
            result is RevealingIsSafe,
    {
        HypothesisType::RevealingIsSafe(RevealingIsSafeHypothesis {})
    }
}

impl ArchetypeInPlayHypothesisBuilder {
    pub fn new(archetype: Role) -> (result: Self)
        ensures
            result.archetype == archetype,
    {
        ArchetypeInPlayHypothesisBuilder { archetype }
    }
}

impl IsTrulyArchetypeHypothesisBuilder {
    pub fn new(archetype: Role, index: VillagerIndex) -> (result: Self)
        ensures
            result.archetype == archetype,
            result.index == index,
    {
        IsTrulyArchetypeHypothesisBuilder { archetype, index }
    }

    /// Registers whether the role is in play.
    pub fn build(self, _game_state: &GameState, registrar: &mut HypothesisRegistrar) -> (result: HypothesisType)
        ensures
            final(registrar).spec_registrations() == insert_new(
                old(registrar).spec_registrations(),
                HypothesisBuilderType::ArchetypeInPlay(ArchetypeInPlayHypothesisBuilder { archetype: self.archetype }),
            ),
            result matches HypothesisType::IsTrulyArchetype(h) && h.archetype == self.archetype && h.index
                == self.index && designates(
                final(registrar).spec_registrations(),
                h.archetype_in_play_hypothesis,
                HypothesisBuilderType::ArchetypeInPlay(ArchetypeInPlayHypothesisBuilder { archetype: self.archetype }),
            ),
    {
        let archetype_in_play_hypothesis = registrar.register(
            HypothesisBuilderType::ArchetypeInPlay(ArchetypeInPlayHypothesisBuilder::new(self.archetype)),
        );
        HypothesisType::IsTrulyArchetype(
            IsTrulyArchetypeHypothesis { archetype: self.archetype, index: self.index, archetype_in_play_hypothesis },
        )
    }
}

impl TrueIdentityHypothesisBuilder {
    pub fn new(index: VillagerIndex, archetype: Role) -> (result: Self)
        ensures
            result.index == index,
            result.archetype == archetype,
    {
        TrueIdentityHypothesisBuilder { index, archetype }
    }

    /// Builds the hypothesis; it has no sub-hypotheses.
    pub fn build(self, _game_state: &GameState, registrar: &mut HypothesisRegistrar) -> (result: HypothesisType)
        ensures
            final(registrar).spec_registrations() == old(registrar).spec_registrations(),
            result matches HypothesisType::TrueIdentity(h) && h.index == self.index && h.archetype == self.archetype,
    {
        HypothesisType::TrueIdentity(TrueIdentityHypothesis { index: self.index, archetype: self.archetype })
    }
}

impl TemplateHypothesisBuilder {
    /// Registers its own builder as the single sub-hypothesis.
    pub fn build(self, _game_state: &GameState, registrar: &mut HypothesisRegistrar) -> (result: HypothesisType)
        ensures
            final(registrar).spec_registrations() == insert_new(
                old(registrar).spec_registrations(),
                HypothesisBuilderType::Template(TemplateHypothesisBuilder {}),
            ),
            result matches HypothesisType::Template(h) && designates(
                final(registrar).spec_registrations(),
                h.sub_hypothesis,
                HypothesisBuilderType::Template(TemplateHypothesisBuilder {}),
            ),
    {
        let sub_hypothesis = registrar.register(HypothesisBuilderType::Template(TemplateHypothesisBuilder {}));
        HypothesisType::Template(TemplateHypothesis { sub_hypothesis })
    }
}

/// The testimonies the testimony hypothesis knows how to check.
pub open spec fn checkable_testimony(t: Testimony) -> bool {
    ||| t is Good
    ||| t is Slayed
    ||| t is Evil
    ||| t is Corrupt
    ||| t is Lying
    ||| t is Role
    ||| t is SelfDestruct
    ||| t is Confess
}

/// The hypothesis on the villager a testimony speaks of, if any.
pub open spec fn testimony_sub_builder(t: Testimony) -> Option<HypothesisBuilderType> {
    match t {
        Testimony::Good(v) => Some(
            HypothesisBuilderType::Negate(
                NegateHypothesisBuilder { target: NegatedHypothesisBuilder::IsEvil(IsEvilHypothesisBuilder { index: v }) },
            ),
        ),
        Testimony::Slayed { index, slayed } => if slayed {
            None
        } else {
            Some(
                HypothesisBuilderType::Negate(
                    NegateHypothesisBuilder {
                        target: NegatedHypothesisBuilder::IsEvil(IsEvilHypothesisBuilder { index }),
                    },
                ),
            )
        },
        Testimony::Evil(v) => Some(HypothesisBuilderType::AppearsEvil(AppearsEvilHypothesisBuilder { index: v })),
        Testimony::Corrupt(v) => Some(HypothesisBuilderType::IsCorrupt(IsCorruptHypothesisBuilder { index: v })),
        Testimony::Lying(v) => Some(
            HypothesisBuilderType::Negate(
                NegateHypothesisBuilder {
                    target: NegatedHypothesisBuilder::IsTruthful(IsTruthfulHypothesisBuilder { index: v }),
                },
            ),
        ),
        Testimony::Role { index, role } => Some(
            HypothesisBuilderType::IsTrulyArchetype(IsTrulyArchetypeHypothesisBuilder { archetype: role, index }),
        ),
        Testimony::SelfDestruct(v) => Some(
            HypothesisBuilderType::IsTrulyArchetype(
                IsTrulyArchetypeHypothesisBuilder { archetype: Role::Bombardier, index: v },
            ),
        ),
        _ => None,
    }
}

/// The villager whose own testimony a testimony makes worth having, if any.
pub open spec fn testimony_subject(t: Testimony) -> Option<VillagerIndex> {
    match t {
        Testimony::Good(v) => Some(v),
        Testimony::Slayed { index, .. } => Some(index),
        Testimony::Evil(v) => Some(v),
        Testimony::Corrupt(v) => Some(v),
        Testimony::Lying(v) => Some(v),
        Testimony::Role { index, .. } => Some(index),
        Testimony::SelfDestruct(v) => Some(v),
        _ => None,
    }
}

/// The desires for the testimonies of the seats below `n`, in seat order.
pub open spec fn testimony_desires(n: int) -> Seq<DesireType>
    decreases n,
{
    if n <= 0 {
        Seq::empty()
    } else {
        testimony_desires(n - 1).push(DesireType::GetTestimony(VillagerIndex((n - 1) as usize)))
    }
}

/// The villager at `v` gets a testimony desire: a seat of the game, or the
/// subject of the testimony given by another villager than `speaker`.
pub open spec fn desired_villager(state: GameState, speaker: VillagerIndex, t: Testimony, v: VillagerIndex) -> bool {
    v.0 < state.num_villagers() || (testimony_subject(t) == Some(v) && v != speaker)
}

/// Some entry of `entries` has key `v`.
pub open spec fn has_key(entries: Seq<(VillagerIndex, DesireProducerReference)>, v: VillagerIndex) -> bool {
    exists|k: int| 0 <= k < entries.len() && (#[trigger] entries[k]).0 == v
}

impl TestimonyHypothesisBuilder {
    pub fn new(index: VillagerIndex, testimony: Testimony) -> (result: Self)
        ensures
            result.index == index,
            result.testimony == testimony,
    {
        TestimonyHypothesisBuilder { index, testimony }
    }

    /// Registers a testimony desire for each villager, and for the villager the
    /// testimony speaks of when another villager gave it; then registers the
    /// hypothesis on that villager.
    pub fn build(self, game_state: &GameState, registrar: &mut HypothesisRegistrar) -> (result: HypothesisType)
        requires
            checkable_testimony(self.testimony),
        ensures
            final(registrar).spec_desires() == ({
                let all = extend_distinct(old(registrar).spec_desires(), testimony_desires(game_state.num_villagers() as int));
                match testimony_subject(self.testimony) {
                    Some(v) => if v != self.index {
                        insert_new(all, DesireType::GetTestimony(v))
                    } else {
                        all
                    },
                    None => all,
                }
            }),
            final(registrar).spec_registrations() == match testimony_sub_builder(self.testimony) {
                Some(b) => insert_new(old(registrar).spec_registrations(), b),
                None => old(registrar).spec_registrations(),
            },
            result is Testimony,
            result matches HypothesisType::Testimony(h) ==> h.index == self.index && h.testimony == self.testimony,
            result matches HypothesisType::Testimony(h) ==> (h.villager_sub_hypothesis is None
                <==> testimony_sub_builder(self.testimony) is None),
            result matches HypothesisType::Testimony(h) ==> (testimony_sub_builder(self.testimony) matches Some(b)
                ==> designates(final(registrar).spec_registrations(), h.villager_sub_hypothesis->Some_0, b)),
            result matches HypothesisType::Testimony(h) ==> forall|p: int, q: int|
                0 <= p < q < h.reverse_testimony_desires@.len() ==> (#[trigger] h.reverse_testimony_desires@[p]).0
                    != (#[trigger] h.reverse_testimony_desires@[q]).0,
            result matches HypothesisType::Testimony(h) ==> forall|k: int|
                0 <= k < h.reverse_testimony_desires@.len() ==> designates_desire(
                    final(registrar).spec_desires(),
                    (#[trigger] h.reverse_testimony_desires@[k]).1,
                    DesireType::GetTestimony(h.reverse_testimony_desires@[k].0),
                ),
            result matches HypothesisType::Testimony(h) ==> forall|v: VillagerIndex|
                #[trigger] desired_villager(*game_state, self.index, self.testimony, v) <==> has_key(
                    h.reverse_testimony_desires@,
                    v,
                ),
    {
        let ghost start = registrar.spec_desires();
        let mut desires: Vec<(VillagerIndex, DesireProducerReference)> = Vec::new();
        let mut i: usize = 0;
        while i < game_state.villagers.len()
            invariant
                i <= game_state.num_villagers(),
                registrar.spec_desires() == extend_distinct(start, testimony_desires(i as int)),
                registrar.spec_registrations() == old(registrar).spec_registrations(),
                start == old(registrar).spec_desires(),
                desires@.len() == i,
                forall|k: int| 0 <= k < i ==> (#[trigger] desires@[k]).0 == VillagerIndex(k as usize),
                forall|k: int|
                    0 <= k < i ==> designates_desire(
                        registrar.spec_desires(),
                        (#[trigger] desires@[k]).1,
                        DesireType::GetTestimony(desires@[k].0),
                    ),
            decreases game_state.villagers.len() - i,
        {
            let ghost before = registrar.spec_desires();
            let reference = registrar.register_desire_producer(DesireType::GetTestimony(VillagerIndex(i)));
            proof {
                let d = DesireType::GetTestimony(VillagerIndex(i));
                assert(testimony_desires(i + 1) == testimony_desires(i as int).push(d));
                lemma_extend_distinct_concat(start, testimony_desires(i as int), seq![d]);
                assert(testimony_desires(i as int) + seq![d] =~= testimony_desires(i + 1));
                assert(seq![d].drop_first() =~= Seq::<DesireType>::empty());
                assert(extend_distinct(before, seq![d]) == extend_distinct(insert_new(before, d), seq![d].drop_first()));
                assert(forall|k: int| 0 <= k < before.len() ==> #[trigger] insert_new(before, d)[k] == before[k]);
            }
            desires.push((VillagerIndex(i), reference));
            i = i + 1;
        }
        let ghost all = registrar.spec_desires();
        let subject: Option<VillagerIndex> = match self.testimony {
            Testimony::Good(v) => Some(v),
            Testimony::Slayed { index, .. } => Some(index),
            Testimony::Evil(v) => Some(v),
            Testimony::Corrupt(v) => Some(v),
            Testimony::Lying(v) => Some(v),
            Testimony::Role { index, .. } => Some(index),
            Testimony::SelfDestruct(v) => Some(v),
            _ => None,
        };
        if let Some(v) = subject {
            if v != self.index {
                let reference = registrar.register_desire_producer(DesireType::GetTestimony(v));
                proof {
                    let d = DesireType::GetTestimony(v);
                    assert(forall|k: int| 0 <= k < all.len() ==> #[trigger] insert_new(all, d)[k] == all[k]);
                }
                if v.0 >= game_state.villagers.len() {
                    desires.push((v, reference));
                }
            }
        }
        let sub_builder: Option<HypothesisBuilderType> = match self.testimony {
            Testimony::Good(v) => Some(
                HypothesisBuilderType::Negate(
                    NegateHypothesisBuilder { target: NegatedHypothesisBuilder::IsEvil(IsEvilHypothesisBuilder { index: v }) },
                ),
            ),
            Testimony::Slayed { index, slayed } => if slayed {
                None
            } else {
                Some(
                    HypothesisBuilderType::Negate(
                        NegateHypothesisBuilder {
                            target: NegatedHypothesisBuilder::IsEvil(IsEvilHypothesisBuilder { index }),
                        },
                    ),
                )
            },
            Testimony::Evil(v) => Some(HypothesisBuilderType::AppearsEvil(AppearsEvilHypothesisBuilder { index: v })),
            Testimony::Corrupt(v) => Some(HypothesisBuilderType::IsCorrupt(IsCorruptHypothesisBuilder { index: v })),
            Testimony::Lying(v) => Some(
                HypothesisBuilderType::Negate(
                    NegateHypothesisBuilder {
                        target: NegatedHypothesisBuilder::IsTruthful(IsTruthfulHypothesisBuilder { index: v }),
                    },
                ),
            ),
            Testimony::Role { index, role } => Some(
                HypothesisBuilderType::IsTrulyArchetype(IsTrulyArchetypeHypothesisBuilder { archetype: role, index }),
            ),
            Testimony::SelfDestruct(v) => Some(
                HypothesisBuilderType::IsTrulyArchetype(
                    IsTrulyArchetypeHypothesisBuilder { archetype: Role::Bombardier, index: v },
                ),
            ),
            _ => None,
        };
        let villager_sub_hypothesis = match sub_builder {
            Some(b) => Some(registrar.register(b)),
            None => None,
        };
        proof {
            let n = game_state.num_villagers();
            assert forall|p: int, q: int|
                0 <= p < q < desires@.len() implies (#[trigger] desires@[p]).0 != (#[trigger] desires@[q]).0 by {
                if q >= n {
                    assert(desires@[q].0.0 >= n);
                }
            }
            assert(subject == testimony_subject(self.testimony));
            assert(sub_builder == testimony_sub_builder(self.testimony));
            assert(villager_sub_hypothesis is None <==> testimony_sub_builder(self.testimony) is None);
            assert forall|k: int|
                0 <= k < desires@.len() implies designates_desire(
                    registrar.spec_desires(),
                    (#[trigger] desires@[k]).1,
                    DesireType::GetTestimony(desires@[k].0),
                ) by {}
            assert forall|v: VillagerIndex| (exists|k: int| 0 <= k < desires@.len() && desires@[k].0 == v)
                implies #[trigger] desired_villager(*game_state, self.index, self.testimony, v) by {
                let k = choose|k: int| 0 <= k < desires@.len() && desires@[k].0 == v;
                if k < n {
                    assert(desires@[k].0 == VillagerIndex(k as usize));
                }
            }
            assert forall|v: VillagerIndex|
                #[trigger] desired_villager(*game_state, self.index, self.testimony, v) implies exists|k: int|
                    0 <= k < desires@.len() && desires@[k].0 == v by {
                if v.0 < n {
                    assert(desires@[v.0 as int].0 == v);
                } else {
                    assert(desires@[n as int].0 == v);
                }
            }
        }
        proof {
            if let Some(b) = testimony_sub_builder(self.testimony) {
                assert(designates(registrar.spec_registrations(), villager_sub_hypothesis->Some_0, b));
            }
            assert forall|v: VillagerIndex|
                #[trigger] desired_villager(*game_state, self.index, self.testimony, v) <==> has_key(desires@, v) by {
                if desired_villager(*game_state, self.index, self.testimony, v) {
                    let k = choose|k: int| 0 <= k < desires@.len() && desires@[k].0 == v;
                    assert(desires@[k].0 == v);
                }
            }
        }
        HypothesisType::Testimony(
            TestimonyHypothesis {
                index: self.index,
                testimony: self.testimony,
                reverse_testimony_desires: desires,
                villager_sub_hypothesis,
            },
        )
    }
}

} // verus!
