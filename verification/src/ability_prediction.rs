use crate::player_action::AbilityAttempt;
use crate::testimony::IndexTestimony;
use crate::theoretical::{
    assignment_maps, expand_all, first_attempt, first_mutation, recorded, same_attempt,
    AbilityPrediction, LayoutWithTestimonyAssigments, PostAbilityBoardMutation,
};
use crate::theoretical_testimony::{
    awaits_testimony, first_awaiting, generate_theoreticals_for_first_villager_with_ability, generation_well_defined,
    theoretical_outcomes, OutcomeModel,
};
use crate::validation::{BoardLayout, TheoreticalVillager};
use crate::villager::VillagerIndex;
use vstd::prelude::*;

verus! {

/// One outcome of an ability use on a candidate board: the ability's source and
/// targets, the board it leads to and the extended satisfying assignments.
pub type GeneratedOutcome = (
    VillagerIndex,
    Seq<VillagerIndex>,
    Seq<TheoreticalVillager>,
    Seq<Map<IndexTestimony, bool>>,
);

/// A candidate board with the assignments that agree with it.
pub type CandidateLayout = LayoutWithTestimonyAssigments<BoardLayout, IndexTestimony>;

/// The outcomes of the ability of the first villager of `c` awaiting a testimony.
pub open spec fn generated(c: CandidateLayout) -> Seq<GeneratedOutcome> {
    let b = c.layout.villagers@;
    match first_awaiting(b) {
        None => Seq::empty(),
        Some(t) => theoretical_outcomes(b, t).map_values(
            |o: OutcomeModel|
                (
                    VillagerIndex(t as usize),
                    o.1,
                    o.0,
                    expand_all(assignment_maps(c.satisfying_assignments@), o.2),
                ),
        ),
    }
}

/// Attempt `a` is the ability use of `g`.
pub open spec fn is_use_of(a: AbilityAttempt, g: GeneratedOutcome) -> bool {
    a.spec_source() == g.0 && a.spec_targets() == g.1
}

/// The outcomes of `items` produced by ability use `a`, in order.
pub open spec fn outcomes_of_use(items: Seq<GeneratedOutcome>, a: AbilityAttempt) -> Seq<GeneratedOutcome>
    decreases items.len(),
{
    if items.len() == 0 {
        Seq::empty()
    } else {
        let rest = outcomes_of_use(items.drop_last(), a);
        if is_use_of(a, items.last()) {
            rest.push(items.last())
        } else {
            rest
        }
    }
}

/// Layout `l` is the board and assignments of outcome `g`.
pub open spec fn layout_is(l: CandidateLayout, g: GeneratedOutcome) -> bool {
    l.layout.villagers@ == g.2 && assignment_maps(l.satisfying_assignments@) == g.3
}

/// The layouts `ls` are, in order, those of the outcomes `gs`.
pub open spec fn layouts_are(ls: Seq<CandidateLayout>, gs: Seq<GeneratedOutcome>) -> bool {
    &&& ls.len() == gs.len()
    &&& forall|k: int| 0 <= k < ls.len() ==> #[trigger] layout_is(ls[k], gs[k])
}

/// An entry of a prediction: an ability use and its mutations.
pub type PredictionEntry = (AbilityAttempt, Vec<PostAbilityBoardMutation<usize, BoardLayout, IndexTestimony>>);

/// Entry `e` lists, for each candidate (by position in `gens`) that its ability
/// use applies to, in increasing order, the outcomes of that use.
pub open spec fn entry_describes(e: PredictionEntry, gens: Seq<Seq<GeneratedOutcome>>) -> bool {
    let muts = e.1@;
    &&& forall|q: int| 0 <= q < muts.len() ==> (#[trigger] muts[q]).original_layout < gens.len()
    &&& forall|q1: int, q2: int|
        0 <= q1 < q2 < muts.len() ==> (#[trigger] muts[q1]).original_layout < (#[trigger] muts[q2]).original_layout
    &&& forall|q: int|
        0 <= q < muts.len() ==> {
            let o = (#[trigger] muts[q]).original_layout as int;
            &&& outcomes_of_use(gens[o], e.0).len() > 0
            &&& layouts_are(muts[q].spec_layouts(), outcomes_of_use(gens[o], e.0))
        }
}

/// Outcome `g` of candidate `i` is listed under its ability use in `p`.
pub open spec fn outcome_listed(p: Seq<PredictionEntry>, g: GeneratedOutcome, i: int) -> bool {
    exists|a: int, q: int|
        0 <= a < p.len() && 0 <= q < p[a].1@.len() && is_use_of(p[a].0, g) && (#[trigger] p[a].1@[q]).original_layout
            == i
}

/// Prediction `p` groups the outcomes `gens` of the candidates by ability use and
/// then by candidate: each use once, each candidate once per use, with exactly
/// the outcomes of that use on that candidate, and no outcome left out.
pub open spec fn predictions_describe(
    p: Seq<PredictionEntry>,
    gens: Seq<Seq<GeneratedOutcome>>,
) -> bool {
    &&& forall|a1: int, a2: int| 0 <= a1 < a2 < p.len() ==> !same_attempt((#[trigger] p[a1]).0, (#[trigger] p[a2]).0)
    &&& forall|a: int| 0 <= a < p.len() ==> entry_describes(#[trigger] p[a], gens)
    &&& forall|i: int, k: int|
        0 <= i < gens.len() && 0 <= k < gens[i].len() ==> outcome_listed(p, #[trigger] gens[i][k], i)
}

proof fn lemma_outcomes_of_use_push(items: Seq<GeneratedOutcome>, g: GeneratedOutcome, a: AbilityAttempt)
    ensures
        outcomes_of_use(items.push(g), a) == if is_use_of(a, g) {
            outcomes_of_use(items, a).push(g)
        } else {
            outcomes_of_use(items, a)
        },
{
    assert(items.push(g).drop_last() =~= items);
}

proof fn lemma_outcomes_of_use_witness(items: Seq<GeneratedOutcome>, a: AbilityAttempt)
    requires
        outcomes_of_use(items, a).len() > 0,
    ensures
        exists|k: int| 0 <= k < items.len() && is_use_of(a, #[trigger] items[k]),
    decreases items.len(),
{
    let rest = items.drop_last();
    if is_use_of(a, items.last()) {
        assert(is_use_of(a, items[items.len() - 1]));
    } else {
        lemma_outcomes_of_use_witness(rest, a);
        let k = choose|k: int| 0 <= k < rest.len() && is_use_of(a, #[trigger] rest[k]);
        assert(items[k] == rest[k]);
    }
}

proof fn lemma_outcomes_of_same_use(items: Seq<GeneratedOutcome>, a1: AbilityAttempt, a2: AbilityAttempt)
    requires
        same_attempt(a1, a2),
    ensures
        outcomes_of_use(items, a1) == outcomes_of_use(items, a2),
    decreases items.len(),
{
    if items.len() > 0 {
        lemma_outcomes_of_same_use(items.drop_last(), a1, a2);
    }
}

/// Adding a candidate without outcomes keeps a prediction's description.
proof fn lemma_describe_push_empty(p: Seq<PredictionEntry>, gens: Seq<Seq<GeneratedOutcome>>)
    requires
        predictions_describe(p, gens),
    ensures
        predictions_describe(p, gens.push(Seq::empty())),
{
    let gens2 = gens.push(Seq::<GeneratedOutcome>::empty());
    assert forall|a: int| 0 <= a < p.len() implies entry_describes(#[trigger] p[a], gens2) by {
        assert(entry_describes(p[a], gens));
        let muts = p[a].1@;
        assert forall|q: int| 0 <= q < muts.len() implies {
            let o = (#[trigger] muts[q]).original_layout as int;
            &&& outcomes_of_use(gens2[o], p[a].0).len() > 0
            &&& layouts_are(muts[q].spec_layouts(), outcomes_of_use(gens2[o], p[a].0))
        } by {
            assert(gens2[muts[q].original_layout as int] == gens[muts[q].original_layout as int]);
        }
    }
    assert forall|i: int, k: int| 0 <= i < gens2.len() && 0 <= k < gens2[i].len() implies outcome_listed(
        p,
        #[trigger] gens2[i][k],
        i,
    ) by {
        assert(i < gens.len());
        assert(gens2[i] == gens[i]);
        assert(outcome_listed(p, gens[i][k], i));
    }
}

/// An entry whose ability use is not that of `g` describes the candidates as
/// well after `g` is added to the last one.
proof fn lemma_entry_other_use(e: PredictionEntry, gens: Seq<Seq<GeneratedOutcome>>, i: int, g: GeneratedOutcome)
    requires
        entry_describes(e, gens),
        gens.len() == i + 1,
        !is_use_of(e.0, g),
    ensures
        entry_describes(e, gens.update(i, gens[i].push(g))),
{
    let gens2 = gens.update(i, gens[i].push(g));
    lemma_outcomes_of_use_push(gens[i], g, e.0);
    let muts = e.1@;
    assert forall|q: int| 0 <= q < muts.len() implies {
        let o = (#[trigger] muts[q]).original_layout as int;
        &&& outcomes_of_use(gens2[o], e.0).len() > 0
        &&& layouts_are(muts[q].spec_layouts(), outcomes_of_use(gens2[o], e.0))
    } by {
        let o = muts[q].original_layout as int;
        if o != i {
            assert(gens2[o] == gens[o]);
        }
    }
}

/// Without a mutation of candidate `i` under an ability use like `b`, the
/// candidate has no outcome of that use.
proof fn lemma_no_outcomes_without_mutation(
    p: Seq<PredictionEntry>,
    gens: Seq<Seq<GeneratedOutcome>>,
    i: int,
    b: AbilityAttempt,
)
    requires
        predictions_describe(p, gens),
        0 <= i < gens.len(),
        forall|a: int, q: int|
            0 <= a < p.len() && 0 <= q < p[a].1@.len() && (#[trigger] p[a].1@[q]).original_layout == i
                ==> !same_attempt(p[a].0, b),
    ensures
        outcomes_of_use(gens[i], b).len() == 0,
{
    if outcomes_of_use(gens[i], b).len() > 0 {
        lemma_outcomes_of_use_witness(gens[i], b);
        let k = choose|k: int| 0 <= k < gens[i].len() && is_use_of(b, #[trigger] gens[i][k]);
        assert(outcome_listed(p, gens[i][k], i));
        let (a, q) = choose|a: int, q: int|
            0 <= a < p.len() && 0 <= q < p[a].1@.len() && is_use_of(p[a].0, gens[i][k]) && (#[trigger] p[a].1@[q]).original_layout
                == i;
        assert(same_attempt(p[a].0, b));
    }
}

/// Recording an outcome of an existing ability use keeps the description.
proof fn lemma_describe_record_existing(
    p: Seq<PredictionEntry>,
    p2: Seq<PredictionEntry>,
    gens: Seq<Seq<GeneratedOutcome>>,
    i: usize,
    g: GeneratedOutcome,
    attempt: AbilityAttempt,
    layout: CandidateLayout,
    a: int,
)
    requires
        predictions_describe(p, gens),
        gens.len() == i + 1,
        is_use_of(attempt, g),
        layout_is(layout, g),
        recorded(p, p2, attempt, i, layout),
        first_attempt(p, attempt) == Some(a),
        0 <= a < p.len(),
        same_attempt(p[a].0, attempt),
    ensures
        predictions_describe(p2, gens.update(i as int, gens[i as int].push(g))),
{
    let ii = i as int;
    let gens2 = gens.update(ii, gens[ii].push(g));
    let muts = p[a].1@;
    let muts2 = p2[a].1@;
    let use_a = p[a].0;
    assert(is_use_of(use_a, g));
    lemma_outcomes_of_use_push(gens[ii], g, use_a);
    assert forall|b: int| 0 <= b < p.len() && b != a implies entry_describes(#[trigger] p2[b], gens2) by {
        assert(p2[b] == p[b]);
        assert(entry_describes(p[b], gens));
        if b < a {
            assert(!same_attempt(p[b].0, p[a].0));
        } else {
            assert(!same_attempt(p[a].0, p[b].0));
        }
        lemma_entry_other_use(p[b], gens, ii, g);
    }
    assert(entry_describes(p[a], gens));
    let first = first_mutation(muts, i);
    match first {
        Some(m) => {
            assert(0 <= m < muts.len() && muts[m].original_layout == i);
            assert forall|q: int| 0 <= q < muts2.len() implies #[trigger] muts2[q].original_layout == muts[q].original_layout by {
                if q != m {
                    assert(muts2[q] == muts[q]);
                }
            }
            assert forall|q: int| 0 <= q < muts2.len() implies {
                let o = (#[trigger] muts2[q]).original_layout as int;
                &&& outcomes_of_use(gens2[o], use_a).len() > 0
                &&& layouts_are(muts2[q].spec_layouts(), outcomes_of_use(gens2[o], use_a))
            } by {
                if q != m {
                    assert(muts2[q] == muts[q]);
                    let o = muts[q].original_layout as int;
                    if q < m {
                        assert(muts[q].original_layout < muts[m].original_layout);
                    } else {
                        assert(muts[m].original_layout < muts[q].original_layout);
                    }
                    assert(gens2[o] == gens[o]);
                } else {
                    let old_outs = outcomes_of_use(gens[ii], use_a);
                    let old_layouts = muts[m].spec_layouts();
                    assert(layouts_are(old_layouts, old_outs));
                    assert forall|k: int| 0 <= k < old_layouts.len() + 1 implies #[trigger] layout_is(
                        old_layouts.push(layout)[k],
                        old_outs.push(g)[k],
                    ) by {
                        if k < old_layouts.len() {
                            assert(layout_is(old_layouts[k], old_outs[k]));
                        }
                    }
                }
            }
            assert(entry_describes(p2[a], gens2));
            assert forall|j: int, k: int| 0 <= j < gens2.len() && 0 <= k < gens2[j].len() implies outcome_listed(
                p2,
                #[trigger] gens2[j][k],
                j,
            ) by {
                if j == ii && k == gens[ii].len() {
                    assert(gens2[j][k] == g);
                    assert(is_use_of(p2[a].0, g) && p2[a].1@[m].original_layout == j);
                } else {
                    assert(gens2[j][k] == gens[j][k]);
                    assert(outcome_listed(p, gens[j][k], j));
                    let (x, q) = choose|x: int, q: int|
                        0 <= x < p.len() && 0 <= q < p[x].1@.len() && is_use_of(p[x].0, gens[j][k])
                            && (#[trigger] p[x].1@[q]).original_layout == j;
                    if x != a {
                        assert(p2[x] == p[x]);
                    }
                    assert(is_use_of(p2[x].0, gens2[j][k]) && p2[x].1@[q].original_layout == j);
                }
            }
        },
        None => {
            assert forall|q: int| 0 <= q < muts.len() implies #[trigger] muts[q].original_layout != i by {}
            assert(outcomes_of_use(gens[ii], use_a).len() == 0) by {
                assert forall|x: int, q: int|
                    0 <= x < p.len() && 0 <= q < p[x].1@.len() && (#[trigger] p[x].1@[q]).original_layout == ii
                        implies !same_attempt(p[x].0, use_a) by {
                    if x < a {
                        assert(!same_attempt(p[x].0, p[a].0));
                    } else if x > a {
                        assert(!same_attempt(p[a].0, p[x].0));
                    } else {
                        assert(muts[q].original_layout != i);
                    }
                }
                lemma_no_outcomes_without_mutation(p, gens, ii, use_a);
            }
            assert forall|q: int| 0 <= q < muts.len() implies #[trigger] muts2[q] == muts[q] by {}
            assert forall|q: int| 0 <= q < muts2.len() implies {
                let o = (#[trigger] muts2[q]).original_layout as int;
                &&& outcomes_of_use(gens2[o], use_a).len() > 0
                &&& layouts_are(muts2[q].spec_layouts(), outcomes_of_use(gens2[o], use_a))
            } by {
                if q < muts.len() {
                    let o = muts[q].original_layout as int;
                    assert(o != ii);
                    assert(gens2[o] == gens[o]);
                } else {
                    assert(outcomes_of_use(gens2[ii], use_a) =~= seq![g]);
                    assert(layout_is(muts2[q].spec_layouts()[0], g));
                }
            }
            assert forall|q1: int, q2: int| 0 <= q1 < q2 < muts2.len() implies (#[trigger] muts2[q1]).original_layout
                < (#[trigger] muts2[q2]).original_layout by {
                if q2 == muts.len() {
                    assert(muts[q1].original_layout < gens.len());
                    assert(muts[q1].original_layout != i);
                } else {
                    assert(muts[q1].original_layout < muts[q2].original_layout);
                }
            }
            assert(entry_describes(p2[a], gens2));
            assert forall|j: int, k: int| 0 <= j < gens2.len() && 0 <= k < gens2[j].len() implies outcome_listed(
                p2,
                #[trigger] gens2[j][k],
                j,
            ) by {
                if j == ii && k == gens[ii].len() {
                    assert(gens2[j][k] == g);
                    assert(is_use_of(p2[a].0, g) && p2[a].1@[muts.len() as int].original_layout == j);
                } else {
                    assert(gens2[j][k] == gens[j][k]);
                    assert(outcome_listed(p, gens[j][k], j));
                    let (x, q) = choose|x: int, q: int|
                        0 <= x < p.len() && 0 <= q < p[x].1@.len() && is_use_of(p[x].0, gens[j][k])
                            && (#[trigger] p[x].1@[q]).original_layout == j;
                    if x != a {
                        assert(p2[x] == p[x]);
                    }
                    assert(is_use_of(p2[x].0, gens2[j][k]) && p2[x].1@[q].original_layout == j);
                }
            }
        },
    }
    assert forall|b: int| 0 <= b < p2.len() implies entry_describes(#[trigger] p2[b], gens2) by {
        if b != a {
            assert(entry_describes(p2[b], gens2));
        }
    }
    assert forall|a1: int, a2: int| 0 <= a1 < a2 < p2.len() implies !same_attempt((#[trigger] p2[a1]).0, (#[trigger] p2[a2]).0) by {
        assert(p2[a1].0 == p[a1].0);
        assert(p2[a2].0 == p[a2].0);
    }
}

/// Recording an outcome of a new ability use keeps the description.
proof fn lemma_describe_record_new(
    p: Seq<PredictionEntry>,
    p2: Seq<PredictionEntry>,
    gens: Seq<Seq<GeneratedOutcome>>,
    i: usize,
    g: GeneratedOutcome,
    attempt: AbilityAttempt,
    layout: CandidateLayout,
)
    requires
        predictions_describe(p, gens),
        gens.len() == i + 1,
        is_use_of(attempt, g),
        layout_is(layout, g),
        recorded(p, p2, attempt, i, layout),
        forall|b: int| 0 <= b < p.len() ==> !same_attempt((#[trigger] p[b]).0, attempt),
    ensures
        predictions_describe(p2, gens.update(i as int, gens[i as int].push(g))),
{
    let ii = i as int;
    let gens2 = gens.update(ii, gens[ii].push(g));
    let n = p.len() as int;
    assert(first_attempt(p, attempt) is None);
    assert(p2.len() == n + 1);
    assert forall|b: int| 0 <= b < n implies entry_describes(#[trigger] p2[b], gens2) by {
        assert(p2[b] == p[b]);
        assert(entry_describes(p[b], gens));
        assert(!same_attempt(p[b].0, attempt));
        lemma_entry_other_use(p[b], gens, ii, g);
    }
    assert(outcomes_of_use(gens[ii], attempt).len() == 0) by {
        lemma_no_outcomes_without_mutation(p, gens, ii, attempt);
    }
    lemma_outcomes_of_use_push(gens[ii], g, attempt);
    assert(p2[n] == p2.last());
    assert(outcomes_of_use(gens2[ii], attempt) =~= seq![g]);
    assert(layout_is(p2[n].1@[0].spec_layouts()[0], g));
    assert(entry_describes(p2[n], gens2));
    assert forall|b: int| 0 <= b < p2.len() implies entry_describes(#[trigger] p2[b], gens2) by {
        if b < n {
            assert(entry_describes(p2[b], gens2));
        }
    }
    assert forall|a1: int, a2: int| 0 <= a1 < a2 < p2.len() implies !same_attempt((#[trigger] p2[a1]).0, (#[trigger] p2[a2]).0) by {
        assert(p2[a1] == p[a1]);
        if a2 < n {
            assert(p2[a2] == p[a2]);
        } else {
            assert(!same_attempt(p[a1].0, attempt));
        }
    }
    assert forall|j: int, k: int| 0 <= j < gens2.len() && 0 <= k < gens2[j].len() implies outcome_listed(
        p2,
        #[trigger] gens2[j][k],
        j,
    ) by {
        if j == ii && k == gens[ii].len() {
            assert(gens2[j][k] == g);
            assert(is_use_of(p2[n].0, g) && p2[n].1@[0].original_layout == j);
        } else {
            assert(gens2[j][k] == gens[j][k]);
            assert(outcome_listed(p, gens[j][k], j));
            let (x, q) = choose|x: int, q: int|
                0 <= x < p.len() && 0 <= q < p[x].1@.len() && is_use_of(p[x].0, gens[j][k])
                    && (#[trigger] p[x].1@[q]).original_layout == j;
            assert(p2[x] == p[x]);
            assert(is_use_of(p2[x].0, gens2[j][k]) && p2[x].1@[q].original_layout == j);
        }
    }
}

/// Recording an outcome keeps the description.
proof fn lemma_describe_record(
    p: Seq<PredictionEntry>,
    p2: Seq<PredictionEntry>,
    gens: Seq<Seq<GeneratedOutcome>>,
    i: usize,
    g: GeneratedOutcome,
    attempt: AbilityAttempt,
    layout: CandidateLayout,
)
    requires
        predictions_describe(p, gens),
        gens.len() == i + 1,
        is_use_of(attempt, g),
        layout_is(layout, g),
        recorded(p, p2, attempt, i, layout),
    ensures
        predictions_describe(p2, gens.update(i as int, gens[i as int].push(g))),
{
    match first_attempt(p, attempt) {
        Some(a) => {
            assert(0 <= a < p.len() && same_attempt(p[a].0, attempt));
            lemma_describe_record_existing(p, p2, gens, i, g, attempt, layout, a);
        },
        None => {
            assert forall|b: int| 0 <= b < p.len() implies !same_attempt((#[trigger] p[b]).0, attempt) by {}
            lemma_describe_record_new(p, p2, gens, i, g, attempt, layout);
        },
    }
}

/// The outcomes `generate_theoreticals_for_first_villager_with_ability` produced
/// for candidate `c` are, in order, those of `generated(c)`.
pub open spec fn generation_matches(
    items: Seq<(AbilityAttempt, CandidateLayout)>,
    c: CandidateLayout,
) -> bool {
    &&& items.len() == generated(c).len()
    &&& forall|k: int|
        0 <= k < items.len() ==> is_use_of((#[trigger] items[k]).0, generated(c)[k]) && layout_is(
            items[k].1,
            generated(c)[k],
        )
}

fn generate_for(c: &CandidateLayout) -> (result: Vec<(AbilityAttempt, CandidateLayout)>)
    requires
        generation_well_defined(*c),
    ensures
        generation_matches(result@, *c),
{
    let result = generate_theoreticals_for_first_villager_with_ability(c);
    proof {
        let b = c.layout.villagers@;
        match first_awaiting(b) {
            None => {},
            Some(t) => {
                let model = theoretical_outcomes(b, t);
                assert forall|k: int| 0 <= k < result@.len() implies is_use_of(
                    (#[trigger] result@[k]).0,
                    generated(*c)[k],
                ) && layout_is(result@[k].1, generated(*c)[k]) by {
                    assert(generated(*c)[k] == (
                        VillagerIndex(t as usize),
                        model[k].1,
                        model[k].0,
                        expand_all(assignment_maps(c.satisfying_assignments@), model[k].2),
                    ));
                }
            },
        }
    }
    result
}

/// For each candidate board, the uses of the ability of its first villager
/// awaiting a testimony and the boards they could lead to, grouped by ability use
/// and then by candidate, a candidate named by its position in
/// `board_configs_and_satisfying_assignments` (two equal layouts at different
/// positions stay apart, each with its own outcomes).
pub fn predict_ability_outcomes(board_configs_and_satisfying_assignments: &Vec<CandidateLayout>) -> (result:
    AbilityPrediction<usize, BoardLayout, IndexTestimony>)
    requires
        forall|i: int|
            0 <= i < board_configs_and_satisfying_assignments@.len() ==> generation_well_defined(
                #[trigger] board_configs_and_satisfying_assignments@[i],
            ),
    ensures
        predictions_describe(
            result.attempt_predictions@,
            board_configs_and_satisfying_assignments@.map_values(|c: CandidateLayout| generated(c)),
        ),
{
    let configs = board_configs_and_satisfying_assignments;
    let ghost gens = configs@.map_values(|c: CandidateLayout| generated(c));
    let mut results: AbilityPrediction<usize, BoardLayout, IndexTestimony> = AbilityPrediction::new();
    proof {
        broadcast use vstd::laws_eq::group_laws_eq;
        assert(vstd::laws_eq::obeys_concrete_eq::<usize>());
        assert(crate::optimized_expression::clone_is_exact::<usize>());
        assert(gens.subrange(0, 0) =~= Seq::<Seq<GeneratedOutcome>>::empty());
    }
    let mut i: usize = 0;
    while i < configs.len()
        invariant
            i <= configs@.len(),
            gens == configs@.map_values(|c: CandidateLayout| generated(c)),
            gens.len() == configs@.len(),
            forall|j: int| 0 <= j < configs@.len() ==> generation_well_defined(#[trigger] configs@[j]),
            vstd::laws_eq::obeys_concrete_eq::<usize>(),
            crate::optimized_expression::clone_is_exact::<usize>(),
            predictions_describe(results.attempt_predictions@, gens.subrange(0, i as int)),
        decreases configs@.len() - i,
    {
        let mut items = generate_for(&configs[i]);
        let ghost all = items@;
        let ghost done = gens.subrange(0, i as int);
        proof {
            assert(gens[i as int] == generated(configs@[i as int]));
            lemma_describe_push_empty(results.attempt_predictions@, done);
            assert(gens[i as int].subrange(0, 0) =~= Seq::<GeneratedOutcome>::empty());
            assert(done.push(Seq::<GeneratedOutcome>::empty()) =~= done.push(gens[i as int].subrange(0, 0)));
            assert(all.len() == items.len());
        }
        let mut k: usize = 0;
        while items.len() > 0
            invariant
                i < configs@.len(),
                gens.len() == configs@.len(),
                done.len() == i,
                k <= all.len(),
                all.len() <= usize::MAX,
                items@ == all.subrange(k as int, all.len() as int),
                generation_matches(all, configs@[i as int]),
                gens[i as int] == generated(configs@[i as int]),
                done == gens.subrange(0, i as int),
                vstd::laws_eq::obeys_concrete_eq::<usize>(),
                crate::optimized_expression::clone_is_exact::<usize>(),
                predictions_describe(
                    results.attempt_predictions@,
                    done.push(gens[i as int].subrange(0, k as int)),
                ),
            decreases items@.len(),
        {
            let ghost current = done.push(gens[i as int].subrange(0, k as int));
            let ghost before = results.attempt_predictions@;
            let ghost g = gens[i as int][k as int];
            let (attempt, layout) = items.remove(0);
            assert(attempt == all[k as int].0 && layout == all[k as int].1);
            let ghost recorded_layout = layout;
            let ghost recorded_attempt = attempt;
            results.record(attempt, &i, layout);
            proof {
                lemma_describe_record(
                    before,
                    results.attempt_predictions@,
                    current,
                    i,
                    g,
                    recorded_attempt,
                    recorded_layout,
                );
                assert(current[i as int] == gens[i as int].subrange(0, k as int));
                assert(gens[i as int].subrange(0, k + 1) =~= gens[i as int].subrange(0, k as int).push(g));
                assert(current.update(i as int, current[i as int].push(g)) =~= done.push(
                    gens[i as int].subrange(0, k + 1),
                ));
            }
            k = k + 1;
        }
        proof {
            assert(k == all.len());
            assert(gens[i as int].subrange(0, k as int) =~= gens[i as int]);
            assert(done.push(gens[i as int].subrange(0, k as int)) =~= gens.subrange(0, i + 1));
        }
        i = i + 1;
    }
    proof {
        assert(gens.subrange(0, configs@.len() as int) =~= gens);
    }
    results
}

/// The first potential board of mutation `m` has a revealed villager without a
/// testimony.
pub open spec fn first_board_awaits(m: PostAbilityBoardMutation<usize, BoardLayout, IndexTestimony>) -> bool {
    let v = m.spec_layouts()[0].layout.villagers@;
    exists|s: int| 0 <= s < v.len() && awaits_testimony(#[trigger] v[s])
}

/// Some mutation's first potential board still has a revealed villager without
/// a testimony.
pub open spec fn testimonies_remain_in(p: Seq<PredictionEntry>) -> bool {
    exists|a: int, q: int| 0 <= a < p.len() && 0 <= q < p[a].1@.len() && first_board_awaits(#[trigger] p[a].1@[q])
}

/// Whether the ability outcomes still leave a revealed villager without a
/// testimony on some mutation's first potential board, so that more outcomes
/// need to be generated.
pub fn testimonies_remain(prediction: &AbilityPrediction<usize, BoardLayout, IndexTestimony>) -> (result: bool)
    requires
        forall|a: int, q: int|
            0 <= a < prediction.attempt_predictions@.len() && 0 <= q < prediction.attempt_predictions@[a].1@.len()
                ==> (#[trigger] prediction.attempt_predictions@[a].1@[q]).spec_layouts().len() > 0,
    ensures
        result == testimonies_remain_in(prediction.attempt_predictions@),
{
    let p = &prediction.attempt_predictions;
    let mut a: usize = 0;
    while a < p.len()
        invariant
            a <= p@.len(),
            p@ == prediction.attempt_predictions@,
            forall|x: int, q: int|
                0 <= x < p@.len() && 0 <= q < p@[x].1@.len() ==> (#[trigger] p@[x].1@[q]).spec_layouts().len() > 0,
            forall|x: int, q: int| 0 <= x < a && 0 <= q < p@[x].1@.len() ==> !first_board_awaits(#[trigger] p@[x].1@[q]),
        decreases p@.len() - a,
    {
        let mutations = &p[a].1;
        let mut q: usize = 0;
        while q < mutations.len()
            invariant
                a < p@.len(),
                q <= mutations@.len(),
                p@ == prediction.attempt_predictions@,
                mutations@ == p@[a as int].1@,
                forall|x: int, r: int|
                    0 <= x < p@.len() && 0 <= r < p@[x].1@.len() ==> (#[trigger] p@[x].1@[r]).spec_layouts().len() > 0,
                forall|r: int| 0 <= r < q ==> !first_board_awaits(#[trigger] mutations@[r]),
            decreases mutations@.len() - q,
        {
            assert(mutations@[q as int].spec_layouts().len() > 0);
            let villagers = &mutations[q].potential_layouts[0].layout.villagers;
            let mut s: usize = 0;
            while s < villagers.len()
                invariant
                    a < p@.len(),
                    q < mutations@.len(),
                    p@ == prediction.attempt_predictions@,
                    mutations@ == p@[a as int].1@,
                    mutations@[q as int].spec_layouts().len() > 0,
                    villagers@ == mutations@[q as int].spec_layouts()[0].layout.villagers@,
                    s <= villagers@.len(),
                    forall|t: int| 0 <= t < s ==> !awaits_testimony(#[trigger] villagers@[t]),
                decreases villagers@.len() - s,
            {
                if villagers[s].revealed && villagers[s].testimony.is_none() {
                    assert(awaits_testimony(villagers@[s as int]));
                    assert(first_board_awaits(p@[a as int].1@[q as int]));
                    return true;
                }
                s = s + 1;
            }
            q = q + 1;
        }
        a = a + 1;
    }
    false
}

} // verus!
