use crate::expression::Expression;
use crate::player_action::{strictly_increasing, AbilityAttempt};
use crate::theoretical::{
    assignment_maps, expand_all, expand_assignments, Assignment, LayoutWithTestimonyAssigments,
};
use crate::optimized_expression::clone_is_exact;
use crate::testimony::{IndexTestimony, Role, Testimony};
use crate::optimized_expression::OptimizedExpression;
use crate::validation::{
    assignment_consistent_upto, assignment_for_variables, validate_assignment, validation_well_defined,
    values_for, BoardLayout, TheoreticalVillager,
};
use crate::villager::VillagerIndex;
use vstd::prelude::*;

verus! {

/// A board, one ability use and what it would be told, as the ability's owner
/// would report it.
pub type TheoreticalOutcome = (BoardLayout, AbilityAttempt, Vec<IndexTestimony>);

/// A board, the targets of an ability use (in increasing seat order) and the
/// claims produced.
pub type OutcomeModel = (Seq<TheoreticalVillager>, Seq<VillagerIndex>, Seq<IndexTestimony>);

/// The single seat `idx`, as a list of targets.
pub open spec fn seat(idx: int) -> Seq<VillagerIndex> {
    seq![VillagerIndex(idx as usize)]
}

/// The villager, with `e` as its full testimony.
pub open spec fn with_testimony(v: TheoreticalVillager, e: Expression<Testimony>) -> TheoreticalVillager {
    TheoreticalVillager { testimony: Some(e), ..v }
}

/// The villager, killed.
pub open spec fn killed(v: TheoreticalVillager) -> TheoreticalVillager {
    TheoreticalVillager { actually_dead: true, ..v }
}

/// Claim `testimony` made by the villager at seat `t`.
pub open spec fn claim_by(t: int, testimony: Testimony) -> IndexTestimony {
    IndexTestimony { index: VillagerIndex(t as usize), testimony }
}

/// A single leaf.
pub open spec fn leaf(t: Testimony) -> Expression<Testimony> {
    Expression::Leaf(t)
}

/// The outcomes of a judge at `t` judging each of the seats below `k`: the
/// judged villager is said to lie, or said not to lie.
pub open spec fn judge_outcomes(b: Seq<TheoreticalVillager>, t: int, k: int) -> Seq<OutcomeModel>
    decreases k,
{
    if k <= 0 {
        Seq::empty()
    } else {
        let idx = k - 1;
        let claim = Testimony::Lying(VillagerIndex(idx as usize));
        judge_outcomes(b, t, k - 1) + seq![
            (b.update(t, with_testimony(b[t], leaf(claim))), seat(idx), seq![claim_by(t, claim)]),
            (
                b.update(t, with_testimony(b[t], Expression::Not(Box::new(leaf(claim))))),
                seat(idx),
                seq![claim_by(t, claim)],
            ),
        ]
    }
}

/// A slayer at `t` kills the villager at `idx`: it does not lie and the target
/// reads as evil.
pub open spec fn slays(b: Seq<TheoreticalVillager>, t: int, idx: int) -> bool {
    !b[t].will_lie && b[idx].appears_evil
}

/// The outcomes of a slayer at `t` trying each living seat below `k` but its own.
pub open spec fn slayer_outcomes(b: Seq<TheoreticalVillager>, t: int, k: int) -> Seq<OutcomeModel>
    decreases k,
{
    if k <= 0 {
        Seq::empty()
    } else {
        let idx = k - 1;
        let rest = slayer_outcomes(b, t, k - 1);
        if idx == t || b[idx].actually_dead {
            rest
        } else {
            let slayed = slays(b, t, idx);
            let claim = Testimony::Slayed { index: VillagerIndex(idx as usize), slayed };
            let after = if slayed {
                b.update(idx, killed(b[idx]))
            } else {
                b
            };
            rest.push((after.update(t, with_testimony(b[t], leaf(claim))), seat(idx), seq![claim_by(t, claim)]))
        }
    }
}

/// A plague doctor at `t` calls the villager at `target` corrupt.
pub open spec fn says_corrupt(b: Seq<TheoreticalVillager>, t: int, target: int) -> bool {
    b[t].will_lie != b[target].corrupted
}

/// A plague doctor at `t`, having called `target` corrupt, names one of the
/// seats below `k` (not its own, not the target's) that it reports as evil.
pub open spec fn plague_doctor_evil_outcomes(
    b: Seq<TheoreticalVillager>,
    t: int,
    target: int,
    k: int,
) -> Seq<OutcomeModel>
    decreases k,
{
    if k <= 0 {
        Seq::empty()
    } else {
        let idx = k - 1;
        let rest = plague_doctor_evil_outcomes(b, t, target, k - 1);
        if idx == t || idx == target || b[t].will_lie == b[idx].appears_evil {
            rest
        } else {
            let corrupt = Testimony::Corrupt(VillagerIndex(target as usize));
            let evil = Testimony::Evil(VillagerIndex(idx as usize));
            rest.push(
                (
                    b.update(
                        t,
                        with_testimony(b[t], Expression::And(Box::new(leaf(corrupt)), Box::new(leaf(evil)))),
                    ),
                    seat(target),
                    seq![claim_by(t, corrupt), claim_by(t, evil)],
                ),
            )
        }
    }
}

/// The outcomes of a plague doctor at `t` examining each seat below `k` but its own.
pub open spec fn plague_doctor_outcomes(b: Seq<TheoreticalVillager>, t: int, k: int) -> Seq<OutcomeModel>
    decreases k,
{
    if k <= 0 {
        Seq::empty()
    } else {
        let target = k - 1;
        let rest = plague_doctor_outcomes(b, t, k - 1);
        let corrupt = Testimony::Corrupt(VillagerIndex(target as usize));
        if target == t {
            rest
        } else if !says_corrupt(b, t, target) {
            rest.push(
                (
                    b.update(t, with_testimony(b[t], Expression::Not(Box::new(leaf(corrupt))))),
                    seat(target),
                    seq![claim_by(t, corrupt)],
                ),
            )
        } else {
            rest + plague_doctor_evil_outcomes(b, t, target, b.len() as int)
        }
    }
}

/// What a fortune teller at `t` reports of seats `i < j`: whether one of them is evil.
pub open spec fn fortune_teller_outcome(b: Seq<TheoreticalVillager>, t: int, i: int, j: int, evil: bool) -> OutcomeModel {
    let claim = Testimony::FortuneTeller {
        first: VillagerIndex(i as usize),
        second: VillagerIndex(j as usize),
        evil,
    };
    (
        b.update(t, with_testimony(b[t], leaf(claim))),
        seq![VillagerIndex(i as usize), VillagerIndex(j as usize)],
        seq![claim_by(t, claim)],
    )
}

/// The fortune teller's outcomes for the pairs `(i, j)`, `i < j < k`: for each
/// pair, "neither is evil" and then "one is evil".
pub open spec fn fortune_teller_row(b: Seq<TheoreticalVillager>, t: int, i: int, k: int) -> Seq<OutcomeModel>
    decreases k - i,
{
    if k <= i + 1 {
        Seq::empty()
    } else {
        fortune_teller_row(b, t, i, k - 1) + seq![
            fortune_teller_outcome(b, t, i, k - 1, false),
            fortune_teller_outcome(b, t, i, k - 1, true),
        ]
    }
}

/// The outcomes of a fortune teller at `t` for every pair of seats whose lower
/// seat is below `k`, pairs in increasing order.
pub open spec fn fortune_teller_outcomes(b: Seq<TheoreticalVillager>, t: int, k: int) -> Seq<OutcomeModel>
    decreases k,
{
    if k <= 0 {
        Seq::empty()
    } else {
        fortune_teller_outcomes(b, t, k - 1) + fortune_teller_row(b, t, k - 1, b.len() as int)
    }
}

/// The claim that seat `v` is evil, or that it is not.
pub open spec fn evil_literal(v: int, evil: bool) -> Expression<Testimony> {
    if evil {
        leaf(Testimony::Evil(VillagerIndex(v as usize)))
    } else {
        Expression::Not(Box::new(leaf(Testimony::Evil(VillagerIndex(v as usize)))))
    }
}

/// Seats `i`, `j` and `l` are evil as `ei`, `ej` and `el` say.
pub open spec fn evil_pattern(i: int, j: int, l: int, ei: bool, ej: bool, el: bool) -> Expression<Testimony> {
    Expression::And(
        Box::new(evil_literal(i, ei)),
        Box::new(Expression::And(Box::new(evil_literal(j, ej)), Box::new(evil_literal(l, el)))),
    )
}

/// A jester's report on seats `i`, `j` and `l`: exactly `count` of them are evil.
pub open spec fn jester_expression(i: int, j: int, l: int, count: int) -> Expression<Testimony> {
    let or3 = |x: Expression<Testimony>, y: Expression<Testimony>, z: Expression<Testimony>|
        Expression::Or(Box::new(x), Box::new(Expression::Or(Box::new(y), Box::new(z))));
    if count == 0 {
        evil_pattern(i, j, l, false, false, false)
    } else if count == 1 {
        or3(
            evil_pattern(i, j, l, true, false, false),
            evil_pattern(i, j, l, false, true, false),
            evil_pattern(i, j, l, false, false, true),
        )
    } else if count == 2 {
        or3(
            evil_pattern(i, j, l, true, true, false),
            evil_pattern(i, j, l, true, false, true),
            evil_pattern(i, j, l, false, true, true),
        )
    } else {
        evil_pattern(i, j, l, true, true, true)
    }
}

/// What a jester at `t` reports of seats `i < j < l`: `count` of them are evil.
pub open spec fn jester_outcome(b: Seq<TheoreticalVillager>, t: int, i: int, j: int, l: int, count: int) -> OutcomeModel {
    (
        b.update(t, with_testimony(b[t], jester_expression(i, j, l, count))),
        seq![VillagerIndex(i as usize), VillagerIndex(j as usize), VillagerIndex(l as usize)],
        seq![
            claim_by(t, Testimony::Evil(VillagerIndex(i as usize))),
            claim_by(t, Testimony::Evil(VillagerIndex(j as usize))),
            claim_by(t, Testimony::Evil(VillagerIndex(l as usize))),
        ],
    )
}

/// The jester's outcomes for the triples `(i, j, l)`, `j < l < k`: the counts 0 to 3.
pub open spec fn jester_third(b: Seq<TheoreticalVillager>, t: int, i: int, j: int, k: int) -> Seq<OutcomeModel>
    decreases k - j,
{
    if k <= j + 1 {
        Seq::empty()
    } else {
        jester_third(b, t, i, j, k - 1) + seq![
            jester_outcome(b, t, i, j, k - 1, 0),
            jester_outcome(b, t, i, j, k - 1, 1),
            jester_outcome(b, t, i, j, k - 1, 2),
            jester_outcome(b, t, i, j, k - 1, 3),
        ]
    }
}

/// The jester's outcomes for the triples `(i, j, l)`, `i < j < k`.
pub open spec fn jester_second(b: Seq<TheoreticalVillager>, t: int, i: int, k: int) -> Seq<OutcomeModel>
    decreases k - i,
{
    if k <= i + 1 {
        Seq::empty()
    } else {
        jester_second(b, t, i, k - 1) + jester_third(b, t, i, k - 1, b.len() as int)
    }
}

/// The outcomes of a jester at `t` for every triple of seats whose lowest seat
/// is below `k`, triples in increasing order.
pub open spec fn jester_outcomes(b: Seq<TheoreticalVillager>, t: int, k: int) -> Seq<OutcomeModel>
    decreases k,
{
    if k <= 0 {
        Seq::empty()
    } else {
        jester_outcomes(b, t, k - 1) + jester_second(b, t, k - 1, b.len() as int)
    }
}

/// The roles whose ability outcomes are generated here.
pub open spec fn generates_outcomes(role: Role) -> bool {
    role is Judge || role is Slayer || role is PlagueDoctor || role is FortuneTeller || role is Jester
}

/// All outcomes of the ability of the villager at `t`, by the role it shows.
pub open spec fn theoretical_outcomes(b: Seq<TheoreticalVillager>, t: int) -> Seq<OutcomeModel> {
    let n = b.len() as int;
    match b[t].archetype {
        Role::Judge => judge_outcomes(b, t, n),
        Role::Slayer => slayer_outcomes(b, t, n),
        Role::FortuneTeller => fortune_teller_outcomes(b, t, n),
        Role::Jester => jester_outcomes(b, t, n),
        _ => plague_doctor_outcomes(b, t, n),
    }
}

/// Outcome `o` of the ability of the villager at `t` changes board `b` only by
/// giving that villager a testimony and, at most, killing the target; its claims
/// are made by that villager.
pub open spec fn outcome_keeps_board(b: Seq<TheoreticalVillager>, t: int, o: OutcomeModel) -> bool {
    &&& forall|j: int| 0 <= j < o.2.len() ==> (#[trigger] o.2[j]).index == VillagerIndex(t as usize)
    &&& o.0.len() == b.len()
    &&& forall|k: int| 0 <= k < o.1.len() ==> (#[trigger] o.1[k]).0 < b.len()
    &&& o.0[t].testimony is Some
    &&& o.0[t] == with_testimony(b[t], o.0[t].testimony.unwrap())
    &&& forall|s: int|
        0 <= s < b.len() && s != t ==> (#[trigger] o.0[s] == b[s] || (o.0[s] == killed(b[s]) && o.1.contains(
            VillagerIndex(s as usize),
        )))
}

proof fn lemma_judge_keeps_board(b: Seq<TheoreticalVillager>, t: int, k: int)
    requires
        0 <= t < b.len(),
        k <= b.len(),
    ensures
        forall|i: int| 0 <= i < judge_outcomes(b, t, k).len() ==> outcome_keeps_board(b, t, #[trigger] judge_outcomes(b, t, k)[i]),
    decreases k,
{
    if k > 0 {
        lemma_judge_keeps_board(b, t, k - 1);
        let prev = judge_outcomes(b, t, k - 1);
        let all = judge_outcomes(b, t, k);
        assert forall|i: int| 0 <= i < all.len() implies outcome_keeps_board(b, t, #[trigger] all[i]) by {
            if i < prev.len() {
                assert(all[i] == prev[i]);
            }
        }
    }
}

proof fn lemma_slayer_keeps_board(b: Seq<TheoreticalVillager>, t: int, k: int)
    requires
        0 <= t < b.len(),
        k <= b.len(),
    ensures
        forall|i: int| 0 <= i < slayer_outcomes(b, t, k).len() ==> outcome_keeps_board(b, t, #[trigger] slayer_outcomes(b, t, k)[i]),
    decreases k,
{
    if k > 0 {
        lemma_slayer_keeps_board(b, t, k - 1);
        let prev = slayer_outcomes(b, t, k - 1);
        let all = slayer_outcomes(b, t, k);
        assert forall|i: int| 0 <= i < all.len() implies outcome_keeps_board(b, t, #[trigger] all[i]) by {
            if i < prev.len() {
                assert(all[i] == prev[i]);
            } else {
                assert(seat(k - 1)[0] == VillagerIndex((k - 1) as usize));
                assert(seat(k - 1).contains(VillagerIndex((k - 1) as usize)));
            }
        }
    }
}

proof fn lemma_plague_doctor_evil_keeps_board(b: Seq<TheoreticalVillager>, t: int, target: int, k: int)
    requires
        0 <= t < b.len(),
        0 <= target < b.len(),
        target != t,
        k <= b.len(),
    ensures
        forall|i: int| 0 <= i < plague_doctor_evil_outcomes(b, t, target, k).len() ==> outcome_keeps_board(
            b,
            t,
            #[trigger] plague_doctor_evil_outcomes(b, t, target, k)[i],
        ),
    decreases k,
{
    if k > 0 {
        lemma_plague_doctor_evil_keeps_board(b, t, target, k - 1);
        let prev = plague_doctor_evil_outcomes(b, t, target, k - 1);
        let all = plague_doctor_evil_outcomes(b, t, target, k);
        assert forall|i: int| 0 <= i < all.len() implies outcome_keeps_board(b, t, #[trigger] all[i]) by {
            if i < prev.len() {
                assert(all[i] == prev[i]);
            }
        }
    }
}

proof fn lemma_plague_doctor_keeps_board(b: Seq<TheoreticalVillager>, t: int, k: int)
    requires
        0 <= t < b.len(),
        k <= b.len(),
    ensures
        forall|i: int| 0 <= i < plague_doctor_outcomes(b, t, k).len() ==> outcome_keeps_board(b, t, #[trigger] plague_doctor_outcomes(b, t, k)[i]),
    decreases k,
{
    if k > 0 {
        lemma_plague_doctor_keeps_board(b, t, k - 1);
        let prev = plague_doctor_outcomes(b, t, k - 1);
        let all = plague_doctor_outcomes(b, t, k);
        let target = k - 1;
        if target != t && says_corrupt(b, t, target) {
            let more = plague_doctor_evil_outcomes(b, t, target, b.len() as int);
            lemma_plague_doctor_evil_keeps_board(b, t, target, b.len() as int);
            assert(all == prev + more);
            assert forall|i: int| 0 <= i < all.len() implies outcome_keeps_board(b, t, #[trigger] all[i]) by {
                if i < prev.len() {
                    assert(all[i] == prev[i]);
                } else {
                    assert(all[i] == more[i - prev.len()]);
                }
            }
        } else {
            assert forall|i: int| 0 <= i < all.len() implies outcome_keeps_board(b, t, #[trigger] all[i]) by {
                if i < prev.len() {
                    assert(all[i] == prev[i]);
                }
            }
        }
    }
}

proof fn lemma_append_keeps(b: Seq<TheoreticalVillager>, t: int, x: Seq<OutcomeModel>, y: Seq<OutcomeModel>)
    requires
        forall|i: int| 0 <= i < x.len() ==> outcome_keeps_board(b, t, #[trigger] x[i]),
        forall|i: int| 0 <= i < y.len() ==> outcome_keeps_board(b, t, #[trigger] y[i]),
    ensures
        forall|i: int| 0 <= i < (x + y).len() ==> outcome_keeps_board(b, t, #[trigger] (x + y)[i]),
{
    assert forall|i: int| 0 <= i < (x + y).len() implies outcome_keeps_board(b, t, #[trigger] (x + y)[i]) by {
        if i < x.len() {
            assert((x + y)[i] == x[i]);
        } else {
            assert((x + y)[i] == y[i - x.len()]);
        }
    }
}

proof fn lemma_fortune_teller_row_keeps(b: Seq<TheoreticalVillager>, t: int, i: int, k: int)
    requires
        0 <= t < b.len(),
        0 <= i,
        k <= b.len(),
    ensures
        forall|m: int| 0 <= m < fortune_teller_row(b, t, i, k).len() ==> outcome_keeps_board(
            b,
            t,
            #[trigger] fortune_teller_row(b, t, i, k)[m],
        ),
    decreases k - i,
{
    if k > i + 1 {
        lemma_fortune_teller_row_keeps(b, t, i, k - 1);
        let pair = seq![fortune_teller_outcome(b, t, i, k - 1, false), fortune_teller_outcome(b, t, i, k - 1, true)];
        assert forall|m: int| 0 <= m < pair.len() implies outcome_keeps_board(b, t, #[trigger] pair[m]) by {}
        lemma_append_keeps(b, t, fortune_teller_row(b, t, i, k - 1), pair);
    }
}

proof fn lemma_fortune_teller_keeps_board(b: Seq<TheoreticalVillager>, t: int, k: int)
    requires
        0 <= t < b.len(),
        k <= b.len(),
    ensures
        forall|m: int| 0 <= m < fortune_teller_outcomes(b, t, k).len() ==> outcome_keeps_board(
            b,
            t,
            #[trigger] fortune_teller_outcomes(b, t, k)[m],
        ),
    decreases k,
{
    if k > 0 {
        lemma_fortune_teller_keeps_board(b, t, k - 1);
        lemma_fortune_teller_row_keeps(b, t, k - 1, b.len() as int);
        lemma_append_keeps(b, t, fortune_teller_outcomes(b, t, k - 1), fortune_teller_row(b, t, k - 1, b.len() as int));
    }
}

proof fn lemma_jester_third_keeps(b: Seq<TheoreticalVillager>, t: int, i: int, j: int, k: int)
    requires
        0 <= t < b.len(),
        0 <= i < j,
        k <= b.len(),
    ensures
        forall|m: int| 0 <= m < jester_third(b, t, i, j, k).len() ==> outcome_keeps_board(
            b,
            t,
            #[trigger] jester_third(b, t, i, j, k)[m],
        ),
    decreases k - j,
{
    if k > j + 1 {
        lemma_jester_third_keeps(b, t, i, j, k - 1);
        let four = seq![
            jester_outcome(b, t, i, j, k - 1, 0),
            jester_outcome(b, t, i, j, k - 1, 1),
            jester_outcome(b, t, i, j, k - 1, 2),
            jester_outcome(b, t, i, j, k - 1, 3),
        ];
        assert forall|m: int| 0 <= m < four.len() implies outcome_keeps_board(b, t, #[trigger] four[m]) by {}
        lemma_append_keeps(b, t, jester_third(b, t, i, j, k - 1), four);
    }
}

proof fn lemma_jester_second_keeps(b: Seq<TheoreticalVillager>, t: int, i: int, k: int)
    requires
        0 <= t < b.len(),
        0 <= i,
        k <= b.len(),
    ensures
        forall|m: int| 0 <= m < jester_second(b, t, i, k).len() ==> outcome_keeps_board(
            b,
            t,
            #[trigger] jester_second(b, t, i, k)[m],
        ),
    decreases k - i,
{
    if k > i + 1 {
        lemma_jester_second_keeps(b, t, i, k - 1);
        lemma_jester_third_keeps(b, t, i, k - 1, b.len() as int);
        lemma_append_keeps(b, t, jester_second(b, t, i, k - 1), jester_third(b, t, i, k - 1, b.len() as int));
    }
}

proof fn lemma_jester_keeps_board(b: Seq<TheoreticalVillager>, t: int, k: int)
    requires
        0 <= t < b.len(),
        k <= b.len(),
    ensures
        forall|m: int| 0 <= m < jester_outcomes(b, t, k).len() ==> outcome_keeps_board(
            b,
            t,
            #[trigger] jester_outcomes(b, t, k)[m],
        ),
    decreases k,
{
    if k > 0 {
        lemma_jester_keeps_board(b, t, k - 1);
        lemma_jester_second_keeps(b, t, k - 1, b.len() as int);
        lemma_append_keeps(b, t, jester_outcomes(b, t, k - 1), jester_second(b, t, k - 1, b.len() as int));
    }
}

/// Every outcome of the ability of the villager at `t` changes the board only by
/// giving that villager a testimony and, at most, killing the villager it
/// targets; the claims it reports are all made by that villager.
pub proof fn lemma_outcomes_keep_board(b: Seq<TheoreticalVillager>, t: int)
    requires
        0 <= t < b.len(),
        generates_outcomes(b[t].archetype),
    ensures
        forall|i: int|
            0 <= i < theoretical_outcomes(b, t).len() ==> outcome_keeps_board(
                b,
                t,
                #[trigger] theoretical_outcomes(b, t)[i],
            ),
{
    let n = b.len() as int;
    match b[t].archetype {
        Role::Judge => lemma_judge_keeps_board(b, t, n),
        Role::Slayer => lemma_slayer_keeps_board(b, t, n),
        Role::FortuneTeller => lemma_fortune_teller_keeps_board(b, t, n),
        Role::Jester => lemma_jester_keeps_board(b, t, n),
        _ => lemma_plague_doctor_keeps_board(b, t, n),
    }
}

/// Outcome `r` of an ability used from seat `t` is the one that `m` describes.
pub open spec fn outcome_matches(r: TheoreticalOutcome, m: OutcomeModel, t: int) -> bool {
    &&& r.0.villagers@ == m.0
    &&& r.1.spec_source() == VillagerIndex(t as usize)
    &&& r.1.spec_targets() == m.1
    &&& r.2@ == m.2
}

/// `result` lists, in order, the outcomes of `model` for an ability used from seat `t`.
pub open spec fn outcomes_match(result: Seq<TheoreticalOutcome>, model: Seq<OutcomeModel>, t: int) -> bool {
    &&& result.len() == model.len()
    &&& forall|i: int| 0 <= i < result.len() ==> #[trigger] outcome_matches(result[i], model[i], t)
}

proof fn lemma_outcomes_push(
    result: Seq<TheoreticalOutcome>,
    model: Seq<OutcomeModel>,
    t: int,
    r: TheoreticalOutcome,
    m: OutcomeModel,
)
    requires
        outcomes_match(result, model, t),
        outcome_matches(r, m, t),
    ensures
        outcomes_match(result.push(r), model.push(m), t),
{
    assert forall|i: int| 0 <= i < result.len() + 1 implies #[trigger] outcome_matches(
        result.push(r)[i],
        model.push(m)[i],
        t,
    ) by {
        if i < result.len() {
            assert(result.push(r)[i] == result[i]);
            assert(model.push(m)[i] == model[i]);
        }
    }
}

fn clone_villagers(b: &Vec<TheoreticalVillager>) -> (result: Vec<TheoreticalVillager>)
    ensures
        result@ == b@,
{
    let mut out: Vec<TheoreticalVillager> = Vec::new();
    let mut i: usize = 0;
    while i < b.len()
        invariant
            i <= b@.len(),
            out@ == b@.subrange(0, i as int),
        decreases b@.len() - i,
    {
        out.push(b[i].clone());
        i = i + 1;
    }
    assert(b@.subrange(0, b@.len() as int) =~= b@);
    out
}

/// `villagers` with the villager at `t` given `e` as its full testimony.
fn set_testimony(villagers: &mut Vec<TheoreticalVillager>, t: usize, e: Expression<Testimony>)
    requires
        t < old(villagers)@.len(),
    ensures
        final(villagers)@ == old(villagers)@.update(t as int, with_testimony(old(villagers)@[t as int], e)),
{
    let mut v = villagers[t].clone();
    v.testimony = Some(e);
    villagers.set(t, v);
}

/// An ability use by `source` on the single seat `target`.
fn single_attempt(source: VillagerIndex, target: VillagerIndex) -> (result: AbilityAttempt)
    ensures
        result.spec_source() == source,
        result.spec_targets() == seq![target],
{
    let mut targets: Vec<VillagerIndex> = Vec::new();
    targets.push(target);
    let ghost tv = targets@;
    let attempt = AbilityAttempt::new(source, targets);
    proof {
        let s = attempt.spec_targets();
        assert(tv[0] == target);
        assert(tv.to_set().contains(target));
        assert(s.to_set().contains(target));
        assert forall|i: int| 0 <= i < s.len() implies s[i] == target by {
            assert(s.to_set().contains(s[i]));
            assert(tv.to_set().contains(s[i]));
            assert(tv.len() == 1);
            assert(tv[0] == s[i]);
        }
        let j = choose|j: int| 0 <= j < s.len() && s[j] == target;
        if s.len() > 1 {
            assert(strictly_increasing(s));
            assert(s[0].0 < s[1].0);
        }
        assert(s =~= seq![target]);
    }
    attempt
}

/// The outcomes of a judge at seat `t`.
fn judge_theoreticals(board: &BoardLayout, t: VillagerIndex) -> (result: Vec<TheoreticalOutcome>)
    requires
        t.0 < board.villagers@.len(),
    ensures
        outcomes_match(result@, judge_outcomes(board.villagers@, t.0 as int, board.villagers@.len() as int), t.0 as int),
{
    let b = &board.villagers;
    let n = b.len();
    let ghost ti = t.0 as int;
    let mut out: Vec<TheoreticalOutcome> = Vec::new();
    let mut idx: usize = 0;
    while idx < n
        invariant
            idx <= n,
            n == b@.len(),
            t.0 < n,
            ti == t.0,
            b@ == board.villagers@,
            outcomes_match(out@, judge_outcomes(b@, ti, idx as int), ti),
        decreases n - idx,
    {
        let target = VillagerIndex(idx);
        let claim = Testimony::Lying(target);
        let mut said = clone_villagers(b);
        set_testimony(&mut said, t.0, Expression::Leaf(claim));
        let mut said_claims: Vec<IndexTestimony> = Vec::new();
        said_claims.push(IndexTestimony { index: t, testimony: claim });
        let said_attempt = single_attempt(t, target);
        let mut denied = clone_villagers(b);
        set_testimony(&mut denied, t.0, Expression::Not(Box::new(Expression::Leaf(claim))));
        let mut denied_claims: Vec<IndexTestimony> = Vec::new();
        denied_claims.push(IndexTestimony { index: t, testimony: claim });
        let denied_attempt = single_attempt(t, target);
        let ghost before = out@;
        let first = (BoardLayout { villagers: said }, said_attempt, said_claims);
        let second = (BoardLayout { villagers: denied }, denied_attempt, denied_claims);
        proof {
            let model = judge_outcomes(b@, ti, idx as int + 1);
            let prev = judge_outcomes(b@, ti, idx as int);
            let p = prev.len() as int;
            assert(model =~= prev + seq![model[p], model[p + 1]]);
            assert(outcome_matches(first, model[p], ti));
            assert(outcome_matches(second, model[p + 1], ti));
            lemma_outcomes_push(before, prev, ti, first, model[p]);
            lemma_outcomes_push(before.push(first), prev.push(model[p]), ti, second, model[p + 1]);
            assert(prev.push(model[p]).push(model[p + 1]) =~= model);
        }
        out.push(first);
        out.push(second);
        idx = idx + 1;
    }
    out
}

/// The outcomes of a slayer at seat `t`.
fn slayer_theoreticals(board: &BoardLayout, t: VillagerIndex) -> (result: Vec<TheoreticalOutcome>)
    requires
        t.0 < board.villagers@.len(),
    ensures
        outcomes_match(result@, slayer_outcomes(board.villagers@, t.0 as int, board.villagers@.len() as int), t.0 as int),
{
    let b = &board.villagers;
    let n = b.len();
    let ghost ti = t.0 as int;
    let mut out: Vec<TheoreticalOutcome> = Vec::new();
    let mut idx: usize = 0;
    while idx < n
        invariant
            idx <= n,
            n == b@.len(),
            t.0 < n,
            ti == t.0,
            b@ == board.villagers@,
            outcomes_match(out@, slayer_outcomes(b@, ti, idx as int), ti),
        decreases n - idx,
    {
        if idx == t.0 || b[idx].actually_dead {
            idx = idx + 1;
            continue;
        }
        let target = VillagerIndex(idx);
        let slayed = !b[t.0].will_lie && b[idx].appears_evil;
        let mut next = clone_villagers(b);
        if slayed {
            let mut victim = next[idx].clone();
            victim.actually_dead = true;
            next.set(idx, victim);
        }
        let claim = Testimony::Slayed { index: target, slayed };
        set_testimony(&mut next, t.0, Expression::Leaf(claim));
        let mut claims: Vec<IndexTestimony> = Vec::new();
        claims.push(IndexTestimony { index: t, testimony: claim });
        let attempt = single_attempt(t, target);
        let outcome = (BoardLayout { villagers: next }, attempt, claims);
        proof {
            let prev = slayer_outcomes(b@, ti, idx as int);
            let model = slayer_outcomes(b@, ti, idx as int + 1);
            assert(model == prev.push(model[prev.len() as int]));
            assert(outcome_matches(outcome, model[prev.len() as int], ti));
            lemma_outcomes_push(out@, prev, ti, outcome, model[prev.len() as int]);
        }
        out.push(outcome);
        idx = idx + 1;
    }
    out
}

/// The outcomes of a plague doctor at seat `t` that called `target` corrupt.
fn plague_doctor_evil_theoreticals(board: &BoardLayout, t: VillagerIndex, target: VillagerIndex) -> (result:
    Vec<TheoreticalOutcome>)
    requires
        t.0 < board.villagers@.len(),
        target.0 < board.villagers@.len(),
    ensures
        outcomes_match(
            result@,
            plague_doctor_evil_outcomes(board.villagers@, t.0 as int, target.0 as int, board.villagers@.len() as int),
            t.0 as int,
        ),
{
    let b = &board.villagers;
    let n = b.len();
    let ghost ti = t.0 as int;
    let ghost gi = target.0 as int;
    let liar = b[t.0].will_lie;
    let mut out: Vec<TheoreticalOutcome> = Vec::new();
    let mut idx: usize = 0;
    while idx < n
        invariant
            idx <= n,
            n == b@.len(),
            t.0 < n,
            target.0 < n,
            ti == t.0,
            gi == target.0,
            liar == b@[ti].will_lie,
            b@ == board.villagers@,
            outcomes_match(out@, plague_doctor_evil_outcomes(b@, ti, gi, idx as int), ti),
        decreases n - idx,
    {
        if idx == t.0 || idx == target.0 || liar == b[idx].appears_evil {
            idx = idx + 1;
            continue;
        }
        let corrupt = Testimony::Corrupt(target);
        let evil = Testimony::Evil(VillagerIndex(idx));
        let mut next = clone_villagers(b);
        set_testimony(
            &mut next,
            t.0,
            Expression::And(Box::new(Expression::Leaf(corrupt)), Box::new(Expression::Leaf(evil))),
        );
        let mut claims: Vec<IndexTestimony> = Vec::new();
        claims.push(IndexTestimony { index: t, testimony: corrupt });
        claims.push(IndexTestimony { index: t, testimony: evil });
        let attempt = single_attempt(t, target);
        let outcome = (BoardLayout { villagers: next }, attempt, claims);
        proof {
            let prev = plague_doctor_evil_outcomes(b@, ti, gi, idx as int);
            let model = plague_doctor_evil_outcomes(b@, ti, gi, idx as int + 1);
            assert(model == prev.push(model[prev.len() as int]));
            assert(outcome.2@ =~= model[prev.len() as int].2);
            assert(outcome_matches(outcome, model[prev.len() as int], ti));
            lemma_outcomes_push(out@, prev, ti, outcome, model[prev.len() as int]);
        }
        out.push(outcome);
        idx = idx + 1;
    }
    out
}

proof fn lemma_outcomes_append(
    r1: Seq<TheoreticalOutcome>,
    m1: Seq<OutcomeModel>,
    r2: Seq<TheoreticalOutcome>,
    m2: Seq<OutcomeModel>,
    t: int,
)
    requires
        outcomes_match(r1, m1, t),
        outcomes_match(r2, m2, t),
    ensures
        outcomes_match(r1 + r2, m1 + m2, t),
{
    assert forall|i: int| 0 <= i < r1.len() + r2.len() implies #[trigger] outcome_matches(
        (r1 + r2)[i],
        (m1 + m2)[i],
        t,
    ) by {
        if i < r1.len() {
            assert((r1 + r2)[i] == r1[i]);
            assert((m1 + m2)[i] == m1[i]);
        } else {
            assert((r1 + r2)[i] == r2[i - r1.len()]);
            assert((m1 + m2)[i] == m2[i - m1.len()]);
        }
    }
}

/// The outcomes of a plague doctor at seat `t`.
fn plague_doctor_theoreticals(board: &BoardLayout, t: VillagerIndex) -> (result: Vec<TheoreticalOutcome>)
    requires
        t.0 < board.villagers@.len(),
    ensures
        outcomes_match(
            result@,
            plague_doctor_outcomes(board.villagers@, t.0 as int, board.villagers@.len() as int),
            t.0 as int,
        ),
{
    let b = &board.villagers;
    let n = b.len();
    let ghost ti = t.0 as int;
    let mut out: Vec<TheoreticalOutcome> = Vec::new();
    let mut idx: usize = 0;
    while idx < n
        invariant
            idx <= n,
            n == b@.len(),
            t.0 < n,
            ti == t.0,
            b@ == board.villagers@,
            outcomes_match(out@, plague_doctor_outcomes(b@, ti, idx as int), ti),
        decreases n - idx,
    {
        if idx == t.0 {
            idx = idx + 1;
            continue;
        }
        let target = VillagerIndex(idx);
        let says_corrupt = b[t.0].will_lie != b[idx].corrupted;
        let ghost prev = plague_doctor_outcomes(b@, ti, idx as int);
        let ghost model = plague_doctor_outcomes(b@, ti, idx as int + 1);
        if !says_corrupt {
            let corrupt = Testimony::Corrupt(target);
            let mut next = clone_villagers(b);
            set_testimony(&mut next, t.0, Expression::Not(Box::new(Expression::Leaf(corrupt))));
            let mut claims: Vec<IndexTestimony> = Vec::new();
            claims.push(IndexTestimony { index: t, testimony: corrupt });
            let attempt = single_attempt(t, target);
            let outcome = (BoardLayout { villagers: next }, attempt, claims);
            proof {
                assert(model == prev.push(model[prev.len() as int]));
                assert(outcome_matches(outcome, model[prev.len() as int], ti));
                lemma_outcomes_push(out@, prev, ti, outcome, model[prev.len() as int]);
            }
            out.push(outcome);
        } else {
            let mut more = plague_doctor_evil_theoreticals(board, t, target);
            let ghost before = out@;
            let ghost added = more@;
            proof {
                lemma_outcomes_append(
                    before,
                    prev,
                    added,
                    plague_doctor_evil_outcomes(b@, ti, idx as int, n as int),
                    ti,
                );
                assert(model == prev + plague_doctor_evil_outcomes(b@, ti, idx as int, n as int));
            }
            out.append(&mut more);
            assert(out@ =~= before + added);
        }
        idx = idx + 1;
    }
    out
}

/// The boards that the ability of the villager at `testifier_index` could lead
/// to, each with the ability use and the claims the villager would make.
pub fn theoretical_testimonies(board_config: &BoardLayout, testifier_index: VillagerIndex) -> (result: Vec<
    TheoreticalOutcome,
>)
    requires
        testifier_index.0 < board_config.villagers@.len(),
        generates_outcomes(board_config.villagers@[testifier_index.0 as int].archetype),
    ensures
        outcomes_match(
            result@,
            theoretical_outcomes(board_config.villagers@, testifier_index.0 as int),
            testifier_index.0 as int,
        ),
{
    match board_config.villagers[testifier_index.0].archetype {
        Role::Judge => judge_theoreticals(board_config, testifier_index),
        Role::Slayer => slayer_theoreticals(board_config, testifier_index),
        Role::FortuneTeller => fortune_teller_theoreticals(board_config, testifier_index),
        Role::Jester => jester_theoreticals(board_config, testifier_index),
        _ => plague_doctor_theoreticals(board_config, testifier_index),
    }
}

/// A revealed villager that has not testified yet.
pub open spec fn awaits_testimony(v: TheoreticalVillager) -> bool {
    v.revealed && v.testimony is None
}

/// The lowest seat of a revealed villager without a testimony.
pub open spec fn first_awaiting(b: Seq<TheoreticalVillager>) -> Option<int> {
    if exists|i: int| 0 <= i < b.len() && awaits_testimony(#[trigger] b[i]) {
        Some(
            choose|i: int|
                0 <= i < b.len() && awaits_testimony(#[trigger] b[i]) && forall|j: int|
                    0 <= j < i ==> !awaits_testimony(#[trigger] b[j]),
        )
    } else {
        None
    }
}

/// What generating the outcomes of the first villager awaiting a testimony needs:
/// its shown role has outcomes here, there is a satisfying assignment to extend,
/// and the extended lists fit in memory.
pub open spec fn generation_well_defined(
    original: LayoutWithTestimonyAssigments<BoardLayout, IndexTestimony>,
) -> bool {
    let b = original.layout.villagers@;
    match first_awaiting(b) {
        Some(t) => {
            &&& generates_outcomes(b[t].archetype)
            &&& original.satisfying_assignments@.len() > 0
            &&& forall|i: int|
                0 <= i < theoretical_outcomes(b, t).len() ==> (#[trigger] expand_all(
                    assignment_maps(original.satisfying_assignments@),
                    theoretical_outcomes(b, t)[i].2,
                )).len() <= usize::MAX
        },
        None => true,
    }
}

/// For the first revealed villager without a testimony, each ability use and
/// the board it could lead to, with the satisfying assignments extended by the
/// claims it would produce (none when every revealed villager has testified).
pub fn generate_theoreticals_for_first_villager_with_ability(
    original_layout_with_testimonies: &LayoutWithTestimonyAssigments<BoardLayout, IndexTestimony>,
) -> (result: Vec<(AbilityAttempt, LayoutWithTestimonyAssigments<BoardLayout, IndexTestimony>)>)
    requires
        generation_well_defined(*original_layout_with_testimonies),
    ensures
        match first_awaiting(original_layout_with_testimonies.layout.villagers@) {
            None => result@.len() == 0,
            Some(t) => {
                let b = original_layout_with_testimonies.layout.villagers@;
                let model = theoretical_outcomes(b, t);
                &&& result@.len() == model.len()
                &&& forall|i: int|
                    0 <= i < result@.len() ==> {
                        &&& (#[trigger] result@[i]).0.spec_source() == VillagerIndex(t as usize)
                        &&& result@[i].0.spec_targets() == model[i].1
                        &&& result@[i].1.layout.villagers@ == model[i].0
                        &&& assignment_maps(result@[i].1.satisfying_assignments@) == expand_all(
                            assignment_maps(original_layout_with_testimonies.satisfying_assignments@),
                            model[i].2,
                        )
                    }
            },
        },
{
    let original = original_layout_with_testimonies;
    let b = &original.layout.villagers;
    let n = b.len();
    let mut index: usize = 0;
    while index < n
        invariant
            index <= n,
            n == b@.len(),
            forall|j: int| 0 <= j < index ==> !awaits_testimony(#[trigger] b@[j]),
        ensures
            index <= n,
            index < n ==> awaits_testimony(b@[index as int]),
            forall|j: int| 0 <= j < index ==> !awaits_testimony(#[trigger] b@[j]),
        decreases n - index,
    {
        if b[index].revealed && b[index].testimony.is_none() {
            break;
        }
        index = index + 1;
    }
    let mut result: Vec<(AbilityAttempt, LayoutWithTestimonyAssigments<BoardLayout, IndexTestimony>)> =
        Vec::new();
    if index == n {
        assert(first_awaiting(b@) is None);
        return result;
    }
    let ghost t = index as int;
    proof {
        assert(awaits_testimony(b@[t]));
        let c = choose|i: int|
            0 <= i < b@.len() && awaits_testimony(#[trigger] b@[i]) && forall|j: int|
                0 <= j < i ==> !awaits_testimony(#[trigger] b@[j]);
        assert(c == t) by {
            if c < t {
                assert(!awaits_testimony(b@[c]));
            }
            if c > t {
                assert(!awaits_testimony(b@[t]));
            }
        }
        assert(first_awaiting(b@) == Some(t));
        crate::testimony::lemma_testimony_eq();
        crate::validation::lemma_testimony_clone_exact();
    }
    let outcomes = theoretical_testimonies(&original.layout, VillagerIndex(index));
    let ghost model = theoretical_outcomes(b@, t);
    let mut i: usize = 0;
    while i < outcomes.len()
        invariant
            i <= outcomes@.len(),
            outcomes_match(outcomes@, model, t),
            generation_well_defined(*original),
            first_awaiting(b@) == Some(t),
            model == theoretical_outcomes(b@, t),
            b@ == original.layout.villagers@,
            vstd::laws_eq::obeys_concrete_eq::<IndexTestimony>(),
            clone_is_exact::<IndexTestimony>(),
            result@.len() == i,
            forall|k: int|
                0 <= k < i ==> {
                    &&& (#[trigger] result@[k]).0.spec_source() == VillagerIndex(t as usize)
                    &&& result@[k].0.spec_targets() == model[k].1
                    &&& result@[k].1.layout.villagers@ == model[k].0
                    &&& assignment_maps(result@[k].1.satisfying_assignments@) == expand_all(
                        assignment_maps(original.satisfying_assignments@),
                        model[k].2,
                    )
                },
        decreases outcomes@.len() - i,
    {
        assert(outcome_matches(outcomes@[i as int], model[i as int], t));
        let outcome = &outcomes[i];
        let potential_assignments = expand_assignments(&original.satisfying_assignments, &outcome.2);
        let layout = BoardLayout { villagers: clone_villagers(&outcome.0.villagers) };
        let attempt = outcome.1.clone();
        result.push((attempt, LayoutWithTestimonyAssigments { layout, satisfying_assignments: potential_assignments }));
        i = i + 1;
    }
    result
}

/// The truth values that map `m` gives to `variables` agree with board `b`.
#[verifier::opaque]
pub open spec fn map_consistent(
    b: Seq<TheoreticalVillager>,
    variables: Seq<IndexTestimony>,
    m: Map<IndexTestimony, bool>,
    wretch_in_play: bool,
    drunk_in_play: bool,
    knight_in_play: bool,
    bombardier_in_play: bool,
) -> bool {
    assignment_consistent_upto(
        b,
        variables,
        values_for(variables, m),
        variables.len() as int,
        wretch_in_play,
        drunk_in_play,
        knight_in_play,
        bombardier_in_play,
    )
}

/// The maps of `maps` that agree with board `b`, in order.
pub open spec fn consistent_maps(
    b: Seq<TheoreticalVillager>,
    variables: Seq<IndexTestimony>,
    maps: Seq<Map<IndexTestimony, bool>>,
    wretch_in_play: bool,
    drunk_in_play: bool,
    knight_in_play: bool,
    bombardier_in_play: bool,
) -> Seq<Map<IndexTestimony, bool>>
    decreases maps.len(),
{
    if maps.len() == 0 {
        Seq::empty()
    } else {
        let rest = consistent_maps(
            b,
            variables,
            maps.drop_last(),
            wretch_in_play,
            drunk_in_play,
            knight_in_play,
            bombardier_in_play,
        );
        if map_consistent(
            b,
            variables,
            maps.last(),
            wretch_in_play,
            drunk_in_play,
            knight_in_play,
            bombardier_in_play,
        ) {
            rest.push(maps.last())
        } else {
            rest
        }
    }
}

proof fn lemma_consistent_maps_step(
    b: Seq<TheoreticalVillager>,
    variables: Seq<IndexTestimony>,
    maps: Seq<Map<IndexTestimony, bool>>,
    i: int,
    wretch_in_play: bool,
    drunk_in_play: bool,
    knight_in_play: bool,
    bombardier_in_play: bool,
)
    requires
        0 <= i < maps.len(),
    ensures
        consistent_maps(
            b,
            variables,
            maps.subrange(0, i + 1),
            wretch_in_play,
            drunk_in_play,
            knight_in_play,
            bombardier_in_play,
        ) == if map_consistent(
            b,
            variables,
            maps[i],
            wretch_in_play,
            drunk_in_play,
            knight_in_play,
            bombardier_in_play,
        ) {
            consistent_maps(
                b,
                variables,
                maps.subrange(0, i),
                wretch_in_play,
                drunk_in_play,
                knight_in_play,
                bombardier_in_play,
            ).push(maps[i])
        } else {
            consistent_maps(
                b,
                variables,
                maps.subrange(0, i),
                wretch_in_play,
                drunk_in_play,
                knight_in_play,
                bombardier_in_play,
            )
        },
{
    let sub = maps.subrange(0, i + 1);
    assert(sub.drop_last() =~= maps.subrange(0, i));
    assert(sub.last() == maps[i]);
}

/// Keeps the satisfying assignments of a candidate board that agree with the
/// board, checked on the variables of its compiled testimony expression; the
/// board is dropped (`None`) when none is left.
pub fn retain_consistent_assignments(
    new_layout: LayoutWithTestimonyAssigments<BoardLayout, IndexTestimony>,
    optimized_expression: &OptimizedExpression<IndexTestimony>,
    wretch_in_play: bool,
    drunk_in_play: bool,
    knight_in_play: bool,
    bombardier_in_play: bool,
) -> (result: Option<LayoutWithTestimonyAssigments<BoardLayout, IndexTestimony>>)
    requires
        forall|k: int|
            0 <= k < new_layout.satisfying_assignments@.len() ==> validation_well_defined(
                new_layout.layout.villagers@,
                optimized_expression.spec_variables(),
                values_for(
                    optimized_expression.spec_variables(),
                    (#[trigger] new_layout.satisfying_assignments@[k]).spec_map(),
                ),
                wretch_in_play,
                drunk_in_play,
                knight_in_play,
                bombardier_in_play,
            ),
    ensures
        ({
            let kept = consistent_maps(
                new_layout.layout.villagers@,
                optimized_expression.spec_variables(),
                assignment_maps(new_layout.satisfying_assignments@),
                wretch_in_play,
                drunk_in_play,
                knight_in_play,
                bombardier_in_play,
            );
            match result {
                Some(l) => kept.len() > 0 && l.layout.villagers@ == new_layout.layout.villagers@
                    && assignment_maps(l.satisfying_assignments@) == kept,
                None => kept.len() == 0,
            }
        }),
{
    proof {
        crate::validation::lemma_testimony_clone_exact();
    }
    let variables = optimized_expression.variables();
    let ghost b = new_layout.layout.villagers@;
    let ghost maps = assignment_maps(new_layout.satisfying_assignments@);
    let mut kept: Vec<Assignment<IndexTestimony>> = Vec::new();
    let mut i: usize = 0;
    while i < new_layout.satisfying_assignments.len()
        invariant
            i <= new_layout.satisfying_assignments@.len(),
            b == new_layout.layout.villagers@,
            maps == assignment_maps(new_layout.satisfying_assignments@),
            variables@ == optimized_expression.spec_variables(),
            clone_is_exact::<IndexTestimony>(),
            forall|k: int|
                0 <= k < new_layout.satisfying_assignments@.len() ==> validation_well_defined(
                    b,
                    variables@,
                    values_for(variables@, (#[trigger] new_layout.satisfying_assignments@[k]).spec_map()),
                    wretch_in_play,
                    drunk_in_play,
                    knight_in_play,
                    bombardier_in_play,
                ),
            assignment_maps(kept@) == consistent_maps(
                b,
                variables@,
                maps.subrange(0, i as int),
                wretch_in_play,
                drunk_in_play,
                knight_in_play,
                bombardier_in_play,
            ),
        decreases new_layout.satisfying_assignments@.len() - i,
    {
        let candidate = &new_layout.satisfying_assignments[i];
        let values = assignment_for_variables(variables, candidate);
        let ok = validate_assignment(
            &values,
            variables,
            &new_layout.layout,
            wretch_in_play,
            drunk_in_play,
            knight_in_play,
            bombardier_in_play,
        );
        let ghost before = kept@;
        proof {
            reveal(map_consistent);
            assert(maps[i as int] == candidate.spec_map());
            assert(ok == map_consistent(
                b,
                variables@,
                maps[i as int],
                wretch_in_play,
                drunk_in_play,
                knight_in_play,
                bombardier_in_play,
            ));
            lemma_consistent_maps_step(
                b,
                variables@,
                maps,
                i as int,
                wretch_in_play,
                drunk_in_play,
                knight_in_play,
                bombardier_in_play,
            );
        }
        if ok {
            kept.push(candidate.duplicate());
            assert(assignment_maps(kept@) =~= assignment_maps(before).push(candidate.spec_map()));
        }
        i = i + 1;
    }
    assert(maps.subrange(0, maps.len() as int) =~= maps);
    if kept.len() == 0 {
        None
    } else {
        Some(LayoutWithTestimonyAssigments { layout: new_layout.layout, satisfying_assignments: kept })
    }
}

/// An ability use by `source` on `targets`, given in increasing seat order.
fn sorted_attempt(source: VillagerIndex, targets: Vec<VillagerIndex>) -> (result: AbilityAttempt)
    requires
        strictly_increasing(targets@),
    ensures
        result.spec_source() == source,
        result.spec_targets() == targets@,
{
    let ghost tv = targets@;
    let attempt = AbilityAttempt::new(source, targets);
    proof {
        crate::player_action::lemma_increasing_unique(attempt.spec_targets(), tv);
    }
    attempt
}

fn fortune_teller_one(board: &BoardLayout, t: VillagerIndex, i: usize, j: usize, evil: bool) -> (result:
    TheoreticalOutcome)
    requires
        t.0 < board.villagers@.len(),
        i < j < board.villagers@.len(),
    ensures
        outcome_matches(result, fortune_teller_outcome(board.villagers@, t.0 as int, i as int, j as int, evil), t.0 as int),
{
    let claim = Testimony::FortuneTeller { first: VillagerIndex(i), second: VillagerIndex(j), evil };
    let mut next = clone_villagers(&board.villagers);
    set_testimony(&mut next, t.0, Expression::Leaf(claim));
    let mut claims: Vec<IndexTestimony> = Vec::new();
    claims.push(IndexTestimony { index: t, testimony: claim });
    let mut targets: Vec<VillagerIndex> = Vec::new();
    targets.push(VillagerIndex(i));
    targets.push(VillagerIndex(j));
    let attempt = sorted_attempt(t, targets);
    let result = (BoardLayout { villagers: next }, attempt, claims);
    assert(result.2@ =~= seq![claim_by(t.0 as int, claim)]);
    assert(result.1.spec_targets() =~= seq![VillagerIndex(i), VillagerIndex(j)]);
    result
}

/// The outcomes of a fortune teller at seat `t`.
fn fortune_teller_theoreticals(board: &BoardLayout, t: VillagerIndex) -> (result: Vec<TheoreticalOutcome>)
    requires
        t.0 < board.villagers@.len(),
    ensures
        outcomes_match(
            result@,
            fortune_teller_outcomes(board.villagers@, t.0 as int, board.villagers@.len() as int),
            t.0 as int,
        ),
{
    let n = board.villagers.len();
    let ghost b = board.villagers@;
    let ghost ti = t.0 as int;
    let mut out: Vec<TheoreticalOutcome> = Vec::new();
    let mut i: usize = 0;
    while i < n
        invariant
            i <= n,
            n == b.len(),
            b == board.villagers@,
            t.0 < n,
            ti == t.0,
            outcomes_match(out@, fortune_teller_outcomes(b, ti, i as int), ti),
        decreases n - i,
    {
        let mut row: Vec<TheoreticalOutcome> = Vec::new();
        let mut j: usize = i + 1;
        while j < n
            invariant
                i < j <= n,
                n == b.len(),
                b == board.villagers@,
                t.0 < n,
                ti == t.0,
                outcomes_match(row@, fortune_teller_row(b, ti, i as int, j as int), ti),
            decreases n - j,
        {
            let ghost prev = fortune_teller_row(b, ti, i as int, j as int);
            let ghost before = row@;
            let no = fortune_teller_one(board, t, i, j, false);
            let yes = fortune_teller_one(board, t, i, j, true);
            proof {
                let model = fortune_teller_row(b, ti, i as int, j + 1);
                assert(model =~= prev.push(fortune_teller_outcome(b, ti, i as int, j as int, false)).push(
                    fortune_teller_outcome(b, ti, i as int, j as int, true),
                ));
                lemma_outcomes_push(before, prev, ti, no, fortune_teller_outcome(b, ti, i as int, j as int, false));
                lemma_outcomes_push(
                    before.push(no),
                    prev.push(fortune_teller_outcome(b, ti, i as int, j as int, false)),
                    ti,
                    yes,
                    fortune_teller_outcome(b, ti, i as int, j as int, true),
                );
            }
            row.push(no);
            row.push(yes);
            j = j + 1;
        }
        let ghost before = out@;
        let ghost added = row@;
        proof {
            lemma_outcomes_append(
                before,
                fortune_teller_outcomes(b, ti, i as int),
                added,
                fortune_teller_row(b, ti, i as int, n as int),
                ti,
            );
        }
        out.append(&mut row);
        assert(out@ =~= before + added);
        i = i + 1;
    }
    out
}

fn evil_literal_exec(v: usize, evil: bool) -> (result: Expression<Testimony>)
    ensures
        result == evil_literal(v as int, evil),
{
    if evil {
        Expression::Leaf(Testimony::Evil(VillagerIndex(v)))
    } else {
        Expression::Not(Box::new(Expression::Leaf(Testimony::Evil(VillagerIndex(v)))))
    }
}

fn evil_pattern_exec(i: usize, j: usize, l: usize, ei: bool, ej: bool, el: bool) -> (result: Expression<Testimony>)
    ensures
        result == evil_pattern(i as int, j as int, l as int, ei, ej, el),
{
    Expression::And(
        Box::new(evil_literal_exec(i, ei)),
        Box::new(Expression::And(Box::new(evil_literal_exec(j, ej)), Box::new(evil_literal_exec(l, el)))),
    )
}

/// A jester's report on seats `i`, `j` and `l`: exactly `count` of them are evil.
pub fn jester_report(i: usize, j: usize, l: usize, count: usize) -> (result: Expression<Testimony>)
    requires
        count <= 3,
    ensures
        result == jester_expression(i as int, j as int, l as int, count as int),
{
    if count == 0 {
        evil_pattern_exec(i, j, l, false, false, false)
    } else if count == 1 {
        Expression::Or(
            Box::new(evil_pattern_exec(i, j, l, true, false, false)),
            Box::new(
                Expression::Or(
                    Box::new(evil_pattern_exec(i, j, l, false, true, false)),
                    Box::new(evil_pattern_exec(i, j, l, false, false, true)),
                ),
            ),
        )
    } else if count == 2 {
        Expression::Or(
            Box::new(evil_pattern_exec(i, j, l, true, true, false)),
            Box::new(
                Expression::Or(
                    Box::new(evil_pattern_exec(i, j, l, true, false, true)),
                    Box::new(evil_pattern_exec(i, j, l, false, true, true)),
                ),
            ),
        )
    } else {
        evil_pattern_exec(i, j, l, true, true, true)
    }
}

fn jester_one(board: &BoardLayout, t: VillagerIndex, i: usize, j: usize, l: usize, count: usize) -> (result:
    TheoreticalOutcome)
    requires
        t.0 < board.villagers@.len(),
        i < j < l < board.villagers@.len(),
        count <= 3,
    ensures
        outcome_matches(
            result,
            jester_outcome(board.villagers@, t.0 as int, i as int, j as int, l as int, count as int),
            t.0 as int,
        ),
{
    let mut next = clone_villagers(&board.villagers);
    set_testimony(&mut next, t.0, jester_report(i, j, l, count));
    let mut claims: Vec<IndexTestimony> = Vec::new();
    claims.push(IndexTestimony { index: t, testimony: Testimony::Evil(VillagerIndex(i)) });
    claims.push(IndexTestimony { index: t, testimony: Testimony::Evil(VillagerIndex(j)) });
    claims.push(IndexTestimony { index: t, testimony: Testimony::Evil(VillagerIndex(l)) });
    let mut targets: Vec<VillagerIndex> = Vec::new();
    targets.push(VillagerIndex(i));
    targets.push(VillagerIndex(j));
    targets.push(VillagerIndex(l));
    let attempt = sorted_attempt(t, targets);
    let result = (BoardLayout { villagers: next }, attempt, claims);
    assert(result.2@ =~= jester_outcome(board.villagers@, t.0 as int, i as int, j as int, l as int, count as int).2);
    assert(result.1.spec_targets() =~= seq![VillagerIndex(i), VillagerIndex(j), VillagerIndex(l)]);
    result
}

fn jester_third_theoreticals(board: &BoardLayout, t: VillagerIndex, i: usize, j: usize) -> (result: Vec<
    TheoreticalOutcome,
>)
    requires
        t.0 < board.villagers@.len(),
        i < j < board.villagers@.len(),
    ensures
        outcomes_match(
            result@,
            jester_third(board.villagers@, t.0 as int, i as int, j as int, board.villagers@.len() as int),
            t.0 as int,
        ),
{
    let n = board.villagers.len();
    let ghost b = board.villagers@;
    let ghost ti = t.0 as int;
    let mut out: Vec<TheoreticalOutcome> = Vec::new();
    let mut l: usize = j + 1;
    while l < n
        invariant
            i < j < l <= n,
            n == b.len(),
            b == board.villagers@,
            t.0 < n,
            ti == t.0,
            outcomes_match(out@, jester_third(b, ti, i as int, j as int, l as int), ti),
        decreases n - l,
    {
        let ghost prev = jester_third(b, ti, i as int, j as int, l as int);
        let mut count: usize = 0;
        while count < 4
            invariant
                i < j < l < n,
                n == b.len(),
                b == board.villagers@,
                t.0 < n,
                ti == t.0,
                count <= 4,
                prev == jester_third(b, ti, i as int, j as int, l as int),
                outcomes_match(
                    out@,
                    prev + Seq::new(count as nat, |c: int| jester_outcome(b, ti, i as int, j as int, l as int, c)),
                    ti,
                ),
            decreases 4 - count,
        {
            let ghost before = out@;
            let one = jester_one(board, t, i, j, l, count);
            proof {
                let m0 = prev + Seq::new(count as nat, |c: int| jester_outcome(b, ti, i as int, j as int, l as int, c));
                let m1 = prev + Seq::new((count + 1) as nat, |c: int| jester_outcome(b, ti, i as int, j as int, l as int, c));
                assert(m1 =~= m0.push(jester_outcome(b, ti, i as int, j as int, l as int, count as int)));
                lemma_outcomes_push(before, m0, ti, one, jester_outcome(b, ti, i as int, j as int, l as int, count as int));
            }
            out.push(one);
            count = count + 1;
        }
        proof {
            let model = jester_third(b, ti, i as int, j as int, l + 1);
            assert(model =~= prev + Seq::new(4, |c: int| jester_outcome(b, ti, i as int, j as int, l as int, c)));
        }
        l = l + 1;
    }
    out
}

/// The outcomes of a jester at seat `t`.
fn jester_theoreticals(board: &BoardLayout, t: VillagerIndex) -> (result: Vec<TheoreticalOutcome>)
    requires
        t.0 < board.villagers@.len(),
    ensures
        outcomes_match(
            result@,
            jester_outcomes(board.villagers@, t.0 as int, board.villagers@.len() as int),
            t.0 as int,
        ),
{
    let n = board.villagers.len();
    let ghost b = board.villagers@;
    let ghost ti = t.0 as int;
    let mut out: Vec<TheoreticalOutcome> = Vec::new();
    let mut i: usize = 0;
    while i < n
        invariant
            i <= n,
            n == b.len(),
            b == board.villagers@,
            t.0 < n,
            ti == t.0,
            outcomes_match(out@, jester_outcomes(b, ti, i as int), ti),
        decreases n - i,
    {
        let mut second: Vec<TheoreticalOutcome> = Vec::new();
        let mut j: usize = i + 1;
        while j < n
            invariant
                i < j <= n,
                n == b.len(),
                b == board.villagers@,
                t.0 < n,
                ti == t.0,
                outcomes_match(second@, jester_second(b, ti, i as int, j as int), ti),
            decreases n - j,
        {
            let ghost before = second@;
            let mut third = jester_third_theoreticals(board, t, i, j);
            let ghost added = third@;
            proof {
                lemma_outcomes_append(
                    before,
                    jester_second(b, ti, i as int, j as int),
                    added,
                    jester_third(b, ti, i as int, j as int, n as int),
                    ti,
                );
            }
            second.append(&mut third);
            assert(second@ =~= before + added);
            j = j + 1;
        }
        let ghost before = out@;
        let ghost added = second@;
        proof {
            lemma_outcomes_append(
                before,
                jester_outcomes(b, ti, i as int),
                added,
                jester_second(b, ti, i as int, n as int),
                ti,
            );
        }
        out.append(&mut second);
        assert(out@ =~= before + added);
        i = i + 1;
    }
    out
}

/// How many of seats `i`, `j` and `l` are evil when each claim `t` has the truth
/// value `env(t)`.
pub open spec fn evil_count(env: spec_fn(Testimony) -> bool, i: int, j: int, l: int) -> int {
    (if env(Testimony::Evil(VillagerIndex(i as usize))) { 1int } else { 0int }) + (if env(
        Testimony::Evil(VillagerIndex(j as usize)),
    ) {
        1int
    } else {
        0int
    }) + (if env(Testimony::Evil(VillagerIndex(l as usize))) { 1int } else { 0int })
}

/// A jester's report that `count` of three seats are evil holds exactly when that
/// many of them are evil.
pub proof fn lemma_jester_report_counts(env: spec_fn(Testimony) -> bool, i: int, j: int, l: int, count: int)
    requires
        0 <= count <= 3,
    ensures
        jester_expression(i, j, l, count).evaluate(env) <==> evil_count(env, i, j, l) == count,
{
    let ei = env(Testimony::Evil(VillagerIndex(i as usize)));
    let ej = env(Testimony::Evil(VillagerIndex(j as usize)));
    let el = env(Testimony::Evil(VillagerIndex(l as usize)));
    assert forall|a: bool, b: bool, c: bool| #[trigger] evil_pattern(i, j, l, a, b, c).evaluate(env) == (ei == a
        && ej == b && el == c) by {
        reveal_with_fuel(Expression::evaluate, 3);
        assert(evil_literal(i, a).evaluate(env) == (ei == a));
        assert(evil_literal(j, b).evaluate(env) == (ej == b));
        assert(evil_literal(l, c).evaluate(env) == (el == c));
    }
    let e = jester_expression(i, j, l, count);
    if count == 1 {
        assert(e.evaluate(env) == (evil_pattern(i, j, l, true, false, false).evaluate(env) || evil_pattern(
            i,
            j,
            l,
            false,
            true,
            false,
        ).evaluate(env) || evil_pattern(i, j, l, false, false, true).evaluate(env))) by {
            reveal_with_fuel(Expression::evaluate, 2);
        }
    } else if count == 2 {
        assert(e.evaluate(env) == (evil_pattern(i, j, l, true, true, false).evaluate(env) || evil_pattern(
            i,
            j,
            l,
            true,
            false,
            true,
        ).evaluate(env) || evil_pattern(i, j, l, false, true, true).evaluate(env))) by {
            reveal_with_fuel(Expression::evaluate, 2);
        }
    } else if count == 0 {
        assert(e.evaluate(env) == evil_pattern(i, j, l, false, false, false).evaluate(env));
    } else {
        assert(e.evaluate(env) == evil_pattern(i, j, l, true, true, true).evaluate(env));
    }
}

/// Every outcome of a slayer at `t` trying the living seats below `k`: one target
/// `x` (another living seat), the claim `Slayed { x, slayed }` by the slayer with
/// `slayed` exactly when the slayer does not lie and `x` reads as evil, `x` killed
/// exactly then, and every other seat but the slayer's unchanged.
proof fn lemma_slayer_outcomes_facts(b: Seq<TheoreticalVillager>, t: int, k: int)
    requires
        0 <= t < b.len(),
        b.len() <= usize::MAX,
        k <= b.len(),
    ensures
        forall|i: int|
            0 <= i < slayer_outcomes(b, t, k).len() ==> {
                let o = #[trigger] slayer_outcomes(b, t, k)[i];
                let x = o.1[0].0 as int;
                let slayed = !b[t].will_lie && b[x].appears_evil;
                &&& o.1.len() == 1
                &&& 0 <= x < k
                &&& x != t
                &&& !b[x].actually_dead
                &&& o.0.len() == b.len()
                &&& o.2 == seq![
                    IndexTestimony {
                        index: VillagerIndex(t as usize),
                        testimony: Testimony::Slayed { index: o.1[0], slayed },
                    },
                ]
                &&& o.0[t].testimony == Some(
                    Expression::Leaf(Testimony::Slayed { index: o.1[0], slayed }),
                )
                &&& o.0[x].actually_dead == slayed
                &&& !slayed ==> o.0[x] == b[x]
                &&& forall|s: int| 0 <= s < b.len() && s != t && s != x ==> o.0[s] == b[s]
            },
    decreases k,
{
    if k > 0 {
        lemma_slayer_outcomes_facts(b, t, k - 1);
        let rest = slayer_outcomes(b, t, k - 1);
        let all = slayer_outcomes(b, t, k);
        let idx = k - 1;
        if !(idx == t || b[idx].actually_dead) {
            assert forall|i: int| 0 <= i < all.len() implies #[trigger] all[i] == if i < rest.len() {
                rest[i]
            } else {
                all[rest.len() as int]
            } by {}
            let o = all[rest.len() as int];
            assert(o.1[0].0 as int == idx);
        }
    }
}

/// What a slayer's ability can lead to: each outcome targets one other living
/// villager `x`; the slayer's claim is `Slayed { x, slayed }` with `slayed`
/// exactly when the slayer does not lie and `x` reads as evil; `x` is killed
/// exactly then; no other villager changes but the slayer, who gains that claim.
/// In particular a lying slayer kills nobody and says it failed.
pub proof fn lemma_slayer_kills_only_when_honest(b: Seq<TheoreticalVillager>, t: int)
    requires
        0 <= t < b.len(),
        b.len() <= usize::MAX,
        b[t].archetype is Slayer,
    ensures
        forall|i: int|
            0 <= i < theoretical_outcomes(b, t).len() ==> {
                let o = #[trigger] theoretical_outcomes(b, t)[i];
                let x = o.1[0].0 as int;
                let slayed = !b[t].will_lie && b[x].appears_evil;
                &&& o.1.len() == 1
                &&& 0 <= x < b.len()
                &&& x != t
                &&& o.2 == seq![
                    IndexTestimony {
                        index: VillagerIndex(t as usize),
                        testimony: Testimony::Slayed { index: o.1[0], slayed },
                    },
                ]
                &&& o.0[x].actually_dead == slayed
                &&& forall|s: int| 0 <= s < b.len() && s != t && s != x ==> o.0[s] == b[s]
                &&& b[t].will_lie ==> !slayed && forall|s: int| 0 <= s < b.len() && s != t ==> o.0[s] == b[s]
            },
{
    lemma_slayer_outcomes_facts(b, t, b.len() as int);
}

/// Every outcome of a plague doctor at `t` naming `target` and one seat below
/// `k` as evil: the doctor claims `target` is corrupt, and its testimony is
/// that claim together with another.
proof fn lemma_plague_doctor_evil_facts(b: Seq<TheoreticalVillager>, t: int, target: int, k: int)
    requires
        0 <= t < b.len(),
        k <= b.len(),
    ensures
        forall|i: int|
            0 <= i < plague_doctor_evil_outcomes(b, t, target, k).len() ==> {
                let o = #[trigger] plague_doctor_evil_outcomes(b, t, target, k)[i];
                &&& o.1 == seq![VillagerIndex(target as usize)]
                &&& o.2.len() > 0
                &&& o.2[0] == IndexTestimony {
                    index: VillagerIndex(t as usize),
                    testimony: Testimony::Corrupt(VillagerIndex(target as usize)),
                }
                &&& o.0[t].testimony matches Some(Expression::And(lhs, _)) && *lhs == Expression::Leaf(
                    Testimony::Corrupt(VillagerIndex(target as usize)),
                )
            },
    decreases k,
{
    if k > 0 {
        lemma_plague_doctor_evil_facts(b, t, target, k - 1);
        let rest = plague_doctor_evil_outcomes(b, t, target, k - 1);
        let all = plague_doctor_evil_outcomes(b, t, target, k);
        assert forall|i: int| 0 <= i < all.len() implies #[trigger] all[i] == if i < rest.len() {
            rest[i]
        } else {
            all[rest.len() as int]
        } by {}
    }
}

proof fn lemma_plague_doctor_outcomes_facts(b: Seq<TheoreticalVillager>, t: int, k: int)
    requires
        0 <= t < b.len(),
        b.len() <= usize::MAX,
        k <= b.len(),
    ensures
        forall|i: int|
            0 <= i < plague_doctor_outcomes(b, t, k).len() ==> {
                let o = #[trigger] plague_doctor_outcomes(b, t, k)[i];
                let x = o.1[0].0 as int;
                &&& o.1.len() == 1
                &&& 0 <= x < k
                &&& x != t
                &&& o.2.len() > 0
                &&& o.2[0] == IndexTestimony {
                    index: VillagerIndex(t as usize),
                    testimony: Testimony::Corrupt(o.1[0]),
                }
                &&& o.0[t].testimony is Some
                &&& (o.0[t].testimony->Some_0 is Not <==> b[t].will_lie == b[x].corrupted)
            },
    decreases k,
{
    if k > 0 {
        lemma_plague_doctor_outcomes_facts(b, t, k - 1);
        let target = k - 1;
        let rest = plague_doctor_outcomes(b, t, k - 1);
        let all = plague_doctor_outcomes(b, t, k);
        if target == t {
        } else if !says_corrupt(b, t, target) {
            assert forall|i: int| 0 <= i < all.len() implies #[trigger] all[i] == if i < rest.len() {
                rest[i]
            } else {
                all[rest.len() as int]
            } by {}
        } else {
            let ev = plague_doctor_evil_outcomes(b, t, target, b.len() as int);
            lemma_plague_doctor_evil_facts(b, t, target, b.len() as int);
            assert forall|i: int| 0 <= i < all.len() implies #[trigger] all[i] == if i < rest.len() {
                rest[i]
            } else {
                ev[i - rest.len()]
            } by {}
            assert forall|i: int| rest.len() <= i < all.len() implies #[trigger] all[i].1[0].0 as int == target by {
                assert(ev[i - rest.len()].1 == seq![VillagerIndex(target as usize)]);
            }
        }
    }
}

/// What a plague doctor's ability can lead to: each outcome examines one other
/// villager `x`, the doctor's first claim is that `x` is corrupt, and the doctor
/// denies it (its testimony is the negation of that claim) exactly when its lying
/// and `x`'s corruption agree. So the report "corrupt" is `x`'s corruption
/// exclusive-or the doctor's lying: a lying doctor calls a clean villager corrupt
/// and a corrupt one clean.
pub proof fn lemma_plague_doctor_reports_corruption_xor_lying(b: Seq<TheoreticalVillager>, t: int)
    requires
        0 <= t < b.len(),
        b.len() <= usize::MAX,
        b[t].archetype is PlagueDoctor,
    ensures
        forall|i: int|
            0 <= i < theoretical_outcomes(b, t).len() ==> {
                let o = #[trigger] theoretical_outcomes(b, t)[i];
                let x = o.1[0].0 as int;
                &&& o.1.len() == 1
                &&& 0 <= x < b.len()
                &&& x != t
                &&& o.2[0] == IndexTestimony {
                    index: VillagerIndex(t as usize),
                    testimony: Testimony::Corrupt(o.1[0]),
                }
                &&& o.0[t].testimony is Some
                &&& (!(o.0[t].testimony->Some_0 is Not) <==> (b[x].corrupted != b[t].will_lie))
            },
{
    lemma_plague_doctor_outcomes_facts(b, t, b.len() as int);
}

proof fn lemma_judge_outcomes_facts(b: Seq<TheoreticalVillager>, t: int, k: int)
    requires
        0 <= t < b.len(),
        0 <= k <= b.len(),
        b.len() <= usize::MAX,
    ensures
        judge_outcomes(b, t, k).len() == 2 * k,
        forall|x: int|
            0 <= x < k ==> {
                let yes = #[trigger] judge_outcomes(b, t, k)[2 * x];
                let no = judge_outcomes(b, t, k)[2 * x + 1];
                let claim = Testimony::Lying(VillagerIndex(x as usize));
                &&& yes.1 == seq![VillagerIndex(x as usize)] && no.1 == seq![VillagerIndex(x as usize)]
                &&& yes.2 == seq![IndexTestimony { index: VillagerIndex(t as usize), testimony: claim }]
                &&& no.2 == yes.2
                &&& yes.0.len() == b.len() && no.0.len() == b.len()
                &&& yes.0[t].testimony == Some(Expression::Leaf(claim))
                &&& no.0[t].testimony == Some(Expression::Not(Box::new(Expression::Leaf(claim))))
                &&& forall|s: int| 0 <= s < b.len() && s != t ==> yes.0[s] == b[s] && no.0[s] == b[s]
            },
    decreases k,
{
    if k > 0 {
        lemma_judge_outcomes_facts(b, t, k - 1);
        let rest = judge_outcomes(b, t, k - 1);
        let all = judge_outcomes(b, t, k);
        assert forall|i: int| 0 <= i < rest.len() implies #[trigger] all[i] == rest[i] by {}
        assert forall|x: int| 0 <= x < k - 1 implies #[trigger] all[2 * x] == rest[2 * x] && all[2 * x + 1] == rest[2 * x + 1] by {}
    }
}

/// What a judge's ability can lead to: for every seat `x` in order, two
/// outcomes, in which the judge claims that `x` lies and, respectively, that `x`
/// does not lie, each targeting `x` and changing no other villager than the
/// judge.
pub proof fn lemma_judge_judges_every_seat_both_ways(b: Seq<TheoreticalVillager>, t: int)
    requires
        0 <= t < b.len(),
        b.len() <= usize::MAX,
        b[t].archetype is Judge,
    ensures
        theoretical_outcomes(b, t).len() == 2 * b.len(),
        forall|x: int|
            0 <= x < b.len() ==> {
                let yes = #[trigger] theoretical_outcomes(b, t)[2 * x];
                let no = theoretical_outcomes(b, t)[2 * x + 1];
                let claim = Testimony::Lying(VillagerIndex(x as usize));
                &&& yes.1 == seq![VillagerIndex(x as usize)] && no.1 == seq![VillagerIndex(x as usize)]
                &&& yes.2 == seq![IndexTestimony { index: VillagerIndex(t as usize), testimony: claim }]
                &&& no.2 == yes.2
                &&& yes.0[t].testimony == Some(Expression::Leaf(claim))
                &&& no.0[t].testimony == Some(Expression::Not(Box::new(Expression::Leaf(claim))))
                &&& forall|s: int| 0 <= s < b.len() && s != t ==> yes.0[s] == b[s] && no.0[s] == b[s]
            },
{
    lemma_judge_outcomes_facts(b, t, b.len() as int);
}

/// Some outcome of `s` has the claim that one of seats `i`, `j` is evil (`e`) or
/// that neither is.
pub open spec fn pair_claimed(s: Seq<OutcomeModel>, i: int, j: int, e: bool) -> bool {
    exists|m: int|
        0 <= m < s.len() && (#[trigger] s[m]).2[0].testimony == (Testimony::FortuneTeller {
            first: VillagerIndex(i as usize),
            second: VillagerIndex(j as usize),
            evil: e,
        })
}

/// A fortune teller outcome: it reads seats `o.1[0] < o.1[1]` below `n`, its one
/// claim (by the teller at `t`) names them, it is the teller's whole testimony,
/// and no other villager changes.
pub open spec fn reads_pair(b: Seq<TheoreticalVillager>, t: int, o: OutcomeModel) -> bool {
    &&& o.1.len() == 2
    &&& o.1[0].0 < o.1[1].0 < b.len()
    &&& o.2.len() == 1
    &&& o.2[0].index == VillagerIndex(t as usize)
    &&& o.2[0].testimony matches Testimony::FortuneTeller { first, second, .. } && first == o.1[0] && second == o.1[1]
    &&& o.0.len() == b.len()
    &&& o.0[t].testimony == Some(Expression::Leaf(o.2[0].testimony))
    &&& forall|s: int| 0 <= s < b.len() && s != t ==> o.0[s] == b[s]
}

proof fn lemma_fortune_teller_row_facts(b: Seq<TheoreticalVillager>, t: int, i: int, k: int)
    requires
        0 <= t < b.len(),
        0 <= i,
        k <= b.len(),
        b.len() <= usize::MAX,
    ensures
        forall|m: int| 0 <= m < fortune_teller_row(b, t, i, k).len() ==> reads_pair(b, t, #[trigger] fortune_teller_row(b, t, i, k)[m]),
        forall|j: int, e: bool|
            i < j < k ==> #[trigger] pair_claimed(fortune_teller_row(b, t, i, k), i, j, e),
    decreases k - i,
{
    if k > i + 1 {
        lemma_fortune_teller_row_facts(b, t, i, k - 1);
        let rest = fortune_teller_row(b, t, i, k - 1);
        let all = fortune_teller_row(b, t, i, k);
        assert forall|m: int| 0 <= m < all.len() implies reads_pair(b, t, #[trigger] all[m]) by {
            if m < rest.len() {
                assert(all[m] == rest[m]);
            }
        }
        assert forall|j: int, e: bool| i < j < k implies #[trigger] pair_claimed(all, i, j, e) by {
            if j < k - 1 {
                assert(pair_claimed(rest, i, j, e));
                let m = choose|m: int|
                    0 <= m < rest.len() && (#[trigger] rest[m]).2[0].testimony
                        == (Testimony::FortuneTeller { first: VillagerIndex(i as usize), second: VillagerIndex(j as usize), evil: e });
                assert(all[m] == rest[m]);
            } else if e {
                assert(all[rest.len() as int + 1] == fortune_teller_outcome(b, t, i, j, true));
            } else {
                assert(all[rest.len() as int] == fortune_teller_outcome(b, t, i, j, false));
            }
        }
    }
}

proof fn lemma_fortune_teller_outcomes_facts(b: Seq<TheoreticalVillager>, t: int, k: int)
    requires
        0 <= t < b.len(),
        k <= b.len(),
        b.len() <= usize::MAX,
    ensures
        forall|m: int| 0 <= m < fortune_teller_outcomes(b, t, k).len() ==> reads_pair(b, t, #[trigger] fortune_teller_outcomes(b, t, k)[m]),
        forall|i: int, j: int, e: bool|
            0 <= i < k && i < j < b.len() ==> #[trigger] pair_claimed(fortune_teller_outcomes(b, t, k), i, j, e),
    decreases k,
{
    if k > 0 {
        lemma_fortune_teller_outcomes_facts(b, t, k - 1);
        lemma_fortune_teller_row_facts(b, t, k - 1, b.len() as int);
        let rest = fortune_teller_outcomes(b, t, k - 1);
        let row = fortune_teller_row(b, t, k - 1, b.len() as int);
        let all = fortune_teller_outcomes(b, t, k);
        assert forall|m: int| 0 <= m < all.len() implies reads_pair(b, t, #[trigger] all[m]) by {
            if m < rest.len() {
                assert(all[m] == rest[m]);
            } else {
                assert(all[m] == row[m - rest.len()]);
            }
        }
        assert forall|i: int, j: int, e: bool| 0 <= i < k && i < j < b.len() implies #[trigger] pair_claimed(all, i, j, e) by {
            if i < k - 1 {
                assert(pair_claimed(rest, i, j, e));
                let m = choose|m: int|
                    0 <= m < rest.len() && (#[trigger] rest[m]).2[0].testimony
                        == (Testimony::FortuneTeller { first: VillagerIndex(i as usize), second: VillagerIndex(j as usize), evil: e });
                assert(all[m] == rest[m]);
            } else {
                assert(pair_claimed(row, i, j, e));
                let m = choose|m: int|
                    0 <= m < row.len() && (#[trigger] row[m]).2[0].testimony
                        == (Testimony::FortuneTeller { first: VillagerIndex(i as usize), second: VillagerIndex(j as usize), evil: e });
                assert(all[rest.len() as int + m] == row[m]);
            }
        }
    }
}

/// What a fortune teller's ability can lead to: every outcome reads two seats
/// `i < j`, claims (as the teller's whole testimony) that one of them is evil or
/// that neither is, and changes no other villager; and for every pair `i < j`
/// both claims occur.
pub proof fn lemma_fortune_teller_reads_every_pair_both_ways(b: Seq<TheoreticalVillager>, t: int)
    requires
        0 <= t < b.len(),
        b.len() <= usize::MAX,
        b[t].archetype is FortuneTeller,
    ensures
        forall|m: int| 0 <= m < theoretical_outcomes(b, t).len() ==> reads_pair(b, t, #[trigger] theoretical_outcomes(b, t)[m]),
        forall|i: int, j: int, e: bool|
            0 <= i < j < b.len() ==> #[trigger] pair_claimed(theoretical_outcomes(b, t), i, j, e),
{
    lemma_fortune_teller_outcomes_facts(b, t, b.len() as int);
}

} // verus!
