use crate::board_prediction::BoardPrediction;
use crate::player_action::{AbilityAttempt, PlayerAction};
use crate::prediction::{execute_most_common, kill_board_configs, kill_targets, EvilPlacement};
use crate::prediction_error::PredictionError;
use crate::reveal_strategy::{first_hidden, RevealStrategy};
use crate::theoretical::Assignment;
use crate::testimony::IndexTestimony;
use crate::villager::{first_revealable_index, is_revealable, GameState, VillagerIndex};
use vstd::prelude::*;

verus! {

/// How far one ability use would narrow the evils down, from a hypothetical
/// pass over the boards it could lead to.
pub struct AbilityScore {
    pub attempt: AbilityAttempt,
    /// Boards after the use that place the evils as the most common evil layout does.
    pub highest: usize,
    /// Boards after the use, in all.
    pub total: usize,
    /// Groups of evil layouts that the use's outcomes tell apart.
    pub groups: usize,
}

/// Use `a` narrows down more than use `b`: a higher share `highest / total`,
/// or the same share and more groups told apart.
pub open spec fn better(a: AbilityScore, b: AbilityScore) -> bool {
    a.highest * b.total > b.highest * a.total || (a.highest * b.total == b.highest * a.total && a.groups
        > b.groups)
}

/// Uses `a` and `b` narrow down alike.
pub open spec fn as_good(a: AbilityScore, b: AbilityScore) -> bool {
    a.highest * b.total == b.highest * a.total && a.groups == b.groups
}

/// After use `a` every board places the evils alike.
pub open spec fn settles(a: AbilityScore) -> bool {
    a.highest == a.total
}

/// Every score counts at least one board, and no more boards in its most common
/// layout than in all.
pub open spec fn scores_valid(s: Seq<AbilityScore>) -> bool {
    forall|i: int| 0 <= i < s.len() ==> 0 < (#[trigger] s[i]).total && s[i].highest <= s[i].total
}

/// `n` uses are weighed: up to and including the first that settles, else all.
pub open spec fn weighed_count(s: Seq<AbilityScore>, n: int) -> bool {
    ||| n == s.len() && forall|j: int| 0 <= j < s.len() ==> !settles(#[trigger] s[j])
    ||| 0 < n <= s.len() && settles(s[n - 1]) && forall|j: int| 0 <= j < n - 1 ==> !settles(#[trigger] s[j])
}

/// Of the first `n` uses, use `i` is beaten by none.
pub open spec fn is_best(s: Seq<AbilityScore>, n: int, i: int) -> bool {
    0 <= i < n && forall|j: int| 0 <= j < n ==> !better(#[trigger] s[j], s[i])
}

/// `idx` lists, in increasing order, the uses that no weighed use beats.
pub open spec fn best_uses(s: Seq<AbilityScore>, idx: Seq<int>) -> bool {
    exists|n: int|
        weighed_count(s, n) && (forall|p: int, q: int| 0 <= p < q < idx.len() ==> #[trigger] idx[p] < #[trigger] idx[q])
            && forall|i: int| #[trigger] idx.contains(i) <==> is_best(s, n, i)
}

proof fn lemma_cross_le(ah: int, at: int, bh: int, bt: int, ch: int, ct: int)
    requires
        at > 0,
        bt > 0,
        ct > 0,
        ah * bt <= bh * at,
        bh * ct <= ch * bt,
    ensures
        ah * ct <= ch * at,
        ah * bt < bh * at ==> ah * ct < ch * at,
        bh * ct < ch * bt ==> ah * ct < ch * at,
{
    assert(ah * bt * ct <= bh * at * ct) by (nonlinear_arith)
        requires
            ah * bt <= bh * at,
            ct > 0,
    ;
    assert(bh * ct * at <= ch * bt * at) by (nonlinear_arith)
        requires
            bh * ct <= ch * bt,
            at > 0,
    ;
    assert(ah * ct * bt <= ch * at * bt) by (nonlinear_arith)
        requires
            ah * bt * ct <= bh * at * ct,
            bh * ct * at <= ch * bt * at,
    ;
    assert(ah * ct <= ch * at) by (nonlinear_arith)
        requires
            ah * ct * bt <= ch * at * bt,
            bt > 0,
    ;
    if ah * bt < bh * at {
        assert(ah * bt * ct < bh * at * ct) by (nonlinear_arith)
            requires
                ah * bt < bh * at,
                ct > 0,
        ;
        assert(ah * ct * bt < ch * at * bt) by (nonlinear_arith)
            requires
                ah * bt * ct < bh * at * ct,
                bh * ct * at <= ch * bt * at,
        ;
        assert(ah * ct < ch * at) by (nonlinear_arith)
            requires
                ah * ct * bt < ch * at * bt,
                bt > 0,
        ;
    }
    if bh * ct < ch * bt {
        assert(bh * ct * at < ch * bt * at) by (nonlinear_arith)
            requires
                bh * ct < ch * bt,
                at > 0,
        ;
        assert(ah * ct * bt < ch * at * bt) by (nonlinear_arith)
            requires
                ah * bt * ct <= bh * at * ct,
                bh * ct * at < ch * bt * at,
        ;
        assert(ah * ct < ch * at) by (nonlinear_arith)
            requires
                ah * ct * bt < ch * at * bt,
                bt > 0,
        ;
    }
}

/// "No better than" is a total preorder on valid scores, and "as good as" is
/// its equivalence.
proof fn lemma_score_order(a: AbilityScore, b: AbilityScore, c: AbilityScore)
    requires
        a.total > 0,
        b.total > 0,
        c.total > 0,
    ensures
        !better(a, b) && !better(b, c) ==> !better(a, c),
        !(better(a, b) && better(b, a)),
        as_good(a, b) <==> !better(a, b) && !better(b, a),
{
    if !better(a, b) && !better(b, c) {
        lemma_cross_le(
            a.highest as int,
            a.total as int,
            b.highest as int,
            b.total as int,
            c.highest as int,
            c.total as int,
        );
    }
}

/// The uses, among the weighed ones, that no weighed use beats, in increasing
/// order: the uses are weighed in order until one settles the evils.
pub fn best_ability_uses(scores: &Vec<AbilityScore>) -> (result: Vec<usize>)
    requires
        scores_valid(scores@),
    ensures
        best_uses(scores@, result@.map_values(|i: usize| i as int)),
        scores@.len() > 0 ==> result@.len() > 0,
        forall|k: int| 0 <= k < result@.len() ==> (#[trigger] result@[k]) < scores@.len(),
{
    let ghost s = scores@;
    let mut best: Vec<usize> = Vec::new();
    let mut r: usize = 0;
    let mut i: usize = 0;
    while i < scores.len()
        invariant_except_break
            forall|j: int| 0 <= j < i ==> !settles(#[trigger] s[j]),
        invariant
            s == scores@,
            scores_valid(s),
            i <= s.len(),
            i > 0 ==> r < i,
            i > 0 ==> best@.len() > 0,
            forall|j: int| 0 <= j < i ==> !better(#[trigger] s[j], s[r as int]),
            forall|p: int, q: int| 0 <= p < q < best@.len() ==> #[trigger] best@[p] < #[trigger] best@[q],
            forall|k: int| 0 <= k < best@.len() ==> (#[trigger] best@[k]) < i,
            forall|j: int| 0 <= j < i ==> (as_good(#[trigger] s[j], s[r as int]) <==> best@.contains(j as usize)),
        ensures
            i <= s.len(),
            i > 0 ==> r < i,
            weighed_count(s, i as int),
            forall|j: int| 0 <= j < i ==> !better(#[trigger] s[j], s[r as int]),
            forall|p: int, q: int| 0 <= p < q < best@.len() ==> #[trigger] best@[p] < #[trigger] best@[q],
            forall|k: int| 0 <= k < best@.len() ==> (#[trigger] best@[k]) < i,
            forall|j: int| 0 <= j < i ==> (as_good(#[trigger] s[j], s[r as int]) <==> best@.contains(j as usize)),
            s.len() > 0 ==> best@.len() > 0,
        decreases s.len() - i,
    {
        let a = &scores[i];
        let pick = if i == 0 {
            2u8
        } else {
            let b = &scores[r];
            proof {
                assert((a.highest as int) * (b.total as int) <= u64::MAX as int * u64::MAX as int) by (nonlinear_arith)
                    requires
                        a.highest <= u64::MAX,
                        b.total <= u64::MAX,
                ;
                assert((b.highest as int) * (a.total as int) <= u64::MAX as int * u64::MAX as int) by (nonlinear_arith)
                    requires
                        b.highest <= u64::MAX,
                        a.total <= u64::MAX,
                ;
            }
            let left = (a.highest as u128) * (b.total as u128);
            let right = (b.highest as u128) * (a.total as u128);
            if left > right || (left == right && a.groups > b.groups) {
                2u8
            } else if left == right && a.groups == b.groups {
                1u8
            } else {
                0u8
            }
        };
        let ghost before = best@;
        proof {
            assert(s[i as int] == *a);
            if i > 0 {
                assert(pick == 2 <==> better(s[i as int], s[r as int]));
                assert(pick == 1 <==> as_good(s[i as int], s[r as int]));
            }
        }
        if pick == 2 {
            proof {
                if i > 0 {
                    lemma_score_order(s[r as int], s[i as int], s[r as int]);
                    assert forall|j: int| 0 <= j < i implies !better(#[trigger] s[j], s[i as int]) && !as_good(s[j], s[i as int]) by {
                        lemma_score_order(s[j], s[r as int], s[i as int]);
                        lemma_score_order(s[i as int], s[j], s[r as int]);
                        lemma_score_order(s[j], s[i as int], s[r as int]);
                    }
                }
            }
            best = Vec::new();
            best.push(i);
            r = i;
            proof {
                assert forall|j: int| 0 <= j < i + 1 implies (as_good(#[trigger] s[j], s[r as int]) <==> best@.contains(j as usize)) by {
                    if j < i {
                        if best@.contains(j as usize) {
                            assert(best@[0] == j as usize);
                        }
                    } else {
                        assert(best@[0] == i);
                    }
                }
            }
        } else if pick == 1 {
            best.push(i);
            proof {
                assert forall|j: int| 0 <= j < i + 1 implies !better(#[trigger] s[j], s[r as int]) by {
                    if j == i {
                        lemma_score_order(s[j], s[r as int], s[j]);
                    }
                }
                assert forall|j: int| 0 <= j < i + 1 implies (as_good(#[trigger] s[j], s[r as int]) <==> best@.contains(j as usize)) by {
                    if j < i {
                        if best@.contains(j as usize) {
                            let k = choose|k: int| 0 <= k < best@.len() && best@[k] == j as usize;
                            if k < before.len() {
                                assert(before[k] == j as usize);
                                assert(before.contains(j as usize));
                            }
                        }
                        if before.contains(j as usize) {
                            let k = choose|k: int| 0 <= k < before.len() && before[k] == j as usize;
                            assert(best@[k] == j as usize);
                        }
                    } else {
                        assert(best@[before.len() as int] == i);
                    }
                }
            }
        } else {
            proof {
                lemma_score_order(s[i as int], s[r as int], s[i as int]);
                assert forall|j: int| 0 <= j < i + 1 implies (as_good(#[trigger] s[j], s[r as int]) <==> best@.contains(j as usize)) by {
                    if j == i {
                        assert forall|k: int| 0 <= k < best@.len() implies best@[k] != i by {}
                    }
                }
            }
        }
        if a.highest == a.total {
            proof {
                assert(settles(s[i as int]));
            }
            i = i + 1;
            break;
        }
        i = i + 1;
    }
    proof {
        let n = i as int;
        let idx = best@.map_values(|v: usize| v as int);
        assert forall|x: int| #[trigger] idx.contains(x) <==> is_best(s, n, x) by {
            if idx.contains(x) {
                let k = choose|k: int| 0 <= k < idx.len() && idx[k] == x;
                assert(best@.contains(best@[k]));
                assert(0 <= x < n);
                assert(as_good(s[x], s[r as int]));
                assert forall|j: int| 0 <= j < n implies !better(#[trigger] s[j], s[x]) by {
                    lemma_score_order(s[j], s[r as int], s[x]);
                    lemma_score_order(s[r as int], s[x], s[r as int]);
                }
            }
            if is_best(s, n, x) {
                assert(!better(s[r as int], s[x]));
                lemma_score_order(s[x], s[r as int], s[x]);
                assert(best@.contains(x as usize));
                let k = choose|k: int| 0 <= k < best@.len() && best@[k] == x as usize;
                assert(idx[k] == x);
            }
        }
        assert forall|p: int, q: int| 0 <= p < q < idx.len() implies #[trigger] idx[p] < #[trigger] idx[q] by {
            assert(best@[p] < best@[q]);
        }
        assert(weighed_count(s, n));
    }
    best
}

/// The boards of the matching candidates, by their place in `placements`.
pub open spec fn matched_boards(
    placements: Seq<Vec<EvilPlacement>>,
    matching: Seq<(usize, Vec<Assignment<IndexTestimony>>)>,
) -> Seq<Vec<EvilPlacement>> {
    matching.map_values(|p: (usize, Vec<Assignment<IndexTestimony>>)| placements[p.0 as int])
}

proof fn lemma_kill_targets_by_view(a: Seq<Vec<EvilPlacement>>, b: Seq<Vec<EvilPlacement>>)
    requires
        a.len() == b.len(),
        forall|k: int| 0 <= k < a.len() ==> (#[trigger] a[k])@ == b[k]@,
    ensures
        kill_targets(a) == kill_targets(b),
    decreases a.len(),
{
    if a.len() > 0 {
        assert(a[0]@ == b[0]@);
        lemma_kill_targets_by_view(a.drop_first(), b.drop_first());
        assert forall|k: int| 0 <= k < a.drop_first().len() implies (#[trigger] a.drop_first()[k])@ == b.drop_first()[k]@ by {
            assert(a[k + 1]@ == b[k + 1]@);
        }
    }
}

fn copy_placements(v: &Vec<EvilPlacement>) -> (result: Vec<EvilPlacement>)
    ensures
        result@ == v@,
{
    let mut out: Vec<EvilPlacement> = Vec::new();
    let mut i: usize = 0;
    while i < v.len()
        invariant
            i <= v@.len(),
            out@ == v@.subrange(0, i as int),
        decreases v@.len() - i,
    {
        out.push(v[i]);
        assert(out@ =~= v@.subrange(0, i + 1));
        i = i + 1;
    }
    assert(out@ =~= v@);
    out
}

/// `actions` uses, in order, the abilities listed by `idx`.
pub open spec fn uses_abilities(actions: Seq<PlayerAction>, s: Seq<AbilityScore>, idx: Seq<int>) -> bool {
    &&& actions.len() == idx.len()
    &&& forall|k: int|
        0 <= k < actions.len() ==> ((#[trigger] actions[k]) matches PlayerAction::Ability(a) && a.spec_source()
            == s[idx[k]].attempt.spec_source() && a.spec_targets() == s[idx[k]].attempt.spec_targets())
}

/// Some hidden villager may be revealed.
pub open spec fn revealable_exists(state: GameState) -> bool {
    exists|i: int| 0 <= i < state.num_villagers() && is_revealable(#[trigger] state.villager_at(i))
}

/// Decides the next actions from what the board-configuration step concluded.
///
/// Known evils are executed: the given seats when there are any, else those of
/// the matching boards (`placements[k]` lists the evils of candidate `k`), an
/// evil whose role acts at night first and alone. When more information is
/// needed, a hidden villager is revealed while one may be; otherwise the ability
/// uses that narrow the evils down the most (`scores`, in the order the uses are
/// weighed) are taken. When no action results, the evaluation is inconclusive.
pub fn predict_step(
    state: &GameState,
    board: BoardPrediction,
    placements: &Vec<Vec<EvilPlacement>>,
    strategy: RevealStrategy,
    scores: &Vec<AbilityScore>,
) -> (result: Result<Vec<PlayerAction>, PredictionError>)
    requires
        board matches BoardPrediction::Prediction { matching, .. } ==> forall|m: int|
            0 <= m < matching@.len() ==> (#[trigger] matching@[m]).0 < placements@.len(),
        board is NeedMoreInfo && revealable_exists(*state) ==> strategy == RevealStrategy::Simple,
        scores_valid(scores@),
    ensures
        result matches Ok(actions) ==> actions@.len() > 0,
        board matches BoardPrediction::Prediction { most_common: Some((seats, _)), .. } ==> {
            &&& seats@.len() > 0 ==> result is Ok
            &&& seats@.len() == 0 ==> result == Err::<Vec<PlayerAction>, PredictionError>(PredictionError::ConclusiveNoAction)
            &&& result matches Ok(actions) ==> actions@.no_duplicates() && forall|a: PlayerAction| #[trigger]
                actions@.contains(a) <==> exists|x: VillagerIndex| seats@.contains(x) && a == PlayerAction::TryExecute(x)
        },
        board matches BoardPrediction::Prediction { matching, most_common: None } ==> {
            let targets = kill_targets(matched_boards(placements@, matching@));
            &&& targets.len() > 0 ==> result is Ok
            &&& targets.len() == 0 ==> result == Err::<Vec<PlayerAction>, PredictionError>(PredictionError::ConclusiveNoAction)
            &&& result matches Ok(actions) ==> actions@.no_duplicates() && forall|a: PlayerAction| #[trigger]
                actions@.contains(a) <==> exists|x: VillagerIndex| targets.contains(x) && a == PlayerAction::TryExecute(x)
        },
        board is NeedMoreInfo && revealable_exists(*state) ==> (result matches Ok(actions) && actions@ == seq![
            PlayerAction::TryReveal(VillagerIndex(first_hidden(*state) as usize)),
        ]),
        board is NeedMoreInfo && !revealable_exists(*state) ==> {
            &&& scores@.len() > 0 ==> result is Ok
            &&& scores@.len() == 0 ==> result == Err::<Vec<PlayerAction>, PredictionError>(PredictionError::ConclusiveNoAction)
            &&& result matches Ok(actions) ==> exists|idx: Seq<int>| best_uses(scores@, idx) && uses_abilities(actions@, scores@, idx)
        },
{
    match board {
        BoardPrediction::Prediction { matching, most_common } => {
            match most_common {
                Some((seats, _)) => {
                    if seats.len() == 0 {
                        return Err(PredictionError::ConclusiveNoAction);
                    }
                    Ok(execute_most_common(&seats))
                },
                None => {
                    let mut boards: Vec<Vec<EvilPlacement>> = Vec::new();
                    let mut m: usize = 0;
                    while m < matching.len()
                        invariant
                            m <= matching@.len(),
                            forall|q: int| 0 <= q < matching@.len() ==> (#[trigger] matching@[q]).0 < placements@.len(),
                            boards@.len() == m,
                            forall|q: int| 0 <= q < m ==> (#[trigger] boards@[q])@ == matched_boards(placements@, matching@)[q]@,
                        decreases matching@.len() - m,
                    {
                        boards.push(copy_placements(&placements[matching[m].0]));
                        m = m + 1;
                    }
                    proof {
                        lemma_kill_targets_by_view(boards@, matched_boards(placements@, matching@));
                    }
                    let kills = kill_board_configs(&boards);
                    if kills.len() == 0 {
                        return Err(PredictionError::ConclusiveNoAction);
                    }
                    Ok(kills)
                },
            }
        },
        BoardPrediction::NeedMoreInfo(_) => {
            let revealable = first_revealable_index(state);
            if revealable.is_some() {
                proof {
                    let x = revealable->Some_0;
                    assert(is_revealable(state.villager_at(x.0 as int)));
                    assert(crate::villager::is_hidden(state.villager_at(x.0 as int)));
                }
                return Ok(strategy.get_reveal(state));
            }
            let chosen = best_ability_uses(scores);
            if chosen.len() == 0 {
                return Err(PredictionError::ConclusiveNoAction);
            }
            proof {
                if scores@.len() == 0 {
                    let idx = chosen@.map_values(|i: usize| i as int);
                    let n = choose|n: int|
                        weighed_count(scores@, n) && (forall|p: int, q: int|
                            0 <= p < q < idx.len() ==> #[trigger] idx[p] < #[trigger] idx[q]) && forall|i: int|
                            #[trigger] idx.contains(i) <==> is_best(scores@, n, i);
                    assert(idx.contains(idx[0]));
                }
            }
            let mut actions: Vec<PlayerAction> = Vec::new();
            let mut k: usize = 0;
            while k < chosen.len()
                invariant
                    k <= chosen@.len(),
                    forall|q: int| 0 <= q < chosen@.len() ==> (#[trigger] chosen@[q]) < scores@.len(),
                    actions@.len() == k,
                    forall|q: int|
                        0 <= q < k ==> ((#[trigger] actions@[q]) matches PlayerAction::Ability(a) && a.spec_source()
                            == scores@[chosen@[q] as int].attempt.spec_source() && a.spec_targets()
                            == scores@[chosen@[q] as int].attempt.spec_targets()),
                decreases chosen@.len() - k,
            {
                let attempt = scores[chosen[k]].attempt.duplicate();
                actions.push(PlayerAction::Ability(attempt));
                k = k + 1;
            }
            proof {
                let idx = chosen@.map_values(|i: usize| i as int);
                assert(uses_abilities(actions@, scores@, idx));
                assert(best_uses(scores@, idx));
            }
            Ok(actions)
        },
    }
}

} // verus!
