use crate::ability_prediction::CandidateLayout;
use crate::optimized_expression::OptimizedExpression;
use crate::prediction::{
    hidden_in, in_every_layout, keep_where, knight_in, most_common_evil_indices, occurrences,
    prefer_hidden_or_knights, shared_evil_index,
};
use crate::prediction_error::PredictionError;
use crate::testimony::{role_is_evil, IndexTestimony};
use crate::theoretical::{assignment_maps, Assignment};
use crate::validation::{
    assignment_consistent_upto, assignment_for_variables, assignment_matches_layout, satisfying_assignment,
    validation_well_defined, values_for, zip_map, TheoreticalVillager,
};
use crate::villager::{can_get_more_information, is_active_knight, is_hidden, more_to_learn, GameState, VillagerIndex};
use vstd::prelude::*;

verus! {

/// The evil seats below `k` of board `b`, in increasing order: those whose true
/// role is evil.
pub open spec fn evil_seats_upto(b: Seq<TheoreticalVillager>, k: int) -> Seq<VillagerIndex>
    decreases k,
{
    if k <= 0 {
        Seq::empty()
    } else if role_is_evil(b[k - 1].identity) {
        evil_seats_upto(b, k - 1).push(VillagerIndex((k - 1) as usize))
    } else {
        evil_seats_upto(b, k - 1)
    }
}

/// The evil seats of board `b`, in increasing order.
pub open spec fn evil_seats(b: Seq<TheoreticalVillager>) -> Seq<VillagerIndex> {
    evil_seats_upto(b, b.len() as int)
}

proof fn lemma_evil_seats_bounded(b: Seq<TheoreticalVillager>, k: int)
    requires
        0 <= k <= b.len(),
        b.len() <= usize::MAX,
    ensures
        forall|m: int| 0 <= m < evil_seats_upto(b, k).len() ==> (#[trigger] evil_seats_upto(b, k)[m]).0 < k,
        evil_seats_upto(b, k).no_duplicates(),
    decreases k,
{
    if k > 0 {
        lemma_evil_seats_bounded(b, k - 1);
        let prev = evil_seats_upto(b, k - 1);
        if role_is_evil(b[k - 1].identity) {
            let cur = prev.push(VillagerIndex((k - 1) as usize));
            assert forall|p: int, q: int| 0 <= p < cur.len() && 0 <= q < cur.len() && p != q implies cur[p] != cur[q] by {
                if p < prev.len() && q < prev.len() {
                    assert(prev[p] != prev[q]);
                } else if p < prev.len() {
                    assert(prev[p].0 < k - 1);
                } else {
                    assert(prev[q].0 < k - 1);
                }
            }
        }
    }
}

/// The evil seats of a board, in increasing order.
pub fn evil_locations(villagers: &Vec<TheoreticalVillager>) -> (result: Vec<VillagerIndex>)
    ensures
        result@ == evil_seats(villagers@),
        result@.no_duplicates(),
        forall|m: int| 0 <= m < result@.len() ==> (#[trigger] result@[m]).0 < villagers@.len(),
{
    let mut out: Vec<VillagerIndex> = Vec::new();
    let mut k: usize = 0;
    while k < villagers.len()
        invariant
            k <= villagers@.len(),
            out@ == evil_seats_upto(villagers@, k as int),
        decreases villagers@.len() - k,
    {
        if villagers[k].identity.is_evil() {
            out.push(VillagerIndex(k));
        }
        k = k + 1;
    }
    proof {
        lemma_evil_seats_bounded(villagers@, villagers@.len() as int);
    }
    out
}

/// `s` without repetitions, each element at its first place.
pub open spec fn without_repeats(s: Seq<Seq<VillagerIndex>>) -> Seq<Seq<VillagerIndex>>
    decreases s.len(),
{
    if s.len() == 0 {
        Seq::empty()
    } else {
        let rest = without_repeats(s.drop_last());
        if rest.contains(s.last()) {
            rest
        } else {
            rest.push(s.last())
        }
    }
}

/// The lists of truth values tried on candidate `c` whose compiled testimony has
/// the variables `variables`: in the first pass each list of `tried`; in a
/// hypothetical pass the candidate's own assignments, read on the variables.
pub open spec fn tried_values(
    c: CandidateLayout,
    variables: Seq<IndexTestimony>,
    tried: Seq<Vec<bool>>,
    non_hypothetical_pass: bool,
) -> Seq<Seq<bool>> {
    if non_hypothetical_pass {
        tried.map_values(|v: Vec<bool>| v@)
    } else {
        c.satisfying_assignments@.map_values(|a: Assignment<IndexTestimony>| values_for(variables, a.spec_map()))
    }
}

/// Truth values `a` satisfy the compiled testimony `e` of board `b` and agree
/// with the board.
pub open spec fn agrees(
    e: OptimizedExpression<IndexTestimony>,
    b: Seq<TheoreticalVillager>,
    a: Seq<bool>,
    wretch_in_play: bool,
    drunk_in_play: bool,
    knight_in_play: bool,
    bombardier_in_play: bool,
) -> bool {
    e.spec_satisfies(a) && assignment_consistent_upto(
        b,
        e.spec_variables(),
        a,
        e.spec_variables().len() as int,
        wretch_in_play,
        drunk_in_play,
        knight_in_play,
        bombardier_in_play,
    )
}

/// The assignment recorded for the `m`-th tried list: the variables with those
/// values in the first pass, the candidate's own assignment otherwise.
pub open spec fn recorded_map(
    c: CandidateLayout,
    variables: Seq<IndexTestimony>,
    tried: Seq<Vec<bool>>,
    non_hypothetical_pass: bool,
    m: int,
) -> Map<IndexTestimony, bool> {
    if non_hypothetical_pass {
        zip_map(variables, tried[m]@)
    } else {
        c.satisfying_assignments@[m].spec_map()
    }
}

/// The assignments recorded for those of the first `m` tried lists that agree
/// with candidate `c`, in order.
pub open spec fn kept_maps(
    c: CandidateLayout,
    e: OptimizedExpression<IndexTestimony>,
    tried: Seq<Vec<bool>>,
    non_hypothetical_pass: bool,
    wretch_in_play: bool,
    drunk_in_play: bool,
    knight_in_play: bool,
    bombardier_in_play: bool,
    m: int,
) -> Seq<Map<IndexTestimony, bool>>
    decreases m,
{
    if m <= 0 {
        Seq::empty()
    } else {
        let rest = kept_maps(
            c,
            e,
            tried,
            non_hypothetical_pass,
            wretch_in_play,
            drunk_in_play,
            knight_in_play,
            bombardier_in_play,
            m - 1,
        );
        if agrees(
            e,
            c.layout.villagers@,
            tried_values(c, e.spec_variables(), tried, non_hypothetical_pass)[m - 1],
            wretch_in_play,
            drunk_in_play,
            knight_in_play,
            bombardier_in_play,
        ) {
            rest.push(recorded_map(c, e.spec_variables(), tried, non_hypothetical_pass, m - 1))
        } else {
            rest
        }
    }
}

/// All assignments of candidate `c` that agree with it.
pub open spec fn all_kept_maps(
    c: CandidateLayout,
    e: OptimizedExpression<IndexTestimony>,
    tried: Seq<Vec<bool>>,
    non_hypothetical_pass: bool,
    wretch_in_play: bool,
    drunk_in_play: bool,
    knight_in_play: bool,
    bombardier_in_play: bool,
) -> Seq<Map<IndexTestimony, bool>> {
    kept_maps(
        c,
        e,
        tried,
        non_hypothetical_pass,
        wretch_in_play,
        drunk_in_play,
        knight_in_play,
        bombardier_in_play,
        tried_values(c, e.spec_variables(), tried, non_hypothetical_pass).len() as int,
    )
}

/// Every list tried on candidate `c` covers the variables, and checking it against
/// the board is well defined when it satisfies the testimony.
pub open spec fn tried_well_defined(
    c: CandidateLayout,
    e: OptimizedExpression<IndexTestimony>,
    tried: Seq<Vec<bool>>,
    non_hypothetical_pass: bool,
    wretch_in_play: bool,
    drunk_in_play: bool,
    knight_in_play: bool,
    bombardier_in_play: bool,
) -> bool {
    let tv = tried_values(c, e.spec_variables(), tried, non_hypothetical_pass);
    forall|m: int|
        0 <= m < tv.len() ==> e.spec_variables().len() <= (#[trigger] tv[m]).len() && (e.spec_satisfies(tv[m])
            ==> validation_well_defined(
            c.layout.villagers@,
            e.spec_variables(),
            tv[m],
            wretch_in_play,
            drunk_in_play,
            knight_in_play,
            bombardier_in_play,
        ))
}

/// The assignments of candidate `c` that agree with it.
fn config_matches(
    c: &CandidateLayout,
    e: &OptimizedExpression<IndexTestimony>,
    tried: &Vec<Vec<bool>>,
    non_hypothetical_pass: bool,
    wretch_in_play: bool,
    drunk_in_play: bool,
    knight_in_play: bool,
    bombardier_in_play: bool,
) -> (result: Vec<Assignment<IndexTestimony>>)
    requires
        tried_well_defined(
            *c,
            *e,
            tried@,
            non_hypothetical_pass,
            wretch_in_play,
            drunk_in_play,
            knight_in_play,
            bombardier_in_play,
        ),
    ensures
        assignment_maps(result@) == all_kept_maps(
            *c,
            *e,
            tried@,
            non_hypothetical_pass,
            wretch_in_play,
            drunk_in_play,
            knight_in_play,
            bombardier_in_play,
        ),
{
    proof {
        crate::validation::lemma_testimony_clone_exact();
    }
    let ghost tv = tried_values(*c, e.spec_variables(), tried@, non_hypothetical_pass);
    let count = if non_hypothetical_pass {
        tried.len()
    } else {
        c.satisfying_assignments.len()
    };
    let mut kept: Vec<Assignment<IndexTestimony>> = Vec::new();
    let mut m: usize = 0;
    while m < count
        invariant
            m <= count,
            count == tv.len(),
            tv == tried_values(*c, e.spec_variables(), tried@, non_hypothetical_pass),
            tried_well_defined(
                *c,
                *e,
                tried@,
                non_hypothetical_pass,
                wretch_in_play,
                drunk_in_play,
                knight_in_play,
                bombardier_in_play,
            ),
            crate::optimized_expression::clone_is_exact::<IndexTestimony>(),
            assignment_maps(kept@) == kept_maps(
                *c,
                *e,
                tried@,
                non_hypothetical_pass,
                wretch_in_play,
                drunk_in_play,
                knight_in_play,
                bombardier_in_play,
                m as int,
            ),
        decreases count - m,
    {
        let ghost before = kept@;
        assert(e.spec_variables().len() <= tv[m as int].len());
        if non_hypothetical_pass {
            let values = &tried[m];
            assert(values@ == tv[m as int]);
            if assignment_matches_layout(
                e,
                values,
                &c.layout,
                wretch_in_play,
                drunk_in_play,
                knight_in_play,
                bombardier_in_play,
            ) {
                kept.push(satisfying_assignment(e.variables(), values));
                assert(assignment_maps(kept@) =~= assignment_maps(before).push(
                    recorded_map(*c, e.spec_variables(), tried@, non_hypothetical_pass, m as int),
                ));
            }
        } else {
            let values = assignment_for_variables(e.variables(), &c.satisfying_assignments[m]);
            assert(values@ == tv[m as int]);
            if assignment_matches_layout(
                e,
                &values,
                &c.layout,
                wretch_in_play,
                drunk_in_play,
                knight_in_play,
                bombardier_in_play,
            ) {
                kept.push(c.satisfying_assignments[m].duplicate());
                assert(assignment_maps(kept@) =~= assignment_maps(before).push(
                    recorded_map(*c, e.spec_variables(), tried@, non_hypothetical_pass, m as int),
                ));
            }
        }
        m = m + 1;
    }
    kept
}

/// A candidate (by position) with the assignments that agree with it.
pub type MatchModel = (int, Seq<Map<IndexTestimony, bool>>);

/// Among the first `k` candidates, those with a compiled testimony and at least
/// one agreeing assignment, in order, with those assignments.
pub open spec fn matched_upto(
    configs: Seq<CandidateLayout>,
    expressions: Seq<Option<OptimizedExpression<IndexTestimony>>>,
    tried: Seq<Vec<bool>>,
    non_hypothetical_pass: bool,
    wretch_in_play: bool,
    drunk_in_play: bool,
    knight_in_play: bool,
    bombardier_in_play: bool,
    k: int,
) -> Seq<MatchModel>
    decreases k,
{
    if k <= 0 {
        Seq::empty()
    } else {
        let rest = matched_upto(
            configs,
            expressions,
            tried,
            non_hypothetical_pass,
            wretch_in_play,
            drunk_in_play,
            knight_in_play,
            bombardier_in_play,
            k - 1,
        );
        match expressions[k - 1] {
            Some(e) => {
                let kept = all_kept_maps(
                    configs[k - 1],
                    e,
                    tried,
                    non_hypothetical_pass,
                    wretch_in_play,
                    drunk_in_play,
                    knight_in_play,
                    bombardier_in_play,
                );
                if kept.len() > 0 {
                    rest.push((k - 1, kept))
                } else {
                    rest
                }
            },
            None => rest,
        }
    }
}

/// The view of a list of matching candidates.
pub open spec fn match_view(v: Seq<(usize, Vec<Assignment<IndexTestimony>>)>) -> Seq<MatchModel> {
    v.map_values(|p: (usize, Vec<Assignment<IndexTestimony>>)| (p.0 as int, assignment_maps(p.1@)))
}

/// What checking the candidates needs: a compiled testimony per candidate, and
/// for each candidate with one, well-defined checks of its tried lists.
pub open spec fn candidates_well_defined(
    configs: Seq<CandidateLayout>,
    expressions: Seq<Option<OptimizedExpression<IndexTestimony>>>,
    tried: Seq<Vec<bool>>,
    non_hypothetical_pass: bool,
    wretch_in_play: bool,
    drunk_in_play: bool,
    knight_in_play: bool,
    bombardier_in_play: bool,
) -> bool {
    &&& expressions.len() == configs.len()
    &&& forall|k: int|
        0 <= k < configs.len() && (#[trigger] expressions[k]) is Some ==> tried_well_defined(
            configs[k],
            expressions[k]->Some_0,
            tried,
            non_hypothetical_pass,
            wretch_in_play,
            drunk_in_play,
            knight_in_play,
            bombardier_in_play,
        )
}

/// The candidates that agree with at least one tried assignment.
fn matching_configs(
    configs: &Vec<CandidateLayout>,
    expressions: &Vec<Option<OptimizedExpression<IndexTestimony>>>,
    tried: &Vec<Vec<bool>>,
    non_hypothetical_pass: bool,
    wretch_in_play: bool,
    drunk_in_play: bool,
    knight_in_play: bool,
    bombardier_in_play: bool,
) -> (result: Vec<(usize, Vec<Assignment<IndexTestimony>>)>)
    requires
        candidates_well_defined(
            configs@,
            expressions@,
            tried@,
            non_hypothetical_pass,
            wretch_in_play,
            drunk_in_play,
            knight_in_play,
            bombardier_in_play,
        ),
    ensures
        match_view(result@) == matched_upto(
            configs@,
            expressions@,
            tried@,
            non_hypothetical_pass,
            wretch_in_play,
            drunk_in_play,
            knight_in_play,
            bombardier_in_play,
            configs@.len() as int,
        ),
        forall|m: int| 0 <= m < result@.len() ==> (#[trigger] result@[m]).0 < configs@.len(),
{
    let mut out: Vec<(usize, Vec<Assignment<IndexTestimony>>)> = Vec::new();
    let mut k: usize = 0;
    while k < configs.len()
        invariant
            k <= configs@.len(),
            candidates_well_defined(
                configs@,
                expressions@,
                tried@,
                non_hypothetical_pass,
                wretch_in_play,
                drunk_in_play,
                knight_in_play,
                bombardier_in_play,
            ),
            match_view(out@) == matched_upto(
                configs@,
                expressions@,
                tried@,
                non_hypothetical_pass,
                wretch_in_play,
                drunk_in_play,
                knight_in_play,
                bombardier_in_play,
                k as int,
            ),
            forall|m: int| 0 <= m < out@.len() ==> (#[trigger] out@[m]).0 < k,
        decreases configs@.len() - k,
    {
        match &expressions[k] {
            Some(e) => {
                assert(expressions@[k as int] is Some);
                let kept = config_matches(
                    &configs[k],
                    e,
                    tried,
                    non_hypothetical_pass,
                    wretch_in_play,
                    drunk_in_play,
                    knight_in_play,
                    bombardier_in_play,
                );
                if kept.len() > 0 {
                    let ghost before = out@;
                    out.push((k, kept));
                    assert(match_view(out@) =~= match_view(before).push(
                        (k as int, assignment_maps(out@[before.len() as int].1@)),
                    ));
                }
            },
            None => {},
        }
        k = k + 1;
    }
    out
}

/// How many layouts of `e` hold seat `x`.
pub open spec fn seat_count(e: Seq<Seq<VillagerIndex>>, x: VillagerIndex) -> nat
    decreases e.len(),
{
    if e.len() == 0 {
        0
    } else {
        seat_count(e.drop_last(), x) + if e.last().contains(x) {
            1nat
        } else {
            0nat
        }
    }
}

/// Seat `x` is held by some layout of `e`, and by no fewer layouts than any other seat.
pub open spec fn most_common_seat(e: Seq<Seq<VillagerIndex>>, x: VillagerIndex) -> bool {
    seat_count(e, x) > 0 && forall|y: VillagerIndex| seat_count(e, y) <= seat_count(e, x)
}

/// Every layout of `e` holds seat `x`.
pub open spec fn held_by_all(e: Seq<Seq<VillagerIndex>>, x: VillagerIndex) -> bool {
    forall|i: int| 0 <= i < e.len() ==> (#[trigger] e[i]).contains(x)
}

/// There are layouts, and `x` is the one seat that all of them hold.
pub open spec fn only_shared_seat(e: Seq<Seq<VillagerIndex>>, x: VillagerIndex) -> bool {
    &&& e.len() > 0
    &&& held_by_all(e, x)
    &&& forall|y: VillagerIndex| #[trigger] held_by_all(e, y) ==> y == x
}

/// The views of a list of layouts.
pub open spec fn layout_views(v: Seq<Vec<VillagerIndex>>) -> Seq<Seq<VillagerIndex>> {
    v.map_values(|l: Vec<VillagerIndex>| l@)
}

proof fn lemma_seat_count(v: Seq<Vec<VillagerIndex>>, x: VillagerIndex)
    ensures
        seat_count(layout_views(v), x) == occurrences(v, x),
    decreases v.len(),
{
    if v.len() > 0 {
        lemma_seat_count(v.drop_last(), x);
        assert(layout_views(v.drop_last()) =~= layout_views(v).drop_last());
    }
}

/// The distinct evil layouts of the matching candidates, in order of first appearance.
pub open spec fn matched_evil_layouts(configs: Seq<CandidateLayout>, matched: Seq<MatchModel>) -> Seq<Seq<VillagerIndex>> {
    without_repeats(matched.map_values(|m: MatchModel| evil_seats(configs[m.0].layout.villagers@)))
}

/// What the board-configuration step concluded.
pub enum BoardPrediction {
    /// The evils can be acted on. `matching` lists the candidates that agree with
    /// some assignment, with those assignments. `most_common` is `None` when all of
    /// them place the evils alike; otherwise it gives the seats to execute, with
    /// how many layouts hold them when every layout holds that seat.
    Prediction {
        matching: Vec<(usize, Vec<Assignment<IndexTestimony>>)>,
        most_common: Option<(Vec<VillagerIndex>, Option<usize>)>,
    },
    /// More information is needed; the candidates that agree with some assignment.
    NeedMoreInfo(Vec<(usize, Vec<Assignment<IndexTestimony>>)>),
}

fn same_seats(a: &Vec<VillagerIndex>, b: &Vec<VillagerIndex>) -> (result: bool)
    ensures
        result == (a@ == b@),
{
    if a.len() != b.len() {
        return false;
    }
    let mut i: usize = 0;
    while i < a.len()
        invariant
            a@.len() == b@.len(),
            i <= a@.len(),
            forall|k: int| 0 <= k < i ==> a@[k] == b@[k],
        decreases a@.len() - i,
    {
        if a[i] != b[i] {
            return false;
        }
        i = i + 1;
    }
    assert(a@ =~= b@);
    true
}

/// The distinct evil layouts of the matching candidates.
fn distinct_evil_layouts(configs: &Vec<CandidateLayout>, matching: &Vec<(usize, Vec<Assignment<IndexTestimony>>)>) -> (result:
    Vec<Vec<VillagerIndex>>)
    requires
        forall|m: int| 0 <= m < matching@.len() ==> (#[trigger] matching@[m]).0 < configs@.len(),
    ensures
        layout_views(result@) == matched_evil_layouts(configs@, match_view(matching@)),
        crate::prediction::layouts_well_formed(result@),
{
    let ghost all = match_view(matching@).map_values(|m: MatchModel| evil_seats(configs@[m.0].layout.villagers@));
    let mut out: Vec<Vec<VillagerIndex>> = Vec::new();
    let mut i: usize = 0;
    while i < matching.len()
        invariant
            i <= matching@.len(),
            forall|m: int| 0 <= m < matching@.len() ==> (#[trigger] matching@[m]).0 < configs@.len(),
            all == match_view(matching@).map_values(|m: MatchModel| evil_seats(configs@[m.0].layout.villagers@)),
            layout_views(out@) == without_repeats(all.subrange(0, i as int)),
            crate::prediction::layouts_well_formed(out@),
        decreases matching@.len() - i,
    {
        let seats = evil_locations(&configs[matching[i].0].layout.villagers);
        proof {
            let sub = all.subrange(0, i + 1);
            assert(sub.drop_last() =~= all.subrange(0, i as int));
            assert(sub.last() == seats@);
        }
        let mut found = false;
        let mut k: usize = 0;
        while k < out.len()
            invariant
                k <= out@.len(),
                found ==> layout_views(out@).contains(seats@),
                !found ==> forall|q: int| 0 <= q < k ==> (#[trigger] out@[q])@ != seats@,
            decreases out@.len() - k,
        {
            if same_seats(&out[k], &seats) {
                found = true;
                assert(layout_views(out@)[k as int] == seats@);
            }
            k = k + 1;
        }
        if !found {
            let ghost before = out@;
            proof {
                assert forall|q: int| 0 <= q < layout_views(before).len() implies layout_views(before)[q] != seats@ by {
                    assert(before[q]@ != seats@);
                }
            }
            out.push(seats);
            assert(layout_views(out@) =~= layout_views(before).push(seats@));
        }
        i = i + 1;
    }
    assert(all.subrange(0, matching@.len() as int) =~= all);
    out
}

proof fn lemma_keep_where_contains(s: Seq<VillagerIndex>, keep: spec_fn(VillagerIndex) -> bool, x: VillagerIndex)
    ensures
        keep_where(s, keep).contains(x) <==> s.contains(x) && keep(x),
    decreases s.len(),
{
    if s.len() > 0 {
        let rest = s.drop_last();
        lemma_keep_where_contains(rest, keep, x);
        if s.contains(x) && x != s.last() {
            let k = choose|k: int| 0 <= k < s.len() && s[k] == x;
            assert(rest[k] == x);
        }
        if rest.contains(x) {
            let k = choose|k: int| 0 <= k < rest.len() && rest[k] == x;
            assert(s[k] == x);
        }
        if keep_where(s, keep).contains(x) && keep(s.last()) && x != s.last() {
            let r = keep_where(rest, keep);
            let k = choose|k: int| 0 <= k < r.push(s.last()).len() && r.push(s.last())[k] == x;
            assert(r[k] == x);
        }
        if keep_where(rest, keep).contains(x) && keep(s.last()) {
            let r = keep_where(rest, keep);
            let k = choose|k: int| 0 <= k < r.len() && r[k] == x;
            assert(r.push(s.last())[k] == x);
        }
        if x == s.last() && keep(x) {
            assert(keep_where(rest, keep).push(s.last())[keep_where(rest, keep).len() as int] == x);
        }
        if x == s.last() {
            assert(s[s.len() - 1] == x);
        }
    }
}

proof fn lemma_keep_where_no_duplicates(s: Seq<VillagerIndex>, keep: spec_fn(VillagerIndex) -> bool)
    requires
        s.no_duplicates(),
    ensures
        keep_where(s, keep).no_duplicates(),
    decreases s.len(),
{
    if s.len() > 0 {
        let rest = s.drop_last();
        assert forall|p: int, q: int| 0 <= p < rest.len() && 0 <= q < rest.len() && p != q implies rest[p] != rest[q] by {
            assert(s[p] != s[q]);
        }
        lemma_keep_where_no_duplicates(rest, keep);
        if keep(s.last()) {
            let r = keep_where(rest, keep);
            lemma_keep_where_contains(rest, keep, s.last());
            assert(!rest.contains(s.last())) by {
                if rest.contains(s.last()) {
                    let k = choose|k: int| 0 <= k < rest.len() && rest[k] == s.last();
                    assert(s[k] == s[s.len() - 1]);
                }
            }
            assert forall|p: int, q: int| 0 <= p < r.push(s.last()).len() && 0 <= q < r.push(s.last()).len() && p != q
                implies r.push(s.last())[p] != r.push(s.last())[q] by {
                if p < r.len() && q < r.len() {
                    assert(r[p] != r[q]);
                } else if p < r.len() {
                    assert(r.contains(r[p]));
                } else {
                    assert(r.contains(r[q]));
                }
            }
        }
    }
}

/// Seat `x` is a most common evil seat of `e` and, in the first pass, among the
/// most common seats the hidden ones are preferred, and otherwise the knights.
pub open spec fn best_guess_seat(state: GameState, e: Seq<Seq<VillagerIndex>>, non_hypothetical_pass: bool, x: VillagerIndex) -> bool {
    &&& most_common_seat(e, x)
    &&& non_hypothetical_pass ==> if exists|y: VillagerIndex| #[trigger] most_common_seat(e, y) && is_hidden(state.villager_at(y.0 as int)) {
        is_hidden(state.villager_at(x.0 as int))
    } else if exists|y: VillagerIndex| #[trigger] most_common_seat(e, y) && is_active_knight(state.villager_at(y.0 as int)) {
        is_active_knight(state.villager_at(x.0 as int))
    } else {
        true
    }
}

proof fn lemma_count_positive_held(e: Seq<Seq<VillagerIndex>>, x: VillagerIndex)
    requires
        seat_count(e, x) > 0,
    ensures
        exists|i: int| 0 <= i < e.len() && (#[trigger] e[i]).contains(x),
    decreases e.len(),
{
    if !e.last().contains(x) {
        lemma_count_positive_held(e.drop_last(), x);
        let i = choose|i: int| 0 <= i < e.drop_last().len() && (#[trigger] e.drop_last()[i]).contains(x);
        assert(e[i] == e.drop_last()[i]);
    } else {
        assert(e[e.len() - 1].contains(x));
    }
}

proof fn lemma_without_repeats_from(s: Seq<Seq<VillagerIndex>>, i: int)
    requires
        0 <= i < without_repeats(s).len(),
    ensures
        s.contains(without_repeats(s)[i]),
    decreases s.len(),
{
    let rest = without_repeats(s.drop_last());
    if i < rest.len() {
        lemma_without_repeats_from(s.drop_last(), i);
        let k = choose|k: int| 0 <= k < s.drop_last().len() && s.drop_last()[k] == rest[i];
        assert(s[k] == rest[i]);
    } else {
        assert(s[s.len() - 1] == s.last());
    }
}

/// Every seat of every matched evil layout lies on the board.
proof fn lemma_matched_seats_bounded(configs: Seq<CandidateLayout>, matched: Seq<MatchModel>, n: nat, x: VillagerIndex)
    requires
        forall|m: int| 0 <= m < matched.len() ==> 0 <= (#[trigger] matched[m]).0 < configs.len(),
        forall|k: int| 0 <= k < configs.len() ==> (#[trigger] configs[k]).layout.villagers@.len() == n,
        n <= usize::MAX,
        seat_count(matched_evil_layouts(configs, matched), x) > 0,
    ensures
        x.0 < n,
{
    let all = matched.map_values(|m: MatchModel| evil_seats(configs[m.0].layout.villagers@));
    let e = matched_evil_layouts(configs, matched);
    lemma_count_positive_held(e, x);
    let i = choose|i: int| 0 <= i < e.len() && (#[trigger] e[i]).contains(x);
    lemma_without_repeats_from(all, i);
    let m = choose|m: int| 0 <= m < all.len() && all[m] == e[i];
    let b = configs[matched[m].0].layout.villagers@;
    lemma_evil_seats_bounded(b, b.len() as int);
    let q = choose|q: int| 0 <= q < e[i].len() && e[i][q] == x;
    assert(evil_seats(b)[q] == x);
}

/// The seats to execute when the evils are not settled: the most common evil
/// seats, preferring (in the first pass) hidden villagers, then knights.
fn best_guess(
    game_state: &GameState,
    layouts: &Vec<Vec<VillagerIndex>>,
    non_hypothetical_pass: bool,
) -> (result: Vec<VillagerIndex>)
    requires
        crate::prediction::layouts_well_formed(layouts@),
        forall|x: VillagerIndex| seat_count(layout_views(layouts@), x) > 0 ==> x.0 < game_state.num_villagers(),
    ensures
        result@.no_duplicates(),
        forall|x: VillagerIndex| #[trigger] result@.contains(x) <==> best_guess_seat(
            *game_state,
            layout_views(layouts@),
            non_hypothetical_pass,
            x,
        ),
{
    let occ = most_common_evil_indices(layouts);
    let ghost e = layout_views(layouts@);
    let ghost h = occ.highest_count;
    let ghost mc = occ.most_common@;
    proof {
        assert forall|x: VillagerIndex| #[trigger] mc.contains(x) <==> most_common_seat(e, x) by {
            lemma_seat_count(layouts@, x);
            if most_common_seat(e, x) {
                if h == 0 {
                    assert(seat_count(e, x) <= h);
                } else {
                    assert(mc.len() > 0);
                    assert(mc.contains(mc[0]));
                    lemma_seat_count(layouts@, mc[0]);
                    assert(seat_count(e, mc[0]) <= seat_count(e, x));
                }
            }
            if mc.contains(x) {
                assert forall|y: VillagerIndex| seat_count(e, y) <= seat_count(e, x) by {
                    lemma_seat_count(layouts@, y);
                }
            }
        }
        assert forall|k: int| 0 <= k < mc.len() implies (#[trigger] mc[k]).0 < game_state.num_villagers() by {
            assert(mc.contains(mc[k]));
        }
    }
    if !non_hypothetical_pass {
        return occ.most_common;
    }
    let result = prefer_hidden_or_knights(game_state, occ.most_common);
    proof {
        let hid = exists|y: VillagerIndex| #[trigger] most_common_seat(e, y) && is_hidden(game_state.villager_at(y.0 as int));
        let kn = exists|y: VillagerIndex| #[trigger] most_common_seat(e, y) && is_active_knight(game_state.villager_at(y.0 as int));
        let hid_k = exists|k: int| 0 <= k < mc.len() && is_hidden(game_state.villager_at((#[trigger] mc[k]).0 as int));
        let kn_k = exists|k: int| 0 <= k < mc.len() && is_active_knight(game_state.villager_at((#[trigger] mc[k]).0 as int));
        if hid {
            let y = choose|y: VillagerIndex| #[trigger] most_common_seat(e, y) && is_hidden(game_state.villager_at(y.0 as int));
            assert(mc.contains(y));
            let k = choose|k: int| 0 <= k < mc.len() && mc[k] == y;
            assert(is_hidden(game_state.villager_at(mc[k].0 as int)));
        }
        if hid_k {
            let k = choose|k: int| 0 <= k < mc.len() && is_hidden(game_state.villager_at((#[trigger] mc[k]).0 as int));
            assert(mc.contains(mc[k]));
            assert(most_common_seat(e, mc[k]));
        }
        if kn {
            let y = choose|y: VillagerIndex| #[trigger] most_common_seat(e, y) && is_active_knight(game_state.villager_at(y.0 as int));
            assert(mc.contains(y));
            let k = choose|k: int| 0 <= k < mc.len() && mc[k] == y;
            assert(is_active_knight(game_state.villager_at(mc[k].0 as int)));
        }
        if kn_k {
            let k = choose|k: int| 0 <= k < mc.len() && is_active_knight(game_state.villager_at((#[trigger] mc[k]).0 as int));
            assert(mc.contains(mc[k]));
            assert(most_common_seat(e, mc[k]));
        }
        assert forall|x: VillagerIndex| #[trigger] result@.contains(x) <==> best_guess_seat(
            *game_state,
            e,
            non_hypothetical_pass,
            x,
        ) by {
            lemma_keep_where_contains(mc, hidden_in(*game_state), x);
            lemma_keep_where_contains(mc, knight_in(*game_state), x);
        }
        if hid_k {
            lemma_keep_where_no_duplicates(mc, hidden_in(*game_state));
        } else if kn_k {
            lemma_keep_where_no_duplicates(mc, knight_in(*game_state));
        }
    }
    result
}

/// Some candidate has a compiled testimony.
pub open spec fn any_expression(expressions: Seq<Option<OptimizedExpression<IndexTestimony>>>) -> bool {
    exists|k: int| 0 <= k < expressions.len() && (#[trigger] expressions[k]) is Some
}

/// Every candidate, in order, with no assignments.
pub open spec fn every_candidate(n: nat) -> Seq<MatchModel> {
    Seq::new(n, |k: int| (k, Seq::<Map<IndexTestimony, bool>>::empty()))
}

proof fn lemma_held_by_all_views(v: Seq<Vec<VillagerIndex>>, x: VillagerIndex)
    ensures
        in_every_layout(v, x) <==> held_by_all(layout_views(v), x),
{
    if in_every_layout(v, x) {
        assert forall|i: int| 0 <= i < layout_views(v).len() implies (#[trigger] layout_views(v)[i]).contains(x) by {
            assert(v[i]@.contains(x));
        }
    }
    if held_by_all(layout_views(v), x) {
        assert forall|i: int| 0 <= i < v.len() implies (#[trigger] v[i])@.contains(x) by {
            assert(layout_views(v)[i].contains(x));
        }
    }
}

/// Decides, from the candidate layouts that remain, what can be done about the
/// evils.
///
/// Candidates are named by their position in `configs`; two equal layouts at
/// different positions stay apart, each with its own assignments.
///
/// `board_expressions[k]` is the compiled testimony of candidate `k` (`None`
/// when none of its villagers testifies). In the first pass
/// (`non_hypothetical_pass`) every list of truth values in `tried` is checked
/// against every candidate with a testimony; in a hypothetical pass each
/// candidate is checked against its own assignments.
///
/// No candidate, no truth values to try, or no candidate that agrees with any of
/// them: the game is unsolvable. One candidate: its evils are known. No
/// testimony at all: more information is needed. Otherwise the matching
/// candidates are kept, and their distinct evil layouts decide: one layout, the
/// evils are known; a seat that every layout holds, alone, is to be executed;
/// else, in the first pass and while something can still be learned, more
/// information is needed; else the most common evil seats are the best guess.
pub fn predict_board_configs(
    configs: &Vec<CandidateLayout>,
    board_expressions: &Vec<Option<OptimizedExpression<IndexTestimony>>>,
    tried: &Vec<Vec<bool>>,
    game_state: &GameState,
    non_hypothetical_pass: bool,
    wretch_in_play: bool,
    drunk_in_play: bool,
    knight_in_play: bool,
    bombardier_in_play: bool,
) -> (result: Result<BoardPrediction, PredictionError>)
    requires
        candidates_well_defined(
            configs@,
            board_expressions@,
            tried@,
            non_hypothetical_pass,
            wretch_in_play,
            drunk_in_play,
            knight_in_play,
            bombardier_in_play,
        ),
        forall|k: int| 0 <= k < configs@.len() ==> (#[trigger] configs@[k]).layout.villagers@.len() == game_state.num_villagers(),
    ensures
        ({
            let matched = matched_upto(
                configs@,
                board_expressions@,
                tried@,
                non_hypothetical_pass,
                wretch_in_play,
                drunk_in_play,
                knight_in_play,
                bombardier_in_play,
                configs@.len() as int,
            );
            let e = matched_evil_layouts(configs@, matched);
            &&& configs@.len() == 0 ==> result == Err::<BoardPrediction, PredictionError>(PredictionError::GameUnsolvable)
            &&& configs@.len() == 1 ==> (result matches Ok(BoardPrediction::Prediction { matching, most_common })
                && match_view(matching@) == every_candidate(1) && most_common is None)
            &&& configs@.len() >= 2 && !any_expression(board_expressions@) ==> (result matches Ok(
                BoardPrediction::NeedMoreInfo(matching),
            ) && match_view(matching@) == every_candidate(configs@.len()))
            &&& configs@.len() >= 2 && any_expression(board_expressions@) && non_hypothetical_pass && tried@.len() == 0
                ==> result == Err::<BoardPrediction, PredictionError>(PredictionError::GameUnsolvable)
            &&& configs@.len() >= 2 && any_expression(board_expressions@) && !(non_hypothetical_pass && tried@.len() == 0)
                ==> {
                &&& matched.len() == 0 ==> result == Err::<BoardPrediction, PredictionError>(PredictionError::GameUnsolvable)
                &&& matched.len() > 0 && e.len() == 1 ==> (result matches Ok(
                    BoardPrediction::Prediction { matching, most_common },
                ) && match_view(matching@) == matched && most_common is None)
                &&& matched.len() > 0 && e.len() != 1 && (exists|x: VillagerIndex| #[trigger] only_shared_seat(e, x))
                    ==> (result matches Ok(BoardPrediction::Prediction { matching, most_common: Some((seats, count)) })
                    && match_view(matching@) == matched && only_shared_seat(e, seats@[0]) && seats@.len() == 1
                    && count == Some(e.len() as usize))
                &&& matched.len() > 0 && e.len() != 1 && !(exists|x: VillagerIndex| #[trigger] only_shared_seat(e, x))
                    && non_hypothetical_pass && more_to_learn(*game_state) ==> (result matches Ok(
                    BoardPrediction::NeedMoreInfo(matching),
                ) && match_view(matching@) == matched)
                &&& matched.len() > 0 && e.len() != 1 && !(exists|x: VillagerIndex| #[trigger] only_shared_seat(e, x))
                    && !(non_hypothetical_pass && more_to_learn(*game_state)) ==> (result matches Ok(
                    BoardPrediction::Prediction { matching, most_common: Some((seats, count)) },
                ) && match_view(matching@) == matched && count is None && seats@.no_duplicates()
                    && forall|x: VillagerIndex| #[trigger] seats@.contains(x) <==> best_guess_seat(
                    *game_state,
                    e,
                    non_hypothetical_pass,
                    x,
                ))
            }
        }),
{
    if configs.len() == 0 {
        return Err(PredictionError::GameUnsolvable);
    }
    if configs.len() == 1 {
        let mut matching: Vec<(usize, Vec<Assignment<IndexTestimony>>)> = Vec::new();
        let none: Vec<Assignment<IndexTestimony>> = Vec::new();
        assert(assignment_maps(none@) =~= Seq::<Map<IndexTestimony, bool>>::empty());
        matching.push((0, none));
        assert(match_view(matching@) =~= every_candidate(1));
        return Ok(BoardPrediction::Prediction { matching, most_common: None });
    }
    let mut any = false;
    let mut k: usize = 0;
    while k < board_expressions.len()
        invariant
            k <= board_expressions@.len(),
            any <==> exists|q: int| 0 <= q < k && (#[trigger] board_expressions@[q]) is Some,
        decreases board_expressions@.len() - k,
    {
        if board_expressions[k].is_some() {
            any = true;
        }
        k = k + 1;
    }
    if !any {
        let mut all: Vec<(usize, Vec<Assignment<IndexTestimony>>)> = Vec::new();
        let mut c: usize = 0;
        while c < configs.len()
            invariant
                c <= configs@.len(),
                match_view(all@) =~= every_candidate(c as nat),
            decreases configs@.len() - c,
        {
            let none: Vec<Assignment<IndexTestimony>> = Vec::new();
            assert(assignment_maps(none@) =~= Seq::<Map<IndexTestimony, bool>>::empty());
            let ghost before = all@;
            all.push((c, none));
            assert(match_view(all@) =~= match_view(before).push((c as int, Seq::<Map<IndexTestimony, bool>>::empty())));
            c = c + 1;
        }
        return Ok(BoardPrediction::NeedMoreInfo(all));
    }
    if non_hypothetical_pass && tried.len() == 0 {
        return Err(PredictionError::GameUnsolvable);
    }
    let matching = matching_configs(
        configs,
        board_expressions,
        tried,
        non_hypothetical_pass,
        wretch_in_play,
        drunk_in_play,
        knight_in_play,
        bombardier_in_play,
    );
    let ghost matched = match_view(matching@);
    if matching.len() == 0 {
        return Err(PredictionError::GameUnsolvable);
    }
    let layouts = distinct_evil_layouts(configs, &matching);
    let ghost e = layout_views(layouts@);
    if layouts.len() == 1 {
        return Ok(BoardPrediction::Prediction { matching, most_common: None });
    }
    proof {
        assert forall|x: VillagerIndex| #[trigger] in_every_layout(layouts@, x) <==> held_by_all(e, x) by {
            lemma_held_by_all_views(layouts@, x);
        }
    }
    let shared = shared_evil_index(&layouts);
    if let Some(x) = shared {
        let mut seats: Vec<VillagerIndex> = Vec::new();
        seats.push(x);
        proof {
            let w = choose|w: VillagerIndex|
                in_every_layout(layouts@, w) && forall|y: VillagerIndex| #[trigger] in_every_layout(layouts@, y) ==> y == w;
            assert(in_every_layout(layouts@, x));
            assert(x == w);
            assert forall|y: VillagerIndex| #[trigger] held_by_all(e, y) implies y == x by {
                assert(in_every_layout(layouts@, y));
            }
            assert(held_by_all(e, x));
        }
        assert(only_shared_seat(e, seats@[0]));
        let count = layouts.len();
        return Ok(BoardPrediction::Prediction { matching, most_common: Some((seats, Some(count))) });
    }
    proof {
        if exists|x: VillagerIndex| #[trigger] only_shared_seat(e, x) {
            let x = choose|x: VillagerIndex| #[trigger] only_shared_seat(e, x);
            assert(in_every_layout(layouts@, x));
            assert forall|y: VillagerIndex| #[trigger] in_every_layout(layouts@, y) implies y == x by {
                assert(held_by_all(e, y));
            }
        }
    }
    if non_hypothetical_pass && can_get_more_information(game_state) {
        return Ok(BoardPrediction::NeedMoreInfo(matching));
    }
    let seat_total = game_state.total_villagers();
    proof {
        assert forall|x: VillagerIndex| seat_count(e, x) > 0 implies x.0 < game_state.num_villagers() by {
            lemma_matched_seats_bounded(configs@, matched, game_state.num_villagers(), x);
        }
    }
    let guess = best_guess(game_state, &layouts, non_hypothetical_pass);
    Ok(BoardPrediction::Prediction { matching, most_common: Some((guess, None)) })
}

/// Some of the first `m` tried lists agrees with candidate `c`.
pub open spec fn some_agreeing(
    c: CandidateLayout,
    e: OptimizedExpression<IndexTestimony>,
    tried: Seq<Vec<bool>>,
    non_hypothetical_pass: bool,
    wretch_in_play: bool,
    drunk_in_play: bool,
    knight_in_play: bool,
    bombardier_in_play: bool,
    m: int,
) -> bool {
    exists|j: int|
        0 <= j < m && agrees(
            e,
            c.layout.villagers@,
            #[trigger] tried_values(c, e.spec_variables(), tried, non_hypothetical_pass)[j],
            wretch_in_play,
            drunk_in_play,
            knight_in_play,
            bombardier_in_play,
        )
}

proof fn lemma_kept_nonempty(
    c: CandidateLayout,
    e: OptimizedExpression<IndexTestimony>,
    tried: Seq<Vec<bool>>,
    non_hypothetical_pass: bool,
    wretch_in_play: bool,
    drunk_in_play: bool,
    knight_in_play: bool,
    bombardier_in_play: bool,
    m: int,
)
    requires
        m >= 0,
    ensures
        kept_maps(c, e, tried, non_hypothetical_pass, wretch_in_play, drunk_in_play, knight_in_play, bombardier_in_play, m).len()
            > 0 <==> some_agreeing(c, e, tried, non_hypothetical_pass, wretch_in_play, drunk_in_play, knight_in_play, bombardier_in_play, m),
    decreases m,
{
    if m > 0 {
        lemma_kept_nonempty(c, e, tried, non_hypothetical_pass, wretch_in_play, drunk_in_play, knight_in_play, bombardier_in_play, m - 1);
        let tv = tried_values(c, e.spec_variables(), tried, non_hypothetical_pass);
        if some_agreeing(c, e, tried, non_hypothetical_pass, wretch_in_play, drunk_in_play, knight_in_play, bombardier_in_play, m) {
            let j = choose|j: int|
                0 <= j < m && agrees(
                    e,
                    c.layout.villagers@,
                    #[trigger] tv[j],
                    wretch_in_play,
                    drunk_in_play,
                    knight_in_play,
                    bombardier_in_play,
                );
            if j < m - 1 {
                assert(some_agreeing(c, e, tried, non_hypothetical_pass, wretch_in_play, drunk_in_play, knight_in_play, bombardier_in_play, m - 1));
            }
        }
        if some_agreeing(c, e, tried, non_hypothetical_pass, wretch_in_play, drunk_in_play, knight_in_play, bombardier_in_play, m - 1) {
            let j = choose|j: int|
                0 <= j < m - 1 && agrees(
                    e,
                    c.layout.villagers@,
                    #[trigger] tv[j],
                    wretch_in_play,
                    drunk_in_play,
                    knight_in_play,
                    bombardier_in_play,
                );
            assert(0 <= j < m);
        }
        if agrees(e, c.layout.villagers@, tv[m - 1], wretch_in_play, drunk_in_play, knight_in_play, bombardier_in_play) {
            assert(0 <= m - 1 < m);
        }
    }
}

/// Candidate `k` is among the matching candidates.
pub open spec fn is_matched(matched: Seq<MatchModel>, k: int) -> bool {
    exists|m: int| 0 <= m < matched.len() && (#[trigger] matched[m]).0 == k
}

/// The matching candidates are exactly those with a compiled testimony and some
/// tried list of truth values that satisfies it and agrees with the board; each
/// comes with the assignments that agree with it.
pub proof fn lemma_matching_candidates(
    configs: Seq<CandidateLayout>,
    expressions: Seq<Option<OptimizedExpression<IndexTestimony>>>,
    tried: Seq<Vec<bool>>,
    non_hypothetical_pass: bool,
    wretch_in_play: bool,
    drunk_in_play: bool,
    knight_in_play: bool,
    bombardier_in_play: bool,
    n: int,
)
    requires
        0 <= n <= configs.len(),
        expressions.len() == configs.len(),
    ensures
        forall|k: int|
            0 <= k < n ==> (#[trigger] is_matched(
                matched_upto(configs, expressions, tried, non_hypothetical_pass, wretch_in_play, drunk_in_play, knight_in_play, bombardier_in_play, n),
                k,
            ) <==> (expressions[k] matches Some(e) && some_agreeing(
                configs[k],
                e,
                tried,
                non_hypothetical_pass,
                wretch_in_play,
                drunk_in_play,
                knight_in_play,
                bombardier_in_play,
                tried_values(configs[k], e.spec_variables(), tried, non_hypothetical_pass).len() as int,
            ))),
        forall|m: int|
            0 <= m < matched_upto(configs, expressions, tried, non_hypothetical_pass, wretch_in_play, drunk_in_play, knight_in_play, bombardier_in_play, n).len()
                ==> {
                let entry = #[trigger] matched_upto(configs, expressions, tried, non_hypothetical_pass, wretch_in_play, drunk_in_play, knight_in_play, bombardier_in_play, n)[m];
                &&& 0 <= entry.0 < n
                &&& expressions[entry.0] matches Some(e) && entry.1 == all_kept_maps(
                    configs[entry.0],
                    e,
                    tried,
                    non_hypothetical_pass,
                    wretch_in_play,
                    drunk_in_play,
                    knight_in_play,
                    bombardier_in_play,
                )
            },
    decreases n,
{
    if n > 0 {
        lemma_matching_candidates(configs, expressions, tried, non_hypothetical_pass, wretch_in_play, drunk_in_play, knight_in_play, bombardier_in_play, n - 1);
        let prev = matched_upto(configs, expressions, tried, non_hypothetical_pass, wretch_in_play, drunk_in_play, knight_in_play, bombardier_in_play, n - 1);
        let cur = matched_upto(configs, expressions, tried, non_hypothetical_pass, wretch_in_play, drunk_in_play, knight_in_play, bombardier_in_play, n);
        if let Some(e) = expressions[n - 1] {
            let tv = tried_values(configs[n - 1], e.spec_variables(), tried, non_hypothetical_pass);
            lemma_kept_nonempty(configs[n - 1], e, tried, non_hypothetical_pass, wretch_in_play, drunk_in_play, knight_in_play, bombardier_in_play, tv.len() as int);
        }
        assert forall|k: int| 0 <= k < n implies (#[trigger] is_matched(cur, k) <==> is_matched(prev, k) || (k == n - 1 && cur.len() > prev.len())) by {
            if is_matched(cur, k) {
                let m = choose|m: int| 0 <= m < cur.len() && (#[trigger] cur[m]).0 == k;
                if m < prev.len() {
                    assert(prev[m] == cur[m]);
                }
            }
            if is_matched(prev, k) {
                let m = choose|m: int| 0 <= m < prev.len() && (#[trigger] prev[m]).0 == k;
                assert(cur[m] == prev[m]);
            }
            if k == n - 1 && cur.len() > prev.len() {
                assert(cur[prev.len() as int].0 == k);
            }
        }
        if is_matched(prev, n - 1) {
            let m = choose|m: int| 0 <= m < prev.len() && (#[trigger] prev[m]).0 == n - 1;
            assert(prev[m].0 < n - 1);
        }
    }
}

} // verus!
