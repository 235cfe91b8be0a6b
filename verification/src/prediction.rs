use crate::player_action::PlayerAction;
use crate::villager::{is_active_knight, is_hidden, GameState, VillagerIndex, VillagerStatus};
use vstd::prelude::*;

verus! {

/// Number of layouts that hold seat `x`.
pub open spec fn occurrences(layouts: Seq<Vec<VillagerIndex>>, x: VillagerIndex) -> nat
    decreases layouts.len(),
{
    if layouts.len() == 0 {
        0
    } else {
        occurrences(layouts.drop_last(), x) + if layouts.last()@.contains(x) {
            1nat
        } else {
            0nat
        }
    }
}

/// Every layout lists each seat at most once.
pub open spec fn layouts_well_formed(layouts: Seq<Vec<VillagerIndex>>) -> bool {
    forall|i: int| 0 <= i < layouts.len() ==> (#[trigger] layouts[i])@.no_duplicates()
}

proof fn lemma_occurrences_bound(layouts: Seq<Vec<VillagerIndex>>, x: VillagerIndex)
    ensures
        occurrences(layouts, x) <= layouts.len(),
        occurrences(layouts, x) == layouts.len() <==> forall|i: int|
            0 <= i < layouts.len() ==> (#[trigger] layouts[i])@.contains(x),
    decreases layouts.len(),
{
    if layouts.len() > 0 {
        let rest = layouts.drop_last();
        lemma_occurrences_bound(rest, x);
        assert forall|i: int| 0 <= i < rest.len() implies #[trigger] rest[i] == layouts[i] by {}
        if occurrences(layouts, x) == layouts.len() {
            assert forall|i: int| 0 <= i < layouts.len() implies (#[trigger] layouts[i])@.contains(x) by {
                if i < rest.len() {
                    assert(rest[i] == layouts[i]);
                }
            }
        }
        if forall|i: int| 0 <= i < layouts.len() ==> (#[trigger] layouts[i])@.contains(x) {
            assert(layouts[layouts.len() - 1]@.contains(x));
            assert forall|i: int| 0 <= i < rest.len() implies (#[trigger] rest[i])@.contains(x) by {
                assert(rest[i] == layouts[i]);
            }
        }
    }
}

/// The seats that the most layouts hold, and how many layouts hold them.
pub struct EvilIndexOccurrences {
    pub most_common: Vec<VillagerIndex>,
    pub highest_count: usize,
}

fn find_count(counts: &Vec<(VillagerIndex, usize)>, x: VillagerIndex) -> (result: Option<usize>)
    ensures
        match result {
            Some(k) => k < counts.len() && counts@[k as int].0 == x,
            None => forall|k: int| 0 <= k < counts.len() ==> (#[trigger] counts@[k]).0 != x,
        },
{
    let mut k: usize = 0;
    while k < counts.len()
        invariant
            k <= counts.len(),
            forall|m: int| 0 <= m < k ==> (#[trigger] counts@[m]).0 != x,
        decreases counts.len() - k,
    {
        if counts[k].0 == x {
            return Some(k);
        }
        k = k + 1;
    }
    None
}

/// Counts, over the given evil layouts, how many hold each seat, and returns the
/// seats held by the most layouts together with that number.
pub fn most_common_evil_indices(layouts: &Vec<Vec<VillagerIndex>>) -> (result: EvilIndexOccurrences)
    requires
        layouts_well_formed(layouts@),
    ensures
        forall|x: VillagerIndex| occurrences(layouts@, x) <= result.highest_count,
        forall|x: VillagerIndex| #[trigger]
            result.most_common@.contains(x) <==> (occurrences(layouts@, x) == result.highest_count
                && result.highest_count > 0),
        result.most_common@.no_duplicates(),
        result.highest_count == 0 <==> result.most_common@.len() == 0,
{
    let mut counts: Vec<(VillagerIndex, usize)> = Vec::new();
    let mut highest_count: usize = 0;
    let mut i: usize = 0;
    while i < layouts.len()
        invariant
            i <= layouts@.len(),
            layouts_well_formed(layouts@),
            forall|a: int, b: int|
                0 <= a < b < counts@.len() ==> (#[trigger] counts@[a]).0 != (#[trigger] counts@[b]).0,
            forall|k: int|
                0 <= k < counts@.len() ==> (#[trigger] counts@[k]).1 == occurrences(
                    layouts@.subrange(0, i as int),
                    counts@[k].0,
                ) && counts@[k].1 > 0,
            forall|x: VillagerIndex|
                #![trigger occurrences(layouts@.subrange(0, i as int), x)]
                occurrences(layouts@.subrange(0, i as int), x) > 0 ==> exists|k: int|
                    0 <= k < counts@.len() && (#[trigger] counts@[k]).0 == x,
            forall|k: int| 0 <= k < counts@.len() ==> (#[trigger] counts@[k]).1 <= highest_count,
            highest_count == 0 || exists|k: int|
                0 <= k < counts@.len() && (#[trigger] counts@[k]).1 == highest_count,
        decreases layouts.len() - i,
    {
        let layout = &layouts[i];
        let ghost done = layouts@.subrange(0, i as int);
        let ghost next = layouts@.subrange(0, i + 1);
        proof {
            assert(next.drop_last() =~= done);
            assert(next.last() == layouts@[i as int]);
            assert(layout@.no_duplicates());
        }
        let mut j: usize = 0;
        while j < layout.len()
            invariant
                i < layouts@.len(),
                layout == layouts@[i as int],
                layout@.no_duplicates(),
                j <= layout@.len(),
                done == layouts@.subrange(0, i as int),
                forall|a: int, b: int|
                    0 <= a < b < counts@.len() ==> (#[trigger] counts@[a]).0 != (#[trigger] counts@[b]).0,
                forall|k: int|
                    0 <= k < counts@.len() ==> (#[trigger] counts@[k]).1 == occurrences(done, counts@[k].0)
                        + (if layout@.subrange(0, j as int).contains(counts@[k].0) {
                        1nat
                    } else {
                        0nat
                    }) && counts@[k].1 > 0,
                forall|x: VillagerIndex|
                    #![trigger occurrences(done, x)]
                    occurrences(done, x) > 0 || layout@.subrange(0, j as int).contains(x) ==> exists|k: int|
                        0 <= k < counts@.len() && (#[trigger] counts@[k]).0 == x,
                forall|k: int| 0 <= k < counts@.len() ==> (#[trigger] counts@[k]).1 <= highest_count,
                highest_count == 0 || exists|k: int|
                    0 <= k < counts@.len() && (#[trigger] counts@[k]).1 == highest_count,
            decreases layout.len() - j,
        {
            let x = layout[j];
            let ghost before = counts@;
            let ghost old_highest = highest_count;
            let ghost seen = layout@.subrange(0, j as int);
            let ghost seen2 = layout@.subrange(0, j + 1);
            proof {
                assert(seen2 =~= seen.push(x));
                assert(!seen.contains(x)) by {
                    if seen.contains(x) {
                        let m = choose|m: int| 0 <= m < seen.len() && seen[m] == x;
                        assert(layout@[m] == layout@[j as int]);
                    }
                }
                assert forall|y: VillagerIndex| seen2.contains(y) <==> (seen.contains(y) || y == x) by {
                    if seen.contains(y) {
                        let m = choose|m: int| 0 <= m < seen.len() && seen[m] == y;
                        assert(seen2[m] == y);
                    }
                    if y == x {
                        assert(seen2[j as int] == y);
                    }
                    if seen2.contains(y) && y != x {
                        let m = choose|m: int| 0 <= m < seen2.len() && seen2[m] == y;
                        assert(seen[m] == y);
                    }
                }
                lemma_occurrences_bound(done, x);
            }
            match find_count(&counts, x) {
                Some(k) => {
                    proof {
                        assert(counts@[k as int].1 == occurrences(done, x));
                        assert(done.len() == i);
                        assert(i < layouts.len());
                    }
                    let new_count = counts[k].1 + 1;
                    counts.set(k, (x, new_count));
                    if new_count > highest_count {
                        highest_count = new_count;
                    }
                    proof {
                        assert forall|a: int, b: int| 0 <= a < b < counts@.len() implies (
                        #[trigger] counts@[a]).0 != (#[trigger] counts@[b]).0 by {
                            assert(before[a].0 != before[b].0);
                        }
                        assert forall|m: int| 0 <= m < counts@.len() implies (#[trigger] counts@[m]).1
                            <= highest_count by {
                            assert(m == k || counts@[m] == before[m]);
                        }
                        assert(counts@[k as int].1 == highest_count || (exists|m: int|
                            0 <= m < counts@.len() && (#[trigger] counts@[m]).1 == highest_count)) by {
                            if new_count <= old_highest && highest_count != 0 {
                                let m = choose|m: int|
                                    0 <= m < before.len() && (#[trigger] before[m]).1 == highest_count;
                                if m != k {
                                    assert(counts@[m] == before[m]);
                                }
                            }
                        }
                        assert forall|y: VillagerIndex|
                            #![trigger occurrences(done, y)]
                            occurrences(done, y) > 0 || seen2.contains(y) implies exists|m: int|
                                0 <= m < counts@.len() && (#[trigger] counts@[m]).0 == y by {
                            if y == x {
                                assert(counts@[k as int].0 == y);
                            } else {
                                let m = choose|m: int| 0 <= m < before.len() && (#[trigger] before[m]).0 == y;
                                assert(counts@[m] == before[m]);
                            }
                        }
                    }
                },
                None => {
                    counts.push((x, 1));
                    if highest_count < 1 {
                        highest_count = 1;
                    }
                    proof {
                        assert(occurrences(done, x) == 0) by {
                            if occurrences(done, x) > 0 {
                                let m = choose|m: int| 0 <= m < before.len() && (#[trigger] before[m]).0 == x;
                            }
                        }
                        assert forall|a: int, b: int| 0 <= a < b < counts@.len() implies (
                        #[trigger] counts@[a]).0 != (#[trigger] counts@[b]).0 by {
                            if b < before.len() {
                                assert(before[a].0 != before[b].0);
                            } else {
                                assert(counts@[a] == before[a]);
                            }
                        }
                        assert forall|m: int| 0 <= m < counts@.len() implies (#[trigger] counts@[m]).1
                            <= highest_count by {
                            if m < before.len() {
                                assert(counts@[m] == before[m]);
                            }
                        }
                        assert(exists|m: int|
                            0 <= m < counts@.len() && (#[trigger] counts@[m]).1 == highest_count) by {
                            if highest_count == 1 {
                                assert(counts@[before.len() as int].1 == 1);
                            } else {
                                let m = choose|m: int|
                                    0 <= m < before.len() && (#[trigger] before[m]).1 == highest_count;
                                assert(counts@[m] == before[m]);
                            }
                        }
                        assert forall|y: VillagerIndex|
                            #![trigger occurrences(done, y)]
                            occurrences(done, y) > 0 || seen2.contains(y) implies exists|m: int|
                                0 <= m < counts@.len() && (#[trigger] counts@[m]).0 == y by {
                            if y == x {
                                assert(counts@[before.len() as int].0 == y);
                            } else {
                                let m = choose|m: int| 0 <= m < before.len() && (#[trigger] before[m]).0 == y;
                                assert(counts@[m] == before[m]);
                            }
                        }
                    }
                },
            }
            j = j + 1;
        }
        proof {
            assert(layout@.subrange(0, layout@.len() as int) =~= layout@);
            assert forall|x: VillagerIndex| #![auto]
                occurrences(next, x) == occurrences(done, x) + (if layout@.contains(x) {
                    1nat
                } else {
                    0nat
                }) by {}
        }
        i = i + 1;
    }
    proof {
        assert(layouts@.subrange(0, layouts@.len() as int) =~= layouts@);
    }
    let mut most_common: Vec<VillagerIndex> = Vec::new();
    let mut k: usize = 0;
    while k < counts.len()
        invariant
            k <= counts@.len(),
            forall|a: int, b: int|
                0 <= a < b < counts@.len() ==> (#[trigger] counts@[a]).0 != (#[trigger] counts@[b]).0,
            forall|m: int|
                0 <= m < counts@.len() ==> (#[trigger] counts@[m]).1 == occurrences(layouts@, counts@[m].0)
                    && counts@[m].1 > 0,
            most_common@.no_duplicates(),
            forall|x: VillagerIndex| #[trigger]
                most_common@.contains(x) <==> exists|m: int|
                    0 <= m < k && (#[trigger] counts@[m]).0 == x && counts@[m].1 == highest_count,
        decreases counts.len() - k,
    {
        if counts[k].1 == highest_count {
            let ghost before = most_common@;
            proof {
                assert(!before.contains(counts@[k as int].0)) by {
                    if before.contains(counts@[k as int].0) {
                        let m = choose|m: int|
                            0 <= m < k && (#[trigger] counts@[m]).0 == counts@[k as int].0
                                && counts@[m].1 == highest_count;
                    }
                }
            }
            most_common.push(counts[k].0);
            proof {
                assert forall|x: VillagerIndex| #[trigger]
                    most_common@.contains(x) <==> exists|m: int|
                        0 <= m < k + 1 && (#[trigger] counts@[m]).0 == x && counts@[m].1 == highest_count by {
                    if most_common@.contains(x) {
                        let q = choose|q: int| 0 <= q < most_common@.len() && most_common@[q] == x;
                        if q < before.len() {
                            assert(before[q] == x);
                            assert(before.contains(x));
                            let m = choose|m: int|
                                0 <= m < k && (#[trigger] counts@[m]).0 == x && counts@[m].1 == highest_count;
                            assert(0 <= m < k + 1 && counts@[m].0 == x && counts@[m].1 == highest_count);
                        } else {
                            assert(counts@[k as int].0 == x && counts@[k as int].1 == highest_count);
                        }
                    }
                    if exists|m: int|
                        0 <= m < k + 1 && (#[trigger] counts@[m]).0 == x && counts@[m].1 == highest_count {
                        let m = choose|m: int|
                            0 <= m < k + 1 && (#[trigger] counts@[m]).0 == x && counts@[m].1 == highest_count;
                        if m < k {
                            assert(before.contains(x));
                            let q = choose|q: int| 0 <= q < before.len() && before[q] == x;
                            assert(most_common@[q] == x);
                        } else {
                            assert(most_common@[before.len() as int] == x);
                        }
                    }
                }
            }
        }
        k = k + 1;
    }
    proof {
        assert forall|x: VillagerIndex| occurrences(layouts@, x) <= highest_count by {
            if occurrences(layouts@, x) > 0 {
                let m = choose|m: int| 0 <= m < counts@.len() && (#[trigger] counts@[m]).0 == x;
            }
        }
        assert forall|x: VillagerIndex| #[trigger]
            most_common@.contains(x) <==> (occurrences(layouts@, x) == highest_count && highest_count > 0) by {
            if occurrences(layouts@, x) == highest_count && highest_count > 0 {
                let m = choose|m: int| 0 <= m < counts@.len() && (#[trigger] counts@[m]).0 == x;
            }
        }
        if highest_count > 0 {
            let m = choose|m: int| 0 <= m < counts@.len() && (#[trigger] counts@[m]).1 == highest_count;
            assert(most_common@.contains(counts@[m].0));
        }
        if highest_count == 0 && most_common@.len() > 0 {
            assert(most_common@.contains(most_common@[0]));
        }
    }
    EvilIndexOccurrences { most_common, highest_count }
}

/// Every layout holds seat `x`.
pub open spec fn in_every_layout(layouts: Seq<Vec<VillagerIndex>>, x: VillagerIndex) -> bool {
    forall|i: int| 0 <= i < layouts.len() ==> (#[trigger] layouts[i])@.contains(x)
}

/// The seat that every layout holds, when there is exactly one such seat.
pub fn shared_evil_index(layouts: &Vec<Vec<VillagerIndex>>) -> (result: Option<VillagerIndex>)
    requires
        layouts_well_formed(layouts@),
    ensures
        result is Some <==> (layouts@.len() > 0 && exists|x: VillagerIndex|
            in_every_layout(layouts@, x) && forall|y: VillagerIndex|
                #[trigger] in_every_layout(layouts@, y) ==> y == x),
        result matches Some(x) ==> in_every_layout(layouts@, x),
{
    let occurrences_result = most_common_evil_indices(layouts);
    let ghost n = layouts@.len();
    proof {
        assert forall|x: VillagerIndex| #[trigger] in_every_layout(layouts@, x) <==> occurrences(layouts@, x) == n by {
            lemma_occurrences_bound(layouts@, x);
        }
    }
    if occurrences_result.most_common.len() == 1 && occurrences_result.highest_count == layouts.len() {
        let x = occurrences_result.most_common[0];
        proof {
            assert(occurrences_result.most_common@.contains(x));
            assert(in_every_layout(layouts@, x));
            assert forall|y: VillagerIndex| #[trigger] in_every_layout(layouts@, y) implies y == x by {
                assert(occurrences_result.most_common@.contains(y));
            }
        }
        Some(x)
    } else {
        proof {
            let mc = occurrences_result.most_common@;
            let h = occurrences_result.highest_count;
            if n > 0 && exists|x: VillagerIndex|
                in_every_layout(layouts@, x) && forall|y: VillagerIndex|
                    #[trigger] in_every_layout(layouts@, y) ==> y == x {
                let x = choose|x: VillagerIndex|
                    in_every_layout(layouts@, x) && forall|y: VillagerIndex|
                        #[trigger] in_every_layout(layouts@, y) ==> y == x;
                assert(occurrences(layouts@, x) == n);
                assert(h > 0);
                assert(mc.len() > 0);
                assert(mc.contains(mc[0]));
                lemma_occurrences_bound(layouts@, mc[0]);
                assert(h == n);
                assert(mc.contains(x));
                assert forall|q: int| 0 <= q < mc.len() implies mc[q] == x by {
                    assert(mc.contains(mc[q]));
                    lemma_occurrences_bound(layouts@, mc[q]);
                    assert(in_every_layout(layouts@, mc[q]));
                }
                if mc.len() >= 2 {
                    assert(mc[0] == mc[1]);
                }
            }
        }
        None
    }
}

/// The elements of `s` that satisfy `keep`, in order.
pub open spec fn keep_where(s: Seq<VillagerIndex>, keep: spec_fn(VillagerIndex) -> bool) -> Seq<VillagerIndex>
    decreases s.len(),
{
    if s.len() == 0 {
        Seq::<VillagerIndex>::empty()
    } else {
        let rest = keep_where(s.drop_last(), keep);
        if keep(s.last()) {
            rest.push(s.last())
        } else {
            rest
        }
    }
}

pub open spec fn hidden_in(state: GameState) -> spec_fn(VillagerIndex) -> bool {
    |x: VillagerIndex| is_hidden(state.villager_at(x.0 as int))
}

pub open spec fn knight_in(state: GameState) -> spec_fn(VillagerIndex) -> bool {
    |x: VillagerIndex| is_active_knight(state.villager_at(x.0 as int))
}

/// Among candidate executions, prefers hidden villagers (killing them reveals
/// more), otherwise knights (to keep health); otherwise keeps all.
pub fn prefer_hidden_or_knights(game_state: &GameState, candidates: Vec<VillagerIndex>) -> (result: Vec<VillagerIndex>)
    requires
        forall|k: int| 0 <= k < candidates@.len() ==> (#[trigger] candidates@[k]).0 < game_state.num_villagers(),
    ensures
        (exists|k: int| 0 <= k < candidates@.len() && is_hidden(game_state.villager_at((#[trigger] candidates@[k]).0 as int)))
            ==> result@ == keep_where(candidates@, hidden_in(*game_state)),
        !(exists|k: int| 0 <= k < candidates@.len() && is_hidden(game_state.villager_at((#[trigger] candidates@[k]).0 as int)))
            && (exists|k: int| 0 <= k < candidates@.len() && is_active_knight(game_state.villager_at((#[trigger] candidates@[k]).0 as int)))
            ==> result@ == keep_where(candidates@, knight_in(*game_state)),
        !(exists|k: int| 0 <= k < candidates@.len() && is_hidden(game_state.villager_at((#[trigger] candidates@[k]).0 as int)))
            && !(exists|k: int| 0 <= k < candidates@.len() && is_active_knight(game_state.villager_at((#[trigger] candidates@[k]).0 as int)))
            ==> result@ == candidates@,
{
    let mut has_hiddens = false;
    let mut has_knights = false;
    let mut i: usize = 0;
    while i < candidates.len()
        invariant_except_break
            !has_hiddens,
            forall|k: int| 0 <= k < i ==> !is_hidden(game_state.villager_at((#[trigger] candidates@[k]).0 as int)),
        invariant
            i <= candidates@.len(),
            forall|k: int| 0 <= k < candidates@.len() ==> (#[trigger] candidates@[k]).0 < game_state.num_villagers(),
            has_knights <==> exists|k: int| 0 <= k < i && is_active_knight(game_state.villager_at((#[trigger] candidates@[k]).0 as int)),
        ensures
            has_hiddens ==> exists|k: int| 0 <= k < candidates@.len() && is_hidden(game_state.villager_at((#[trigger] candidates@[k]).0 as int)),
            !has_hiddens ==> forall|k: int| 0 <= k < candidates@.len() ==> !is_hidden(game_state.villager_at((#[trigger] candidates@[k]).0 as int)),
            !has_hiddens ==> (has_knights <==> exists|k: int| 0 <= k < candidates@.len() && is_active_knight(game_state.villager_at((#[trigger] candidates@[k]).0 as int))),
        decreases candidates.len() - i,
    {
        let villager = game_state.villager(&candidates[i]);
        if let VillagerStatus::Hidden { .. } = villager {
            has_hiddens = true;
            proof {
                assert(is_hidden(game_state.villager_at(candidates@[i as int].0 as int)));
            }
            break;
        } else if let VillagerStatus::Active { is_knight, .. } = villager {
            if is_knight {
                has_knights = true;
                proof {
                    assert(is_active_knight(game_state.villager_at(candidates@[i as int].0 as int)));
                }
            }
        }
        i = i + 1;
    }
    if has_hiddens {
        filter_by_status(game_state, &candidates, true)
    } else if has_knights {
        filter_by_status(game_state, &candidates, false)
    } else {
        candidates
    }
}

/// The candidates that are hidden (`hidden`) or active knights (`!hidden`).
fn filter_by_status(game_state: &GameState, candidates: &Vec<VillagerIndex>, hidden: bool) -> (result: Vec<VillagerIndex>)
    requires
        forall|k: int| 0 <= k < candidates@.len() ==> (#[trigger] candidates@[k]).0 < game_state.num_villagers(),
    ensures
        result@ == keep_where(candidates@, if hidden { hidden_in(*game_state) } else { knight_in(*game_state) }),
{
    let ghost keep = if hidden { hidden_in(*game_state) } else { knight_in(*game_state) };
    let mut result: Vec<VillagerIndex> = Vec::new();
    let mut i: usize = 0;
    while i < candidates.len()
        invariant
            i <= candidates@.len(),
            keep == (if hidden { hidden_in(*game_state) } else { knight_in(*game_state) }),
            forall|k: int| 0 <= k < candidates@.len() ==> (#[trigger] candidates@[k]).0 < game_state.num_villagers(),
            result@ == keep_where(candidates@.subrange(0, i as int), keep),
        decreases candidates.len() - i,
    {
        let index = candidates[i];
        let villager = game_state.villager(&index);
        let wanted = match villager {
            VillagerStatus::Hidden { .. } => hidden,
            VillagerStatus::Active { is_knight, .. } => !hidden && is_knight,
            VillagerStatus::Confirmed { .. } => false,
        };
        proof {
            let next = candidates@.subrange(0, i + 1);
            assert(next.drop_last() =~= candidates@.subrange(0, i as int));
            assert(next.last() == index);
            assert(wanted == keep(index));
        }
        if wanted {
            result.push(index);
        }
        i = i + 1;
    }
    proof {
        assert(candidates@.subrange(0, candidates@.len() as int) =~= candidates@);
    }
    result
}

/// One evil of a candidate layout: its seat, and whether its role acts at night.
#[derive(Debug, Clone, Copy, PartialEq, Eq, Structural)]
pub struct EvilPlacement {
    pub index: VillagerIndex,
    pub night_affect: bool,
}

/// Some evil of the layout acts at night.
pub open spec fn has_night_evil(b: Seq<EvilPlacement>) -> bool {
    exists|k: int| 0 <= k < b.len() && (#[trigger] b[k]).night_affect
}

/// The first evil of the layout that acts at night.
pub open spec fn first_night_evil(b: Seq<EvilPlacement>) -> VillagerIndex {
    b[choose|k: int|
        0 <= k < b.len() && (#[trigger] b[k]).night_affect && forall|m: int|
            0 <= m < k ==> !(#[trigger] b[m]).night_affect].index
}

/// The seats of the evils of a layout.
pub open spec fn layout_seats(b: Seq<EvilPlacement>) -> Set<VillagerIndex> {
    Set::new(|x: VillagerIndex| exists|k: int| 0 <= k < b.len() && (#[trigger] b[k]).index == x)
}

/// The seats of the first `m` evils of a layout.
pub open spec fn seats_upto(b: Seq<EvilPlacement>, m: int) -> Set<VillagerIndex> {
    Set::new(|x: VillagerIndex| exists|q: int| 0 <= q < m && (#[trigger] b[q]).index == x)
}

proof fn lemma_seats_upto_step(b: Seq<EvilPlacement>, m: int)
    requires
        0 <= m < b.len(),
    ensures
        seats_upto(b, m + 1) == seats_upto(b, m).insert(b[m].index),
{
    assert forall|x: VillagerIndex| #[trigger] seats_upto(b, m + 1).contains(x) <==> seats_upto(b, m).insert(b[m].index).contains(x) by {
        if seats_upto(b, m + 1).contains(x) {
            let q = choose|q: int| 0 <= q < m + 1 && (#[trigger] b[q]).index == x;
            if q < m {
                assert(seats_upto(b, m).contains(x));
            }
        }
        if seats_upto(b, m).contains(x) {
            let q = choose|q: int| 0 <= q < m && (#[trigger] b[q]).index == x;
            assert(0 <= q < m + 1 && b[q].index == x);
        }
    }
    assert(seats_upto(b, m + 1) =~= seats_upto(b, m).insert(b[m].index));
}

/// The seats to execute: going through the layouts in order, all evils of each
/// layout, until a layout with an evil that acts at night; of that layout only
/// its first such evil.
pub open spec fn kill_targets(boards: Seq<Vec<EvilPlacement>>) -> Set<VillagerIndex>
    decreases boards.len(),
{
    if boards.len() == 0 {
        Set::empty()
    } else if has_night_evil(boards[0]@) {
        set![first_night_evil(boards[0]@)]
    } else {
        layout_seats(boards[0]@).union(kill_targets(boards.drop_first()))
    }
}

/// Execution actions for the evils of the given layouts; an evil whose role acts
/// at night is executed first, alone.
pub fn kill_board_configs(board_configs: &Vec<Vec<EvilPlacement>>) -> (result: Vec<PlayerAction>)
    ensures
        result@.len() == 0 <==> kill_targets(board_configs@).len() == 0,
        forall|a: PlayerAction| #[trigger] result@.contains(a) <==> exists|x: VillagerIndex|
            kill_targets(board_configs@).contains(x) && a == PlayerAction::TryExecute(x),
        result@.no_duplicates(),
{
    let mut kills: Vec<VillagerIndex> = Vec::new();
    let mut i: usize = 0;
    let ghost total = kill_targets(board_configs@);
    proof {
        assert(board_configs@.subrange(0, board_configs@.len() as int) =~= board_configs@);
    }
    while i < board_configs.len()
        invariant
            i <= board_configs@.len(),
            total == kill_targets(board_configs@),
            kills@.no_duplicates(),
            total == kills@.to_set().union(kill_targets(board_configs@.subrange(i as int, board_configs@.len() as int))),
        decreases board_configs.len() - i,
    {
        let board_config = &board_configs[i];
        let ghost tail = board_configs@.subrange(i as int, board_configs@.len() as int);
        proof {
            assert(tail[0] == board_configs@[i as int]);
            assert(tail.drop_first() =~= board_configs@.subrange(i + 1, board_configs@.len() as int));
        }
        let mut k: usize = 0;
        while k < board_config.len()
            invariant
                i < board_configs@.len(),
                board_config == board_configs@[i as int],
                tail == board_configs@.subrange(i as int, board_configs@.len() as int),
                tail[0] == board_config,
                total == kill_targets(board_configs@),
                kills@.no_duplicates(),
                total == kills@.to_set().union(kill_targets(tail)),
                k <= board_config@.len(),
                forall|m: int| 0 <= m < k ==> !(#[trigger] board_config@[m]).night_affect,
            decreases board_config.len() - k,
        {
            if board_config[k].night_affect {
                let evil_index = board_config[k].index;
                proof {
                    let b = board_config@;
                    assert(has_night_evil(b));
                    let f = choose|f: int|
                        0 <= f < b.len() && (#[trigger] b[f]).night_affect && forall|m: int|
                            0 <= m < f ==> !(#[trigger] b[m]).night_affect;
                    if f < k {
                        assert(!b[f].night_affect);
                    }
                    if k < f {
                        assert(!b[k as int].night_affect);
                    }
                    assert(first_night_evil(b) == evil_index);
                    assert(kill_targets(tail) == set![evil_index]);
                }
                let ghost kills_before = kills@.to_set();
                insert_distinct(&mut kills, evil_index);
                proof {
                    assert(total == kills_before.union(set![evil_index]));
                    assert(kills@.to_set() =~= total);
                }
                return executions(&kills, Ghost(total));
            }
            k = k + 1;
        }
        proof {
            assert(!has_night_evil(board_config@));
        }
        let mut m: usize = 0;
        let ghost start = kills@.to_set();
        proof {
            assert(kills@.to_set() =~= start.union(seats_upto(board_config@, 0)));
        }
        while m < board_config.len()
            invariant
                i < board_configs@.len(),
                board_config == board_configs@[i as int],
                m <= board_config@.len(),
                kills@.no_duplicates(),
                kills@.to_set() == start.union(seats_upto(board_config@, m as int)),
            decreases board_config.len() - m,
        {
            let ghost before = kills@.to_set();
            insert_distinct(&mut kills, board_config[m].index);
            proof {
                lemma_seats_upto_step(board_config@, m as int);
                assert(kills@.to_set() =~= start.union(seats_upto(board_config@, m + 1)));
            }
            m = m + 1;
        }
        proof {
            assert(seats_upto(board_config@, board_config@.len() as int) =~= layout_seats(board_config@));
            assert(total =~= kills@.to_set().union(kill_targets(board_configs@.subrange(i + 1, board_configs@.len() as int))));
        }
        i = i + 1;
    }
    proof {
        let empty_tail = board_configs@.subrange(board_configs@.len() as int, board_configs@.len() as int);
        assert(empty_tail.len() == 0);
        assert(total =~= kills@.to_set());
    }
    executions(&kills, Ghost(total))
}

/// Appends `x` unless it is present.
fn insert_distinct(v: &mut Vec<VillagerIndex>, x: VillagerIndex)
    requires
        old(v)@.no_duplicates(),
    ensures
        final(v)@.no_duplicates(),
        final(v)@.to_set() == old(v)@.to_set().insert(x),
{
    let mut i: usize = 0;
    while i < v.len()
        invariant
            i <= v@.len(),
            v@.no_duplicates(),
            forall|k: int| 0 <= k < i ==> v@[k] != x,
        decreases v.len() - i,
    {
        if v[i] == x {
            proof {
                assert(v@.to_set().contains(x));
                assert(v@.to_set() =~= v@.to_set().insert(x));
            }
            return;
        }
        i = i + 1;
    }
    let ghost before = v@;
    v.push(x);
    proof {
        assert forall|y: VillagerIndex| #[trigger] v@.to_set().contains(y) <==> before.to_set().insert(x).contains(y) by {
            if v@.contains(y) {
                let k = choose|k: int| 0 <= k < v@.len() && v@[k] == y;
                if k < before.len() {
                    assert(before[k] == y);
                }
            }
            if before.contains(y) {
                let k = choose|k: int| 0 <= k < before.len() && before[k] == y;
                assert(v@[k] == y);
            }
            if y == x {
                assert(v@[before.len() as int] == y);
            }
        }
        assert(v@.to_set() =~= before.to_set().insert(x));
        assert forall|p: int, q: int| 0 <= p < v@.len() && 0 <= q < v@.len() && p != q implies v@[p] != v@[q] by {
            if p < before.len() && q < before.len() {
                assert(before[p] != before[q]);
            }
        }
    }
}

/// `TryExecute` for each seat of `kills`, in the same order.
fn executions(kills: &Vec<VillagerIndex>, Ghost(expected): Ghost<Set<VillagerIndex>>) -> (result: Vec<PlayerAction>)
    requires
        kills@.no_duplicates(),
        kills@.to_set() == expected,
    ensures
        result@.len() == 0 <==> expected.len() == 0,
        forall|a: PlayerAction| #[trigger] result@.contains(a) <==> exists|x: VillagerIndex|
            expected.contains(x) && a == PlayerAction::TryExecute(x),
        result@.no_duplicates(),
{
    let mut result: Vec<PlayerAction> = Vec::new();
    let mut i: usize = 0;
    while i < kills.len()
        invariant
            i <= kills@.len(),
            result@.len() == i,
            forall|k: int| 0 <= k < i ==> (#[trigger] result@[k]) == PlayerAction::TryExecute(kills@[k]),
        decreases kills.len() - i,
    {
        result.push(PlayerAction::TryExecute(kills[i]));
        i = i + 1;
    }
    proof {
        assert forall|a: PlayerAction| #[trigger] result@.contains(a) <==> exists|x: VillagerIndex|
            expected.contains(x) && a == PlayerAction::TryExecute(x) by {
            if result@.contains(a) {
                let k = choose|k: int| 0 <= k < result@.len() && result@[k] == a;
                assert(kills@.contains(kills@[k]));
                assert(expected.contains(kills@[k]));
            }
            if exists|x: VillagerIndex| expected.contains(x) && a == PlayerAction::TryExecute(x) {
                let x = choose|x: VillagerIndex| expected.contains(x) && a == PlayerAction::TryExecute(x);
                assert(kills@.to_set().contains(x));
                let k = choose|k: int| 0 <= k < kills@.len() && kills@[k] == x;
                assert(result@[k] == a);
            }
        }
        assert forall|p: int, q: int| 0 <= p < result@.len() && 0 <= q < result@.len() && p != q implies result@[p] != result@[q] by {
            assert(kills@[p] != kills@[q]);
        }
        if kills@.len() > 0 {
            assert(expected.contains(kills@[0]));
        }
        if expected.len() > 0 && kills@.len() == 0 {
            assert(kills@.to_set() =~= Set::<VillagerIndex>::empty());
        }
        kills@.unique_seq_to_set();
    }
    result
}

/// Execution actions for the seats most often evil across the matching layouts,
/// one per distinct seat.
pub fn execute_most_common(most_common_indices: &Vec<VillagerIndex>) -> (result: Vec<PlayerAction>)
    ensures
        result@.len() == 0 <==> most_common_indices@.len() == 0,
        forall|a: PlayerAction| #[trigger] result@.contains(a) <==> exists|x: VillagerIndex|
            most_common_indices@.contains(x) && a == PlayerAction::TryExecute(x),
        result@.no_duplicates(),
{
    let mut kills: Vec<VillagerIndex> = Vec::new();
    let mut i: usize = 0;
    while i < most_common_indices.len()
        invariant
            i <= most_common_indices@.len(),
            kills@.no_duplicates(),
            kills@.to_set() == most_common_indices@.subrange(0, i as int).to_set(),
        decreases most_common_indices.len() - i,
    {
        insert_distinct(&mut kills, most_common_indices[i]);
        proof {
            let sub = most_common_indices@.subrange(0, i + 1);
            assert(sub =~= most_common_indices@.subrange(0, i as int).push(most_common_indices@[i as int]));
            assert(sub.to_set() =~= most_common_indices@.subrange(0, i as int).to_set().insert(
                most_common_indices@[i as int],
            )) by {
                most_common_indices@.subrange(0, i as int).lemma_push_to_set_commute(most_common_indices@[i as int]);
            }
        }
        i = i + 1;
    }
    proof {
        assert(most_common_indices@.subrange(0, most_common_indices@.len() as int) =~= most_common_indices@);
        if most_common_indices@.len() > 0 {
            assert(most_common_indices@.to_set().contains(most_common_indices@[0]));
        }
        if most_common_indices@.len() == 0 {
            assert(most_common_indices@.to_set() =~= Set::<VillagerIndex>::empty());
        }
    }
    let result = executions(&kills, Ghost(most_common_indices@.to_set()));
    proof {
        assert forall|a: PlayerAction| #[trigger] result@.contains(a) <==> exists|x: VillagerIndex|
            most_common_indices@.contains(x) && a == PlayerAction::TryExecute(x) by {
            if result@.contains(a) {
                let x = choose|x: VillagerIndex| most_common_indices@.to_set().contains(x) && a == PlayerAction::TryExecute(x);
                assert(most_common_indices@.contains(x));
            }
            if exists|x: VillagerIndex| most_common_indices@.contains(x) && a == PlayerAction::TryExecute(x) {
                let x = choose|x: VillagerIndex| most_common_indices@.contains(x) && a == PlayerAction::TryExecute(x);
                assert(most_common_indices@.to_set().contains(x));
            }
        }
    }
    result
}

} // verus!
