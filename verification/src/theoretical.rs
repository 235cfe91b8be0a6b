use crate::optimized_expression::clone_is_exact;
use crate::player_action::AbilityAttempt;
use vstd::laws_eq::obeys_concrete_eq;
use vstd::prelude::*;

verus! {

/// A truth value for each of some testimonies (at most one value per testimony).
pub struct Assignment<K> {
    entries: Vec<(K, bool)>,
}

/// The map that a list of entries with distinct keys stands for.
pub open spec fn entries_map<K>(s: Seq<(K, bool)>) -> Map<K, bool>
    decreases s.len(),
{
    if s.len() == 0 {
        Map::empty()
    } else {
        entries_map(s.drop_last()).insert(s.last().0, s.last().1)
    }
}

pub open spec fn keys_distinct<K>(s: Seq<(K, bool)>) -> bool {
    forall|i: int, j: int| 0 <= i < j < s.len() ==> (#[trigger] s[i]).0 != (#[trigger] s[j]).0
}

proof fn lemma_entries_map_domain<K>(s: Seq<(K, bool)>, k: K)
    requires
        keys_distinct(s),
    ensures
        entries_map(s).dom().contains(k) <==> exists|i: int| 0 <= i < s.len() && (#[trigger] s[i]).0 == k,
        forall|i: int| 0 <= i < s.len() && (#[trigger] s[i]).0 == k ==> entries_map(s)[k] == s[i].1,
    decreases s.len(),
{
    if s.len() > 0 {
        let rest = s.drop_last();
        assert(keys_distinct(rest)) by {
            assert forall|i: int, j: int| 0 <= i < j < rest.len() implies (#[trigger] rest[i]).0 != (#[trigger] rest[j]).0 by {
                assert(rest[i] == s[i] && rest[j] == s[j]);
            }
        }
        lemma_entries_map_domain(rest, k);
        if entries_map(s).dom().contains(k) && s.last().0 != k {
            let i = choose|i: int| 0 <= i < rest.len() && (#[trigger] rest[i]).0 == k;
            assert(s[i] == rest[i]);
        }
        if exists|i: int| 0 <= i < s.len() && (#[trigger] s[i]).0 == k {
            let i = choose|i: int| 0 <= i < s.len() && (#[trigger] s[i]).0 == k;
            if i < rest.len() {
                assert(rest[i] == s[i]);
            }
        }
        assert forall|i: int| 0 <= i < s.len() && (#[trigger] s[i]).0 == k implies entries_map(s)[k] == s[i].1 by {
            if i < rest.len() {
                assert(rest[i] == s[i]);
                assert(s[i].0 != s[s.len() - 1].0);
            }
        }
    }
}

impl<K> Assignment<K> {
    #[verifier::type_invariant]
    spec fn well_formed(self) -> bool {
        keys_distinct(self.entries@)
    }

    /// The truth value given to each testimony.
    pub closed spec fn spec_map(self) -> Map<K, bool> {
        entries_map(self.entries@)
    }

    /// An assignment of no testimony.
    pub fn new() -> (result: Self)
        ensures
            result.spec_map() == Map::<K, bool>::empty(),
    {
        Assignment { entries: Vec::new() }
    }
}

impl<K: PartialEq + Clone> Assignment<K> {
    fn find(&self, key: &K) -> (result: Option<usize>)
        requires
            obeys_concrete_eq::<K>(),
        ensures
            match result {
                Some(i) => i < self.entries@.len() && self.entries@[i as int].0 == *key,
                None => forall|i: int| 0 <= i < self.entries@.len() ==> (#[trigger] self.entries@[i]).0 != *key,
            },
    {
        let mut i: usize = 0;
        while i < self.entries.len()
            invariant
                obeys_concrete_eq::<K>(),
                i <= self.entries@.len(),
                forall|m: int| 0 <= m < i ==> (#[trigger] self.entries@[m]).0 != *key,
            decreases self.entries.len() - i,
        {
            proof {
                reveal(obeys_concrete_eq);
            }
            if self.entries[i].0 == *key {
                return Some(i);
            }
            i = i + 1;
        }
        None
    }

    /// Whether the testimony has a truth value.
    pub fn contains_key(&self, key: &K) -> (result: bool)
        requires
            obeys_concrete_eq::<K>(),
        ensures
            result == self.spec_map().dom().contains(*key),
    {
        proof {
            use_type_invariant(self);
            lemma_entries_map_domain(self.entries@, *key);
        }
        self.find(key).is_some()
    }

    /// The truth value of the testimony, if it has one.
    pub fn get(&self, key: &K) -> (result: Option<bool>)
        requires
            obeys_concrete_eq::<K>(),
        ensures
            match result {
                Some(v) => self.spec_map().dom().contains(*key) && self.spec_map()[*key] == v,
                None => !self.spec_map().dom().contains(*key),
            },
    {
        proof {
            use_type_invariant(self);
            lemma_entries_map_domain(self.entries@, *key);
        }
        match self.find(key) {
            Some(i) => Some(self.entries[i].1),
            None => None,
        }
    }

    /// Gives the testimony the truth value `value`, replacing any it had.
    pub fn insert(&mut self, key: K, value: bool)
        requires
            obeys_concrete_eq::<K>(),
        ensures
            final(self).spec_map() == old(self).spec_map().insert(key, value),
    {
        proof {
            use_type_invariant(&*self);
        }
        let ghost before = self.entries@;
        match self.find(&key) {
            Some(i) => {
                let mut entries = self.take_entries();
                entries.set(i, (key, value));
                proof {
                    lemma_replace_entry(before, i as int, key, value);
                }
                self.entries = entries;
            },
            None => {
                let mut entries = self.take_entries();
                entries.push((key, value));
                proof {
                    assert(entries@.drop_last() =~= before);
                    assert forall|a: int, b: int| 0 <= a < b < entries@.len() implies (#[trigger] entries@[a]).0 != (#[trigger] entries@[b]).0 by {
                        if b < before.len() {
                            assert(before[a].0 != before[b].0);
                        } else {
                            assert(entries@[a] == before[a]);
                        }
                    }
                }
                self.entries = entries;
            },
        }
    }

    fn take_entries(&mut self) -> (result: Vec<(K, bool)>)
        ensures
            result@ == old(self).entries@,
            final(self).entries@.len() == 0,
    {
        let mut entries = Vec::new();
        std::mem::swap(&mut entries, &mut self.entries);
        entries
    }

    /// A copy of the assignment.
    pub fn duplicate(&self) -> (result: Self)
        requires
            clone_is_exact::<K>(),
        ensures
            result.spec_map() == self.spec_map(),
    {
        proof {
            use_type_invariant(self);
        }
        let mut entries: Vec<(K, bool)> = Vec::new();
        let mut i: usize = 0;
        while i < self.entries.len()
            invariant
                clone_is_exact::<K>(),
                i <= self.entries@.len(),
                entries@ == self.entries@.subrange(0, i as int),
            decreases self.entries.len() - i,
        {
            let key = self.entries[i].0.clone();
            entries.push((key, self.entries[i].1));
            i = i + 1;
            proof {
                assert(entries@ =~= self.entries@.subrange(0, i as int));
            }
        }
        proof {
            assert(entries@ =~= self.entries@);
        }
        Assignment { entries }
    }
}

/// Reading a testimony back after `insert` gives the value just written, and
/// every other testimony keeps the value it had (or stays without one).
pub proof fn lemma_insert_then_get<K>(
    before: Assignment<K>,
    after: Assignment<K>,
    key: K,
    value: bool,
    other: K,
)
    requires
        after.spec_map() == before.spec_map().insert(key, value),
    ensures
        after.spec_map().dom().contains(key),
        after.spec_map()[key] == value,
        other != key ==> (after.spec_map().dom().contains(other) <==> before.spec_map().dom().contains(
            other,
        )),
        other != key && before.spec_map().dom().contains(other) ==> after.spec_map()[other]
            == before.spec_map()[other],
{
}

proof fn lemma_replace_entry<K>(s: Seq<(K, bool)>, i: int, key: K, value: bool)
    requires
        keys_distinct(s),
        0 <= i < s.len(),
        s[i].0 == key,
    ensures
        keys_distinct(s.update(i, (key, value))),
        entries_map(s.update(i, (key, value))) == entries_map(s).insert(key, value),
{
    let t = s.update(i, (key, value));
    assert forall|a: int, b: int| 0 <= a < b < t.len() implies (#[trigger] t[a]).0 != (#[trigger] t[b]).0 by {
        assert(t[a].0 == s[a].0 && t[b].0 == s[b].0);
    }
    assert forall|k: K| #[trigger] entries_map(t).dom().contains(k) <==> entries_map(s).insert(key, value).dom().contains(k) by {
        lemma_entries_map_domain(s, k);
        lemma_entries_map_domain(t, k);
        if exists|m: int| 0 <= m < s.len() && (#[trigger] s[m]).0 == k {
            let m = choose|m: int| 0 <= m < s.len() && (#[trigger] s[m]).0 == k;
            assert(t[m].0 == k);
        }
        if exists|m: int| 0 <= m < t.len() && (#[trigger] t[m]).0 == k {
            let m = choose|m: int| 0 <= m < t.len() && (#[trigger] t[m]).0 == k;
            assert(s[m].0 == k);
        }
    }
    assert forall|k: K| #[trigger] entries_map(t).dom().contains(k) implies entries_map(t)[k] == entries_map(s).insert(key, value)[k] by {
        lemma_entries_map_domain(s, k);
        lemma_entries_map_domain(t, k);
        let m = choose|m: int| 0 <= m < t.len() && (#[trigger] t[m]).0 == k;
        if m == i {
            assert(t[m].1 == value);
        } else {
            assert(t[m] == s[m]);
            assert(k != key);
        }
    }
    assert(entries_map(t) =~= entries_map(s).insert(key, value));
}

/// The maps of a list of assignments.
pub open spec fn assignment_maps<K>(s: Seq<Assignment<K>>) -> Seq<Map<K, bool>> {
    s.map_values(|a: Assignment<K>| a.spec_map())
}

/// Makes room for a new testimony `t`: unless the first assignment already gives
/// `t` a value, each assignment is split into one where `t` holds (in its place)
/// and one where it does not (appended after all of them).
pub open spec fn expand_one<K>(maps: Seq<Map<K, bool>>, t: K) -> Seq<Map<K, bool>> {
    if maps[0].dom().contains(t) {
        maps
    } else {
        maps.map_values(|m: Map<K, bool>| m.insert(t, true)) + maps.map_values(
            |m: Map<K, bool>| m.insert(t, false),
        )
    }
}

/// `expand_one` for each testimony of `ts`, in order.
pub open spec fn expand_all<K>(maps: Seq<Map<K, bool>>, ts: Seq<K>) -> Seq<Map<K, bool>>
    decreases ts.len(),
{
    if ts.len() == 0 {
        maps
    } else {
        expand_all(expand_one(maps, ts[0]), ts.drop_first())
    }
}

proof fn lemma_expand_len<K>(maps: Seq<Map<K, bool>>, ts: Seq<K>)
    requires
        maps.len() > 0,
    ensures
        expand_all(maps, ts).len() >= maps.len(),
    decreases ts.len(),
{
    if ts.len() > 0 {
        lemma_expand_len(expand_one(maps, ts[0]), ts.drop_first());
    }
}

/// Extends satisfying assignments with testimonies that an ability would newly
/// produce: each testimony that the first assignment does not cover yet doubles
/// the assignments, once with the testimony true and once false.
pub fn expand_assignments<K: PartialEq + Clone>(
    satisfying_assignments: &Vec<Assignment<K>>,
    generated_testimonies: &Vec<K>,
) -> (result: Vec<Assignment<K>>)
    requires
        obeys_concrete_eq::<K>(),
        clone_is_exact::<K>(),
        satisfying_assignments@.len() > 0,
        expand_all(assignment_maps(satisfying_assignments@), generated_testimonies@).len() <= usize::MAX,
    ensures
        assignment_maps(result@) == expand_all(assignment_maps(satisfying_assignments@), generated_testimonies@),
{
    let ghost goal = expand_all(assignment_maps(satisfying_assignments@), generated_testimonies@);
    let mut potential_assignments: Vec<Assignment<K>> = Vec::new();
    let mut i: usize = 0;
    while i < satisfying_assignments.len()
        invariant
            clone_is_exact::<K>(),
            i <= satisfying_assignments@.len(),
            potential_assignments@.len() == i,
            assignment_maps(potential_assignments@) == assignment_maps(satisfying_assignments@.subrange(0, i as int)),
        decreases satisfying_assignments.len() - i,
    {
        let ghost before = potential_assignments@;
        potential_assignments.push(satisfying_assignments[i].duplicate());
        proof {
            let sub = satisfying_assignments@.subrange(0, i + 1);
            assert forall|m: int| 0 <= m < i + 1 implies #[trigger] potential_assignments@[m].spec_map() == sub[m].spec_map() by {
                if m < i {
                    assert(potential_assignments@[m] == before[m]);
                    assert(assignment_maps(before)[m] == assignment_maps(satisfying_assignments@.subrange(0, i as int))[m]);
                }
            }
            assert(assignment_maps(potential_assignments@) =~= assignment_maps(sub));
        }
        i = i + 1;
    }
    proof {
        assert(satisfying_assignments@.subrange(0, satisfying_assignments@.len() as int) =~= satisfying_assignments@);
        assert(generated_testimonies@.subrange(0, generated_testimonies@.len() as int) =~= generated_testimonies@);
    }
    let mut g: usize = 0;
    while g < generated_testimonies.len()
        invariant
            obeys_concrete_eq::<K>(),
            clone_is_exact::<K>(),
            g <= generated_testimonies@.len(),
            potential_assignments@.len() > 0,
            goal == expand_all(assignment_maps(satisfying_assignments@), generated_testimonies@),
            goal == expand_all(assignment_maps(potential_assignments@), generated_testimonies@.subrange(g as int, generated_testimonies@.len() as int)),
            goal.len() <= usize::MAX,
        decreases generated_testimonies.len() - g,
    {
        let generated_testimony = &generated_testimonies[g];
        let ghost maps = assignment_maps(potential_assignments@);
        let ghost rest = generated_testimonies@.subrange(g as int, generated_testimonies@.len() as int);
        proof {
            assert(rest[0] == *generated_testimony);
            assert(rest.drop_first() =~= generated_testimonies@.subrange(g + 1, generated_testimonies@.len() as int));
            assert(maps[0] == potential_assignments@[0].spec_map());
            lemma_expand_len(expand_one(maps, *generated_testimony), rest.drop_first());
        }
        if !potential_assignments[0].contains_key(generated_testimony) {
            let initial_length = potential_assignments.len();
            proof {
                assert(expand_one(maps, *generated_testimony).len() == 2 * initial_length);
            }
            let mut k: usize = 0;
            while k < initial_length
                invariant
                    obeys_concrete_eq::<K>(),
                    clone_is_exact::<K>(),
                    k <= initial_length,
                    initial_length == maps.len(),
                    2 * initial_length <= usize::MAX,
                    potential_assignments@.len() == initial_length + k,
                    forall|m: int| 0 <= m < k ==> (#[trigger] potential_assignments@[m]).spec_map() == maps[m].insert(*generated_testimony, true),
                    forall|m: int| k <= m < initial_length ==> (#[trigger] potential_assignments@[m]).spec_map() == maps[m],
                    forall|m: int| initial_length <= m < initial_length + k ==> (#[trigger] potential_assignments@[m]).spec_map() == maps[m - initial_length].insert(*generated_testimony, false),
                decreases initial_length - k,
            {
                let mut assignment = potential_assignments[k].duplicate();
                let mut cloned_assignment = potential_assignments[k].duplicate();
                assignment.insert(generated_testimony.clone(), true);
                cloned_assignment.insert(generated_testimony.clone(), false);
                let ghost before = potential_assignments@;
                potential_assignments.set(k, assignment);
                potential_assignments.push(cloned_assignment);
                proof {
                    assert forall|m: int| 0 <= m < k + 1 implies (#[trigger] potential_assignments@[m]).spec_map() == maps[m].insert(*generated_testimony, true) by {
                        if m < k {
                            assert(potential_assignments@[m] == before[m]);
                        }
                    }
                    assert forall|m: int| k + 1 <= m < initial_length implies (#[trigger] potential_assignments@[m]).spec_map() == maps[m] by {
                        assert(potential_assignments@[m] == before[m]);
                    }
                    assert forall|m: int| initial_length <= m < initial_length + k + 1 implies (#[trigger] potential_assignments@[m]).spec_map() == maps[m - initial_length].insert(*generated_testimony, false) by {
                        if m < initial_length + k {
                            assert(potential_assignments@[m] == before[m]);
                        }
                    }
                }
                k = k + 1;
            }
            proof {
                assert(assignment_maps(potential_assignments@) =~= expand_one(maps, *generated_testimony));
            }
        }
        g = g + 1;
    }
    proof {
        let empty = generated_testimonies@.subrange(generated_testimonies@.len() as int, generated_testimonies@.len() as int);
        assert(empty.len() == 0);
    }
    potential_assignments
}

/// A candidate layout of the board together with the testimony assignments that
/// are consistent with it.
pub struct LayoutWithTestimonyAssigments<L, K> {
    pub layout: L,
    pub satisfying_assignments: Vec<Assignment<K>>,
}

/// The layouts an ability use could lead to from one original layout.
pub struct PostAbilityBoardMutation<O, L, K> {
    pub original_layout: O,
    pub potential_layouts: Vec<LayoutWithTestimonyAssigments<L, K>>,
}

/// For each ability use, the layouts it could lead to, grouped by original layout.
pub struct AbilityPrediction<O, L, K> {
    pub attempt_predictions: Vec<(AbilityAttempt, Vec<PostAbilityBoardMutation<O, L, K>>)>,
}

/// Two attempts are the same use of an ability.
pub open spec fn same_attempt(a: AbilityAttempt, b: AbilityAttempt) -> bool {
    a.spec_source() == b.spec_source() && a.spec_targets() == b.spec_targets()
}

impl<O, L, K> PostAbilityBoardMutation<O, L, K> {
    pub open spec fn spec_layouts(self) -> Seq<LayoutWithTestimonyAssigments<L, K>> {
        self.potential_layouts@
    }
}

/// `after` is `before` with `layout` recorded for `attempt` from `original`:
/// appended to the mutation of `original` under `attempt`, which is created
/// (after the existing ones) when missing; the entry for `attempt` is created at
/// the end when missing. Everything else is unchanged.
pub open spec fn recorded<O, L, K>(
    before: Seq<(AbilityAttempt, Vec<PostAbilityBoardMutation<O, L, K>>)>,
    after: Seq<(AbilityAttempt, Vec<PostAbilityBoardMutation<O, L, K>>)>,
    attempt: AbilityAttempt,
    original: O,
    layout: LayoutWithTestimonyAssigments<L, K>,
) -> bool {
    match first_attempt(before, attempt) {
        Some(a) => {
            let mutations = before[a].1@;
            &&& after.len() == before.len()
            &&& forall|b: int| 0 <= b < before.len() && b != a ==> #[trigger] after[b] == before[b]
            &&& after[a].0 == before[a].0
            &&& match first_mutation(mutations, original) {
                Some(m) => {
                    &&& after[a].1@.len() == mutations.len()
                    &&& forall|q: int| 0 <= q < mutations.len() && q != m ==> #[trigger] after[a].1@[q] == mutations[q]
                    &&& after[a].1@[m].original_layout == mutations[m].original_layout
                    &&& after[a].1@[m].spec_layouts() == mutations[m].spec_layouts().push(layout)
                },
                None => {
                    &&& after[a].1@.len() == mutations.len() + 1
                    &&& forall|q: int| 0 <= q < mutations.len() ==> #[trigger] after[a].1@[q] == mutations[q]
                    &&& after[a].1@[mutations.len() as int].original_layout == original
                    &&& after[a].1@[mutations.len() as int].spec_layouts() == seq![layout]
                },
            }
        },
        None => {
            &&& after.len() == before.len() + 1
            &&& forall|b: int| 0 <= b < before.len() ==> #[trigger] after[b] == before[b]
            &&& after.last().0 == attempt
            &&& after.last().1@.len() == 1
            &&& after.last().1@[0].original_layout == original
            &&& after.last().1@[0].spec_layouts() == seq![layout]
        },
    }
}

impl<O: PartialEq + Clone, L, K> AbilityPrediction<O, L, K> {
    /// An empty prediction.
    pub fn new() -> (result: Self)
        ensures
            result.attempt_predictions@.len() == 0,
    {
        AbilityPrediction { attempt_predictions: Vec::new() }
    }

    /// Records that `attempt`, from `original_layout`, could lead to `theoretical_layout`:
    /// appended to the mutation of that original layout under that attempt, which
    /// is created (after the existing ones) when missing.
    pub fn record(
        &mut self,
        attempt: AbilityAttempt,
        original_layout: &O,
        theoretical_layout: LayoutWithTestimonyAssigments<L, K>,
    )
        requires
            obeys_concrete_eq::<O>(),
            clone_is_exact::<O>(),
        ensures
            recorded(
                old(self).attempt_predictions@,
                final(self).attempt_predictions@,
                attempt,
                *original_layout,
                theoretical_layout,
            ),
    {
        let mut a: usize = 0;
        while a < self.attempt_predictions.len()
            invariant
                a <= self.attempt_predictions@.len(),
                forall|b: int| 0 <= b < a ==> !same_attempt((#[trigger] self.attempt_predictions@[b]).0, attempt),
            ensures
                a <= self.attempt_predictions@.len(),
                forall|b: int| 0 <= b < a ==> !same_attempt((#[trigger] self.attempt_predictions@[b]).0, attempt),
                a < self.attempt_predictions@.len() ==> same_attempt(self.attempt_predictions@[a as int].0, attempt),
            decreases self.attempt_predictions.len() - a,
        {
            if self.attempt_predictions[a].0.same_attempt(&attempt) {
                break;
            }
            a = a + 1;
        }
        let ghost before = self.attempt_predictions@;
        if a < self.attempt_predictions.len() {
            proof {
                assert(first_attempt(before, attempt) == Some(a as int)) by {
                    lemma_first_attempt(before, attempt, a as int);
                }
            }
            let mut entries = take_predictions(self);
            let (existing_attempt, mut mutations) = entries.remove(a);
            let ghost old_mutations = mutations@;
            let mut m: usize = 0;
            while m < mutations.len()
                invariant
                    obeys_concrete_eq::<O>(),
                    m <= mutations@.len(),
                    forall|q: int| 0 <= q < m ==> (#[trigger] mutations@[q]).original_layout != *original_layout,
                ensures
                    m <= mutations@.len(),
                    forall|q: int| 0 <= q < m ==> (#[trigger] mutations@[q]).original_layout != *original_layout,
                    m < mutations@.len() ==> mutations@[m as int].original_layout == *original_layout,
                decreases mutations.len() - m,
            {
                proof {
                    reveal(obeys_concrete_eq);
                }
                if mutations[m].original_layout == *original_layout {
                    break;
                }
                m = m + 1;
            }
            if m < mutations.len() {
                proof {
                    lemma_first_mutation(old_mutations, *original_layout, m as int);
                }
                let mut mutation = mutations.remove(m);
                mutation.potential_layouts.push(theoretical_layout);
                mutations.insert(m, mutation);
                proof {
                    assert forall|q: int| 0 <= q < old_mutations.len() && q != m implies #[trigger] mutations@[q] == old_mutations[q] by {}
                }
            } else {
                proof {
                    lemma_first_mutation_none(old_mutations, *original_layout);
                }
                let mut potential_layouts = Vec::new();
                potential_layouts.push(theoretical_layout);
                mutations.push(PostAbilityBoardMutation { original_layout: original_layout.clone(), potential_layouts });
            }
            entries.insert(a, (existing_attempt, mutations));
            self.attempt_predictions = entries;
            proof {
                assert forall|b: int| 0 <= b < before.len() && b != a implies #[trigger] self.attempt_predictions@[b] == before[b] by {}
            }
        } else {
            proof {
                lemma_first_attempt_none(before, attempt);
            }
            let mut potential_layouts = Vec::new();
            potential_layouts.push(theoretical_layout);
            let mut mutations = Vec::new();
            mutations.push(PostAbilityBoardMutation { original_layout: original_layout.clone(), potential_layouts });
            self.attempt_predictions.push((attempt, mutations));
        }
    }
}

fn take_predictions<O, L, K>(p: &mut AbilityPrediction<O, L, K>) -> (result: Vec<(AbilityAttempt, Vec<PostAbilityBoardMutation<O, L, K>>)>)
    ensures
        result@ == old(p).attempt_predictions@,
{
    let mut entries = Vec::new();
    std::mem::swap(&mut entries, &mut p.attempt_predictions);
    entries
}

/// The position of the first entry for `attempt`.
pub open spec fn first_attempt<O, L, K>(
    s: Seq<(AbilityAttempt, Vec<PostAbilityBoardMutation<O, L, K>>)>,
    attempt: AbilityAttempt,
) -> Option<int> {
    if exists|a: int| 0 <= a < s.len() && same_attempt((#[trigger] s[a]).0, attempt) {
        Some(
            choose|a: int|
                0 <= a < s.len() && same_attempt((#[trigger] s[a]).0, attempt) && forall|b: int|
                    0 <= b < a ==> !same_attempt((#[trigger] s[b]).0, attempt),
        )
    } else {
        None
    }
}

/// The position of the first mutation of `layout`.
pub open spec fn first_mutation<O, L, K>(s: Seq<PostAbilityBoardMutation<O, L, K>>, layout: O) -> Option<int> {
    if exists|m: int| 0 <= m < s.len() && (#[trigger] s[m]).original_layout == layout {
        Some(
            choose|m: int|
                0 <= m < s.len() && (#[trigger] s[m]).original_layout == layout && forall|q: int|
                    0 <= q < m ==> (#[trigger] s[q]).original_layout != layout,
        )
    } else {
        None
    }
}

proof fn lemma_first_attempt<O, L, K>(
    s: Seq<(AbilityAttempt, Vec<PostAbilityBoardMutation<O, L, K>>)>,
    attempt: AbilityAttempt,
    a: int,
)
    requires
        0 <= a < s.len(),
        same_attempt(s[a].0, attempt),
        forall|b: int| 0 <= b < a ==> !same_attempt((#[trigger] s[b]).0, attempt),
    ensures
        first_attempt(s, attempt) == Some(a),
{
    let c = choose|c: int|
        0 <= c < s.len() && same_attempt((#[trigger] s[c]).0, attempt) && forall|b: int|
            0 <= b < c ==> !same_attempt((#[trigger] s[b]).0, attempt);
    if c < a {
        assert(!same_attempt(s[c].0, attempt));
    }
    if a < c {
        assert(!same_attempt(s[a].0, attempt));
    }
}

proof fn lemma_first_attempt_none<O, L, K>(
    s: Seq<(AbilityAttempt, Vec<PostAbilityBoardMutation<O, L, K>>)>,
    attempt: AbilityAttempt,
)
    requires
        forall|b: int| 0 <= b < s.len() ==> !same_attempt((#[trigger] s[b]).0, attempt),
    ensures
        first_attempt(s, attempt) is None,
{
}

proof fn lemma_first_mutation<O, L, K>(s: Seq<PostAbilityBoardMutation<O, L, K>>, layout: O, m: int)
    requires
        0 <= m < s.len(),
        s[m].original_layout == layout,
        forall|q: int| 0 <= q < m ==> (#[trigger] s[q]).original_layout != layout,
    ensures
        first_mutation(s, layout) == Some(m),
{
    let c = choose|c: int|
        0 <= c < s.len() && (#[trigger] s[c]).original_layout == layout && forall|q: int|
            0 <= q < c ==> (#[trigger] s[q]).original_layout != layout;
    if c < m {
        assert(s[c].original_layout != layout);
    }
    if m < c {
        assert(s[m].original_layout != layout);
    }
}

proof fn lemma_first_mutation_none<O, L, K>(s: Seq<PostAbilityBoardMutation<O, L, K>>, layout: O)
    requires
        forall|q: int| 0 <= q < s.len() ==> (#[trigger] s[q]).original_layout != layout,
    ensures
        first_mutation(s, layout) is None,
{
}

} // verus!
