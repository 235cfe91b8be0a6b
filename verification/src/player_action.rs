use crate::villager::VillagerIndex;
use vstd::prelude::*;

verus! {

/// The use of one villager's ability on a set of targets.
///
/// The targets are kept in increasing seat order without repetition, so two
/// attempts on the same set of targets are stored alike.
#[derive(Debug, Hash)]
pub struct AbilityAttempt {
    source: VillagerIndex,
    targets: Vec<VillagerIndex>,
}

/// An action the player can take.
#[derive(Debug, Clone, Hash)]
pub enum PlayerAction {
    TryReveal(VillagerIndex),
    TryExecute(VillagerIndex),
    Ability(AbilityAttempt),
}

/// The seats of `s` strictly increase.
pub open spec fn strictly_increasing(s: Seq<VillagerIndex>) -> bool {
    forall|i: int, j: int| 0 <= i < j < s.len() ==> (#[trigger] s[i]).0 < (#[trigger] s[j]).0
}

impl AbilityAttempt {
    #[verifier::type_invariant]
    spec fn targets_sorted(self) -> bool {
        strictly_increasing(self.targets@)
    }

    pub closed spec fn spec_source(self) -> VillagerIndex {
        self.source
    }

    /// The targets, in increasing seat order.
    pub closed spec fn spec_targets(self) -> Seq<VillagerIndex> {
        self.targets@
    }

    /// The set of targets.
    pub open spec fn target_set(self) -> Set<VillagerIndex> {
        self.spec_targets().to_set()
    }

    /// An attempt by `source` on the set of `targets` (repetitions count once).
    pub fn new(source: VillagerIndex, targets: Vec<VillagerIndex>) -> (result: Self)
        ensures
            result.spec_source() == source,
            result.target_set() == targets@.to_set(),
            strictly_increasing(result.spec_targets()),
    {
        let mut sorted: Vec<VillagerIndex> = Vec::new();
        let mut i: usize = 0;
        while i < targets.len()
            invariant
                i <= targets.len(),
                strictly_increasing(sorted@),
                forall|x: VillagerIndex|
                    sorted@.contains(x) <==> #[trigger] targets@.subrange(0, i as int).contains(x),
            decreases targets.len() - i,
        {
            let ghost before = sorted@;
            insert_sorted(&mut sorted, targets[i]);
            proof {
                assert forall|x: VillagerIndex|
                    sorted@.contains(x) <==> #[trigger] targets@.subrange(0, i + 1).contains(x) by {
                    let prefix = targets@.subrange(0, i as int);
                    let next_prefix = targets@.subrange(0, i + 1);
                    assert(next_prefix =~= prefix.push(targets@[i as int]));
                    if prefix.contains(x) {
                        let k = choose|k: int| 0 <= k < prefix.len() && prefix[k] == x;
                        assert(next_prefix[k] == x);
                    }
                    if next_prefix.contains(x) && x != targets@[i as int] {
                        let k = choose|k: int| 0 <= k < next_prefix.len() && next_prefix[k] == x;
                        assert(prefix[k] == x);
                    }
                    if x == targets@[i as int] {
                        assert(next_prefix[i as int] == x);
                    }
                }
            }
            i = i + 1;
        }
        proof {
            assert(targets@.subrange(0, targets@.len() as int) =~= targets@);
            assert(sorted@.to_set() =~= targets@.to_set());
        }
        AbilityAttempt { source, targets: sorted }
    }

    /// The villager whose ability is used.
    pub fn source(&self) -> (result: &VillagerIndex)
        ensures
            *result == self.spec_source(),
    {
        &self.source
    }

    /// The targets, in increasing seat order.
    pub fn targets(&self) -> (result: &[VillagerIndex])
        ensures
            result@ == self.spec_targets(),
            strictly_increasing(result@),
    {
        proof {
            use_type_invariant(self);
        }
        self.targets.as_slice()
    }

    /// A copy of this attempt.
    pub fn duplicate(&self) -> (result: Self)
        ensures
            result.spec_source() == self.spec_source(),
            result.spec_targets() == self.spec_targets(),
    {
        proof {
            use_type_invariant(self);
        }
        let mut targets: Vec<VillagerIndex> = Vec::new();
        let mut i: usize = 0;
        while i < self.targets.len()
            invariant
                i <= self.targets@.len(),
                targets@ == self.targets@.subrange(0, i as int),
            decreases self.targets@.len() - i,
        {
            targets.push(self.targets[i]);
            assert(targets@ =~= self.targets@.subrange(0, i + 1));
            i = i + 1;
        }
        assert(targets@ =~= self.targets@);
        AbilityAttempt { source: self.source, targets }
    }

    /// Whether the two attempts have the same source and the same set of targets.
    pub fn same_attempt(&self, other: &Self) -> (result: bool)
        ensures
            result == (self.spec_source() == other.spec_source() && self.spec_targets()
                == other.spec_targets()),
            result == (self.spec_source() == other.spec_source() && self.target_set()
                == other.target_set()),
    {
        proof {
            use_type_invariant(self);
            use_type_invariant(other);
            assert(strictly_increasing(self.targets@));
            assert(strictly_increasing(other.targets@));
        }
        if self.source != other.source || self.targets.len() != other.targets.len() {
            proof {
                if self.targets@.len() != other.targets@.len() && self.target_set() == other.target_set() {
                    lemma_increasing_unique(self.targets@, other.targets@);
                }
            }
            return false;
        }
        let mut i: usize = 0;
        while i < self.targets.len()
            invariant
                self.targets@.len() == other.targets@.len(),
                strictly_increasing(self.targets@),
                strictly_increasing(other.targets@),
                self.source == other.source,
                i <= self.targets@.len(),
                forall|k: int| 0 <= k < i ==> self.targets@[k] == other.targets@[k],
            decreases self.targets.len() - i,
        {
            if self.targets[i] != other.targets[i] {
                proof {
                    if self.target_set() == other.target_set() {
                        lemma_increasing_unique(self.targets@, other.targets@);
                    }
                }
                return false;
            }
            i = i + 1;
        }
        proof {
            assert(self.targets@ =~= other.targets@);
        }
        true
    }
}

/// Inserts `x` into a strictly increasing sequence, unless it is there already.
fn insert_sorted(v: &mut Vec<VillagerIndex>, x: VillagerIndex)
    requires
        strictly_increasing(old(v)@),
    ensures
        strictly_increasing(final(v)@),
        forall|y: VillagerIndex| #[trigger]
            final(v)@.contains(y) <==> (old(v)@.contains(y) || y == x),
{
    let mut p: usize = 0;
    while p < v.len() && v[p].0 < x.0
        invariant
            p <= v@.len(),
            forall|k: int| 0 <= k < p ==> (#[trigger] v@[k]).0 < x.0,
        decreases v.len() - p,
    {
        p = p + 1;
    }
    if p < v.len() && v[p].0 == x.0 {
        proof {
            assert(v@[p as int] == x);
        }
        return;
    }
    let ghost before = v@;
    v.insert(p, x);
    proof {
        assert(v@ == before.insert(p as int, x));
        assert forall|i: int, j: int| 0 <= i < j < v@.len() implies (#[trigger] v@[i]).0 < (
        #[trigger] v@[j]).0 by {
            if j < p {
                assert(v@[i] == before[i] && v@[j] == before[j]);
            } else if j == p {
                assert(v@[i] == before[i]);
            } else if i < p {
                assert(v@[i] == before[i] && v@[j] == before[j - 1]);
                assert(before[j - 1].0 >= x.0);
            } else if i == p {
                assert(v@[j] == before[j - 1]);
                if j - 1 > p {
                    assert(before[p as int].0 < before[j - 1].0);
                }
            } else {
                assert(v@[i] == before[i - 1] && v@[j] == before[j - 1]);
            }
        }
        assert forall|y: VillagerIndex| #[trigger] v@.contains(y) <==> (before.contains(y) || y == x) by {
            if before.contains(y) {
                let k = choose|k: int| 0 <= k < before.len() && before[k] == y;
                if k < p {
                    assert(v@[k] == y);
                } else {
                    assert(v@[k + 1] == y);
                }
            }
            if y == x {
                assert(v@[p as int] == y);
            }
            if v@.contains(y) {
                let k = choose|k: int| 0 <= k < v@.len() && v@[k] == y;
                if k < p {
                    assert(before[k] == y);
                } else if k > p {
                    assert(before[k - 1] == y);
                }
            }
        }
    }
}

/// Two strictly increasing sequences with the same elements are equal.
pub proof fn lemma_increasing_unique(a: Seq<VillagerIndex>, b: Seq<VillagerIndex>)
    requires
        strictly_increasing(a),
        strictly_increasing(b),
        a.to_set() == b.to_set(),
    ensures
        a == b,
    decreases a.len(),
{
    assert forall|x: VillagerIndex| a.contains(x) <==> b.contains(x) by {
        assert(a.to_set().contains(x) == a.contains(x));
        assert(b.to_set().contains(x) == b.contains(x));
    }
    if a.len() == 0 {
        if b.len() > 0 {
            assert(b.contains(b[0]));
        }
        assert(a =~= b);
    } else {
        assert(a.contains(a[0]));
        assert(b.len() > 0);
        assert(b.contains(b[0]));
        let ka = choose|k: int| 0 <= k < a.len() && a[k] == b[0];
        let kb = choose|k: int| 0 <= k < b.len() && b[k] == a[0];
        if ka > 0 {
            assert(a[0].0 < a[ka].0);
        }
        if kb > 0 {
            assert(b[0].0 < b[kb].0);
        }
        assert(a[0] == b[0]);
        let a1 = a.drop_first();
        let b1 = b.drop_first();
        assert forall|x: VillagerIndex| a1.contains(x) <==> b1.contains(x) by {
            if a1.contains(x) {
                let k = choose|k: int| 0 <= k < a1.len() && a1[k] == x;
                assert(a[k + 1] == x);
                assert(a[0].0 < x.0);
                assert(b.contains(x));
                let m = choose|m: int| 0 <= m < b.len() && b[m] == x;
                assert(m != 0);
                assert(b1[m - 1] == x);
            }
            if b1.contains(x) {
                let k = choose|k: int| 0 <= k < b1.len() && b1[k] == x;
                assert(b[k + 1] == x);
                assert(b[0].0 < x.0);
                assert(a.contains(x));
                let m = choose|m: int| 0 <= m < a.len() && a[m] == x;
                assert(m != 0);
                assert(a1[m - 1] == x);
            }
        }
        assert(a1.to_set() =~= b1.to_set());
        lemma_increasing_unique(a1, b1);
        assert(a =~= seq![a[0]] + a1);
        assert(b =~= seq![b[0]] + b1);
        assert(a =~= b);
    }
}

impl Clone for AbilityAttempt {
    fn clone(&self) -> (result: Self)
        ensures
            result.spec_source() == self.spec_source(),
            result.spec_targets() == self.spec_targets(),
    {
        proof {
            use_type_invariant(self);
        }
        let mut targets: Vec<VillagerIndex> = Vec::new();
        let mut i: usize = 0;
        while i < self.targets.len()
            invariant
                i <= self.targets@.len(),
                targets@ == self.targets@.subrange(0, i as int),
            decreases self.targets.len() - i,
        {
            targets.push(self.targets[i]);
            i = i + 1;
            proof {
                assert(targets@ =~= self.targets@.subrange(0, i as int));
            }
        }
        proof {
            assert(targets@ =~= self.targets@);
        }
        AbilityAttempt { source: self.source, targets }
    }
}

impl PartialEq for AbilityAttempt {
    fn eq(&self, other: &Self) -> (result: bool) {
        self.same_attempt(other)
    }
}

impl vstd::std_specs::cmp::PartialEqSpecImpl for AbilityAttempt {
    open spec fn obeys_eq_spec() -> bool {
        true
    }

    open spec fn eq_spec(&self, other: &AbilityAttempt) -> bool {
        self.spec_source() == other.spec_source() && self.spec_targets() == other.spec_targets()
    }
}

impl Eq for AbilityAttempt {

}

impl PartialEq for PlayerAction {
    fn eq(&self, other: &Self) -> (result: bool) {
        match (self, other) {
            (PlayerAction::TryReveal(a), PlayerAction::TryReveal(b)) => a.0 == b.0,
            (PlayerAction::TryExecute(a), PlayerAction::TryExecute(b)) => a.0 == b.0,
            (PlayerAction::Ability(a), PlayerAction::Ability(b)) => a.same_attempt(b),
            _ => false,
        }
    }
}

impl vstd::std_specs::cmp::PartialEqSpecImpl for PlayerAction {
    open spec fn obeys_eq_spec() -> bool {
        true
    }

    open spec fn eq_spec(&self, other: &PlayerAction) -> bool {
        match (self, other) {
            (PlayerAction::TryReveal(a), PlayerAction::TryReveal(b)) => a == b,
            (PlayerAction::TryExecute(a), PlayerAction::TryExecute(b)) => a == b,
            (PlayerAction::Ability(a), PlayerAction::Ability(b)) => a.spec_source() == b.spec_source()
                && a.spec_targets() == b.spec_targets(),
            _ => false,
        }
    }
}

impl Eq for PlayerAction {

}

} // verus!
