use crate::villager::VillagerIndex;
use vstd::laws_eq::obeys_concrete_eq;
use vstd::prelude::*;

verus! {

/// A role of the game. The roles that the deduction treats specially are named;
/// the others are told apart by their side and a number.
#[derive(Debug, Clone, Copy, PartialEq, Eq, Structural, Hash)]
pub enum Role {
    Knight,
    Judge,
    Slayer,
    FortuneTeller,
    Jester,
    Wretch,
    Bombardier,
    PlagueDoctor,
    Villager(u32),
    Outcast(u32),
    Minion(u32),
    Demon(u32),
}

/// Minions and demons are evil.
pub open spec fn role_is_evil(role: Role) -> bool {
    role is Minion || role is Demon
}

/// Wretches, bombardiers, plague doctors and the other outcasts.
pub open spec fn role_is_outcast(role: Role) -> bool {
    role is Wretch || role is Bombardier || role is PlagueDoctor || role is Outcast
}

impl Role {
    /// Whether the role is on the evil side.
    pub fn is_evil(&self) -> (result: bool)
        ensures
            result == role_is_evil(*self),
    {
        match self {
            Role::Minion(_) | Role::Demon(_) => true,
            _ => false,
        }
    }

    /// Whether the role is an outcast.
    pub fn is_outcast(&self) -> (result: bool)
        ensures
            result == role_is_outcast(*self),
    {
        match self {
            Role::Wretch | Role::Bombardier | Role::PlagueDoctor | Role::Outcast(_) => true,
            _ => false,
        }
    }

    /// Whether the role is a minion.
    pub fn is_minion(&self) -> (result: bool)
        ensures
            result == (*self is Minion),
    {
        match self {
            Role::Minion(_) => true,
            _ => false,
        }
    }
}

/// What a confessor says of itself.
#[derive(Debug, Clone, Copy, PartialEq, Eq, Structural, Hash)]
pub enum ConfessorClaim {
    Good,
    Dizzy,
}

/// Where an enlightened villager says the nearest evil sits.
#[derive(Debug, Clone, Copy, PartialEq, Eq, Structural, Hash)]
pub enum Direction {
    Clockwise,
    CounterClockwise,
    Equidistant,
}

/// One claim of a villager.
#[derive(Debug, Clone, Copy, Hash)]
pub enum Testimony {
    /// The villager is good.
    Good(VillagerIndex),
    /// The villager is evil.
    Evil(VillagerIndex),
    /// The villager is corrupted.
    Corrupt(VillagerIndex),
    /// The villager lies.
    Lying(VillagerIndex),
    /// The villager was corrupted and is cured now.
    Cured(VillagerIndex),
    /// The speaker was baked from the given role (or was not baked).
    Baker { was: Option<Role> },
    /// The villager truly has the role.
    Role { index: VillagerIndex, role: Role },
    /// The villager is an honest knight.
    Invincible(VillagerIndex),
    /// The villager was affected in the given way.
    Affected { index: VillagerIndex, affect: u32 },
    /// The villager is a wretch.
    FakeEvil(VillagerIndex),
    /// The villager is a bombardier.
    SelfDestruct(VillagerIndex),
    /// The speaker tried to slay the villager, and whether it died.
    Slayed { index: VillagerIndex, slayed: bool },
    /// What the speaker confesses of itself.
    Confess(ConfessorClaim),
    /// The nearest evil to the villager with the role sits at the distance.
    Scout { evil_role: Role, distance: usize },
    /// Where the nearest evil to the speaker sits.
    Enlightened(Direction),
    /// The number of neighbouring pairs of evils.
    Knitter { pairs: usize },
    /// The distance of the nearest corrupted villager, or none is corrupted.
    Bard(Option<usize>),
    /// Whether one of the two villagers is evil.
    FortuneTeller { first: VillagerIndex, second: VillagerIndex, evil: bool },
    /// Which outcast is among the three villagers, or none of them is an outcast.
    Druid {
        outcast: Option<Role>,
        first: VillagerIndex,
        second: VillagerIndex,
        third: VillagerIndex,
    },
}

/// A claim together with the seat of the villager that made it.
#[derive(Debug, Clone, Copy, Hash)]
pub struct IndexTestimony {
    pub index: VillagerIndex,
    pub testimony: Testimony,
}

fn same_role_option(a: &Option<Role>, b: &Option<Role>) -> (result: bool)
    ensures
        result == (*a == *b),
{
    match (a, b) {
        (Some(x), Some(y)) => x == y,
        (None, None) => true,
        _ => false,
    }
}

fn same_distance_option(a: &Option<usize>, b: &Option<usize>) -> (result: bool)
    ensures
        result == (*a == *b),
{
    match (a, b) {
        (Some(x), Some(y)) => x == y,
        (None, None) => true,
        _ => false,
    }
}

impl PartialEq for Testimony {
    fn eq(&self, other: &Self) -> (result: bool) {
        match (self, other) {
            (Testimony::Good(a), Testimony::Good(b)) => a == b,
            (Testimony::Evil(a), Testimony::Evil(b)) => a == b,
            (Testimony::Corrupt(a), Testimony::Corrupt(b)) => a == b,
            (Testimony::Lying(a), Testimony::Lying(b)) => a == b,
            (Testimony::Cured(a), Testimony::Cured(b)) => a == b,
            (Testimony::Baker { was: a }, Testimony::Baker { was: b }) => same_role_option(a, b),
            (
                Testimony::Role { index: i1, role: r1 },
                Testimony::Role { index: i2, role: r2 },
            ) => i1 == i2 && r1 == r2,
            (Testimony::Invincible(a), Testimony::Invincible(b)) => a == b,
            (
                Testimony::Affected { index: i1, affect: a1 },
                Testimony::Affected { index: i2, affect: a2 },
            ) => i1 == i2 && a1 == a2,
            (Testimony::FakeEvil(a), Testimony::FakeEvil(b)) => a == b,
            (Testimony::SelfDestruct(a), Testimony::SelfDestruct(b)) => a == b,
            (
                Testimony::Slayed { index: i1, slayed: s1 },
                Testimony::Slayed { index: i2, slayed: s2 },
            ) => i1 == i2 && s1 == s2,
            (Testimony::Confess(a), Testimony::Confess(b)) => a == b,
            (
                Testimony::Scout { evil_role: r1, distance: d1 },
                Testimony::Scout { evil_role: r2, distance: d2 },
            ) => r1 == r2 && d1 == d2,
            (Testimony::Enlightened(a), Testimony::Enlightened(b)) => a == b,
            (Testimony::Knitter { pairs: a }, Testimony::Knitter { pairs: b }) => a == b,
            (Testimony::Bard(a), Testimony::Bard(b)) => same_distance_option(a, b),
            (
                Testimony::FortuneTeller { first: f1, second: s1, evil: e1 },
                Testimony::FortuneTeller { first: f2, second: s2, evil: e2 },
            ) => f1 == f2 && s1 == s2 && e1 == e2,
            (
                Testimony::Druid { outcast: o1, first: f1, second: s1, third: t1 },
                Testimony::Druid { outcast: o2, first: f2, second: s2, third: t2 },
            ) => same_role_option(o1, o2) && f1 == f2 && s1 == s2 && t1 == t2,
            _ => false,
        }
    }
}

impl vstd::std_specs::cmp::PartialEqSpecImpl for Testimony {
    open spec fn obeys_eq_spec() -> bool {
        true
    }

    open spec fn eq_spec(&self, other: &Self) -> bool {
        *self == *other
    }
}

impl PartialEq for IndexTestimony {
    fn eq(&self, other: &Self) -> (result: bool) {
        self.index == other.index && self.testimony == other.testimony
    }
}

impl vstd::std_specs::cmp::PartialEqSpecImpl for IndexTestimony {
    open spec fn obeys_eq_spec() -> bool {
        true
    }

    open spec fn eq_spec(&self, other: &Self) -> bool {
        *self == *other
    }
}

/// `==` on testimonies compares them field by field.
pub proof fn lemma_testimony_eq()
    ensures
        obeys_concrete_eq::<Testimony>(),
        obeys_concrete_eq::<IndexTestimony>(),
{
    reveal(obeys_concrete_eq);
}

/// Whether a claim condemns a defendant.
#[derive(Debug, Clone, Copy, PartialEq, Eq, Structural)]
pub enum Condemns {
    No,
    Yes,
    IfDefendantNotCorrupt,
}

/// Whether claim `testimony` of the villager at `testifier` condemns the villager
/// at `defendant`: a claim that it is evil or has an evil role does; a claim that
/// it lies, or a dizzy confession of the testifier about itself, does unless the
/// defendant is corrupted; no other claim does.
pub open spec fn condemnation(testimony: Testimony, defendant: VillagerIndex, testifier: VillagerIndex) -> Condemns {
    match testimony {
        Testimony::Confess(ConfessorClaim::Dizzy) => if defendant == testifier {
            Condemns::IfDefendantNotCorrupt
        } else {
            Condemns::No
        },
        Testimony::Evil(v) => if defendant == v {
            Condemns::Yes
        } else {
            Condemns::No
        },
        Testimony::Lying(v) => if defendant == v {
            Condemns::IfDefendantNotCorrupt
        } else {
            Condemns::No
        },
        Testimony::Role { index, role } => if role_is_evil(role) && index == defendant {
            Condemns::Yes
        } else {
            Condemns::No
        },
        _ => Condemns::No,
    }
}

/// Whether claim `testimony` of the villager at `testifier` exonerates the
/// villager at `defendant`: a good confession of the testifier about itself, a
/// claim that the defendant has a good role, and a claim that the defendant is
/// good, corrupted or an honest knight do; no other claim does.
pub open spec fn exoneration(testimony: Testimony, defendant: VillagerIndex, testifier: VillagerIndex) -> bool {
    match testimony {
        Testimony::Confess(ConfessorClaim::Good) => defendant == testifier,
        Testimony::Role { index, role } => !role_is_evil(role) && index == defendant,
        Testimony::Invincible(v) | Testimony::Good(v) | Testimony::Corrupt(v) => v == defendant,
        _ => false,
    }
}

/// Whether the claim condemns the defendant.
pub fn condemns(testimony: &Testimony, defendant: &VillagerIndex, testifier: &VillagerIndex) -> (result: Condemns)
    ensures
        result == condemnation(*testimony, *defendant, *testifier),
{
    match testimony {
        Testimony::Confess(confession) => {
            if defendant == testifier {
                match confession {
                    ConfessorClaim::Good => Condemns::No,
                    ConfessorClaim::Dizzy => Condemns::IfDefendantNotCorrupt,
                }
            } else {
                Condemns::No
            }
        },
        Testimony::Evil(villager_index) => {
            if defendant == villager_index {
                Condemns::Yes
            } else {
                Condemns::No
            }
        },
        Testimony::Lying(villager_index) => {
            if defendant == villager_index {
                Condemns::IfDefendantNotCorrupt
            } else {
                Condemns::No
            }
        },
        Testimony::Role { index, role } => {
            if role.is_evil() && index == defendant {
                Condemns::Yes
            } else {
                Condemns::No
            }
        },
        _ => Condemns::No,
    }
}

/// Whether the claim exonerates the defendant.
pub fn exonerates(testimony: &Testimony, defendant: &VillagerIndex, testifier: &VillagerIndex) -> (result: bool)
    ensures
        result == exoneration(*testimony, *defendant, *testifier),
{
    match testimony {
        Testimony::Confess(confession) => {
            if defendant == testifier {
                match confession {
                    ConfessorClaim::Good => true,
                    ConfessorClaim::Dizzy => false,
                }
            } else {
                false
            }
        },
        Testimony::Role { index, role } => !role.is_evil() && index == defendant,
        Testimony::Invincible(v) | Testimony::Good(v) | Testimony::Corrupt(v) => v == defendant,
        _ => false,
    }
}

} // verus!
