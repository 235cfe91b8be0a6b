use crate::expression::{assignment_applies, Expression};
use crate::optimized_expression::OptimizedExpression;
use crate::theoretical::Assignment;
use crate::testimony::{
    lemma_testimony_eq, role_is_evil, role_is_outcast, ConfessorClaim, Direction, IndexTestimony,
    Role, Testimony,
};
use crate::villager::VillagerIndex;
use vstd::prelude::*;

verus! {

/// One seat of a possible board: its true role and what follows from it.
#[derive(Debug)]
pub struct TheoreticalVillager {
    /// The true role.
    pub identity: Role,
    /// The role the villager shows.
    pub archetype: Role,
    /// Whether the villager has been revealed.
    pub revealed: bool,
    /// Whether the villager has been killed on this board.
    pub actually_dead: bool,
    /// Whether the true role reads as evil.
    pub appears_evil: bool,
    /// Whether the villager is corrupted.
    pub corrupted: bool,
    /// Whether the villager lies.
    pub will_lie: bool,
    /// Whether the villager was corrupted before.
    pub was_corrupt: bool,
    /// The role the villager was baked from, if any.
    pub baked_from: Option<Role>,
    /// How the villager was affected, if at all.
    pub affection: Option<u32>,
    /// A hidden seat assumed good whose role is not known.
    pub unknown_unrevealed_good: bool,
    /// The full testimony of the villager, if it gave one.
    pub testimony: Option<Expression<Testimony>>,
}

/// Cloning a testimony gives it back unchanged.
pub proof fn lemma_testimony_clone_exact()
    ensures
        crate::optimized_expression::clone_is_exact::<Testimony>(),
        crate::optimized_expression::clone_is_exact::<IndexTestimony>(),
{
}

impl Clone for TheoreticalVillager {
    fn clone(&self) -> (result: Self)
        ensures
            result == *self,
    {
        proof {
            lemma_testimony_clone_exact();
        }
        let testimony = match &self.testimony {
            Some(e) => Some(e.clone()),
            None => None,
        };
        TheoreticalVillager {
            identity: self.identity,
            archetype: self.archetype,
            revealed: self.revealed,
            actually_dead: self.actually_dead,
            appears_evil: self.appears_evil,
            corrupted: self.corrupted,
            will_lie: self.will_lie,
            was_corrupt: self.was_corrupt,
            baked_from: self.baked_from,
            affection: self.affection,
            unknown_unrevealed_good: self.unknown_unrevealed_good,
            testimony,
        }
    }
}

/// A possible board: a theoretical villager for every seat.
pub struct BoardLayout {
    pub villagers: Vec<TheoreticalVillager>,
}

/// The seat `offset` places away from `index` around a table of `total` seats,
/// clockwise (towards higher seats) or counterclockwise.
pub open spec fn ring_offset(index: int, total: int, offset: int, clockwise: bool) -> int {
    if clockwise {
        (index + offset) % total
    } else {
        (index - offset) % total
    }
}

/// The seat `offset` places away from `index`.
pub fn index_offset(index: VillagerIndex, total: usize, offset: usize, clockwise: bool) -> (result:
    VillagerIndex)
    requires
        index.0 < total,
    ensures
        result.0 == ring_offset(index.0 as int, total as int, offset as int, clockwise),
        result.0 < total,
{
    let r = offset % total;
    let i = index.0;
    proof {
        let (ii, t, o, rr) = (i as int, total as int, offset as int, r as int);
        vstd::arithmetic::div_mod::lemma_add_mod_noop_right(ii, o, t);
        vstd::arithmetic::div_mod::lemma_sub_mod_noop_right(ii, o, t);
        vstd::arithmetic::div_mod::lemma_mod_sub_multiples_vanish(ii + rr, t);
        vstd::arithmetic::div_mod::lemma_mod_add_multiples_vanish(ii - rr, t);
        if ii + rr >= t {
            vstd::arithmetic::div_mod::lemma_small_mod((ii + rr - t) as nat, t as nat);
        } else {
            vstd::arithmetic::div_mod::lemma_small_mod((ii + rr) as nat, t as nat);
        }
        if ii >= rr {
            vstd::arithmetic::div_mod::lemma_small_mod((ii - rr) as nat, t as nat);
        } else {
            vstd::arithmetic::div_mod::lemma_small_mod((t + ii - rr) as nat, t as nat);
        }
    }
    if clockwise {
        if i >= total - r {
            VillagerIndex(i - (total - r))
        } else {
            VillagerIndex(i + r)
        }
    } else {
        if i >= r {
            VillagerIndex(i - r)
        } else {
            VillagerIndex(i + (total - r))
        }
    }
}

/// Going `offset` seats clockwise and then `offset` seats counterclockwise comes
/// back to the starting seat, and the other way round.
pub proof fn lemma_offset_round_trip(index: int, total: int, offset: int)
    requires
        0 <= index < total,
    ensures
        ring_offset(ring_offset(index, total, offset, true), total, offset, false) == index,
        ring_offset(ring_offset(index, total, offset, false), total, offset, true) == index,
{
    let cw = (index + offset) % total;
    let ccw = (index - offset) % total;
    vstd::arithmetic::div_mod::lemma_small_mod(index as nat, total as nat);
    assert((cw - offset) % total == index % total) by {
        vstd::arithmetic::div_mod::lemma_sub_mod_noop(index + offset, offset, total);
        vstd::arithmetic::div_mod::lemma_sub_mod_noop(cw, offset, total);
        vstd::arithmetic::div_mod::lemma_mod_twice(index + offset, total);
    }
    assert((ccw + offset) % total == index % total) by {
        vstd::arithmetic::div_mod::lemma_add_mod_noop(index - offset, offset, total);
        vstd::arithmetic::div_mod::lemma_add_mod_noop(ccw, offset, total);
        vstd::arithmetic::div_mod::lemma_mod_twice(index - offset, total);
    }
}

/// A hidden seat assumed good, of unknown role, is read as the claim's
/// truthfulness when `condition` holds; every other seat as `input`.
pub open spec fn read_as(t: TheoreticalVillager, input: bool, condition: bool, truthful: bool) -> bool {
    if t.unknown_unrevealed_good && condition {
        truthful
    } else {
        input
    }
}

/// How a seat reads to a scout looking `i` places away, when the claimed distance
/// is `distance`.
pub open spec fn scout_reads_evil(t: TheoreticalVillager, i: int, distance: int, truthful: bool) -> bool {
    if t.unknown_unrevealed_good {
        (i == distance) == truthful
    } else {
        t.appears_evil
    }
}

/// A scout looking `i` places away from seat `target` sees an evil on one side.
pub open spec fn scout_hit(
    b: Seq<TheoreticalVillager>,
    target: int,
    i: int,
    distance: int,
    truthful: bool,
) -> bool {
    let n = b.len() as int;
    scout_reads_evil(b[ring_offset(target, n, i, true)], i, distance, truthful) || scout_reads_evil(
        b[ring_offset(target, n, i, false)],
        i,
        distance,
        truthful,
    )
}

/// The nearest evil a scout sees from seat `target` sits exactly `distance` away.
pub open spec fn scout_nearest_is(
    b: Seq<TheoreticalVillager>,
    target: int,
    distance: int,
    truthful: bool,
) -> bool {
    &&& 1 <= distance
    &&& scout_hit(b, target, distance, distance, truthful)
    &&& forall|j: int| 1 <= j < distance ==> !#[trigger] scout_hit(b, target, j, distance, truthful)
}

/// The seats of `b` whose true role is `role`.
pub open spec fn seat_has_role(b: Seq<TheoreticalVillager>, seat: int, role: Role) -> bool {
    0 <= seat < b.len() && b[seat].identity == role
}

/// The scout's look from the seat with the role ends within the machine's counting range.
pub open spec fn scout_well_defined(b: Seq<TheoreticalVillager>, role: Role, distance: int, truthful: bool) -> bool {
    &&& forall|s1: int, s2: int| #[trigger] seat_has_role(b, s1, role) && #[trigger] seat_has_role(b, s2, role) ==> s1 == s2
    &&& forall|t: int| #[trigger] seat_has_role(b, t, role) ==> exists|w: int|
        1 <= w <= usize::MAX && #[trigger] scout_hit(b, t, w, distance, truthful)
}

/// Whether an enlightened villager at `speaker`, looking `i` places away in both
/// directions, reads an evil clockwise and counterclockwise.
pub open spec fn enlightened_reading(
    b: Seq<TheoreticalVillager>,
    speaker: int,
    i: int,
    direction: Direction,
    truthful: bool,
) -> (bool, bool) {
    let n = b.len() as int;
    let cw = b[ring_offset(speaker, n, i, true)];
    let ccw = b[ring_offset(speaker, n, i, false)];
    let cw_evil = if cw.unknown_unrevealed_good {
        (direction == Direction::Clockwise) == truthful
    } else {
        cw.appears_evil
    };
    let ccw_evil = if ccw.unknown_unrevealed_good {
        (direction == Direction::CounterClockwise) == truthful
    } else {
        ccw.appears_evil
    };
    if (cw_evil || cw.unknown_unrevealed_good) && (ccw_evil || ccw.unknown_unrevealed_good)
        && direction == Direction::Equidistant && truthful {
        (true, true)
    } else {
        (cw_evil, ccw_evil)
    }
}

/// The direction a reading points to, if it found an evil.
pub open spec fn reading_direction(r: (bool, bool)) -> Option<Direction> {
    match r {
        (true, true) => Some(Direction::Equidistant),
        (true, false) => Some(Direction::Clockwise),
        (false, true) => Some(Direction::CounterClockwise),
        (false, false) => None,
    }
}

/// The reading `i` places away is the first that finds an evil.
pub open spec fn enlightened_first(
    b: Seq<TheoreticalVillager>,
    speaker: int,
    i: int,
    direction: Direction,
    truthful: bool,
) -> bool {
    &&& 1 <= i
    &&& reading_direction(enlightened_reading(b, speaker, i, direction, truthful)) is Some
    &&& forall|j: int| 1 <= j < i ==> reading_direction(
        #[trigger] enlightened_reading(b, speaker, j, direction, truthful),
    ) is None
}

/// The enlightened villager finds an evil within the machine's counting range.
pub open spec fn enlightened_well_defined(
    b: Seq<TheoreticalVillager>,
    speaker: int,
    direction: Direction,
    truthful: bool,
) -> bool {
    exists|w: int|
        1 <= w <= usize::MAX && reading_direction(
            #[trigger] enlightened_reading(b, speaker, w, direction, truthful),
        ) is Some
}

/// The seat to the clockwise side of `i`.
pub open spec fn next_seat(n: int, i: int) -> int {
    if i == n - 1 {
        0
    } else {
        i + 1
    }
}

/// Seats `i` and its clockwise neighbour both read as evil.
pub open spec fn definite_pair(b: Seq<TheoreticalVillager>, i: int) -> bool {
    b[i].appears_evil && b[next_seat(b.len() as int, i)].appears_evil
}

/// Seats `i` and its clockwise neighbour could both be evil, but not both surely are.
pub open spec fn possible_pair(b: Seq<TheoreticalVillager>, i: int) -> bool {
    let j = next_seat(b.len() as int, i);
    &&& !definite_pair(b, i)
    &&& b[i].unknown_unrevealed_good || b[i].appears_evil
    &&& b[j].unknown_unrevealed_good || b[j].appears_evil
}

/// Number of seats below `k` that start a definite pair.
pub open spec fn definite_pairs(b: Seq<TheoreticalVillager>, k: int) -> nat
    decreases k,
{
    if k <= 0 {
        0
    } else {
        definite_pairs(b, k - 1) + if definite_pair(b, k - 1) {
            1nat
        } else {
            0nat
        }
    }
}

/// Number of seats below `k` that start a possible pair.
pub open spec fn possible_pairs(b: Seq<TheoreticalVillager>, k: int) -> nat
    decreases k,
{
    if k <= 0 {
        0
    } else {
        possible_pairs(b, k - 1) + if possible_pair(b, k - 1) {
            1nat
        } else {
            0nat
        }
    }
}

/// A bard at `speaker` sees a corrupted villager `i` places away.
pub open spec fn bard_hit(b: Seq<TheoreticalVillager>, speaker: int, i: int) -> bool {
    let n = b.len() as int;
    b[ring_offset(speaker, n, i, true)].corrupted || b[ring_offset(speaker, n, i, false)].corrupted
}

/// Whether claim `t` of the villager at `speaker` holds on board `b`, when the
/// claim is taken as `truthful` and the given roles are in play.
#[verifier::opaque]
pub open spec fn testimony_holds(
    b: Seq<TheoreticalVillager>,
    speaker: int,
    t: Testimony,
    truthful: bool,
    wretch_in_play: bool,
    drunk_in_play: bool,
    knight_in_play: bool,
    bombardier_in_play: bool,
) -> bool {
    match t {
        Testimony::Good(v) => read_as(b[v.0 as int], !role_is_evil(b[v.0 as int].identity), wretch_in_play, truthful),
        Testimony::Evil(v) => read_as(b[v.0 as int], b[v.0 as int].appears_evil, wretch_in_play, truthful),
        Testimony::Corrupt(v) => b[v.0 as int].corrupted,
        Testimony::Lying(v) => read_as(b[v.0 as int], b[v.0 as int].will_lie, drunk_in_play, truthful),
        Testimony::Cured(v) => b[v.0 as int].was_corrupt && !b[v.0 as int].corrupted,
        Testimony::Baker { was } => b[speaker].baked_from == was,
        Testimony::Role { index, role } => {
            let x = b[index.0 as int];
            read_as(
                x,
                x.identity == role || (role is Minion && x.appears_evil && !role_is_evil(x.identity)),
                !role_is_evil(role),
                truthful,
            )
        },
        Testimony::Invincible(v) => {
            let x = b[v.0 as int];
            read_as(x, x.identity == Role::Knight && !x.will_lie, knight_in_play, truthful)
        },
        Testimony::Affected { index, affect } => b[index.0 as int].affection == Some(affect),
        Testimony::FakeEvil(v) => read_as(b[v.0 as int], b[v.0 as int].identity == Role::Wretch, wretch_in_play, truthful),
        Testimony::SelfDestruct(v) => read_as(
            b[v.0 as int],
            b[v.0 as int].identity == Role::Bombardier,
            bombardier_in_play,
            truthful,
        ),
        Testimony::Slayed { index, slayed } => {
            let x = b[index.0 as int];
            slayed || read_as(x, !x.appears_evil, true, truthful) || b[speaker].corrupted
        },
        Testimony::Confess(claim) => {
            let x = b[speaker];
            match claim {
                ConfessorClaim::Good => !x.corrupted && !role_is_evil(x.identity),
                ConfessorClaim::Dizzy => x.corrupted || role_is_evil(x.identity),
            }
        },
        Testimony::Scout { evil_role, distance } => exists|target: int|
            #[trigger] seat_has_role(b, target, evil_role) && scout_nearest_is(b, target, distance as int, truthful),
        Testimony::Enlightened(direction) => exists|i: int|
            #[trigger] enlightened_first(b, speaker, i, direction, truthful) && reading_direction(
                enlightened_reading(b, speaker, i, direction, truthful),
            ) == Some(direction),
        Testimony::Knitter { pairs } => {
            let n = b.len() as int;
            definite_pairs(b, n) <= pairs && definite_pairs(b, n) + possible_pairs(b, n) >= pairs
        },
        Testimony::Bard(distance) => match distance {
            Some(d) => 1 <= d && bard_hit(b, speaker, d as int) && forall|j: int|
                1 <= j < d ==> !#[trigger] bard_hit(b, speaker, j),
            None => forall|s: int| 0 <= s < b.len() ==> !(#[trigger] b[s]).corrupted,
        },
        Testimony::FortuneTeller { first, second, evil } => {
            let x = b[first.0 as int];
            let y = b[second.0 as int];
            let c1 = read_as(x, x.appears_evil, true, truthful);
            let c2 = read_as(y, y.appears_evil, true, truthful);
            if evil {
                c1 || c2
            } else {
                !c1 && !c2
            }
        },
        Testimony::Druid { outcast, first, second, third } => {
            let seats = seq![first.0 as int, second.0 as int, third.0 as int];
            match outcast {
                Some(o) => exists|k: int| 0 <= k < 3 && read_as(b[#[trigger] seats[k]], b[seats[k]].identity == o, true, truthful),
                None => forall|k: int| 0 <= k < 3 ==> !role_is_outcast(b[#[trigger] seats[k]].identity),
            }
        },
    }
}

/// Every seat that claim `t` of the villager at `speaker` names lies on the board,
/// and the searches it starts end.
#[verifier::opaque]
pub open spec fn testimony_well_defined(b: Seq<TheoreticalVillager>, speaker: int, t: Testimony, truthful: bool) -> bool {
    let n = b.len();
    match t {
        Testimony::Good(v) | Testimony::Evil(v) | Testimony::Corrupt(v) | Testimony::Lying(v)
        | Testimony::Cured(v) | Testimony::Invincible(v) | Testimony::FakeEvil(v)
        | Testimony::SelfDestruct(v) => v.0 < n,
        Testimony::Role { index, .. } | Testimony::Affected { index, .. } | Testimony::Slayed {
            index,
            ..
        } => index.0 < n,
        Testimony::Scout { evil_role, distance } => scout_well_defined(b, evil_role, distance as int, truthful),
        Testimony::Enlightened(direction) => enlightened_well_defined(b, speaker, direction, truthful),
        Testimony::FortuneTeller { first, second, .. } => first.0 < n && second.0 < n,
        Testimony::Druid { first, second, third, .. } => first.0 < n && second.0 < n && third.0 < n,
        _ => true,
    }
}

fn read_villager(t: &TheoreticalVillager, input: bool, condition: bool, truthful: bool) -> (result: bool)
    ensures
        result == read_as(*t, input, condition, truthful),
{
    if t.unknown_unrevealed_good && condition {
        truthful
    } else {
        input
    }
}

fn scout_reads(t: &TheoreticalVillager, i: usize, distance: usize, truthful: bool) -> (result: bool)
    ensures
        result == scout_reads_evil(*t, i as int, distance as int, truthful),
{
    if t.unknown_unrevealed_good {
        (i == distance) == truthful
    } else {
        t.appears_evil
    }
}

/// Whether the nearest evil that a scout sees from the seat with `evil_role`
/// sits `distance` away (false when no seat has the role).
fn scout_holds(b: &Vec<TheoreticalVillager>, evil_role: Role, distance: usize, truthful: bool) -> (result: bool)
    requires
        scout_well_defined(b@, evil_role, distance as int, truthful),
    ensures
        result == exists|target: int|
            #[trigger] seat_has_role(b@, target, evil_role) && scout_nearest_is(b@, target, distance as int, truthful),
{
    let n = b.len();
    let mut t: usize = 0;
    while t < n
        invariant
            t <= n,
            n == b@.len(),
            forall|s: int| 0 <= s < t ==> !#[trigger] seat_has_role(b@, s, evil_role),
        ensures
            t <= n,
            t < n ==> b@[t as int].identity == evil_role,
            forall|s: int| 0 <= s < t ==> !#[trigger] seat_has_role(b@, s, evil_role),
        decreases n - t,
    {
        if b[t].identity == evil_role {
            break;
        }
        t = t + 1;
    }
    if t == n {
        return false;
    }
    assert(seat_has_role(b@, t as int, evil_role));
    let ghost w: int = choose|w: int| 1 <= w <= usize::MAX && #[trigger] scout_hit(b@, t as int, w, distance as int, truthful);
    let target = VillagerIndex(t);
    let mut i: usize = 1;
    loop
        invariant
            1 <= i <= w <= usize::MAX,
            n == b@.len(),
            t < n,
            target.0 == t,
            seat_has_role(b@, t as int, evil_role),
            scout_well_defined(b@, evil_role, distance as int, truthful),
            scout_hit(b@, t as int, w, distance as int, truthful),
            forall|j: int| 1 <= j < i ==> !#[trigger] scout_hit(b@, t as int, j, distance as int, truthful),
        decreases w - i,
    {
        let cw = index_offset(target, n, i, true);
        let ccw = index_offset(target, n, i, false);
        let hit = scout_reads(&b[cw.0], i, distance, truthful) || scout_reads(&b[ccw.0], i, distance, truthful);
        assert(hit == scout_hit(b@, t as int, i as int, distance as int, truthful));
        if hit {
            proof {
                assert forall|x: int| #[trigger] seat_has_role(b@, x, evil_role) implies x == t by {}
                if i == distance {
                    assert(scout_nearest_is(b@, t as int, distance as int, truthful));
                } else {
                    assert forall|x: int| #[trigger] seat_has_role(b@, x, evil_role) implies !scout_nearest_is(b@, x, distance as int, truthful) by {
                        if distance >= 1 && distance < i {
                            assert(!scout_hit(b@, t as int, distance as int, distance as int, truthful));
                        }
                    }
                }
            }
            return i == distance;
        }
        i = i + 1;
    }
}

/// Whether the first evil that an enlightened villager at `speaker` finds lies in
/// the claimed `direction`.
fn enlightened_holds(
    b: &Vec<TheoreticalVillager>,
    speaker: VillagerIndex,
    direction: Direction,
    truthful: bool,
) -> (result: bool)
    requires
        speaker.0 < b@.len(),
        enlightened_well_defined(b@, speaker.0 as int, direction, truthful),
    ensures
        result == exists|i: int|
            #[trigger] enlightened_first(b@, speaker.0 as int, i, direction, truthful) && reading_direction(
                enlightened_reading(b@, speaker.0 as int, i, direction, truthful),
            ) == Some(direction),
{
    let n = b.len();
    let ghost sp = speaker.0 as int;
    let ghost w: int = choose|w: int|
        1 <= w <= usize::MAX && reading_direction(
            #[trigger] enlightened_reading(b@, sp, w, direction, truthful),
        ) is Some;
    let mut i: usize = 1;
    loop
        invariant
            1 <= i <= w <= usize::MAX,
            n == b@.len(),
            speaker.0 < n,
            sp == speaker.0,
            reading_direction(enlightened_reading(b@, sp, w, direction, truthful)) is Some,
            forall|j: int| 1 <= j < i ==> reading_direction(
                #[trigger] enlightened_reading(b@, sp, j, direction, truthful),
            ) is None,
        decreases w - i,
    {
        let cw = index_offset(speaker, n, i, true);
        let ccw = index_offset(speaker, n, i, false);
        let cw_villager = &b[cw.0];
        let ccw_villager = &b[ccw.0];
        let found_cw = cw_villager.unknown_unrevealed_good;
        let found_ccw = ccw_villager.unknown_unrevealed_good;
        let mut cw_evil = if found_cw {
            (direction == Direction::Clockwise) == truthful
        } else {
            cw_villager.appears_evil
        };
        let mut ccw_evil = if found_ccw {
            (direction == Direction::CounterClockwise) == truthful
        } else {
            ccw_villager.appears_evil
        };
        if (cw_evil || found_cw) && (ccw_evil || found_ccw) && direction == Direction::Equidistant
            && truthful {
            cw_evil = true;
            ccw_evil = true;
        }
        assert((cw_evil, ccw_evil) == enlightened_reading(b@, sp, i as int, direction, truthful));
        if cw_evil || ccw_evil {
            let expected = if cw_evil && ccw_evil {
                Direction::Equidistant
            } else if cw_evil {
                Direction::Clockwise
            } else {
                Direction::CounterClockwise
            };
            proof {
                assert(enlightened_first(b@, sp, i as int, direction, truthful));
                assert forall|x: int| #[trigger] enlightened_first(b@, sp, x, direction, truthful) implies x == i by {
                    if x < i {
                        assert(reading_direction(enlightened_reading(b@, sp, x, direction, truthful)) is None);
                    }
                    if x > i {
                        assert(reading_direction(enlightened_reading(b@, sp, i as int, direction, truthful)) is None);
                    }
                }
            }
            return direction == expected;
        }
        i = i + 1;
    }
}

/// Whether the claimed number of neighbouring evil pairs is possible on the board.
fn knitter_holds(b: &Vec<TheoreticalVillager>, pairs: usize) -> (result: bool)
    ensures
        result == (definite_pairs(b@, b@.len() as int) <= pairs && definite_pairs(b@, b@.len() as int)
            + possible_pairs(b@, b@.len() as int) >= pairs),
{
    let n = b.len();
    let mut pairs_count: usize = 0;
    let mut theoretical_pairs_count: usize = 0;
    let mut i: usize = 0;
    while i < n
        invariant
            i <= n,
            n == b@.len(),
            pairs_count == definite_pairs(b@, i as int),
            theoretical_pairs_count == possible_pairs(b@, i as int),
            pairs_count + theoretical_pairs_count <= i,
        decreases n - i,
    {
        let j = if i == n - 1 {
            0
        } else {
            i + 1
        };
        let left = &b[i];
        let right = &b[j];
        if left.appears_evil && right.appears_evil {
            pairs_count = pairs_count + 1;
        } else if (left.unknown_unrevealed_good || left.appears_evil) && (right.unknown_unrevealed_good
            || right.appears_evil) {
            theoretical_pairs_count = theoretical_pairs_count + 1;
        }
        i = i + 1;
    }
    pairs_count <= pairs && pairs_count + theoretical_pairs_count >= pairs
}

/// Whether the nearest corrupted villager a bard at `speaker` sees sits at the
/// claimed distance, or, for no distance, whether nobody is corrupted.
fn bard_holds(b: &Vec<TheoreticalVillager>, speaker: VillagerIndex, distance: Option<usize>) -> (result: bool)
    requires
        speaker.0 < b@.len(),
    ensures
        result == match distance {
            Some(d) => 1 <= d && bard_hit(b@, speaker.0 as int, d as int) && forall|j: int|
                1 <= j < d ==> !#[trigger] bard_hit(b@, speaker.0 as int, j),
            None => forall|s: int| 0 <= s < b@.len() ==> !(#[trigger] b@[s]).corrupted,
        },
{
    let n = b.len();
    match distance {
        Some(d) => {
            if d == 0 {
                return false;
            }
            let ghost sp = speaker.0 as int;
            let mut i: usize = 1;
            loop
                invariant
                    1 <= i <= d,
                    distance == Some(d),
                    n == b@.len(),
                    speaker.0 < n,
                    sp == speaker.0,
                    forall|j: int| 1 <= j < i ==> !#[trigger] bard_hit(b@, sp, j),
                decreases d - i,
            {
                let cw = index_offset(speaker, n, i, true);
                let ccw = index_offset(speaker, n, i, false);
                let hit = b[cw.0].corrupted || b[ccw.0].corrupted;
                assert(hit == bard_hit(b@, sp, i as int));
                if hit {
                    proof {
                        if i < d {
                            assert(bard_hit(b@, sp, i as int));
                        }
                    }
                    return i == d;
                }
                if i == d {
                    return false;
                }
                i = i + 1;
            }
        },
        None => {
            let mut s: usize = 0;
            while s < n
                invariant
                    s <= n,
                    n == b@.len(),
                    distance is None,
                    forall|k: int| 0 <= k < s ==> !(#[trigger] b@[k]).corrupted,
                decreases n - s,
            {
                if b[s].corrupted {
                    return false;
                }
                s = s + 1;
            }
            true
        },
    }
}

/// Whether claim `testimony` of the villager at `speaker` holds on board `b` when
/// the claim is taken as `truthful`.
pub fn testimony_valid(
    b: &Vec<TheoreticalVillager>,
    speaker: VillagerIndex,
    testimony: &Testimony,
    truthful: bool,
    wretch_in_play: bool,
    drunk_in_play: bool,
    knight_in_play: bool,
    bombardier_in_play: bool,
) -> (result: bool)
    requires
        speaker.0 < b@.len(),
        testimony_well_defined(b@, speaker.0 as int, *testimony, truthful),
    ensures
        result == testimony_holds(
            b@,
            speaker.0 as int,
            *testimony,
            truthful,
            wretch_in_play,
            drunk_in_play,
            knight_in_play,
            bombardier_in_play,
        ),
{
    proof {
        reveal(testimony_holds);
        reveal(testimony_well_defined);
    }
    match testimony {
        Testimony::Good(v) => {
            let x = &b[v.0];
            read_villager(x, !x.identity.is_evil(), wretch_in_play, truthful)
        },
        Testimony::Evil(v) => {
            let x = &b[v.0];
            read_villager(x, x.appears_evil, wretch_in_play, truthful)
        },
        Testimony::Corrupt(v) => b[v.0].corrupted,
        Testimony::Lying(v) => {
            let x = &b[v.0];
            read_villager(x, x.will_lie, drunk_in_play, truthful)
        },
        Testimony::Cured(v) => {
            let x = &b[v.0];
            x.was_corrupt && !x.corrupted
        },
        Testimony::Baker { was } => {
            let baked = b[speaker.0].baked_from;
            match (baked, was) {
                (Some(r1), Some(r2)) => r1 == *r2,
                (None, None) => true,
                _ => false,
            }
        },
        Testimony::Role { index, role } => {
            let x = &b[index.0];
            read_villager(
                x,
                x.identity == *role || (role.is_minion() && x.appears_evil && !x.identity.is_evil()),
                !role.is_evil(),
                truthful,
            )
        },
        Testimony::Invincible(v) => {
            let x = &b[v.0];
            read_villager(x, x.identity == Role::Knight && !x.will_lie, knight_in_play, truthful)
        },
        Testimony::Affected { index, affect } => match b[index.0].affection {
            Some(a) => a == *affect,
            None => false,
        },
        Testimony::FakeEvil(v) => {
            let x = &b[v.0];
            read_villager(x, x.identity == Role::Wretch, wretch_in_play, truthful)
        },
        Testimony::SelfDestruct(v) => {
            let x = &b[v.0];
            read_villager(x, x.identity == Role::Bombardier, bombardier_in_play, truthful)
        },
        Testimony::Slayed { index, slayed } => {
            if *slayed {
                true
            } else {
                let x = &b[index.0];
                read_villager(x, !x.appears_evil, true, truthful) || b[speaker.0].corrupted
            }
        },
        Testimony::Confess(claim) => {
            let x = &b[speaker.0];
            match claim {
                ConfessorClaim::Good => !x.corrupted && !x.identity.is_evil(),
                ConfessorClaim::Dizzy => x.corrupted || x.identity.is_evil(),
            }
        },
        Testimony::Scout { evil_role, distance } => scout_holds(b, *evil_role, *distance, truthful),
        Testimony::Enlightened(direction) => enlightened_holds(b, speaker, *direction, truthful),
        Testimony::Knitter { pairs } => knitter_holds(b, *pairs),
        Testimony::Bard(distance) => bard_holds(b, speaker, *distance),
        Testimony::FortuneTeller { first, second, evil } => {
            let x = &b[first.0];
            let y = &b[second.0];
            let correct_1 = read_villager(x, x.appears_evil, true, truthful);
            let correct_2 = read_villager(y, y.appears_evil, true, truthful);
            if *evil {
                correct_1 || correct_2
            } else {
                !correct_1 && !correct_2
            }
        },
        Testimony::Druid { outcast, first, second, third } => {
            let ghost seats = seq![first.0 as int, second.0 as int, third.0 as int];
            let x = &b[first.0];
            let y = &b[second.0];
            let z = &b[third.0];
            match outcast {
                Some(o) => {
                    let found = read_villager(x, x.identity == *o, true, truthful) || read_villager(
                        y,
                        y.identity == *o,
                        true,
                        truthful,
                    ) || read_villager(z, z.identity == *o, true, truthful);
                    proof {
                        assert(seats[0] == first.0 && seats[1] == second.0 && seats[2] == third.0);
                        if found {
                            if read_as(*x, x.identity == *o, true, truthful) {
                                assert(read_as(b@[seats[0]], b@[seats[0]].identity == *o, true, truthful));
                            } else if read_as(*y, y.identity == *o, true, truthful) {
                                assert(read_as(b@[seats[1]], b@[seats[1]].identity == *o, true, truthful));
                            } else {
                                assert(read_as(b@[seats[2]], b@[seats[2]].identity == *o, true, truthful));
                            }
                        }
                    }
                    found
                },
                None => {
                    let found = x.identity.is_outcast() || y.identity.is_outcast()
                        || z.identity.is_outcast();
                    proof {
                        assert(seats[0] == first.0 && seats[1] == second.0 && seats[2] == third.0);
                        if found {
                            if role_is_outcast(x.identity) {
                                assert(role_is_outcast(b@[seats[0]].identity));
                            } else if role_is_outcast(y.identity) {
                                assert(role_is_outcast(b@[seats[1]].identity));
                            } else {
                                assert(role_is_outcast(b@[seats[2]].identity));
                            }
                        }
                    }
                    !found
                },
            }
        },
    }
}

/// Claim `v` is part of the full testimony of the villager who made it.
pub open spec fn claim_applies(b: Seq<TheoreticalVillager>, v: IndexTestimony) -> bool {
    match b[v.index.0 as int].testimony {
        Some(e) => e.mentions(v.testimony),
        None => false,
    }
}

/// Claim `v`, taken as `truthful`, agrees with board `b`: either it is not part of
/// its speaker's testimony, or it holds on the board exactly when it is truthful.
pub open spec fn claim_consistent(
    b: Seq<TheoreticalVillager>,
    v: IndexTestimony,
    truthful: bool,
    wretch_in_play: bool,
    drunk_in_play: bool,
    knight_in_play: bool,
    bombardier_in_play: bool,
) -> bool {
    claim_applies(b, v) ==> testimony_holds(
        b,
        v.index.0 as int,
        v.testimony,
        truthful,
        wretch_in_play,
        drunk_in_play,
        knight_in_play,
        bombardier_in_play,
    ) == truthful
}

/// The first `k` claims of `variables`, with the truth values of `assignment`,
/// all agree with board `b`.
pub open spec fn assignment_consistent_upto(
    b: Seq<TheoreticalVillager>,
    variables: Seq<IndexTestimony>,
    assignment: Seq<bool>,
    k: int,
    wretch_in_play: bool,
    drunk_in_play: bool,
    knight_in_play: bool,
    bombardier_in_play: bool,
) -> bool {
    forall|j: int|
        0 <= j < k ==> #[trigger] claim_consistent(
            b,
            variables[j],
            assignment[j],
            wretch_in_play,
            drunk_in_play,
            knight_in_play,
            bombardier_in_play,
        )
}

/// What checking the claims in order needs: every speaker sits on the board, and
/// each claim reached (all earlier ones agreeing) that applies is well defined.
pub open spec fn validation_well_defined(
    b: Seq<TheoreticalVillager>,
    variables: Seq<IndexTestimony>,
    assignment: Seq<bool>,
    wretch_in_play: bool,
    drunk_in_play: bool,
    knight_in_play: bool,
    bombardier_in_play: bool,
) -> bool {
    &&& variables.len() == assignment.len()
    &&& forall|k: int| 0 <= k < variables.len() ==> (#[trigger] variables[k]).index.0 < b.len()
    &&& forall|k: int|
        0 <= k < variables.len() && assignment_consistent_upto(
            b,
            variables,
            assignment,
            k,
            wretch_in_play,
            drunk_in_play,
            knight_in_play,
            bombardier_in_play,
        ) && claim_applies(b, #[trigger] variables[k]) ==> testimony_well_defined(
            b,
            variables[k].index.0 as int,
            variables[k].testimony,
            assignment[k],
        )
}

/// Checks a truth value for each claim against a possible board: the assignment
/// is valid when every claim that belongs to its speaker's testimony holds on the
/// board exactly when it is taken as truthful.
pub fn validate_assignment(
    assignment: &Vec<bool>,
    variables: &[IndexTestimony],
    board_config: &BoardLayout,
    wretch_in_play: bool,
    drunk_in_play: bool,
    knight_in_play: bool,
    bombardier_in_play: bool,
) -> (result: bool)
    requires
        validation_well_defined(
            board_config.villagers@,
            variables@,
            assignment@,
            wretch_in_play,
            drunk_in_play,
            knight_in_play,
            bombardier_in_play,
        ),
    ensures
        result == assignment_consistent_upto(
            board_config.villagers@,
            variables@,
            assignment@,
            variables@.len() as int,
            wretch_in_play,
            drunk_in_play,
            knight_in_play,
            bombardier_in_play,
        ),
{
    proof {
        lemma_testimony_eq();
    }
    let b = &board_config.villagers;
    let mut k: usize = 0;
    while k < assignment.len()
        invariant
            k <= assignment@.len(),
            b@ == board_config.villagers@,
            vstd::laws_eq::obeys_concrete_eq::<Testimony>(),
            validation_well_defined(
                b@,
                variables@,
                assignment@,
                wretch_in_play,
                drunk_in_play,
                knight_in_play,
                bombardier_in_play,
            ),
            assignment_consistent_upto(
                b@,
                variables@,
                assignment@,
                k as int,
                wretch_in_play,
                drunk_in_play,
                knight_in_play,
                bombardier_in_play,
            ),
        decreases assignment@.len() - k,
    {
        let index_testimony = &variables[k];
        let testifier = &b[index_testimony.index.0];
        let truthful = assignment[k];
        if !assignment_applies(&testifier.testimony, &index_testimony.testimony) {
            proof {
                assert(!claim_applies(b@, variables@[k as int]));
                assert forall|j: int| 0 <= j < k + 1 implies #[trigger] claim_consistent(
                    b@,
                    variables@[j],
                    assignment@[j],
                    wretch_in_play,
                    drunk_in_play,
                    knight_in_play,
                    bombardier_in_play,
                ) by {}
            }
            k = k + 1;
            continue;
        }
        assert(claim_applies(b@, variables@[k as int]));
        let testimony_valid = testimony_valid(
            b,
            index_testimony.index,
            &index_testimony.testimony,
            truthful,
            wretch_in_play,
            drunk_in_play,
            knight_in_play,
            bombardier_in_play,
        );
        if testimony_valid != truthful {
            assert(!claim_consistent(
                b@,
                variables@[k as int],
                assignment@[k as int],
                wretch_in_play,
                drunk_in_play,
                knight_in_play,
                bombardier_in_play,
            ));
            return false;
        }
        proof {
            assert forall|j: int| 0 <= j < k + 1 implies #[trigger] claim_consistent(
                b@,
                variables@[j],
                assignment@[j],
                wretch_in_play,
                drunk_in_play,
                knight_in_play,
                bombardier_in_play,
            ) by {}
        }
        k = k + 1;
    }
    true
}

/// Whether the truth values `assignment` satisfy the compiled testimony expression
/// of a board and agree with the board itself.
pub fn assignment_matches_layout(
    board_expression: &OptimizedExpression<IndexTestimony>,
    assignment: &Vec<bool>,
    layout: &BoardLayout,
    wretch_in_play: bool,
    drunk_in_play: bool,
    knight_in_play: bool,
    bombardier_in_play: bool,
) -> (result: bool)
    requires
        board_expression.spec_variables().len() <= assignment@.len(),
        board_expression.spec_satisfies(assignment@) ==> validation_well_defined(
            layout.villagers@,
            board_expression.spec_variables(),
            assignment@,
            wretch_in_play,
            drunk_in_play,
            knight_in_play,
            bombardier_in_play,
        ),
    ensures
        result == (board_expression.spec_satisfies(assignment@) && assignment_consistent_upto(
            layout.villagers@,
            board_expression.spec_variables(),
            assignment@,
            board_expression.spec_variables().len() as int,
            wretch_in_play,
            drunk_in_play,
            knight_in_play,
            bombardier_in_play,
        )),
{
    board_expression.satisfies(assignment.as_slice()) && validate_assignment(
        assignment,
        board_expression.variables(),
        layout,
        wretch_in_play,
        drunk_in_play,
        knight_in_play,
        bombardier_in_play,
    )
}

/// The truth values that `m` gives to `variables`, in order, skipping the
/// variables it gives none.
pub open spec fn values_for(variables: Seq<IndexTestimony>, m: Map<IndexTestimony, bool>) -> Seq<bool>
    decreases variables.len(),
{
    if variables.len() == 0 {
        Seq::empty()
    } else {
        let rest = values_for(variables.drop_last(), m);
        if m.dom().contains(variables.last()) {
            rest.push(m[variables.last()])
        } else {
            rest
        }
    }
}

/// The truth values that a previous assignment gives to `variables`, in order;
/// a variable it gives none is skipped.
pub fn assignment_for_variables(variables: &[IndexTestimony], previous: &Assignment<IndexTestimony>) -> (result:
    Vec<bool>)
    ensures
        result@ == values_for(variables@, previous.spec_map()),
{
    proof {
        lemma_testimony_eq();
    }
    let mut values: Vec<bool> = Vec::new();
    let mut k: usize = 0;
    while k < variables.len()
        invariant
            k <= variables@.len(),
            vstd::laws_eq::obeys_concrete_eq::<IndexTestimony>(),
            values@ == values_for(variables@.subrange(0, k as int), previous.spec_map()),
        decreases variables@.len() - k,
    {
        let ghost before = variables@.subrange(0, k as int);
        let ghost after = variables@.subrange(0, k + 1);
        assert(after.drop_last() =~= before);
        assert(after.last() == variables@[k as int]);
        if let Some(value) = previous.get(&variables[k]) {
            values.push(value);
        }
        k = k + 1;
    }
    assert(variables@.subrange(0, variables@.len() as int) =~= variables@);
    values
}

/// The map giving `variables[k]` the value `values[k]`, later variables winning.
pub open spec fn zip_map(variables: Seq<IndexTestimony>, values: Seq<bool>) -> Map<IndexTestimony, bool>
    decreases variables.len(),
{
    if variables.len() == 0 {
        Map::empty()
    } else {
        zip_map(variables.drop_last(), values).insert(
            variables.last(),
            values[variables.len() - 1],
        )
    }
}

/// The assignment that gives each variable its truth value in `assignment`.
pub fn satisfying_assignment(variables: &[IndexTestimony], assignment: &Vec<bool>) -> (result:
    Assignment<IndexTestimony>)
    requires
        variables@.len() <= assignment@.len(),
    ensures
        result.spec_map() == zip_map(variables@, assignment@),
{
    proof {
        lemma_testimony_eq();
    }
    let mut builder: Assignment<IndexTestimony> = Assignment::new();
    let mut k: usize = 0;
    while k < variables.len()
        invariant
            k <= variables@.len(),
            variables@.len() <= assignment@.len(),
            vstd::laws_eq::obeys_concrete_eq::<IndexTestimony>(),
            builder.spec_map() == zip_map(variables@.subrange(0, k as int), assignment@),
        decreases variables@.len() - k,
    {
        let ghost before = variables@.subrange(0, k as int);
        let ghost after = variables@.subrange(0, k + 1);
        assert(after.drop_last() =~= before);
        builder.insert(variables[k], assignment[k]);
        k = k + 1;
    }
    assert(variables@.subrange(0, variables@.len() as int) =~= variables@);
    builder
}

/// A corrupted villager's claim that it tried and failed to slay someone holds on
/// any board, whatever the target, whichever way the claim is taken.
pub proof fn lemma_corrupted_failed_slay_holds(
    b: Seq<TheoreticalVillager>,
    speaker: int,
    target: VillagerIndex,
    truthful: bool,
    wretch_in_play: bool,
    drunk_in_play: bool,
    knight_in_play: bool,
    bombardier_in_play: bool,
)
    requires
        0 <= speaker < b.len(),
        target.0 < b.len(),
        b[speaker].corrupted,
    ensures
        testimony_holds(
            b,
            speaker,
            Testimony::Slayed { index: target, slayed: false },
            truthful,
            wretch_in_play,
            drunk_in_play,
            knight_in_play,
            bombardier_in_play,
        ),
{
    reveal(testimony_holds);
}

/// A claim that the villager at `v` is an honest knight holds, for a villager
/// whose role is known (or when no knight is in play), exactly when that villager
/// truly is a knight and does not lie.
pub proof fn lemma_invincible_needs_honest_knight(
    b: Seq<TheoreticalVillager>,
    speaker: int,
    v: VillagerIndex,
    truthful: bool,
    wretch_in_play: bool,
    drunk_in_play: bool,
    knight_in_play: bool,
    bombardier_in_play: bool,
)
    requires
        0 <= speaker < b.len(),
        v.0 < b.len(),
        !b[v.0 as int].unknown_unrevealed_good || !knight_in_play,
    ensures
        testimony_holds(
            b,
            speaker,
            Testimony::Invincible(v),
            truthful,
            wretch_in_play,
            drunk_in_play,
            knight_in_play,
            bombardier_in_play,
        ) <==> (b[v.0 as int].identity == Role::Knight && !b[v.0 as int].will_lie),
{
    reveal(testimony_holds);
}

/// What each simple claim about a villager whose role is known (not a hidden
/// seat assumed good) means on the board: "good" that its true role is not evil,
/// "evil" that it reads as evil, "corrupt" that it is corrupted, "lying" that it
/// lies, "cured" that it was corrupted and no longer is, "fake evil" that it is a
/// wretch, "self destruct" that it is a bombardier; a successful slay always
/// holds, a failed one when the target does not read as evil or the slayer is
/// corrupted; a baker's claim holds when the speaker was baked from the named
/// role; a confession of being good when the speaker is neither corrupted nor
/// evil, of being dizzy otherwise.
pub proof fn lemma_simple_claims_about_known_villagers(
    b: Seq<TheoreticalVillager>,
    speaker: int,
    v: VillagerIndex,
    truthful: bool,
    wretch_in_play: bool,
    drunk_in_play: bool,
    knight_in_play: bool,
    bombardier_in_play: bool,
)
    requires
        0 <= speaker < b.len(),
        v.0 < b.len(),
        !b[v.0 as int].unknown_unrevealed_good,
    ensures
        testimony_holds(b, speaker, Testimony::Good(v), truthful, wretch_in_play, drunk_in_play, knight_in_play, bombardier_in_play) <==> !role_is_evil(b[v.0 as int].identity),
        testimony_holds(b, speaker, Testimony::Evil(v), truthful, wretch_in_play, drunk_in_play, knight_in_play, bombardier_in_play) <==> b[v.0 as int].appears_evil,
        testimony_holds(b, speaker, Testimony::Corrupt(v), truthful, wretch_in_play, drunk_in_play, knight_in_play, bombardier_in_play) <==> b[v.0 as int].corrupted,
        testimony_holds(b, speaker, Testimony::Lying(v), truthful, wretch_in_play, drunk_in_play, knight_in_play, bombardier_in_play) <==> b[v.0 as int].will_lie,
        testimony_holds(b, speaker, Testimony::Cured(v), truthful, wretch_in_play, drunk_in_play, knight_in_play, bombardier_in_play) <==> b[v.0 as int].was_corrupt && !b[v.0 as int].corrupted,
        testimony_holds(b, speaker, Testimony::FakeEvil(v), truthful, wretch_in_play, drunk_in_play, knight_in_play, bombardier_in_play) <==> b[v.0 as int].identity == Role::Wretch,
        testimony_holds(b, speaker, Testimony::SelfDestruct(v), truthful, wretch_in_play, drunk_in_play, knight_in_play, bombardier_in_play) <==> b[v.0 as int].identity == Role::Bombardier,
        testimony_holds(b, speaker, Testimony::Slayed { index: v, slayed: true }, truthful, wretch_in_play, drunk_in_play, knight_in_play, bombardier_in_play),
        testimony_holds(b, speaker, Testimony::Slayed { index: v, slayed: false }, truthful, wretch_in_play, drunk_in_play, knight_in_play, bombardier_in_play) <==> !b[v.0 as int].appears_evil
            || b[speaker].corrupted,
        forall|was: Option<Role>| #[trigger] testimony_holds(b, speaker, Testimony::Baker { was }, truthful, wretch_in_play, drunk_in_play, knight_in_play, bombardier_in_play) <==> b[speaker].baked_from == was,
        testimony_holds(b, speaker, Testimony::Confess(ConfessorClaim::Good), truthful, wretch_in_play, drunk_in_play, knight_in_play, bombardier_in_play) <==> !b[speaker].corrupted && !role_is_evil(
            b[speaker].identity,
        ),
        testimony_holds(b, speaker, Testimony::Confess(ConfessorClaim::Dizzy), truthful, wretch_in_play, drunk_in_play, knight_in_play, bombardier_in_play) <==> b[speaker].corrupted || role_is_evil(
            b[speaker].identity,
        ),
{
    reveal(testimony_holds);
}

/// A claim about a hidden seat assumed good, of unknown role, is read as it is
/// taken: "good" and "evil" (with a wretch in play), "lying" (with a drunk in
/// play) and "honest knight" (with a knight in play) hold exactly when the claim
/// is taken as truthful.
pub proof fn lemma_claims_about_unknown_good_follow_truthfulness(
    b: Seq<TheoreticalVillager>,
    speaker: int,
    v: VillagerIndex,
    truthful: bool,
    wretch_in_play: bool,
    drunk_in_play: bool,
    knight_in_play: bool,
    bombardier_in_play: bool,
)
    requires
        0 <= speaker < b.len(),
        v.0 < b.len(),
        b[v.0 as int].unknown_unrevealed_good,
    ensures
        wretch_in_play ==> (testimony_holds(b, speaker, Testimony::Good(v), truthful, wretch_in_play, drunk_in_play, knight_in_play, bombardier_in_play) <==> truthful),
        wretch_in_play ==> (testimony_holds(b, speaker, Testimony::Evil(v), truthful, wretch_in_play, drunk_in_play, knight_in_play, bombardier_in_play) <==> truthful),
        drunk_in_play ==> (testimony_holds(b, speaker, Testimony::Lying(v), truthful, wretch_in_play, drunk_in_play, knight_in_play, bombardier_in_play) <==> truthful),
        knight_in_play ==> (testimony_holds(b, speaker, Testimony::Invincible(v), truthful, wretch_in_play, drunk_in_play, knight_in_play, bombardier_in_play) <==> truthful),
{
    reveal(testimony_holds);
}

} // verus!
