use crate::testimony::{role_is_evil, role_is_outcast, Role};
use vstd::prelude::*;

verus! {

/// How a role affects the game, as far as its odds of being in play go.
#[derive(Debug, Clone, Copy, PartialEq, Eq, Structural)]
pub enum AffectKind {
    /// The role has no affect.
    NoAffect,
    /// The role acts at night.
    Night,
    /// The role turns an adjacent villager into an outcast.
    Outcast,
    /// The role turns an adjacent villager into a puppet.
    Puppet,
    /// Any other affect (corruption, duplicates, blocked reveals, ...).
    Other,
}

/// A card of the deck with its role's affect.
#[derive(Debug, Clone, Copy, PartialEq, Eq, Structural)]
pub struct DeckCard {
    pub role: Role,
    pub affect: AffectKind,
}

/// How many cards of each class were drawn.
#[derive(Debug, Clone, Copy, PartialEq, Eq, Structural)]
pub struct DrawStats {
    pub villagers: usize,
    pub outcasts: usize,
    pub minions: usize,
    pub demons: usize,
}

/// What the integer part of the in-play check concludes about a role.
#[derive(Debug, Clone, Copy, PartialEq, Eq, Structural)]
pub enum ArchetypeOdds {
    /// The role cannot be in play.
    Impossible,
    /// The role was drawn with odds `draw_count / deck_count`, the cards drawn of
    /// its class over the cards of its class in the deck; `conclusive` when
    /// no conversion can change that.
    Odds { draw_count: usize, deck_count: usize, conclusive: bool },
}

/// A good villager: neither evil nor an outcast.
pub open spec fn role_is_good_villager(role: Role) -> bool {
    !role_is_evil(role) && !role_is_outcast(role)
}

/// The number of cards drawn of the class of `role`.
pub open spec fn drawn_of_class(role: Role, draw: DrawStats) -> usize {
    if role is Minion {
        draw.minions
    } else if role is Demon {
        draw.demons
    } else if role_is_outcast(role) {
        draw.outcasts
    } else {
        draw.villagers
    }
}

/// The position of the first card of `role` in `deck`, or its length.
pub open spec fn first_card(deck: Seq<DeckCard>, role: Role) -> int {
    if exists|k: int| 0 <= k < deck.len() && (#[trigger] deck[k]).role == role {
        choose|k: int| 0 <= k < deck.len() && deck[k].role == role && forall|j: int| 0 <= j < k ==> (#[trigger] deck[j]).role != role
    } else {
        deck.len() as int
    }
}

/// Roles `a` and `b` are of one class: both minions, both demons, both
/// outcasts, or both good villagers.
pub open spec fn same_class(a: Role, b: Role) -> bool {
    ||| a is Minion && b is Minion
    ||| a is Demon && b is Demon
    ||| role_is_outcast(a) && role_is_outcast(b)
    ||| role_is_good_villager(a) && role_is_good_villager(b)
}

/// Whether roles `a` and `b` are of one class.
pub fn is_same_class(a: Role, b: Role) -> (result: bool)
    ensures
        result == same_class(a, b),
{
    if a.is_minion() || b.is_minion() {
        return a.is_minion() && b.is_minion();
    }
    let a_demon = match a {
        Role::Demon(_) => true,
        _ => false,
    };
    let b_demon = match b {
        Role::Demon(_) => true,
        _ => false,
    };
    if a_demon || b_demon {
        return a_demon && b_demon;
    }
    a.is_outcast() == b.is_outcast()
}

/// The number of cards of `deck` of the class of `role`.
pub open spec fn class_count(deck: Seq<DeckCard>, role: Role) -> nat
    decreases deck.len(),
{
    if deck.len() == 0 {
        0
    } else {
        class_count(deck.drop_last(), role) + if same_class(deck.last().role, role) {
            1nat
        } else {
            0nat
        }
    }
}

/// Some converter is one of `roles`.
pub open spec fn converter_among(converters: Seq<Role>, roles: Seq<Role>) -> bool {
    exists|c: int| 0 <= c < converters.len() && roles.contains(#[trigger] converters[c])
}

/// Some converter differs from some of `roles`.
pub open spec fn converter_apart(converters: Seq<Role>, roles: Seq<Role>) -> bool {
    exists|c: int, r: int| 0 <= c < converters.len() && 0 <= r < roles.len() && #[trigger] converters[c] != #[trigger] roles[r]
}

/// Among the first `m` cards, one lets a converter turn a villager into the role.
pub open spec fn converted_to(deck: Seq<DeckCard>, m: int, converters: Seq<Role>, outcast_roles: Seq<Role>, puppet_roles: Seq<Role>) -> bool {
    exists|k: int|
        0 <= k < m && ((#[trigger] deck[k]).affect == AffectKind::Outcast && converter_among(converters, outcast_roles)
            || deck[k].affect == AffectKind::Puppet && converter_among(converters, puppet_roles))
}

/// Among the first `m` cards, one lets another converter steal the conversion.
pub open spec fn conversion_stolen(deck: Seq<DeckCard>, m: int, converters: Seq<Role>, outcast_roles: Seq<Role>, puppet_roles: Seq<Role>) -> bool {
    exists|k: int|
        0 <= k < m && ((#[trigger] deck[k]).affect == AffectKind::Outcast && converter_apart(converters, outcast_roles)
            || deck[k].affect == AffectKind::Puppet && converter_apart(converters, puppet_roles))
}

/// Among the first `m` cards, one without affect lets a converter turn the good
/// villager `role` into something else.
pub open spec fn converted_away(deck: Seq<DeckCard>, m: int, role: Role, converters: Seq<Role>) -> bool {
    role_is_good_villager(role) && converters.len() > 0 && exists|k: int|
        0 <= k < m && (#[trigger] deck[k]).affect == AffectKind::NoAffect
}

fn contains_role(roles: &Vec<Role>, role: Role) -> (result: bool)
    ensures
        result == roles@.contains(role),
{
    let mut i: usize = 0;
    while i < roles.len()
        invariant
            i <= roles@.len(),
            forall|k: int| 0 <= k < i ==> roles@[k] != role,
        decreases roles@.len() - i,
    {
        if roles[i] == role {
            assert(roles@[i as int] == role);
            return true;
        }
        i = i + 1;
    }
    false
}

fn any_converter_among(converters: &Vec<Role>, roles: &Vec<Role>) -> (result: bool)
    ensures
        result == converter_among(converters@, roles@),
{
    let mut i: usize = 0;
    while i < converters.len()
        invariant
            i <= converters@.len(),
            forall|c: int| 0 <= c < i ==> !roles@.contains(#[trigger] converters@[c]),
        decreases converters@.len() - i,
    {
        if contains_role(roles, converters[i]) {
            return true;
        }
        i = i + 1;
    }
    false
}

fn any_converter_apart(converters: &Vec<Role>, roles: &Vec<Role>) -> (result: bool)
    ensures
        result == converter_apart(converters@, roles@),
{
    let mut i: usize = 0;
    while i < converters.len()
        invariant
            i <= converters@.len(),
            forall|c: int, r: int| 0 <= c < i && 0 <= r < roles@.len() ==> #[trigger] converters@[c] == #[trigger] roles@[r],
        decreases converters@.len() - i,
    {
        let mut j: usize = 0;
        while j < roles.len()
            invariant
                i < converters@.len(),
                j <= roles@.len(),
                forall|r: int| 0 <= r < j ==> converters@[i as int] == #[trigger] roles@[r],
            decreases roles@.len() - j,
        {
            if converters[i] != roles[j] {
                assert(converters@[i as int] != roles@[j as int]);
                return true;
            }
            j = j + 1;
        }
        i = i + 1;
    }
    false
}

/// Whether `archetype` can be in play, and if so the counts its odds are made of.
///
/// A role that acts at night is impossible without night actions. Going through
/// the deck until the role's first card, the conversions that could bring the
/// role in or take it away are noted (`converters` are the roles that could
/// convert a villager into this one, `outcast_roles` and `puppet_roles` all roles
/// with those affects). A role neither in the deck nor convertible into is
/// impossible. Otherwise its odds of having been drawn are the number of cards
/// drawn of its class over the number of cards of its class in the deck,
/// conclusive when no conversion was noted.
pub fn archetype_in_play_odds(
    archetype: Role,
    archetype_affect: AffectKind,
    night_actions_in_play: bool,
    deck: &Vec<DeckCard>,
    converters: &Vec<Role>,
    outcast_roles: &Vec<Role>,
    puppet_roles: &Vec<Role>,
    draw: DrawStats,
) -> (result: ArchetypeOdds)
    ensures
        ({
            let d = deck@;
            let m = first_card(d, archetype);
            let to = converted_to(d, m, converters@, outcast_roles@, puppet_roles@);
            let stolen = conversion_stolen(d, m, converters@, outcast_roles@, puppet_roles@);
            let away = converted_away(d, m, archetype, converters@);
            if archetype_affect == AffectKind::Night && !night_actions_in_play {
                result == ArchetypeOdds::Impossible
            } else if m == d.len() && !to {
                result == ArchetypeOdds::Impossible
            } else {
                result == (ArchetypeOdds::Odds {
                    draw_count: drawn_of_class(archetype, draw),
                    deck_count: class_count(d, archetype) as usize,
                    conclusive: !(to || stolen || away),
                })
            }
        }),
{
    if archetype_affect == AffectKind::Night && !night_actions_in_play {
        return ArchetypeOdds::Impossible;
    }
    let outcast_to = any_converter_among(converters, outcast_roles);
    let puppet_to = any_converter_among(converters, puppet_roles);
    let outcast_apart = any_converter_apart(converters, outcast_roles);
    let puppet_apart = any_converter_apart(converters, puppet_roles);
    let good = !archetype.is_evil() && !archetype.is_outcast();
    let mut to = false;
    let mut stolen = false;
    let mut away = false;
    let mut in_deck = false;
    let mut k: usize = 0;
    while k < deck.len()
        invariant_except_break
            !in_deck,
        invariant
            k <= deck@.len(),
            outcast_to == converter_among(converters@, outcast_roles@),
            puppet_to == converter_among(converters@, puppet_roles@),
            outcast_apart == converter_apart(converters@, outcast_roles@),
            puppet_apart == converter_apart(converters@, puppet_roles@),
            good == role_is_good_villager(archetype),
            forall|j: int| 0 <= j < k ==> (#[trigger] deck@[j]).role != archetype,
            to == converted_to(deck@, k as int, converters@, outcast_roles@, puppet_roles@),
            stolen == conversion_stolen(deck@, k as int, converters@, outcast_roles@, puppet_roles@),
            away == converted_away(deck@, k as int, archetype, converters@),
        ensures
            in_deck ==> k < deck@.len() && deck@[k as int].role == archetype,
            !in_deck ==> k == deck@.len(),
        decreases deck@.len() - k,
    {
        let card = deck[k];
        if card.role == archetype {
            in_deck = true;
            break;
        }
        match card.affect {
            AffectKind::Outcast => {
                to = to || outcast_to;
                stolen = stolen || outcast_apart;
            },
            AffectKind::Puppet => {
                to = to || puppet_to;
                stolen = stolen || puppet_apart;
            },
            AffectKind::NoAffect => {
                away = away || (good && converters.len() > 0);
            },
            _ => {},
        }
        proof {
            assert(deck@[k as int] == card);
            assert(to == converted_to(deck@, k + 1, converters@, outcast_roles@, puppet_roles@)) by {
                if converted_to(deck@, k as int, converters@, outcast_roles@, puppet_roles@) {
                    let j = choose|j: int|
                        0 <= j < k && ((#[trigger] deck@[j]).affect == AffectKind::Outcast && converter_among(converters@, outcast_roles@)
                            || deck@[j].affect == AffectKind::Puppet && converter_among(converters@, puppet_roles@));
                    assert(0 <= j < k + 1);
                }
                if card.affect == AffectKind::Outcast && outcast_to || card.affect == AffectKind::Puppet && puppet_to {
                    assert(deck@[k as int].affect == card.affect);
                }
                if converted_to(deck@, k + 1, converters@, outcast_roles@, puppet_roles@) && !converted_to(deck@, k as int, converters@, outcast_roles@, puppet_roles@) {
                    let j = choose|j: int|
                        0 <= j < k + 1 && ((#[trigger] deck@[j]).affect == AffectKind::Outcast && converter_among(converters@, outcast_roles@)
                            || deck@[j].affect == AffectKind::Puppet && converter_among(converters@, puppet_roles@));
                    assert(j == k);
                }
            }
            assert(stolen == conversion_stolen(deck@, k + 1, converters@, outcast_roles@, puppet_roles@)) by {
                if conversion_stolen(deck@, k as int, converters@, outcast_roles@, puppet_roles@) {
                    let j = choose|j: int|
                        0 <= j < k && ((#[trigger] deck@[j]).affect == AffectKind::Outcast && converter_apart(converters@, outcast_roles@)
                            || deck@[j].affect == AffectKind::Puppet && converter_apart(converters@, puppet_roles@));
                    assert(0 <= j < k + 1);
                }
                if card.affect == AffectKind::Outcast && outcast_apart || card.affect == AffectKind::Puppet && puppet_apart {
                    assert(deck@[k as int].affect == card.affect);
                }
                if conversion_stolen(deck@, k + 1, converters@, outcast_roles@, puppet_roles@) && !conversion_stolen(deck@, k as int, converters@, outcast_roles@, puppet_roles@) {
                    let j = choose|j: int|
                        0 <= j < k + 1 && ((#[trigger] deck@[j]).affect == AffectKind::Outcast && converter_apart(converters@, outcast_roles@)
                            || deck@[j].affect == AffectKind::Puppet && converter_apart(converters@, puppet_roles@));
                    assert(j == k);
                }
            }
            assert(away == converted_away(deck@, k + 1, archetype, converters@)) by {
                if converted_away(deck@, k as int, archetype, converters@) {
                    let j = choose|j: int| 0 <= j < k && (#[trigger] deck@[j]).affect == AffectKind::NoAffect;
                    assert(0 <= j < k + 1);
                }
                if card.affect == AffectKind::NoAffect {
                    assert(deck@[k as int].affect == AffectKind::NoAffect);
                }
                if converted_away(deck@, k + 1, archetype, converters@) && !converted_away(deck@, k as int, archetype, converters@) {
                    let j = choose|j: int| 0 <= j < k + 1 && (#[trigger] deck@[j]).affect == AffectKind::NoAffect;
                    assert(j == k);
                }
            }
        }
        k = k + 1;
    }
    proof {
        let d = deck@;
        if in_deck {
            assert(d[k as int].role == archetype);
            let m = first_card(d, archetype);
            assert(0 <= m < d.len() && d[m].role == archetype && forall|j: int| 0 <= j < m ==> (#[trigger] d[j]).role != archetype);
            if m < k {
                assert(d[m].role != archetype);
            }
            if k < m {
                assert(d[k as int].role != archetype);
            }
        } else {
            assert(!(exists|j: int| 0 <= j < d.len() && (#[trigger] d[j]).role == archetype));
        }
    }
    if !in_deck && !to {
        return ArchetypeOdds::Impossible;
    }
    let mut deck_count: usize = 0;
    let mut i: usize = 0;
    while i < deck.len()
        invariant
            i <= deck@.len(),
            deck_count == class_count(deck@.subrange(0, i as int), archetype),
            deck_count <= i,
        decreases deck@.len() - i,
    {
        proof {
            assert(deck@.subrange(0, i + 1).drop_last() =~= deck@.subrange(0, i as int));
        }
        if is_same_class(deck[i].role, archetype) {
            deck_count = deck_count + 1;
        }
        i = i + 1;
    }
    proof {
        assert(deck@.subrange(0, deck@.len() as int) =~= deck@);
    }
    let draw_count = match archetype {
        Role::Minion(_) => draw.minions,
        Role::Demon(_) => draw.demons,
        Role::Wretch | Role::Bombardier | Role::PlagueDoctor | Role::Outcast(_) => draw.outcasts,
        _ => draw.villagers,
    };
    ArchetypeOdds::Odds { draw_count, deck_count, conclusive: !(to || stolen || away) }
}

/// Adding a card to the deck adds one to the count of a role's class exactly
/// when the card is of that class: minion with minion, demon with demon, outcast
/// (wretch, bombardier, plague doctor or other outcast) with outcast, good
/// villager with good villager. An outcast card never counts for a good
/// villager role, nor a good villager card for an outcast role, nor a card of
/// one side for a role of the other.
pub proof fn lemma_class_count_by_class(d: Seq<DeckCard>, c: DeckCard, r: Role)
    ensures
        class_count(d.push(c), r) == class_count(d, r) || class_count(d.push(c), r) == class_count(d, r) + 1,
        c.role == r ==> class_count(d.push(c), r) == class_count(d, r) + 1,
        (c.role is Minion && r is Minion) || (c.role is Demon && r is Demon) ==> class_count(d.push(c), r)
            == class_count(d, r) + 1,
        role_is_outcast(c.role) && role_is_outcast(r) ==> class_count(d.push(c), r) == class_count(d, r) + 1,
        !role_is_evil(c.role) && !role_is_outcast(c.role) && !role_is_evil(r) && !role_is_outcast(r) ==> class_count(
            d.push(c),
            r,
        ) == class_count(d, r) + 1,
        role_is_outcast(c.role) && !role_is_evil(r) && !role_is_outcast(r) ==> class_count(d.push(c), r)
            == class_count(d, r),
        !role_is_evil(c.role) && !role_is_outcast(c.role) && role_is_outcast(r) ==> class_count(d.push(c), r)
            == class_count(d, r),
        role_is_evil(c.role) != role_is_evil(r) ==> class_count(d.push(c), r) == class_count(d, r),
        (c.role is Minion && r is Demon) || (c.role is Demon && r is Minion) ==> class_count(d.push(c), r)
            == class_count(d, r),
{
    assert(d.push(c).drop_last() =~= d);
}

/// The cards drawn that a role's odds count are those of its class: minions for
/// a minion, demons for a demon, outcasts for an outcast, villagers for a good
/// villager.
pub proof fn lemma_drawn_by_class(r: Role, draw: DrawStats)
    ensures
        r is Minion ==> drawn_of_class(r, draw) == draw.minions,
        r is Demon ==> drawn_of_class(r, draw) == draw.demons,
        role_is_outcast(r) ==> drawn_of_class(r, draw) == draw.outcasts,
        !role_is_evil(r) && !role_is_outcast(r) ==> drawn_of_class(r, draw) == draw.villagers,
{
}

} // verus!
