use vstd::prelude::*;

verus! {

/// The seat of a villager around the table, counted from zero.
#[derive(Debug, Clone, Copy, PartialEq, Eq, Structural, Hash, PartialOrd, Ord)]
pub struct VillagerIndex(pub usize);

/// What the deduction reads of one villager of the game state.
#[derive(Debug, Clone, Copy, PartialEq, Eq, Structural)]
pub enum VillagerStatus {
    /// Not revealed yet.
    Hidden { cant_reveal: bool, cant_kill: bool },
    /// Revealed and still in play.
    Active { has_testimony: bool, action_available: bool, cant_kill: bool, is_knight: bool },
    /// Revealed and confirmed.
    Confirmed { has_testimony: bool, action_available: bool },
}

/// The villagers of a game, in seat order.
pub struct GameState {
    pub villagers: Vec<VillagerStatus>,
}

impl GameState {
    pub open spec fn villager_at(self, i: int) -> VillagerStatus {
        self.villagers@[i]
    }

    pub open spec fn num_villagers(self) -> nat {
        self.villagers@.len()
    }

    /// Number of seats.
    pub fn total_villagers(&self) -> (result: usize)
        ensures
            result == self.num_villagers(),
    {
        self.villagers.len()
    }

    /// The status of the villager at `index`.
    pub fn villager(&self, index: &VillagerIndex) -> (result: VillagerStatus)
        requires
            index.0 < self.num_villagers(),
        ensures
            result == self.villager_at(index.0 as int),
    {
        self.villagers[index.0]
    }
}

/// The villager is hidden.
pub open spec fn is_hidden(v: VillagerStatus) -> bool {
    v is Hidden
}

/// The villager is hidden and may be revealed.
pub open spec fn is_revealable(v: VillagerStatus) -> bool {
    match v {
        VillagerStatus::Hidden { cant_reveal, .. } => !cant_reveal,
        _ => false,
    }
}

/// The villager is revealed and has not given a testimony yet.
pub open spec fn lacks_testimony(v: VillagerStatus) -> bool {
    match v {
        VillagerStatus::Active { has_testimony, .. } => !has_testimony,
        VillagerStatus::Confirmed { has_testimony, .. } => !has_testimony,
        VillagerStatus::Hidden { .. } => false,
    }
}

/// The villager is revealed as a knight and still in play.
pub open spec fn is_active_knight(v: VillagerStatus) -> bool {
    match v {
        VillagerStatus::Active { is_knight, .. } => is_knight,
        _ => false,
    }
}

/// The villager may be executed.
pub open spec fn is_killable(v: VillagerStatus) -> bool {
    match v {
        VillagerStatus::Hidden { cant_kill, .. } => !cant_kill,
        VillagerStatus::Active { cant_kill, .. } => !cant_kill,
        VillagerStatus::Confirmed { .. } => false,
    }
}

/// The villager is revealed and can still use an ability.
pub open spec fn has_ability(v: VillagerStatus) -> bool {
    match v {
        VillagerStatus::Active { action_available, .. } => action_available,
        VillagerStatus::Confirmed { action_available, .. } => action_available,
        VillagerStatus::Hidden { .. } => false,
    }
}

/// Whether any villager has been revealed.
pub fn any_revealed(state: &GameState) -> (result: bool)
    ensures
        result == exists|i: int| 0 <= i < state.num_villagers() && !is_hidden(#[trigger] state.villager_at(i)),
{
    let mut i: usize = 0;
    while i < state.villagers.len()
        invariant
            i <= state.num_villagers(),
            forall|k: int| 0 <= k < i ==> is_hidden(#[trigger] state.villager_at(k)),
        decreases state.villagers.len() - i,
    {
        match &state.villagers[i] {
            VillagerStatus::Hidden { .. } => {},
            _ => {
                assert(!is_hidden(state.villager_at(i as int)));
                return true;
            },
        }
        i = i + 1;
    }
    false
}

/// The lowest seat of a hidden villager that may be revealed.
pub fn first_revealable_index(state: &GameState) -> (result: Option<VillagerIndex>)
    ensures
        match result {
            Some(index) => index.0 < state.num_villagers() && is_revealable(
                state.villager_at(index.0 as int),
            ) && forall|k: int| 0 <= k < index.0 ==> !is_revealable(#[trigger] state.villager_at(k)),
            None => forall|k: int|
                0 <= k < state.num_villagers() ==> !is_revealable(#[trigger] state.villager_at(k)),
        },
{
    let mut i: usize = 0;
    while i < state.villagers.len()
        invariant
            i <= state.num_villagers(),
            forall|k: int| 0 <= k < i ==> !is_revealable(#[trigger] state.villager_at(k)),
        decreases state.villagers.len() - i,
    {
        if let VillagerStatus::Hidden { cant_reveal, .. } = &state.villagers[i] {
            if !*cant_reveal {
                return Some(VillagerIndex(i));
            }
        }
        i = i + 1;
    }
    None
}

/// The lowest seat of a hidden villager.
pub fn first_hidden_index(state: &GameState) -> (result: Option<VillagerIndex>)
    ensures
        match result {
            Some(index) => index.0 < state.num_villagers() && is_hidden(
                state.villager_at(index.0 as int),
            ) && forall|k: int| 0 <= k < index.0 ==> !is_hidden(#[trigger] state.villager_at(k)),
            None => forall|k: int|
                0 <= k < state.num_villagers() ==> !is_hidden(#[trigger] state.villager_at(k)),
        },
{
    let mut i: usize = 0;
    while i < state.villagers.len()
        invariant
            i <= state.num_villagers(),
            forall|k: int| 0 <= k < i ==> !is_hidden(#[trigger] state.villager_at(k)),
        decreases state.villagers.len() - i,
    {
        if let VillagerStatus::Hidden { .. } = &state.villagers[i] {
            return Some(VillagerIndex(i));
        }
        i = i + 1;
    }
    None
}

/// More can be learned: a revealed villager has not testified yet, or a hidden
/// villager may still be revealed.
pub open spec fn more_to_learn(state: GameState) -> bool {
    exists|i: int|
        0 <= i < state.num_villagers() && (lacks_testimony(#[trigger] state.villager_at(i)) || is_revealable(
            state.villager_at(i),
        ))
}

/// Whether more can be learned: a revealed villager has not testified yet, or a
/// hidden villager may still be revealed.
pub fn can_get_more_information(state: &GameState) -> (result: bool)
    ensures
        result == more_to_learn(*state),
{
    let mut i: usize = 0;
    while i < state.villagers.len()
        invariant
            i <= state.num_villagers(),
            forall|k: int|
                0 <= k < i ==> !lacks_testimony(#[trigger] state.villager_at(k)) && !is_revealable(
                    state.villager_at(k),
                ),
        decreases state.villagers.len() - i,
    {
        let more = match &state.villagers[i] {
            VillagerStatus::Active { has_testimony, .. } => !*has_testimony,
            VillagerStatus::Hidden { cant_reveal, .. } => !*cant_reveal,
            VillagerStatus::Confirmed { has_testimony, .. } => !*has_testimony,
        };
        if more {
            assert(lacks_testimony(state.villager_at(i as int)) || is_revealable(state.villager_at(i as int)));
            return true;
        }
        i = i + 1;
    }
    false
}

} // verus!
