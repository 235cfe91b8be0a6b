use crate::player_action::PlayerAction;
use crate::villager::{first_hidden_index, is_hidden, GameState, VillagerIndex};
use vstd::prelude::*;

verus! {

/// How to pick the villager to reveal when more information is needed.
#[derive(Debug, Clone, Copy, PartialEq, Eq, Structural)]
pub enum RevealStrategy {
    /// Reveal the hidden villager in the lowest seat.
    Simple,
    /// Reveal a villager that a testimony points at.
    FollowTestimony,
}

/// The lowest seat that holds a hidden villager.
pub open spec fn first_hidden(state: GameState) -> int
    recommends
        exists|i: int| 0 <= i < state.num_villagers() && is_hidden(#[trigger] state.villager_at(i)),
{
    choose|i: int|
        0 <= i < state.num_villagers() && is_hidden(state.villager_at(i)) && forall|k: int|
            0 <= k < i ==> !is_hidden(#[trigger] state.villager_at(k))
}

impl RevealStrategy {
    /// The actions this strategy proposes to gain information.
    pub fn get_reveal(&self, game_state: &GameState) -> (result: Vec<PlayerAction>)
        requires
            *self == RevealStrategy::Simple,
            exists|i: int|
                0 <= i < game_state.num_villagers() && is_hidden(#[trigger] game_state.villager_at(i)),
        ensures
            result@ == seq![PlayerAction::TryReveal(VillagerIndex(first_hidden(*game_state) as usize))],
    {
        match self {
            RevealStrategy::Simple => simple_reveal(game_state),
            RevealStrategy::FollowTestimony => vstd::pervasive::unreached(),
        }
    }
}

/// Reveal the hidden villager in the lowest seat.
pub fn simple_reveal(game_state: &GameState) -> (result: Vec<PlayerAction>)
    requires
        exists|i: int|
            0 <= i < game_state.num_villagers() && is_hidden(#[trigger] game_state.villager_at(i)),
    ensures
        result@ == seq![PlayerAction::TryReveal(VillagerIndex(first_hidden(*game_state) as usize))],
{
    let hidden_index = first_hidden_index(game_state);
    let index = hidden_index.unwrap();
    proof {
        let f = first_hidden(*game_state);
        assert(0 <= f < game_state.num_villagers() && is_hidden(game_state.villager_at(f)) && forall|k: int|
            0 <= k < f ==> !is_hidden(#[trigger] game_state.villager_at(k)));
        if f < index.0 {
            assert(!is_hidden(game_state.villager_at(f)));
        }
        if index.0 < f {
            assert(!is_hidden(game_state.villager_at(index.0 as int)));
        }
    }
    let mut actions: Vec<PlayerAction> = Vec::with_capacity(1);
    actions.push(PlayerAction::TryReveal(index));
    actions
}

} // verus!
