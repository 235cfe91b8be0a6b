//! Verified core of a deduction engine for the social-deduction game Demon Bluff.
//!
//! The crate holds the boolean testimony expressions and their compiled form,
//! the claims villagers make and how each is checked against a possible board,
//! the outcomes that an ability could produce, the actions a player can take,
//! and the bookkeeping of the hypothesis graph.

pub mod expression;
pub mod optimized_expression;
pub mod villager;
pub mod player_action;
pub mod prediction_error;
pub mod reveal_strategy;
pub mod prediction;
pub mod hypothesis;
pub mod hypotheses;
pub mod theoretical;
pub mod testimony;
pub mod validation;
pub mod theoretical_testimony;
pub mod ability_prediction;
pub mod board_prediction;
pub mod next_step;
pub mod archetype_odds;
