use vstd::prelude::*;

verus! {

/// Why no action could be predicted.
#[derive(Debug, Clone, Copy, PartialEq, Eq, Structural)]
pub enum PredictionError {
    /// Evaluation could not determine an action to perform.
    ConclusiveNoAction,
    /// No arrangement of the remaining evils is consistent with the board.
    GameUnsolvable,
}

impl PredictionError {
    /// The human-readable description of the error.
    pub fn message(&self) -> (result: &'static str)
        ensures
            result@ == match self {
                PredictionError::ConclusiveNoAction => "Evaluation could not determine an action to perform!"@,
                PredictionError::GameUnsolvable => "The SAT solver could not find a solution to the game based on available permutations!"@,
            },
    {
        match self {
            PredictionError::ConclusiveNoAction => "Evaluation could not determine an action to perform!",
            PredictionError::GameUnsolvable => "The SAT solver could not find a solution to the game based on available permutations!",
        }
    }
}

} // verus!
