//! Early-stop policies: predicates over the history of distance sums that an
//! optimizer records, one entry per finished iteration.

use vstd::prelude::*;

verus! {

/// Decides, from the distance sums seen so far, whether an optimizer should
/// stop before its iteration budget is spent.
#[derive(Clone, Copy, PartialEq, Eq, Debug)]
pub enum AbortStrategy {
    /// Run the full iteration budget.
    NoAbort,
    /// Stop once an iteration improves the distance sum by less than
    /// `threshold` (a worsening iteration also stops).
    NoImprovement { threshold: u64 },
    /// Stop once the last `x` iterations together improve the distance sum
    /// by less than `threshold`.
    NoImprovementForXIterations { x: usize, threshold: u64 },
}

impl AbortStrategy {
    /// What the strategy decides on a history of distance sums.
    pub open spec fn spec_should_abort(self, history: Seq<u64>) -> bool {
        match self {
            AbortStrategy::NoAbort => false,
            AbortStrategy::NoImprovement { threshold } => history.len() >= 2
                && history[history.len() - 2] < history[history.len() - 1] + threshold,
            AbortStrategy::NoImprovementForXIterations { x, threshold } => x >= 1 && history.len()
                > x && history[history.len() - 1 - x] < history[history.len() - 1] + threshold,
        }
    }

    /// Evaluate the strategy on the recorded history.
    pub fn should_abort(&self, history: &Vec<u64>) -> (r: bool)
        ensures
            r == self.spec_should_abort(history@),
    {
        match self {
            AbortStrategy::NoAbort => false,
            AbortStrategy::NoImprovement { threshold } => {
                let l = history.len();
                l >= 2 && (history[l - 2] as u128) < (history[l - 1] as u128) + (*threshold
                    as u128)
            },
            AbortStrategy::NoImprovementForXIterations { x, threshold } => {
                let l = history.len();
                *x >= 1 && l > *x && (history[l - 1 - *x] as u128) < (history[l - 1] as u128) + (
                *threshold as u128)
            },
        }
    }
}

} // verus!
