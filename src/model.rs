use vstd::prelude::*;

verus! {

/// How a failed attempt is classified.
#[derive(Debug, Clone, Copy, PartialEq, Eq, Structural)]
pub enum BacktestErrorType {
    /// Network, rate limit, server fluctuation: retryable.
    Infra,
    /// The expression itself is rejected upstream: not retryable.
    Alpha,
    /// Unexpected local or protocol failure: needs a human.
    Internal,
}

/// A classified failure of one worker attempt.
#[derive(Debug, Clone)]
pub struct BacktestError {
    pub error_type: BacktestErrorType,
    pub message: String,
    pub retryable: bool,
}

impl BacktestError {
    /// A retryable infrastructure failure.
    pub fn infra(msg: String) -> (r: Self)
        ensures
            r.error_type == BacktestErrorType::Infra,
            r.message@ == msg@,
            r.retryable,
    {
        BacktestError { error_type: BacktestErrorType::Infra, message: msg, retryable: true }
    }

    /// A permanent failure caused by the expression.
    pub fn alpha(msg: String) -> (r: Self)
        ensures
            r.error_type == BacktestErrorType::Alpha,
            r.message@ == msg@,
            !r.retryable,
    {
        BacktestError { error_type: BacktestErrorType::Alpha, message: msg, retryable: false }
    }

    /// A permanent failure that is neither infrastructure nor the expression.
    pub fn internal(msg: String) -> (r: Self)
        ensures
            r.error_type == BacktestErrorType::Internal,
            r.message@ == msg@,
            !r.retryable,
    {
        BacktestError { error_type: BacktestErrorType::Internal, message: msg, retryable: false }
    }
}

/// Counts of jobs by state, as shown to the operator.
#[derive(Debug, Clone, Copy, PartialEq, Eq, Structural)]
pub struct BacktestStats {
    pub total: usize,
    pub pending: usize,
    pub running: usize,
    pub completed: usize,
    pub error_retryable: usize,
    pub error_fatal: usize,
    pub error_exceeded: usize,
}

} // verus!
