//! Core data model: synthesis strategies, execution outcomes, and the
//! per-function reports this engine produces.

use vstd::prelude::*;

verus! {

/// Heuristic used to choose concrete argument values for a call.
#[derive(Debug, Clone, Copy, PartialEq, Eq, Structural)]
pub enum CallStrategy {
    /// Minimal non-zero values chosen to pass common validity guards.
    SmartDefaults,
    /// Address-typed leaves receive the caller identity; everything else
    /// follows the smart defaults.
    CallerAddress,
    /// All-zero / empty canonical values.
    ZeroDefaults,
}

/// Classification of a submitted transaction's outcome, ordered by
/// desirability: success, then a clean revert, then an abnormal halt.
#[derive(Debug, Clone, Copy, PartialEq, Eq, Structural)]
pub enum ExecutionStatus {
    Success,
    Revert,
    Halt,
}

/// Total desirability order on outcomes: the higher the rank, the better
/// the outcome.
pub fn status_rank(s: &ExecutionStatus) -> (r: u8)
    ensures
        r == spec_status_rank(*s),
{
    match s {
        ExecutionStatus::Success => 2,
        ExecutionStatus::Revert => 1,
        ExecutionStatus::Halt => 0,
    }
}

/// Rank of an outcome: Success (2) > Revert (1) > Halt (0).
pub open spec fn spec_status_rank(s: ExecutionStatus) -> u8 {
    match s {
        ExecutionStatus::Success => 2,
        ExecutionStatus::Revert => 1,
        ExecutionStatus::Halt => 0,
    }
}

/// Human-readable label of a strategy, as it appears in reports.
pub fn strategy_label(s: CallStrategy) -> (r: String)
    ensures
        r@ == spec_strategy_label(s),
{
    match s {
        CallStrategy::SmartDefaults => String::from_str("smart_defaults"),
        CallStrategy::CallerAddress => String::from_str("caller_address"),
        CallStrategy::ZeroDefaults => String::from_str("zero_defaults"),
    }
}

/// The label each strategy carries in reports.
pub open spec fn spec_strategy_label(s: CallStrategy) -> Seq<char> {
    match s {
        CallStrategy::SmartDefaults => "smart_defaults"@,
        CallStrategy::CallerAddress => "caller_address"@,
        CallStrategy::ZeroDefaults => "zero_defaults"@,
    }
}

/// Why a deployment attempt produced no running instance.
#[derive(Debug, Clone, Copy, PartialEq, Eq, Structural)]
pub enum DeployError {
    /// Constructor argument encoding failed.
    Encoding,
    /// The creation transaction reverted.
    Reverted,
    /// The creation transaction halted abnormally.
    Halted,
    /// The creation succeeded but returned no deployed address.
    NoAddress,
    /// The execution engine rejected the transaction.
    Engine,
}

/// A strategy's submission could not be completed at all (distinct from
/// a revert or halt classification, which is a completed submission
/// with an unfavorable outcome).
#[derive(Debug, Clone, Copy, PartialEq, Eq, Structural)]
pub struct CallFailure {}

/// Per-function gas execution report.
#[derive(Debug)]
pub struct FunctionReport {
    pub name: String,
    /// `0x`-prefixed hex rendering of the 4-byte selector.
    pub selector: String,
    /// Canonical signature, e.g. `transfer(address,uint256)`.
    pub signature: String,
    pub gas: u64,
    pub status: ExecutionStatus,
    /// Label of the strategy that produced the reported outcome; absent
    /// only when no strategy was attempted.
    pub strategy: Option<String>,
}

/// Top-level output for one contract.
#[derive(Debug)]
pub struct ContractReport {
    pub contract: String,
    pub functions: Vec<FunctionReport>,
}

} // verus!
