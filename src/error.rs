//! Errors of the reconciliation pipeline.

use vstd::prelude::*;

verus! {

#[derive(Debug)]
pub enum Error {
    /// The cluster's resources could not be listed.
    KubeApiListError(String),
    /// A reconciliation pass failed.
    OperatorError(Box<Error>),
    /// A command could not be run, or it failed.
    ExecutorError(String),
    /// The NAT rules could not be applied or deleted.
    BackendError(Box<Error>),
    /// A rule that cannot be written: a loopback rule without a local
    /// address. The process is expected to stop on it.
    InvariantViolation(String),
}

} // verus!
