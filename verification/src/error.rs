//! Failures that decoding can report.

use vstd::prelude::*;

verus! {

/// Why a decode step failed.
#[derive(Clone, Copy, Debug, PartialEq, Eq, Structural)]
pub enum DecodeError {
    /// The buffer holds no complete value at `offset`: it ends too early, or
    /// a variable-length integer there does not end within its five groups.
    Truncated { offset: usize },
    /// The index or offset `id` names something that breaks a structural rule.
    InvalidId { id: u32 },
    /// A collaborator found its own payload ill-formed.
    Malformed,
}

} // verus!
