use vstd::prelude::*;

verus! {

/// Why a payload was rejected.
#[derive(Clone, Copy, Debug, PartialEq, Eq, Structural)]
pub enum EscrowError {
    /// The payload is empty, starts with a tag that selects no instruction,
    /// or ends before the fields of its instruction do.
    InvalidInstruction,
}

} // verus!
