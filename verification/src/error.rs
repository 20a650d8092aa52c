//! The ways in which the substrate can fail.

use vstd::prelude::*;

verus! {

/// A fault raised inside the sandbox while guest code was running, or while
/// the host touched guest memory.
#[derive(Clone, Copy, Debug, PartialEq, Eq, Structural)]
pub enum Trap {
    /// An access reached outside linear memory.
    OutOfBounds,
    /// Linear memory would have grown past its limit.
    OutOfMemory,
    /// The guest gave up on its own.
    Aborted,
    /// The step used up its instruction budget before the guest suspended.
    BudgetExhausted,
    /// A counter left its range.
    Overflow,
    /// The routine was asked to run while a faulted step was still pending.
    NotSuspended,
}

/// Every failure that can cross the runtime boundary.
#[derive(Clone, Copy, Debug, PartialEq, Eq, Structural)]
pub enum RuntimeError {
    /// The module image is malformed or incompatible.
    LoadError,
    /// The guest faulted during a tick. The instance must be discarded.
    ExecutionTrap(Trap),
    /// Bytes that should be a message are none. The message is dropped;
    /// nothing else is harmed.
    MalformedMessage,
    /// A snapshot could not be restored.
    CorruptSnapshot,
}

} // verus!
