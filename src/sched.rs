use vstd::prelude::*;

verus! {

/// What the scheduler must do for the calling task once an operation has
/// updated the synchronization state.
#[derive(PartialEq, Eq, Structural, Clone, Copy, Debug)]
pub enum Sched {
    /// Return to the caller.
    Proceed,
    /// Give up the CPU but stay runnable, then retry the acquisition.
    Yield,
    /// Block the caller until another task wakes it.
    Block,
    /// Make the given task runnable again, then return to the caller.
    Wake(usize),
    /// Make the given task runnable again, then block the caller.
    WakeAndBlock(usize),
}

} // verus!
