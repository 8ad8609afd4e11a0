//! Synchronization primitives of a single-core cooperative kernel, modelled as
//! verified state machines: spin and blocking mutexes, counting semaphores,
//! condition variables, per-task allocation/need ledgers and a deadlock
//! detector that runs a safety check before every blocking acquisition.
//!
//! The scheduler is not part of the library: operations return a
//! [`sched::Sched`] action (yield, block, wake a task) that the caller carries
//! out. Exclusive access to each object's state is given by `&mut` borrows,
//! so no runtime-checked cell is needed.

pub mod sched;
pub mod ledger;
pub mod detect;
pub mod mutex;
pub mod semaphore;
pub mod condvar;
pub mod process;
pub mod proc_calls;
