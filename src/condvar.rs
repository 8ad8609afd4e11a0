//! Condition variables: a FIFO queue of waiting tasks and nothing else.
use vstd::prelude::*;
use std::collections::VecDeque;
use crate::ledger::{ClassRow, rows_cover, rows_set, same_shape, handed_over};
use crate::mutex::Mutex;
use crate::sched::Sched;

verus! {

pub struct Condvar {
    pub wait_queue: VecDeque<usize>,
}

impl Condvar {
    /// A condition variable with nobody waiting.
    pub fn new() -> (r: Condvar)
        ensures
            r.wait_queue@ == Seq::<usize>::empty(),
    {
        Condvar { wait_queue: VecDeque::new() }
    }

    /// Wakes the task that has waited longest, if any.
    pub fn signal(&mut self) -> (r: Sched)
        ensures
            old(self).wait_queue@.len() == 0 ==> r == Sched::Proceed && final(self).wait_queue@
                == old(self).wait_queue@,
            old(self).wait_queue@.len() > 0 ==> r == Sched::Wake(old(self).wait_queue@[0])
                && final(self).wait_queue@ == old(self).wait_queue@.drop_first(),
    {
        match self.wait_queue.pop_front() {
            Some(next) => {
                assert(self.wait_queue@ =~= old(self).wait_queue@.drop_first());
                Sched::Wake(next)
            },
            None => Sched::Proceed,
        }
    }

    /// Releases `mutex` on the caller's behalf and queues the caller, which is
    /// then to block. A task that the release hands the mutex to is to be
    /// woken first. Once woken, the caller must lock the mutex again itself.
    pub fn wait<M: Mutex>(&mut self, mutex: &mut M, cur: usize, rows: &mut Vec<ClassRow>) -> (r: Sched)
        requires
            old(mutex).wf(),
            old(mutex).locked(),
            cur < old(rows).len(),
            rows_cover(old(rows)@, old(mutex).rid() as int),
            forall|k: int|
                0 <= k < old(mutex).waiters().len() ==> #[trigger] old(mutex).waiters()[k] < old(
                    rows,
                ).len(),
        ensures
            final(self).wait_queue@ == old(self).wait_queue@.push(cur),
            final(mutex).wf(),
            final(mutex).rid() == old(mutex).rid(),
            same_shape(old(rows)@, final(rows)@),
            old(mutex).waiters().len() == 0 ==> r == Sched::Block && !final(mutex).locked()
                && final(mutex).waiters() == old(mutex).waiters() && rows_set(
                old(rows)@,
                final(rows)@,
                cur as int,
                old(mutex).rid() as int,
                Some(0usize),
                None,
            ),
            old(mutex).waiters().len() > 0 ==> r == Sched::WakeAndBlock(old(mutex).waiters()[0])
                && final(mutex).locked() && final(mutex).waiters() == old(mutex).waiters().drop_first()
                && handed_over(
                old(rows)@,
                final(rows)@,
                cur as int,
                old(mutex).waiters()[0] as int,
                old(mutex).rid() as int,
            ),
    {
        let released = mutex.unlock(cur, rows);
        self.wait_queue.push_back(cur);
        match released {
            Sched::Wake(next) => Sched::WakeAndBlock(next),
            _ => Sched::Block,
        }
    }
}

} // verus!
