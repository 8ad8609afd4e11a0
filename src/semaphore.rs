//! Counting semaphores: `count` free units and a FIFO queue of tasks waiting
//! for one. A release with tasks waiting hands its unit straight to the front
//! one, so the count only grows while nobody waits.
use vstd::prelude::*;
use std::collections::VecDeque;
use crate::ledger::{ClassRow, rows_cover, rows_set, rows_same, same_shape, handed_over, set_entry, hand_over};
use crate::sched::Sched;

verus! {

pub struct Semaphore {
    pub count: usize,
    pub wait_queue: VecDeque<usize>,
    pub id: usize,
}

impl Semaphore {
    /// Internal consistency: nobody waits while a unit is free.
    pub open spec fn wf(&self) -> bool {
        self.count > 0 ==> self.wait_queue@.len() == 0
    }

    /// A semaphore with ledger id `id`, `res_count` free units and nobody waiting.
    pub fn new(res_count: usize, id: usize) -> (r: Semaphore)
        ensures
            r.count == res_count,
            r.id == id,
            r.wait_queue@ == Seq::<usize>::empty(),
            r.wf(),
    {
        Semaphore { count: res_count, wait_queue: VecDeque::new(), id }
    }

    /// Releases one unit, which the caller no longer holds. With a task
    /// waiting, the unit goes to the front one, which is to be woken;
    /// otherwise the count grows by one.
    pub fn up(&mut self, cur: usize, rows: &mut Vec<ClassRow>) -> (r: Sched)
        requires
            old(self).wf(),
            old(self).count < usize::MAX,
            cur < old(rows).len(),
            rows_cover(old(rows)@, old(self).id as int),
            forall|k: int|
                0 <= k < old(self).wait_queue@.len() ==> #[trigger] old(self).wait_queue@[k] < old(
                    rows,
                ).len(),
        ensures
            final(self).wf(),
            final(self).id == old(self).id,
            same_shape(old(rows)@, final(rows)@),
            old(self).wait_queue@.len() == 0 ==> r == Sched::Proceed && final(self).count
                == old(self).count + 1 && final(self).wait_queue@ == old(self).wait_queue@
                && rows_set(old(rows)@, final(rows)@, cur as int, old(self).id as int, Some(0usize), None),
            old(self).wait_queue@.len() > 0 ==> r == Sched::Wake(old(self).wait_queue@[0])
                && final(self).count == old(self).count && final(self).wait_queue@ == old(
                self,
            ).wait_queue@.drop_first() && handed_over(
                old(rows)@,
                final(rows)@,
                cur as int,
                old(self).wait_queue@[0] as int,
                old(self).id as int,
            ),
    {
        match self.wait_queue.pop_front() {
            Some(next) => {
                assert(old(self).wait_queue@[0] < rows.len());
                hand_over(rows, cur, next, self.id);
                assert(self.wait_queue@ =~= old(self).wait_queue@.drop_first());
                Sched::Wake(next)
            },
            None => {
                set_entry(rows, cur, self.id, Some(0), None);
                self.count = self.count + 1;
                Sched::Proceed
            },
        }
    }

    /// Acquires one unit: takes a free one (recording the hold in the
    /// caller's row), or, with none free, joins the back of the queue and
    /// blocks. The count never goes below zero.
    pub fn down(&mut self, cur: usize, rows: &mut Vec<ClassRow>) -> (r: Sched)
        requires
            old(self).wf(),
            cur < old(rows).len(),
            rows_cover(old(rows)@, old(self).id as int),
        ensures
            final(self).wf(),
            final(self).id == old(self).id,
            same_shape(old(rows)@, final(rows)@),
            old(self).count > 0 ==> r == Sched::Proceed && final(self).count == old(self).count - 1
                && final(self).wait_queue@ == old(self).wait_queue@ && rows_set(
                old(rows)@,
                final(rows)@,
                cur as int,
                old(self).id as int,
                Some(1usize),
                Some(0usize),
            ),
            old(self).count == 0 ==> r == Sched::Block && final(self).count == 0
                && final(self).wait_queue@ == old(self).wait_queue@.push(cur) && rows_same(
                old(rows)@,
                final(rows)@,
            ),
    {
        if self.count > 0 {
            set_entry(rows, cur, self.id, Some(1), Some(0));
            self.count = self.count - 1;
            Sched::Proceed
        } else {
            self.wait_queue.push_back(cur);
            assert(rows@ =~= old(rows)@);
            Sched::Block
        }
    }

    /// Records in the caller's row what a `down` about to be attempted will
    /// do: a request if no unit is free, otherwise a hold.
    pub fn update(&self, cur: usize, rows: &mut Vec<ClassRow>)
        requires
            cur < old(rows).len(),
            rows_cover(old(rows)@, self.id as int),
        ensures
            same_shape(old(rows)@, final(rows)@),
            self.count == 0 ==> rows_set(
                old(rows)@,
                final(rows)@,
                cur as int,
                self.id as int,
                None,
                Some(1usize),
            ),
            self.count > 0 ==> rows_set(
                old(rows)@,
                final(rows)@,
                cur as int,
                self.id as int,
                Some(1usize),
                Some(0usize),
            ),
    {
        if self.count == 0 {
            set_entry(rows, cur, self.id, None, Some(1));
        } else {
            set_entry(rows, cur, self.id, Some(1), Some(0));
        }
    }
}

} // verus!
