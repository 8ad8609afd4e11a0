//! Mutexes: a spin variant that keeps a contending task runnable and lets it
//! retry, and a blocking variant that queues it and hands the lock over on
//! release. Both keep the caller's row of the mutex ledger in step.
use vstd::prelude::*;
use std::collections::VecDeque;
use crate::ledger::{ClassRow, rows_cover, rows_set, rows_same, same_shape, handed_over, set_entry, hand_over};
use crate::sched::Sched;

verus! {

/// The operations every mutex offers. `rows` is the mutex ledger, one row per
/// task; `cur` is the calling task.
pub trait Mutex: Sized {
    /// Whether the mutex is held.
    spec fn locked(&self) -> bool;

    /// The ledger id of the mutex.
    spec fn rid(&self) -> nat;

    /// Tasks blocked on the mutex, first blocked first.
    spec fn waiters(&self) -> Seq<usize>;

    /// Whether a contended `lock` queues the caller rather than letting it spin.
    spec fn queues() -> bool;

    /// Internal consistency: nobody waits on a free mutex.
    spec fn wf(&self) -> bool;

    /// Takes the mutex if it is free (recording the hold in the caller's row);
    /// otherwise yields (spin) or joins the back of the wait queue (blocking).
    fn lock(&mut self, cur: usize, rows: &mut Vec<ClassRow>) -> (r: Sched)
        requires
            old(self).wf(),
            cur < old(rows).len(),
            rows_cover(old(rows)@, old(self).rid() as int),
        ensures
            final(self).wf(),
            final(self).rid() == old(self).rid(),
            final(self).locked(),
            same_shape(old(rows)@, final(rows)@),
            !old(self).locked() ==> r == Sched::Proceed && final(self).waiters() == old(
                self,
            ).waiters() && rows_set(
                old(rows)@,
                final(rows)@,
                cur as int,
                old(self).rid() as int,
                Some(1usize),
                Some(0usize),
            ),
            old(self).locked() && Self::queues() ==> r == Sched::Block && final(self).waiters()
                == old(self).waiters().push(cur) && rows_same(old(rows)@, final(rows)@),
            old(self).locked() && !Self::queues() ==> r == Sched::Yield && final(self).waiters()
                == old(self).waiters() && rows_same(old(rows)@, final(rows)@),
    ;

    /// Releases the mutex. With a task waiting, the front one becomes the
    /// holder at once (the mutex never appears free) and is to be woken;
    /// otherwise the mutex becomes free. The caller no longer holds it.
    fn unlock(&mut self, cur: usize, rows: &mut Vec<ClassRow>) -> (r: Sched)
        requires
            old(self).wf(),
            old(self).locked(),
            cur < old(rows).len(),
            rows_cover(old(rows)@, old(self).rid() as int),
            forall|k: int|
                0 <= k < old(self).waiters().len() ==> #[trigger] old(self).waiters()[k] < old(
                    rows,
                ).len(),
        ensures
            final(self).wf(),
            final(self).rid() == old(self).rid(),
            same_shape(old(rows)@, final(rows)@),
            old(self).waiters().len() == 0 ==> r == Sched::Proceed && !final(self).locked()
                && final(self).waiters() == old(self).waiters() && rows_set(
                old(rows)@,
                final(rows)@,
                cur as int,
                old(self).rid() as int,
                Some(0usize),
                None,
            ),
            old(self).waiters().len() > 0 ==> r == Sched::Wake(old(self).waiters()[0])
                && final(self).locked() && final(self).waiters() == old(self).waiters().drop_first()
                && handed_over(
                old(rows)@,
                final(rows)@,
                cur as int,
                old(self).waiters()[0] as int,
                old(self).rid() as int,
            ),
    ;

    /// Records in the caller's row what a `lock` about to be attempted will
    /// do: a request if the mutex is held, otherwise a hold.
    fn update(&self, cur: usize, rows: &mut Vec<ClassRow>)
        requires
            cur < old(rows).len(),
            rows_cover(old(rows)@, self.rid() as int),
        ensures
            same_shape(old(rows)@, final(rows)@),
            self.locked() ==> rows_set(
                old(rows)@,
                final(rows)@,
                cur as int,
                self.rid() as int,
                None,
                Some(1usize),
            ),
            !self.locked() ==> rows_set(
                old(rows)@,
                final(rows)@,
                cur as int,
                self.rid() as int,
                Some(1usize),
                Some(0usize),
            ),
    ;

    /// Whether the mutex is held.
    fn is_locked(&self) -> (r: bool)
        ensures
            r == self.locked(),
    ;
}

/// Records the caller's prospective request or hold of mutex `id`.
fn note_request(locked: bool, id: usize, cur: usize, rows: &mut Vec<ClassRow>)
    requires
        cur < old(rows).len(),
        rows_cover(old(rows)@, id as int),
    ensures
        same_shape(old(rows)@, final(rows)@),
        locked ==> rows_set(old(rows)@, final(rows)@, cur as int, id as int, None, Some(1usize)),
        !locked ==> rows_set(
            old(rows)@,
            final(rows)@,
            cur as int,
            id as int,
            Some(1usize),
            Some(0usize),
        ),
{
    if locked {
        set_entry(rows, cur, id, None, Some(1));
    } else {
        set_entry(rows, cur, id, Some(1), Some(0));
    }
}

/// A mutex whose contenders stay runnable and retry after yielding.
pub struct MutexSpin {
    pub locked: bool,
    pub id: usize,
}

impl MutexSpin {
    /// A free spin mutex with ledger id `id`.
    pub fn new(id: usize) -> (r: MutexSpin)
        ensures
            !r.locked(),
            r.rid() == id,
            r.wf(),
    {
        MutexSpin { locked: false, id }
    }
}

impl Mutex for MutexSpin {
    open spec fn locked(&self) -> bool {
        self.locked
    }

    open spec fn rid(&self) -> nat {
        self.id as nat
    }

    open spec fn waiters(&self) -> Seq<usize> {
        Seq::empty()
    }

    open spec fn queues() -> bool {
        false
    }

    open spec fn wf(&self) -> bool {
        true
    }

    fn lock(&mut self, cur: usize, rows: &mut Vec<ClassRow>) -> (r: Sched) {
        if self.locked {
            proof {
                assert(rows@ =~= old(rows)@);
            }
            Sched::Yield
        } else {
            set_entry(rows, cur, self.id, Some(1), Some(0));
            self.locked = true;
            Sched::Proceed
        }
    }

    fn unlock(&mut self, cur: usize, rows: &mut Vec<ClassRow>) -> (r: Sched) {
        set_entry(rows, cur, self.id, Some(0), None);
        self.locked = false;
        Sched::Proceed
    }

    fn update(&self, cur: usize, rows: &mut Vec<ClassRow>) {
        note_request(self.locked, self.id, cur, rows);
    }

    fn is_locked(&self) -> (r: bool) {
        self.locked
    }
}

/// State of a blocking mutex: whether it is held, and the tasks queued on it.
pub struct MutexBlockingInner {
    pub locked: bool,
    pub wait_queue: VecDeque<usize>,
}

/// A mutex whose contenders block in a FIFO queue; release hands the mutex
/// straight to the front waiter.
pub struct MutexBlocking {
    pub inner: MutexBlockingInner,
    pub id: usize,
}

impl MutexBlocking {
    /// A free blocking mutex with ledger id `id` and nobody waiting.
    pub fn new(id: usize) -> (r: MutexBlocking)
        ensures
            !r.locked(),
            r.rid() == id,
            r.waiters() == Seq::<usize>::empty(),
            r.wf(),
    {
        MutexBlocking { inner: MutexBlockingInner { locked: false, wait_queue: VecDeque::new() }, id }
    }
}

impl Mutex for MutexBlocking {
    open spec fn locked(&self) -> bool {
        self.inner.locked
    }

    open spec fn rid(&self) -> nat {
        self.id as nat
    }

    open spec fn waiters(&self) -> Seq<usize> {
        self.inner.wait_queue@
    }

    open spec fn queues() -> bool {
        true
    }

    open spec fn wf(&self) -> bool {
        !self.inner.locked ==> self.inner.wait_queue@.len() == 0
    }

    fn lock(&mut self, cur: usize, rows: &mut Vec<ClassRow>) -> (r: Sched) {
        if self.inner.locked {
            self.inner.wait_queue.push_back(cur);
            proof {
                assert(rows@ =~= old(rows)@);
            }
            Sched::Block
        } else {
            set_entry(rows, cur, self.id, Some(1), Some(0));
            self.inner.locked = true;
            Sched::Proceed
        }
    }

    fn unlock(&mut self, cur: usize, rows: &mut Vec<ClassRow>) -> (r: Sched) {
        match self.inner.wait_queue.pop_front() {
            Some(next) => {
                assert(old(self).waiters()[0] < rows.len());
                hand_over(rows, cur, next, self.id);
                proof {
                    assert(self.inner.wait_queue@ =~= old(self).inner.wait_queue@.drop_first());
                }
                Sched::Wake(next)
            },
            None => {
                set_entry(rows, cur, self.id, Some(0), None);
                self.inner.locked = false;
                Sched::Proceed
            },
        }
    }

    fn update(&self, cur: usize, rows: &mut Vec<ClassRow>) {
        note_request(self.inner.locked, self.id, cur, rows);
    }

    fn is_locked(&self) -> (r: bool) {
        self.inner.locked
    }
}

/// Strict FIFO hand-over: a blocking mutex wakes its waiters in the order in
/// which they joined the queue. `states[k + 1]` is `states[k]` after an
/// `unlock` that returned `acts[k]` (related as that method's contract says
/// when someone waits); then the `k`-th unlock wakes the `k`-th task of the
/// starting queue, so a task that blocked before another is woken before it.
pub proof fn lemma_fifo_wakeups(states: Seq<MutexBlocking>, acts: Seq<Sched>)
    requires
        states.len() == acts.len() + 1,
        acts.len() <= states[0].waiters().len(),
        forall|k: int|
            0 <= k < acts.len() && (#[trigger] states[k]).waiters().len() > 0 ==> acts[k]
                == Sched::Wake(states[k].waiters()[0]) && states[k + 1].waiters()
                == states[k].waiters().drop_first(),
    ensures
        forall|k: int| 0 <= k < acts.len() ==> #[trigger] acts[k] == Sched::Wake(states[0].waiters()[k]),
{
    let q = states[0].waiters();
    assert forall|k: int| 0 <= k <= acts.len() implies (#[trigger] states[k]).waiters() == q.skip(k) by {
        lemma_queue_after(states, acts, k);
    }
    assert forall|k: int| 0 <= k < acts.len() implies #[trigger] acts[k] == Sched::Wake(q[k]) by {
        assert(states[k].waiters() == q.skip(k));
        assert(q.skip(k)[0] == q[k]);
    }
}

proof fn lemma_queue_after(states: Seq<MutexBlocking>, acts: Seq<Sched>, k: int)
    requires
        states.len() == acts.len() + 1,
        acts.len() <= states[0].waiters().len(),
        forall|k: int|
            0 <= k < acts.len() && (#[trigger] states[k]).waiters().len() > 0 ==> acts[k]
                == Sched::Wake(states[k].waiters()[0]) && states[k + 1].waiters()
                == states[k].waiters().drop_first(),
        0 <= k <= acts.len(),
    ensures
        states[k].waiters() == states[0].waiters().skip(k),
    decreases k,
{
    let q = states[0].waiters();
    if k == 0 {
        assert(q.skip(0) =~= q);
    } else {
        lemma_queue_after(states, acts, k - 1);
        assert(states[k - 1].waiters().len() > 0);
        assert(q.skip(k - 1).drop_first() =~= q.skip(k));
    }
}

} // verus!
