//! A process's synchronization state: its tables of mutexes, semaphores and
//! condition variables (slots may be empty and are reused first-fit), the
//! per-task ledgers of both id-spaces, and the deadlock-detection flag.
use vstd::prelude::*;
use crate::ledger::{ClassRow, rows_sized, rows_cover, rows_set, rows_same, same_shape, handed_over, set_entry, zeroed_at, zero_column};
use crate::sched::Sched;
use crate::detect::{allocs, needs, deadlocked, check_safety};
use crate::mutex::{Mutex, MutexSpin, MutexBlocking};
use crate::semaphore::Semaphore;
use crate::condvar::Condvar;

verus! {

/// A mutex of either kind, as a process's mutex table holds it.
pub enum AnyMutex {
    Spin(MutexSpin),
    Blocking(MutexBlocking),
}

impl AnyMutex {
    pub open spec fn locked(&self) -> bool {
        match self {
            AnyMutex::Spin(m) => m.locked(),
            AnyMutex::Blocking(m) => m.locked(),
        }
    }

    pub open spec fn rid(&self) -> nat {
        match self {
            AnyMutex::Spin(m) => m.rid(),
            AnyMutex::Blocking(m) => m.rid(),
        }
    }

    pub open spec fn waiters(&self) -> Seq<usize> {
        match self {
            AnyMutex::Spin(m) => m.waiters(),
            AnyMutex::Blocking(m) => m.waiters(),
        }
    }

    /// Whether a contended lock queues the caller (blocking kind).
    pub open spec fn blocks(&self) -> bool {
        self is Blocking
    }

    pub open spec fn wf(&self) -> bool {
        match self {
            AnyMutex::Spin(m) => m.wf(),
            AnyMutex::Blocking(m) => m.wf(),
        }
    }

    /// Takes the mutex if free; otherwise yields (spin) or queues the caller
    /// (blocking). See [`Mutex::lock`].
    pub fn lock(&mut self, cur: usize, rows: &mut Vec<ClassRow>) -> (r: Sched)
        requires
            old(self).wf(),
            cur < old(rows).len(),
            rows_cover(old(rows)@, old(self).rid() as int),
        ensures
            final(self).wf(),
            final(self).rid() == old(self).rid(),
            final(self).blocks() == old(self).blocks(),
            final(self).locked(),
            same_shape(old(rows)@, final(rows)@),
            !old(self).locked() ==> r == Sched::Proceed && final(self).waiters() == old(self).waiters() && rows_set(
                old(rows)@,
                final(rows)@,
                cur as int,
                old(self).rid() as int,
                Some(1usize),
                Some(0usize),
            ),
            old(self).locked() && old(self).blocks() ==> r == Sched::Block
                && final(self).waiters() == old(self).waiters().push(cur) && rows_same(
                old(rows)@,
                final(rows)@,
            ),
            old(self).locked() && !old(self).blocks() ==> r == Sched::Yield && final(self).waiters()
                == old(self).waiters() && rows_same(old(rows)@, final(rows)@),
    {
        match self {
            AnyMutex::Spin(m) => m.lock(cur, rows),
            AnyMutex::Blocking(m) => m.lock(cur, rows),
        }
    }

    /// Releases the mutex, handing it to the front waiter if any. See
    /// [`Mutex::unlock`].
    pub fn unlock(&mut self, cur: usize, rows: &mut Vec<ClassRow>) -> (r: Sched)
        requires
            old(self).wf(),
            old(self).locked(),
            cur < old(rows).len(),
            rows_cover(old(rows)@, old(self).rid() as int),
            forall|k: int|
                0 <= k < old(self).waiters().len() ==> #[trigger] old(self).waiters()[k] < old(rows).len(),
        ensures
            final(self).wf(),
            final(self).rid() == old(self).rid(),
            final(self).blocks() == old(self).blocks(),
            same_shape(old(rows)@, final(rows)@),
            old(self).waiters().len() == 0 ==> r == Sched::Proceed && !final(self).locked()
                && final(self).waiters() == old(self).waiters() && rows_set(
                old(rows)@,
                final(rows)@,
                cur as int,
                old(self).rid() as int,
                Some(0usize),
                None,
            ),
            old(self).waiters().len() > 0 ==> r == Sched::Wake(old(self).waiters()[0])
                && final(self).locked() && final(self).waiters() == old(self).waiters().drop_first()
                && handed_over(
                old(rows)@,
                final(rows)@,
                cur as int,
                old(self).waiters()[0] as int,
                old(self).rid() as int,
            ),
    {
        match self {
            AnyMutex::Spin(m) => m.unlock(cur, rows),
            AnyMutex::Blocking(m) => {
                assert forall|k: int| 0 <= k < m.waiters().len() implies #[trigger] m.waiters()[k]
                    < rows.len() by {
                    assert(old(self).waiters()[k] < rows.len());
                }
                m.unlock(cur, rows)
            },
        }
    }

    /// Records the caller's prospective request or hold. See [`Mutex::update`].
    pub fn update(&self, cur: usize, rows: &mut Vec<ClassRow>)
        requires
            cur < old(rows).len(),
            rows_cover(old(rows)@, self.rid() as int),
        ensures
            same_shape(old(rows)@, final(rows)@),
            self.locked() ==> rows_set(
                old(rows)@,
                final(rows)@,
                cur as int,
                self.rid() as int,
                None,
                Some(1usize),
            ),
            !self.locked() ==> rows_set(
                old(rows)@,
                final(rows)@,
                cur as int,
                self.rid() as int,
                Some(1usize),
                Some(0usize),
            ),
    {
        match self {
            AnyMutex::Spin(m) => m.update(cur, rows),
            AnyMutex::Blocking(m) => m.update(cur, rows),
        }
    }

    /// Whether the mutex is held.
    pub fn is_locked(&self) -> (r: bool)
        ensures
            r == self.locked(),
    {
        match self {
            AnyMutex::Spin(m) => m.is_locked(),
            AnyMutex::Blocking(m) => m.is_locked(),
        }
    }
}

/// Slot `i` of a mutex table is empty, or holds a consistent mutex with
/// ledger id `i` whose waiters are tasks below `n`.
pub open spec fn mutex_slot_ok(slot: Option<AnyMutex>, i: int, n: nat) -> bool {
    match slot {
        Some(m) => m.rid() == i && m.wf() && forall|k: int|
            0 <= k < m.waiters().len() ==> #[trigger] m.waiters()[k] < n,
        None => true,
    }
}

/// Slot `i` of a semaphore table is empty, or holds a consistent semaphore
/// with ledger id `i` whose waiters are tasks below `n`.
pub open spec fn sem_slot_ok(slot: Option<Semaphore>, i: int, n: nat) -> bool {
    match slot {
        Some(s) => s.id == i && s.wf() && forall|k: int|
            0 <= k < s.wait_queue@.len() ==> #[trigger] s.wait_queue@[k] < n,
        None => true,
    }
}

/// Slot of a condition-variable table: empty, or its waiters are tasks below `n`.
pub open spec fn condvar_slot_ok(slot: Option<Condvar>, n: nat) -> bool {
    match slot {
        Some(c) => forall|k: int| 0 <= k < c.wait_queue@.len() ==> #[trigger] c.wait_queue@[k] < n,
        None => true,
    }
}

/// Free units of each mutex id: one for a free mutex, none for a held one
/// or an empty slot.
pub open spec fn mutex_avail(list: Seq<Option<AnyMutex>>) -> Seq<usize> {
    Seq::new(
        list.len(),
        |i: int|
            match list[i] {
                Some(m) => if m.locked() {
                    0usize
                } else {
                    1usize
                },
                None => 0usize,
            },
    )
}

/// Free units of each semaphore id: its count, none for an empty slot.
pub open spec fn sem_avail(list: Seq<Option<Semaphore>>) -> Seq<usize> {
    Seq::new(
        list.len(),
        |i: int|
            match list[i] {
                Some(s) => s.count,
                None => 0usize,
            },
    )
}

/// What the detector reports under flag `detect`: nothing when off (0), the
/// safety check's result when on (1), and a deadlock for any other value.
pub open spec fn verdict(detect: usize, dead: bool) -> bool {
    detect != 0 && (detect != 1 || dead)
}

/// The synchronization state of one process.
pub struct ProcessSync {
    pub mutex_list: Vec<Option<AnyMutex>>,
    pub semaphore_list: Vec<Option<Semaphore>>,
    pub condvar_list: Vec<Option<Condvar>>,
    /// Mutex ledger, one row per task.
    pub mutex_rows: Vec<ClassRow>,
    /// Semaphore ledger, one row per task.
    pub sem_rows: Vec<ClassRow>,
    /// Deadlock detection: 0 off, 1 on.
    pub detect: usize,
}

impl ProcessSync {
    /// Number of tasks of the process.
    pub open spec fn tasks(&self) -> nat {
        self.mutex_rows@.len()
    }

    pub open spec fn wf(&self) -> bool {
        &&& self.sem_rows@.len() == self.mutex_rows@.len()
        &&& rows_sized(self.mutex_rows@, self.mutex_list@.len())
        &&& rows_sized(self.sem_rows@, self.semaphore_list@.len())
        &&& self.mutex_list@.len() <= TABLE_LIMIT
        &&& self.semaphore_list@.len() <= TABLE_LIMIT
        &&& self.condvar_list@.len() <= TABLE_LIMIT
        &&& forall|i: int|
            0 <= i < self.mutex_list@.len() ==> mutex_slot_ok(
                #[trigger] self.mutex_list@[i],
                i,
                self.tasks(),
            )
        &&& forall|i: int|
            0 <= i < self.semaphore_list@.len() ==> sem_slot_ok(
                #[trigger] self.semaphore_list@[i],
                i,
                self.tasks(),
            )
        &&& forall|i: int|
            0 <= i < self.condvar_list@.len() ==> condvar_slot_ok(
                #[trigger] self.condvar_list@[i],
                self.tasks(),
            )
    }

    /// A process with no tasks, no synchronization objects, and detection off.
    pub fn new() -> (r: ProcessSync)
        ensures
            r.wf(),
            r.tasks() == 0,
            r.mutex_list@.len() == 0,
            r.semaphore_list@.len() == 0,
            r.condvar_list@.len() == 0,
            r.detect == 0,
            exclusive(r.mutex_list@, r.mutex_rows@),
    {
        ProcessSync {
            mutex_list: Vec::new(),
            semaphore_list: Vec::new(),
            condvar_list: Vec::new(),
            mutex_rows: Vec::new(),
            sem_rows: Vec::new(),
            detect: 0,
        }
    }

    /// Adds a task holding and requesting nothing; returns its index.
    pub fn add_task(&mut self) -> (t: usize)
        requires
            old(self).wf(),
            old(self).tasks() < usize::MAX,
        ensures
            final(self).wf(),
            t == old(self).tasks(),
            final(self).tasks() == old(self).tasks() + 1,
            final(self).mutex_list@ == old(self).mutex_list@,
            final(self).semaphore_list@ == old(self).semaphore_list@,
            final(self).condvar_list@ == old(self).condvar_list@,
            final(self).detect == old(self).detect,
            final(self).mutex_rows@.drop_last() == old(self).mutex_rows@,
            final(self).sem_rows@.drop_last() == old(self).sem_rows@,
            final(self).mutex_rows@.last().alloc@ == Seq::new(old(self).mutex_list@.len(), |j: int| 0usize),
            final(self).mutex_rows@.last().need@ == Seq::new(old(self).mutex_list@.len(), |j: int| 0usize),
            final(self).sem_rows@.last().alloc@ == Seq::new(old(self).semaphore_list@.len(), |j: int| 0usize),
            final(self).sem_rows@.last().need@ == Seq::new(old(self).semaphore_list@.len(), |j: int| 0usize),
            exclusive(old(self).mutex_list@, old(self).mutex_rows@) ==> exclusive(
                final(self).mutex_list@,
                final(self).mutex_rows@,
            ),
    {
        let t = self.mutex_rows.len();
        let mr = ClassRow::new(self.mutex_list.len());
        let sr = ClassRow::new(self.semaphore_list.len());
        self.mutex_rows.push(mr);
        self.sem_rows.push(sr);
        proof {
            assert(self.mutex_rows@.drop_last() =~= old(self).mutex_rows@);
            assert(self.sem_rows@.drop_last() =~= old(self).sem_rows@);
            assert forall|i: int| 0 <= i < self.mutex_list@.len() implies mutex_slot_ok(
                #[trigger] self.mutex_list@[i],
                i,
                self.tasks(),
            ) by {
                assert(mutex_slot_ok(old(self).mutex_list@[i], i, old(self).tasks()));
            }
            assert forall|i: int| 0 <= i < self.semaphore_list@.len() implies sem_slot_ok(
                #[trigger] self.semaphore_list@[i],
                i,
                self.tasks(),
            ) by {
                assert(sem_slot_ok(old(self).semaphore_list@[i], i, old(self).tasks()));
            }
            assert forall|i: int| 0 <= i < self.condvar_list@.len() implies condvar_slot_ok(
                #[trigger] self.condvar_list@[i],
                self.tasks(),
            ) by {
                assert(condvar_slot_ok(old(self).condvar_list@[i], old(self).tasks()));
            }
        }
        t
    }
}

/// Deadlock check over the mutex id-space under flag `detect`: free units
/// come from the mutexes' states, holds and requests from the mutex ledger.
pub fn is_dead_mutex(p: &ProcessSync, detect: usize) -> (r: bool)
    requires
        p.wf(),
    ensures
        r == verdict(
            detect,
            deadlocked(mutex_avail(p.mutex_list@), allocs(p.mutex_rows@), needs(p.mutex_rows@)),
        ),
{
    if detect == 0 {
        return false;
    }
    if detect != 1 {
        return true;
    }
    let mut work: Vec<usize> = Vec::new();
    let len = p.mutex_list.len();
    let mut i: usize = 0;
    while i < len
        invariant
            i <= len,
            len == p.mutex_list@.len(),
            work@ == mutex_avail(p.mutex_list@).take(i as int),
        decreases len - i,
    {
        let free: usize = match &p.mutex_list[i] {
            Some(m) => if m.is_locked() {
                0
            } else {
                1
            },
            None => 0,
        };
        work.push(free);
        i = i + 1;
        assert(work@ =~= mutex_avail(p.mutex_list@).take(i as int));
    }
    assert(work@ =~= mutex_avail(p.mutex_list@));
    check_safety(&work, &p.mutex_rows)
}

/// Deadlock check over the semaphore id-space under flag `detect`: free
/// units are the semaphores' counts, holds and requests come from the
/// semaphore ledger.
pub fn is_dead_sem(p: &ProcessSync, detect: usize) -> (r: bool)
    requires
        p.wf(),
    ensures
        r == verdict(
            detect,
            deadlocked(sem_avail(p.semaphore_list@), allocs(p.sem_rows@), needs(p.sem_rows@)),
        ),
{
    if detect == 0 {
        return false;
    }
    if detect != 1 {
        return true;
    }
    let mut work: Vec<usize> = Vec::new();
    let len = p.semaphore_list.len();
    let mut i: usize = 0;
    while i < len
        invariant
            i <= len,
            len == p.semaphore_list@.len(),
            work@ == sem_avail(p.semaphore_list@).take(i as int),
        decreases len - i,
    {
        let free: usize = match &p.semaphore_list[i] {
            Some(s) => s.count,
            None => 0,
        };
        work.push(free);
        i = i + 1;
        assert(work@ =~= sem_avail(p.semaphore_list@).take(i as int));
    }
    assert(work@ =~= sem_avail(p.semaphore_list@));
    check_safety(&work, &p.sem_rows)
}

/// Turns deadlock detection off (0) or on (1) and returns 1; any other value
/// is refused with -1 and leaves the flag as it was.
pub fn sys_enable_deadlock_detect(p: &mut ProcessSync, enabled: usize) -> (r: isize)
    ensures
        (enabled == 0 || enabled == 1) ==> r == 1 && final(p).detect == enabled,
        !(enabled == 0 || enabled == 1) ==> r == -1 && final(p).detect == old(p).detect,
        final(p).mutex_list@ == old(p).mutex_list@,
        final(p).semaphore_list@ == old(p).semaphore_list@,
        final(p).condvar_list@ == old(p).condvar_list@,
        final(p).mutex_rows@ == old(p).mutex_rows@,
        final(p).sem_rows@ == old(p).sem_rows@,
{
    if enabled == 0 || enabled == 1 {
        p.detect = enabled;
        return 1;
    }
    -1
}

/// `r` is the first empty slot of `s`, or `s.len()` when every slot is taken.
pub open spec fn first_free<T>(s: Seq<Option<T>>, r: int) -> bool {
    &&& 0 <= r <= s.len()
    &&& r < s.len() ==> s[r] is None
    &&& forall|k: int| 0 <= k < r ==> #[trigger] s[k] is Some
}

/// Index of the first empty slot, or the length when there is none.
fn find_free<T>(list: &Vec<Option<T>>) -> (r: usize)
    ensures
        first_free(list@, r as int),
{
    let mut i: usize = 0;
    while i < list.len()
        invariant
            i <= list@.len(),
            forall|k: int| 0 <= k < i ==> #[trigger] list@[k] is Some,
        decreases list@.len() - i,
    {
        if list[i].is_none() {
            return i;
        }
        i = i + 1;
    }
    i
}

/// Largest table length, so that every id fits a non-negative `isize` on
/// any target.
pub const TABLE_LIMIT: usize = 0x7fff_fffe;

/// `new` is table `old` with slot `id` (an empty one, or one past the end)
/// filled and every other slot unchanged.
pub open spec fn placed<T>(old: Seq<Option<T>>, new: Seq<Option<T>>, id: int) -> bool {
    &&& new.len() == if id < old.len() {
        old.len()
    } else {
        old.len() + 1
    }
    &&& new[id] is Some
    &&& forall|i: int| 0 <= i < old.len() && i != id ==> #[trigger] new[i] == old[i]
}

/// Every row gained a zero entry for `id`, overwritten or appended.
pub open spec fn column_zeroed(old: Seq<ClassRow>, new: Seq<ClassRow>, id: int) -> bool {
    &&& new.len() == old.len()
    &&& forall|t: int|
        0 <= t < old.len() ==> (#[trigger] new[t]).alloc@ == zeroed_at(old[t].alloc@, id)
            && new[t].need@ == zeroed_at(old[t].need@, id)
}

/// Creates a mutex, blocking or spin, in the first empty slot of the table
/// (appending one when none is empty), zeroes its column of the mutex ledger
/// and returns its id. With no empty slot and the table at its limit, returns
/// -1 and changes nothing.
pub fn sys_mutex_create(p: &mut ProcessSync, blocking: bool) -> (r: isize)
    requires
        old(p).wf(),
    ensures
        exclusive(old(p).mutex_list@, old(p).mutex_rows@) ==> exclusive(final(p).mutex_list@, final(p).mutex_rows@),
        final(p).wf(),
        final(p).tasks() == old(p).tasks(),
        final(p).detect == old(p).detect,
        final(p).semaphore_list@ == old(p).semaphore_list@,
        final(p).condvar_list@ == old(p).condvar_list@,
        final(p).sem_rows@ == old(p).sem_rows@,
        r == -1 <==> first_free(old(p).mutex_list@, old(p).mutex_list@.len() as int)
            && old(p).mutex_list@.len() >= TABLE_LIMIT,
        r == -1 ==> final(p).mutex_list@ == old(p).mutex_list@ && final(p).mutex_rows@ == old(p).mutex_rows@,
        r != -1 ==> r >= 0 && first_free(old(p).mutex_list@, r as int) && placed(
            old(p).mutex_list@,
            final(p).mutex_list@,
            r as int,
        ) && column_zeroed(old(p).mutex_rows@, final(p).mutex_rows@, r as int) && (
        match final(p).mutex_list@[r as int] {
            Some(m) => !m.locked() && m.waiters().len() == 0 && (m.blocks() <==> blocking),
            None => false,
        }),
{
    let id = find_free(&p.mutex_list);
    let len = p.mutex_list.len();
    if id == len && len >= TABLE_LIMIT {
        return -1;
    }
    let m = if blocking {
        AnyMutex::Blocking(MutexBlocking::new(id))
    } else {
        AnyMutex::Spin(MutexSpin::new(id))
    };
    if id < len {
        p.mutex_list.set(id, Some(m));
    } else {
        p.mutex_list.push(Some(m));
    }
    zero_column(&mut p.mutex_rows, id);
    proof {
        let n = p.tasks();
        assert forall|i: int| 0 <= i < p.mutex_list@.len() implies mutex_slot_ok(
            #[trigger] p.mutex_list@[i],
            i,
            n,
        ) by {
            if i != id {
                assert(mutex_slot_ok(old(p).mutex_list@[i], i, n));
            }
        }
    }
    id as isize
}

/// Creates a semaphore with `res_count` free units in the first empty slot
/// of the table (appending one when none is empty), zeroes its column of
/// the semaphore ledger and returns its id. With no empty slot and the table
/// at its limit, returns -1 and changes nothing.
pub fn sys_semaphore_create(p: &mut ProcessSync, res_count: usize) -> (r: isize)
    requires
        old(p).wf(),
    ensures
        final(p).wf(),
        final(p).tasks() == old(p).tasks(),
        final(p).detect == old(p).detect,
        final(p).mutex_list@ == old(p).mutex_list@,
        final(p).condvar_list@ == old(p).condvar_list@,
        final(p).mutex_rows@ == old(p).mutex_rows@,
        r == -1 <==> first_free(old(p).semaphore_list@, old(p).semaphore_list@.len() as int)
            && old(p).semaphore_list@.len() >= TABLE_LIMIT,
        r == -1 ==> final(p).semaphore_list@ == old(p).semaphore_list@ && final(p).sem_rows@
            == old(p).sem_rows@,
        r != -1 ==> r >= 0 && first_free(old(p).semaphore_list@, r as int) && placed(
            old(p).semaphore_list@,
            final(p).semaphore_list@,
            r as int,
        ) && column_zeroed(old(p).sem_rows@, final(p).sem_rows@, r as int) && (
        match final(p).semaphore_list@[r as int] {
            Some(s) => s.count == res_count && s.wait_queue@.len() == 0,
            None => false,
        }),
{
    let id = find_free(&p.semaphore_list);
    let len = p.semaphore_list.len();
    if id == len && len >= TABLE_LIMIT {
        return -1;
    }
    let s = Semaphore::new(res_count, id);
    if id < len {
        p.semaphore_list.set(id, Some(s));
    } else {
        p.semaphore_list.push(Some(s));
    }
    zero_column(&mut p.sem_rows, id);
    proof {
        let n = p.tasks();
        assert forall|i: int| 0 <= i < p.semaphore_list@.len() implies sem_slot_ok(
            #[trigger] p.semaphore_list@[i],
            i,
            n,
        ) by {
            if i != id {
                assert(sem_slot_ok(old(p).semaphore_list@[i], i, n));
            }
        }
    }
    id as isize
}

/// Creates a condition variable in the first empty slot of the table
/// (appending one when none is empty) and returns its id. With no empty slot
/// and the table at its limit, returns -1 and changes nothing.
pub fn sys_condvar_create(p: &mut ProcessSync) -> (r: isize)
    requires
        old(p).wf(),
    ensures
        final(p).wf(),
        final(p).tasks() == old(p).tasks(),
        final(p).detect == old(p).detect,
        final(p).mutex_list@ == old(p).mutex_list@,
        final(p).semaphore_list@ == old(p).semaphore_list@,
        final(p).mutex_rows@ == old(p).mutex_rows@,
        final(p).sem_rows@ == old(p).sem_rows@,
        r == -1 <==> first_free(old(p).condvar_list@, old(p).condvar_list@.len() as int)
            && old(p).condvar_list@.len() >= TABLE_LIMIT,
        r == -1 ==> final(p).condvar_list@ == old(p).condvar_list@,
        r != -1 ==> r >= 0 && first_free(old(p).condvar_list@, r as int) && placed(
            old(p).condvar_list@,
            final(p).condvar_list@,
            r as int,
        ) && (match final(p).condvar_list@[r as int] {
            Some(c) => c.wait_queue@.len() == 0,
            None => false,
        }),
{
    let id = find_free(&p.condvar_list);
    let len = p.condvar_list.len();
    if id == len && len >= TABLE_LIMIT {
        return -1;
    }
    let c = Condvar::new();
    if id < len {
        p.condvar_list.set(id, Some(c));
    } else {
        p.condvar_list.push(Some(c));
    }
    proof {
        let n = p.tasks();
        assert forall|i: int| 0 <= i < p.condvar_list@.len() implies condvar_slot_ok(
            #[trigger] p.condvar_list@[i],
            n,
        ) by {
            if i != id {
                assert(condvar_slot_ok(old(p).condvar_list@[i], n));
            }
        }
    }
    id as isize
}

/// Mutual exclusion as the mutex ledger records it: for every mutex id, a
/// task holds at most one unit, at most one task holds it, and a task holds
/// it only while the mutex is locked.
pub open spec fn exclusive(list: Seq<Option<AnyMutex>>, rows: Seq<ClassRow>) -> bool {
    &&& forall|t: int, id: int|
        0 <= t < rows.len() && 0 <= id < list.len() ==> #[trigger] rows[t].alloc@[id] <= 1 && (
        rows[t].alloc@[id] == 1 ==> list[id] is Some && list[id]->Some_0.locked())
    &&& forall|t1: int, t2: int, id: int|
        0 <= t1 < rows.len() && 0 <= t2 < rows.len() && 0 <= id < list.len() && #[trigger] rows[t1].alloc@[id]
            == 1 && #[trigger] rows[t2].alloc@[id] == 1 ==> t1 == t2
}

/// Task `t` holds mutex `id` according to the ledger.
pub open spec fn holds_mutex(p: ProcessSync, t: int, id: int) -> bool {
    p.mutex_rows@[t].alloc@[id] == 1
}

/// The return value of a lock or down refused by the deadlock detector.
pub const DEADLOCK: isize = -0xDEAD;

/// Matrix `m` with cell (`t`, `j`) set to `v`.
pub open spec fn set_cell(m: Seq<Seq<usize>>, t: int, j: int, v: usize) -> Seq<Seq<usize>> {
    m.update(t, m[t].update(j, v))
}

/// Holds as recorded before an acquisition of id `id` by task `cur`: a
/// hold is noted when a unit is free.
pub open spec fn prospective_allocs(rows: Seq<ClassRow>, cur: int, id: int, free: bool) -> Seq<
    Seq<usize>,
> {
    if free {
        set_cell(allocs(rows), cur, id, 1)
    } else {
        allocs(rows)
    }
}

/// Requests as recorded before an acquisition of id `id` by task `cur`: a
/// request is noted when no unit is free, cleared otherwise.
pub open spec fn prospective_needs(rows: Seq<ClassRow>, cur: int, id: int, free: bool) -> Seq<
    Seq<usize>,
> {
    set_cell(
        needs(rows),
        cur,
        id,
        if free {
            0
        } else {
            1
        },
    )
}

/// Id `id` names a mutex of the table.
pub open spec fn mutex_valid(p: ProcessSync, id: int) -> bool {
    0 <= id < p.mutex_list@.len() && p.mutex_list@[id] is Some
}

/// Whether the detector refuses task `cur`'s lock of mutex `id`.
pub open spec fn mutex_lock_refused(p: ProcessSync, cur: int, id: int) -> bool {
    let m = p.mutex_list@[id]->Some_0;
    verdict(
        p.detect,
        deadlocked(
            mutex_avail(p.mutex_list@),
            prospective_allocs(p.mutex_rows@, cur, id, !m.locked()),
            prospective_needs(p.mutex_rows@, cur, id, !m.locked()),
        ),
    )
}

proof fn lemma_rows_set_views(old: Seq<ClassRow>, new: Seq<ClassRow>, t: int, id: int, free: bool)
    requires
        0 <= t < old.len(),
        rows_set(
            old,
            new,
            t,
            id,
            if free {
                Some(1usize)
            } else {
                None
            },
            Some(
                if free {
                    0usize
                } else {
                    1usize
                },
            ),
        ),
    ensures
        allocs(new) == prospective_allocs(old, t, id, free),
        needs(new) == prospective_needs(old, t, id, free),
{
    assert(allocs(new) =~= prospective_allocs(old, t, id, free));
    assert(needs(new) =~= prospective_needs(old, t, id, free));
}

/// Locks mutex `mutex_id` for task `cur`. The caller's prospective hold or
/// request is recorded first and, with detection on, checked: if the
/// detector reports a deadlock the record is undone and `DEADLOCK` returned
/// without locking. Otherwise the mutex is locked as [`AnyMutex::lock`] says
/// and 0 returned with the scheduler's action; after `Sched::Yield` the
/// caller retries the call. An id naming no mutex gives -1.
pub fn sys_mutex_lock(p: &mut ProcessSync, cur: usize, mutex_id: usize) -> (r: (isize, Sched))
    requires
        old(p).wf(),
        cur < old(p).tasks(),
    ensures
        exclusive(old(p).mutex_list@, old(p).mutex_rows@) ==> exclusive(final(p).mutex_list@, final(p).mutex_rows@),
        final(p).wf(),
        final(p).tasks() == old(p).tasks(),
        final(p).detect == old(p).detect,
        final(p).semaphore_list@ == old(p).semaphore_list@,
        final(p).condvar_list@ == old(p).condvar_list@,
        final(p).sem_rows@ == old(p).sem_rows@,
        final(p).mutex_list@.len() == old(p).mutex_list@.len(),
        forall|i: int|
            0 <= i < old(p).mutex_list@.len() && i != mutex_id ==> #[trigger] final(p).mutex_list@[i]
                == old(p).mutex_list@[i],
        !mutex_valid(*old(p), mutex_id as int) ==> r == (-1isize, Sched::Proceed)
            && final(p).mutex_list@ == old(p).mutex_list@ && rows_same(
            old(p).mutex_rows@,
            final(p).mutex_rows@,
        ),
        mutex_valid(*old(p), mutex_id as int) && mutex_lock_refused(
            *old(p),
            cur as int,
            mutex_id as int,
        ) ==> r == (DEADLOCK, Sched::Proceed) && final(p).mutex_list@ == old(p).mutex_list@
            && rows_same(old(p).mutex_rows@, final(p).mutex_rows@),
        mutex_valid(*old(p), mutex_id as int) && !mutex_lock_refused(
            *old(p),
            cur as int,
            mutex_id as int,
        ) ==> r.0 == 0 && ({
            let m0 = old(p).mutex_list@[mutex_id as int]->Some_0;
            let m1 = final(p).mutex_list@[mutex_id as int]->Some_0;
            &&& final(p).mutex_list@[mutex_id as int] is Some
            &&& m1.locked()
            &&& m1.blocks() == m0.blocks()
            &&& !m0.locked() ==> r.1 == Sched::Proceed && m1.waiters() == m0.waiters() && rows_set(
                old(p).mutex_rows@,
                final(p).mutex_rows@,
                cur as int,
                mutex_id as int,
                Some(1usize),
                Some(0usize),
            )
            &&& m0.locked() ==> rows_set(
                old(p).mutex_rows@,
                final(p).mutex_rows@,
                cur as int,
                mutex_id as int,
                None,
                Some(1usize),
            )
            &&& m0.locked() && m0.blocks() ==> r.1 == Sched::Block && m1.waiters()
                == m0.waiters().push(cur)
            &&& m0.locked() && !m0.blocks() ==> r.1 == Sched::Yield && m1.waiters() == m0.waiters()
        }),
{
    if mutex_id >= p.mutex_list.len() || p.mutex_list[mutex_id].is_none() {
        proof {
            assert(p.mutex_rows@ =~= old(p).mutex_rows@);
        }
        return (-1, Sched::Proceed);
    }
    let ghost n = p.tasks();
    let ghost m0 = old(p).mutex_list@[mutex_id as int]->Some_0;
    proof {
        assert(mutex_slot_ok(p.mutex_list@[mutex_id as int], mutex_id as int, n));
    }
    let a0 = p.mutex_rows[cur].alloc[mutex_id];
    let n0 = p.mutex_rows[cur].need[mutex_id];
    let dead = match &p.mutex_list[mutex_id] {
        Some(m) => {
            m.update(cur, &mut p.mutex_rows);
            proof {
                lemma_rows_set_views(old(p).mutex_rows@, p.mutex_rows@, cur as int, mutex_id as int, !m.locked());
            }
            is_dead_mutex(p, p.detect)
        },
        None => false,
    };
    if dead {
        let ghost mid = p.mutex_rows@;
        set_entry(&mut p.mutex_rows, cur, mutex_id, Some(a0), Some(n0));
        proof {
            assert(p.mutex_rows@[cur as int].alloc@ =~= old(p).mutex_rows@[cur as int].alloc@);
            assert(p.mutex_rows@[cur as int].need@ =~= old(p).mutex_rows@[cur as int].need@);
            assert(p.mutex_list@ =~= old(p).mutex_list@);
        }
        return (DEADLOCK, Sched::Proceed);
    }
    let ghost mid = p.mutex_rows@;
    let act = match &mut p.mutex_list[mutex_id] {
        Some(m) => m.lock(cur, &mut p.mutex_rows),
        None => Sched::Proceed,
    };
    proof {
        let m1 = p.mutex_list@[mutex_id as int]->Some_0;
        if !m0.locked() {
            assert(p.mutex_rows@[cur as int].alloc@ =~= old(p).mutex_rows@[cur as int].alloc@.update(mutex_id as int, 1));
            assert(p.mutex_rows@[cur as int].need@ =~= old(p).mutex_rows@[cur as int].need@.update(mutex_id as int, 0));
        }
        assert forall|i: int| 0 <= i < p.mutex_list@.len() implies mutex_slot_ok(
            #[trigger] p.mutex_list@[i],
            i,
            n,
        ) by {
            if i != mutex_id {
                assert(mutex_slot_ok(old(p).mutex_list@[i], i, n));
            } else {
                assert forall|k: int| 0 <= k < m1.waiters().len() implies #[trigger] m1.waiters()[k] < n by {
                    if k < m0.waiters().len() {
                        assert(m0.waiters()[k] < n);
                    }
                }
            }
        }
    }
    (0, act)
}

/// Unlocks mutex `mutex_id` for task `cur` as [`AnyMutex::unlock`] says and
/// returns 0 with the scheduler's action. An id naming no mutex gives -1.
/// Unlocking a free mutex is a caller bug and is excluded.
pub fn sys_mutex_unlock(p: &mut ProcessSync, cur: usize, mutex_id: usize) -> (r: (isize, Sched))
    requires
        old(p).wf(),
        cur < old(p).tasks(),
        mutex_valid(*old(p), mutex_id as int) ==> old(p).mutex_list@[mutex_id as int]->Some_0.locked(),
    ensures
        exclusive(old(p).mutex_list@, old(p).mutex_rows@) && (mutex_valid(*old(p), mutex_id as int) ==> holds_mutex(*old(p), cur as int, mutex_id as int)) ==> exclusive(final(p).mutex_list@, final(p).mutex_rows@),
        final(p).wf(),
        final(p).tasks() == old(p).tasks(),
        final(p).detect == old(p).detect,
        final(p).semaphore_list@ == old(p).semaphore_list@,
        final(p).condvar_list@ == old(p).condvar_list@,
        final(p).sem_rows@ == old(p).sem_rows@,
        final(p).mutex_list@.len() == old(p).mutex_list@.len(),
        forall|i: int|
            0 <= i < old(p).mutex_list@.len() && i != mutex_id ==> #[trigger] final(p).mutex_list@[i]
                == old(p).mutex_list@[i],
        !mutex_valid(*old(p), mutex_id as int) ==> r == (-1isize, Sched::Proceed)
            && final(p).mutex_list@ == old(p).mutex_list@ && rows_same(
            old(p).mutex_rows@,
            final(p).mutex_rows@,
        ),
        mutex_valid(*old(p), mutex_id as int) ==> r.0 == 0 && ({
            let m0 = old(p).mutex_list@[mutex_id as int]->Some_0;
            let m1 = final(p).mutex_list@[mutex_id as int]->Some_0;
            &&& final(p).mutex_list@[mutex_id as int] is Some
            &&& m1.blocks() == m0.blocks()
            &&& m0.waiters().len() == 0 ==> r.1 == Sched::Proceed && !m1.locked() && m1.waiters()
                == m0.waiters() && rows_set(
                old(p).mutex_rows@,
                final(p).mutex_rows@,
                cur as int,
                mutex_id as int,
                Some(0usize),
                None,
            )
            &&& m0.waiters().len() > 0 ==> r.1 == Sched::Wake(m0.waiters()[0]) && m1.locked()
                && m1.waiters() == m0.waiters().drop_first() && handed_over(
                old(p).mutex_rows@,
                final(p).mutex_rows@,
                cur as int,
                m0.waiters()[0] as int,
                mutex_id as int,
            )
        }),
{
    if mutex_id >= p.mutex_list.len() || p.mutex_list[mutex_id].is_none() {
        proof {
            assert(p.mutex_rows@ =~= old(p).mutex_rows@);
        }
        return (-1, Sched::Proceed);
    }
    let ghost n = p.tasks();
    let ghost m0 = old(p).mutex_list@[mutex_id as int]->Some_0;
    proof {
        assert(mutex_slot_ok(p.mutex_list@[mutex_id as int], mutex_id as int, n));
    }
    let act = match &mut p.mutex_list[mutex_id] {
        Some(m) => m.unlock(cur, &mut p.mutex_rows),
        None => Sched::Proceed,
    };
    proof {
        let m1 = p.mutex_list@[mutex_id as int]->Some_0;
        assert forall|i: int| 0 <= i < p.mutex_list@.len() implies mutex_slot_ok(
            #[trigger] p.mutex_list@[i],
            i,
            n,
        ) by {
            if i != mutex_id {
                assert(mutex_slot_ok(old(p).mutex_list@[i], i, n));
            } else {
                assert forall|k: int| 0 <= k < m1.waiters().len() implies #[trigger] m1.waiters()[k] < n by {
                    assert(m0.waiters()[k + 1] < n);
                }
            }
        }
    }
    (0, act)
}

/// Id `id` names a semaphore of the table.
pub open spec fn sem_valid(p: ProcessSync, id: int) -> bool {
    0 <= id < p.semaphore_list@.len() && p.semaphore_list@[id] is Some
}

/// Whether the detector refuses task `cur`'s down of semaphore `id`.
pub open spec fn sem_down_refused(p: ProcessSync, cur: int, id: int) -> bool {
    let s = p.semaphore_list@[id]->Some_0;
    verdict(
        p.detect,
        deadlocked(
            sem_avail(p.semaphore_list@),
            prospective_allocs(p.sem_rows@, cur, id, s.count > 0),
            prospective_needs(p.sem_rows@, cur, id, s.count > 0),
        ),
    )
}

/// Releases a unit of semaphore `sem_id` for task `cur` as
/// [`Semaphore::up`] says and returns 0 with the scheduler's action. An id
/// naming no semaphore gives -1, and so does a count already at its largest
/// value, which is left as it is.
pub fn sys_semaphore_up(p: &mut ProcessSync, cur: usize, sem_id: usize) -> (r: (isize, Sched))
    requires
        old(p).wf(),
        cur < old(p).tasks(),
    ensures
        final(p).wf(),
        final(p).tasks() == old(p).tasks(),
        final(p).detect == old(p).detect,
        final(p).mutex_list@ == old(p).mutex_list@,
        final(p).condvar_list@ == old(p).condvar_list@,
        final(p).mutex_rows@ == old(p).mutex_rows@,
        final(p).semaphore_list@.len() == old(p).semaphore_list@.len(),
        forall|i: int|
            0 <= i < old(p).semaphore_list@.len() && i != sem_id ==> #[trigger] final(p).semaphore_list@[i] == old(p).semaphore_list@[i],
        !(sem_valid(*old(p), sem_id as int) && old(p).semaphore_list@[sem_id as int]->Some_0.count
            < usize::MAX) ==> r == (-1isize, Sched::Proceed) && final(p).semaphore_list@ == old(p).semaphore_list@ && rows_same(old(p).sem_rows@, final(p).sem_rows@),
        sem_valid(*old(p), sem_id as int) && old(p).semaphore_list@[sem_id as int]->Some_0.count
            < usize::MAX ==> r.0 == 0 && ({
            let s0 = old(p).semaphore_list@[sem_id as int]->Some_0;
            let s1 = final(p).semaphore_list@[sem_id as int]->Some_0;
            &&& final(p).semaphore_list@[sem_id as int] is Some
            &&& s0.wait_queue@.len() == 0 ==> r.1 == Sched::Proceed && s1.count == s0.count + 1
                && s1.wait_queue@ == s0.wait_queue@ && rows_set(
                old(p).sem_rows@,
                final(p).sem_rows@,
                cur as int,
                sem_id as int,
                Some(0usize),
                None,
            )
            &&& s0.wait_queue@.len() > 0 ==> r.1 == Sched::Wake(s0.wait_queue@[0]) && s1.count
                == s0.count && s1.wait_queue@ == s0.wait_queue@.drop_first() && handed_over(
                old(p).sem_rows@,
                final(p).sem_rows@,
                cur as int,
                s0.wait_queue@[0] as int,
                sem_id as int,
            )
        }),
{
    let usable = sem_id < p.semaphore_list.len() && match &p.semaphore_list[sem_id] {
        Some(s) => s.count < usize::MAX,
        None => false,
    };
    if !usable {
        proof {
            assert(p.sem_rows@ =~= old(p).sem_rows@);
        }
        return (-1, Sched::Proceed);
    }
    let ghost n = p.tasks();
    let ghost s0 = old(p).semaphore_list@[sem_id as int]->Some_0;
    proof {
        assert(sem_slot_ok(p.semaphore_list@[sem_id as int], sem_id as int, n));
    }
    let act = match &mut p.semaphore_list[sem_id] {
        Some(s) => s.up(cur, &mut p.sem_rows),
        None => Sched::Proceed,
    };
    proof {
        let s1 = p.semaphore_list@[sem_id as int]->Some_0;
        assert forall|i: int| 0 <= i < p.semaphore_list@.len() implies sem_slot_ok(
            #[trigger] p.semaphore_list@[i],
            i,
            n,
        ) by {
            if i != sem_id {
                assert(sem_slot_ok(old(p).semaphore_list@[i], i, n));
            } else {
                assert forall|k: int| 0 <= k < s1.wait_queue@.len() implies #[trigger] s1.wait_queue@[k] < n by {
                    assert(s0.wait_queue@[k + 1] < n);
                }
            }
        }
    }
    (0, act)
}

/// Acquires a unit of semaphore `sem_id` for task `cur`. The caller's
/// prospective hold or request is recorded first and, with detection on,
/// checked: if the detector reports a deadlock the record is undone and
/// `DEADLOCK` returned without acquiring. Otherwise the unit is acquired as
/// [`Semaphore::down`] says and 0 returned with the scheduler's action. An id
/// naming no semaphore gives -1.
pub fn sys_semaphore_down(p: &mut ProcessSync, cur: usize, sem_id: usize) -> (r: (isize, Sched))
    requires
        old(p).wf(),
        cur < old(p).tasks(),
    ensures
        final(p).wf(),
        final(p).tasks() == old(p).tasks(),
        final(p).detect == old(p).detect,
        final(p).mutex_list@ == old(p).mutex_list@,
        final(p).condvar_list@ == old(p).condvar_list@,
        final(p).mutex_rows@ == old(p).mutex_rows@,
        final(p).semaphore_list@.len() == old(p).semaphore_list@.len(),
        forall|i: int|
            0 <= i < old(p).semaphore_list@.len() && i != sem_id ==> #[trigger] final(p).semaphore_list@[i] == old(p).semaphore_list@[i],
        !sem_valid(*old(p), sem_id as int) ==> r == (-1isize, Sched::Proceed)
            && final(p).semaphore_list@ == old(p).semaphore_list@ && rows_same(
            old(p).sem_rows@,
            final(p).sem_rows@,
        ),
        sem_valid(*old(p), sem_id as int) && sem_down_refused(*old(p), cur as int, sem_id as int)
            ==> r == (DEADLOCK, Sched::Proceed) && final(p).semaphore_list@ == old(p).semaphore_list@ && rows_same(old(p).sem_rows@, final(p).sem_rows@),
        sem_valid(*old(p), sem_id as int) && !sem_down_refused(*old(p), cur as int, sem_id as int)
            ==> r.0 == 0 && ({
            let s0 = old(p).semaphore_list@[sem_id as int]->Some_0;
            let s1 = final(p).semaphore_list@[sem_id as int]->Some_0;
            &&& final(p).semaphore_list@[sem_id as int] is Some
            &&& s0.count > 0 ==> r.1 == Sched::Proceed && s1.count == s0.count - 1 && s1.wait_queue@
                == s0.wait_queue@ && rows_set(
                old(p).sem_rows@,
                final(p).sem_rows@,
                cur as int,
                sem_id as int,
                Some(1usize),
                Some(0usize),
            )
            &&& s0.count == 0 ==> r.1 == Sched::Block && s1.count == 0 && s1.wait_queue@
                == s0.wait_queue@.push(cur) && rows_set(
                old(p).sem_rows@,
                final(p).sem_rows@,
                cur as int,
                sem_id as int,
                None,
                Some(1usize),
            )
        }),
{
    if sem_id >= p.semaphore_list.len() || p.semaphore_list[sem_id].is_none() {
        proof {
            assert(p.sem_rows@ =~= old(p).sem_rows@);
        }
        return (-1, Sched::Proceed);
    }
    let ghost n = p.tasks();
    let ghost s0 = old(p).semaphore_list@[sem_id as int]->Some_0;
    proof {
        assert(sem_slot_ok(p.semaphore_list@[sem_id as int], sem_id as int, n));
    }
    let a0 = p.sem_rows[cur].alloc[sem_id];
    let n0 = p.sem_rows[cur].need[sem_id];
    let dead = match &p.semaphore_list[sem_id] {
        Some(s) => {
            s.update(cur, &mut p.sem_rows);
            proof {
                lemma_rows_set_views(old(p).sem_rows@, p.sem_rows@, cur as int, sem_id as int, s.count > 0);
            }
            is_dead_sem(p, p.detect)
        },
        None => false,
    };
    if dead {
        set_entry(&mut p.sem_rows, cur, sem_id, Some(a0), Some(n0));
        proof {
            assert(p.sem_rows@[cur as int].alloc@ =~= old(p).sem_rows@[cur as int].alloc@);
            assert(p.sem_rows@[cur as int].need@ =~= old(p).sem_rows@[cur as int].need@);
            assert(p.semaphore_list@ =~= old(p).semaphore_list@);
        }
        return (DEADLOCK, Sched::Proceed);
    }
    let act = match &mut p.semaphore_list[sem_id] {
        Some(s) => s.down(cur, &mut p.sem_rows),
        None => Sched::Proceed,
    };
    proof {
        let s1 = p.semaphore_list@[sem_id as int]->Some_0;
        if s0.count > 0 {
            assert(p.sem_rows@[cur as int].alloc@ =~= old(p).sem_rows@[cur as int].alloc@.update(sem_id as int, 1));
            assert(p.sem_rows@[cur as int].need@ =~= old(p).sem_rows@[cur as int].need@.update(sem_id as int, 0));
        }
        assert forall|i: int| 0 <= i < p.semaphore_list@.len() implies sem_slot_ok(
            #[trigger] p.semaphore_list@[i],
            i,
            n,
        ) by {
            if i != sem_id {
                assert(sem_slot_ok(old(p).semaphore_list@[i], i, n));
            } else {
                assert forall|k: int| 0 <= k < s1.wait_queue@.len() implies #[trigger] s1.wait_queue@[k] < n by {
                    if k < s0.wait_queue@.len() {
                        assert(s0.wait_queue@[k] < n);
                    }
                }
            }
        }
    }
    (0, act)
}

/// Id `id` names a condition variable of the table.
pub open spec fn condvar_valid(p: ProcessSync, id: int) -> bool {
    0 <= id < p.condvar_list@.len() && p.condvar_list@[id] is Some
}

/// Wakes the task that has waited longest on condition variable
/// `condvar_id`, if any, and returns 0 with the scheduler's action. An id
/// naming no condition variable gives -1.
pub fn sys_condvar_signal(p: &mut ProcessSync, condvar_id: usize) -> (r: (isize, Sched))
    requires
        old(p).wf(),
    ensures
        final(p).wf(),
        final(p).tasks() == old(p).tasks(),
        final(p).detect == old(p).detect,
        final(p).mutex_list@ == old(p).mutex_list@,
        final(p).semaphore_list@ == old(p).semaphore_list@,
        final(p).mutex_rows@ == old(p).mutex_rows@,
        final(p).sem_rows@ == old(p).sem_rows@,
        final(p).condvar_list@.len() == old(p).condvar_list@.len(),
        forall|i: int|
            0 <= i < old(p).condvar_list@.len() && i != condvar_id ==> #[trigger] final(p).condvar_list@[i]
                == old(p).condvar_list@[i],
        !condvar_valid(*old(p), condvar_id as int) ==> r == (-1isize, Sched::Proceed)
            && final(p).condvar_list@ == old(p).condvar_list@,
        condvar_valid(*old(p), condvar_id as int) ==> r.0 == 0 && ({
            let q0 = old(p).condvar_list@[condvar_id as int]->Some_0.wait_queue@;
            let q1 = final(p).condvar_list@[condvar_id as int]->Some_0.wait_queue@;
            &&& final(p).condvar_list@[condvar_id as int] is Some
            &&& q0.len() == 0 ==> r.1 == Sched::Proceed && q1 == q0
            &&& q0.len() > 0 ==> r.1 == Sched::Wake(q0[0]) && q1 == q0.drop_first()
        }),
{
    if condvar_id >= p.condvar_list.len() || p.condvar_list[condvar_id].is_none() {
        return (-1, Sched::Proceed);
    }
    let ghost n = p.tasks();
    let ghost q0 = old(p).condvar_list@[condvar_id as int]->Some_0.wait_queue@;
    proof {
        assert(condvar_slot_ok(p.condvar_list@[condvar_id as int], n));
    }
    let act = match &mut p.condvar_list[condvar_id] {
        Some(c) => c.signal(),
        None => Sched::Proceed,
    };
    proof {
        let q1 = p.condvar_list@[condvar_id as int]->Some_0.wait_queue@;
        assert forall|i: int| 0 <= i < p.condvar_list@.len() implies condvar_slot_ok(
            #[trigger] p.condvar_list@[i],
            n,
        ) by {
            if i != condvar_id {
                assert(condvar_slot_ok(old(p).condvar_list@[i], n));
            } else {
                assert forall|k: int| 0 <= k < q1.len() implies #[trigger] q1[k] < n by {
                    assert(q0[k + 1] < n);
                }
            }
        }
    }
    (0, act)
}

/// Task `cur` waits on condition variable `condvar_id`, releasing mutex
/// `mutex_id` on the way as [`Condvar::wait`] says; returns 0 with the
/// scheduler's action (the caller blocks). Once woken, the caller locks the
/// mutex again itself. An id naming no condition variable or no mutex gives
/// -1. Waiting with the mutex free is a caller bug and is excluded.
pub fn sys_condvar_wait(p: &mut ProcessSync, cur: usize, condvar_id: usize, mutex_id: usize) -> (r: (
    isize,
    Sched,
))
    requires
        old(p).wf(),
        cur < old(p).tasks(),
        mutex_valid(*old(p), mutex_id as int) ==> old(p).mutex_list@[mutex_id as int]->Some_0.locked(),
    ensures
        exclusive(old(p).mutex_list@, old(p).mutex_rows@) && (mutex_valid(*old(p), mutex_id as int) ==> holds_mutex(*old(p), cur as int, mutex_id as int)) ==> exclusive(final(p).mutex_list@, final(p).mutex_rows@),
        final(p).wf(),
        final(p).tasks() == old(p).tasks(),
        final(p).detect == old(p).detect,
        final(p).semaphore_list@ == old(p).semaphore_list@,
        final(p).sem_rows@ == old(p).sem_rows@,
        final(p).mutex_list@.len() == old(p).mutex_list@.len(),
        final(p).condvar_list@.len() == old(p).condvar_list@.len(),
        forall|i: int|
            0 <= i < old(p).mutex_list@.len() && i != mutex_id ==> #[trigger] final(p).mutex_list@[i]
                == old(p).mutex_list@[i],
        forall|i: int|
            0 <= i < old(p).condvar_list@.len() && i != condvar_id ==> #[trigger] final(p).condvar_list@[i]
                == old(p).condvar_list@[i],
        !(condvar_valid(*old(p), condvar_id as int) && mutex_valid(*old(p), mutex_id as int)) ==> r
            == (-1isize, Sched::Proceed) && final(p).mutex_list@ == old(p).mutex_list@
            && final(p).condvar_list@ == old(p).condvar_list@ && rows_same(
            old(p).mutex_rows@,
            final(p).mutex_rows@,
        ),
        condvar_valid(*old(p), condvar_id as int) && mutex_valid(*old(p), mutex_id as int) ==> r.0
            == 0 && ({
            let q0 = old(p).condvar_list@[condvar_id as int]->Some_0.wait_queue@;
            let q1 = final(p).condvar_list@[condvar_id as int]->Some_0.wait_queue@;
            let m0 = old(p).mutex_list@[mutex_id as int]->Some_0;
            let m1 = final(p).mutex_list@[mutex_id as int]->Some_0;
            &&& final(p).condvar_list@[condvar_id as int] is Some
            &&& final(p).mutex_list@[mutex_id as int] is Some
            &&& q1 == q0.push(cur)
            &&& m1.blocks() == m0.blocks()
            &&& m0.waiters().len() == 0 ==> r.1 == Sched::Block && !m1.locked() && m1.waiters()
                == m0.waiters() && rows_set(
                old(p).mutex_rows@,
                final(p).mutex_rows@,
                cur as int,
                mutex_id as int,
                Some(0usize),
                None,
            )
            &&& m0.waiters().len() > 0 ==> r.1 == Sched::WakeAndBlock(m0.waiters()[0])
                && m1.locked() && m1.waiters() == m0.waiters().drop_first() && handed_over(
                old(p).mutex_rows@,
                final(p).mutex_rows@,
                cur as int,
                m0.waiters()[0] as int,
                mutex_id as int,
            )
        }),
{
    if condvar_id >= p.condvar_list.len() || p.condvar_list[condvar_id].is_none() || mutex_id
        >= p.mutex_list.len() || p.mutex_list[mutex_id].is_none() {
        proof {
            assert(p.mutex_rows@ =~= old(p).mutex_rows@);
        }
        return (-1, Sched::Proceed);
    }
    let ghost n = p.tasks();
    let ghost m0 = old(p).mutex_list@[mutex_id as int]->Some_0;
    let ghost q0 = old(p).condvar_list@[condvar_id as int]->Some_0.wait_queue@;
    proof {
        assert(mutex_slot_ok(p.mutex_list@[mutex_id as int], mutex_id as int, n));
        assert(condvar_slot_ok(p.condvar_list@[condvar_id as int], n));
    }
    let act = match &mut p.condvar_list[condvar_id] {
        Some(c) => match &mut p.mutex_list[mutex_id] {
            Some(AnyMutex::Spin(m)) => c.wait(m, cur, &mut p.mutex_rows),
            Some(AnyMutex::Blocking(m)) => {
                assert forall|k: int| 0 <= k < m.waiters().len() implies #[trigger] m.waiters()[k]
                    < n by {
                    assert(m0.waiters()[k] < n);
                }
                c.wait(m, cur, &mut p.mutex_rows)
            },
            None => Sched::Proceed,
        },
        None => Sched::Proceed,
    };
    proof {
        let m1 = p.mutex_list@[mutex_id as int]->Some_0;
        let q1 = p.condvar_list@[condvar_id as int]->Some_0.wait_queue@;
        assert forall|i: int| 0 <= i < p.mutex_list@.len() implies mutex_slot_ok(
            #[trigger] p.mutex_list@[i],
            i,
            n,
        ) by {
            if i != mutex_id {
                assert(mutex_slot_ok(old(p).mutex_list@[i], i, n));
            } else {
                assert forall|k: int| 0 <= k < m1.waiters().len() implies #[trigger] m1.waiters()[k] < n by {
                    assert(m0.waiters()[k + 1] < n);
                }
            }
        }
        assert forall|i: int| 0 <= i < p.condvar_list@.len() implies condvar_slot_ok(
            #[trigger] p.condvar_list@[i],
            n,
        ) by {
            if i != condvar_id {
                assert(condvar_slot_ok(old(p).condvar_list@[i], n));
            } else {
                assert forall|k: int| 0 <= k < q1.len() implies #[trigger] q1[k] < n by {
                    if k < q0.len() {
                        assert(q0[k] < n);
                    }
                }
            }
        }
    }
    (0, act)
}

/// Deadline of a sleep of `ms` milliseconds started at `now_ms`: their sum,
/// or the largest time when the sum does not fit. The caller arms a timer for
/// it, blocks, and returns 0 once woken.
pub fn sys_sleep(now_ms: usize, ms: usize) -> (r: (isize, usize))
    ensures
        r.0 == 0,
        r.1 == if now_ms + ms <= usize::MAX {
            (now_ms + ms) as usize
        } else {
            usize::MAX
        },
{
    (0, now_ms.saturating_add(ms))
}

} // verus!
