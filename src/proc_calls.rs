//! The computing part of the process-management system calls: time
//! conversion, task statistics, argument checks and page ranges for memory
//! mapping, priority/stride, and the choice of child to reap. The caller
//! performs the effects (writing user memory, mapping pages, reaping).
use vstd::prelude::*;

verus! {

/// Microseconds in one second.
pub const USEC_PER_SEC: usize = 1_000_000;

/// Bytes in one page.
pub const PAGE_SIZE: usize = 4096;

/// A time value as seconds and microseconds.
#[derive(Debug, Clone, Copy, PartialEq, Eq, Structural)]
pub struct TimeVal {
    pub sec: usize,
    pub usec: usize,
}

/// Splits a time in microseconds into seconds and microseconds; returns 0
/// with the value to write to the user's buffer.
pub fn sys_get_time(us: usize) -> (r: (isize, TimeVal))
    ensures
        r.0 == 0,
        r.1.sec == us / USEC_PER_SEC,
        r.1.usec == us % USEC_PER_SEC,
        r.1.sec * USEC_PER_SEC + r.1.usec == us,
{
    (0, TimeVal { sec: us / USEC_PER_SEC, usec: us % USEC_PER_SEC })
}

/// Life-cycle state of a task.
#[derive(Debug, Clone, Copy, PartialEq, Eq, Structural)]
pub enum TaskStatus {
    UnInit,
    Ready,
    Running,
    Exited,
}

/// What a task learns about itself: its state, how often it made each
/// system call, and how long it has existed, in milliseconds.
pub struct TaskInfo {
    pub status: TaskStatus,
    pub syscall_times: Vec<u32>,
    pub time: usize,
}

/// Builds the information of the running task from the current time and its
/// first-run time (both in microseconds) and its system-call counts; returns
/// 0 with the value to write to the user's buffer.
pub fn sys_task_info(now_us: usize, first_us: usize, syscall_times: Vec<u32>) -> (r: (
    isize,
    TaskInfo,
))
    requires
        first_us <= now_us,
    ensures
        r.0 == 0,
        r.1.status == TaskStatus::Running,
        r.1.syscall_times@ == syscall_times@,
        r.1.time == (now_us - first_us) / 1000,
{
    (0, TaskInfo { status: TaskStatus::Running, syscall_times, time: (now_us - first_us) / 1000 })
}

/// Pages to map or unmap: virtual page numbers `start_vpn..end_vpn`, and
/// for a mapping the permission bits (user 16, read 2, write 4, execute 8).
#[derive(Debug, Clone, Copy, PartialEq, Eq, Structural)]
pub struct PageRange {
    pub start_vpn: usize,
    pub end_vpn: usize,
    pub perm: u8,
}

/// Page number of the first page at or above address `a`.
pub open spec fn ceil_page(a: int) -> int {
    (a + PAGE_SIZE - 1) / (PAGE_SIZE as int)
}

fn page_ceil(a: usize) -> (r: usize)
    ensures
        r == ceil_page(a as int),
{
    a / PAGE_SIZE + if a % PAGE_SIZE == 0 {
        0
    } else {
        1
    }
}

/// Checks a mapping request and computes its pages: `start` must be page
/// aligned, `prot` must have only its three low bits set and at least one of
/// them, and `start + len` must fit an address. Refused requests give `None`
/// (the call returns -1).
pub fn sys_mmap(start: usize, len: usize, prot: usize) -> (r: Option<PageRange>)
    ensures
        r is None <==> start % PAGE_SIZE != 0 || prot >= 8 || prot == 0 || start + len
            > usize::MAX,
        r is Some ==> r->Some_0.start_vpn == start / PAGE_SIZE && r->Some_0.end_vpn == ceil_page(
            start + len,
        ) && r->Some_0.perm == 16 + 2 * prot,
{
    if start % PAGE_SIZE != 0 || prot >= 8 || prot == 0 {
        return None;
    }
    if len > usize::MAX - start {
        return None;
    }
    let end = start + len;
    let perm: u8 = 16 + 2 * (prot as u8);
    Some(PageRange { start_vpn: start / PAGE_SIZE, end_vpn: page_ceil(end), perm })
}

/// Checks an unmapping request and computes its pages: `start` must be page
/// aligned and `start + len` must fit an address. Refused requests give
/// `None` (the call returns -1). The permission field is left zero.
pub fn sys_munmap(start: usize, len: usize) -> (r: Option<PageRange>)
    ensures
        r is None <==> start % PAGE_SIZE != 0 || start + len > usize::MAX,
        r is Some ==> r->Some_0.start_vpn == start / PAGE_SIZE && r->Some_0.end_vpn == ceil_page(
            start + len,
        ) && r->Some_0.perm == 0,
{
    if start % PAGE_SIZE != 0 {
        return None;
    }
    if len > usize::MAX - start {
        return None;
    }
    Some(PageRange { start_vpn: start / PAGE_SIZE, end_vpn: page_ceil(start + len), perm: 0 })
}

/// Sets a task's priority: below 2 it is refused with -1 and `None`;
/// otherwise the call returns the priority, with the new priority and the
/// stride `big_stride / prio` for the scheduler.
pub fn sys_set_priority(prio: isize, big_stride: usize) -> (r: (isize, Option<(usize, usize)>))
    ensures
        prio < 2 ==> r == (-1isize, None::<(usize, usize)>),
        prio >= 2 ==> r.0 == prio && r.1 == Some((prio as usize, (big_stride / (prio as usize)) as usize)),
{
    if prio < 2 {
        return (-1, None);
    }
    let p = prio as usize;
    (prio, Some((p, big_stride / p)))
}

/// A child process as a waiting parent sees it.
#[derive(Debug, Clone, Copy, PartialEq, Eq, Structural)]
pub struct ChildState {
    pub pid: usize,
    pub zombie: bool,
}

/// Child `c` is one that a wait for `pid` accepts (-1 accepts any).
pub open spec fn wanted(pid: isize, c: ChildState) -> bool {
    pid == -1 || (pid >= 0 && pid as int == c.pid as int)
}

/// Decides a wait for child `pid` (-1: any child): -1 when no child is
/// wanted; -2 when none of the wanted ones has exited yet; otherwise the pid
/// of the first wanted child that has exited, with its index so that the
/// caller reaps it.
pub fn sys_waitpid(children: &Vec<ChildState>, pid: isize) -> (r: (isize, Option<usize>))
    ensures
        !(exists|i: int| 0 <= i < children@.len() && wanted(pid, #[trigger] children@[i])) ==> r
            == (-1isize, None::<usize>),
        (exists|i: int| 0 <= i < children@.len() && wanted(pid, #[trigger] children@[i])) && !(
        exists|i: int|
            0 <= i < children@.len() && wanted(pid, #[trigger] children@[i]) && children@[i].zombie)
            ==> r == (-2isize, None::<usize>),
        r.1 is Some ==> ({
            let i = r.1->Some_0 as int;
            &&& 0 <= i < children@.len()
            &&& wanted(pid, children@[i]) && children@[i].zombie
            &&& forall|k: int|
                0 <= k < i ==> !(wanted(pid, #[trigger] children@[k]) && children@[k].zombie)
            &&& r.0 == children@[i].pid as isize
        }),
        (exists|i: int|
            0 <= i < children@.len() && wanted(pid, #[trigger] children@[i]) && children@[i].zombie)
            ==> r.1 is Some,
{
    let mut any = false;
    let mut i: usize = 0;
    while i < children.len()
        invariant
            i <= children@.len(),
            any <==> exists|k: int| 0 <= k < i && wanted(pid, #[trigger] children@[k]),
            forall|k: int|
                0 <= k < i ==> !(wanted(pid, #[trigger] children@[k]) && children@[k].zombie),
        decreases children@.len() - i,
    {
        let c = children[i];
        let w = pid == -1 || (pid >= 0 && pid as usize == c.pid);
        if w && c.zombie {
            return (c.pid as isize, Some(i));
        }
        if w {
            any = true;
        }
        i = i + 1;
    }
    if !any {
        return (-1, None);
    }
    (-2, None)
}

} // verus!
