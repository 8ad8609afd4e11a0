use ksync::detect::check_safety;
use ksync::ledger::ClassRow;
use ksync::process::{
    is_dead_mutex, is_dead_sem, sys_condvar_create, sys_condvar_signal, sys_condvar_wait,
    sys_enable_deadlock_detect, sys_mutex_create, sys_mutex_lock, sys_mutex_unlock,
    sys_semaphore_create, sys_semaphore_down, sys_semaphore_up, sys_sleep, ProcessSync, DEADLOCK,
};
use ksync::sched::Sched;

fn row(alloc: Vec<usize>, need: Vec<usize>) -> ClassRow {
    ClassRow { alloc, need }
}

fn mutex_locked(p: &ProcessSync, id: usize) -> bool {
    p.mutex_list[id].as_ref().unwrap().is_locked()
}

fn mutex_holders(p: &ProcessSync, id: usize) -> usize {
    p.mutex_rows.iter().map(|r| r.alloc[id]).sum()
}

#[test]
fn detector_reports_circular_wait() {
    let avail = vec![0, 0];
    let rows = vec![row(vec![1, 0], vec![0, 1]), row(vec![0, 1], vec![1, 0])];
    assert!(check_safety(&avail, &rows));
}

#[test]
fn detector_accepts_no_outstanding_needs() {
    let avail = vec![0, 0];
    let rows = vec![row(vec![1, 0], vec![0, 0]), row(vec![0, 1], vec![0, 0])];
    assert!(!check_safety(&avail, &rows));
}

#[test]
fn detector_finds_order_through_releases() {
    // Task 0 needs what task 1 holds; task 1 can finish first.
    let avail = vec![0, 0];
    let rows = vec![row(vec![1, 0], vec![0, 1]), row(vec![0, 1], vec![0, 0])];
    assert!(!check_safety(&avail, &rows));
}

#[test]
fn detector_with_no_tasks_or_ids() {
    assert!(!check_safety(&vec![], &vec![]));
    assert!(!check_safety(&vec![3], &vec![]));
    assert!(!check_safety(&vec![], &vec![row(vec![], vec![])]));
}

#[test]
fn detector_semaphore_counts_add_up() {
    // Two units free, one held by task 0; task 1 needs three.
    let avail = vec![2];
    let rows = vec![row(vec![1], vec![0]), row(vec![0], vec![3])];
    assert!(!check_safety(&avail, &rows));
    let rows = vec![row(vec![0], vec![0]), row(vec![0], vec![3])];
    assert!(check_safety(&avail, &rows));
}

#[test]
fn detector_saturates_without_overflow() {
    let avail = vec![usize::MAX];
    let rows = vec![row(vec![usize::MAX], vec![0]), row(vec![0], vec![usize::MAX])];
    assert!(!check_safety(&avail, &rows));
}

#[test]
fn enable_flag_accepts_only_zero_and_one() {
    let mut p = ProcessSync::new();
    assert_eq!(p.detect, 0);
    assert_eq!(sys_enable_deadlock_detect(&mut p, 1), 1);
    assert_eq!(p.detect, 1);
    assert_eq!(sys_enable_deadlock_detect(&mut p, 2), -1);
    assert_eq!(p.detect, 1);
    assert_eq!(sys_enable_deadlock_detect(&mut p, 0), 1);
    assert_eq!(p.detect, 0);
    assert_eq!(sys_enable_deadlock_detect(&mut p, 7), -1);
    assert_eq!(p.detect, 0);
}

#[test]
fn detector_flag_values() {
    let mut p = ProcessSync::new();
    let a = p.add_task();
    assert_eq!(sys_mutex_create(&mut p, true), 0);
    assert_eq!(sys_mutex_lock(&mut p, a, 0), (0, Sched::Proceed));
    assert!(!is_dead_mutex(&p, 0));
    assert!(!is_dead_mutex(&p, 1));
    assert!(is_dead_mutex(&p, 2));
    assert!(!is_dead_sem(&p, 0));
    assert!(!is_dead_sem(&p, 1));
    assert!(is_dead_sem(&p, 9));
}

#[test]
fn blocking_mutex_hands_over_to_waiter() {
    let mut p = ProcessSync::new();
    let x = p.add_task();
    let y = p.add_task();
    assert_eq!(sys_mutex_create(&mut p, true), 0);
    assert_eq!(sys_mutex_lock(&mut p, x, 0), (0, Sched::Proceed));
    assert_eq!(p.mutex_rows[x].alloc[0], 1);
    assert_eq!(sys_mutex_lock(&mut p, y, 0), (0, Sched::Block));
    assert_eq!(p.mutex_rows[y].need[0], 1);
    assert_eq!(p.mutex_rows[y].alloc[0], 0);
    assert_eq!(sys_mutex_unlock(&mut p, x, 0), (0, Sched::Wake(y)));
    assert!(mutex_locked(&p, 0));
    assert_eq!(p.mutex_rows[x].alloc[0], 0);
    assert_eq!(p.mutex_rows[y].alloc[0], 1);
    assert_eq!(p.mutex_rows[y].need[0], 0);
    assert_eq!(sys_mutex_unlock(&mut p, y, 0), (0, Sched::Proceed));
    assert!(!mutex_locked(&p, 0));
    assert_eq!(p.mutex_rows[y].alloc[0], 0);
}

#[test]
fn blocking_mutex_wakes_in_fifo_order() {
    let mut p = ProcessSync::new();
    let o = p.add_task();
    let a = p.add_task();
    let b = p.add_task();
    assert_eq!(sys_mutex_create(&mut p, true), 0);
    assert_eq!(sys_mutex_lock(&mut p, o, 0), (0, Sched::Proceed));
    assert_eq!(sys_mutex_lock(&mut p, a, 0), (0, Sched::Block));
    assert_eq!(sys_mutex_lock(&mut p, b, 0), (0, Sched::Block));
    assert_eq!(sys_mutex_unlock(&mut p, o, 0), (0, Sched::Wake(a)));
    assert_eq!(sys_mutex_unlock(&mut p, a, 0), (0, Sched::Wake(b)));
    assert_eq!(sys_mutex_unlock(&mut p, b, 0), (0, Sched::Proceed));
    assert!(!mutex_locked(&p, 0));
}

#[test]
fn mutual_exclusion_along_a_run() {
    let mut p = ProcessSync::new();
    let t: Vec<usize> = (0..3).map(|_| p.add_task()).collect();
    assert_eq!(sys_mutex_create(&mut p, true), 0);
    assert_eq!(sys_mutex_create(&mut p, false), 1);
    for id in 0..2 {
        assert_eq!(sys_mutex_lock(&mut p, t[0], id).0, 0);
        assert!(mutex_holders(&p, id) <= 1);
        assert_eq!(sys_mutex_lock(&mut p, t[1], id).0, 0);
        assert!(mutex_holders(&p, id) <= 1);
        assert_eq!(sys_mutex_lock(&mut p, t[2], id).0, 0);
        assert!(mutex_holders(&p, id) <= 1);
        assert_eq!(sys_mutex_unlock(&mut p, t[0], id).0, 0);
        assert!(mutex_holders(&p, id) <= 1);
    }
    // The spin mutex is free again: one of the spinning tasks takes it.
    assert_eq!(sys_mutex_lock(&mut p, t[1], 1), (0, Sched::Proceed));
    assert_eq!(mutex_holders(&p, 1), 1);
    assert_eq!(sys_mutex_lock(&mut p, t[2], 1), (0, Sched::Yield));
    assert_eq!(mutex_holders(&p, 1), 1);
}

#[test]
fn spin_mutex_yields_while_held() {
    let mut p = ProcessSync::new();
    let a = p.add_task();
    let b = p.add_task();
    assert_eq!(sys_mutex_create(&mut p, false), 0);
    assert_eq!(sys_mutex_lock(&mut p, a, 0), (0, Sched::Proceed));
    assert_eq!(sys_mutex_lock(&mut p, b, 0), (0, Sched::Yield));
    assert_eq!(p.mutex_rows[b].need[0], 1);
    assert_eq!(sys_mutex_unlock(&mut p, a, 0), (0, Sched::Proceed));
    assert!(!mutex_locked(&p, 0));
    assert_eq!(sys_mutex_lock(&mut p, b, 0), (0, Sched::Proceed));
    assert_eq!(p.mutex_rows[b].alloc[0], 1);
    assert_eq!(p.mutex_rows[b].need[0], 0);
}

#[test]
fn mutex_lock_refused_on_circular_wait() {
    let mut p = ProcessSync::new();
    let a = p.add_task();
    let b = p.add_task();
    assert_eq!(sys_enable_deadlock_detect(&mut p, 1), 1);
    assert_eq!(sys_mutex_create(&mut p, true), 0);
    assert_eq!(sys_mutex_create(&mut p, true), 1);
    assert_eq!(sys_mutex_lock(&mut p, a, 0), (0, Sched::Proceed));
    assert_eq!(sys_mutex_lock(&mut p, b, 1), (0, Sched::Proceed));
    assert_eq!(sys_mutex_lock(&mut p, a, 1), (0, Sched::Block));
    assert_eq!(sys_mutex_lock(&mut p, b, 0), (DEADLOCK, Sched::Proceed));
    assert_eq!(DEADLOCK, -0xDEAD);
    // The refused request left no trace.
    assert_eq!(p.mutex_rows[b].need[0], 0);
    assert_eq!(p.mutex_rows[b].alloc[0], 0);
    assert!(mutex_locked(&p, 0));
}

#[test]
fn mutex_lock_without_detection_is_not_refused() {
    let mut p = ProcessSync::new();
    let a = p.add_task();
    let b = p.add_task();
    assert_eq!(sys_mutex_create(&mut p, true), 0);
    assert_eq!(sys_mutex_create(&mut p, true), 1);
    assert_eq!(sys_mutex_lock(&mut p, a, 0).0, 0);
    assert_eq!(sys_mutex_lock(&mut p, b, 1).0, 0);
    assert_eq!(sys_mutex_lock(&mut p, a, 1), (0, Sched::Block));
    assert_eq!(sys_mutex_lock(&mut p, b, 0), (0, Sched::Block));
}

#[test]
fn invalid_flag_refuses_every_lock() {
    let mut p = ProcessSync::new();
    let a = p.add_task();
    assert_eq!(sys_mutex_create(&mut p, true), 0);
    p.detect = 3;
    assert_eq!(sys_mutex_lock(&mut p, a, 0), (DEADLOCK, Sched::Proceed));
    assert!(!mutex_locked(&p, 0));
    assert_eq!(p.mutex_rows[a].alloc[0], 0);
}

#[test]
fn unknown_ids_are_rejected() {
    let mut p = ProcessSync::new();
    let a = p.add_task();
    assert_eq!(sys_mutex_lock(&mut p, a, 0), (-1, Sched::Proceed));
    assert_eq!(sys_mutex_unlock(&mut p, a, 4), (-1, Sched::Proceed));
    assert_eq!(sys_semaphore_up(&mut p, a, 0), (-1, Sched::Proceed));
    assert_eq!(sys_semaphore_down(&mut p, a, 0), (-1, Sched::Proceed));
    assert_eq!(sys_condvar_signal(&mut p, 0), (-1, Sched::Proceed));
    assert_eq!(sys_condvar_wait(&mut p, a, 0, 0), (-1, Sched::Proceed));
    assert_eq!(sys_condvar_create(&mut p), 0);
    assert_eq!(sys_condvar_wait(&mut p, a, 0, 0), (-1, Sched::Proceed));
}

#[test]
fn creation_reuses_first_free_slot() {
    let mut p = ProcessSync::new();
    let a = p.add_task();
    assert_eq!(sys_mutex_create(&mut p, true), 0);
    assert_eq!(sys_mutex_create(&mut p, false), 1);
    assert_eq!(sys_mutex_create(&mut p, true), 2);
    assert_eq!(p.mutex_rows[a].alloc.len(), 3);
    assert_eq!(sys_mutex_lock(&mut p, a, 1).0, 0);
    p.mutex_list[1] = None;
    assert_eq!(sys_mutex_create(&mut p, true), 1);
    assert_eq!(p.mutex_rows[a].alloc, vec![0, 0, 0]);
    assert_eq!(p.mutex_list.len(), 3);

    assert_eq!(sys_semaphore_create(&mut p, 2), 0);
    assert_eq!(sys_semaphore_create(&mut p, 0), 1);
    p.semaphore_list[0] = None;
    assert_eq!(sys_semaphore_create(&mut p, 5), 0);
    assert_eq!(p.semaphore_list[0].as_ref().unwrap().count, 5);
    assert_eq!(p.sem_rows[a].alloc.len(), 2);

    assert_eq!(sys_condvar_create(&mut p), 0);
    assert_eq!(sys_condvar_create(&mut p), 1);
    p.condvar_list[0] = None;
    assert_eq!(sys_condvar_create(&mut p), 0);
    assert_eq!(sys_condvar_create(&mut p), 2);
}

#[test]
fn new_task_gets_zero_rows() {
    let mut p = ProcessSync::new();
    let a = p.add_task();
    assert_eq!(sys_mutex_create(&mut p, true), 0);
    assert_eq!(sys_semaphore_create(&mut p, 1), 0);
    assert_eq!(sys_semaphore_create(&mut p, 1), 1);
    let b = p.add_task();
    assert_eq!(a, 0);
    assert_eq!(b, 1);
    assert_eq!(p.mutex_rows[b].alloc, vec![0]);
    assert_eq!(p.sem_rows[b].need, vec![0, 0]);
}

#[test]
fn semaphore_blocks_at_zero_and_up_wakes_one() {
    let mut p = ProcessSync::new();
    let a = p.add_task();
    let b = p.add_task();
    let c = p.add_task();
    assert_eq!(sys_semaphore_create(&mut p, 1), 0);
    assert_eq!(sys_semaphore_down(&mut p, a, 0), (0, Sched::Proceed));
    assert_eq!(p.semaphore_list[0].as_ref().unwrap().count, 0);
    assert_eq!(p.sem_rows[a].alloc[0], 1);
    assert_eq!(sys_semaphore_down(&mut p, b, 0), (0, Sched::Block));
    assert_eq!(sys_semaphore_down(&mut p, c, 0), (0, Sched::Block));
    assert_eq!(p.semaphore_list[0].as_ref().unwrap().count, 0);
    assert_eq!(p.sem_rows[b].need[0], 1);
    assert_eq!(sys_semaphore_up(&mut p, a, 0), (0, Sched::Wake(b)));
    assert_eq!(p.semaphore_list[0].as_ref().unwrap().count, 0);
    assert_eq!(p.sem_rows[b].alloc[0], 1);
    assert_eq!(p.sem_rows[b].need[0], 0);
    assert_eq!(p.sem_rows[a].alloc[0], 0);
    assert_eq!(sys_semaphore_up(&mut p, b, 0), (0, Sched::Wake(c)));
    assert_eq!(sys_semaphore_up(&mut p, c, 0), (0, Sched::Proceed));
    assert_eq!(p.semaphore_list[0].as_ref().unwrap().count, 1);
}

#[test]
fn semaphore_up_at_largest_count_is_refused() {
    let mut p = ProcessSync::new();
    let a = p.add_task();
    assert_eq!(sys_semaphore_create(&mut p, usize::MAX), 0);
    assert_eq!(sys_semaphore_up(&mut p, a, 0), (-1, Sched::Proceed));
    assert_eq!(p.semaphore_list[0].as_ref().unwrap().count, usize::MAX);
}

#[test]
fn semaphore_down_refused_on_circular_wait() {
    let mut p = ProcessSync::new();
    let a = p.add_task();
    let b = p.add_task();
    assert_eq!(sys_enable_deadlock_detect(&mut p, 1), 1);
    assert_eq!(sys_semaphore_create(&mut p, 1), 0);
    assert_eq!(sys_semaphore_create(&mut p, 1), 1);
    assert_eq!(sys_semaphore_down(&mut p, a, 0), (0, Sched::Proceed));
    assert_eq!(sys_semaphore_down(&mut p, b, 1), (0, Sched::Proceed));
    assert_eq!(sys_semaphore_down(&mut p, a, 1), (0, Sched::Block));
    assert_eq!(sys_semaphore_down(&mut p, b, 0), (DEADLOCK, Sched::Proceed));
    assert_eq!(p.sem_rows[b].need[0], 0);
    assert!(p.semaphore_list[0].as_ref().unwrap().wait_queue.is_empty());
}

#[test]
fn condvar_wait_releases_mutex_and_signal_wakes_one() {
    let mut p = ProcessSync::new();
    let w = p.add_task();
    let s = p.add_task();
    assert_eq!(sys_mutex_create(&mut p, true), 0);
    assert_eq!(sys_condvar_create(&mut p), 0);
    assert_eq!(sys_mutex_lock(&mut p, w, 0), (0, Sched::Proceed));
    assert_eq!(sys_condvar_wait(&mut p, w, 0, 0), (0, Sched::Block));
    assert!(!mutex_locked(&p, 0));
    assert_eq!(p.mutex_rows[w].alloc[0], 0);
    assert_eq!(sys_condvar_signal(&mut p, 0), (0, Sched::Wake(w)));
    assert_eq!(sys_condvar_signal(&mut p, 0), (0, Sched::Proceed));
    // The woken task takes the mutex again itself.
    assert!(!mutex_locked(&p, 0));
    assert_eq!(sys_mutex_lock(&mut p, w, 0), (0, Sched::Proceed));
    assert!(mutex_locked(&p, 0));
    let _ = s;
}

#[test]
fn condvar_wait_hands_mutex_to_its_waiter() {
    let mut p = ProcessSync::new();
    let w = p.add_task();
    let o = p.add_task();
    assert_eq!(sys_mutex_create(&mut p, true), 0);
    assert_eq!(sys_condvar_create(&mut p), 0);
    assert_eq!(sys_mutex_lock(&mut p, w, 0), (0, Sched::Proceed));
    assert_eq!(sys_mutex_lock(&mut p, o, 0), (0, Sched::Block));
    assert_eq!(sys_condvar_wait(&mut p, w, 0, 0), (0, Sched::WakeAndBlock(o)));
    assert!(mutex_locked(&p, 0));
    assert_eq!(p.mutex_rows[o].alloc[0], 1);
    assert_eq!(p.mutex_rows[w].alloc[0], 0);
}

#[test]
fn sleep_deadline() {
    assert_eq!(sys_sleep(1000, 250), (0, 1250));
    assert_eq!(sys_sleep(usize::MAX - 1, 5), (0, usize::MAX));
}
