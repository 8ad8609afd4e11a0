use ksync::proc_calls::{
    sys_get_time, sys_mmap, sys_munmap, sys_set_priority, sys_task_info, sys_waitpid, ChildState,
    PageRange, TaskStatus, TimeVal,
};

#[test]
fn get_time_splits_microseconds() {
    assert_eq!(sys_get_time(3_250_000), (0, TimeVal { sec: 3, usec: 250_000 }));
    assert_eq!(sys_get_time(999_999), (0, TimeVal { sec: 0, usec: 999_999 }));
    assert_eq!(sys_get_time(0), (0, TimeVal { sec: 0, usec: 0 }));
}

#[test]
fn task_info_reports_milliseconds() {
    let (r, info) = sys_task_info(5_000_000, 1_500_000, vec![0, 2, 7]);
    assert_eq!(r, 0);
    assert_eq!(info.status, TaskStatus::Running);
    assert_eq!(info.syscall_times, vec![0, 2, 7]);
    assert_eq!(info.time, 3500);
}

#[test]
fn mmap_checks_and_pages() {
    assert_eq!(
        sys_mmap(0x1000, 0x1001, 3),
        Some(PageRange { start_vpn: 1, end_vpn: 3, perm: 16 + 2 + 4 })
    );
    assert_eq!(sys_mmap(0x2000, 0x1000, 7), Some(PageRange { start_vpn: 2, end_vpn: 3, perm: 30 }));
    assert_eq!(sys_mmap(0x1001, 10, 1), None);
    assert_eq!(sys_mmap(0x1000, 10, 0), None);
    assert_eq!(sys_mmap(0x1000, 10, 8), None);
    assert_eq!(sys_mmap(0x1000, usize::MAX, 1), None);
}

#[test]
fn munmap_checks_and_pages() {
    assert_eq!(sys_munmap(0x3000, 0x2000), Some(PageRange { start_vpn: 3, end_vpn: 5, perm: 0 }));
    assert_eq!(sys_munmap(0x3000, 1), Some(PageRange { start_vpn: 3, end_vpn: 4, perm: 0 }));
    assert_eq!(sys_munmap(0x3004, 1), None);
}

#[test]
fn set_priority_checks_and_stride() {
    assert_eq!(sys_set_priority(1, 1000), (-1, None));
    assert_eq!(sys_set_priority(-4, 1000), (-1, None));
    assert_eq!(sys_set_priority(4, 1000), (4, Some((4, 250))));
}

#[test]
fn waitpid_decisions() {
    let kids = vec![
        ChildState { pid: 3, zombie: false },
        ChildState { pid: 5, zombie: true },
        ChildState { pid: 7, zombie: true },
    ];
    assert_eq!(sys_waitpid(&kids, 9), (-1, None));
    assert_eq!(sys_waitpid(&kids, 3), (-2, None));
    assert_eq!(sys_waitpid(&kids, 7), (7, Some(2)));
    assert_eq!(sys_waitpid(&kids, -1), (5, Some(1)));
    assert_eq!(sys_waitpid(&vec![], -1), (-1, None));
}
