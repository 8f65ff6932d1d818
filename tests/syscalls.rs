use sv39_mm::syscall::{sys_exit, sys_fork, sys_get_time, sys_getpid, sys_yield};

#[test]
fn syscall_results() {
    assert_eq!(sys_exit(3), 0);
    assert_eq!(sys_yield(), 0);
    assert_eq!(sys_get_time(1234), 1234);
    assert_eq!(sys_getpid(7), 7);
    assert_eq!(sys_fork(8), 8);
}
