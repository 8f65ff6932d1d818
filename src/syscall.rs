use vstd::prelude::*;

verus! {

/// The result of `exit`, once the caller has ended the task with `exit_code`.
pub fn sys_exit(exit_code: i32) -> (r: isize)
    ensures
        r == 0,
{
    0
}

/// The result of `yield`, once the caller has suspended the task.
pub fn sys_yield() -> (r: isize)
    ensures
        r == 0,
{
    0
}

/// The result of `get_time`: the time `now_ms` in milliseconds.
pub fn sys_get_time(now_ms: usize) -> (r: isize)
    requires
        now_ms <= isize::MAX,
    ensures
        r == now_ms,
{
    now_ms as isize
}

/// The result of `getpid`: the caller's task id `pid`.
pub fn sys_getpid(pid: usize) -> (r: isize)
    requires
        pid <= isize::MAX,
    ensures
        r == pid,
{
    pid as isize
}

/// The result of `fork` in the parent: the child's task id `child_pid`.
pub fn sys_fork(child_pid: usize) -> (r: isize)
    requires
        child_pid <= isize::MAX,
    ensures
        r == child_pid,
{
    child_pid as isize
}

} // verus!
