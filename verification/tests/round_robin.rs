use scheduler::Scheduler;
use scheduler::process::Process;
use scheduler::schedulers::RoundRobin;
use scheduler::{Pid, ProcessState, SchedulingDecision, StopReason, Syscall, SyscallResult};

fn call(syscall: Syscall, remaining: usize) -> StopReason {
    StopReason::Syscall { syscall, remaining }
}

fn run(pid: usize, timeslice: usize) -> SchedulingDecision {
    SchedulingDecision::Run { pid: Pid::new(pid), timeslice }
}

#[test]
fn round_robin_runs_processes_in_order() {
    let mut s = RoundRobin::new(5, 1);
    assert_eq!(s.stop(call(Syscall::Fork(0), 0)), SyscallResult::Pid(Pid::new(1)));
    assert_eq!(s.next(), run(1, 5));
    assert_eq!(s.stop(call(Syscall::Fork(0), 3)), SyscallResult::Pid(Pid::new(2)));
    assert_eq!(s.clock(), 2);
    assert_eq!(s.next(), run(1, 3));
    assert_eq!(s.stop(StopReason::Expired), SyscallResult::Success);
    assert_eq!(s.clock(), 5);
    assert_eq!(s.next(), run(2, 5));
    assert_eq!(s.stop(StopReason::Expired), SyscallResult::Success);
    assert_eq!(s.next(), run(1, 5));
}

#[test]
fn stops_without_a_running_process() {
    let mut s = RoundRobin::new(5, 1);
    assert_eq!(s.stop(StopReason::Expired), SyscallResult::NoRunningProcess);
    assert_eq!(s.stop(call(Syscall::Exit, 0)), SyscallResult::NoRunningProcess);
    assert_eq!(s.stop(call(Syscall::Wait(1), 0)), SyscallResult::NoRunningProcess);
    assert_eq!(s.stop(call(Syscall::Sleep(3), 0)), SyscallResult::NoRunningProcess);
    assert_eq!(s.stop(call(Syscall::Signal(1), 0)), SyscallResult::Success);
    assert_eq!(s.clock(), 0);
    assert_eq!(s.next(), SchedulingDecision::Done);
}

#[test]
fn sleeping_process_wakes_up() {
    let mut s = RoundRobin::new(5, 1);
    s.stop(call(Syscall::Fork(0), 0));
    assert_eq!(s.next(), run(1, 5));
    assert_eq!(s.stop(call(Syscall::Sleep(10), 4)), SyscallResult::Success);
    assert_eq!(s.clock(), 1);
    assert_eq!(s.next(), SchedulingDecision::Sleep(10));
    assert_eq!(s.clock(), 11);
    assert_eq!(s.next(), run(1, 5));
    let list = s.list();
    assert_eq!(list.len(), 1);
    assert_eq!(list[0].pid(), Pid::new(1));
    assert_eq!(list[0].timings(), (11, 1, 0));
    assert_eq!(list[0].state(), ProcessState::Running);
}

#[test]
fn signal_wakes_waiting_processes() {
    let mut s = RoundRobin::new(5, 1);
    s.stop(call(Syscall::Fork(0), 0));
    assert_eq!(s.next(), run(1, 5));
    assert_eq!(s.stop(call(Syscall::Fork(0), 4)), SyscallResult::Pid(Pid::new(2)));
    assert_eq!(s.stop(call(Syscall::Wait(7), 3)), SyscallResult::Success);
    assert_eq!(s.clock(), 2);
    assert_eq!(s.next(), run(2, 5));
    assert_eq!(s.stop(call(Syscall::Signal(7), 4)), SyscallResult::Success);
    assert_eq!(s.clock(), 3);
    assert_eq!(s.next(), run(2, 4));
    assert_eq!(s.stop(StopReason::Expired), SyscallResult::Success);
    assert_eq!(s.clock(), 7);
    assert_eq!(s.next(), run(1, 5));
}

#[test]
fn waiting_without_signaller_is_a_deadlock() {
    let mut s = RoundRobin::new(5, 1);
    s.stop(call(Syscall::Fork(0), 0));
    assert_eq!(s.next(), run(1, 5));
    assert_eq!(s.stop(call(Syscall::Wait(3), 2)), SyscallResult::Success);
    assert_eq!(s.next(), SchedulingDecision::Deadlock);
    let list = s.list();
    assert_eq!(list.len(), 1);
    assert_eq!(list[0].state(), ProcessState::Waiting { event: Some(3) });
}

#[test]
fn init_exit_with_other_processes_panics() {
    let mut s = RoundRobin::new(5, 1);
    s.stop(call(Syscall::Fork(0), 0));
    assert_eq!(s.next(), run(1, 5));
    assert_eq!(s.stop(call(Syscall::Fork(0), 4)), SyscallResult::Pid(Pid::new(2)));
    assert_eq!(s.stop(call(Syscall::Exit, 3)), SyscallResult::Success);
    assert_eq!(s.next(), SchedulingDecision::Panic);
    assert_eq!(s.next(), SchedulingDecision::Panic);
}

#[test]
fn last_process_exit_is_done() {
    let mut s = RoundRobin::new(5, 1);
    s.stop(call(Syscall::Fork(0), 0));
    assert_eq!(s.next(), run(1, 5));
    assert_eq!(s.stop(call(Syscall::Exit, 4)), SyscallResult::Success);
    assert_eq!(s.next(), SchedulingDecision::Done);
    assert_eq!(s.list().len(), 0);
}

#[test]
fn short_remaining_slice_preempts() {
    let mut s = RoundRobin::new(5, 3);
    s.stop(call(Syscall::Fork(0), 0));
    assert_eq!(s.next(), run(1, 5));
    assert_eq!(s.stop(call(Syscall::Fork(0), 2)), SyscallResult::Pid(Pid::new(2)));
    assert_eq!(s.next(), run(2, 5));
}

#[test]
fn long_enough_remaining_slice_keeps_the_processor() {
    let mut s = RoundRobin::new(5, 3);
    s.stop(call(Syscall::Fork(0), 0));
    assert_eq!(s.next(), run(1, 5));
    assert_eq!(s.stop(call(Syscall::Fork(0), 3)), SyscallResult::Pid(Pid::new(2)));
    assert_eq!(s.next(), run(1, 3));
}

#[test]
fn syscall_accounting() {
    let mut s = RoundRobin::new(5, 1);
    s.stop(call(Syscall::Fork(4), 0));
    s.next();
    s.stop(call(Syscall::Fork(2), 3));
    let list = s.list();
    assert_eq!(list.len(), 2);
    assert_eq!(list[0].pid(), Pid::new(2));
    assert_eq!(list[0].timings(), (0, 0, 0));
    assert_eq!(list[0].state(), ProcessState::Ready);
    assert_eq!(list[0].priority(), 2);
    assert_eq!(list[1].pid(), Pid::new(1));
    assert_eq!(list[1].timings(), (2, 1, 1));
    assert_eq!(list[1].state(), ProcessState::Running);
    assert_eq!(list[1].priority(), 4);
}

#[test]
fn expired_slice_counts_as_execution() {
    let mut s = RoundRobin::new(5, 1);
    s.stop(call(Syscall::Fork(0), 0));
    s.next();
    s.stop(call(Syscall::Fork(0), 3));
    assert_eq!(s.stop(StopReason::Expired), SyscallResult::Success);
    let list = s.list();
    assert_eq!(list[1].pid(), Pid::new(1));
    assert_eq!(list[1].timings(), (5, 1, 4));
    assert_eq!(list[1].state(), ProcessState::Ready);
    assert_eq!(list[0].timings(), (3, 0, 0));
}

#[test]
fn forked_pids_are_new() {
    let mut s = RoundRobin::new(5, 1);
    assert_eq!(s.stop(call(Syscall::Fork(0), 0)), SyscallResult::Pid(Pid::new(1)));
    s.next();
    assert_eq!(s.stop(call(Syscall::Fork(0), 4)), SyscallResult::Pid(Pid::new(2)));
    assert_eq!(s.stop(call(Syscall::Exit, 3)), SyscallResult::Success);
    assert_eq!(s.next(), SchedulingDecision::Panic);
    let mut t = RoundRobin::new(5, 1);
    t.stop(call(Syscall::Fork(0), 0));
    t.next();
    t.stop(call(Syscall::Fork(0), 4));
    t.stop(call(Syscall::Fork(0), 3));
    let pids: Vec<usize> = t.list().iter().map(|p| p.pid().value()).collect();
    assert_eq!(pids, vec![2, 3, 1]);
}

#[test]
fn clock_never_goes_back() {
    let mut s = RoundRobin::new(4, 1);
    let mut last = s.clock();
    s.stop(call(Syscall::Fork(0), 0));
    for i in 0..20 {
        s.next();
        assert!(s.clock() >= last);
        last = s.clock();
        if i % 3 == 0 {
            s.stop(call(Syscall::Fork(0), 2));
        } else {
            s.stop(StopReason::Expired);
        }
        assert!(s.clock() >= last);
        last = s.clock();
    }
}

#[test]
fn stops_that_would_overflow_are_refused() {
    let mut s = RoundRobin::new(5, 1);
    s.stop(call(Syscall::Fork(0), 0));
    s.next();
    assert!(!s.can_stop(call(Syscall::Exit, 5)));
    assert!(!s.can_stop(call(Syscall::Exit, 7)));
    assert!(s.can_stop(call(Syscall::Exit, 4)));
    assert!(!s.can_stop(call(Syscall::Sleep(usize::MAX), 4)));
    assert!(s.can_stop(call(Syscall::Sleep(10), 4)));
    assert!(s.can_stop(StopReason::Expired));
}

#[test]
fn processes_are_neither_lost_nor_duplicated() {
    let mut s = RoundRobin::new(5, 1);
    s.stop(call(Syscall::Fork(0), 0));
    s.next();
    s.stop(call(Syscall::Fork(0), 4));
    s.stop(call(Syscall::Fork(0), 3));
    s.stop(call(Syscall::Wait(9), 2));
    assert_eq!(s.next(), run(2, 5));
    s.stop(call(Syscall::Sleep(4), 4));
    assert_eq!(s.next(), run(3, 5));
    s.stop(call(Syscall::Wait(9), 3));
    let mut pids: Vec<usize> = s.list().iter().map(|p| p.pid().value()).collect();
    assert_eq!(pids, vec![2, 1, 3]);
    assert_eq!(s.next(), SchedulingDecision::Sleep(2));
    assert_eq!(s.next(), run(2, 5));
    s.stop(call(Syscall::Signal(9), 4));
    pids = s.list().iter().map(|p| p.pid().value()).collect();
    assert_eq!(pids, vec![1, 3, 2]);
    assert_eq!(s.next(), run(2, 4));
    s.stop(StopReason::Expired);
    assert_eq!(s.next(), run(1, 5));
    s.stop(StopReason::Expired);
    assert_eq!(s.next(), run(3, 5));
    pids = s.list().iter().map(|p| p.pid().value()).collect();
    pids.sort();
    assert_eq!(pids, vec![1, 2, 3]);
}

#[test]
fn signal_without_waiters_changes_nothing() {
    let mut s = RoundRobin::new(5, 1);
    s.stop(call(Syscall::Fork(0), 0));
    s.next();
    assert_eq!(s.stop(call(Syscall::Signal(4), 4)), SyscallResult::Success);
    assert_eq!(s.list().len(), 1);
    assert_eq!(s.next(), run(1, 4));
}

#[test]
fn earliest_sleeper_wakes_first() {
    let mut s = RoundRobin::new(5, 1);
    s.stop(call(Syscall::Fork(0), 0));
    s.next();
    s.stop(call(Syscall::Fork(0), 4));
    s.stop(call(Syscall::Sleep(20), 3));
    assert_eq!(s.clock(), 2);
    assert_eq!(s.next(), run(2, 5));
    s.stop(call(Syscall::Sleep(5), 4));
    assert_eq!(s.clock(), 3);
    assert_eq!(s.next(), SchedulingDecision::Sleep(5));
    assert_eq!(s.clock(), 8);
    assert_eq!(s.next(), run(2, 5));
    s.stop(call(Syscall::Exit, 4));
    assert_eq!(s.next(), SchedulingDecision::Sleep(13));
    assert_eq!(s.next(), run(1, 5));
}

#[test]
fn zero_minimum_slice_can_leave_a_process_with_an_empty_slice() {
    let mut s = RoundRobin::new(5, 0);
    s.stop(call(Syscall::Fork(0), 0));
    assert_eq!(s.next(), run(1, 5));
    assert_eq!(s.stop(call(Syscall::Signal(2), 0)), SyscallResult::Success);
    assert_eq!(s.next(), SchedulingDecision::Done);
    let list = s.list();
    assert_eq!(list.len(), 1);
    assert_eq!(list[0].state(), ProcessState::Running);
}

#[test]
fn done_means_no_process_is_left() {
    let mut s = RoundRobin::new(5, 1);
    s.stop(call(Syscall::Fork(0), 0));
    assert_eq!(s.next(), run(1, 5));
    assert_eq!(s.stop(call(Syscall::Signal(2), 0)), SyscallResult::Success);
    assert_eq!(s.next(), run(1, 5));
    assert_eq!(s.stop(call(Syscall::Exit, 2)), SyscallResult::Success);
    assert_eq!(s.next(), SchedulingDecision::Done);
    assert_eq!(s.list().len(), 0);
}
