use scheduler::Scheduler;
use scheduler::process::Process;
use scheduler::schedulers::priority_queue::PriorityProcessMeta;
use scheduler::schedulers::process_manager::ProcessInformation;
use scheduler::schedulers::PriorityQueue;
use scheduler::{Pid, ProcessState, SchedulingDecision, StopReason, Syscall, SyscallResult};
use std::collections::VecDeque;

fn call(syscall: Syscall, remaining: usize) -> StopReason {
    StopReason::Syscall { syscall, remaining }
}

fn run(pid: usize, timeslice: usize) -> SchedulingDecision {
    SchedulingDecision::Run { pid: Pid::new(pid), timeslice }
}

#[test]
fn higher_priority_runs_first() {
    let mut s = PriorityQueue::new(5, 1);
    assert_eq!(s.stop(call(Syscall::Fork(1), 0)), SyscallResult::Pid(Pid::new(1)));
    assert_eq!(s.next(), run(1, 5));
    assert_eq!(s.stop(call(Syscall::Fork(3), 3)), SyscallResult::Pid(Pid::new(2)));
    assert_eq!(s.stop(StopReason::Expired), SyscallResult::Success);
    assert_eq!(s.next(), run(2, 5));
}

#[test]
fn equal_priorities_run_in_arrival_order() {
    let mut s = PriorityQueue::new(5, 1);
    s.stop(call(Syscall::Fork(2), 0));
    assert_eq!(s.next(), run(1, 5));
    assert_eq!(s.stop(call(Syscall::Fork(2), 4)), SyscallResult::Pid(Pid::new(2)));
    assert_eq!(s.stop(call(Syscall::Fork(2), 3)), SyscallResult::Pid(Pid::new(3)));
    s.stop(StopReason::Expired);
    assert_eq!(s.next(), run(2, 5));
    s.stop(StopReason::Expired);
    assert_eq!(s.next(), run(3, 5));
}

#[test]
fn priority_never_rises_above_the_initial_one() {
    let mut s = PriorityQueue::new(5, 1);
    s.stop(call(Syscall::Fork(1), 0));
    s.next();
    s.stop(call(Syscall::Fork(0), 4));
    let list = s.list();
    assert_eq!(list[1].pid(), Pid::new(1));
    assert_eq!(list[1].priority(), 1);
}

#[test]
fn preemption_lowers_and_a_syscall_raises_the_priority() {
    let mut s = PriorityQueue::new(5, 1);
    s.stop(call(Syscall::Fork(3), 0));
    assert_eq!(s.next(), run(1, 5));
    s.stop(StopReason::Expired);
    assert_eq!(s.list()[0].priority(), 2);
    assert_eq!(s.next(), run(1, 5));
    s.stop(StopReason::Expired);
    assert_eq!(s.list()[0].priority(), 1);
    assert_eq!(s.next(), run(1, 5));
    s.stop(call(Syscall::Fork(0), 4));
    assert_eq!(s.list()[1].priority(), 2);
}

#[test]
fn priority_never_falls_below_zero() {
    let mut s = PriorityQueue::new(5, 1);
    s.stop(call(Syscall::Fork(0), 0));
    s.next();
    s.stop(StopReason::Expired);
    assert_eq!(s.list()[0].priority(), 0);
    let mut t = PriorityQueue::new(5, 1);
    t.stop(call(Syscall::Fork(-5), 0));
    t.next();
    t.stop(StopReason::Expired);
    assert_eq!(t.list()[0].priority(), 0);
}

#[test]
fn lowered_process_waits_for_higher_ones() {
    let mut s = PriorityQueue::new(5, 1);
    s.stop(call(Syscall::Fork(1), 0));
    assert_eq!(s.next(), run(1, 5));
    assert_eq!(s.stop(call(Syscall::Fork(1), 4)), SyscallResult::Pid(Pid::new(2)));
    s.stop(StopReason::Expired);
    assert_eq!(s.next(), run(2, 5));
    s.stop(StopReason::Expired);
    assert_eq!(s.next(), run(1, 5));
}

#[test]
fn priority_saturates_at_the_ends_of_its_range() {
    let mut s = PriorityQueue::new(5, 1);
    s.stop(call(Syscall::Fork(127), 0));
    s.next();
    assert!(s.can_stop(call(Syscall::Signal(0), 4)));
    assert_eq!(s.stop(call(Syscall::Signal(0), 4)), SyscallResult::Success);
    assert_eq!(s.list()[0].priority(), 127);
    let mut t = PriorityQueue::new(5, 1);
    t.stop(call(Syscall::Fork(-128), 0));
    t.next();
    assert!(t.can_stop(StopReason::Expired));
    assert_eq!(t.stop(StopReason::Expired), SyscallResult::Success);
    assert_eq!(t.list()[0].priority(), 0);
}

#[test]
fn only_a_ready_process_is_chosen() {
    let mut waiting = PriorityProcessMeta::new(Pid::new(1), 9, 0);
    waiting.set_state(ProcessState::Waiting { event: Some(3) });
    let ready = PriorityProcessMeta::new(Pid::new(2), 1, 0);
    let mut queue = VecDeque::new();
    queue.push_back(waiting);
    queue.push_back(ready);
    let mut current = None;
    let mut factor = 1;
    PriorityProcessMeta::next_process(&mut queue, &mut current, &mut factor, 5);
    let chosen = current.unwrap();
    assert_eq!(chosen.process.pid(), Pid::new(2));
    assert_eq!(chosen.process.state(), ProcessState::Running);
    assert_eq!(chosen.remaining_timeslice, 5);
    assert_eq!(queue.len(), 1);
    assert_eq!(queue[0].pid(), Pid::new(1));
}

#[test]
fn nothing_runs_when_no_process_is_ready() {
    let mut first = PriorityProcessMeta::new(Pid::new(1), 9, 0);
    first.set_state(ProcessState::Waiting { event: None });
    let mut second = PriorityProcessMeta::new(Pid::new(2), 4, 0);
    second.set_state(ProcessState::Waiting { event: Some(1) });
    let mut queue = VecDeque::new();
    queue.push_back(first);
    queue.push_back(second);
    let mut current = None;
    let mut factor = 1;
    PriorityProcessMeta::next_process(&mut queue, &mut current, &mut factor, 5);
    assert!(current.is_none());
    assert_eq!(queue.len(), 2);
    assert_eq!(queue[0].pid(), Pid::new(1));
    assert_eq!(queue[1].pid(), Pid::new(2));
}
