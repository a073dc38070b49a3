use scheduler::Scheduler;
use scheduler::process::Process;
use scheduler::schedulers::process_manager::ProcessInformation;
use scheduler::schedulers::cfs::CfsProcessMeta;
use scheduler::schedulers::process_manager::ProcessManager;
use scheduler::schedulers::Cfs;
use scheduler::{Pid, ProcessState, SchedulingDecision, StopReason, Syscall, SyscallResult};
use std::collections::VecDeque;

fn call(syscall: Syscall, remaining: usize) -> StopReason {
    StopReason::Syscall { syscall, remaining }
}

fn run(pid: usize, timeslice: usize) -> SchedulingDecision {
    SchedulingDecision::Run { pid: Pid::new(pid), timeslice }
}

#[test]
fn time_slice_is_shared_by_active_processes() {
    let mut s = Cfs::new(10, 1);
    assert_eq!(s.stop(call(Syscall::Fork(0), 0)), SyscallResult::Pid(Pid::new(1)));
    assert_eq!(s.next(), run(1, 10));
    assert_eq!(s.stop(call(Syscall::Fork(0), 7)), SyscallResult::Pid(Pid::new(2)));
    assert_eq!(s.next(), run(1, 5));
}

#[test]
fn new_process_gets_the_least_virtual_run_time() {
    let mut s = Cfs::new(10, 1);
    s.stop(call(Syscall::Fork(0), 0));
    assert_eq!(s.list()[0].vruntime(), 0);
    s.next();
    s.stop(call(Syscall::Fork(0), 7));
    let list = s.list();
    assert_eq!(list[0].pid(), Pid::new(2));
    assert_eq!(list[0].vruntime(), 3);
    assert_eq!(list[1].vruntime(), 3);
}

#[test]
fn least_virtual_run_time_runs_first() {
    let mut s = Cfs::new(10, 1);
    s.stop(call(Syscall::Fork(0), 0));
    s.next();
    s.stop(call(Syscall::Fork(0), 7));
    assert_eq!(s.next(), run(1, 5));
    assert_eq!(s.stop(StopReason::Expired), SyscallResult::Success);
    assert_eq!(s.clock(), 8);
    assert_eq!(s.next(), run(2, 5));
    assert_eq!(s.stop(StopReason::Expired), SyscallResult::Success);
    let list = s.list();
    assert_eq!(list[0].vruntime(), 8);
    assert_eq!(list[1].vruntime(), 8);
    assert_eq!(s.next(), run(1, 5));
}

#[test]
fn virtual_run_time_counts_execution_and_syscalls() {
    let mut s = Cfs::new(10, 1);
    s.stop(call(Syscall::Fork(0), 0));
    s.next();
    s.stop(call(Syscall::Signal(1), 6));
    let list = s.list();
    assert_eq!(list[0].timings(), (4, 1, 3));
    assert_eq!(list[0].vruntime(), 4);
}

#[test]
fn share_of_zero_gives_no_run() {
    let mut s = Cfs::new(1, 0);
    s.stop(call(Syscall::Fork(0), 0));
    assert_eq!(s.next(), run(1, 1));
    assert_eq!(s.stop(call(Syscall::Fork(0), 0)), SyscallResult::Pid(Pid::new(2)));
    assert_eq!(s.next(), SchedulingDecision::Done);
}

#[test]
fn lone_process_keeps_its_whole_share() {
    let mut s = Cfs::new(10, 1);
    s.stop(call(Syscall::Fork(0), 0));
    assert_eq!(s.next(), run(1, 10));
    assert_eq!(s.stop(call(Syscall::Signal(1), 9)), SyscallResult::Success);
    assert_eq!(s.next(), run(1, 9));
}

#[test]
fn fair_choice_skips_processes_that_are_not_ready() {
    let manager = ProcessManager::<CfsProcessMeta>::new(10, 1);
    let mut waiting = CfsProcessMeta::new(&manager, 0);
    waiting.set_state(ProcessState::Waiting { event: Some(2) });
    let mut busy = CfsProcessMeta::new(&manager, 0);
    busy.add_execution_time(3);
    let mut queue = VecDeque::new();
    queue.push_back(waiting);
    queue.push_back(busy);
    let mut current = None;
    let mut factor = 1;
    CfsProcessMeta::next_process(&mut queue, &mut current, &mut factor, 10);
    assert_eq!(factor, 2);
    let chosen = current.unwrap();
    assert_eq!(chosen.process.vruntime(), 3);
    assert_eq!(chosen.remaining_timeslice, 5);
    assert_eq!(queue.len(), 1);
    assert_eq!(queue[0].vruntime(), 0);
    assert_eq!(queue[0].state(), ProcessState::Waiting { event: Some(2) });
}

#[test]
fn fair_choice_runs_nothing_when_no_process_is_ready() {
    let manager = ProcessManager::<CfsProcessMeta>::new(10, 1);
    let mut waiting = CfsProcessMeta::new(&manager, 0);
    waiting.set_state(ProcessState::Waiting { event: None });
    let mut queue = VecDeque::new();
    queue.push_back(waiting);
    let mut current = None;
    let mut factor = 1;
    CfsProcessMeta::next_process(&mut queue, &mut current, &mut factor, 10);
    assert!(current.is_none());
    assert_eq!(queue.len(), 1);
    assert_eq!(queue[0].state(), ProcessState::Waiting { event: None });
}
