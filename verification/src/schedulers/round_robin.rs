//! The Round Robin algorithm: processes run in order.
use std::collections::VecDeque;

use vstd::prelude::*;

use crate::process::{Policy, Process, ProcessInfo};
use crate::{Pid, ProcessState, SchedulingDecision, Scheduler, StopReason, SyscallResult};

use super::model::ManagerView;
use super::laws::{law_next_keeps_slice, law_stop_keeps_slice};
use super::process_manager::{CurrentProcessMeta, ProcessInformation, ProcessManager};

verus! {

/// A process record with the fields common to all algorithms.
pub struct ProcessMeta {
    pid: Pid,
    state: ProcessState,
    priority: i8,
    total_time: usize,
    syscall_time: usize,
    execution_time: usize,
    last_update: usize,
}

impl ProcessMeta {
    /// Creates a new ready process with the given pid and priority, created at
    /// clock value `creation_time`.
    pub fn new(pid: Pid, priority: i8, creation_time: usize) -> (r: Self)
        ensures
            r.info() == ProcessInfo::created(pid.0, priority, creation_time, 0),
    {
        ProcessMeta {
            pid,
            state: ProcessState::Ready,
            priority,
            total_time: 0,
            syscall_time: 0,
            execution_time: 0,
            last_update: creation_time,
        }
    }
}

impl Process for ProcessMeta {
    closed spec fn info(&self) -> ProcessInfo {
        ProcessInfo {
            pid: self.pid.0,
            state: self.state,
            priority: self.priority,
            max_priority: self.priority,
            total: self.total_time,
            syscall: self.syscall_time,
            execution: self.execution_time,
            last_update: self.last_update,
            vruntime: 0,
        }
    }

    fn pid(&self) -> (r: Pid) {
        self.pid
    }

    fn state(&self) -> (r: ProcessState) {
        self.state
    }

    fn timings(&self) -> (r: (usize, usize, usize)) {
        (self.total_time, self.syscall_time, self.execution_time)
    }

    fn priority(&self) -> (r: i8) {
        self.priority
    }
}

impl ProcessInformation for ProcessMeta {
    open spec fn policy() -> Policy {
        Policy::RoundRobin
    }

    fn create_process(scheduler: &ProcessManager<Self>, priority: i8) -> (p: Self) {
        ProcessMeta::new(Pid::new(scheduler.max_pid()), priority, scheduler.clock())
    }

    fn next_process(
        processes: &mut VecDeque<Self>,
        current_process: &mut Option<CurrentProcessMeta<Self>>,
        timeslice_factor: &mut usize,
        timeslice: usize,
    ) {
        let running = match current_process.as_ref() {
            Some(current) => current.process.state() == ProcessState::Running,
            None => false,
        };
        if running {
            return;
        }
        Self::run_chosen(processes, current_process, timeslice);
    }

    fn runs_before(&self, other: &Self) -> (r: bool) {
        false
    }

    fn set_state(&mut self, state: ProcessState) {
        self.state = state;
    }

    fn last_update(&self) -> (r: usize) {
        self.last_update
    }

    fn set_last_update(&mut self, last_update: usize) {
        self.last_update = last_update;
    }

    fn add_total_time(&mut self, time: usize) {
        self.total_time = self.total_time + time;
    }

    fn add_execution_time(&mut self, time: usize) {
        self.execution_time = self.execution_time + time;
        self.total_time = self.total_time + time;
    }

    fn add_syscall(&mut self) {
        self.syscall_time = self.syscall_time + 1;
        self.total_time = self.total_time + 1;
    }

    fn increase_priority(&mut self) {
    }

    fn decrease_priority(&mut self) {
    }

    fn vruntime(&self) -> (r: usize) {
        0
    }
}

/// A scheduler implementing the Round Robin algorithm.
pub struct RoundRobin(ProcessManager<ProcessMeta>);

impl View for RoundRobin {
    type V = ManagerView;

    closed spec fn view(&self) -> ManagerView {
        self.0@
    }
}

impl RoundRobin {
    #[verifier::type_invariant]
    spec fn inv(self) -> bool {
        self.0@.well_formed() && self.0@.keeps_slice(Policy::RoundRobin)
    }

    /// Creates a new scheduler that gives each process at most `timeslice`
    /// time units, and preempts a process that is left with fewer than
    /// `minimum_remaining_timeslice` after a system call.
    pub fn new(timeslice: usize, minimum_remaining_timeslice: usize) -> (r: Self)
        requires
            timeslice > 0,
        ensures
            r@ == ManagerView::initial(timeslice, minimum_remaining_timeslice),
            r@.well_formed(),
    {
        Self(ProcessManager::new(timeslice, minimum_remaining_timeslice))
    }

    /// The internal clock.
    pub fn clock(&self) -> (r: usize)
        ensures
            r == self@.clock,
    {
        self.0.clock()
    }
}

impl Scheduler for RoundRobin {
    type Record = ProcessMeta;

    open spec fn policy() -> Policy {
        Policy::RoundRobin
    }

    fn next(&mut self) -> (decision: SchedulingDecision) {
        proof {
            use_type_invariant(&*self);
        }
        let mut manager = ProcessManager::new(1, 0);
        std::mem::swap(&mut manager, &mut self.0);
        let decision = manager.get_next_process();
        proof {
            law_next_keeps_slice(old(self)@, Policy::RoundRobin);
        }
        std::mem::swap(&mut manager, &mut self.0);
        decision
    }

    fn can_stop(&self, reason: StopReason) -> (r: bool) {
        self.0.can_stop(reason)
    }

    fn stop(&mut self, reason: StopReason) -> (result: SyscallResult) {
        proof {
            use_type_invariant(&*self);
        }
        assert(old(self)@.with_priority_adjusted(Policy::RoundRobin, reason is Syscall) == old(
            self,
        )@);
        let mut manager = ProcessManager::new(1, 0);
        std::mem::swap(&mut manager, &mut self.0);
        let result = manager.handle_process_stop(reason);
        proof {
            law_stop_keeps_slice(old(self)@, Policy::RoundRobin, reason);
        }
        std::mem::swap(&mut manager, &mut self.0);
        result
    }

    fn list(&self) -> (r: Vec<&ProcessMeta>) {
        self.0.get_processes()
    }
}

} // verus!
