//! Round Robin with priorities: the ready process with the highest priority
//! runs first; among equal priorities, the one that became ready first.
use std::collections::VecDeque;

use vstd::prelude::*;

use crate::process::{Policy, Process, ProcessInfo};
use crate::{Pid, ProcessState, SchedulingDecision, Scheduler, StopReason, SyscallResult};

use super::model::ManagerView;
use super::laws::{law_next_keeps_slice, law_stop_keeps_slice};
use super::process_manager::{CurrentProcessMeta, ProcessInformation, ProcessManager};
use super::round_robin::ProcessMeta;

verus! {

/// A representation of a process, accounting for priorities.
pub struct PriorityProcessMeta {
    /// Fields inherited from ProcessMeta.
    inner: ProcessMeta,
    /// The process' priority.
    priority: i8,
    /// The process' initial priority. The priority can't go above this value.
    max_priority: i8,
}

impl PriorityProcessMeta {
    /// Creates a new process with the given pid and priority.
    pub fn new(pid: Pid, priority: i8, creation_time: usize) -> (r: Self)
        ensures
            r.info() == ProcessInfo::created(pid.0, priority, creation_time, 0),
    {
        Self { inner: ProcessMeta::new(pid, priority, creation_time), max_priority: priority, priority }
    }
}

impl Process for PriorityProcessMeta {
    closed spec fn info(&self) -> ProcessInfo {
        ProcessInfo { priority: self.priority, max_priority: self.max_priority, ..self.inner.info() }
    }

    fn pid(&self) -> (r: Pid) {
        self.inner.pid()
    }

    fn state(&self) -> (r: ProcessState) {
        self.inner.state()
    }

    fn timings(&self) -> (r: (usize, usize, usize)) {
        self.inner.timings()
    }

    fn priority(&self) -> (r: i8) {
        self.priority
    }
}

impl ProcessInformation for PriorityProcessMeta {
    open spec fn policy() -> Policy {
        Policy::Priority
    }

    fn create_process(scheduler: &ProcessManager<Self>, priority: i8) -> (p: Self) {
        Self::new(Pid::new(scheduler.max_pid()), priority, scheduler.clock())
    }

    fn next_process(
        processes: &mut VecDeque<Self>,
        current_process: &mut Option<CurrentProcessMeta<Self>>,
        timeslice_factor: &mut usize,
        timeslice: usize,
    ) {
        let running = match current_process.as_ref() {
            Some(current) => current.process.state() == ProcessState::Running,
            None => false,
        };
        if running {
            return;
        }
        Self::run_chosen(processes, current_process, timeslice);
    }

    fn runs_before(&self, other: &Self) -> (r: bool) {
        self.priority > other.priority
    }

    fn set_state(&mut self, state: ProcessState) {
        self.inner.set_state(state);
    }

    fn last_update(&self) -> (r: usize) {
        self.inner.last_update()
    }

    fn set_last_update(&mut self, last_update: usize) {
        self.inner.set_last_update(last_update);
    }

    fn add_total_time(&mut self, time: usize) {
        self.inner.add_total_time(time);
    }

    fn add_execution_time(&mut self, time: usize) {
        self.inner.add_execution_time(time);
    }

    fn add_syscall(&mut self) {
        self.inner.add_syscall();
    }

    fn increase_priority(&mut self) {
        self.priority = if self.priority < self.max_priority {
            self.priority + 1
        } else {
            self.max_priority
        };
    }

    fn decrease_priority(&mut self) {
        self.priority = if self.priority > 0 {
            self.priority - 1
        } else {
            0
        };
    }

    fn vruntime(&self) -> (r: usize) {
        self.inner.vruntime()
    }
}

/// A scheduler implementing the Round Robin with priorities algorithm.
pub struct PriorityQueue(ProcessManager<PriorityProcessMeta>);

impl View for PriorityQueue {
    type V = ManagerView;

    closed spec fn view(&self) -> ManagerView {
        self.0@
    }
}

impl PriorityQueue {
    #[verifier::type_invariant]
    spec fn inv(self) -> bool {
        self.0@.well_formed() && self.0@.keeps_slice(Policy::Priority)
    }

    /// Creates a new scheduler that gives each process at most `timeslice`
    /// time units, and preempts a process that is left with fewer than
    /// `minimum_remaining_timeslice` after a system call.
    pub fn new(timeslice: usize, minimum_remaining_timeslice: usize) -> (r: Self)
        requires
            timeslice > 0,
        ensures
            r@ == ManagerView::initial(timeslice, minimum_remaining_timeslice),
            r@.well_formed(),
    {
        Self(ProcessManager::new(timeslice, minimum_remaining_timeslice))
    }

    /// The internal clock.
    pub fn clock(&self) -> (r: usize)
        ensures
            r == self@.clock,
    {
        self.0.clock()
    }
}

impl Scheduler for PriorityQueue {
    type Record = PriorityProcessMeta;

    open spec fn policy() -> Policy {
        Policy::Priority
    }

    fn next(&mut self) -> (decision: SchedulingDecision) {
        proof {
            use_type_invariant(&*self);
        }
        let mut manager = ProcessManager::new(1, 0);
        std::mem::swap(&mut manager, &mut self.0);
        let decision = manager.get_next_process();
        proof {
            law_next_keeps_slice(old(self)@, Policy::Priority);
        }
        std::mem::swap(&mut manager, &mut self.0);
        decision
    }

    fn can_stop(&self, reason: StopReason) -> (r: bool) {
        self.0.can_stop(reason)
    }

    fn stop(&mut self, reason: StopReason) -> (result: SyscallResult) {
        proof {
            use_type_invariant(&*self);
        }
        let raise = match reason {
            StopReason::Syscall { .. } => true,
            StopReason::Expired => false,
        };
        let mut manager = ProcessManager::new(1, 0);
        std::mem::swap(&mut manager, &mut self.0);
        manager.adjust_current_priority(raise);
        let result = manager.handle_process_stop(reason);
        proof {
            law_stop_keeps_slice(old(self)@, Policy::Priority, reason);
        }
        std::mem::swap(&mut manager, &mut self.0);
        result
    }

    fn list(&self) -> (r: Vec<&PriorityProcessMeta>) {
        self.0.get_processes()
    }
}

} // verus!
