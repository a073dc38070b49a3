//! What the scheduler knows of a process, and how each accounting step
//! changes it.
use vstd::prelude::*;

use crate::{Pid, ProcessState};

verus! {

/// The scheduling algorithm that a kind of process record belongs to.
pub enum Policy {
    /// Processes run in the order in which they became ready.
    RoundRobin,
    /// The ready process with the highest priority runs first.
    Priority,
    /// The ready process with the smallest virtual run time runs first.
    Fair,
}

/// Everything the scheduler keeps about one process, as plain values.
#[derive(Clone, Copy, Debug, PartialEq, Eq, Structural)]
pub struct ProcessInfo {
    pub pid: usize,
    pub state: ProcessState,
    /// The current priority.
    pub priority: i8,
    /// The priority the process was created with; it can't be raised above it.
    pub max_priority: i8,
    /// Time units that passed since the process was created (as last accounted).
    pub total: usize,
    /// Time units spent in system calls.
    pub syscall: usize,
    /// Time units spent executing.
    pub execution: usize,
    /// The clock value at which the timings were last brought up to date.
    pub last_update: usize,
    /// The virtual run time (always 0 outside the fair scheduler).
    pub vruntime: usize,
}

impl ProcessInfo {
    /// A freshly created process: ready, with no time accounted yet.
    pub open spec fn created(pid: usize, priority: i8, clock: usize, vruntime: usize) -> ProcessInfo {
        ProcessInfo {
            pid,
            state: ProcessState::Ready,
            priority,
            max_priority: priority,
            total: 0,
            syscall: 0,
            execution: 0,
            last_update: clock,
            vruntime,
        }
    }

    pub open spec fn with_state(self, state: ProcessState) -> ProcessInfo {
        ProcessInfo { state, ..self }
    }

    pub open spec fn with_last_update(self, t: usize) -> ProcessInfo {
        ProcessInfo { last_update: t, ..self }
    }

    /// `t` more time units of existence.
    pub open spec fn with_total_added(self, t: int) -> ProcessInfo {
        ProcessInfo { total: (self.total + t) as usize, ..self }
    }

    /// `t` more time units of execution (which also count as existence, and
    /// as virtual run time under the fair policy).
    pub open spec fn with_execution_added(self, t: int, policy: Policy) -> ProcessInfo {
        ProcessInfo {
            execution: (self.execution + t) as usize,
            total: (self.total + t) as usize,
            vruntime: if policy is Fair {
                (self.vruntime + t) as usize
            } else {
                self.vruntime
            },
            ..self
        }
    }

    /// One more time unit spent in a system call.
    pub open spec fn with_syscall_added(self, policy: Policy) -> ProcessInfo {
        ProcessInfo {
            syscall: (self.syscall + 1) as usize,
            total: (self.total + 1) as usize,
            vruntime: if policy is Fair {
                (self.vruntime + 1) as usize
            } else {
                self.vruntime
            },
            ..self
        }
    }

    /// The priority after a system call: one higher, but never above the
    /// creation priority (only the priority policy has priorities that move).
    pub open spec fn raised(self, policy: Policy) -> ProcessInfo {
        if policy is Priority {
            ProcessInfo {
                priority: if self.priority < self.max_priority {
                    (self.priority + 1) as i8
                } else {
                    self.max_priority
                },
                ..self
            }
        } else {
            self
        }
    }

    /// The priority after a preemption: one lower, but never below 0.
    pub open spec fn lowered(self, policy: Policy) -> ProcessInfo {
        if policy is Priority {
            ProcessInfo {
                priority: if self.priority > 0 {
                    (self.priority - 1) as i8
                } else {
                    0
                },
                ..self
            }
        } else {
            self
        }
    }

    /// The time counters are consistent with each other and with `clock`:
    /// system call and execution time are part of the total, which (like the
    /// virtual run time) never runs ahead of the last update, which never
    /// runs ahead of the clock.
    pub open spec fn accounted_by(self, clock: int) -> bool {
        &&& self.syscall + self.execution <= self.total
        &&& self.total <= self.last_update
        &&& self.vruntime <= self.last_update
        &&& self.last_update <= clock
    }
}

/// A process, as the operating system can observe it.
pub trait Process {
    /// The abstract contents of the process record.
    spec fn info(&self) -> ProcessInfo;

    fn pid(&self) -> (r: Pid)
        ensures
            r.0 == self.info().pid,
    ;

    fn state(&self) -> (r: ProcessState)
        ensures
            r == self.info().state,
    ;

    /// (total time, system call time, execution time).
    fn timings(&self) -> (r: (usize, usize, usize))
        ensures
            r == (self.info().total, self.info().syscall, self.info().execution),
    ;

    fn priority(&self) -> (r: i8)
        ensures
            r == self.info().priority,
    ;
}

} // verus!
