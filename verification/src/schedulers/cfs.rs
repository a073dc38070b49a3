//! The Completely Fair Scheduler: the ready process with the smallest virtual
//! run time runs first, and the time slice is shared among the active
//! processes.
use std::collections::VecDeque;

use vstd::prelude::*;

use crate::process::{Policy, Process, ProcessInfo};
use crate::{Pid, ProcessState, SchedulingDecision, Scheduler, StopReason, SyscallResult};

use super::model::{ManagerView, infos, least_vruntime, min_vruntime};
use super::laws::{law_next_keeps_slice, law_stop_keeps_slice};
use super::process_manager::{CurrentProcessMeta, ProcessInformation, ProcessManager};
use super::round_robin::ProcessMeta;

verus! {

/// A process record for the fair scheduler: the common fields and the
/// virtual run time.
pub struct CfsProcessMeta {
    inner: ProcessMeta,
    vruntime: usize,
}

/// The smallest virtual run time among `queue[from..]`, or `init` if that is
/// smaller.
fn least_among(queue: &VecDeque<CfsProcessMeta>, from: usize, init: usize) -> (r: usize)
    requires
        from <= queue@.len(),
    ensures
        r == min_vruntime(infos(queue@).subrange(from as int, queue@.len() as int), init),
{
    let ghost q = infos(queue@);
    let n = queue.len();
    let mut least = init;
    let mut i = from;
    while i < n
        invariant
            q == infos(queue@),
            n == q.len(),
            from <= i <= n,
            least == min_vruntime(q.subrange(from as int, i as int), init),
        decreases n - i,
    {
        let v = queue[i].vruntime();
        proof {
            let s = q.subrange(from as int, i + 1);
            assert(s.drop_last() =~= q.subrange(from as int, i as int));
            assert(s.last() == q[i as int]);
        }
        if v < least {
            least = v;
        }
        i = i + 1;
    }
    least
}

impl CfsProcessMeta {
    /// Creates a new process for `scheduler`, with the largest pid assigned so
    /// far, created now, with the smallest virtual run time among the
    /// runnable processes (0 if there is none).
    pub fn new(scheduler: &ProcessManager<CfsProcessMeta>, priority: i8) -> (r: Self)
        ensures
            r.info() == ProcessInfo::created(
                scheduler@.max_pid,
                priority,
                scheduler@.clock,
                least_vruntime(scheduler@.ready, scheduler@.current),
            ),
    {
        let ready = scheduler.ready_processes();
        let vruntime = match scheduler.current_process() {
            Some(current) => {
                let v = least_among(ready, 0, current.process.vruntime());
                assert(infos(ready@).subrange(0, ready@.len() as int) =~= infos(ready@));
                v
            },
            None => {
                if ready.len() == 0 {
                    0
                } else {
                    let v = least_among(ready, 1, ready[0].vruntime());
                    assert(infos(ready@).subrange(1, ready@.len() as int) =~= infos(
                        ready@,
                    ).drop_first());
                    v
                }
            },
        };
        Self {
            inner: ProcessMeta::new(Pid::new(scheduler.max_pid()), priority, scheduler.clock()),
            vruntime,
        }
    }
}

impl Process for CfsProcessMeta {
    closed spec fn info(&self) -> ProcessInfo {
        ProcessInfo { vruntime: self.vruntime, ..self.inner.info() }
    }

    fn pid(&self) -> (r: Pid) {
        self.inner.pid()
    }

    fn state(&self) -> (r: ProcessState) {
        self.inner.state()
    }

    fn timings(&self) -> (r: (usize, usize, usize)) {
        self.inner.timings()
    }

    fn priority(&self) -> (r: i8) {
        self.inner.priority()
    }
}

impl ProcessInformation for CfsProcessMeta {
    open spec fn policy() -> Policy {
        Policy::Fair
    }

    fn create_process(scheduler: &ProcessManager<Self>, priority: i8) -> (p: Self) {
        Self::new(scheduler, priority)
    }

    fn next_process(
        processes: &mut VecDeque<Self>,
        current_process: &mut Option<CurrentProcessMeta<Self>>,
        timeslice_factor: &mut usize,
        timeslice: usize,
    ) {
        let active = if current_process.is_some() {
            processes.len() + 1
        } else {
            processes.len()
        };
        *timeslice_factor = if active > 1 {
            active
        } else {
            1
        };
        let running = match current_process.as_ref() {
            Some(current) => current.process.state() == ProcessState::Running,
            None => false,
        };
        if running {
            let x = timeslice / *timeslice_factor;
            let mut current = current_process.take().unwrap();
            if x < current.remaining_timeslice {
                current.remaining_timeslice = x;
            }
            *current_process = Some(current);
            return;
        }
        Self::run_chosen(processes, current_process, timeslice / *timeslice_factor);
    }

    fn runs_before(&self, other: &Self) -> (r: bool) {
        self.vruntime < other.vruntime
    }

    fn set_state(&mut self, state: ProcessState) {
        self.inner.set_state(state);
    }

    fn last_update(&self) -> (r: usize) {
        self.inner.last_update()
    }

    fn set_last_update(&mut self, last_update: usize) {
        self.inner.set_last_update(last_update);
    }

    fn add_total_time(&mut self, time: usize) {
        self.inner.add_total_time(time);
    }

    fn add_execution_time(&mut self, time: usize) {
        self.inner.add_execution_time(time);
        self.vruntime = self.vruntime + time;
    }

    fn add_syscall(&mut self) {
        self.inner.add_syscall();
        self.vruntime = self.vruntime + 1;
    }

    fn increase_priority(&mut self) {
    }

    fn decrease_priority(&mut self) {
    }

    fn vruntime(&self) -> (r: usize) {
        self.vruntime
    }
}

/// A scheduler implementing the Completely Fair algorithm.
pub struct Cfs(ProcessManager<CfsProcessMeta>);

impl View for Cfs {
    type V = ManagerView;

    closed spec fn view(&self) -> ManagerView {
        self.0@
    }
}

impl Cfs {
    #[verifier::type_invariant]
    spec fn inv(self) -> bool {
        self.0@.well_formed() && self.0@.keeps_slice(Policy::Fair)
    }

    /// Creates a new scheduler that gives each process at most `timeslice`
    /// time units, and preempts a process that is left with fewer than
    /// `minimum_remaining_timeslice` after a system call.
    pub fn new(timeslice: usize, minimum_remaining_timeslice: usize) -> (r: Self)
        requires
            timeslice > 0,
        ensures
            r@ == ManagerView::initial(timeslice, minimum_remaining_timeslice),
            r@.well_formed(),
    {
        Self(ProcessManager::new(timeslice, minimum_remaining_timeslice))
    }

    /// The internal clock.
    pub fn clock(&self) -> (r: usize)
        ensures
            r == self@.clock,
    {
        self.0.clock()
    }
}

impl Scheduler for Cfs {
    type Record = CfsProcessMeta;

    open spec fn policy() -> Policy {
        Policy::Fair
    }

    fn next(&mut self) -> (decision: SchedulingDecision) {
        proof {
            use_type_invariant(&*self);
        }
        let mut manager = ProcessManager::new(1, 0);
        std::mem::swap(&mut manager, &mut self.0);
        let decision = manager.get_next_process();
        proof {
            law_next_keeps_slice(old(self)@, Policy::Fair);
        }
        std::mem::swap(&mut manager, &mut self.0);
        decision
    }

    fn can_stop(&self, reason: StopReason) -> (r: bool) {
        self.0.can_stop(reason)
    }

    fn stop(&mut self, reason: StopReason) -> (result: SyscallResult) {
        proof {
            use_type_invariant(&*self);
        }
        assert(old(self)@.with_priority_adjusted(Policy::Fair, reason is Syscall) == old(
            self,
        )@);
        let mut manager = ProcessManager::new(1, 0);
        std::mem::swap(&mut manager, &mut self.0);
        let result = manager.handle_process_stop(reason);
        proof {
            law_stop_keeps_slice(old(self)@, Policy::Fair, reason);
        }
        std::mem::swap(&mut manager, &mut self.0);
        result
    }

    fn list(&self) -> (r: Vec<&CfsProcessMeta>) {
        self.0.get_processes()
    }
}

} // verus!
