//! The abstract state of the scheduler, and what each of its steps does to
//! it.
use std::collections::VecDeque;

use vstd::prelude::*;

use crate::process::{Policy, Process, ProcessInfo};
use crate::{Pid, ProcessState, SchedulingDecision, StopReason, Syscall, SyscallResult};

use super::process_manager::CurrentProcessMeta;

verus! {

/// The abstract contents of a sequence of processes.
pub open spec fn infos<T: Process>(s: Seq<T>) -> Seq<ProcessInfo> {
    s.map_values(|p: T| p.info())
}

/// The abstract contents of the running process, if any.
pub open spec fn current_info<T: Process>(c: Option<CurrentProcessMeta<T>>) -> Option<
    CurrentProcessMeta<ProcessInfo>,
> {
    match c {
        Some(c) => Some(
            CurrentProcessMeta {
                process: c.process.info(),
                execution_cycles: c.execution_cycles,
                syscall_cycles: c.syscall_cycles,
                remaining_timeslice: c.remaining_timeslice,
            },
        ),
        None => None,
    }
}

/// Whether a ready process `p` is preferred, under `policy`, to the ready
/// process `best` that comes before it in the queue: under the priority
/// policy when its priority is strictly higher, under the fair policy when
/// its virtual run time is strictly smaller, under Round Robin never.
pub open spec fn preferred(policy: Policy, p: ProcessInfo, best: ProcessInfo) -> bool {
    match policy {
        Policy::RoundRobin => false,
        Policy::Priority => p.priority > best.priority,
        Policy::Fair => p.vruntime < best.vruntime,
    }
}

/// The position of the process that runs next among the first `n` processes
/// of `q`: the ready process that `policy` prefers to every ready process
/// before it and that no later ready process is preferred to; `None` if no
/// process among them is ready.
pub open spec fn choice(policy: Policy, q: Seq<ProcessInfo>, n: int) -> Option<int>
    decreases n,
{
    if n <= 0 {
        None
    } else {
        let best = choice(policy, q, n - 1);
        if q[n - 1].state == ProcessState::Ready && (best is None || preferred(
            policy,
            q[n - 1],
            q[best.unwrap()],
        )) {
            Some(n - 1)
        } else {
            best
        }
    }
}

/// The chosen position is one of the first `n`, and holds a ready process.
pub proof fn lemma_choice_in_range(policy: Policy, q: Seq<ProcessInfo>, n: int)
    requires
        n <= q.len(),
    ensures
        choice(policy, q, n) is Some ==> 0 <= choice(policy, q, n).unwrap() < n && q[choice(
            policy,
            q,
            n,
        ).unwrap()].state == ProcessState::Ready,
        choice(policy, q, n) is None ==> forall|j: int|
            0 <= j < n ==> (#[trigger] q[j]).state != ProcessState::Ready,
    decreases n,
{
    if n > 0 {
        lemma_choice_in_range(policy, q, n - 1);
    }
}

/// The number of active processes, by which the fair policy divides the time
/// slice: the queued ones and the running one (at least one).
pub open spec fn fair_factor(queued: nat, has_current: bool) -> usize {
    let active = queued + if has_current {
        1int
    } else {
        0int
    };
    (if active == 0 {
        1
    } else {
        active
    }) as usize
}

/// The time slice a newly chosen process gets.
pub open spec fn slice_length(policy: Policy, timeslice: usize, factor: usize) -> usize {
    if policy is Fair {
        (timeslice / factor) as usize
    } else {
        timeslice
    }
}

/// The processes that compete for the processor: the ready queue, with the
/// preempted process, if any, at its back.
pub open spec fn candidates(
    queue: Seq<ProcessInfo>,
    current: Option<CurrentProcessMeta<ProcessInfo>>,
) -> Seq<ProcessInfo> {
    if current is Some {
        queue.push(current.unwrap().process)
    } else {
        queue
    }
}

/// The choice among the candidates `q`: (queue, running process) after it.
/// The ready process at position `choice` leaves the queue and runs with a
/// fresh time slice `slice`; if no candidate is ready, all of them stay
/// queued, in order, and nothing runs.
pub open spec fn selected(policy: Policy, q: Seq<ProcessInfo>, slice: usize) -> (
    Seq<ProcessInfo>,
    Option<CurrentProcessMeta<ProcessInfo>>,
) {
    match choice(policy, q, q.len() as int) {
        None => (q, None),
        Some(i) => (
            q.remove(i),
            Some(
                CurrentProcessMeta {
                    process: q[i].with_state(ProcessState::Running),
                    execution_cycles: 0,
                    syscall_cycles: 0,
                    remaining_timeslice: slice,
                },
            ),
        ),
    }
}

/// The choice of the next process to run: (ready queue, running process,
/// time slice factor) after the choice.
///
/// A process that is still running keeps the processor (under the fair policy
/// its remaining time slice shrinks to its current share). Otherwise the
/// choice is made among the candidates (see `selected`).
pub open spec fn next_selection(
    policy: Policy,
    queue: Seq<ProcessInfo>,
    current: Option<CurrentProcessMeta<ProcessInfo>>,
    factor: usize,
    timeslice: usize,
) -> (Seq<ProcessInfo>, Option<CurrentProcessMeta<ProcessInfo>>, usize) {
    let factor = if policy is Fair {
        fair_factor(queue.len(), current is Some)
    } else {
        factor
    };
    let slice = slice_length(policy, timeslice, factor);
    if current is Some && current.unwrap().process.state == ProcessState::Running {
        let c = current.unwrap();
        if policy is Fair && slice < c.remaining_timeslice {
            (queue, Some(CurrentProcessMeta { remaining_timeslice: slice, ..c }), factor)
        } else {
            (queue, current, factor)
        }
    } else {
        let (q, c) = selected(policy, candidates(queue, current), slice);
        (q, c, factor)
    }
}

/// The smallest virtual run time in `s`, or `init` if that is smaller.
pub open spec fn min_vruntime(s: Seq<ProcessInfo>, init: usize) -> usize
    decreases s.len(),
{
    if s.len() == 0 {
        init
    } else {
        let m = min_vruntime(s.drop_last(), init);
        if s.last().vruntime < m {
            s.last().vruntime
        } else {
            m
        }
    }
}

/// The smallest virtual run time among the runnable processes (the queued
/// ones and the running one), or 0 if there is none.
pub open spec fn least_vruntime(
    ready: Seq<ProcessInfo>,
    current: Option<CurrentProcessMeta<ProcessInfo>>,
) -> usize {
    match current {
        Some(c) => min_vruntime(ready, c.process.vruntime),
        None => if ready.len() == 0 {
            0
        } else {
            min_vruntime(ready.drop_first(), ready[0].vruntime)
        },
    }
}

/// The virtual run time a new process starts with: under the fair policy the
/// smallest one among the runnable processes, so that it gets to run soon.
pub open spec fn spawn_vruntime(
    policy: Policy,
    ready: Seq<ProcessInfo>,
    current: Option<CurrentProcessMeta<ProcessInfo>>,
) -> usize {
    if policy is Fair {
        least_vruntime(ready, current)
    } else {
        0
    }
}

/// The abstract state of a process manager.
pub struct ManagerView {
    pub current: Option<CurrentProcessMeta<ProcessInfo>>,
    pub ready: Seq<ProcessInfo>,
    /// Sleeping processes, each with the clock value at which it wakes up.
    pub sleeping: Seq<(ProcessInfo, usize)>,
    /// For each event, the processes that wait for it, in arrival order.
    pub waiting: Map<usize, Seq<ProcessInfo>>,
    /// The events of `waiting`, in the order in which they first got a waiter.
    pub waiting_order: Seq<usize>,
    pub timeslice: usize,
    pub minimum_remaining_timeslice: usize,
    pub timeslice_factor: usize,
    pub clock: usize,
    pub max_pid: usize,
    pub will_panic: bool,
}

/// A process whose timings are brought up to `clock`: the time since its last
/// update counts as existence.
pub open spec fn refreshed(p: ProcessInfo, clock: usize) -> ProcessInfo {
    p.with_last_update(clock).with_total_added(clock - p.last_update)
}

/// `refreshed` on every process of a queue.
pub open spec fn refreshed_all(s: Seq<ProcessInfo>, clock: usize) -> Seq<ProcessInfo> {
    s.map_values(|p: ProcessInfo| refreshed(p, clock))
}

/// Every process of `s` has consistent timings at `clock`.
pub open spec fn all_accounted(s: Seq<ProcessInfo>, clock: usize) -> bool {
    forall|i: int| 0 <= i < s.len() ==> (#[trigger] s[i]).accounted_by(clock as int)
}

/// The pids of a sequence of processes.
pub open spec fn pids_of(s: Seq<ProcessInfo>) -> Seq<usize> {
    s.map_values(|p: ProcessInfo| p.pid)
}

/// The running process as a sequence of zero or one process.
pub open spec fn current_seq(c: Option<CurrentProcessMeta<ProcessInfo>>) -> Seq<ProcessInfo> {
    match c {
        Some(c) => seq![c.process],
        None => Seq::empty(),
    }
}

/// The smallest wake-up time among sleeping processes (0 if there is none).
pub open spec fn earliest_wake(s: Seq<(ProcessInfo, usize)>) -> usize
    decreases s.len(),
{
    if s.len() == 0 {
        0
    } else if s.len() == 1 {
        s[0].1
    } else {
        let m = earliest_wake(s.drop_last());
        if s.last().1 < m {
            s.last().1
        } else {
            m
        }
    }
}

/// The sleeping processes whose wake-up time is not after `clock`, in order,
/// made ready.
pub open spec fn woken(s: Seq<(ProcessInfo, usize)>, clock: usize) -> Seq<ProcessInfo> {
    s.filter(|e: (ProcessInfo, usize)| e.1 <= clock).map_values(
        |e: (ProcessInfo, usize)| e.0.with_state(ProcessState::Ready),
    )
}

/// The sleeping processes whose wake-up time is after `clock`, in order.
pub open spec fn still_asleep(s: Seq<(ProcessInfo, usize)>, clock: usize) -> Seq<
    (ProcessInfo, usize),
> {
    s.filter(|e: (ProcessInfo, usize)| e.1 > clock)
}

/// How `woken` and `still_asleep` grow with one more sleeping process.
pub proof fn lemma_wake_push(s: Seq<(ProcessInfo, usize)>, e: (ProcessInfo, usize), clock: usize)
    ensures
        woken(s.push(e), clock) == if e.1 <= clock {
            woken(s, clock).push(e.0.with_state(ProcessState::Ready))
        } else {
            woken(s, clock)
        },
        still_asleep(s.push(e), clock) == if e.1 > clock {
            still_asleep(s, clock).push(e)
        } else {
            still_asleep(s, clock)
        },
{
    let due = |e: (ProcessInfo, usize)| e.1 <= clock;
    let late = |e: (ProcessInfo, usize)| e.1 > clock;
    s.lemma_filter_push(e, due);
    s.lemma_filter_push(e, late);
    let f = |e: (ProcessInfo, usize)| e.0.with_state(ProcessState::Ready);
    if e.1 <= clock {
        assert(s.filter(due).push(e).map_values(f) =~= s.filter(due).map_values(f).push(f(e)));
    }
}

/// The earliest wake-up time is one of the wake-up times, and not after any.
pub proof fn lemma_earliest_wake(s: Seq<(ProcessInfo, usize)>)
    requires
        s.len() > 0,
    ensures
        exists|i: int| 0 <= i < s.len() && earliest_wake(s) == (#[trigger] s[i]).1,
        forall|i: int| 0 <= i < s.len() ==> earliest_wake(s) <= (#[trigger] s[i]).1,
    decreases s.len(),
{
    if s.len() > 1 {
        lemma_earliest_wake(s.drop_last());
        let i = choose|i: int|
            0 <= i < s.drop_last().len() && earliest_wake(s.drop_last()) == (#[trigger] s.drop_last()[i]).1;
        assert(s.drop_last()[i] == s[i]);
        if earliest_wake(s) == s.last().1 {
            assert(earliest_wake(s) == s[s.len() - 1].1);
        } else {
            assert(earliest_wake(s) == s[i].1);
        }
        assert forall|j: int| 0 <= j < s.len() implies earliest_wake(s) <= (#[trigger] s[j]).1 by {
            if j < s.len() - 1 {
                assert(s.drop_last()[j] == s[j]);
            }
        }
    } else {
        assert(earliest_wake(s) == s[0].1);
    }
}

impl ManagerView {
    /// A scheduler that has not seen any process yet.
    pub open spec fn initial(timeslice: usize, minimum_remaining_timeslice: usize) -> ManagerView {
        ManagerView {
            current: None,
            ready: Seq::empty(),
            sleeping: Seq::empty(),
            waiting: Map::empty(),
            waiting_order: Seq::empty(),
            timeslice,
            minimum_remaining_timeslice,
            timeslice_factor: 1,
            clock: 0,
            max_pid: 0,
            will_panic: false,
        }
    }

    /// The sleeping processes, without their wake-up times.
    pub open spec fn sleepers(self) -> Seq<ProcessInfo> {
        self.sleeping.map_values(|e: (ProcessInfo, usize)| e.0)
    }

    /// The pids of the waiting processes, event by event in `waiting_order`.
    pub open spec fn waiter_pids(self) -> Seq<usize> {
        self.waiting_order.map_values(|e: usize| pids_of(self.waiting[e])).flatten()
    }

    /// The pids of every process the scheduler holds: ready, running,
    /// sleeping, waiting.
    pub open spec fn pid_seq(self) -> Seq<usize> {
        pids_of(self.ready) + pids_of(current_seq(self.current)) + pids_of(self.sleepers())
            + self.waiter_pids()
    }

    /// The invariant of the scheduler state.
    pub open spec fn well_formed(self) -> bool {
        &&& self.timeslice > 0
        &&& self.waiting_order.no_duplicates()
        &&& self.waiting_order.to_set() == self.waiting.dom()
        &&& self.waiting.dom().finite()
        &&& forall|i: int|
            0 <= i < self.ready.len() ==> (#[trigger] self.ready[i]).state == ProcessState::Ready
        &&& all_accounted(self.ready, self.clock)
        &&& forall|i: int|
            0 <= i < self.sleeping.len() ==> (#[trigger] self.sleeping[i]).0.state
                == ProcessState::Waiting { event: None }
        &&& all_accounted(self.sleepers(), self.clock)
        &&& forall|e: usize| #[trigger]
            self.waiting.contains_key(e) ==> {
                &&& self.waiting[e].len() > 0
                &&& all_accounted(self.waiting[e], self.clock)
                &&& forall|i: int|
                    0 <= i < self.waiting[e].len() ==> (#[trigger] self.waiting[e][i]).state
                        == ProcessState::Waiting { event: Some(e) }
            }
        &&& self.current is Some ==> {
            let c = self.current.unwrap();
            &&& (c.process.state == ProcessState::Running || c.process.state
                == ProcessState::Ready)
            &&& c.process.accounted_by(self.clock as int)
            &&& c.execution_cycles == 0
            &&& c.syscall_cycles <= c.process.syscall
        }
        &&& self.pid_seq().no_duplicates()
        &&& forall|i: int|
            0 <= i < self.pid_seq().len() ==> 1 <= #[trigger] self.pid_seq()[i] <= self.max_pid
    }

    /// `update_timings`: every process that is not running has its timings
    /// brought up to the clock.
    pub open spec fn with_timings_updated(self) -> ManagerView {
        ManagerView {
            ready: refreshed_all(self.ready, self.clock),
            sleeping: self.sleeping.map_values(
                |e: (ProcessInfo, usize)| (refreshed(e.0, self.clock), e.1),
            ),
            waiting: self.waiting.map_values(|q: Seq<ProcessInfo>| refreshed_all(q, self.clock)),
            ..self
        }
    }

    /// `wake_processes`: the sleeping processes whose wake-up time has come
    /// become ready and join the ready queue, in order.
    pub open spec fn with_sleepers_woken(self) -> ManagerView {
        ManagerView {
            ready: self.ready + woken(self.sleeping, self.clock),
            sleeping: still_asleep(self.sleeping, self.clock),
            ..self
        }
    }

    /// `get_next_process`: the state after the query, and the decision.
    pub open spec fn next_step(self, policy: Policy) -> (ManagerView, SchedulingDecision) {
        let v = self.with_timings_updated().with_sleepers_woken();
        if v.will_panic {
            (v, SchedulingDecision::Panic)
        } else {
            let sel = next_selection(
                policy,
                v.ready,
                v.current,
                v.timeslice_factor,
                v.timeslice,
            );
            let v = ManagerView { ready: sel.0, current: sel.1, timeslice_factor: sel.2, ..v };
            if v.current is Some && v.current.unwrap().remaining_timeslice > 0 {
                (
                    v,
                    SchedulingDecision::Run {
                        pid: Pid(v.current.unwrap().process.pid),
                        timeslice: v.current.unwrap().remaining_timeslice,
                    },
                )
            } else if v.sleeping.len() > 0 {
                let wake = earliest_wake(v.sleeping);
                (
                    ManagerView { clock: wake, ..v },
                    SchedulingDecision::Sleep((wake - v.clock) as usize),
                )
            } else if !v.waiting.is_empty() {
                (v, SchedulingDecision::Deadlock)
            } else {
                (v, SchedulingDecision::Done)
            }
        }
    }

    /// The accounting of a system call that left `remaining` time units of
    /// the running process's time slice: the clock advances by the used time,
    /// of which the last unit is the system call and the rest is execution.
    pub open spec fn with_syscall_charged(self, policy: Policy, remaining: usize) -> ManagerView {
        match self.current {
            None => self,
            Some(c) => {
                let clock = (self.clock + (c.remaining_timeslice - remaining)) as usize;
                let p = c.process.with_execution_added(
                    c.remaining_timeslice - remaining - 1,
                    policy,
                ).with_syscall_added(policy).with_last_update(clock);
                ManagerView {
                    clock,
                    current: Some(
                        CurrentProcessMeta {
                            process: p,
                            syscall_cycles: (c.syscall_cycles + 1) as usize,
                            remaining_timeslice: remaining,
                            ..c
                        },
                    ),
                    ..self
                }
            },
        }
    }

    /// `update_execution_time`: the running process is charged with the
    /// execution time since its last update (beyond its system call time).
    pub open spec fn with_execution_updated(self, policy: Policy) -> ManagerView {
        match self.current {
            None => self,
            Some(c) => {
                let elapsed = self.clock - c.process.last_update;
                let cycles = if elapsed > c.syscall_cycles {
                    (c.execution_cycles + elapsed - c.syscall_cycles) as usize
                } else {
                    c.execution_cycles
                };
                let p = c.process.with_execution_added(cycles as int, policy).with_last_update(
                    self.clock,
                );
                ManagerView {
                    current: Some(
                        CurrentProcessMeta { process: p, execution_cycles: cycles, ..c },
                    ),
                    ..self
                }
            },
        }
    }

    /// A system call after its accounting: the new state and the answer.
    pub open spec fn with_syscall_applied(
        self,
        policy: Policy,
        syscall: Syscall,
        spawned_vruntime: usize,
    ) -> (ManagerView, SyscallResult) {
        match syscall {
            Syscall::Fork(priority) => {
                let pid = (self.max_pid + 1) as usize;
                let p = ProcessInfo::created(pid, priority, self.clock, spawned_vruntime);
                (
                    ManagerView { max_pid: pid, ready: self.ready.push(p), ..self },
                    SyscallResult::Pid(Pid(pid)),
                )
            },
            Syscall::Exit => match self.current {
                None => (self, SyscallResult::NoRunningProcess),
                Some(c) => (
                    ManagerView {
                        current: None,
                        will_panic: self.will_panic || (c.process.pid == 1 && !(self.ready.len()
                            == 0 && self.sleeping.len() == 0 && self.waiting.is_empty())),
                        ..self
                    },
                    SyscallResult::Success,
                ),
            },
            Syscall::Signal(event) => if self.waiting.contains_key(event) {
                (
                    ManagerView {
                        ready: self.ready + self.waiting[event].map_values(
                            |p: ProcessInfo| p.with_state(ProcessState::Ready),
                        ),
                        waiting: self.waiting.remove(event),
                        waiting_order: self.waiting_order.remove_value(event),
                        ..self
                    },
                    SyscallResult::Success,
                )
            } else {
                (self, SyscallResult::Success)
            },
            Syscall::Wait(event) => {
                let v = self.with_execution_updated(policy);
                match v.current {
                    None => (v, SyscallResult::NoRunningProcess),
                    Some(c) => {
                        let p = c.process.with_state(ProcessState::Waiting { event: Some(event) });
                        let (queue, order) = if v.waiting.contains_key(event) {
                            (v.waiting[event], v.waiting_order)
                        } else {
                            (Seq::empty(), v.waiting_order.push(event))
                        };
                        (
                            ManagerView {
                                current: None,
                                waiting: v.waiting.insert(event, queue.push(p)),
                                waiting_order: order,
                                ..v
                            },
                            SyscallResult::Success,
                        )
                    },
                }
            },
            Syscall::Sleep(time) => {
                let v = self.with_execution_updated(policy);
                match v.current {
                    None => (v, SyscallResult::NoRunningProcess),
                    Some(c) => {
                        let p = c.process.with_state(ProcessState::Waiting { event: None });
                        (
                            ManagerView {
                                current: None,
                                sleeping: v.sleeping.push((p, (v.clock + time) as usize)),
                                ..v
                            },
                            SyscallResult::Success,
                        )
                    },
                }
            },
        }
    }

    /// After a system call, a running process whose time slice got too short
    /// is preempted (it becomes ready, and keeps the processor until the next
    /// query).
    pub open spec fn with_short_slice_preempted(self, policy: Policy) -> ManagerView {
        match self.current {
            Some(c) => if c.remaining_timeslice < self.minimum_remaining_timeslice {
                ManagerView {
                    current: Some(
                        CurrentProcessMeta {
                            process: c.process.with_state(ProcessState::Ready).with_execution_added(
                                c.execution_cycles as int,
                                policy,
                            ),
                            ..c
                        },
                    ),
                    ..self
                }
            } else {
                self
            },
            None => self,
        }
    }

    /// The running process used up its time slice: the clock advances by the
    /// rest of the slice, which counts as execution, and the process becomes
    /// ready; then the timings of all other processes are brought up to date.
    pub open spec fn with_slice_expired(self, policy: Policy) -> (ManagerView, SyscallResult) {
        match self.current {
            None => (self, SyscallResult::NoRunningProcess),
            Some(c) => {
                let clock = (self.clock + c.remaining_timeslice) as usize;
                let p = c.process.with_state(ProcessState::Ready).with_execution_added(
                    c.remaining_timeslice as int,
                    policy,
                ).with_last_update(clock);
                (
                    ManagerView {
                        clock,
                        current: Some(CurrentProcessMeta { process: p, ..c }),
                        ..self
                    }.with_timings_updated(),
                    SyscallResult::Success,
                )
            },
        }
    }

    /// `handle_process_stop`: the state after the stop, and the answer.
    pub open spec fn stop_step(self, policy: Policy, reason: StopReason) -> (
        ManagerView,
        SyscallResult,
    ) {
        match reason {
            StopReason::Syscall { syscall, remaining } => {
                let v = self.with_syscall_charged(policy, remaining);
                let vr = spawn_vruntime(policy, v.ready, v.current);
                let (v, result) = v.with_syscall_applied(policy, syscall, vr);
                (v.with_short_slice_preempted(policy), result)
            },
            StopReason::Expired => self.with_slice_expired(policy),
        }
    }

    /// The running process's priority after a stop: raised after a system
    /// call, lowered after a preemption (a change only under the priority
    /// policy).
    pub open spec fn with_priority_adjusted(self, policy: Policy, raise: bool) -> ManagerView {
        match self.current {
            Some(c) => ManagerView {
                current: Some(
                    CurrentProcessMeta {
                        process: if raise {
                            c.process.raised(policy)
                        } else {
                            c.process.lowered(policy)
                        },
                        ..c
                    },
                ),
                ..self
            },
            None => self,
        }
    }

    /// A stop as a scheduler of `policy` handles it: under the priority
    /// policy the running process's priority is raised (after a system call)
    /// or lowered (after a preemption) first.
    pub open spec fn scheduler_stop(self, policy: Policy, reason: StopReason) -> (
        ManagerView,
        SyscallResult,
    ) {
        self.with_priority_adjusted(policy, reason is Syscall).stop_step(policy, reason)
    }

    /// Under the Round Robin and priority policies, a running process holds at
    /// least the shorter of the full time slice and the minimum remaining
    /// time slice.
    pub open spec fn keeps_slice(self, policy: Policy) -> bool {
        !(policy is Fair) && self.current is Some && self.current.unwrap().process.state
            == ProcessState::Running ==> {
            ||| self.current.unwrap().remaining_timeslice >= self.timeslice
            ||| self.current.unwrap().remaining_timeslice >= self.minimum_remaining_timeslice
        }
    }

    /// The stops that the scheduler handles without an arithmetic overflow
    /// or underflow.
    pub open spec fn can_stop(self, reason: StopReason) -> bool {
        match reason {
            StopReason::Syscall { syscall, remaining } => {
                let used = match self.current {
                    Some(c) => c.remaining_timeslice - remaining,
                    None => 0,
                };
                &&& self.current is Some ==> remaining < self.current.unwrap().remaining_timeslice
                &&& self.clock + used <= usize::MAX
                &&& syscall is Fork ==> self.max_pid < usize::MAX
                &&& (syscall is Sleep && self.current is Some) ==> self.clock + used
                    + syscall->Sleep_0 <= usize::MAX
            },
            StopReason::Expired => self.current is Some ==> self.clock
                + self.current.unwrap().remaining_timeslice <= usize::MAX,
        }
    }
}

pub open spec fn sleeping_infos<T: Process>(s: Seq<(T, usize)>) -> Seq<(ProcessInfo, usize)> {
    s.map_values(|e: (T, usize)| (e.0.info(), e.1))
}

pub open spec fn waiting_infos<T: Process>(m: Map<usize, VecDeque<T>>) -> Map<usize, Seq<ProcessInfo>> {
    m.map_values(|q: VecDeque<T>| infos(q@))
}

/// The sleeping processes of a queue, without their wake-up times.
pub open spec fn sleeper_infos<T: Process>(s: Seq<(T, usize)>) -> Seq<ProcessInfo> {
    s.map_values(|e: (T, usize)| e.0.info())
}

/// The abstract contents of a sequence of process references.
pub open spec fn ref_infos<T: Process>(s: Seq<&T>) -> Seq<ProcessInfo> {
    s.map_values(|p: &T| p.info())
}

/// The processes waiting for the events of `order`, event by event.
pub open spec fn waiters_in(v: ManagerView, order: Seq<usize>) -> Seq<ProcessInfo> {
    order.map_values(|e: usize| v.waiting[e]).flatten()
}

} // verus!
