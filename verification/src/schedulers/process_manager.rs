//! The scheduler state that does not depend on the scheduling algorithm:
//! the clock, the queues of processes, and the handling of stops.
use std::collections::HashMap;
use std::collections::VecDeque;

use vstd::prelude::*;

use crate::process::{Policy, Process, ProcessInfo};
use crate::{Pid, ProcessState, SchedulingDecision, StopReason, Syscall, SyscallResult};

use super::model::{
    candidates, choice, lemma_choice_in_range, preferred, selected, current_info, earliest_wake, infos, lemma_earliest_wake, lemma_wake_push, next_selection,
    refreshed, refreshed_all, all_accounted, sleeper_infos, sleeping_infos, spawn_vruntime,
    still_asleep, waiters_in, waiting_infos, woken, ref_infos, current_seq, ManagerView,
};
use super::invariants::{
    lemma_short_slice_preempted_well_formed, lemma_slice_expired_well_formed,
    lemma_syscall_applied_well_formed, lemma_syscall_charged_well_formed,
    lemma_clock_advanced_well_formed, lemma_ready_bounded, lemma_selection_well_formed,
    lemma_sleepers_woken_well_formed, lemma_timings_updated_well_formed, with_selection,
};

verus! {

/// Information about the process that is currently using the CPU.
pub struct CurrentProcessMeta<T> {
    /// The current process.
    pub process: T,
    /// The cycles that the process has executed on this run.
    pub execution_cycles: usize,
    /// The cycles that the process has spent in syscalls on this run.
    pub syscall_cycles: usize,
    /// The time this process has left before it is preempted.
    pub remaining_timeslice: usize,
}

/// A trait that provides actions needed by the scheduler for a process.
pub trait ProcessInformation: Process + Sized {
    /// The algorithm that this kind of process record serves.
    spec fn policy() -> Policy;

    /// Create a new process, with the largest pid assigned so far.
    fn create_process(scheduler: &ProcessManager<Self>, priority: i8) -> (p: Self)
        ensures
            p.info() == ProcessInfo::created(
                scheduler@.max_pid,
                priority,
                scheduler@.clock,
                spawn_vruntime(Self::policy(), scheduler@.ready, scheduler@.current),
            ),
    ;

    /// Choose the next process to run, and store it in `current_process`.
    /// If there is no process to run, `current_process` is set to `None`.
    fn next_process(
        processes: &mut VecDeque<Self>,
        current_process: &mut Option<CurrentProcessMeta<Self>>,
        timeslice_factor: &mut usize,
        timeslice: usize,
    )
        requires
            timeslice > 0,
            *old(current_process) is Some ==> old(processes)@.len() < usize::MAX,
        ensures
            (infos(final(processes)@), current_info(*final(current_process)), *final(timeslice_factor))
                == next_selection(
                Self::policy(),
                infos(old(processes)@),
                current_info(*old(current_process)),
                *old(timeslice_factor),
                timeslice,
            ),
    ;

    /// Whether this ready process is to run before the ready process `other`
    /// that comes before it in the queue.
    fn runs_before(&self, other: &Self) -> (r: bool)
        ensures
            r == preferred(Self::policy(), self.info(), other.info()),
    ;

    /// Set the state of the process to `state`.
    fn set_state(&mut self, state: ProcessState)
        ensures
            final(self).info() == old(self).info().with_state(state),
    ;

    /// Get the last update time of the process.
    fn last_update(&self) -> (r: usize)
        ensures
            r == self.info().last_update,
    ;

    /// Set the last update time of the process.
    fn set_last_update(&mut self, last_update: usize)
        ensures
            final(self).info() == old(self).info().with_last_update(last_update),
    ;

    /// Add `time` to the total time of the process.
    fn add_total_time(&mut self, time: usize)
        requires
            old(self).info().total + time <= usize::MAX,
        ensures
            final(self).info() == old(self).info().with_total_added(time as int),
    ;

    /// Add `time` to the execution (and total) time of the process.
    fn add_execution_time(&mut self, time: usize)
        requires
            old(self).info().total + time <= usize::MAX,
            old(self).info().execution + time <= usize::MAX,
            Self::policy() is Fair ==> old(self).info().vruntime + time <= usize::MAX,
        ensures
            final(self).info() == old(self).info().with_execution_added(
                time as int,
                Self::policy(),
            ),
    ;

    /// Increase the time the process has spent in syscalls by 1.
    /// This also increases the total time of the process.
    fn add_syscall(&mut self)
        requires
            old(self).info().total < usize::MAX,
            old(self).info().syscall < usize::MAX,
            Self::policy() is Fair ==> old(self).info().vruntime < usize::MAX,
        ensures
            final(self).info() == old(self).info().with_syscall_added(Self::policy()),
    ;

    /// Increase the priority of the process by 1 (if possible).
    /// The priority can't be higher than the initial priority.
    fn increase_priority(&mut self)
        ensures
            final(self).info() == old(self).info().raised(Self::policy()),
    ;

    /// Decrease the priority of the process by 1 (if possible).
    /// The priority can't be lower than 0.
    fn decrease_priority(&mut self)
        ensures
            final(self).info() == old(self).info().lowered(Self::policy()),
    ;

    /// Get the virtual runtime of the process (0 outside the fair scheduler).
    fn vruntime(&self) -> (r: usize)
        ensures
            r == self.info().vruntime,
    ;

    /// Puts the preempted process, if any, at the back of the queue, then lets
    /// the process that `choice` picks leave the queue and run with a fresh time
    /// slice `slice`; if no queued process is ready, nothing runs.
    fn run_chosen(
        processes: &mut VecDeque<Self>,
        current_process: &mut Option<CurrentProcessMeta<Self>>,
        slice: usize,
    )
        requires
            *old(current_process) is Some ==> old(processes)@.len() < usize::MAX,
        ensures
            (infos(final(processes)@), current_info(*final(current_process))) == selected(
                Self::policy(),
                candidates(infos(old(processes)@), current_info(*old(current_process))),
                slice,
            ),
    {
        let ghost old_queue = infos(processes@);
        let ghost old_current = current_info(*current_process);
        if let Some(current) = current_process.take() {
            processes.push_back(current.process);
        }
        assert(infos(processes@) =~= candidates(old_queue, old_current));
        let ghost q = infos(processes@);
        let n = processes.len();
        let mut best: Option<usize> = None;
        let mut i: usize = 0;
        while i < n
            invariant
                q == infos(processes@),
                n == q.len(),
                i <= n,
                best is None <==> choice(Self::policy(), q, i as int) is None,
                best is Some ==> best.unwrap() as int == choice(Self::policy(), q, i as int).unwrap(),
                best is Some ==> best.unwrap() < i,
            decreases n - i,
        {
            proof {
                lemma_choice_in_range(Self::policy(), q, i as int);
            }
            let better = match best {
                None => true,
                Some(b) => processes[i].runs_before(&processes[b]),
            };
            if processes[i].state() == ProcessState::Ready && better {
                best = Some(i);
            }
            i = i + 1;
        }
        proof {
            lemma_choice_in_range(Self::policy(), q, q.len() as int);
        }
        if let Some(index) = best {
            let ghost before = processes@;
            if let Some(mut process) = processes.remove(index) {
                process.set_state(ProcessState::Running);
                *current_process = Some(
                    CurrentProcessMeta {
                        process,
                        execution_cycles: 0,
                        syscall_cycles: 0,
                        remaining_timeslice: slice,
                    },
                );
                assert(infos(processes@) =~= infos(before).remove(index as int));
            }
        }
    }
}

/// The process manager that keeps track of all processes and their state.
pub struct ProcessManager<T> {
    /// The process that is currently running (or None if there isn't one).
    pub(crate) current_process: Option<CurrentProcessMeta<T>>,
    /// The processes that are ready to be run.
    pub(crate) processes: VecDeque<T>,
    /// The processes that are sleeping, each with the time at which it wakes up.
    pub(crate) sleeping_processes: VecDeque<(T, usize)>,
    /// The processes that are waiting for a certain event.
    /// The key is the event, the value is a list of processes
    /// that are waiting for that event.
    pub(crate) waiting_processes: HashMap<usize, VecDeque<T>>,
    /// The keys of `waiting_processes` in the order in which they were added.
    pub(crate) waiting_order: Ghost<Seq<usize>>,
    /// The maximum timeslice that is given to each process (positive).
    pub(crate) timeslice: usize,
    /// The minimum timeslice that a process must have left
    /// after a syscall in order to remain on the CPU.
    pub(crate) minimum_remaining_timeslice: usize,
    /// The factor that is used to calculate the timeslice (for cfs).
    pub(crate) timeslice_factor: usize,
    /// The number of clock cycles that have passed since the scheduler was started.
    pub(crate) clock: usize,
    /// The maximum pid that has been assigned yet.
    pub(crate) max_pid: usize,
    /// Whether the scheduler will panic on the next query.
    pub(crate) will_panic: bool,
}

impl<T: Process> View for ProcessManager<T> {
    type V = ManagerView;

    closed spec fn view(&self) -> ManagerView {
        ManagerView {
            current: current_info(self.current_process),
            ready: infos(self.processes@),
            sleeping: sleeping_infos(self.sleeping_processes@),
            waiting: waiting_infos(self.waiting_processes@),
            waiting_order: self.waiting_order@,
            timeslice: self.timeslice,
            minimum_remaining_timeslice: self.minimum_remaining_timeslice,
            timeslice_factor: self.timeslice_factor,
            clock: self.clock,
            max_pid: self.max_pid,
            will_panic: self.will_panic,
        }
    }
}

impl<T: Process> ProcessManager<T> {
    /// Create a new process manager.
    ///
    /// @param timeslice                     The maximum timeslice that is given to each process.
    /// @param minimum_remaining_timeslice   The minimum timeslice that a process must have left
    pub fn new(timeslice: usize, minimum_remaining_timeslice: usize) -> (r: Self)
        requires
            timeslice > 0,
        ensures
            r@ == ManagerView::initial(timeslice, minimum_remaining_timeslice),
            r@.well_formed(),
    {
        let r = ProcessManager {
            minimum_remaining_timeslice,
            timeslice,
            sleeping_processes: VecDeque::new(),
            waiting_processes: HashMap::new(),
            waiting_order: Ghost(Seq::empty()),
            processes: VecDeque::new(),
            current_process: None,
            timeslice_factor: 1,
            will_panic: false,
            max_pid: 0,
            clock: 0,
        };
        assert(r@.ready =~= Seq::empty());
        assert(r@.sleeping =~= Seq::empty());
        assert(r@.waiting =~= Map::empty());
        assert(r@.waiting_order.to_set() =~= r@.waiting.dom());
        assert(r@.sleepers() =~= Seq::empty());
        assert(r@.waiter_pids() =~= Seq::empty());
        assert(r@.pid_seq() =~= Seq::empty());
        r
    }

    /// The number of clock cycles that have passed since the scheduler was started.
    pub fn clock(&self) -> (r: usize)
        ensures
            r == self@.clock,
    {
        self.clock
    }

    /// The largest pid assigned so far.
    pub fn max_pid(&self) -> (r: usize)
        ensures
            r == self@.max_pid,
    {
        self.max_pid
    }

    /// The processes that are ready to be run.
    pub fn ready_processes(&self) -> (r: &VecDeque<T>)
        ensures
            infos(r@) == self@.ready,
    {
        &self.processes
    }

    /// The process that is currently running, if any.
    pub fn current_process(&self) -> (r: &Option<CurrentProcessMeta<T>>)
        ensures
            current_info(*r) == self@.current,
    {
        &self.current_process
    }
}


/// Brings the timings of every process of `queue` up to `clock`.
fn refresh_queue<T: ProcessInformation>(queue: &mut VecDeque<T>, clock: usize)
    requires
        all_accounted(infos(old(queue)@), clock),
    ensures
        infos(final(queue)@) == refreshed_all(infos(old(queue)@), clock),
{
    let ghost start = infos(queue@);
    let n = queue.len();
    let mut i: usize = 0;
    while i < n
        invariant
            start == infos(old(queue)@),
            all_accounted(start, clock),
            n == start.len(),
            i <= n,
            queue@.len() == n,
            infos(queue@) == start.skip(i as int) + refreshed_all(start.take(i as int), clock),
        decreases n - i,
    {
        let ghost q0 = queue@;
        assert(infos(q0)[0] == start[i as int]);
        let mut process = queue.pop_front().unwrap();
        assert(start[i as int].accounted_by(clock as int));
        let elapsed = clock - process.last_update();
        process.set_last_update(clock);
        process.add_total_time(elapsed);
        assert(process.info() == refreshed(start[i as int], clock));
        queue.push_back(process);
        proof {
            assert(queue@ == q0.subrange(1, n as int).push(process));
            assert(infos(q0.subrange(1, n as int)) =~= infos(q0).subrange(1, n as int));
            assert(infos(q0).subrange(1, n as int) =~= start.skip(i + 1) + refreshed_all(
                start.take(i as int),
                clock,
            ));
            assert(start.take(i + 1) =~= start.take(i as int).push(start[i as int]));
            assert(refreshed_all(start.take(i + 1), clock) =~= refreshed_all(
                start.take(i as int),
                clock,
            ).push(refreshed(start[i as int], clock)));
            assert(infos(queue@) =~= infos(q0.subrange(1, n as int)).push(process.info()));
            assert(infos(queue@) =~= start.skip(i + 1) + refreshed_all(start.take(i + 1), clock));
        }
        i = i + 1;
    }
    assert(start.take(n as int) =~= start);
    assert(infos(queue@) =~= refreshed_all(start, clock));
}



/// Brings the timings of every sleeping process up to `clock`.
fn refresh_sleepers<T: ProcessInformation>(queue: &mut VecDeque<(T, usize)>, clock: usize)
    requires
        all_accounted(sleeper_infos(old(queue)@), clock),
    ensures
        sleeping_infos(final(queue)@) == sleeping_infos(old(queue)@).map_values(
            |e: (ProcessInfo, usize)| (refreshed(e.0, clock), e.1),
        ),
{
    let ghost start = sleeping_infos(queue@);
    let ghost f = |e: (ProcessInfo, usize)| (refreshed(e.0, clock), e.1);
    let n = queue.len();
    let mut i: usize = 0;
    while i < n
        invariant
            start == sleeping_infos(old(queue)@),
            all_accounted(sleeper_infos(old(queue)@), clock),
            n == start.len(),
            i <= n,
            queue@.len() == n,
            f == (|e: (ProcessInfo, usize)| (refreshed(e.0, clock), e.1)),
            sleeping_infos(queue@) == start.skip(i as int) + start.take(i as int).map_values(f),
        decreases n - i,
    {
        let ghost q0 = queue@;
        assert(sleeping_infos(q0)[0] == start[i as int]);
        assert(sleeper_infos(old(queue)@)[i as int] == start[i as int].0);
        let (mut process, wake) = queue.pop_front().unwrap();
        let elapsed = clock - process.last_update();
        process.set_last_update(clock);
        process.add_total_time(elapsed);
        assert((process.info(), wake) == f(start[i as int]));
        queue.push_back((process, wake));
        proof {
            assert(queue@ == q0.subrange(1, n as int).push((process, wake)));
            assert(sleeping_infos(q0.subrange(1, n as int)) =~= sleeping_infos(q0).subrange(
                1,
                n as int,
            ));
            assert(sleeping_infos(q0).subrange(1, n as int) =~= start.skip(i + 1) + start.take(
                i as int,
            ).map_values(f));
            assert(start.take(i + 1) =~= start.take(i as int).push(start[i as int]));
            assert(start.take(i + 1).map_values(f) =~= start.take(i as int).map_values(f).push(
                f(start[i as int]),
            ));
            assert(sleeping_infos(queue@) =~= sleeping_infos(q0.subrange(1, n as int)).push(
                (process.info(), wake),
            ));
            assert(sleeping_infos(queue@) =~= start.skip(i + 1) + start.take(i + 1).map_values(f));
        }
        i = i + 1;
    }
    assert(start.take(n as int) =~= start);
    assert(sleeping_infos(queue@) =~= start.map_values(f));
}


/// The events that have waiting processes, each once, in the map's order.
fn event_keys<T>(m: &HashMap<usize, VecDeque<T>>) -> (r: Vec<usize>)
    ensures
        r@.no_duplicates(),
        r@.to_set() == m@.dom(),
{
    broadcast use vstd::std_specs::hash::group_hash_axioms;

    let ghost all = vstd::std_specs::iter::IteratorSpec::remaining(&vstd::std_specs::hash::spec_keys_iter(m));
    let mut keys: Vec<usize> = Vec::new();
    for k in it: m.keys()
        invariant
            it.seq() == all,
            keys@.len() == it.index(),
            forall|i: int| 0 <= i < it.index() ==> keys@[i] == *all[i],
    {
        keys.push(*k);
    }
    assert(keys@ =~= all.unref());
    keys
}


/// Brings the timings of every waiting process up to `clock`.
fn refresh_waiting<T: ProcessInformation>(waiting: &mut HashMap<usize, VecDeque<T>>, clock: usize)
    requires
        forall|e: usize| #[trigger]
            old(waiting)@.contains_key(e) ==> all_accounted(infos(old(waiting)@[e]@), clock),
    ensures
        waiting_infos(final(waiting)@) == waiting_infos(old(waiting)@).map_values(
            |q: Seq<ProcessInfo>| refreshed_all(q, clock),
        ),
{
    broadcast use vstd::std_specs::hash::group_hash_axioms;

    let keys = event_keys(waiting);
    let ghost start = waiting@;
    let mut i: usize = 0;
    while i < keys.len()
        invariant
            keys@.no_duplicates(),
            keys@.to_set() == start.dom(),
            start == old(waiting)@,
            i <= keys@.len(),
            waiting@.dom() == start.dom(),
            forall|e: usize| #[trigger]
                start.contains_key(e) ==> all_accounted(infos(start[e]@), clock),
            forall|e: usize| #[trigger]
                start.contains_key(e) ==> infos(waiting@[e]@) == if keys@.take(i as int).contains(
                    e,
                ) {
                    refreshed_all(infos(start[e]@), clock)
                } else {
                    infos(start[e]@)
                },
        decreases keys@.len() - i,
    {
        let e = keys[i];
        assert(keys@.to_set().contains(e));
        assert(!keys@.take(i as int).contains(e));
        let ghost before = waiting@;
        let mut q = waiting.remove(&e).unwrap();
        assert(q == before[e]);
        assert(infos(q@) == infos(start[e]@));
        refresh_queue(&mut q, clock);
        waiting.insert(e, q);
        proof {
            assert(keys@.take(i + 1) =~= keys@.take(i as int).push(e));
            assert(keys@.take(i + 1).contains(e)) by {
                assert(keys@.take(i + 1)[i as int] == e);
            }
            assert(waiting@ == before.remove(e).insert(e, q));
            assert forall|x: usize| #[trigger] start.contains_key(x) implies infos(waiting@[x]@)
                == if keys@.take(i + 1).contains(x) {
                refreshed_all(infos(start[x]@), clock)
            } else {
                infos(start[x]@)
            } by {
                if x != e {
                    assert(keys@.take(i + 1).contains(x) == keys@.take(i as int).contains(x));
                }
            }
            assert(waiting@.dom() =~= start.dom());
        }
        i = i + 1;
    }
    proof {
        assert(keys@.take(keys@.len() as int) =~= keys@);
        assert forall|e: usize| start.contains_key(e) implies keys@.contains(e) by {
            assert(keys@.to_set().contains(e));
        }
        assert(waiting_infos(waiting@) =~= waiting_infos(start).map_values(
            |q: Seq<ProcessInfo>| refreshed_all(q, clock),
        ));
    }
}


impl<T: ProcessInformation> ProcessManager<T> {
    /// Update the timings of all processes.
    fn update_timings(&mut self)
        requires
            old(self)@.well_formed(),
        ensures
            final(self)@ == old(self)@.with_timings_updated(),
    {
        let clock = self.clock;
        proof {
            let v = self@;
            assert(sleeper_infos(self.sleeping_processes@) =~= v.sleepers());
            assert forall|e: usize| #[trigger]
                self.waiting_processes@.contains_key(e) implies all_accounted(
                infos(self.waiting_processes@[e]@),
                clock,
            ) by {
                assert(v.waiting.contains_key(e));
            }
        }
        refresh_queue(&mut self.processes, clock);
        refresh_sleepers(&mut self.sleeping_processes, clock);
        refresh_waiting(&mut self.waiting_processes, clock);
        proof {
            assert(self@.waiting =~= old(self)@.with_timings_updated().waiting);
            assert(self@ =~= old(self)@.with_timings_updated());
        }
    }
}


impl<T: ProcessInformation> ProcessManager<T> {
    /// Wake up all processes that finished waiting.
    fn wake_processes(&mut self)
        ensures
            final(self)@ == old(self)@.with_sleepers_woken(),
    {
        let clock = self.clock;
        let ghost start = sleeping_infos(self.sleeping_processes@);
        let ghost ready0 = infos(self.processes@);
        let n = self.sleeping_processes.len();
        let mut still: VecDeque<(T, usize)> = VecDeque::new();
        let mut i: usize = 0;
        while i < n
            invariant
                start == sleeping_infos(old(self).sleeping_processes@),
                ready0 == infos(old(self).processes@),
                clock == old(self).clock,
                n == start.len(),
                i <= n,
                self.sleeping_processes@.len() == n - i,
                sleeping_infos(self.sleeping_processes@) == start.skip(i as int),
                infos(self.processes@) == ready0 + woken(start.take(i as int), clock),
                sleeping_infos(still@) == still_asleep(start.take(i as int), clock),
                self.current_process == old(self).current_process,
                self.waiting_processes == old(self).waiting_processes,
                self.waiting_order == old(self).waiting_order,
                self.timeslice == old(self).timeslice,
                self.minimum_remaining_timeslice == old(self).minimum_remaining_timeslice,
                self.timeslice_factor == old(self).timeslice_factor,
                self.clock == old(self).clock,
                self.max_pid == old(self).max_pid,
                self.will_panic == old(self).will_panic,
            decreases n - i,
        {
            let ghost q0 = self.sleeping_processes@;
            let ghost p0 = self.processes@;
            let ghost s0 = still@;
            assert(sleeping_infos(q0)[0] == start[i as int]);
            let (mut process, wake) = self.sleeping_processes.pop_front().unwrap();
            proof {
                assert(start.take(i + 1) =~= start.take(i as int).push(start[i as int]));
                lemma_wake_push(start.take(i as int), start[i as int], clock);
                assert(self.sleeping_processes@ == q0.subrange(1, q0.len() as int));
                assert(sleeping_infos(q0.subrange(1, q0.len() as int)) =~= sleeping_infos(
                    q0,
                ).subrange(1, q0.len() as int));
                assert(sleeping_infos(self.sleeping_processes@) =~= start.skip(i + 1));
            }
            if wake <= clock {
                process.set_state(ProcessState::Ready);
                self.processes.push_back(process);
                assert(infos(self.processes@) =~= infos(p0).push(process.info()));
            } else {
                still.push_back((process, wake));
                assert(sleeping_infos(still@) =~= sleeping_infos(s0).push((process.info(), wake)));
            }
            i = i + 1;
        }
        self.sleeping_processes = still;
        proof {
            assert(start.take(n as int) =~= start);
            assert(self@ =~= old(self)@.with_sleepers_woken());
        }
    }
}


/// The time until the first sleeping process wakes up, if any sleeps.
fn earliest_wait<T: Process>(sleeping: &VecDeque<(T, usize)>, clock: usize) -> (r: Option<usize>)
    requires
        forall|i: int| 0 <= i < sleeping@.len() ==> (#[trigger] sleeping@[i]).1 > clock,
    ensures
        r is None <==> sleeping@.len() == 0,
        r is Some ==> r.unwrap() == earliest_wake(sleeping_infos(sleeping@)) - clock,
{
    let ghost s = sleeping_infos(sleeping@);
    let n = sleeping.len();
    let mut best: Option<usize> = None;
    let mut i: usize = 0;
    while i < n
        invariant
            s == sleeping_infos(sleeping@),
            n == s.len(),
            i <= n,
            forall|j: int| 0 <= j < sleeping@.len() ==> (#[trigger] sleeping@[j]).1 > clock,
            best is None <==> i == 0,
            best is Some ==> best.unwrap() == earliest_wake(s.take(i as int)) - clock,
        decreases n - i,
    {
        let wake = sleeping[i].1;
        let wait = wake - clock;
        proof {
            let t = s.take(i + 1);
            assert(t.drop_last() =~= s.take(i as int));
            assert(t.last() == s[i as int]);
            assert(s[i as int].1 == wake);
        }
        if wait != 0 {
            best = match best {
                Some(b) => if wait < b {
                    Some(wait)
                } else {
                    Some(b)
                },
                None => Some(wait),
            };
        }
        i = i + 1;
    }
    assert(s.take(n as int) =~= s);
    best
}


impl<T: ProcessInformation> ProcessManager<T> {
    /// Tell the CPU what to do next.
    ///
    /// @return The decision that the CPU should make.
    pub fn get_next_process(&mut self) -> (decision: SchedulingDecision)
        requires
            old(self)@.well_formed(),
        ensures
            (final(self)@, decision) == old(self)@.next_step(T::policy()),
            final(self)@.well_formed(),
    {
        proof {
            lemma_timings_updated_well_formed(self@);
        }
        self.update_timings();
        proof {
            lemma_sleepers_woken_well_formed(self@);
        }
        self.wake_processes();
        let ghost woken_view = self@;
        if self.will_panic {
            return SchedulingDecision::Panic;
        }
        proof {
            lemma_ready_bounded(self@);
            lemma_selection_well_formed(self@, T::policy());
        }
        let timeslice = self.timeslice;
        T::next_process(
            &mut self.processes,
            &mut self.current_process,
            &mut self.timeslice_factor,
            timeslice,
        );
        assert(self@ == with_selection(woken_view, T::policy()));
        if let Some(current) = &self.current_process {
            if current.remaining_timeslice > 0 {
                return SchedulingDecision::Run {
                    pid: current.process.pid(),
                    timeslice: current.remaining_timeslice,
                };
            }
        }
        proof {
            assert forall|i: int|
                0 <= i < self.sleeping_processes@.len() implies (
                #[trigger] self.sleeping_processes@[i]).1 > self.clock by {
                let e = sleeping_infos(self.sleeping_processes@)[i];
                assert(e.1 == self.sleeping_processes@[i].1);
            }
        }
        match earliest_wait(&self.sleeping_processes, self.clock) {
            Some(wait_time) => {
                proof {
                    lemma_earliest_wake(self@.sleeping);
                    lemma_clock_advanced_well_formed(self@, earliest_wake(self@.sleeping));
                }
                self.clock = self.clock + wait_time;
                SchedulingDecision::Sleep(wait_time)
            },
            None => {
                if !self.waiting_processes.is_empty() {
                    SchedulingDecision::Deadlock
                } else {
                    SchedulingDecision::Done
                }
            },
        }
    }
}


impl<T: ProcessInformation> ProcessManager<T> {
    /// Accounts for the system call that the running process made, leaving
    /// it `remaining` time units.
    fn charge_syscall(&mut self, remaining: usize)
        requires
            old(self)@.well_formed(),
            old(self)@.current is Some ==> remaining < old(self)@.current.unwrap().remaining_timeslice
                && old(self)@.clock + (old(self)@.current.unwrap().remaining_timeslice - remaining)
                <= usize::MAX,
        ensures
            final(self)@ == old(self)@.with_syscall_charged(T::policy(), remaining),
    {
        if let Some(mut current) = self.current_process.take() {
            let ghost c = current.process.info();
            assert(c.accounted_by(self.clock as int));
            let used = current.remaining_timeslice - remaining;
            self.clock = self.clock + used;
            let execution_time = used - 1;
            current.process.add_execution_time(execution_time);
            current.process.add_syscall();
            current.process.set_last_update(self.clock);
            current.syscall_cycles = current.syscall_cycles + 1;
            current.remaining_timeslice = remaining;
            self.current_process = Some(current);
            assert(self@ =~= old(self)@.with_syscall_charged(T::policy(), remaining));
        }
    }

    /// Update the execution time of the current process.
    fn update_execution_time(&mut self)
        requires
            old(self)@.well_formed(),
        ensures
            final(self)@ == old(self)@.with_execution_updated(T::policy()),
    {
        if let Some(mut current) = self.current_process.take() {
            let ghost c = current.process.info();
            assert(c.accounted_by(self.clock as int));
            let execution_time = self.clock - current.process.last_update();
            if execution_time > current.syscall_cycles {
                current.execution_cycles = current.execution_cycles + (execution_time
                    - current.syscall_cycles);
            }
            current.process.add_execution_time(current.execution_cycles);
            current.process.set_last_update(self.clock);
            self.current_process = Some(current);
            assert(self@ =~= old(self)@.with_execution_updated(T::policy()));
        }
    }

    /// After a system call, preempts the running process if it doesn't have
    /// enough time left.
    fn preempt_short_slice(&mut self)
        requires
            old(self)@.current is Some ==> {
                let c = old(self)@.current.unwrap();
                &&& c.execution_cycles == 0
            },
        ensures
            final(self)@ == old(self)@.with_short_slice_preempted(T::policy()),
    {
        if let Some(mut current) = self.current_process.take() {
            if current.remaining_timeslice < self.minimum_remaining_timeslice {
                current.process.set_state(ProcessState::Ready);
                current.process.add_execution_time(current.execution_cycles);
            }
            self.current_process = Some(current);
            assert(self@ =~= old(self)@.with_short_slice_preempted(T::policy()));
        }
    }
}


/// Makes every process of `queue` ready and moves it, in order, to the back
/// of `ready`.
fn make_ready<T: ProcessInformation>(ready: &mut VecDeque<T>, queue: &mut VecDeque<T>)
    ensures
        infos(final(ready)@) == infos(old(ready)@) + infos(old(queue)@).map_values(
            |p: ProcessInfo| p.with_state(ProcessState::Ready),
        ),
{
    let ghost start = infos(queue@);
    let ghost ready0 = infos(ready@);
    let ghost f = |p: ProcessInfo| p.with_state(ProcessState::Ready);
    let n = queue.len();
    let mut i: usize = 0;
    while i < n
        invariant
            start == infos(old(queue)@),
            ready0 == infos(old(ready)@),
            f == (|p: ProcessInfo| p.with_state(ProcessState::Ready)),
            n == start.len(),
            i <= n,
            queue@.len() == n - i,
            infos(queue@) == start.skip(i as int),
            infos(ready@) == ready0 + start.take(i as int).map_values(f),
        decreases n - i,
    {
        let ghost q0 = queue@;
        let ghost r0 = ready@;
        assert(infos(q0)[0] == start[i as int]);
        let mut process = queue.pop_front().unwrap();
        process.set_state(ProcessState::Ready);
        ready.push_back(process);
        proof {
            assert(queue@ == q0.subrange(1, q0.len() as int));
            assert(infos(q0.subrange(1, q0.len() as int)) =~= infos(q0).subrange(
                1,
                q0.len() as int,
            ));
            assert(infos(queue@) =~= start.skip(i + 1));
            assert(start.take(i + 1) =~= start.take(i as int).push(start[i as int]));
            assert(infos(ready@) =~= infos(r0).push(process.info()));
            assert(infos(ready@) =~= ready0 + start.take(i + 1).map_values(f));
        }
        i = i + 1;
    }
    assert(start.take(n as int) =~= start);
}

impl<T: ProcessInformation> ProcessManager<T> {
    /// Carries out an (already accounted) system call.
    fn apply_syscall(&mut self, syscall: Syscall) -> (result: SyscallResult)
        requires
            old(self)@.well_formed(),
            syscall is Fork ==> old(self)@.max_pid < usize::MAX,
            (syscall is Sleep && old(self)@.current is Some) ==> old(self)@.clock
                + syscall->Sleep_0 <= usize::MAX,
        ensures
            (final(self)@, result) == old(self)@.with_syscall_applied(
                T::policy(),
                syscall,
                spawn_vruntime(T::policy(), old(self)@.ready, old(self)@.current),
            ),
    {
        broadcast use vstd::std_specs::hash::group_hash_axioms;

        match syscall {
            Syscall::Fork(priority) => {
                self.max_pid = self.max_pid + 1;
                let new_process = T::create_process(self, priority);
                let new_pid = new_process.pid();
                let ghost q0 = self.processes@;
                self.processes.push_back(new_process);
                assert(infos(self.processes@) =~= infos(q0).push(new_process.info()));
                assert(self@ =~= old(self)@.with_syscall_applied(
                    T::policy(),
                    syscall,
                    spawn_vruntime(T::policy(), old(self)@.ready, old(self)@.current),
                ).0);
                SyscallResult::Pid(new_pid)
            },
            Syscall::Exit => {
                if let Some(current) = self.current_process.take() {
                    // Killing `init` while other processes are
                    // running will result in a panic.
                    if current.process.pid().value() == 1 && !(self.processes.len() == 0
                        && self.sleeping_processes.len() == 0 && self.waiting_processes.is_empty()) {
                        self.will_panic = true;
                    }
                    assert(self@.waiting.is_empty() == self.waiting_processes@.is_empty());
                    assert(self@ =~= old(self)@.with_syscall_applied(
                        T::policy(),
                        syscall,
                        spawn_vruntime(T::policy(), old(self)@.ready, old(self)@.current),
                    ).0);
                    SyscallResult::Success
                } else {
                    SyscallResult::NoRunningProcess
                }
            },
            Syscall::Signal(event) => {
                let ghost m0 = self.waiting_processes@;
                if let Some(mut waiting) = self.waiting_processes.remove(&event) {
                    assert(waiting == m0[event]);
                    assert(waiting_infos(self.waiting_processes@) =~= waiting_infos(m0).remove(
                        event,
                    ));
                    make_ready(&mut self.processes, &mut waiting);
                    proof {
                        self.waiting_order@ = self.waiting_order@.remove_value(event);
                    }
                    assert(self@ =~= old(self)@.with_syscall_applied(
                        T::policy(),
                        syscall,
                        spawn_vruntime(T::policy(), old(self)@.ready, old(self)@.current),
                    ).0);
                } else {
                    assert(!m0.contains_key(event));
                    assert(self.waiting_processes@ =~= m0);
                    assert(self@ =~= old(self)@);
                }
                SyscallResult::Success
            },
            Syscall::Wait(event) => {
                self.update_execution_time();
                let ghost v1 = self@;
                if let Some(mut current) = self.current_process.take() {
                    current.process.set_state(ProcessState::Waiting { event: Some(event) });
                    let ghost p = current.process.info();
                    let ghost m0 = self.waiting_processes@;
                    match self.waiting_processes.remove(&event) {
                        Some(mut queue) => {
                            assert(queue == m0[event]);
                            let ghost q0 = queue@;
                            queue.push_back(current.process);
                            assert(infos(queue@) =~= infos(q0).push(p));
                            self.waiting_processes.insert(event, queue);
                            assert(self.waiting_processes@ =~= m0.insert(event, queue));
                            assert(waiting_infos(self.waiting_processes@) =~= v1.waiting.insert(
                                event,
                                v1.waiting[event].push(p),
                            ));
                        },
                        None => {
                            let mut queue = VecDeque::new();
                            queue.push_back(current.process);
                            assert(infos(queue@) =~= Seq::<ProcessInfo>::empty().push(p));
                            self.waiting_processes.insert(event, queue);
                            proof {
                                self.waiting_order@ = self.waiting_order@.push(event);
                            }
                            assert(waiting_infos(self.waiting_processes@) =~= v1.waiting.insert(
                                event,
                                Seq::<ProcessInfo>::empty().push(p),
                            ));
                        },
                    }
                    assert(self@ =~= old(self)@.with_syscall_applied(
                        T::policy(),
                        syscall,
                        spawn_vruntime(T::policy(), old(self)@.ready, old(self)@.current),
                    ).0);
                    SyscallResult::Success
                } else {
                    SyscallResult::NoRunningProcess
                }
            },
            Syscall::Sleep(time) => {
                self.update_execution_time();
                if let Some(mut current) = self.current_process.take() {
                    current.process.set_state(ProcessState::Waiting { event: None });
                    let ghost s0 = self.sleeping_processes@;
                    self.sleeping_processes.push_back((current.process, self.clock + time));
                    assert(sleeping_infos(self.sleeping_processes@) =~= sleeping_infos(s0).push(
                        (current.process.info(), (self.clock + time) as usize),
                    ));
                    assert(self@ =~= old(self)@.with_syscall_applied(
                        T::policy(),
                        syscall,
                        spawn_vruntime(T::policy(), old(self)@.ready, old(self)@.current),
                    ).0);
                    SyscallResult::Success
                } else {
                    SyscallResult::NoRunningProcess
                }
            },
        }
    }
}


impl<T: ProcessInformation> ProcessManager<T> {
    /// The running process used up its time slice.
    fn expire(&mut self) -> (result: SyscallResult)
        requires
            old(self)@.well_formed(),
            old(self)@.current is Some ==> old(self)@.clock + old(
                self,
            )@.current.unwrap().remaining_timeslice <= usize::MAX,
        ensures
            (final(self)@, result) == old(self)@.with_slice_expired(T::policy()),
            final(self)@.well_formed(),
    {
        proof {
            lemma_slice_expired_well_formed(self@, T::policy());
        }
        if let Some(mut current) = self.current_process.take() {
            let ghost c = current.process.info();
            assert(c.accounted_by(self.clock as int));
            self.clock = self.clock + current.remaining_timeslice;
            current.process.set_state(ProcessState::Ready);
            current.process.add_execution_time(current.remaining_timeslice);
            current.process.set_last_update(self.clock);
            self.current_process = Some(current);
            let ghost c2 = current_info(self.current_process).unwrap();
            proof {
                lemma_clock_advanced_well_formed(old(self)@, self.clock);
                super::invariants::lemma_current_replaced_well_formed(
                    ManagerView { clock: self.clock, ..old(self)@ },
                    c2,
                );
                assert(self@ =~= ManagerView {
                    current: Some(c2),
                    ..ManagerView { clock: self.clock, ..old(self)@ }
                });
            }
            self.update_timings();
            SyscallResult::Success
        } else {
            SyscallResult::NoRunningProcess
        }
    }

    /// Handle an interrupt from the CPU.
    ///
    /// @param reason   The reason why the CPU stopped executing the
    ///                 process (and called the scheduler).
    /// @return The result of the syscall.
    pub fn handle_process_stop(&mut self, reason: StopReason) -> (result: SyscallResult)
        requires
            old(self)@.well_formed(),
            old(self)@.can_stop(reason),
        ensures
            (final(self)@, result) == old(self)@.stop_step(T::policy(), reason),
            final(self)@.well_formed(),
    {
        match reason {
            StopReason::Syscall { syscall, remaining } => {
                proof {
                    lemma_syscall_charged_well_formed(self@, T::policy(), remaining);
                }
                self.charge_syscall(remaining);
                proof {
                    lemma_syscall_applied_well_formed(self@, T::policy(), syscall);
                }
                let result = self.apply_syscall(syscall);
                proof {
                    lemma_short_slice_preempted_well_formed(self@, T::policy());
                }
                self.preempt_short_slice();
                result
            },
            StopReason::Expired => self.expire(),
        }
    }
}




impl<T: Process> ProcessManager<T> {
    /// All processes: the ready ones, the running one, the sleeping ones, and
    /// the waiting ones (event by event, in the order of the event map).
    pub fn get_processes(&self) -> (r: Vec<&T>)
        ensures
            exists|order: Seq<usize>|
                {
                    &&& order.no_duplicates()
                    &&& order.to_set() == self@.waiting.dom()
                    &&& ref_infos(r@) == self@.ready + current_seq(self@.current) + self@.sleepers()
                        + waiters_in(self@, order)
                },
    {
        broadcast use vstd::std_specs::hash::group_hash_axioms;

        let ghost v = self@;
        let mut r: Vec<&T> = Vec::new();
        let n = self.processes.len();
        let mut i: usize = 0;
        while i < n
            invariant
                v == self@,
                n == v.ready.len(),
                i <= n,
                ref_infos(r@) == v.ready.take(i as int),
            decreases n - i,
        {
            let ghost r0 = r@;
            r.push(&self.processes[i]);
            proof {
                assert(v.ready.take(i + 1) =~= v.ready.take(i as int).push(v.ready[i as int]));
                assert(ref_infos(r@) =~= ref_infos(r0).push(v.ready[i as int]));
            }
            i = i + 1;
        }
        assert(v.ready.take(n as int) =~= v.ready);
        let ghost r1 = r@;
        if let Some(current) = &self.current_process {
            r.push(&current.process);
        }
        assert(ref_infos(r@) =~= v.ready + current_seq(v.current));
        let ghost prefix = v.ready + current_seq(v.current);
        let m = self.sleeping_processes.len();
        let mut j: usize = 0;
        while j < m
            invariant
                v == self@,
                m == v.sleeping.len(),
                j <= m,
                ref_infos(r@) == prefix + v.sleepers().take(j as int),
            decreases m - j,
        {
            let ghost r0 = r@;
            r.push(&self.sleeping_processes[j].0);
            proof {
                assert(v.sleepers().take(j + 1) =~= v.sleepers().take(j as int).push(
                    v.sleepers()[j as int],
                ));
                assert(ref_infos(r@) =~= ref_infos(r0).push(v.sleepers()[j as int]));
            }
            j = j + 1;
        }
        assert(v.sleepers().take(m as int) =~= v.sleepers());
        let ghost prefix2 = prefix + v.sleepers();
        let keys = event_keys(&self.waiting_processes);
        let ghost order = keys@;
        let ghost f = |e: usize| v.waiting[e];
        let mut k: usize = 0;
        while k < keys.len()
            invariant
                v == self@,
                order == keys@,
                order.to_set() == v.waiting.dom(),
                f == (|e: usize| v.waiting[e]),
                k <= order.len(),
                ref_infos(r@) == prefix2 + order.take(k as int).map_values(f).flatten(),
            decreases order.len() - k,
        {
            let e = keys[k];
            assert(order.to_set().contains(e));
            let queue = self.waiting_processes.get(&e).unwrap();
            assert(infos(queue@) == v.waiting[e]);
            let ghost base = r@;
            let qn = queue.len();
            let mut x: usize = 0;
            while x < qn
                invariant
                    qn == queue@.len(),
                    x <= qn,
                    ref_infos(r@) == ref_infos(base) + infos(queue@).take(x as int),
                decreases qn - x,
            {
                let ghost r0 = r@;
                r.push(&queue[x]);
                proof {
                    assert(infos(queue@).take(x + 1) =~= infos(queue@).take(x as int).push(
                        infos(queue@)[x as int],
                    ));
                    assert(ref_infos(r@) =~= ref_infos(r0).push(queue@[x as int].info()));
                }
                x = x + 1;
            }
            proof {
                assert(infos(queue@).take(qn as int) =~= infos(queue@));
                let s = order.take(k as int).map_values(f);
                assert(order.take(k + 1).map_values(f) =~= s.push(f(e)));
                s.lemma_flatten_push(f(e));
                assert(ref_infos(r@) =~= prefix2 + order.take(k + 1).map_values(f).flatten());
            }
            k = k + 1;
        }
        proof {
            assert(order.take(order.len() as int) =~= order);
            assert(ref_infos(r@) == v.ready + current_seq(v.current) + v.sleepers() + waiters_in(
                v,
                order,
            ));
        }
        r
    }
}


impl<T: ProcessInformation> ProcessManager<T> {
    /// Raises (after a system call) or lowers (after a preemption) the
    /// priority of the running process, if any.
    pub fn adjust_current_priority(&mut self, raise: bool)
        requires
            old(self)@.well_formed(),
        ensures
            final(self)@ == old(self)@.with_priority_adjusted(T::policy(), raise),
            final(self)@.well_formed(),
    {
        if let Some(mut current) = self.current_process.take() {
            if raise {
                current.process.increase_priority();
            } else {
                current.process.decrease_priority();
            }
            self.current_process = Some(current);
            proof {
                let w = old(self)@.with_priority_adjusted(T::policy(), raise);
                assert(old(self)@.current.unwrap().process.accounted_by(old(self)@.clock as int));
                super::invariants::lemma_current_replaced_well_formed(old(self)@, w.current.unwrap());
                assert(self@ =~= w);
            }
        }
    }
}


impl<T: Process> ProcessManager<T> {
    /// Whether `reason` can be handled without an arithmetic overflow (the
    /// stops that `handle_process_stop` accepts).
    pub fn can_stop(&self, reason: StopReason) -> (r: bool)
        ensures
            r == self@.can_stop(reason),
    {
        let used: usize = match &self.current_process {
            Some(current) => match reason {
                StopReason::Syscall { remaining, .. } => {
                    if remaining >= current.remaining_timeslice {
                        return false;
                    }
                    current.remaining_timeslice - remaining
                },
                StopReason::Expired => current.remaining_timeslice,
            },
            None => 0,
        };
        if self.clock > usize::MAX - used {
            return false;
        }
        match reason {
            StopReason::Syscall { syscall, .. } => match syscall {
                Syscall::Fork(_) => self.max_pid < usize::MAX,
                Syscall::Sleep(time) => self.current_process.is_none() || self.clock + used
                    <= usize::MAX - time,
                _ => true,
            },
            StopReason::Expired => true,
        }
    }
}

} // verus!
