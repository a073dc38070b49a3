//! What holds of every run of the scheduler.
use vstd::prelude::*;

use crate::process::{Policy, ProcessInfo};
use crate::{Pid, ProcessState, SchedulingDecision, StopReason, Syscall, SyscallResult};

use super::invariants::{
    lemma_clock_advanced_well_formed, lemma_current_replaced_well_formed, lemma_earliest_wake_after,
    lemma_exit_well_formed, lemma_fork_well_formed, lemma_selection_well_formed,
    lemma_short_slice_preempted_well_formed, lemma_signal_well_formed, lemma_sleep_well_formed,
    lemma_sleepers_woken_well_formed, lemma_slice_expired_well_formed,
    lemma_syscall_applied_well_formed, lemma_syscall_charged_well_formed,
    lemma_timings_updated_well_formed, lemma_wait_well_formed, with_selection,
};
use super::model::{
    ManagerView, candidates, choice, current_seq, earliest_wake, lemma_choice_in_range,
    lemma_earliest_wake, min_vruntime,
    next_selection, pids_of, spawn_vruntime,
};

verus! {

/// A new scheduler satisfies the invariant.
pub proof fn law_initial_well_formed(timeslice: usize, minimum_remaining_timeslice: usize)
    requires
        timeslice > 0,
    ensures
        ManagerView::initial(timeslice, minimum_remaining_timeslice).well_formed(),
{
    let v = ManagerView::initial(timeslice, minimum_remaining_timeslice);
    assert(v.waiting_order.to_set() =~= v.waiting.dom());
    assert(v.sleepers() =~= Seq::empty());
    assert(v.waiter_pids() =~= Seq::empty());
    assert(v.pid_seq() =~= Seq::empty());
}

/// Asking what to run next keeps the invariant, and neither loses nor
/// duplicates a process.
pub proof fn law_next_keeps_invariant(v: ManagerView, policy: Policy)
    requires
        v.well_formed(),
    ensures
        v.next_step(policy).0.well_formed(),
        v.next_step(policy).0.pid_seq().to_multiset() == v.pid_seq().to_multiset(),
{
    lemma_timings_updated_well_formed(v);
    let a = v.with_timings_updated();
    lemma_sleepers_woken_well_formed(a);
    let b = a.with_sleepers_woken();
    if !b.will_panic {
        lemma_selection_well_formed(b, policy);
        let c = with_selection(b, policy);
        if !(c.current is Some && c.current.unwrap().remaining_timeslice > 0) && c.sleeping.len() > 0 {
            lemma_earliest_wake_after(c);
            lemma_clock_advanced_well_formed(c, earliest_wake(c.sleeping));
            assert((ManagerView { clock: earliest_wake(c.sleeping), ..c }).pid_seq() == c.pid_seq());
        }
    }
}


/// Handling a stop keeps the invariant, and changes the processes only as
/// its system call says: a `Fork` adds exactly the process with the pid it
/// answers, an `Exit` removes exactly the running process, and every other
/// stop neither loses nor duplicates a process.
pub proof fn law_stop_keeps_invariant(v: ManagerView, policy: Policy, reason: StopReason)
    requires
        v.well_formed(),
        v.can_stop(reason),
    ensures
        ({
            let (w, result) = v.stop_step(policy, reason);
            let exits = reason matches StopReason::Syscall { syscall: Syscall::Exit, .. }
                && v.current is Some;
            &&& w.well_formed()
            &&& result matches SyscallResult::Pid(Pid(q)) ==> w.pid_seq().to_multiset()
                == v.pid_seq().to_multiset().insert(q)
            &&& exits ==> w.pid_seq().to_multiset() == v.pid_seq().to_multiset().remove(
                v.current.unwrap().process.pid,
            )
            &&& !(result is Pid) && !exits ==> w.pid_seq().to_multiset()
                == v.pid_seq().to_multiset()
        }),
{
    broadcast use vstd::multiset::group_multiset_axioms;

    match reason {
        StopReason::Syscall { syscall, remaining } => {
            lemma_syscall_charged_well_formed(v, policy, remaining);
            let a = v.with_syscall_charged(policy, remaining);
            lemma_syscall_applied_well_formed(a, policy, syscall);
            let vr = spawn_vruntime(policy, a.ready, a.current);
            let b = a.with_syscall_applied(policy, syscall, vr).0;
            lemma_short_slice_preempted_well_formed(b, policy);
            match syscall {
                Syscall::Fork(priority) => {
                    law_fork_gives_new_pid(v, policy, priority, remaining);
                },
                Syscall::Exit => {
                    lemma_exit_well_formed(a, policy, vr);
                    if v.current is Some {
                        assert(a.current.unwrap().process.pid == v.current.unwrap().process.pid);
                    }
                },
                Syscall::Signal(event) => {
                    lemma_signal_well_formed(a, policy, event, vr);
                },
                Syscall::Wait(event) => {
                    lemma_wait_well_formed(a, policy, event, vr);
                },
                Syscall::Sleep(time) => {
                    lemma_sleep_well_formed(a, policy, time, vr);
                },
            }
        },
        StopReason::Expired => {
            lemma_slice_expired_well_formed(v, policy);
        },
    }
}

/// A scheduler's stop keeps the invariant.
pub proof fn law_scheduler_stop_keeps_invariant(v: ManagerView, policy: Policy, reason: StopReason)
    requires
        v.well_formed(),
        v.can_stop(reason),
    ensures
        v.scheduler_stop(policy, reason).0.well_formed(),
{
    let a = v.with_priority_adjusted(policy, reason is Syscall);
    if v.current is Some {
        assert(v.current.unwrap().process.accounted_by(v.clock as int));
        lemma_current_replaced_well_formed(v, a.current.unwrap());
    } else {
        assert(a == v);
    }
    if !(policy is Priority) {
        assert(a == v);
    }
    law_stop_keeps_invariant(a, policy, reason);
}

/// Only the priority policy changes a priority on a stop, and only the
/// running process's: with no running process, or under the other policies,
/// a scheduler's stop is the plain stop, answer and state alike.
pub proof fn law_plain_stop(v: ManagerView, policy: Policy, reason: StopReason)
    ensures
        (v.current is None || !(policy is Priority)) ==> v.scheduler_stop(policy, reason)
            == v.stop_step(policy, reason),
{
    if v.current is None || !(policy is Priority) {
        assert(v.with_priority_adjusted(policy, reason is Syscall) == v);
    }
}

/// A new process gets a pid that no process of the scheduler has: one more
/// than the largest pid assigned so far.
pub proof fn law_fork_gives_new_pid(v: ManagerView, policy: Policy, priority: i8, remaining: usize)
    requires
        v.well_formed(),
        v.can_stop(StopReason::Syscall { syscall: Syscall::Fork(priority), remaining }),
    ensures
        ({
            let (w, result) = v.stop_step(
                policy,
                StopReason::Syscall { syscall: Syscall::Fork(priority), remaining },
            );
            &&& result == SyscallResult::Pid(Pid((v.max_pid + 1) as usize))
            &&& !v.pid_seq().contains((v.max_pid + 1) as usize)
            &&& w.max_pid == v.max_pid + 1
            &&& w.pid_seq().to_multiset() == v.pid_seq().to_multiset().insert((v.max_pid + 1) as usize)
        }),
{
    broadcast use vstd::seq_lib::group_to_multiset_ensures;
    broadcast use vstd::multiset::group_multiset_axioms;

    lemma_syscall_charged_well_formed(v, policy, remaining);
    let a = v.with_syscall_charged(policy, remaining);
    let vr = spawn_vruntime(policy, a.ready, a.current);
    let b = a.with_syscall_applied(policy, Syscall::Fork(priority), vr).0;
    lemma_fork_well_formed(a, policy, priority);
    lemma_short_slice_preempted_well_formed(b, policy);
    let x = (v.max_pid + 1) as usize;
    assert(!v.pid_seq().contains(x)) by {
        if v.pid_seq().contains(x) {
            let i = choose|i: int| 0 <= i < v.pid_seq().len() && v.pid_seq()[i] == x;
            assert(v.pid_seq()[i] <= v.max_pid);
        }
    }
    let p = crate::process::ProcessInfo::created(x, priority, a.clock, vr);
    assert(pids_of(b.ready) =~= pids_of(a.ready).push(x));
    super::invariants::lemma_multiset_of_four(
        pids_of(a.ready),
        pids_of(current_seq(a.current)),
        pids_of(a.sleepers()),
        a.waiter_pids(),
    );
    super::invariants::lemma_multiset_of_four(
        pids_of(b.ready),
        pids_of(current_seq(b.current)),
        pids_of(b.sleepers()),
        b.waiter_pids(),
    );
    assert(b.pid_seq().to_multiset() =~= a.pid_seq().to_multiset().insert(x));
}


/// The clock never goes back.
pub proof fn law_clock_monotone(v: ManagerView, policy: Policy, reason: StopReason)
    requires
        v.well_formed(),
        v.can_stop(reason),
    ensures
        v.next_step(policy).0.clock >= v.clock,
        v.stop_step(policy, reason).0.clock >= v.clock,
{
    lemma_timings_updated_well_formed(v);
    let a = v.with_timings_updated();
    lemma_sleepers_woken_well_formed(a);
    let b = a.with_sleepers_woken();
    if !b.will_panic {
        lemma_selection_well_formed(b, policy);
        let c = with_selection(b, policy);
        if !(c.current is Some && c.current.unwrap().remaining_timeslice > 0) && c.sleeping.len() > 0 {
            lemma_earliest_wake_after(c);
        }
    }
    if let StopReason::Syscall { syscall, remaining } = reason {
        lemma_syscall_charged_well_formed(v, policy, remaining);
    }
}

/// A system call that leaves the running process `remaining` time units
/// took the rest of the time it was given: the clock advances by that much,
/// of which one unit is the system call and the rest is execution. (Shown
/// for the calls after which the process keeps the processor.)
pub proof fn law_syscall_time(v: ManagerView, policy: Policy, syscall: Syscall, remaining: usize)
    requires
        v.well_formed(),
        v.can_stop(StopReason::Syscall { syscall, remaining }),
        v.current is Some,
        syscall is Fork || syscall is Signal,
    ensures
        ({
            let c = v.current.unwrap();
            let used = c.remaining_timeslice - remaining;
            let w = v.stop_step(policy, StopReason::Syscall { syscall, remaining }).0;
            let p = w.current.unwrap().process;
            &&& w.clock == v.clock + used
            &&& w.current is Some
            &&& w.current.unwrap().remaining_timeslice == remaining
            &&& p.pid == c.process.pid
            &&& p.syscall == c.process.syscall + 1
            &&& p.execution == c.process.execution + used - 1
            &&& p.total == c.process.total + used
            &&& p.last_update == w.clock
            &&& p.state == if remaining < v.minimum_remaining_timeslice {
                ProcessState::Ready
            } else {
                c.process.state
            }
        }),
{
    assert(v.current.unwrap().process.accounted_by(v.clock as int));
}

/// A process whose time slice expired ran for all of it: the clock advances
/// by the slice, which counts as execution, and the process becomes ready.
pub proof fn law_expired_time(v: ManagerView, policy: Policy)
    requires
        v.well_formed(),
        v.can_stop(StopReason::Expired),
        v.current is Some,
    ensures
        ({
            let c = v.current.unwrap();
            let (w, result) = v.stop_step(policy, StopReason::Expired);
            let p = w.current.unwrap().process;
            &&& result == SyscallResult::Success
            &&& w.clock == v.clock + c.remaining_timeslice
            &&& w.current is Some
            &&& p.pid == c.process.pid
            &&& p.state == ProcessState::Ready
            &&& p.execution == c.process.execution + c.remaining_timeslice
            &&& p.total == c.process.total + c.remaining_timeslice
        }),
{
    assert(v.current.unwrap().process.accounted_by(v.clock as int));
}

/// Stopping when no process runs changes nothing but the pid counter (for a
/// `Fork`) and answers that no process was running (for the calls that need
/// one).
pub proof fn law_stop_without_process(v: ManagerView, policy: Policy, reason: StopReason)
    requires
        v.current is None,
    ensures
        (reason is Expired || reason matches StopReason::Syscall { syscall: Syscall::Exit, .. }
            || reason matches StopReason::Syscall { syscall: Syscall::Wait(_), .. }
            || reason matches StopReason::Syscall { syscall: Syscall::Sleep(_), .. }) ==> v.stop_step(
            policy,
            reason,
        ) == (v, SyscallResult::NoRunningProcess),
{
}


/// What the choice among the first `n` candidates is, by induction on `n`.
proof fn lemma_choice_is_best(policy: Policy, q: Seq<ProcessInfo>, n: int)
    requires
        0 <= n <= q.len(),
    ensures
        (exists|j: int| 0 <= j < n && (#[trigger] q[j]).state == ProcessState::Ready) <==> choice(
            policy,
            q,
            n,
        ) is Some,
        choice(policy, q, n) is Some ==> ({
            let i = choice(policy, q, n).unwrap();
            &&& 0 <= i < n
            &&& q[i].state == ProcessState::Ready
            &&& policy is RoundRobin ==> forall|j: int|
                0 <= j < i ==> (#[trigger] q[j]).state != ProcessState::Ready
            &&& policy is Priority ==> forall|j: int|
                0 <= j < n && (#[trigger] q[j]).state == ProcessState::Ready ==> q[j].priority
                    <= q[i].priority && (j < i ==> q[j].priority < q[i].priority)
            &&& policy is Fair ==> forall|j: int|
                0 <= j < n && (#[trigger] q[j]).state == ProcessState::Ready ==> q[i].vruntime
                    <= q[j].vruntime && (j < i ==> q[i].vruntime < q[j].vruntime)
        }),
    decreases n,
{
    if n > 0 {
        lemma_choice_is_best(policy, q, n - 1);
        if q[n - 1].state == ProcessState::Ready {
            assert(exists|j: int| 0 <= j < n && (#[trigger] q[j]).state == ProcessState::Ready);
        }
        if exists|j: int| 0 <= j < n - 1 && (#[trigger] q[j]).state == ProcessState::Ready {
            let j = choose|j: int| 0 <= j < n - 1 && (#[trigger] q[j]).state == ProcessState::Ready;
            assert(0 <= j < n && q[j].state == ProcessState::Ready);
        }
    }
}

/// Which process runs next among the candidates (the ready queue, with a
/// preempted process at its back): a ready one if there is any, none
/// otherwise. Under Round Robin the first ready one; under the priority
/// policy the ready one with the highest priority, the first in the queue
/// among equal priorities; under the fair policy the ready one with the
/// smallest virtual run time, the first in the queue among equal ones.
pub proof fn law_choice_of_next_process(policy: Policy, q: Seq<ProcessInfo>)
    ensures
        (exists|j: int| 0 <= j < q.len() && (#[trigger] q[j]).state == ProcessState::Ready)
            <==> choice(policy, q, q.len() as int) is Some,
        choice(policy, q, q.len() as int) is Some ==> ({
            let i = choice(policy, q, q.len() as int).unwrap();
            &&& 0 <= i < q.len()
            &&& q[i].state == ProcessState::Ready
            &&& policy is RoundRobin ==> forall|j: int|
                0 <= j < i ==> (#[trigger] q[j]).state != ProcessState::Ready
            &&& policy is Priority ==> forall|j: int|
                0 <= j < q.len() && (#[trigger] q[j]).state == ProcessState::Ready ==> q[j].priority
                    <= q[i].priority && (j < i ==> q[j].priority < q[i].priority)
            &&& policy is Fair ==> forall|j: int|
                0 <= j < q.len() && (#[trigger] q[j]).state == ProcessState::Ready ==> q[i].vruntime
                    <= q[j].vruntime && (j < i ==> q[i].vruntime < q[j].vruntime)
        }),
{
    lemma_choice_is_best(policy, q, q.len() as int);
}

/// A raised priority never exceeds the creation priority, a lowered one is
/// never negative, and a priority between 0 and the creation priority stays
/// there.
pub proof fn law_priority_range(p: ProcessInfo)
    ensures
        p.raised(Policy::Priority).priority <= p.max_priority,
        p.lowered(Policy::Priority).priority >= 0,
        p.raised(Policy::Priority).max_priority == p.max_priority,
        p.lowered(Policy::Priority).max_priority == p.max_priority,
        0 <= p.priority <= p.max_priority ==> 0 <= p.raised(Policy::Priority).priority
            <= p.max_priority && 0 <= p.lowered(Policy::Priority).priority <= p.max_priority,
{
}

/// The running minimum is at most every virtual run time it went over, and
/// is its start value or one of them.
proof fn lemma_min_vruntime(s: Seq<ProcessInfo>, init: usize)
    ensures
        min_vruntime(s, init) <= init,
        forall|i: int| 0 <= i < s.len() ==> min_vruntime(s, init) <= (#[trigger] s[i]).vruntime,
        min_vruntime(s, init) == init || exists|i: int|
            0 <= i < s.len() && min_vruntime(s, init) == (#[trigger] s[i]).vruntime,
    decreases s.len(),
{
    if s.len() > 0 {
        lemma_min_vruntime(s.drop_last(), init);
        assert forall|i: int| 0 <= i < s.len() implies min_vruntime(s, init) <= (
        #[trigger] s[i]).vruntime by {
            if i < s.len() - 1 {
                assert(s.drop_last()[i] == s[i]);
            }
        }
        if min_vruntime(s, init) != init {
            if min_vruntime(s, init) == s.last().vruntime {
                assert(s[s.len() - 1] == s.last());
            } else {
                let i = choose|i: int|
                    0 <= i < s.drop_last().len() && min_vruntime(s.drop_last(), init) == (
                    #[trigger] s.drop_last()[i]).vruntime;
                assert(s.drop_last()[i] == s[i]);
            }
        }
    }
}

/// Under the fair policy a new process starts with the smallest virtual run
/// time among the runnable processes (ready or running), or 0 if there is
/// none, so that it runs before any of them that has run longer.
pub proof fn law_new_process_vruntime(v: ManagerView)
    ensures
        forall|i: int|
            0 <= i < v.ready.len() ==> spawn_vruntime(Policy::Fair, v.ready, v.current) <= (
            #[trigger] v.ready[i]).vruntime,
        v.current is Some ==> spawn_vruntime(Policy::Fair, v.ready, v.current)
            <= v.current.unwrap().process.vruntime,
        v.current is None && v.ready.len() == 0 ==> spawn_vruntime(
            Policy::Fair,
            v.ready,
            v.current,
        ) == 0,
        v.current is Some ==> spawn_vruntime(Policy::Fair, v.ready, v.current)
            == v.current.unwrap().process.vruntime || exists|i: int|
            0 <= i < v.ready.len() && spawn_vruntime(Policy::Fair, v.ready, v.current) == (
            #[trigger] v.ready[i]).vruntime,
        v.current is None && v.ready.len() > 0 ==> exists|i: int|
            0 <= i < v.ready.len() && spawn_vruntime(Policy::Fair, v.ready, v.current) == (
            #[trigger] v.ready[i]).vruntime,
{
    match v.current {
        Some(c) => {
            lemma_min_vruntime(v.ready, c.process.vruntime);
        },
        None => {
            if v.ready.len() > 0 {
                let r = v.ready.drop_first();
                lemma_min_vruntime(r, v.ready[0].vruntime);
                assert forall|i: int| 0 <= i < v.ready.len() implies spawn_vruntime(
                    Policy::Fair,
                    v.ready,
                    v.current,
                ) <= (#[trigger] v.ready[i]).vruntime by {
                    if i > 0 {
                        assert(r[i - 1] == v.ready[i]);
                    }
                }
                let m = spawn_vruntime(Policy::Fair, v.ready, v.current);
                if m != v.ready[0].vruntime {
                    let i = choose|i: int| 0 <= i < r.len() && m == (#[trigger] r[i]).vruntime;
                    assert(r[i] == v.ready[i + 1]);
                }
            }
        },
    }
}


/// Killing `init` (pid 1) while other processes exist makes the scheduler
/// panic at the next query.
pub proof fn law_init_exit_panics(v: ManagerView, policy: Policy, remaining: usize)
    requires
        v.well_formed(),
        v.can_stop(StopReason::Syscall { syscall: Syscall::Exit, remaining }),
        v.current is Some,
        v.current.unwrap().process.pid == 1,
        v.ready.len() > 0 || v.sleeping.len() > 0 || !v.waiting.is_empty(),
    ensures
        ({
            let (w, result) = v.stop_step(
                policy,
                StopReason::Syscall { syscall: Syscall::Exit, remaining },
            );
            &&& result == SyscallResult::Success
            &&& w.current is None
            &&& w.will_panic
            &&& w.next_step(policy).1 == SchedulingDecision::Panic
        }),
{
}

/// A scheduler that will panic answers every query with `Panic`.
pub proof fn law_panic_is_final(v: ManagerView, policy: Policy)
    requires
        v.will_panic,
    ensures
        v.next_step(policy).1 == SchedulingDecision::Panic,
        v.next_step(policy).0.will_panic,
{
}

/// What each decision means: `Run` names the process that now holds the
/// processor, with a positive time slice; `Sleep` waits a positive time,
/// after which a sleeping process is due; `Deadlock` comes when nothing
/// runs or sleeps but some process waits for an event; `Done` when nothing
/// runs, sleeps or waits. Under the Round Robin and priority policies, with
/// a positive minimum remaining time slice, `Done` comes exactly when no
/// process is left, and `Deadlock` exactly when every process left waits for
/// an event.
pub proof fn law_decisions(v: ManagerView, policy: Policy)
    requires
        v.well_formed(),
    ensures
        !(policy is Fair) && v.keeps_slice(policy) && v.minimum_remaining_timeslice > 0
            && !v.will_panic ==> ({
            let (w, d) = v.next_step(policy);
            let none_runnable = w.ready.len() == 0 && w.current is None && w.sleeping.len() == 0;
            &&& d is Done <==> none_runnable && w.waiting.is_empty()
            &&& d is Deadlock <==> none_runnable && !w.waiting.is_empty()
        }),
        ({
            let (w, d) = v.next_step(policy);
            &&& d is Run ==> {
                &&& w.current is Some
                &&& d->pid == Pid(w.current.unwrap().process.pid)
                &&& d->timeslice == w.current.unwrap().remaining_timeslice
                &&& d->timeslice > 0
                &&& w.current.unwrap().process.state == ProcessState::Running
            }
            &&& d is Sleep ==> {
                &&& d->Sleep_0 > 0
                &&& w.clock == v.clock + d->Sleep_0
                &&& exists|i: int| 0 <= i < w.sleeping.len() && (#[trigger] w.sleeping[i]).1 == w.clock
            }
            &&& d is Deadlock ==> w.sleeping.len() == 0 && !w.waiting.is_empty()
            &&& d is Done ==> w.sleeping.len() == 0 && w.waiting.is_empty()
            &&& (d is Panic <==> v.will_panic)
        }),
{
    lemma_timings_updated_well_formed(v);
    let a = v.with_timings_updated();
    lemma_sleepers_woken_well_formed(a);
    let b = a.with_sleepers_woken();
    if !b.will_panic {
        lemma_selection_well_formed(b, policy);
        let c = with_selection(b, policy);
        let sel = next_selection(policy, b.ready, b.current, b.timeslice_factor, b.timeslice);
        assert(c.current is Some ==> c.current.unwrap().process.state == ProcessState::Running);
        if c.current is None {
            let q = candidates(b.ready, b.current);
            assert forall|i: int| 0 <= i < q.len() implies (#[trigger] q[i]).state
                == ProcessState::Ready by {
                if i < b.ready.len() {
                    assert(q[i] == b.ready[i]);
                }
            }
            lemma_choice_in_range(policy, q, q.len() as int);
            if q.len() > 0 {
                assert(q[0].state == ProcessState::Ready);
            }
        }
        if !(c.current is Some && c.current.unwrap().remaining_timeslice > 0) && c.sleeping.len() > 0 {
            lemma_earliest_wake_after(c);
            lemma_earliest_wake(c.sleeping);
            let w = v.next_step(policy).0;
            let i = choose|i: int|
                0 <= i < c.sleeping.len() && earliest_wake(c.sleeping) == (#[trigger] c.sleeping[i]).1;
            assert(w.sleeping[i].1 == w.clock);
        }
    }
}


/// Under the Round Robin and priority policies, after any stop a process that
/// still runs holds at least the minimum remaining time slice.
pub proof fn law_stop_keeps_slice(v: ManagerView, policy: Policy, reason: StopReason)
    requires
        v.well_formed(),
    ensures
        v.stop_step(policy, reason).0.keeps_slice(policy),
        v.scheduler_stop(policy, reason).0.keeps_slice(policy),
{
}

/// Under the Round Robin and priority policies, a query leaves the running
/// process as it is or starts one with the full time slice, so a running
/// process keeps holding at least the shorter of the full time slice and the
/// minimum remaining time slice.
pub proof fn law_next_keeps_slice(v: ManagerView, policy: Policy)
    requires
        v.well_formed(),
        v.keeps_slice(policy),
    ensures
        v.next_step(policy).0.keeps_slice(policy),
{
}

/// `Wait` and `Sleep` give up the processor: the running process joins the
/// back of the event's waiters, or the sleepers with its wake-up time.
pub proof fn law_blocking_calls_yield(v: ManagerView, policy: Policy, syscall: Syscall, remaining: usize)
    requires
        v.well_formed(),
        v.can_stop(StopReason::Syscall { syscall, remaining }),
        v.current is Some,
        syscall is Wait || syscall is Sleep,
    ensures
        ({
            let c = v.current.unwrap();
            let (w, result) = v.stop_step(policy, StopReason::Syscall { syscall, remaining });
            &&& result == SyscallResult::Success
            &&& w.current is None
            &&& w.ready == v.ready
            &&& w.clock == v.clock + (c.remaining_timeslice - remaining)
            &&& syscall matches Syscall::Wait(event) ==> {
                &&& w.waiting.contains_key(event)
                &&& w.waiting[event].last().pid == c.process.pid
                &&& w.waiting[event].last().state == ProcessState::Waiting { event: Some(event) }
                &&& w.sleeping == v.sleeping
            }
            &&& syscall matches Syscall::Sleep(time) ==> {
                &&& w.sleeping.last().0.pid == c.process.pid
                &&& w.sleeping.last().0.state == ProcessState::Waiting { event: None }
                &&& w.sleeping.last().1 == w.clock + time
                &&& w.sleeping.drop_last() == v.sleeping
                &&& w.waiting == v.waiting
            }
        }),
{
    assert(v.current.unwrap().process.accounted_by(v.clock as int));
    let w = v.stop_step(policy, StopReason::Syscall { syscall, remaining }).0;
    if let Syscall::Sleep(time) = syscall {
        assert(w.sleeping.drop_last() =~= v.sleeping);
    }
}

/// Under the fair policy the time slice is shared: a process chosen afresh
/// gets the slice divided by the number of active processes (the queued
/// ones and the one that ran, counted as one when there is none), and a
/// process that keeps running keeps at most that share.
pub proof fn law_fair_time_slice(
    queue: Seq<ProcessInfo>,
    current: Option<super::process_manager::CurrentProcessMeta<ProcessInfo>>,
    factor: usize,
    timeslice: usize,
)
    requires
        timeslice > 0,
        queue.len() <= usize::MAX,
        current is Some ==> queue.len() < usize::MAX,
    ensures
        ({
            let counted = queue.len() + if current is Some {
                1int
            } else {
                0int
            };
            let active = if counted == 0 {
                1
            } else {
                counted
            };
            let (q, c, f) = next_selection(Policy::Fair, queue, current, factor, timeslice);
            &&& f == active
            &&& (current is Some && current.unwrap().process.state == ProcessState::Running) ==> {
                &&& c is Some
                &&& c.unwrap().remaining_timeslice == if timeslice as int / active
                    < current.unwrap().remaining_timeslice {
                    timeslice as int / active
                } else {
                    current.unwrap().remaining_timeslice as int
                }
            }
            &&& !(current is Some && current.unwrap().process.state == ProcessState::Running)
                && c is Some ==> c.unwrap().remaining_timeslice == timeslice as int / active
        }),
{
}


/// What the invariant says of the processes: no two have the same pid, every
/// pid is between 1 and the largest one assigned, and every process's system
/// call and execution time are part of its total time, which never runs
/// ahead of the clock. Ready processes are ready, sleeping ones sleep,
/// waiting ones wait for their event.
pub proof fn law_invariant_meaning(v: ManagerView)
    requires
        v.well_formed(),
    ensures
        v.pid_seq().no_duplicates(),
        forall|i: int| 0 <= i < v.pid_seq().len() ==> 1 <= #[trigger] v.pid_seq()[i] <= v.max_pid,
        forall|i: int|
            0 <= i < v.ready.len() ==> {
                &&& (#[trigger] v.ready[i]).state == ProcessState::Ready
                &&& v.ready[i].syscall + v.ready[i].execution <= v.ready[i].total <= v.clock
            },
        forall|i: int|
            0 <= i < v.sleeping.len() ==> {
                &&& (#[trigger] v.sleeping[i]).0.state == ProcessState::Waiting { event: None }
                &&& v.sleeping[i].0.syscall + v.sleeping[i].0.execution <= v.sleeping[i].0.total
                    <= v.clock
            },
        forall|e: usize, i: int|
            v.waiting.contains_key(e) && 0 <= i < v.waiting[e].len() ==> {
                &&& (#[trigger] v.waiting[e][i]).state == ProcessState::Waiting { event: Some(e) }
                &&& v.waiting[e][i].syscall + v.waiting[e][i].execution <= v.waiting[e][i].total
                    <= v.clock
            },
        v.current is Some ==> {
            let p = v.current.unwrap().process;
            &&& p.state == ProcessState::Running || p.state == ProcessState::Ready
            &&& p.syscall + p.execution <= p.total <= v.clock
        },
{
    assert forall|i: int| 0 <= i < v.ready.len() implies {
        &&& (#[trigger] v.ready[i]).state == ProcessState::Ready
        &&& v.ready[i].syscall + v.ready[i].execution <= v.ready[i].total <= v.clock
    } by {
        assert(v.ready[i].accounted_by(v.clock as int));
    }
    assert forall|i: int| 0 <= i < v.sleeping.len() implies {
        &&& (#[trigger] v.sleeping[i]).0.state == ProcessState::Waiting { event: None }
        &&& v.sleeping[i].0.syscall + v.sleeping[i].0.execution <= v.sleeping[i].0.total <= v.clock
    } by {
        assert(v.sleepers()[i] == v.sleeping[i].0);
        assert(v.sleepers()[i].accounted_by(v.clock as int));
    }
    assert forall|e: usize, i: int| v.waiting.contains_key(e) && 0 <= i < v.waiting[e].len() implies {
        &&& (#[trigger] v.waiting[e][i]).state == ProcessState::Waiting { event: Some(e) }
        &&& v.waiting[e][i].syscall + v.waiting[e][i].execution <= v.waiting[e][i].total <= v.clock
    } by {
        assert(v.waiting[e][i].accounted_by(v.clock as int));
    }
}

} // verus!
