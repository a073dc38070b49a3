//! What the steps of the scheduler do to the queues: which processes they
//! move, in what order, and how they account the time of those that wait.
use vstd::prelude::*;

use crate::process::{Policy, ProcessInfo};
use crate::{ProcessState, StopReason, Syscall, SyscallResult};

use super::model::{ManagerView, choice, woken, still_asleep, lemma_wake_push};

verus! {

/// Bringing the timings up to date touches every process that does not run,
/// whether ready, sleeping or waiting, and nothing else: its last update
/// becomes the clock and the time since its previous update is added to its
/// total time; the queues keep their processes, in order.
pub proof fn law_timings_reach_every_waiting_process(v: ManagerView)
    requires
        v.well_formed(),
    ensures
        ({
            let w = v.with_timings_updated();
            &&& w.current == v.current
            &&& w.clock == v.clock
            &&& w.ready.len() == v.ready.len()
            &&& forall|i: int|
                0 <= i < v.ready.len() ==> {
                    &&& (#[trigger] w.ready[i]) == ProcessInfo {
                        last_update: v.clock,
                        total: w.ready[i].total,
                        ..v.ready[i]
                    }
                    &&& w.ready[i].total == v.ready[i].total + v.clock - v.ready[i].last_update
                }
            &&& w.sleeping.len() == v.sleeping.len()
            &&& forall|i: int|
                0 <= i < v.sleeping.len() ==> {
                    &&& (#[trigger] w.sleeping[i]).1 == v.sleeping[i].1
                    &&& w.sleeping[i].0 == ProcessInfo {
                        last_update: v.clock,
                        total: w.sleeping[i].0.total,
                        ..v.sleeping[i].0
                    }
                    &&& w.sleeping[i].0.total == v.sleeping[i].0.total + v.clock
                        - v.sleeping[i].0.last_update
                }
            &&& w.waiting.dom() == v.waiting.dom()
            &&& w.waiting_order == v.waiting_order
            &&& forall|e: usize, i: int|
                v.waiting.contains_key(e) && 0 <= i < v.waiting[e].len() ==> {
                    &&& w.waiting[e].len() == v.waiting[e].len()
                    &&& (#[trigger] w.waiting[e][i]) == ProcessInfo {
                        last_update: v.clock,
                        total: w.waiting[e][i].total,
                        ..v.waiting[e][i]
                    }
                    &&& w.waiting[e][i].total == v.waiting[e][i].total + v.clock
                        - v.waiting[e][i].last_update
                }
        }),
{
    let w = v.with_timings_updated();
    assert forall|i: int| 0 <= i < v.ready.len() implies w.ready[i].total == v.ready[i].total
        + v.clock - v.ready[i].last_update by {
        assert(v.ready[i].accounted_by(v.clock as int));
    }
    assert forall|i: int| 0 <= i < v.sleeping.len() implies (#[trigger] w.sleeping[i]).0.total
        == v.sleeping[i].0.total + v.clock - v.sleeping[i].0.last_update by {
        assert(v.sleepers()[i] == v.sleeping[i].0);
        assert(v.sleepers()[i].accounted_by(v.clock as int));
    }
    assert forall|e: usize, i: int|
        v.waiting.contains_key(e) && 0 <= i < v.waiting[e].len() implies (
        #[trigger] w.waiting[e][i]).total == v.waiting[e][i].total + v.clock
        - v.waiting[e][i].last_update by {
        assert(v.waiting[e][i].accounted_by(v.clock as int));
    }
    assert(w.waiting.dom() =~= v.waiting.dom());
}

/// A `Signal` of an event that processes wait for moves all of them, in the
/// order in which they started to wait and made ready, to the back of the
/// ready queue: the processes that were ready before stay ahead of them, and
/// no other queue changes. A `Signal` of an event nobody waits for changes
/// no queue.
pub proof fn law_signal_appends_waiters(
    v: ManagerView,
    policy: Policy,
    event: usize,
    remaining: usize,
)
    ensures
        ({
            let (w, result) = v.stop_step(
                policy,
                StopReason::Syscall { syscall: Syscall::Signal(event), remaining },
            );
            &&& result == SyscallResult::Success
            &&& w.sleeping == v.sleeping
            &&& forall|e: usize|
                e != event ==> (#[trigger] w.waiting.contains_key(e)) == v.waiting.contains_key(e)
                    && (w.waiting.contains_key(e) ==> w.waiting[e] == v.waiting[e])
            &&& !w.waiting.contains_key(event)
            &&& v.waiting.contains_key(event) ==> {
                &&& w.ready.len() == v.ready.len() + v.waiting[event].len()
                &&& forall|i: int| 0 <= i < v.ready.len() ==> #[trigger] w.ready[i] == v.ready[i]
                &&& forall|i: int|
                    0 <= i < v.waiting[event].len() ==> #[trigger] w.ready[v.ready.len() + i]
                        == ProcessInfo { state: ProcessState::Ready, ..v.waiting[event][i] }
            }
            &&& !v.waiting.contains_key(event) ==> w.ready == v.ready && w.waiting == v.waiting
        }),
{
}

/// Choosing the next process takes exactly the chosen one out of the
/// candidates (the ready queue, with a process that no longer runs at its
/// back) and keeps the others queued in their order; the chosen one is the
/// ready candidate that `choice` names, and runs with a fresh time slice. If
/// no candidate is ready, all of them stay queued, in order, and nothing
/// runs. A process that still runs keeps the processor and the queue stays
/// as it is.
pub proof fn law_selection_keeps_queue_order(
    policy: Policy,
    queue: Seq<ProcessInfo>,
    current: Option<super::process_manager::CurrentProcessMeta<ProcessInfo>>,
    factor: usize,
    timeslice: usize,
)
    requires
        queue.len() < usize::MAX,
    ensures
        ({
            let (q, c, f) = super::model::next_selection(policy, queue, current, factor, timeslice);
            let cand = if current is Some {
                queue.push(current.unwrap().process)
            } else {
                queue
            };
            &&& current is Some && current.unwrap().process.state == ProcessState::Running ==> {
                &&& q == queue
                &&& c is Some
                &&& c.unwrap().process == current.unwrap().process
            }
            &&& !(current is Some && current.unwrap().process.state == ProcessState::Running) ==> {
                &&& c is None ==> q == cand && forall|j: int|
                    0 <= j < cand.len() ==> (#[trigger] cand[j]).state != ProcessState::Ready
                &&& c is Some ==> {
                    let i = choice(policy, cand, cand.len() as int).unwrap();
                    &&& 0 <= i < cand.len()
                    &&& cand[i].state == ProcessState::Ready
                    &&& c.unwrap().process == ProcessInfo {
                        state: ProcessState::Running,
                        ..cand[i]
                    }
                    &&& c.unwrap().execution_cycles == 0
                    &&& c.unwrap().syscall_cycles == 0
                    &&& c.unwrap().remaining_timeslice == if policy is Fair {
                        timeslice / f
                    } else {
                        timeslice
                    }
                    &&& q.len() + 1 == cand.len()
                    &&& forall|j: int| 0 <= j < i ==> #[trigger] q[j] == cand[j]
                    &&& forall|j: int| i <= j < q.len() ==> #[trigger] q[j] == cand[j + 1]
                }
            }
        }),
{
    let cand = if current is Some {
        queue.push(current.unwrap().process)
    } else {
        queue
    };
    super::model::lemma_choice_in_range(policy, cand, cand.len() as int);
    let (q, c, f) = super::model::next_selection(policy, queue, current, factor, timeslice);
    if !(current is Some && current.unwrap().process.state == ProcessState::Running) {
        assert(cand == super::model::candidates(queue, current));
        let slice = super::model::slice_length(policy, timeslice, f);
        if policy is Fair {
            assert(f >= 1);
            let t = timeslice;
            assert(0 <= t / f <= t) by (nonlinear_arith)
                requires
                    f >= 1,
            ;
        }
        assert(slice == if policy is Fair {
            timeslice / f
        } else {
            timeslice
        });
        if c is Some {
            let i = choice(policy, cand, cand.len() as int).unwrap();
            assert(q == cand.remove(i));
            assert(c.unwrap().remaining_timeslice == slice);
            assert(forall|j: int| 0 <= j < i ==> #[trigger] q[j] == cand[j]);
            assert(forall|j: int| i <= j < q.len() ==> #[trigger] q[j] == cand[j + 1]);
        } else {
            assert(forall|j: int|
                0 <= j < cand.len() ==> (#[trigger] cand[j]).state != ProcessState::Ready);
        }
    }
}

/// A sleeper made ready.
pub open spec fn made_ready(e: (ProcessInfo, usize)) -> ProcessInfo {
    ProcessInfo { state: ProcessState::Ready, ..e.0 }
}

/// Waking splits the sleepers: every one is woken or stays asleep.
proof fn lemma_wake_len(s: Seq<(ProcessInfo, usize)>, clock: usize)
    ensures
        woken(s, clock).len() + still_asleep(s, clock).len() == s.len(),
    decreases s.len(),
{
    if s.len() == 0 {
        assert(woken(s, clock) =~= Seq::empty());
        assert(still_asleep(s, clock) =~= Seq::empty());
    } else {
        let t = s.drop_last();
        assert(s =~= t.push(s.last()));
        lemma_wake_len(t, clock);
        lemma_wake_push(t, s.last(), clock);
    }
}

/// Where the `i`-th woken process slept.
proof fn lemma_woken_source(s: Seq<(ProcessInfo, usize)>, clock: usize, i: int) -> (j: int)
    requires
        0 <= i < woken(s, clock).len(),
    ensures
        0 <= j < s.len(),
        s[j].1 <= clock,
        woken(s, clock)[i] == made_ready(s[j]),
    decreases s.len(),
{
    if s.len() == 0 {
        assert(woken(s, clock) =~= Seq::empty());
        0
    } else {
        let t = s.drop_last();
        let e = s.last();
        assert(s =~= t.push(e));
        lemma_wake_push(t, e, clock);
        if i < woken(t, clock).len() {
            let j = lemma_woken_source(t, clock, i);
            assert(s[j] == t[j]);
            j
        } else {
            assert(s[t.len() as int] == e);
            t.len() as int
        }
    }
}

/// The position among the woken processes of the sleeper at `j`: the
/// number of due sleepers before it.
pub open spec fn woken_position(s: Seq<(ProcessInfo, usize)>, clock: usize, j: int) -> int {
    woken(s.take(j), clock).len() as int
}

/// A due sleeper is woken at its position.
proof fn lemma_woken_at_position(s: Seq<(ProcessInfo, usize)>, clock: usize, j: int)
    requires
        0 <= j < s.len(),
        s[j].1 <= clock,
    ensures
        woken_position(s, clock, j) < woken(s, clock).len(),
        woken(s, clock)[woken_position(s, clock, j)] == made_ready(s[j]),
    decreases s.len(),
{
    let t = s.drop_last();
    let e = s.last();
    assert(s =~= t.push(e));
    lemma_wake_push(t, e, clock);
    if j < t.len() {
        assert(s[j] == t[j]);
        assert(s.take(j) =~= t.take(j));
        lemma_woken_at_position(t, clock, j);
    } else {
        assert(s.take(j) =~= t);
    }
}

/// Positions grow past a due sleeper.
proof fn lemma_woken_position_grows(s: Seq<(ProcessInfo, usize)>, clock: usize, j1: int, j2: int)
    requires
        0 <= j1 < j2 <= s.len(),
        s[j1].1 <= clock,
    ensures
        woken_position(s, clock, j1) < woken_position(s, clock, j2),
    decreases j2 - j1,
{
    let prev = s.take(j2 - 1);
    assert(s.take(j2) =~= prev.push(s[j2 - 1]));
    lemma_wake_push(prev, s[j2 - 1], clock);
    if j2 - 1 > j1 {
        lemma_woken_position_grows(s, clock, j1, j2 - 1);
    } else {
        assert(prev =~= s.take(j1));
    }
}

/// The processes woken at `clock` are the sleepers whose wake-up time has
/// come, made ready, in the order in which they went to sleep: each woken
/// process is such a sleeper; the sleeper at `j`, if due, is woken at the
/// position given by the number of due sleepers before it; so of two due
/// sleepers the earlier one is woken first.
pub proof fn law_woken_are_the_due_sleepers(s: Seq<(ProcessInfo, usize)>, clock: usize)
    ensures
        forall|i: int|
            0 <= i < woken(s, clock).len() ==> exists|j: int|
                0 <= j < s.len() && (#[trigger] s[j]).1 <= clock && #[trigger] woken(s, clock)[i]
                    == made_ready(s[j]),
        forall|j: int|
            0 <= j < s.len() && (#[trigger] s[j]).1 <= clock ==> {
                &&& 0 <= woken_position(s, clock, j) < woken(s, clock).len()
                &&& woken(s, clock)[woken_position(s, clock, j)] == made_ready(s[j])
            },
        forall|j1: int, j2: int|
            0 <= j1 < j2 < s.len() && (#[trigger] s[j1]).1 <= clock ==> woken_position(s, clock, j1)
                < #[trigger] woken_position(s, clock, j2),
        woken(s, clock).len() + still_asleep(s, clock).len() == s.len(),
{
    assert forall|i: int| 0 <= i < woken(s, clock).len() implies exists|j: int|
        0 <= j < s.len() && (#[trigger] s[j]).1 <= clock && #[trigger] woken(s, clock)[i]
            == made_ready(s[j]) by {
        let j = lemma_woken_source(s, clock, i);
    }
    assert forall|j: int| 0 <= j < s.len() && (#[trigger] s[j]).1 <= clock implies {
        &&& 0 <= woken_position(s, clock, j) < woken(s, clock).len()
        &&& woken(s, clock)[woken_position(s, clock, j)] == made_ready(s[j])
    } by {
        lemma_woken_at_position(s, clock, j);
    }
    assert forall|j1: int, j2: int|
        0 <= j1 < j2 < s.len() && (#[trigger] s[j1]).1 <= clock implies woken_position(s, clock, j1)
            < #[trigger] woken_position(s, clock, j2) by {
        lemma_woken_position_grows(s, clock, j1, j2);
    }
    lemma_wake_len(s, clock);
}

/// Where the `i`-th sleeper left asleep slept.
proof fn lemma_asleep_source(s: Seq<(ProcessInfo, usize)>, clock: usize, i: int) -> (j: int)
    requires
        0 <= i < still_asleep(s, clock).len(),
    ensures
        0 <= j < s.len(),
        s[j].1 > clock,
        still_asleep(s, clock)[i].0 == s[j].0,
        still_asleep(s, clock)[i].1 == s[j].1,
    decreases s.len(),
{
    if s.len() == 0 {
        assert(still_asleep(s, clock) =~= Seq::empty());
        0
    } else {
        let t = s.drop_last();
        let e = s.last();
        assert(s =~= t.push(e));
        lemma_wake_push(t, e, clock);
        if i < still_asleep(t, clock).len() {
            let j = lemma_asleep_source(t, clock, i);
            assert(s[j] == t[j]);
            j
        } else {
            assert(s[t.len() as int] == e);
            t.len() as int
        }
    }
}

/// The number of sleepers before `j` that stay asleep.
pub open spec fn asleep_position(s: Seq<(ProcessInfo, usize)>, clock: usize, j: int) -> int {
    still_asleep(s.take(j), clock).len() as int
}

/// A sleeper that is not due stays asleep at its position.
proof fn lemma_asleep_at_position(s: Seq<(ProcessInfo, usize)>, clock: usize, j: int)
    requires
        0 <= j < s.len(),
        s[j].1 > clock,
    ensures
        asleep_position(s, clock, j) < still_asleep(s, clock).len(),
        still_asleep(s, clock)[asleep_position(s, clock, j)] == s[j],
    decreases s.len(),
{
    let t = s.drop_last();
    let e = s.last();
    assert(s =~= t.push(e));
    lemma_wake_push(t, e, clock);
    if j < t.len() {
        assert(s[j] == t[j]);
        assert(s.take(j) =~= t.take(j));
        lemma_asleep_at_position(t, clock, j);
    } else {
        assert(s.take(j) =~= t);
    }
}

/// The sleepers left asleep at `clock` are exactly those whose wake-up time
/// has not come, each with its wake-up time: none left asleep is due, and
/// the sleeper at `j`, if not due, stays asleep at the position given by the
/// number of such sleepers before it (with `law_woken_are_the_due_sleepers`,
/// the two parts together hold every sleeper once).
pub proof fn law_not_due_stay_asleep(s: Seq<(ProcessInfo, usize)>, clock: usize)
    ensures
        forall|i: int|
            0 <= i < still_asleep(s, clock).len() ==> (#[trigger] still_asleep(s, clock)[i]).1
                > clock,
        forall|j: int|
            0 <= j < s.len() && (#[trigger] s[j]).1 > clock ==> {
                &&& 0 <= asleep_position(s, clock, j) < still_asleep(s, clock).len()
                &&& still_asleep(s, clock)[asleep_position(s, clock, j)] == s[j]
            },
{
    assert forall|i: int| 0 <= i < still_asleep(s, clock).len() implies (#[trigger] still_asleep(
        s,
        clock,
    )[i]).1 > clock by {
        let j = lemma_asleep_source(s, clock, i);
    }
    assert forall|j: int| 0 <= j < s.len() && (#[trigger] s[j]).1 > clock implies {
        &&& 0 <= asleep_position(s, clock, j) < still_asleep(s, clock).len()
        &&& still_asleep(s, clock)[asleep_position(s, clock, j)] == s[j]
    } by {
        lemma_asleep_at_position(s, clock, j);
    }
}

/// Waking the sleepers at a query keeps the ready queue in front: the
/// processes that were ready stay first, in their order, and the woken
/// sleepers (see `law_woken_are_the_due_sleepers`) follow them; the sleepers
/// left asleep are those of `law_not_due_stay_asleep`; nothing else changes.
pub proof fn law_woken_join_the_back(v: ManagerView)
    ensures
        ({
            let w = v.with_sleepers_woken();
            let n = v.ready.len() as int;
            let wk = woken(v.sleeping, v.clock);
            &&& w.clock == v.clock
            &&& w.current == v.current
            &&& w.waiting == v.waiting
            &&& w.ready.len() == n + wk.len()
            &&& w.ready.len() + w.sleeping.len() == v.ready.len() + v.sleeping.len()
            &&& forall|i: int| 0 <= i < n ==> #[trigger] w.ready[i] == v.ready[i]
            &&& forall|k: int| 0 <= k < wk.len() ==> #[trigger] w.ready[n + k] == wk[k]
            &&& w.sleeping == still_asleep(v.sleeping, v.clock)
        }),
{
    lemma_wake_len(v.sleeping, v.clock);
}

} // verus!
