//! Proofs that each step of the scheduler keeps its invariant.
use vstd::prelude::*;

use crate::process::{Policy, ProcessInfo};
use crate::{ProcessState, Syscall};

use super::model::{
    ManagerView, all_accounted, current_seq, earliest_wake, lemma_earliest_wake,
    lemma_choice_in_range, lemma_wake_push, min_vruntime, next_selection, choice, pids_of,
    refreshed_all, spawn_vruntime, still_asleep, woken,
};
use super::process_manager::CurrentProcessMeta;

verus! {

/// Bringing timings up to the clock keeps them consistent, and keeps pids and
/// states.
pub proof fn lemma_refreshed_all(q: Seq<ProcessInfo>, clock: usize)
    requires
        all_accounted(q, clock),
    ensures
        all_accounted(refreshed_all(q, clock), clock),
        pids_of(refreshed_all(q, clock)) == pids_of(q),
        refreshed_all(q, clock).len() == q.len(),
        forall|i: int|
            0 <= i < q.len() ==> (#[trigger] refreshed_all(q, clock)[i]).state == q[i].state,
{
    assert forall|i: int| 0 <= i < q.len() implies (#[trigger] refreshed_all(q, clock)[i]).accounted_by(
        clock as int,
    ) by {
        assert(q[i].accounted_by(clock as int));
    }
    assert(pids_of(refreshed_all(q, clock)) =~= pids_of(q));
}

/// `update_timings` keeps the invariant.
pub proof fn lemma_timings_updated_well_formed(v: ManagerView)
    requires
        v.well_formed(),
    ensures
        v.with_timings_updated().well_formed(),
        v.with_timings_updated().pid_seq() == v.pid_seq(),
{
    let w = v.with_timings_updated();
    lemma_refreshed_all(v.ready, v.clock);
    lemma_refreshed_all(v.sleepers(), v.clock);
    assert(w.sleepers() =~= refreshed_all(v.sleepers(), v.clock));
    assert(w.waiting.dom() =~= v.waiting.dom());
    assert forall|e: usize| #[trigger] w.waiting.contains_key(e) implies {
        &&& w.waiting[e].len() > 0
        &&& all_accounted(w.waiting[e], w.clock)
        &&& forall|i: int|
            0 <= i < w.waiting[e].len() ==> (#[trigger] w.waiting[e][i]).state
                == ProcessState::Waiting { event: Some(e) }
    } by {
        lemma_refreshed_all(v.waiting[e], v.clock);
        assert(forall|i: int|
            0 <= i < v.waiting[e].len() ==> (#[trigger] v.waiting[e][i]).state
                == ProcessState::Waiting { event: Some(e) });
    }
    assert(w.waiting_order.map_values(|e: usize| pids_of(w.waiting[e])) =~= v.waiting_order.map_values(
        |e: usize| pids_of(v.waiting[e]),
    )) by {
        assert forall|k: int| 0 <= k < v.waiting_order.len() implies pids_of(
            w.waiting[v.waiting_order[k]],
        ) == pids_of(v.waiting[v.waiting_order[k]]) by {
            assert(v.waiting_order.to_set().contains(v.waiting_order[k]));
            lemma_refreshed_all(v.waiting[v.waiting_order[k]], v.clock);
        }
    }
    assert(w.pid_seq() =~= v.pid_seq());
    assert(forall|i: int|
        0 <= i < v.sleeping.len() ==> (#[trigger] v.sleeping[i]).0.state == ProcessState::Waiting {
            event: None,
        });
    assert(forall|i: int| 0 <= i < v.sleeping.len() ==> v.sleepers()[i] == #[trigger] v.sleeping[i].0);
    assert(forall|i: int| 0 <= i < w.sleeping.len() ==> w.sleepers()[i] == #[trigger] w.sleeping[i].0);
}


/// Two sequences with the same elements (counted with multiplicity): if one
/// has no duplicates, neither has the other, and each element of the other
/// occurs in the first.
pub proof fn lemma_permutation_distinct(a: Seq<usize>, b: Seq<usize>)
    requires
        a.to_multiset() == b.to_multiset(),
        a.no_duplicates(),
    ensures
        b.no_duplicates(),
        forall|i: int| 0 <= i < b.len() ==> a.contains(#[trigger] b[i]),
{
    broadcast use vstd::seq_lib::group_to_multiset_ensures;

    a.lemma_multiset_has_no_duplicates();
    b.lemma_multiset_has_no_duplicates_conv();
    assert forall|i: int| 0 <= i < b.len() implies a.contains(#[trigger] b[i]) by {
        assert(b.contains(b[i]));
        assert(b.to_multiset().count(b[i]) > 0);
        assert(a.to_multiset().count(b[i]) > 0);
    }
}

/// The sleepers of a sequence (without wake-up times).
pub open spec fn firsts(s: Seq<(ProcessInfo, usize)>) -> Seq<ProcessInfo> {
    s.map_values(|e: (ProcessInfo, usize)| e.0)
}

/// Waking splits the sleepers into the woken ones and the others.
pub proof fn lemma_wake_split(s: Seq<(ProcessInfo, usize)>, clock: usize)
    ensures
        pids_of(woken(s, clock)).to_multiset().add(
            pids_of(firsts(still_asleep(s, clock))).to_multiset(),
        ) == pids_of(firsts(s)).to_multiset(),
        all_accounted(firsts(s), clock) ==> all_accounted(woken(s, clock), clock) && all_accounted(
            firsts(still_asleep(s, clock)),
            clock,
        ),
        forall|i: int|
            0 <= i < woken(s, clock).len() ==> (#[trigger] woken(s, clock)[i]).state
                == ProcessState::Ready,
        (forall|i: int|
            0 <= i < s.len() ==> (#[trigger] s[i]).0.state == ProcessState::Waiting { event: None })
            ==> (forall|i: int|
            0 <= i < still_asleep(s, clock).len() ==> (#[trigger] still_asleep(s, clock)[i]).0.state
                == ProcessState::Waiting { event: None }),
    decreases s.len(),
{
    broadcast use vstd::seq_lib::group_to_multiset_ensures;
    broadcast use vstd::multiset::group_multiset_axioms;

    if s.len() == 0 {
        reveal(Seq::filter);
        assert(woken(s, clock) =~= Seq::empty());
        assert(still_asleep(s, clock) =~= Seq::empty());
        assert(pids_of(woken(s, clock)) =~= Seq::empty());
        assert(pids_of(firsts(still_asleep(s, clock))) =~= Seq::empty());
        assert(pids_of(firsts(s)) =~= Seq::empty());
    } else {
        let t = s.drop_last();
        let e = s.last();
        assert(t.push(e) =~= s);
        lemma_wake_split(t, clock);
        lemma_wake_push(t, e, clock);
        assert(pids_of(firsts(s)) =~= pids_of(firsts(t)).push(e.0.pid));
        if e.1 <= clock {
            assert(pids_of(woken(s, clock)) =~= pids_of(woken(t, clock)).push(e.0.pid));
            assert(pids_of(firsts(still_asleep(s, clock))) == pids_of(firsts(still_asleep(t, clock))));
        } else {
            assert(pids_of(woken(s, clock)) == pids_of(woken(t, clock)));
            assert(pids_of(firsts(still_asleep(s, clock))) =~= pids_of(
                firsts(still_asleep(t, clock)),
            ).push(e.0.pid));
        }
        assert(pids_of(woken(s, clock)).to_multiset().add(
            pids_of(firsts(still_asleep(s, clock))).to_multiset(),
        ) =~= pids_of(firsts(s)).to_multiset());
        if all_accounted(firsts(s), clock) {
            assert(firsts(s)[s.len() - 1] == e.0);
            assert(e.0.accounted_by(clock as int));
            assert forall|i: int| 0 <= i < firsts(t).len() implies (#[trigger] firsts(t)[i]).accounted_by(
                clock as int,
            ) by {
                assert(firsts(t)[i] == firsts(s)[i]);
            }
            let ws = woken(s, clock);
            let wt = woken(t, clock);
            assert forall|i: int| 0 <= i < ws.len() implies (#[trigger] ws[i]).accounted_by(
                clock as int,
            ) by {
                if i < wt.len() {
                    assert(ws[i] == wt[i]);
                }
            }
            let ss = firsts(still_asleep(s, clock));
            let st = firsts(still_asleep(t, clock));
            assert forall|i: int| 0 <= i < ss.len() implies (#[trigger] ss[i]).accounted_by(
                clock as int,
            ) by {
                if i < st.len() {
                    assert(ss[i] == st[i]);
                }
            }
        }
        if forall|i: int|
            0 <= i < s.len() ==> (#[trigger] s[i]).0.state == (ProcessState::Waiting { event: None }) {
            assert forall|i: int| 0 <= i < t.len() implies (#[trigger] t[i]).0.state
                == ProcessState::Waiting { event: None } by {
                assert(t[i] == s[i]);
            }
            assert(s[s.len() - 1] == e);
        }
    }
}


/// The multiset of a concatenation of four sequences.
pub proof fn lemma_multiset_of_four(a: Seq<usize>, b: Seq<usize>, c: Seq<usize>, d: Seq<usize>)
    ensures
        (a + b + c + d).to_multiset() == a.to_multiset().add(b.to_multiset()).add(
            c.to_multiset(),
        ).add(d.to_multiset()),
{
    vstd::seq_lib::lemma_multiset_commutative(a, b);
    vstd::seq_lib::lemma_multiset_commutative(a + b, c);
    vstd::seq_lib::lemma_multiset_commutative(a + b + c, d);
}

/// A step that permutes the processes (by pid) and keeps their pids within
/// range keeps the pid part of the invariant.
pub proof fn lemma_pids_permuted(v: ManagerView, w: ManagerView)
    requires
        v.well_formed(),
        w.pid_seq().to_multiset() == v.pid_seq().to_multiset(),
        w.max_pid == v.max_pid,
    ensures
        w.pid_seq().no_duplicates(),
        forall|i: int| 0 <= i < w.pid_seq().len() ==> 1 <= #[trigger] w.pid_seq()[i] <= w.max_pid,
{
    lemma_permutation_distinct(v.pid_seq(), w.pid_seq());
    assert forall|i: int| 0 <= i < w.pid_seq().len() implies 1 <= #[trigger] w.pid_seq()[i]
        <= w.max_pid by {
        assert(v.pid_seq().contains(w.pid_seq()[i]));
    }
}

/// `wake_processes` keeps the invariant.
pub proof fn lemma_sleepers_woken_well_formed(v: ManagerView)
    requires
        v.well_formed(),
    ensures
        v.with_sleepers_woken().well_formed(),
        v.with_sleepers_woken().pid_seq().to_multiset() == v.pid_seq().to_multiset(),
{
    broadcast use vstd::multiset::group_multiset_axioms;

    let w = v.with_sleepers_woken();
    lemma_wake_split(v.sleeping, v.clock);
    assert(v.sleepers() =~= firsts(v.sleeping));
    assert(w.sleepers() =~= firsts(still_asleep(v.sleeping, v.clock)));
    let wk = woken(v.sleeping, v.clock);
    assert(pids_of(w.ready) =~= pids_of(v.ready) + pids_of(wk));
    let c = pids_of(super::model::current_seq(v.current));
    lemma_multiset_of_four(pids_of(v.ready), c, pids_of(v.sleepers()), v.waiter_pids());
    lemma_multiset_of_four(pids_of(w.ready), c, pids_of(w.sleepers()), w.waiter_pids());
    vstd::seq_lib::lemma_multiset_commutative(pids_of(v.ready), pids_of(wk));
    assert(w.pid_seq().to_multiset() =~= v.pid_seq().to_multiset());
    lemma_pids_permuted(v, w);
    assert forall|i: int| 0 <= i < w.ready.len() implies (#[trigger] w.ready[i]).state
        == ProcessState::Ready by {
        if i >= v.ready.len() {
            assert(w.ready[i] == wk[i - v.ready.len()]);
        }
    }
    assert forall|i: int| 0 <= i < w.ready.len() implies (#[trigger] w.ready[i]).accounted_by(
        w.clock as int,
    ) by {
        if i >= v.ready.len() {
            assert(w.ready[i] == wk[i - v.ready.len()]);
        } else {
            assert(v.ready[i].accounted_by(v.clock as int));
        }
    }
    assert forall|i: int|
        0 <= i < v.sleeping.len() implies (#[trigger] v.sleeping[i]).0.state == (ProcessState::Waiting {
        event: None,
    }) by {}
    assert forall|i: int|
        0 <= i < w.sleeping.len() implies (#[trigger] w.sleeping[i]).0.state == (ProcessState::Waiting {
        event: None,
    }) by {
        assert(still_asleep(v.sleeping, v.clock)[i] == w.sleeping[i]);
    }
}


/// A sequence of distinct pids in `[1, m]` has at most `m` elements.
pub proof fn lemma_distinct_bounded(s: Seq<usize>, m: usize)
    requires
        s.no_duplicates(),
        forall|i: int| 0 <= i < s.len() ==> 1 <= #[trigger] s[i] <= m,
    ensures
        s.len() <= m,
{
    let t = s.map_values(|x: usize| x as int);
    assert(t.no_duplicates()) by {
        assert forall|i: int, j: int| 0 <= i < t.len() && 0 <= j < t.len() && i != j implies t[i]
            != t[j] by {
            assert(s[i] != s[j]);
        }
    }
    t.unique_seq_to_set();
    vstd::set_lib::lemma_int_range(1, m + 1);
    assert(t.to_set().subset_of(vstd::set_lib::set_int_range(1, m + 1))) by {
        assert forall|x: int| t.to_set().contains(x) implies vstd::set_lib::set_int_range(
            1,
            m + 1,
        ).contains(x) by {
            let i = choose|i: int| 0 <= i < t.len() && t[i] == x;
            assert(1 <= s[i] <= m);
        }
    }
    vstd::set_lib::lemma_len_subset(t.to_set(), vstd::set_lib::set_int_range(1, m + 1));
}

/// While a process runs, the ready queue holds fewer than `max_pid` processes
/// (each process has its own pid in `[1, max_pid]`).
pub proof fn lemma_ready_bounded(v: ManagerView)
    requires
        v.well_formed(),
    ensures
        v.current is Some ==> v.ready.len() + 1 <= v.max_pid,
        v.ready.len() <= v.max_pid,
{
    let p = v.pid_seq();
    let k = pids_of(v.ready).len() + pids_of(super::model::current_seq(v.current)).len();
    let prefix = p.take(k as int);
    assert(prefix =~= pids_of(v.ready) + pids_of(super::model::current_seq(v.current)));
    assert(prefix.no_duplicates());
    assert forall|i: int| 0 <= i < prefix.len() implies 1 <= #[trigger] prefix[i] <= v.max_pid by {
        assert(prefix[i] == p[i]);
    }
    lemma_distinct_bounded(prefix, v.max_pid);
}


/// The state after the choice of the next process.
pub open spec fn with_selection(v: ManagerView, policy: Policy) -> ManagerView {
    let sel = next_selection(policy, v.ready, v.current, v.timeslice_factor, v.timeslice);
    ManagerView { ready: sel.0, current: sel.1, timeslice_factor: sel.2, ..v }
}

/// The choice of the next process keeps the invariant.
pub proof fn lemma_selection_well_formed(v: ManagerView, policy: Policy)
    requires
        v.well_formed(),
    ensures
        with_selection(v, policy).well_formed(),
        with_selection(v, policy).pid_seq().to_multiset() == v.pid_seq().to_multiset(),
{
    broadcast use vstd::seq_lib::group_to_multiset_ensures;
    broadcast use vstd::multiset::group_multiset_axioms;

    let w = with_selection(v, policy);
    let c = pids_of(current_seq(v.current));
    let d = pids_of(current_seq(w.current));
    lemma_multiset_of_four(pids_of(v.ready), c, pids_of(v.sleepers()), v.waiter_pids());
    lemma_multiset_of_four(pids_of(w.ready), d, pids_of(w.sleepers()), w.waiter_pids());
    if v.current is Some && v.current.unwrap().process.state == ProcessState::Running {
        assert(w.ready == v.ready);
        assert(d =~= c);
    } else {
        let q = if v.current is Some {
            v.ready.push(v.current.unwrap().process)
        } else {
            v.ready
        };
        assert(pids_of(q) =~= pids_of(v.ready) + c);
        vstd::seq_lib::lemma_multiset_commutative(pids_of(v.ready), c);
        assert forall|i: int| 0 <= i < q.len() implies (#[trigger] q[i]).state == ProcessState::Ready
            && q[i].accounted_by(v.clock as int) by {
            if i < v.ready.len() {
                assert(q[i] == v.ready[i]);
            }
        }
        lemma_choice_in_range(policy, q, q.len() as int);
        if choice(policy, q, q.len() as int) is None {
            assert(d =~= Seq::empty());
            assert(w.ready == q);
            assert(pids_of(w.ready).to_multiset().add(d.to_multiset()) =~= pids_of(
                q,
            ).to_multiset());
        } else {
            let i = choice(policy, q, q.len() as int).unwrap();
            assert(0 <= i < q.len());
            assert(pids_of(w.ready) =~= pids_of(q).remove(i));
            assert(pids_of(q)[i] == q[i].pid);
            assert(d =~= seq![q[i].pid]);
            assert(pids_of(w.ready).to_multiset().add(d.to_multiset()) =~= pids_of(
                q,
            ).to_multiset());
            assert forall|j: int| 0 <= j < w.ready.len() implies (#[trigger] w.ready[j]).state
                == ProcessState::Ready && w.ready[j].accounted_by(w.clock as int) by {
                if j < i {
                    assert(w.ready[j] == q[j]);
                } else {
                    assert(w.ready[j] == q[j + 1]);
                }
            }
        }
    }
    assert(w.pid_seq().to_multiset() =~= v.pid_seq().to_multiset());
    lemma_pids_permuted(v, w);
}


/// Advancing the clock keeps the invariant.
pub proof fn lemma_clock_advanced_well_formed(v: ManagerView, clock: usize)
    requires
        v.well_formed(),
        v.clock <= clock,
    ensures
        (ManagerView { clock, ..v }).well_formed(),
{
    let w = ManagerView { clock, ..v };
    assert(forall|i: int| 0 <= i < v.ready.len() ==> (#[trigger] v.ready[i]).accounted_by(v.clock as int));
    assert(forall|i: int|
        0 <= i < v.sleepers().len() ==> (#[trigger] v.sleepers()[i]).accounted_by(v.clock as int));
    assert forall|e: usize| #[trigger] w.waiting.contains_key(e) implies all_accounted(
        w.waiting[e],
        clock,
    ) by {
        assert(forall|i: int|
            0 <= i < v.waiting[e].len() ==> (#[trigger] v.waiting[e][i]).accounted_by(
                v.clock as int,
            ));
    }
    assert(w.pid_seq() == v.pid_seq());
}


/// A sequence whose elements (with multiplicity) are among those of a
/// sequence without duplicates has no duplicates either.
pub proof fn lemma_sub_multiset_distinct(a: Seq<usize>, b: Seq<usize>)
    requires
        b.to_multiset().subset_of(a.to_multiset()),
        a.no_duplicates(),
    ensures
        b.no_duplicates(),
        forall|i: int| 0 <= i < b.len() ==> a.contains(#[trigger] b[i]),
{
    broadcast use vstd::seq_lib::group_to_multiset_ensures;
    broadcast use vstd::multiset::group_multiset_axioms;

    a.lemma_multiset_has_no_duplicates();
    assert forall|x: usize| b.to_multiset().contains(x) implies b.to_multiset().count(x) == 1 by {
        assert(b.to_multiset().count(x) <= a.to_multiset().count(x));
        assert(a.to_multiset().contains(x));
    }
    b.lemma_multiset_has_no_duplicates_conv();
    assert forall|i: int| 0 <= i < b.len() implies a.contains(#[trigger] b[i]) by {
        assert(b.contains(b[i]));
        assert(b.to_multiset().count(b[i]) > 0);
        assert(a.to_multiset().count(b[i]) > 0);
    }
}

/// Adding a new element to a sequence without duplicates keeps it without
/// duplicates.
pub proof fn lemma_fresh_insert_distinct(a: Seq<usize>, b: Seq<usize>, x: usize)
    requires
        b.to_multiset() == a.to_multiset().insert(x),
        a.no_duplicates(),
        !a.contains(x),
    ensures
        b.no_duplicates(),
        forall|i: int| 0 <= i < b.len() ==> a.contains(#[trigger] b[i]) || b[i] == x,
{
    broadcast use vstd::seq_lib::group_to_multiset_ensures;
    broadcast use vstd::multiset::group_multiset_axioms;

    a.lemma_multiset_has_no_duplicates();
    assert forall|y: usize| b.to_multiset().contains(y) implies b.to_multiset().count(y) == 1 by {
        if y != x {
            assert(a.to_multiset().contains(y));
        } else {
            assert(a.to_multiset().count(x) == 0);
        }
    }
    b.lemma_multiset_has_no_duplicates_conv();
    assert forall|i: int| 0 <= i < b.len() implies a.contains(#[trigger] b[i]) || b[i] == x by {
        assert(b.contains(b[i]));
        assert(b.to_multiset().count(b[i]) > 0);
        if b[i] != x {
            assert(a.to_multiset().count(b[i]) > 0);
        }
    }
}

/// Flattening splits around any position.
pub proof fn lemma_flatten_split(s: Seq<Seq<usize>>, k: int)
    requires
        0 <= k < s.len(),
    ensures
        s.flatten() == s.take(k).flatten() + s[k] + s.skip(k + 1).flatten(),
{
    assert(s =~= s.take(k) + seq![s[k]] + s.skip(k + 1));
    vstd::seq_lib::lemma_flatten_concat(s.take(k) + seq![s[k]], s.skip(k + 1));
    vstd::seq_lib::lemma_flatten_concat(s.take(k), seq![s[k]]);
    assert(seq![s[k]].flatten() =~= s[k]) by {
        seq![s[k]].lemma_flatten_one_element();
    }
}


/// Replacing the running process's record by one for the same process, with
/// consistent timings, keeps the invariant.
pub proof fn lemma_current_replaced_well_formed(v: ManagerView, c: CurrentProcessMeta<ProcessInfo>)
    requires
        v.well_formed(),
        v.current is Some,
        c.process.pid == v.current.unwrap().process.pid,
        c.process.state == ProcessState::Running || c.process.state == ProcessState::Ready,
        c.process.accounted_by(v.clock as int),
        c.execution_cycles == 0,
        c.syscall_cycles <= c.process.syscall,
    ensures
        (ManagerView { current: Some(c), ..v }).well_formed(),
        (ManagerView { current: Some(c), ..v }).pid_seq() == v.pid_seq(),
{
    let w = ManagerView { current: Some(c), ..v };
    assert(pids_of(current_seq(w.current)) =~= pids_of(current_seq(v.current)));
    assert(w.pid_seq() =~= v.pid_seq());
}

/// The accounting of a system call keeps the invariant.
pub proof fn lemma_syscall_charged_well_formed(v: ManagerView, policy: Policy, remaining: usize)
    requires
        v.well_formed(),
        v.current is Some ==> remaining < v.current.unwrap().remaining_timeslice && v.clock + (
        v.current.unwrap().remaining_timeslice - remaining) <= usize::MAX,
    ensures
        v.with_syscall_charged(policy, remaining).well_formed(),
        v.with_syscall_charged(policy, remaining).pid_seq() == v.pid_seq(),
        v.with_syscall_charged(policy, remaining).clock >= v.clock,
        v.current is Some ==> v.with_syscall_charged(policy, remaining).current.unwrap().process.last_update
            == v.with_syscall_charged(policy, remaining).clock,
{
    if v.current is Some {
        let w = v.with_syscall_charged(policy, remaining);
        lemma_clock_advanced_well_formed(v, w.clock);
        let u = ManagerView { clock: w.clock, ..v };
        assert(v.current.unwrap().process.accounted_by(v.clock as int));
        lemma_current_replaced_well_formed(u, w.current.unwrap());
        assert(w == ManagerView { current: w.current, ..u });
    }
}

/// A process with consistent timings, made ready and charged with `cycles`
/// more execution time, still has consistent timings at `clock` if the
/// cycles fit.
pub proof fn lemma_preempted_accounted(p: ProcessInfo, clock: usize, policy: Policy)
    requires
        p.accounted_by(clock as int),
    ensures
        p.with_state(ProcessState::Ready).with_execution_added(0, policy).accounted_by(clock as int),
        p.with_state(ProcessState::Ready).with_execution_added(0, policy) == p.with_state(
            ProcessState::Ready,
        ),
{
}

/// Preempting a running process whose slice got too short keeps the
/// invariant.
pub proof fn lemma_short_slice_preempted_well_formed(v: ManagerView, policy: Policy)
    requires
        v.well_formed(),
    ensures
        v.with_short_slice_preempted(policy).well_formed(),
        v.with_short_slice_preempted(policy).pid_seq() == v.pid_seq(),
{
    if v.current is Some {
        let c = v.current.unwrap();
        if c.remaining_timeslice < v.minimum_remaining_timeslice {
            let w = v.with_short_slice_preempted(policy);
            lemma_preempted_accounted(c.process, v.clock, policy);
            lemma_current_replaced_well_formed(v, w.current.unwrap());
        }
    }
}


/// The running minimum never exceeds its start value.
pub proof fn lemma_min_vruntime_le(s: Seq<ProcessInfo>, init: usize)
    ensures
        min_vruntime(s, init) <= init,
    decreases s.len(),
{
    if s.len() > 0 {
        lemma_min_vruntime_le(s.drop_last(), init);
    }
}

/// A new process never starts with a virtual run time beyond the clock.
pub proof fn lemma_spawn_vruntime_bounded(v: ManagerView, policy: Policy)
    requires
        v.well_formed(),
    ensures
        spawn_vruntime(policy, v.ready, v.current) <= v.clock,
{
    if policy is Fair {
        match v.current {
            Some(c) => {
                lemma_min_vruntime_le(v.ready, c.process.vruntime);
            },
            None => {
                if v.ready.len() > 0 {
                    assert(v.ready[0].accounted_by(v.clock as int));
                    lemma_min_vruntime_le(v.ready.drop_first(), v.ready[0].vruntime);
                }
            },
        }
    }
}

/// `Fork` keeps the invariant: the new process gets a pid that no process has.
pub proof fn lemma_fork_well_formed(v: ManagerView, policy: Policy, priority: i8)
    requires
        v.well_formed(),
        v.max_pid < usize::MAX,
    ensures
        v.with_syscall_applied(
            policy,
            Syscall::Fork(priority),
            spawn_vruntime(policy, v.ready, v.current),
        ).0.well_formed(),
{
    broadcast use vstd::seq_lib::group_to_multiset_ensures;
    broadcast use vstd::multiset::group_multiset_axioms;

    let vr = spawn_vruntime(policy, v.ready, v.current);
    lemma_spawn_vruntime_bounded(v, policy);
    let w = v.with_syscall_applied(policy, Syscall::Fork(priority), vr).0;
    let x = w.max_pid;
    let p = ProcessInfo::created(x, priority, v.clock, vr);
    assert(w.ready == v.ready.push(p));
    assert(pids_of(w.ready) =~= pids_of(v.ready).push(x));
    let c = pids_of(current_seq(v.current));
    lemma_multiset_of_four(pids_of(v.ready), c, pids_of(v.sleepers()), v.waiter_pids());
    lemma_multiset_of_four(pids_of(w.ready), c, pids_of(w.sleepers()), w.waiter_pids());
    assert(w.pid_seq().to_multiset() =~= v.pid_seq().to_multiset().insert(x));
    assert(!v.pid_seq().contains(x)) by {
        if v.pid_seq().contains(x) {
            let i = choose|i: int| 0 <= i < v.pid_seq().len() && v.pid_seq()[i] == x;
            assert(v.pid_seq()[i] <= v.max_pid);
        }
    }
    lemma_fresh_insert_distinct(v.pid_seq(), w.pid_seq(), x);
    assert forall|i: int| 0 <= i < w.pid_seq().len() implies 1 <= #[trigger] w.pid_seq()[i]
        <= w.max_pid by {
        if w.pid_seq()[i] != x {
            let j = choose|j: int| 0 <= j < v.pid_seq().len() && v.pid_seq()[j] == w.pid_seq()[i];
            assert(1 <= v.pid_seq()[j] <= v.max_pid);
        }
    }
    assert forall|i: int| 0 <= i < w.ready.len() implies (#[trigger] w.ready[i]).state
        == ProcessState::Ready && w.ready[i].accounted_by(w.clock as int) by {
        if i < v.ready.len() {
            assert(w.ready[i] == v.ready[i]);
        }
    }
}


/// Removing some processes (by pid, with multiplicity) keeps the pid part of
/// the invariant.
pub proof fn lemma_pids_dropped(v: ManagerView, w: ManagerView)
    requires
        v.well_formed(),
        w.pid_seq().to_multiset().subset_of(v.pid_seq().to_multiset()),
        w.max_pid == v.max_pid,
    ensures
        w.pid_seq().no_duplicates(),
        forall|i: int| 0 <= i < w.pid_seq().len() ==> 1 <= #[trigger] w.pid_seq()[i] <= w.max_pid,
{
    lemma_sub_multiset_distinct(v.pid_seq(), w.pid_seq());
    assert forall|i: int| 0 <= i < w.pid_seq().len() implies 1 <= #[trigger] w.pid_seq()[i]
        <= w.max_pid by {
        let j = choose|j: int| 0 <= j < v.pid_seq().len() && v.pid_seq()[j] == w.pid_seq()[i];
        assert(1 <= v.pid_seq()[j] <= v.max_pid);
    }
}

/// `Exit` keeps the invariant.
pub proof fn lemma_exit_well_formed(v: ManagerView, policy: Policy, vr: usize)
    requires
        v.well_formed(),
    ensures
        v.with_syscall_applied(policy, Syscall::Exit, vr).0.well_formed(),
        v.current is Some ==> v.with_syscall_applied(policy, Syscall::Exit, vr).0.pid_seq().to_multiset()
            == v.pid_seq().to_multiset().remove(v.current.unwrap().process.pid),
        v.current is None ==> v.with_syscall_applied(policy, Syscall::Exit, vr).0 == v,
{
    broadcast use vstd::seq_lib::group_to_multiset_ensures;
    broadcast use vstd::multiset::group_multiset_axioms;

    let w = v.with_syscall_applied(policy, Syscall::Exit, vr).0;
    if v.current is Some {
        let c = pids_of(current_seq(v.current));
        let d = pids_of(current_seq(w.current));
        assert(d =~= Seq::empty());
        lemma_multiset_of_four(pids_of(v.ready), c, pids_of(v.sleepers()), v.waiter_pids());
        lemma_multiset_of_four(pids_of(w.ready), d, pids_of(w.sleepers()), w.waiter_pids());
        let pid = v.current.unwrap().process.pid;
        assert(c =~= Seq::<usize>::empty().push(pid));
        assert(c.to_multiset() =~= vstd::multiset::Multiset::<usize>::empty().insert(pid));
        assert(d.to_multiset() =~= vstd::multiset::Multiset::<usize>::empty());
        let rest = pids_of(v.ready).to_multiset().add(pids_of(v.sleepers()).to_multiset()).add(
            v.waiter_pids().to_multiset(),
        );
        assert(v.pid_seq().to_multiset() =~= rest.insert(pid));
        assert(w.pid_seq().to_multiset() =~= rest);
        assert(rest.insert(pid).remove(pid) =~= rest);
        assert(w.pid_seq().to_multiset() =~= v.pid_seq().to_multiset().remove(pid));
        assert(w.pid_seq().to_multiset().subset_of(v.pid_seq().to_multiset()));
        lemma_pids_dropped(v, w);
    }
}


/// The position of `e` in a sequence without duplicates that holds it.
pub proof fn lemma_remove_value(order: Seq<usize>, e: usize) -> (k: int)
    requires
        order.no_duplicates(),
        order.contains(e),
    ensures
        0 <= k < order.len(),
        order[k] == e,
        order.remove_value(e) == order.remove(k),
        order.remove(k).no_duplicates(),
        order.remove(k).to_set() == order.to_set().remove(e),
{
    order.index_of_first_ensures(e);
    let k = order.index_of_first(e).unwrap();
    let r = order.remove(k);
    assert(r.to_set() =~= order.to_set().remove(e)) by {
        assert forall|x: usize| r.to_set().contains(x) implies order.to_set().remove(e).contains(x) by {
            let j = choose|j: int| 0 <= j < r.len() && r[j] == x;
            if j < k {
                assert(r[j] == order[j]);
            } else {
                assert(r[j] == order[j + 1]);
            }
        }
        assert forall|x: usize| order.to_set().remove(e).contains(x) implies r.to_set().contains(x) by {
            let j = choose|j: int| 0 <= j < order.len() && order[j] == x;
            if j < k {
                assert(r[j] == x);
            } else {
                assert(j != k);
                assert(r[j - 1] == x);
            }
        }
    }
    k
}

/// `Signal` keeps the invariant: the waiters of the event become ready.
pub proof fn lemma_signal_well_formed(v: ManagerView, policy: Policy, event: usize, vr: usize)
    requires
        v.well_formed(),
    ensures
        v.with_syscall_applied(policy, Syscall::Signal(event), vr).0.well_formed(),
        v.with_syscall_applied(policy, Syscall::Signal(event), vr).0.pid_seq().to_multiset()
            == v.pid_seq().to_multiset(),
{
    broadcast use vstd::seq_lib::group_to_multiset_ensures;
    broadcast use vstd::multiset::group_multiset_axioms;

    let w = v.with_syscall_applied(policy, Syscall::Signal(event), vr).0;
    if v.waiting.contains_key(event) {
        let order = v.waiting_order;
        assert(order.to_set().contains(event));
        let k = lemma_remove_value(order, event);
        let f = order.map_values(|e: usize| pids_of(v.waiting[e]));
        let g = w.waiting_order.map_values(|e: usize| pids_of(w.waiting[e]));
        assert(g =~= f.take(k) + f.skip(k + 1)) by {
            assert forall|j: int| 0 <= j < g.len() implies g[j] == (f.take(k) + f.skip(k + 1))[j] by {
                if j < k {
                    assert(order[j] != event);
                } else {
                    assert(order[j + 1] != event);
                }
            }
        }
        vstd::seq_lib::lemma_flatten_concat(f.take(k), f.skip(k + 1));
        lemma_flatten_split(f, k);
        let woken_q = v.waiting[event];
        assert(pids_of(w.ready) =~= pids_of(v.ready) + f[k]);
        let c = pids_of(current_seq(v.current));
        lemma_multiset_of_four(pids_of(v.ready), c, pids_of(v.sleepers()), v.waiter_pids());
        lemma_multiset_of_four(pids_of(w.ready), c, pids_of(w.sleepers()), w.waiter_pids());
        vstd::seq_lib::lemma_multiset_commutative(pids_of(v.ready), f[k]);
        vstd::seq_lib::lemma_multiset_commutative(f.take(k).flatten(), f.skip(k + 1).flatten());
        vstd::seq_lib::lemma_multiset_commutative(f.take(k).flatten() + f[k], f.skip(k + 1).flatten());
        vstd::seq_lib::lemma_multiset_commutative(f.take(k).flatten(), f[k]);
        assert(w.pid_seq().to_multiset() =~= v.pid_seq().to_multiset());
        lemma_pids_permuted(v, w);
        assert(all_accounted(woken_q, v.clock));
        assert forall|i: int| 0 <= i < w.ready.len() implies (#[trigger] w.ready[i]).state
            == ProcessState::Ready && w.ready[i].accounted_by(w.clock as int) by {
            if i < v.ready.len() {
                assert(w.ready[i] == v.ready[i]);
            } else {
                assert(woken_q[i - v.ready.len()].accounted_by(v.clock as int));
            }
        }
        assert(w.waiting.dom() =~= v.waiting.dom().remove(event));
        assert forall|e: usize| #[trigger] w.waiting.contains_key(e) implies {
            &&& w.waiting[e].len() > 0
            &&& all_accounted(w.waiting[e], w.clock)
            &&& forall|i: int|
                0 <= i < w.waiting[e].len() ==> (#[trigger] w.waiting[e][i]).state
                    == ProcessState::Waiting { event: Some(e) }
        } by {
            assert(v.waiting.contains_key(e));
        }
    }
}


/// `update_execution_time` leaves the running process with consistent
/// timings and changes nothing else.
pub proof fn lemma_execution_updated(v: ManagerView, policy: Policy)
    requires
        v.well_formed(),
    ensures
        ({
            let u = v.with_execution_updated(policy);
            &&& u == ManagerView { current: u.current, ..v }
            &&& u.current is Some <==> v.current is Some
            &&& u.current is Some ==> {
                &&& u.current.unwrap().process.accounted_by(v.clock as int)
                &&& u.current.unwrap().process.pid == v.current.unwrap().process.pid
            }
        }),
{
    if v.current is Some {
        assert(v.current.unwrap().process.accounted_by(v.clock as int));
    }
}

/// `Wait` keeps the invariant: the running process joins the waiters of
/// the event.
pub proof fn lemma_wait_well_formed(v: ManagerView, policy: Policy, event: usize, vr: usize)
    requires
        v.well_formed(),
    ensures
        v.with_syscall_applied(policy, Syscall::Wait(event), vr).0.well_formed(),
        v.with_syscall_applied(policy, Syscall::Wait(event), vr).0.pid_seq().to_multiset()
            == v.pid_seq().to_multiset(),
{
    broadcast use vstd::seq_lib::group_to_multiset_ensures;
    broadcast use vstd::multiset::group_multiset_axioms;

    lemma_execution_updated(v, policy);
    let u = v.with_execution_updated(policy);
    let w = v.with_syscall_applied(policy, Syscall::Wait(event), vr).0;
    if u.current is Some {
        let p = u.current.unwrap().process.with_state(ProcessState::Waiting { event: Some(event) });
        let x = p.pid;
        let order = v.waiting_order;
        let f = order.map_values(|e: usize| pids_of(v.waiting[e]));
        let g = w.waiting_order.map_values(|e: usize| pids_of(w.waiting[e]));
        if v.waiting.contains_key(event) {
            assert(order.to_set().contains(event));
            let k = lemma_remove_value(order, event);
            assert(g =~= f.update(k, f[k].push(x))) by {
                assert forall|j: int| 0 <= j < g.len() implies g[j] == f.update(k, f[k].push(x))[j] by {
                    if j != k {
                        assert(order[j] != event);
                    } else {
                        assert(pids_of(v.waiting[event].push(p)) =~= pids_of(v.waiting[event]).push(x));
                    }
                }
            }
            lemma_flatten_split(f, k);
            lemma_flatten_split(g, k);
            assert(g.take(k) =~= f.take(k));
            assert(g.skip(k + 1) =~= f.skip(k + 1));
            vstd::seq_lib::lemma_multiset_commutative(f.take(k).flatten() + f[k], f.skip(k + 1).flatten());
            vstd::seq_lib::lemma_multiset_commutative(f.take(k).flatten(), f[k]);
            vstd::seq_lib::lemma_multiset_commutative(g.take(k).flatten() + g[k], g.skip(k + 1).flatten());
            vstd::seq_lib::lemma_multiset_commutative(g.take(k).flatten(), g[k]);
            assert(w.waiter_pids().to_multiset() =~= v.waiter_pids().to_multiset().insert(x));
            assert(w.waiting_order == order);
        } else {
            assert(!order.to_set().contains(event));
            assert(!order.contains(event));
            assert(g =~= f.push(seq![x])) by {
                assert forall|j: int| 0 <= j < order.len() implies g[j] == f[j] by {
                    assert(order.to_set().contains(order[j]));
                }
                assert(pids_of(Seq::<ProcessInfo>::empty().push(p)) =~= seq![x]);
            }
            f.lemma_flatten_push(seq![x]);
            vstd::seq_lib::lemma_multiset_commutative(f.flatten(), seq![x]);
            assert(w.waiter_pids().to_multiset() =~= v.waiter_pids().to_multiset().insert(x));
            order.lemma_push_to_set_commute(event);
            assert(w.waiting_order.to_set() =~= order.to_set().insert(event));
            assert(w.waiting_order.no_duplicates());
        }
        let c = pids_of(current_seq(v.current));
        let d = pids_of(current_seq(w.current));
        assert(c =~= seq![x]);
        assert(d =~= Seq::empty());
        lemma_multiset_of_four(pids_of(v.ready), c, pids_of(v.sleepers()), v.waiter_pids());
        lemma_multiset_of_four(pids_of(w.ready), d, pids_of(w.sleepers()), w.waiter_pids());
        assert(w.pid_seq().to_multiset() =~= v.pid_seq().to_multiset());
        lemma_pids_permuted(v, w);
        assert(w.waiting.dom() =~= v.waiting.dom().insert(event));
        assert forall|e: usize| #[trigger] w.waiting.contains_key(e) implies {
            &&& w.waiting[e].len() > 0
            &&& all_accounted(w.waiting[e], w.clock)
            &&& forall|i: int|
                0 <= i < w.waiting[e].len() ==> (#[trigger] w.waiting[e][i]).state
                    == ProcessState::Waiting { event: Some(e) }
        } by {
            if e == event {
                let q = w.waiting[e];
                if v.waiting.contains_key(event) {
                    assert forall|i: int| 0 <= i < q.len() implies (#[trigger] q[i]).accounted_by(
                        w.clock as int,
                    ) && q[i].state == (ProcessState::Waiting { event: Some(e) }) by {
                        if i < v.waiting[event].len() {
                            assert(q[i] == v.waiting[event][i]);
                        }
                    }
                } else {
                    assert(q =~= seq![p]);
                }
            }
        }
        assert(w.current is None);
        assert(w.waiting_order.to_set() =~= w.waiting.dom());
        assert(w.waiting_order.no_duplicates());
        assert(w.waiting.dom().finite());
        assert(all_accounted(w.ready, w.clock));
        assert(all_accounted(w.sleepers(), w.clock));
        assert(w.pid_seq().no_duplicates());
        assert(w.well_formed());
    } else {
        assert(w == v);
    }
}

/// `Sleep` keeps the invariant: the running process joins the sleepers.
pub proof fn lemma_sleep_well_formed(v: ManagerView, policy: Policy, time: usize, vr: usize)
    requires
        v.well_formed(),
    ensures
        v.with_syscall_applied(policy, Syscall::Sleep(time), vr).0.well_formed(),
        v.with_syscall_applied(policy, Syscall::Sleep(time), vr).0.pid_seq().to_multiset()
            == v.pid_seq().to_multiset(),
{
    broadcast use vstd::seq_lib::group_to_multiset_ensures;
    broadcast use vstd::multiset::group_multiset_axioms;

    lemma_execution_updated(v, policy);
    let u = v.with_execution_updated(policy);
    let w = v.with_syscall_applied(policy, Syscall::Sleep(time), vr).0;
    if u.current is Some {
        let p = u.current.unwrap().process.with_state(ProcessState::Waiting { event: None });
        let x = p.pid;
        assert(w.sleepers() =~= v.sleepers().push(p));
        assert(pids_of(w.sleepers()) =~= pids_of(v.sleepers()).push(x));
        let c = pids_of(current_seq(v.current));
        let d = pids_of(current_seq(w.current));
        assert(c =~= seq![x]);
        assert(d =~= Seq::empty());
        lemma_multiset_of_four(pids_of(v.ready), c, pids_of(v.sleepers()), v.waiter_pids());
        lemma_multiset_of_four(pids_of(w.ready), d, pids_of(w.sleepers()), w.waiter_pids());
        assert(w.pid_seq().to_multiset() =~= v.pid_seq().to_multiset());
        lemma_pids_permuted(v, w);
        assert forall|i: int| 0 <= i < w.sleepers().len() implies (#[trigger] w.sleepers()[i]).accounted_by(
            w.clock as int,
        ) by {
            if i < v.sleepers().len() {
                assert(w.sleepers()[i] == v.sleepers()[i]);
            }
        }
        assert forall|i: int|
            0 <= i < w.sleeping.len() implies (#[trigger] w.sleeping[i]).0.state == (ProcessState::Waiting {
            event: None,
        }) by {
            if i < v.sleeping.len() {
                assert(w.sleeping[i] == v.sleeping[i]);
            }
        }
    }
}


/// `Expired` keeps the invariant.
pub proof fn lemma_slice_expired_well_formed(v: ManagerView, policy: Policy)
    requires
        v.well_formed(),
        v.current is Some ==> v.clock + v.current.unwrap().remaining_timeslice <= usize::MAX,
    ensures
        v.with_slice_expired(policy).0.well_formed(),
        v.with_slice_expired(policy).0.pid_seq() == v.pid_seq(),
{
    if v.current is Some {
        let c = v.current.unwrap();
        let clock = (v.clock + c.remaining_timeslice) as usize;
        lemma_clock_advanced_well_formed(v, clock);
        let u = ManagerView { clock, ..v };
        assert(c.process.accounted_by(v.clock as int));
        let p = c.process.with_state(ProcessState::Ready).with_execution_added(
            c.remaining_timeslice as int,
            policy,
        ).with_last_update(clock);
        lemma_current_replaced_well_formed(u, CurrentProcessMeta { process: p, ..c });
        let x = ManagerView { current: Some(CurrentProcessMeta { process: p, ..c }), ..u };
        lemma_timings_updated_well_formed(x);
        assert(v.with_slice_expired(policy).0 == x.with_timings_updated());
    }
}

/// Every system call keeps the invariant.
pub proof fn lemma_syscall_applied_well_formed(v: ManagerView, policy: Policy, syscall: Syscall)
    requires
        v.well_formed(),
        syscall is Fork ==> v.max_pid < usize::MAX,
    ensures
        v.with_syscall_applied(policy, syscall, spawn_vruntime(policy, v.ready, v.current)).0.well_formed(),
{
    let vr = spawn_vruntime(policy, v.ready, v.current);
    match syscall {
        Syscall::Fork(priority) => lemma_fork_well_formed(v, policy, priority),
        Syscall::Exit => lemma_exit_well_formed(v, policy, vr),
        Syscall::Signal(event) => lemma_signal_well_formed(v, policy, event, vr),
        Syscall::Wait(event) => lemma_wait_well_formed(v, policy, event, vr),
        Syscall::Sleep(time) => lemma_sleep_well_formed(v, policy, time, vr),
    }
}


/// In a well-formed state, every sleeping process wakes up after the clock
/// (if no process could wake up yet), and the earliest wake-up time is not
/// before the clock.
pub proof fn lemma_earliest_wake_after(v: ManagerView)
    requires
        v.well_formed(),
        v.sleeping.len() > 0,
        forall|i: int| 0 <= i < v.sleeping.len() ==> (#[trigger] v.sleeping[i]).1 > v.clock,
    ensures
        earliest_wake(v.sleeping) > v.clock,
{
    lemma_earliest_wake(v.sleeping);
}

} // verus!
