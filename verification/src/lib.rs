//! A process scheduler for a simulated operating system.
//!
//! The operating system calls the scheduler whenever it stops a process (its
//! time slice expired or it made a system call) and whenever it needs to know
//! what to run next. The scheduler keeps an internal clock, the queues of
//! ready, sleeping and waiting processes, and decides with one of three
//! algorithms: Round Robin, Round Robin with priorities, and a Completely Fair
//! Scheduler.
use vstd::prelude::*;

pub mod process;
pub mod schedulers;

use process::{Policy, Process};
use schedulers::model::{current_seq, ref_infos, waiters_in, ManagerView};

verus! {

/// The identifier of a process.
#[derive(Clone, Copy, Debug, PartialEq, Eq, Structural)]
pub struct Pid(pub usize);

impl Pid {
    /// Wraps a raw process identifier.
    pub fn new(pid: usize) -> (r: Pid)
        ensures
            r.0 == pid,
    {
        Pid(pid)
    }

    /// The raw process identifier.
    pub fn value(&self) -> (r: usize)
        ensures
            r == self.0,
    {
        self.0
    }
}

/// The state of a process.
#[derive(Clone, Copy, Debug, PartialEq, Eq, Structural)]
pub enum ProcessState {
    /// The process may be given the processor.
    Ready,
    /// The process holds the processor.
    Running,
    /// The process waits for an event (`Some`) or sleeps (`None`).
    Waiting { event: Option<usize> },
}

/// A system call made by the running process.
#[derive(Clone, Copy, Debug, PartialEq, Eq, Structural)]
pub enum Syscall {
    /// Create a new process with the given priority.
    Fork(i8),
    /// Sleep for the given number of time units.
    Sleep(usize),
    /// Wait for the given event.
    Wait(usize),
    /// Wake every process that waits for the given event.
    Signal(usize),
    /// Terminate the running process.
    Exit,
}

/// Why the operating system stopped the running process.
#[derive(Clone, Copy, Debug, PartialEq, Eq, Structural)]
pub enum StopReason {
    /// The process made a system call, with `remaining` time units of its
    /// time slice left afterwards.
    Syscall { syscall: Syscall, remaining: usize },
    /// The time slice of the process is used up.
    Expired,
}

/// What the scheduler answers to a stop.
#[derive(Clone, Copy, Debug, PartialEq, Eq, Structural)]
pub enum SyscallResult {
    /// The identifier of a newly created process.
    Pid(Pid),
    /// The request was handled.
    Success,
    /// There was no running process to stop.
    NoRunningProcess,
}

/// What the operating system should do next.
#[derive(Clone, Copy, Debug, PartialEq, Eq, Structural)]
pub enum SchedulingDecision {
    /// Run the process `pid` for at most `timeslice` (a positive number of) time units.
    Run { pid: Pid, timeslice: usize },
    /// No process can run: sleep for the given positive number of time units.
    Sleep(usize),
    /// Nothing runs or sleeps, and some process waits for an event (a process
    /// may still hold the processor with an empty time slice, as for `Done`).
    Deadlock,
    /// The init process exited while other processes still existed.
    Panic,
    /// Nothing runs, sleeps or waits for an event: there are no processes
    /// left, or a process holds the processor with an empty time slice (and
    /// others may be ready). That happens under the fair policy when its share
    /// of the time slice rounds down to zero, and under any policy when a
    /// system call used up its time slice while the minimum remaining time
    /// slice is zero.
    Done,
}

/// A scheduler, as the operating system drives it.
pub trait Scheduler: View<V = ManagerView> + Sized {
    /// The process records the scheduler keeps.
    type Record: Process;

    /// The scheduling algorithm.
    spec fn policy() -> Policy;

    /// What the operating system should do next.
    fn next(&mut self) -> (decision: SchedulingDecision)
        ensures
            (final(self)@, decision) == old(self)@.next_step(Self::policy()),
            final(self)@.well_formed(),
            final(self)@.keeps_slice(Self::policy()),
    ;

    /// Whether `stop(reason)` can be handled without an arithmetic overflow.
    fn can_stop(&self, reason: StopReason) -> (r: bool)
        ensures
            r == self@.can_stop(reason),
    ;

    /// Tells the scheduler why the running process stopped.
    fn stop(&mut self, reason: StopReason) -> (result: SyscallResult)
        requires
            old(self)@.can_stop(reason),
        ensures
            (final(self)@, result) == old(self)@.scheduler_stop(Self::policy(), reason),
            final(self)@.well_formed(),
            final(self)@.keeps_slice(Self::policy()),
    ;

    /// All processes: the ready ones in queue order, the running one, the
    /// sleeping ones in order, then the waiting ones event by event (in an
    /// order of the events that the event map decides), each event's in
    /// order.
    fn list(&self) -> (r: Vec<&Self::Record>)
        ensures
            exists|order: Seq<usize>|
                {
                    &&& order.no_duplicates()
                    &&& order.to_set() == self@.waiting.dom()
                    &&& ref_infos(r@) == self@.ready + current_seq(self@.current) + self@.sleepers()
                        + waiters_in(self@, order)
                },
    ;
}

} // verus!
