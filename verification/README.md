# scheduler

A process scheduler for a simulated operating system, verified with Verus.

The operating system tells the scheduler why it stopped the running process
(`Scheduler::stop`: a system call, or an expired time slice) and asks it what
to do next (`Scheduler::next`: run a process, sleep, report a deadlock, panic,
or finish). Three algorithms are available: Round Robin, Round Robin with
priorities, and a Completely Fair Scheduler.

Layout of `src/`:

- `lib.rs`: the requests and answers exchanged with the operating system,
  and the `Scheduler` trait.
- `process.rs`: `ProcessInfo`, what the scheduler keeps of a process as plain
  values, and the `Process` trait.
- `schedulers/model.rs`: `ManagerView`, the abstract state of a scheduler,
  its invariant, and one spec function per step (`next_step`, `stop_step`).
- `schedulers/process_manager.rs`: the state shared by all algorithms, the
  executable steps, each proved to match its spec function, and the choice of
  the next process (`ProcessInformation::run_chosen`).
- `schedulers/round_robin.rs`, `priority_queue.rs`, `cfs.rs`: the process
  records, which ready process each algorithm prefers (`runs_before`), and
  how each shares the time slice.
- `schedulers/invariants.rs`: proofs that every step keeps the invariant.
- `schedulers/laws.rs`: what holds of every run (fresh pids, no process lost,
  the clock never goes back, which process runs next, ...).

`app/` gives the schedulers `NonZeroUsize` constructors, refuses stops that
would overflow with a panic, and formats process records.
