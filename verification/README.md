# wos_kernel

The core of an educational microkernel, written in Verus: every function of
the library carries a contract that Verus proves.

- `src/` — the verified library:
  - `state.rs`: processes, their descriptors, messages and signals; pipes; the
    process table and the invariant queries that guards ask of it.
  - `syscall.rs`: the system call dispatcher, a pure function from a state
    and a call to the next state and an output; the process file system;
    and, for calls that need a file system, the kernel's part given what the
    file system answered.
  - `scheduler.rs`: round-robin and priority scheduling with aging, waking
    sleepers, and signal delivery.
  - `memory.rs`: page tables, the region layout, `mmap` and `munmap`.
  - `shm.rs`: shared memory segments and their manager.
  - `sync.rs`: mutexes and semaphores.
  - `signals.rs`, `jidoka.rs`, `trace.rs`, `apr_runtime.rs`, `text.rs`,
    `persistent.rs`: signals, invariant guards, time-travel history, replay
    results, text helpers, and the declarations of the `im` collections.
- `tests/` — the tests, run against the compiled library.
- `app/` — serde and thiserror forms of the library's types, JSON export of
  a history, and the hash of a state over its JSON text.

Among the laws the library proves (public proof functions named `law_*`, and
clauses of the functions' contracts): the dispatcher answers every call
from every state, refusing calls past the machine's limits with an error;
messages arrive in the order sent over any number of dispatched sends and
receives; exec records the program's path and arguments; signal delivery withholds blocked signals
and goes on with the next one; the ready queue holds each process once and
its round-robin position stays inside it; aging runs every queued process
within 48 + N calls of priority scheduling, N the number of queued entries;
`munmap` drops exactly the run's distinct pages, and undoes an `mmap`; a shared-memory
read gives back what a write wrote; stepping back and forth in the history
restores the state.
