//! WOS microkernel core: process table, scheduling, virtual memory,
//! signals, synchronisation, shared memory, system-call dispatch and
//! invariant guards, each stated and proved with Verus.

pub mod apr_runtime;
pub mod jidoka;
pub mod memory;
pub mod persistent;
pub mod scheduler;
pub mod shm;
pub mod signals;
pub mod state;
pub mod sync;
pub mod syscall;
pub mod text;
pub mod trace;

pub use apr_runtime::AprExecutionResult;
pub use jidoka::{
    InvariantCheck, JidokaGuard, JidokaStatus, KernelStateView, MockKernelState, Severity,
    Violation, ViolationCategory, MAX_FDS_PER_PROCESS, MAX_MEMORY_BYTES, MAX_PROCESSES,
    MAX_TOTAL_FDS, MAX_VMS, MAX_ZOMBIES,
};
pub use memory::{
    MemoryLayout, MemoryRegion, PagePermissions, PhysicalAddress, PhysicalPage, VirtualAddress,
    VirtualMemory, VirtualPage, PAGE_SIZE,
};
pub use scheduler::Scheduler;
pub use shm::{ProcessMapping, SharedMemoryId, SharedMemoryManager, SharedMemorySegment};
pub use signals::{Signal, SignalAction, SignalSet};
pub use state::{FileDescriptor, KernelState, Message, Process, ProcessId, ProcessState};
pub use sync::{
    Mutex, MutexId, MutexLockResult, MutexState, Semaphore, SemaphoreId, SemaphoreWaitResult,
    SyncManager,
};
pub use syscall::{dispatch_syscall, KernelError, SyscallOutput, SyscallResult, SystemCall};
pub use trace::{KernelHistory, SystemCallTrace};


use vstd::prelude::*;

verus! {

/// The kernel's version string.
pub fn kernel_version() -> (r: &'static str)
    ensures
        r@ == "0.1.0"@,
{
    "0.1.0"
}

} // verus!
