use wos_kernel::jidoka::{JidokaGuard, KernelStateView, MAX_PROCESSES};
use wos_kernel::state::{KernelState, Process, ProcessState};

#[test]
fn test_kernel_state_creation() {
    let state = KernelState::new();
    assert_eq!(state.next_pid, 1);
    assert_eq!(state.process_count(), 0);
    assert_eq!(state.current_pid, None);
}

#[test]
fn test_kernel_state_with_init() {
    let state = KernelState::with_init();

    // Should have 2 processes: init (PID 1) and shell (PID 2)
    assert_eq!(state.process_count(), 2);
    assert_eq!(state.next_pid, 3);
    assert_eq!(state.current_pid, Some(2));

    // Verify init process (PID 1)
    let init = state.get_process(1).expect("init process should exist");
    assert_eq!(init.pid, 1);
    assert_eq!(init.parent_pid, None);
    assert!(init.is_runnable());

    // Verify shell process (PID 2)
    let shell = state.get_process(2).expect("shell process should exist");
    assert_eq!(shell.pid, 2);
    assert_eq!(shell.parent_pid, Some(1));
    assert!(shell.is_runnable());
}

#[test]
fn test_process_creation() {
    let proc = Process::new(1, None);
    assert_eq!(proc.pid, 1);
    assert_eq!(proc.state, ProcessState::Ready);
    assert_eq!(proc.parent_pid, None);
    assert!(proc.is_runnable());
    assert!(!proc.is_terminated());
}

#[test]
fn test_process_state_transitions() {
    let mut proc = Process::new(1, None);

    // Ready -> Running
    proc.state = ProcessState::Running;
    assert!(proc.is_runnable());
    assert!(!proc.is_terminated());

    // Running -> Blocked
    proc.state = ProcessState::Blocked;
    assert!(!proc.is_runnable());
    assert!(!proc.is_terminated());

    // Blocked -> Ready
    proc.state = ProcessState::Ready;
    assert!(proc.is_runnable());
    assert!(!proc.is_terminated());

    // Running -> Terminated
    proc.state = ProcessState::Terminated(0);
    assert!(!proc.is_runnable());
    assert!(proc.is_terminated());
}

#[test]
fn test_kernel_state_add_process() {
    let mut state = KernelState::new();
    let pid = state.allocate_pid();
    let proc = Process::new(pid, None);

    state.add_process(proc.clone());
    assert_eq!(state.process_count(), 1);
    assert_eq!(state.get_process(pid), Some(&proc));
}

#[test]
fn test_kernel_state_remove_process() {
    let mut state = KernelState::new();
    let pid = state.allocate_pid();
    let proc = Process::new(pid, None);

    state.add_process(proc.clone());
    assert_eq!(state.process_count(), 1);

    let removed = state.remove_process(pid);
    assert_eq!(removed, Some(proc));
    assert_eq!(state.process_count(), 0);
}

#[test]
fn test_kernel_state_clone_cheap() {
    let mut state = KernelState::new();

    // Add 100 processes
    for _ in 0..100 {
        let pid = state.allocate_pid();
        let proc = Process::new(pid, None);
        state.add_process(proc);
    }

    // Clone should be O(1) with im-rs
    let state2 = state.clone();
    assert_eq!(state.process_count(), state2.process_count());
    assert_eq!(state, state2);
}

#[test]
fn test_kernel_state_default() {
    let state1 = KernelState::default();
    let state2 = KernelState::new();
    assert_eq!(state1.process_count(), state2.process_count());
    assert_eq!(state1.process_count(), 0);
}

#[test]
fn test_kernel_state_view_empty() {
    let state = KernelState::new();
    assert_eq!(state.process_count(), 0);
    assert_eq!(state.memory_used(), 0);
    assert_eq!(state.total_fd_count(), 0);
    assert!(!state.has_orphan_processes());
    assert_eq!(state.zombie_count(), 0);
    assert_eq!(state.vm_count(), 0);
    assert!(state.vm_memory_within_bounds());
    assert!(state.rng_state_valid());
    assert!(state.all_pids_unique());
    assert!(!state.has_memory_overlaps());
    assert!(state.memory_totals_consistent());
    assert!(state.all_process_states_valid());
    assert!(state.scheduler_consistent());
}

#[test]
fn test_kernel_state_view_with_processes() {
    let mut state = KernelState::new();

    // Add a process
    let pid = state.allocate_pid();
    let mut proc = Process::new(pid, None);
    proc.memory_pages = vec![1, 2, 3]; // 3 pages = 12KB
    state.add_process(proc);

    assert_eq!(state.process_count(), 1);
    assert_eq!(state.memory_used(), 3 * 4096);
    assert_eq!(state.total_fd_count(), 3); // stdin, stdout, stderr
}

#[test]
fn test_kernel_state_view_zombie_count() {
    let mut state = KernelState::new();

    // Add terminated process (zombie)
    let pid = state.allocate_pid();
    let mut proc = Process::new(pid, None);
    proc.state = ProcessState::Terminated(0);
    state.add_process(proc);

    assert_eq!(state.zombie_count(), 1);
}

#[test]
fn test_kernel_state_view_orphan_detection() {
    let mut state = KernelState::new();

    // Add process with non-existent parent
    let pid = state.allocate_pid();
    let proc = Process::new(pid, Some(9999)); // Parent doesn't exist
    state.add_process(proc);

    assert!(state.has_orphan_processes());
}

#[test]
fn test_kernel_state_view_memory_overlaps() {
    let mut state = KernelState::new();

    // Add process with duplicate pages
    let pid = state.allocate_pid();
    let mut proc = Process::new(pid, None);
    proc.memory_pages = vec![1, 2, 1]; // Duplicate page 1
    state.add_process(proc);

    assert!(state.has_memory_overlaps());
}

#[test]
fn test_kernel_state_view_scheduler_consistency() {
    let mut state = KernelState::new();

    // Add running process without setting current_pid
    let pid = state.allocate_pid();
    let mut proc = Process::new(pid, None);
    proc.state = ProcessState::Running;
    state.add_process(proc);

    // Inconsistent: running process but no current_pid
    assert!(!state.scheduler_consistent());

    // Fix by setting current_pid
    state.current_pid = Some(pid);
    assert!(state.scheduler_consistent());
}

#[test]
fn test_kernel_state_view_process_states_valid() {
    let mut state = KernelState::new();

    // Add process and set it as running
    let pid = state.allocate_pid();
    let mut proc = Process::new(pid, None);
    proc.state = ProcessState::Running;
    state.add_process(proc);
    state.current_pid = Some(pid);

    assert!(state.all_process_states_valid());

    // Now add another running process (invalid)
    let pid2 = state.allocate_pid();
    let mut proc2 = Process::new(pid2, None);
    proc2.state = ProcessState::Running;
    state.add_process(proc2);

    // Two running processes is invalid
    assert!(!state.scheduler_consistent());
}

#[test]
fn test_jidoka_guard_with_kernel_state() {
    let mut guard = JidokaGuard::new();
    let state = KernelState::new();

    let status = guard.check(&state);
    assert!(status.is_ok());
}

#[test]
fn test_jidoka_guard_process_limit() {
    let mut guard = JidokaGuard::new();
    let mut state = KernelState::new();

    // Add too many processes
    for _ in 0..=MAX_PROCESSES {
        let pid = state.allocate_pid();
        let proc = Process::new(pid, None);
        state.add_process(proc);
    }

    let status = guard.check(&state);
    assert!(status.is_halt());
}

#[test]
fn test_jidoka_guard_detects_orphans() {
    let mut guard = JidokaGuard::new();
    let mut state = KernelState::new();

    // Add orphan process
    let pid = state.allocate_pid();
    let proc = Process::new(pid, Some(9999));
    state.add_process(proc);

    let status = guard.check(&state);
    assert!(status.is_halt());
}

#[test]
fn test_jidoka_guard_with_init_state() {
    let mut guard = JidokaGuard::new();
    let mut state = KernelState::with_init();

    // with_init creates processes without proper state management
    // Set the current process to running for consistency
    if let Some(current) = state.current_pid {
        if let Some(proc) = state.get_process_mut(current) {
            proc.state = ProcessState::Running;
        }
    }

    let status = guard.check(&state);
    // Should be ok now with proper state
    assert!(
        status.is_ok(),
        "Jidoka check failed: {:?}",
        status.violations()
    );
}
