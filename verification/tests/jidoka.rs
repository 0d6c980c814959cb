use wos_kernel::jidoka::{
    InvariantCheck, JidokaGuard, JidokaStatus, KernelStateView, MockKernelState, Severity,
    Violation, ViolationCategory, MAX_MEMORY_BYTES, MAX_PROCESSES, MAX_TOTAL_FDS, MAX_VMS,
    MAX_ZOMBIES,
};

#[test]
fn test_jidoka_guard_ok() {
    let mut guard = JidokaGuard::new();
    let state = MockKernelState::default();
    let status = guard.check(&state);
    assert!(status.is_ok());
}

#[test]
fn test_jidoka_process_limit() {
    let mut guard = JidokaGuard::new();
    let state = MockKernelState {
        process_count: MAX_PROCESSES + 1,
        ..Default::default()
    };
    let status = guard.check(&state);
    assert!(status.is_halt());

    let violations = status.violations().unwrap();
    assert_eq!(violations.len(), 1);
    assert_eq!(violations[0].category, ViolationCategory::Process);
    assert_eq!(violations[0].severity, Severity::Critical);
}

#[test]
fn test_jidoka_memory_limit() {
    let mut guard = JidokaGuard::new();
    let state = MockKernelState {
        memory_used: MAX_MEMORY_BYTES + 1,
        ..Default::default()
    };
    let status = guard.check(&state);
    assert!(status.is_halt());

    let violations = status.violations().unwrap();
    assert!(violations
        .iter()
        .any(|v| v.category == ViolationCategory::Memory));
}

#[test]
fn test_jidoka_zombie_limit() {
    let mut guard = JidokaGuard::new();
    let state = MockKernelState {
        zombie_count: MAX_ZOMBIES + 1,
        ..Default::default()
    };
    let status = guard.check(&state);
    assert!(status.is_halt());
}

#[test]
fn test_jidoka_orphan_detection() {
    let mut guard = JidokaGuard::new();
    let state = MockKernelState {
        has_orphans: true,
        ..Default::default()
    };
    let status = guard.check(&state);
    assert!(status.is_halt());
}

#[test]
fn test_jidoka_duplicate_pids() {
    let mut guard = JidokaGuard::new();
    let state = MockKernelState {
        duplicate_pids: true,
        ..Default::default()
    };
    let status = guard.check(&state);
    assert!(status.is_halt());

    let violations = status.violations().unwrap();
    assert!(violations
        .iter()
        .any(|v| v.message.contains("Duplicate PIDs")));
}

#[test]
fn test_jidoka_strict_mode() {
    let mut guard = JidokaGuard::strict();
    let state = MockKernelState {
        process_count: MAX_PROCESSES + 1,
        memory_used: MAX_MEMORY_BYTES + 1,
        ..Default::default()
    };
    let status = guard.check(&state);

    // Strict mode halts on first violation
    assert!(status.is_halt());
    let violations = status.violations().unwrap();
    assert_eq!(violations.len(), 1);
}

#[test]
fn test_jidoka_multiple_violations() {
    let mut guard = JidokaGuard::new();
    let state = MockKernelState {
        process_count: MAX_PROCESSES + 1,
        memory_used: MAX_MEMORY_BYTES + 1,
        zombie_count: MAX_ZOMBIES + 1,
        ..Default::default()
    };
    let status = guard.check(&state);
    assert!(status.is_halt());

    // Non-strict mode collects all violations
    let violations = status.violations().unwrap();
    assert!(violations.len() >= 3);
}

#[test]
fn test_violation_display() {
    let violation = Violation::new(
        ViolationCategory::Process,
        "Test violation",
        Severity::Critical,
    )
    .with_context("additional info");

    let display = violation.to_display_string();
    assert!(display.contains("Process"));
    assert!(display.contains("Test violation"));
    assert!(display.contains("additional info"));
}

#[test]
fn test_custom_check() {
    let mut guard = JidokaGuard::new();
    guard.add_check(InvariantCheck::Custom("custom_check".to_string()));

    let state = MockKernelState::default();
    let status = guard.check(&state);
    assert!(status.is_ok());
}

#[test]
fn test_severity_ordering() {
    assert!(Severity::Warning < Severity::Error);
    assert!(Severity::Error < Severity::Critical);
}

#[test]
fn test_jidoka_status_ok_violations() {
    let status = JidokaStatus::Healthy;
    assert!(status.is_ok());
    assert!(!status.is_halt());
    assert!(status.violations().is_none());
}

#[test]
fn test_jidoka_status_halt_violations() {
    let violations = vec![Violation::new(
        ViolationCategory::Process,
        "test",
        Severity::Critical,
    )];
    let status = JidokaStatus::Halt(violations.clone());
    assert!(!status.is_ok());
    assert!(status.is_halt());
    let got = status.violations().unwrap();
    assert_eq!(got.len(), 1);
}

#[test]
fn test_jidoka_fd_limit() {
    let mut guard = JidokaGuard::new();
    let state = MockKernelState {
        total_fds: MAX_TOTAL_FDS + 1,
        ..Default::default()
    };
    let status = guard.check(&state);
    assert!(status.is_halt());

    let violations = status.violations().unwrap();
    assert!(violations
        .iter()
        .any(|v| v.category == ViolationCategory::FileSystem));
}

#[test]
fn test_jidoka_vm_count_limit() {
    let mut guard = JidokaGuard::new();
    guard.add_check(InvariantCheck::VmCountLimit(MAX_VMS));

    let state = MockKernelState {
        vm_count: MAX_VMS + 1,
        ..Default::default()
    };
    let status = guard.check(&state);
    assert!(status.is_halt());

    let violations = status.violations().unwrap();
    assert!(violations
        .iter()
        .any(|v| v.category == ViolationCategory::Virtualization));
}

#[test]
fn test_jidoka_vm_memory_bounds() {
    let mut guard = JidokaGuard::new();
    guard.add_check(InvariantCheck::VmMemoryBounds);

    // Default MockKernelState returns true for vm_memory_within_bounds
    let state = MockKernelState::default();
    let status = guard.check(&state);
    assert!(status.is_ok());
}

#[test]
fn test_jidoka_deterministic_rng() {
    let mut guard = JidokaGuard::new();
    guard.add_check(InvariantCheck::DeterministicRng);

    // Default MockKernelState returns true for rng_state_valid
    let state = MockKernelState::default();
    let status = guard.check(&state);
    assert!(status.is_ok());
}

#[test]
fn test_jidoka_no_memory_overlaps() {
    let mut guard = JidokaGuard::new();
    guard.add_check(InvariantCheck::NoMemoryOverlaps);

    // Default MockKernelState returns false for has_memory_overlaps
    let state = MockKernelState::default();
    let status = guard.check(&state);
    assert!(status.is_ok());
}

#[test]
fn test_jidoka_consistent_memory_totals() {
    let mut guard = JidokaGuard::new();
    guard.add_check(InvariantCheck::ConsistentMemoryTotals);

    // Default MockKernelState returns true for memory_totals_consistent
    let state = MockKernelState::default();
    let status = guard.check(&state);
    assert!(status.is_ok());
}

#[test]
fn test_jidoka_scheduler_consistency() {
    let mut guard = JidokaGuard::new();
    guard.add_check(InvariantCheck::SchedulerConsistency);

    // Default MockKernelState returns true for scheduler_consistent
    let state = MockKernelState::default();
    let status = guard.check(&state);
    assert!(status.is_ok());
}

#[test]
fn test_jidoka_clear_violations() {
    let mut guard = JidokaGuard::new();
    let state = MockKernelState {
        process_count: MAX_PROCESSES + 1,
        ..Default::default()
    };

    let status = guard.check(&state);
    assert!(status.is_halt());
    assert!(!guard.violations().is_empty());

    guard.clear_violations();
    assert!(guard.violations().is_empty());
}

#[test]
fn test_violation_without_context() {
    let violation =
        Violation::new(ViolationCategory::Memory, "Memory error", Severity::Error);

    let display = violation.to_display_string();
    assert!(display.contains("Memory"));
    assert!(display.contains("Memory error"));
    assert!(!display.contains("(")); // No context parentheses
}

#[test]
fn test_invariant_check_equality() {
    let check1 = InvariantCheck::ProcessCountLimit(100);
    let check2 = InvariantCheck::ProcessCountLimit(100);
    assert_eq!(check1, check2);

    let check3 = InvariantCheck::Custom("test".to_string());
    let check4 = InvariantCheck::Custom("test".to_string());
    assert_eq!(check3, check4);
}

#[test]
fn test_mock_kernel_state_defaults() {
    let state = MockKernelState::default();

    assert_eq!(state.process_count(), 0);
    assert_eq!(state.memory_used(), 0);
    assert_eq!(state.total_fd_count(), 0);
    assert!(!state.has_orphan_processes());
    assert_eq!(state.zombie_count(), 0);
    assert_eq!(state.vm_count(), 0);
    assert!(state.vm_memory_within_bounds());
    assert!(state.rng_state_valid());
    assert!(state.all_pids_unique());
    assert!(!state.has_memory_overlaps());
    assert!(state.memory_totals_consistent());
    assert!(state.all_process_states_valid());
    assert!(state.scheduler_consistent());
}

#[test]
fn test_jidoka_guard_default() {
    let guard = JidokaGuard::default();
    assert!(guard.violations().is_empty());
}
