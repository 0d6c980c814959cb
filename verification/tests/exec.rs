use wos_kernel::state::{KernelState, Process, ProcessState};
use wos_kernel::syscall::{exec_with_vfs, KernelError, SyscallOutput, VfsFailure};

#[test]
fn test_exec_basic() {
    let mut state = KernelState::new();
    let pid = state.allocate_pid();
    let proc = Process::new(pid, None);
    state.add_process(proc);

    // The file system holds the program's text.
    let content = b"#!/bin/sh\necho hello".to_vec();

    let result = exec_with_vfs(
        state.clone(),
        pid,
        "/bin/test_prog".to_string(),
        vec!["test_prog".to_string(), "arg1".to_string()],
        vec![("PATH".to_string(), "/bin".to_string())],
        Ok(content),
    );

    assert!(result.is_ok());
    let (new_state, output) = result.unwrap();
    assert_eq!(output, SyscallOutput::Success);

    let process = new_state.get_process(pid).unwrap();
    assert_eq!(process.memory.program_path, Some("/bin/test_prog".to_string()));
    assert_eq!(process.memory.program_args, vec!["test_prog".to_string(), "arg1".to_string()]);

    assert_eq!(process.env.get("PATH"), Some(&"/bin".to_string()));
    assert_eq!(process.env.get("_"), Some(&"/bin/test_prog".to_string()));
    assert_eq!(process.env.get("ARGC"), Some(&"2".to_string()));
    assert_eq!(process.env.get("ARG0"), Some(&"test_prog".to_string()));
    assert_eq!(process.env.get("ARG1"), Some(&"arg1".to_string()));

    assert_eq!(process.state, ProcessState::Ready);
}

#[test]
fn test_exec_preserves_pid() {
    let mut state = KernelState::new();
    let parent_pid = state.allocate_pid();
    let parent = Process::new(parent_pid, None);
    state.add_process(parent);

    let child_pid = state.allocate_pid();
    let child = Process::new(child_pid, Some(parent_pid));
    state.add_process(child);

    let result = exec_with_vfs(
        state.clone(),
        child_pid,
        "/bin/child_prog".to_string(),
        vec![],
        vec![],
        Ok(b"child code".to_vec()),
    );

    assert!(result.is_ok());
    let (new_state, _) = result.unwrap();

    let process = new_state.get_process(child_pid).unwrap();
    assert_eq!(process.pid, child_pid);
    assert_eq!(process.parent_pid, Some(parent_pid));
}

#[test]
fn test_exec_nonexistent_file() {
    let mut state = KernelState::new();
    let pid = state.allocate_pid();
    let proc = Process::new(pid, None);
    state.add_process(proc);

    let result = exec_with_vfs(state, pid, "/bin/nonexistent".to_string(), vec![], vec![], Err(VfsFailure::NotFound));

    assert!(result.is_err());
    assert!(matches!(result.unwrap_err(), KernelError::InvalidParameters(_)));
}

#[test]
fn test_exec_empty_file() {
    let mut state = KernelState::new();
    let pid = state.allocate_pid();
    let proc = Process::new(pid, None);
    state.add_process(proc);

    // The file exists and is empty.
    let result = exec_with_vfs(state, pid, "/bin/empty".to_string(), vec![], vec![], Ok(Vec::new()));

    assert!(result.is_err());
    assert!(matches!(result.unwrap_err(), KernelError::InvalidParameters(_)));
}

#[test]
fn test_exec_replaces_environment() {
    let mut state = KernelState::new();
    let pid = state.allocate_pid();
    let mut proc = Process::new(pid, None);
    proc.env.insert("OLD_VAR".to_string(), "old_value".to_string());
    state.add_process(proc);

    let result = exec_with_vfs(
        state,
        pid,
        "/bin/prog".to_string(),
        vec![],
        vec![("NEW_VAR".to_string(), "new_value".to_string())],
        Ok(b"program code".to_vec()),
    );

    assert!(result.is_ok());
    let (new_state, _) = result.unwrap();

    let process = new_state.get_process(pid).unwrap();
    assert_eq!(process.env.get("OLD_VAR"), None);
    assert_eq!(process.env.get("NEW_VAR"), Some(&"new_value".to_string()));
    assert_eq!(process.env.get("_"), Some(&"/bin/prog".to_string()));
    assert_eq!(process.env.get("ARGC"), Some(&"0".to_string()));
}

#[test]
fn test_exec_with_multiple_args() {
    let mut state = KernelState::new();
    let pid = state.allocate_pid();
    let proc = Process::new(pid, None);
    state.add_process(proc);

    let args = vec!["multi_arg".to_string(), "--flag".to_string(), "value1".to_string()];

    let result = exec_with_vfs(state, pid, "/bin/multi_arg".to_string(), args.clone(), vec![], Ok(b"code".to_vec()));

    assert!(result.is_ok());
    let (new_state, _) = result.unwrap();

    let process = new_state.get_process(pid).unwrap();
    assert_eq!(process.memory.program_args, args);
    assert_eq!(process.env.get("ARGC"), Some(&"3".to_string()));
    assert_eq!(process.env.get("ARG0"), Some(&"multi_arg".to_string()));
    assert_eq!(process.env.get("ARG1"), Some(&"--flag".to_string()));
    assert_eq!(process.env.get("ARG2"), Some(&"value1".to_string()));
}

#[test]
fn exec_by_unknown_process_is_refused_after_the_file_check() {
    let state = KernelState::new();
    assert_eq!(
        exec_with_vfs(state.clone(), 7, "/bin/p".to_string(), vec![], vec![], Ok(vec![1])).unwrap_err(),
        KernelError::ProcessNotFound(7)
    );
    assert_eq!(
        exec_with_vfs(state, 7, "/bin/p".to_string(), vec![], vec![], Ok(vec![])).unwrap_err(),
        KernelError::InvalidParameters("Empty executable: /bin/p".to_string())
    );
}

#[test]
fn exec_keeps_the_address_space() {
    let mut state = KernelState::new();
    let pid = state.allocate_pid();
    state.add_process(Process::new(pid, None));
    let addr = state.get_process_mut(pid).unwrap().memory.mmap(4096).unwrap();
    let (new_state, _) =
        exec_with_vfs(state, pid, "/bin/p".to_string(), vec!["p".to_string()], vec![], Ok(vec![1])).unwrap();
    let p = new_state.get_process(pid).unwrap();
    assert!(p.memory.is_mapped(wos_kernel::memory::VirtualMemory::vaddr_to_page(addr)));
    assert_eq!(p.memory.program_args, vec!["p".to_string()]);
}

#[test]
fn poppian_32_exec_fail() {
    let mut state = KernelState::new();
    let pid = state.allocate_pid();
    let proc = Process::new(pid, None);
    state.add_process(proc);

    // Try to exec non-existent binary
    let result = wos_kernel::syscall::dispatch_syscall(
        state,
        wos_kernel::syscall::SystemCall::Exec { path: "/nonexistent/binary".to_string(), args: vec![], env: vec![] },
        pid,
    );

    // Must return error, not panic
    assert!(result.is_err());
}
