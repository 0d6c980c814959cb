//! System call dispatcher: a pure function from a kernel state and a
//! system call to the next state and the call's output, or an error.

use crate::memory::{mmap_outcome, munmap_outcome, pages_for, run_walk_fits};
use crate::signals::{signal_from_number, signal_number, Signal, SignalAction, SignalSet};
use crate::state::{
    fd_table_insert, message_queue_is_empty, message_queue_push_back, message_queue_remove_front,
    pipe_table_get, pipe_table_insert, pipe_table_remove, handler_table_insert, same_contents,
    process_table_contains,
    KernelState, Message, PipeBuffer, Process, ProcessId, ProcessState,
};
use crate::text::{
    chars_of, decimal, find_slash, has_prefix, next_slash, parse_u32, parse_u32_in, push_decimal,
    starts_with, text,
};
use vstd::prelude::*;
use vstd::utf8::encode_utf8;

verus! {

/// Open flags: create the file if it does not exist
pub const O_CREAT: u32 = 0x0040;

/// `serde_json::Value`, a JSON value, carried in system call outputs.
#[verifier::external_type_specification]
#[verifier::external_body]
pub struct ExJsonValue(serde_json::Value);

/// System call error types
#[derive(Debug, Clone, PartialEq, Eq)]
pub enum KernelError {
    /// Process not found
    ProcessNotFound(ProcessId),
    /// Invalid process state
    InvalidProcessState,
    /// Invalid system call parameters
    InvalidParameters(String),
    /// Resource exhausted (e.g., PID space)
    ResourceExhausted(String),
    /// Permission denied
    PermissionDenied,
    /// File not found
    FileNotFound(String),
    /// File already exists
    FileAlreadyExists(String),
    /// Invalid file descriptor
    InvalidFileDescriptor(u32),
    /// Invalid signal number
    InvalidSignal(u32),
    /// Not implemented yet
    NotImplemented,
}

/// The message of an error.
pub open spec fn error_text(e: KernelError) -> Seq<char> {
    match e {
        KernelError::ProcessNotFound(p) => "Process not found: "@ + decimal(p as nat),
        KernelError::InvalidProcessState => "Invalid process state for operation"@,
        KernelError::InvalidParameters(s) => "Invalid system call parameters: "@ + s@,
        KernelError::ResourceExhausted(s) => "Resource exhausted: "@ + s@,
        KernelError::PermissionDenied => "Permission denied"@,
        KernelError::FileNotFound(s) => "File not found: "@ + s@,
        KernelError::FileAlreadyExists(s) => "File already exists: "@ + s@,
        KernelError::InvalidFileDescriptor(fd) => "Invalid file descriptor: "@ + decimal(fd as nat),
        KernelError::InvalidSignal(n) => "Invalid signal number: "@ + decimal(n as nat),
        KernelError::NotImplemented => "System call not implemented"@,
    }
}

impl KernelError {
    /// The error's message.
    pub fn to_display_string(&self) -> (r: String)
        ensures
            r@ == error_text(*self),
    {
        match self {
            KernelError::ProcessNotFound(p) => {
                let mut s = text("Process not found: ");
                push_decimal(&mut s, *p as u64);
                s
            },
            KernelError::InvalidProcessState => text("Invalid process state for operation"),
            KernelError::InvalidParameters(m) => {
                let mut s = text("Invalid system call parameters: ");
                s.append(m.as_str());
                s
            },
            KernelError::ResourceExhausted(m) => {
                let mut s = text("Resource exhausted: ");
                s.append(m.as_str());
                s
            },
            KernelError::PermissionDenied => text("Permission denied"),
            KernelError::FileNotFound(m) => {
                let mut s = text("File not found: ");
                s.append(m.as_str());
                s
            },
            KernelError::FileAlreadyExists(m) => {
                let mut s = text("File already exists: ");
                s.append(m.as_str());
                s
            },
            KernelError::InvalidFileDescriptor(fd) => {
                let mut s = text("Invalid file descriptor: ");
                push_decimal(&mut s, *fd as u64);
                s
            },
            KernelError::InvalidSignal(n) => {
                let mut s = text("Invalid signal number: ");
                push_decimal(&mut s, *n as u64);
                s
            },
            KernelError::NotImplemented => text("System call not implemented"),
        }
    }
}

/// System call variants
#[derive(Debug, Clone, PartialEq, Eq)]
pub enum SystemCall {
    /// Get current process ID
    GetPid,
    /// Fork current process (create child)
    Fork,
    /// Exit current process with code
    Exit(i32),
    /// Replace current process image with new program
    Exec {
        /// Path to executable
        path: String,
        /// Command-line arguments (argv)
        args: Vec<String>,
        /// Environment variables
        env: Vec<(String, String)>,
    },
    /// Wait for child process
    WaitPid(ProcessId),
    /// Sleep for microseconds
    Sleep(u64),
    /// Send signal to process
    Kill {
        /// Target process ID
        pid: ProcessId,
        /// Signal to send
        signal: u32,
    },
    /// Open file
    Open {
        /// Path to file
        path: String,
        /// Flags (read, write, create, etc.)
        flags: u32,
    },
    /// Close file descriptor
    Close {
        /// File descriptor to close
        fd: u32,
    },
    /// Read from file descriptor
    Read {
        /// File descriptor
        fd: u32,
        /// Number of bytes to read
        count: usize,
    },
    /// Write to file descriptor
    Write {
        /// File descriptor
        fd: u32,
        /// Data to write
        data: Vec<u8>,
    },
    /// Allocate memory (mmap)
    Mmap {
        /// Size in bytes
        size: usize,
    },
    /// Free memory (munmap)
    Munmap {
        /// Address to free
        addr: u64,
        /// Size in bytes
        size: usize,
    },
    /// Send message to another process
    Send {
        /// Target process ID
        target_pid: ProcessId,
        /// Message payload
        data: Vec<u8>,
    },
    /// Receive message (blocking)
    Recv {
        /// Timeout in microseconds (0 = no timeout)
        timeout: u64,
    },
    /// Create a pipe (returns read and write file descriptors)
    Pipe,
    /// Duplicate file descriptor
    Dup2 {
        /// Old file descriptor
        oldfd: u32,
        /// New file descriptor
        newfd: u32,
    },
    /// Create directory
    Mkdir {
        /// Path to directory
        path: String,
        /// Mode (permissions)
        mode: u32,
    },
    /// Remove empty directory
    Rmdir {
        /// Path to directory
        path: String,
    },
    /// Read directory entries
    Getdents {
        /// File descriptor of open directory
        fd: u32,
    },
    /// Get file status (metadata)
    Stat {
        /// Path to file or directory
        path: String,
    },
    /// Get file status without following symlinks
    Lstat {
        /// Path to file or directory
        path: String,
    },
    /// Get canonical absolute path (resolve ., .., //, etc.)
    Realpath {
        /// Path to canonicalize
        path: String,
    },
    /// Change file permissions
    Chmod {
        /// Path to file or directory
        path: String,
        /// New permission mode bits (e.g., 0o644)
        mode: u32,
    },
    /// Change file ownership
    Chown {
        /// Path to file or directory
        path: String,
        /// New user ID (None means don't change)
        uid: Option<u32>,
        /// New group ID (None means don't change)
        gid: Option<u32>,
    },
    /// Check file access permissions
    Access {
        /// Path to file or directory
        path: String,
        /// Access mode to check (F_OK=0, R_OK=4, W_OK=2, X_OK=1)
        mode: u32,
    },
    /// Create symbolic link
    Symlink {
        /// Path where the symlink will be created
        link_path: String,
        /// Target path that the symlink points to
        target: String,
    },
    /// Read symbolic link target
    Readlink {
        /// Path to symbolic link
        path: String,
    },
    /// Register signal handler (sigaction)
    Sigaction {
        /// Signal number to handle
        signal: u32,
        /// Action to take (Terminate, Ignore, or Handler ID)
        action: SignalAction,
    },
    /// Block or unblock signals (sigprocmask)
    Sigprocmask {
        /// Signals to add to blocked set
        block: Vec<u32>,
        /// Signals to remove from blocked set
        unblock: Vec<u32>,
    },
    /// Load APR model for deterministic replay
    LoadApr {
        /// APR model JSON
        model_json: String,
    },
    /// Execute one step of APR model
    AprStep {
        /// APR handle from LoadApr
        handle: u32,
    },
    /// Get APR execution status
    AprStatus {
        /// APR handle from LoadApr
        handle: u32,
    },
    /// Create a new virtual machine
    VmCreate {
        /// VM configuration as JSON
        config_json: String,
    },
    /// Start a virtual machine
    VmStart {
        /// VM ID to start
        vm_id: u32,
    },
    /// Stop a virtual machine
    VmStop {
        /// VM ID to stop
        vm_id: u32,
        /// Exit code
        exit_code: i32,
    },
    /// Get VM status
    VmStatus {
        /// VM ID to query
        vm_id: u32,
    },
    /// List all VMs
    VmList,
}

/// System call output
#[derive(Debug, PartialEq, Eq)]
pub enum SyscallOutput {
    /// Process ID
    Pid(ProcessId),
    /// Success with no data
    Success,
    /// Integer value
    Value(i32),
    /// Byte data
    Data(Vec<u8>),
    /// Address (for mmap)
    Address(u64),
    /// File descriptor
    FileDescriptor(u32),
    /// Pipe file descriptors (read_fd, write_fd)
    Pipe {
        /// Read file descriptor
        read_fd: u32,
        /// Write file descriptor
        write_fd: u32,
    },
    /// APR handle for deterministic replay
    AprHandle(u32),
    /// APR step result
    AprStepResult {
        /// Whether execution finished
        finished: bool,
        /// Output data as JSON
        output_json: Option<String>,
    },
    /// APR status
    AprStatus {
        /// Whether runtime is active
        active: bool,
        /// Whether execution finished
        finished: bool,
        /// Steps executed so far
        steps_executed: u64,
        /// Current tick
        current_tick: u64,
    },
    /// VM ID returned from VmCreate
    VmId(u32),
    /// VM status information
    VmStatusInfo {
        /// VM ID
        id: u32,
        /// VM state
        state: String,
        /// Memory size in bytes
        memory_size: usize,
        /// Virtual CPUs
        vcpu_count: u32,
    },
    /// List of VM statuses
    VmListResult(Vec<serde_json::Value>),
}

/// `Vec::clone` on a list of JSON values: a list of the same length.
#[verifier::external_body]
fn json_list_clone(v: &Vec<serde_json::Value>) -> (r: Vec<serde_json::Value>)
    ensures
        r@.len() == v@.len(),
{
    v.clone()
}

/// `b` is a copy of `a`: the same variant and fields, byte data with the same
/// bytes, and a list of JSON values of the same length.
pub open spec fn output_copy(a: SyscallOutput, b: SyscallOutput) -> bool {
    match (a, b) {
        (SyscallOutput::Data(d), SyscallOutput::Data(e)) => d@ == e@,
        (SyscallOutput::AprStepResult { finished: f, output_json: o }, SyscallOutput::AprStepResult { finished: g, output_json: q }) => f == g && o == q,
        (SyscallOutput::VmStatusInfo { id: i, state: s, memory_size: m, vcpu_count: c }, SyscallOutput::VmStatusInfo { id: j, state: t, memory_size: n, vcpu_count: d }) => i == j && s@ == t@ && m == n && c == d,
        (SyscallOutput::VmListResult(l), SyscallOutput::VmListResult(m)) => l@.len() == m@.len(),
        _ => a == b,
    }
}

impl Clone for SyscallOutput {
    fn clone(&self) -> (r: Self)
        ensures
            output_copy(*self, r),
    {
        match self {
            SyscallOutput::Pid(p) => SyscallOutput::Pid(*p),
            SyscallOutput::Success => SyscallOutput::Success,
            SyscallOutput::Value(v) => SyscallOutput::Value(*v),
            SyscallOutput::Data(d) => SyscallOutput::Data(d.clone()),
            SyscallOutput::Address(a) => SyscallOutput::Address(*a),
            SyscallOutput::FileDescriptor(fd) => SyscallOutput::FileDescriptor(*fd),
            SyscallOutput::Pipe { read_fd, write_fd } => SyscallOutput::Pipe { read_fd: *read_fd, write_fd: *write_fd },
            SyscallOutput::AprHandle(h) => SyscallOutput::AprHandle(*h),
            SyscallOutput::AprStepResult { finished, output_json } => SyscallOutput::AprStepResult {
                finished: *finished,
                output_json: output_json.clone(),
            },
            SyscallOutput::AprStatus { active, finished, steps_executed, current_tick } => SyscallOutput::AprStatus {
                active: *active,
                finished: *finished,
                steps_executed: *steps_executed,
                current_tick: *current_tick,
            },
            SyscallOutput::VmId(v) => SyscallOutput::VmId(*v),
            SyscallOutput::VmStatusInfo { id, state, memory_size, vcpu_count } => SyscallOutput::VmStatusInfo {
                id: *id,
                state: state.clone(),
                memory_size: *memory_size,
                vcpu_count: *vcpu_count,
            },
            SyscallOutput::VmListResult(l) => SyscallOutput::VmListResult(json_list_clone(l)),
        }
    }
}


// ---------------------------------------------------------------------------
// What the virtual file system answers
// ---------------------------------------------------------------------------

/// Why the virtual file system refused a request, as the kernel tells the
/// cases apart; `Other` holds the debug text of any other refusal.
#[derive(Debug, Clone, PartialEq, Eq)]
pub enum VfsFailure {
    /// No such file or directory
    NotFound,
    /// Access refused
    PermissionDenied,
    /// The path is taken
    AlreadyExists,
    /// A directory to remove still has entries
    DirectoryNotEmpty,
    /// The path is no directory
    NotADirectory,
    /// The path is malformed
    InvalidPath,
    /// Any other refusal, by its debug text
    Other(String),
}

/// The debug text of a refusal.
pub open spec fn failure_text(f: VfsFailure) -> Seq<char> {
    match f {
        VfsFailure::NotFound => "NotFound"@,
        VfsFailure::PermissionDenied => "PermissionDenied"@,
        VfsFailure::AlreadyExists => "AlreadyExists"@,
        VfsFailure::DirectoryNotEmpty => "DirectoryNotEmpty"@,
        VfsFailure::NotADirectory => "NotADirectory"@,
        VfsFailure::InvalidPath => "InvalidPath"@,
        VfsFailure::Other(s) => s@,
    }
}

impl VfsFailure {
    /// The debug text of the refusal.
    pub fn debug_text(&self) -> (r: String)
        ensures
            r@ == failure_text(*self),
    {
        match self {
            VfsFailure::NotFound => text("NotFound"),
            VfsFailure::PermissionDenied => text("PermissionDenied"),
            VfsFailure::AlreadyExists => text("AlreadyExists"),
            VfsFailure::DirectoryNotEmpty => text("DirectoryNotEmpty"),
            VfsFailure::NotADirectory => text("NotADirectory"),
            VfsFailure::InvalidPath => text("InvalidPath"),
            VfsFailure::Other(s) => s.clone(),
        }
    }
}

/// `prefix` followed by the debug text of `f`.
fn failure_message(prefix: &str, f: &VfsFailure) -> (r: String)
    ensures
        r@ == prefix@ + failure_text(*f),
{
    let mut m = text(prefix);
    let t = f.debug_text();
    m.append(t.as_str());
    m
}

// ---------------------------------------------------------------------------
// Byte helpers
// ---------------------------------------------------------------------------

/// At most `count` leading bytes of `b`.
pub open spec fn clip(b: Seq<u8>, count: usize) -> Seq<u8> {
    if count < b.len() {
        b.take(count as int)
    } else {
        b
    }
}

/// A copy of at most `count` leading bytes.
fn clipped(v: &Vec<u8>, count: usize) -> (r: Vec<u8>)
    ensures
        r@ == clip(v@, count),
{
    let n = if count < v.len() {
        count
    } else {
        v.len()
    };
    let mut r: Vec<u8> = Vec::new();
    let mut i: usize = 0;
    while i < n
        invariant
            i <= n <= v.len(),
            n == (if count < v.len() { count } else { v.len() }),
            r@ == v@.take(i as int),
        decreases n - i,
    {
        r.push(v[i]);
        i = i + 1;
        assert(r@ =~= v@.take(i as int));
    }
    assert(r@ =~= clip(v@, count));
    r
}

/// Appends the bytes of `data` to `v`.
fn append_bytes(v: &mut Vec<u8>, data: &Vec<u8>)
    ensures
        final(v)@ == old(v)@ + data@,
{
    let mut i: usize = 0;
    while i < data.len()
        invariant
            i <= data.len(),
            v@ == old(v)@ + data@.take(i as int),
        decreases data.len() - i,
    {
        v.push(data[i]);
        i = i + 1;
        assert(v@ =~= old(v)@ + data@.take(i as int));
    }
    assert(data@.take(data@.len() as int) =~= data@);
}

// ---------------------------------------------------------------------------
// The process file system
// ---------------------------------------------------------------------------

/// The name a process state is shown by in `/proc/PID/status`.
pub open spec fn state_name(s: ProcessState) -> Seq<char> {
    match s {
        ProcessState::Ready => "Ready"@,
        ProcessState::Running => "Running"@,
        ProcessState::Blocked => "Blocked"@,
        ProcessState::Terminated(_) => "Terminated"@,
    }
}

/// The name of a process state.
fn state_str(s: ProcessState) -> (r: &'static str)
    ensures
        r@ == state_name(s),
{
    match s {
        ProcessState::Ready => "Ready",
        ProcessState::Running => "Running",
        ProcessState::Blocked => "Blocked",
        ProcessState::Terminated(_) => "Terminated",
    }
}

/// The parent shown for a process: its parent's identifier, or 0.
pub open spec fn shown_parent(p: Process) -> u32 {
    match p.parent_pid {
        Some(pp) => pp,
        None => 0,
    }
}

/// The text of `/proc/PID/status` for process `p` with identifier `pid`.
pub open spec fn proc_status_text(p: Process, pid: ProcessId) -> Seq<char> {
    "Pid:\t"@ + decimal(pid as nat) + "\nState:\t"@ + state_name(p.state) + "\nPPid:\t"@
        + decimal(shown_parent(p) as nat) + "\nMemoryPages:\t"@ + decimal(p.memory_pages@.len())
        + "\n"@
}

/// The text of `/proc/PID/cmdline` for the process with identifier `pid`.
pub open spec fn proc_cmdline_text(pid: ProcessId) -> Seq<char> {
    "process_"@ + decimal(pid as nat) + "\0"@
}

/// What reading `/proc/PID/status` gives: the status text as UTF-8 bytes, or
/// `FileNotFound` naming the path when there is no such process.
pub open spec fn proc_status_result(state: KernelState, pid: ProcessId, r: Result<Vec<u8>, KernelError>) -> bool {
    if state.procs().dom().contains(pid) {
        r matches Ok(v) && v@ == encode_utf8(proc_status_text(state.procs()[pid], pid))
    } else {
        r matches Err(KernelError::FileNotFound(m)) && m@ == "/proc/"@ + decimal(pid as nat) + "/status"@
    }
}

/// What reading `/proc/PID/cmdline` gives.
pub open spec fn proc_cmdline_result(state: KernelState, pid: ProcessId, r: Result<Vec<u8>, KernelError>) -> bool {
    if state.procs().dom().contains(pid) {
        r matches Ok(v) && v@ == encode_utf8(proc_cmdline_text(pid))
    } else {
        r matches Err(KernelError::FileNotFound(m)) && m@ == "/proc/"@ + decimal(pid as nat) + "/cmdline"@
    }
}

/// Generate /proc/PID/status content
fn generate_proc_status(state: &KernelState, pid: ProcessId) -> (r: Result<Vec<u8>, KernelError>)
    ensures
        proc_status_result(*state, pid, r),
{
    let process = match state.get_process(pid) {
        Some(p) => p,
        None => {
            let mut m = text("/proc/");
            push_decimal(&mut m, pid as u64);
            m.append("/status");
            return Err(KernelError::FileNotFound(m));
        },
    };
    let parent_pid: u32 = match process.parent_pid {
        Some(pp) => pp,
        None => 0,
    };
    let mut s = text("Pid:\t");
    push_decimal(&mut s, pid as u64);
    s.append("\nState:\t");
    s.append(state_str(process.state));
    s.append("\nPPid:\t");
    push_decimal(&mut s, parent_pid as u64);
    s.append("\nMemoryPages:\t");
    push_decimal(&mut s, process.memory_pages.len() as u64);
    s.append("\n");
    Ok(s.as_str().as_bytes_vec())
}

/// Generate /proc/PID/cmdline content
fn generate_proc_cmdline(state: &KernelState, pid: ProcessId) -> (r: Result<Vec<u8>, KernelError>)
    ensures
        proc_cmdline_result(*state, pid, r),
{
    if !process_table_contains(&state.processes, pid) {
        let mut m = text("/proc/");
        push_decimal(&mut m, pid as u64);
        m.append("/cmdline");
        return Err(KernelError::FileNotFound(m));
    }
    let mut s = text("process_");
    push_decimal(&mut s, pid as u64);
    s.append("\0");
    Ok(s.as_str().as_bytes_vec())
}

/// The path a process file system read goes to: `/proc/self/...` names the
/// calling process.
pub open spec fn procfs_path(path: Seq<char>, calling_pid: ProcessId) -> Seq<char> {
    if has_prefix(path, "/proc/self/"@) {
        "/proc/"@ + decimal(calling_pid as nat) + "/"@ + path.subrange(11, path.len() as int)
    } else {
        path
    }
}

/// The process and file a `/proc/PID/FILE...` path names: the text between
/// the second and third `'/'` read as a process identifier, and the text
/// between the third and the fourth (or the end). `None` when the path is
/// not under `/proc/`, has fewer parts, or the identifier does not parse.
pub open spec fn procfs_request(q: Seq<char>) -> Option<(ProcessId, Seq<char>)> {
    if has_prefix(q, "/proc/"@) {
        let a = next_slash(q, 6);
        if a < q.len() {
            match parse_u32(q.subrange(6, a)) {
                Some(n) => Some((n, q.subrange(a + 1, next_slash(q, a + 1)))),
                None => None,
            }
        } else {
            None
        }
    } else {
        None
    }
}

/// What a process file system read of path `q` gives: `None` when `q` is no
/// process file; the status or command line of the named process; and
/// `FileNotFound` naming `q` for any other file.
pub open spec fn procfs_result(state: KernelState, q: Seq<char>, r: Option<Result<Vec<u8>, KernelError>>) -> bool {
    match procfs_request(q) {
        None => r is None,
        Some((n, file)) => if file == "status"@ {
            r matches Some(res) && proc_status_result(state, n, res)
        } else if file == "cmdline"@ {
            r matches Some(res) && proc_cmdline_result(state, n, res)
        } else {
            r matches Some(Err(KernelError::FileNotFound(m))) && m@ == q
        },
    }
}

/// Whether `s[lo..hi]` is the text `p`.
fn range_is(s: &Vec<char>, lo: usize, hi: usize, p: &Vec<char>) -> (r: bool)
    requires
        lo <= hi <= s.len(),
    ensures
        r == (s@.subrange(lo as int, hi as int) == p@),
{
    if hi - lo != p.len() {
        return false;
    }
    let mut i: usize = 0;
    while i < p.len()
        invariant
            lo <= hi <= s.len(),
            hi - lo == p.len(),
            i <= p.len(),
            forall|k: int| 0 <= k < i ==> s@[lo + k] == p@[k],
        decreases p.len() - i,
    {
        if s[lo + i] != p[i] {
            assert(s@.subrange(lo as int, hi as int)[i as int] != p@[i as int]);
            return false;
        }
        i = i + 1;
    }
    assert(s@.subrange(lo as int, hi as int) =~= p@);
    true
}

/// Reads the process file at path `q`, if `q` names one.
fn read_procfs_at(state: &KernelState, q: String) -> (r: Option<Result<Vec<u8>, KernelError>>)
    ensures
        procfs_result(*state, q@, r),
{
    let c = chars_of(q.as_str());
    let proc_prefix = chars_of("/proc/");
    proof {
        reveal_strlit("/proc/");
    }
    if !starts_with(&c, &proc_prefix) {
        return None;
    }
    let a = find_slash(&c, 6);
    if a == c.len() {
        return None;
    }
    let n = match parse_u32_in(&c, 6, a) {
        Some(n) => n,
        None => return None,
    };
    let b = find_slash(&c, a + 1);
    if range_is(&c, a + 1, b, &chars_of("status")) {
        Some(generate_proc_status(state, n))
    } else if range_is(&c, a + 1, b, &chars_of("cmdline")) {
        Some(generate_proc_cmdline(state, n))
    } else {
        Some(Err(KernelError::FileNotFound(q)))
    }
}

/// Check if path is a ProcFS path and generate content
fn try_read_procfs(state: &KernelState, path: &str, calling_pid: ProcessId) -> (r: Option<
    Result<Vec<u8>, KernelError>,
>)
    ensures
        procfs_result(*state, procfs_path(path@, calling_pid), r),
{
    let c = chars_of(path);
    let self_prefix = chars_of("/proc/self/");
    proof {
        reveal_strlit("/proc/self/");
    }
    if starts_with(&c, &self_prefix) {
        let mut resolved = text("/proc/");
        push_decimal(&mut resolved, calling_pid as u64);
        resolved.append("/");
        let n = path.unicode_len();
        resolved.append(path.substring_char(11, n));
        return read_procfs_at(state, resolved);
    }
    read_procfs_at(state, path.to_owned())
}


// ---------------------------------------------------------------------------
// What each system call does
// ---------------------------------------------------------------------------

/// The result of a system call: the next state and the output, or an error.
pub type SyscallResult<T> = Result<T, KernelError>;

/// `s` has the pid counter, current process, pipes and clock of `state`.
pub open spec fn same_but_procs(s: KernelState, state: KernelState) -> bool {
    &&& s.next_pid == state.next_pid
    &&& s.current_pid == state.current_pid
    &&& s.pipe_map() == state.pipe_map()
    &&& s.simulated_time == state.simulated_time
}

/// `s` is `state` with only the process `pid` replaced.
pub open spec fn only_changed(s: KernelState, state: KernelState, pid: ProcessId) -> bool {
    &&& same_but_procs(s, state)
    &&& s.procs() == state.procs().insert(pid, s.procs()[pid])
}

/// `b` is process `a` with `sig` added to its pending signals.
pub open spec fn signalled(a: Process, b: Process, sig: Signal) -> bool {
    &&& same_contents(b, Process { pending_signals: b.pending_signals, ..a })
    &&& b.pending_signals@ == a.pending_signals@.insert(sig)
}

/// Fork: the child takes the next identifier and a copy of the caller's
/// contents, with the caller as its parent.
pub open spec fn fork_outcome(state: KernelState, pid: ProcessId, r: SyscallResult<(KernelState, SyscallOutput)>) -> bool {
    let c = state.next_pid;
    r matches Ok((s, out)) && {
        &&& out == SyscallOutput::Pid(c)
        &&& s.next_pid == c + 1
        &&& s.current_pid == state.current_pid
        &&& s.pipe_map() == state.pipe_map()
        &&& s.simulated_time == state.simulated_time
        &&& s.procs() == state.procs().insert(c, s.procs()[c])
        &&& same_contents(s.procs()[c], Process { pid: c, parent_pid: Some(pid), ..state.procs()[pid] })
    }
}

/// Exit: the caller is terminated with the code, and its parent, if present,
/// gets `SIGCHLD`.
pub open spec fn exit_outcome(state: KernelState, pid: ProcessId, code: i32, r: SyscallResult<(KernelState, SyscallOutput)>) -> bool {
    let p1 = state.procs().insert(pid, Process { state: ProcessState::Terminated(code), ..state.procs()[pid] });
    r matches Ok((s, out)) && {
        &&& out == SyscallOutput::Success
        &&& same_but_procs(s, state)
        &&& match state.procs()[pid].parent_pid {
            Some(pp) => if p1.dom().contains(pp) {
                &&& s.procs() == p1.insert(pp, s.procs()[pp])
                &&& signalled(p1[pp], s.procs()[pp], Signal::SIGCHLD)
            } else {
                s.procs() == p1
            },
            None => s.procs() == p1,
        }
    }
}

/// Wait: the exit code of a terminated child of the caller.
pub open spec fn waitpid_outcome(state: KernelState, pid: ProcessId, w: ProcessId, r: SyscallResult<(KernelState, SyscallOutput)>) -> bool {
    if !state.procs().dom().contains(w) {
        r == Err::<(KernelState, SyscallOutput), KernelError>(KernelError::ProcessNotFound(w))
    } else if state.procs()[w].parent_pid != Some(pid) {
        r == Err::<(KernelState, SyscallOutput), KernelError>(KernelError::PermissionDenied)
    } else {
        match state.procs()[w].state {
            ProcessState::Terminated(code) => r == Ok::<(KernelState, SyscallOutput), KernelError>((state, SyscallOutput::Value(code))),
            _ => r == Err::<(KernelState, SyscallOutput), KernelError>(KernelError::InvalidProcessState),
        }
    }
}

/// Sleep: a live caller blocks until the clock reaches now plus the
/// duration; sleeping for zero changes nothing.
pub open spec fn sleep_outcome(state: KernelState, pid: ProcessId, d: u64, r: SyscallResult<(KernelState, SyscallOutput)>) -> bool {
    let p = state.procs()[pid];
    if p.state is Terminated {
        r == Err::<(KernelState, SyscallOutput), KernelError>(KernelError::InvalidProcessState)
    } else if d == 0 {
        r == Ok::<(KernelState, SyscallOutput), KernelError>((state, SyscallOutput::Success))
    } else {
        r matches Ok((s, out)) && {
            &&& out == SyscallOutput::Success
            &&& only_changed(s, state, pid)
            &&& same_contents(s.procs()[pid], Process {
                state: ProcessState::Blocked,
                wakeup_time: Some((state.simulated_time + d) as u64),
                ..p
            })
        }
    }
}

/// Kill: `SIGKILL` terminates the target with code 9; another known signal
/// becomes pending on it.
pub open spec fn kill_outcome(state: KernelState, target: ProcessId, sig: u32, r: SyscallResult<(KernelState, SyscallOutput)>) -> bool {
    match signal_from_number(sig) {
        None => r == Err::<(KernelState, SyscallOutput), KernelError>(KernelError::InvalidSignal(sig)),
        Some(sg) => if !state.procs().dom().contains(target) {
            r == Err::<(KernelState, SyscallOutput), KernelError>(KernelError::ProcessNotFound(target))
        } else {
            r matches Ok((s, out)) && {
                &&& out == SyscallOutput::Success
                &&& only_changed(s, state, target)
                &&& if sg == Signal::SIGKILL {
                    same_contents(s.procs()[target], Process { state: ProcessState::Terminated(9), ..state.procs()[target] })
                } else {
                    signalled(state.procs()[target], s.procs()[target], sg)
                }
            }
        },
    }
}

/// Sigaction: installs the action for a known signal other than `SIGKILL`.
pub open spec fn sigaction_outcome(state: KernelState, pid: ProcessId, sig: u32, action: SignalAction, r: SyscallResult<(KernelState, SyscallOutput)>) -> bool {
    match signal_from_number(sig) {
        None => r == Err::<(KernelState, SyscallOutput), KernelError>(KernelError::InvalidSignal(sig)),
        Some(sg) => if sg == Signal::SIGKILL {
            r matches Err(KernelError::InvalidParameters(m)) && m@ == "Cannot set handler for SIGKILL"@
        } else {
            let p = state.procs()[pid];
            r matches Ok((s, out)) && {
                &&& out == SyscallOutput::Success
                &&& only_changed(s, state, pid)
                &&& same_contents(s.procs()[pid], Process { signal_handlers: s.procs()[pid].signal_handlers, ..p })
                &&& s.procs()[pid].handlers() == p.handlers().insert(sig, action)
            }
        },
    }
}

/// The known signals, other than `SIGKILL`, whose numbers occur in `nums`.
pub open spec fn blockable(nums: Seq<u32>) -> Set<Signal> {
    Set::new(|s: Signal| s != Signal::SIGKILL && nums.contains(signal_number(s)))
}

/// The known signals whose numbers occur in `nums`.
pub open spec fn named_signals(nums: Seq<u32>) -> Set<Signal> {
    Set::new(|s: Signal| nums.contains(signal_number(s)))
}

/// Sigprocmask: the caller's blocked set gains the blockable signals of
/// `block`, then loses those of `unblock`.
pub open spec fn sigprocmask_outcome(state: KernelState, pid: ProcessId, block: Seq<u32>, unblock: Seq<u32>, r: SyscallResult<(KernelState, SyscallOutput)>) -> bool {
    let p = state.procs()[pid];
    r matches Ok((s, out)) && {
        &&& out == SyscallOutput::Success
        &&& only_changed(s, state, pid)
        &&& same_contents(s.procs()[pid], Process { blocked_signals: s.procs()[pid].blocked_signals, ..p })
        &&& s.procs()[pid].blocked_signals@ == p.blocked_signals@.union(blockable(block)).difference(named_signals(unblock))
    }
}

/// Close: an open descriptor other than the standard streams is released.
pub open spec fn close_outcome(state: KernelState, pid: ProcessId, fd: u32, r: SyscallResult<(KernelState, SyscallOutput)>) -> bool {
    let p = state.procs()[pid];
    if fd >= 3 && p.files().dom().contains(fd) {
        r matches Ok((s, out)) && {
            &&& out == SyscallOutput::Success
            &&& only_changed(s, state, pid)
            &&& same_contents(s.procs()[pid], Process { open_files: s.procs()[pid].open_files, ..p })
            &&& s.procs()[pid].files() == p.files().remove(fd)
        }
    } else {
        r == Err::<(KernelState, SyscallOutput), KernelError>(KernelError::InvalidFileDescriptor(fd))
    }
}

/// The read descriptor a pipe path `/pipe/N/...` names: the text between its
/// second and third `'/'`, read as a number.
pub open spec fn pipe_path_fd(path: Seq<char>) -> Option<u32> {
    parse_u32(path.subrange(6, next_slash(path, 6)))
}

/// What reading a file of the file system gives, from what the file system
/// answered (`None` when there is no file system to ask).
pub open spec fn file_read_result(
    state: KernelState,
    path: Seq<char>,
    count: usize,
    file: Option<Result<Vec<u8>, VfsFailure>>,
    r: SyscallResult<(KernelState, SyscallOutput)>,
) -> bool {
    match file {
        None => r == Err::<(KernelState, SyscallOutput), KernelError>(KernelError::NotImplemented),
        Some(Ok(content)) => r matches Ok((s, SyscallOutput::Data(v))) && s == state && v@ == clip(content@, count),
        Some(Err(VfsFailure::NotFound)) => r matches Err(KernelError::FileNotFound(m)) && m@ == path,
        Some(Err(VfsFailure::PermissionDenied)) => r == Err::<(KernelState, SyscallOutput), KernelError>(KernelError::PermissionDenied),
        Some(Err(_)) => r matches Err(KernelError::InvalidParameters(m)) && m@ == "VFS error during read"@,
    }
}

/// Read: from a pipe descriptor, the pipe's leading bytes; from a process
/// file, its leading bytes; from any other file, the leading bytes of what
/// the file system gave for it, or its refusal mapped to a kernel error.
pub open spec fn read_outcome(
    state: KernelState,
    pid: ProcessId,
    fd: u32,
    count: usize,
    file: Option<Result<Vec<u8>, VfsFailure>>,
    r: SyscallResult<(KernelState, SyscallOutput)>,
) -> bool {
    let p = state.procs()[pid];
    if !p.files().dom().contains(fd) {
        r == Err::<(KernelState, SyscallOutput), KernelError>(KernelError::InvalidFileDescriptor(fd))
    } else {
        let path = p.files()[fd]@;
        if has_prefix(path, "/pipe/"@) {
            if state.pipe_map().dom().contains(fd) {
                r matches Ok((s, SyscallOutput::Data(v))) && s == state && v@ == clip(state.pipe_map()[fd].data@, count)
            } else {
                r == Err::<(KernelState, SyscallOutput), KernelError>(KernelError::InvalidFileDescriptor(fd))
            }
        } else {
            let q = procfs_path(path, pid);
            match procfs_request(q) {
                None => file_read_result(state, path, count, file, r),
                Some((n, file)) => if file == "status"@ {
                    if state.procs().dom().contains(n) {
                        r matches Ok((s, SyscallOutput::Data(v))) && s == state && v@ == clip(
                            encode_utf8(proc_status_text(state.procs()[n], n)), count)
                    } else {
                        r matches Err(KernelError::FileNotFound(m)) && m@ == "/proc/"@ + decimal(n as nat) + "/status"@
                    }
                } else if file == "cmdline"@ {
                    if state.procs().dom().contains(n) {
                        r matches Ok((s, SyscallOutput::Data(v))) && s == state && v@ == clip(encode_utf8(proc_cmdline_text(n)), count)
                    } else {
                        r matches Err(KernelError::FileNotFound(m)) && m@ == "/proc/"@ + decimal(n as nat) + "/cmdline"@
                    }
                } else {
                    r matches Err(KernelError::FileNotFound(m)) && m@ == q
                },
            }
        }
    }
}

/// Write: to a pipe path, the data is appended to the pipe the path names and
/// its length is returned; to any other file, the length once the file system
/// has taken the data, or its refusal mapped to a kernel error.
pub open spec fn write_outcome(
    state: KernelState,
    pid: ProcessId,
    fd: u32,
    data: Seq<u8>,
    file: Option<Result<(), VfsFailure>>,
    r: SyscallResult<(KernelState, SyscallOutput)>,
) -> bool {
    let p = state.procs()[pid];
    if !p.files().dom().contains(fd) {
        r == Err::<(KernelState, SyscallOutput), KernelError>(KernelError::InvalidFileDescriptor(fd))
    } else {
        let path = p.files()[fd]@;
        if has_prefix(path, "/pipe/"@) {
            match pipe_path_fd(path) {
                Some(rfd) => if state.pipe_map().dom().contains(rfd) {
                    let old_pipe = state.pipe_map()[rfd];
                    r matches Ok((s, out)) && {
                        &&& out == SyscallOutput::Value(data.len() as i32)
                        &&& s.procs() == state.procs()
                        &&& s.next_pid == state.next_pid
                        &&& s.current_pid == state.current_pid
                        &&& s.simulated_time == state.simulated_time
                        &&& s.pipe_map() == state.pipe_map().insert(rfd, s.pipe_map()[rfd])
                        &&& s.pipe_map()[rfd].read_fd == old_pipe.read_fd
                        &&& s.pipe_map()[rfd].write_fd == old_pipe.write_fd
                        &&& s.pipe_map()[rfd].owner_pid == old_pipe.owner_pid
                        &&& s.pipe_map()[rfd].data@ == old_pipe.data@ + data
                    }
                } else {
                    r == Err::<(KernelState, SyscallOutput), KernelError>(KernelError::InvalidFileDescriptor(fd))
                },
                None => r == Err::<(KernelState, SyscallOutput), KernelError>(KernelError::InvalidFileDescriptor(fd)),
            }
        } else {
            match file {
                None => r == Err::<(KernelState, SyscallOutput), KernelError>(KernelError::NotImplemented),
                Some(Ok(())) => r == Ok::<(KernelState, SyscallOutput), KernelError>((state, SyscallOutput::Value(data.len() as i32))),
                Some(Err(VfsFailure::NotFound)) => r matches Err(KernelError::FileNotFound(m)) && m@ == path,
                Some(Err(VfsFailure::PermissionDenied)) => r == Err::<(KernelState, SyscallOutput), KernelError>(KernelError::PermissionDenied),
                Some(Err(_)) => r matches Err(KernelError::InvalidParameters(m)) && m@ == "VFS error during write"@,
            }
        }
    }
}

/// Whether `mmap` of `size_bytes` on `vm` finds no room: a zero size, or a run
/// that would pass the end of the heap region.
pub open spec fn mmap_refused(vm: crate::memory::VirtualMemory, size_bytes: usize) -> bool {
    size_bytes == 0 || vm.heap_cursor() + pages_for(size_bytes as int) * 4096 > vm.layout_spec().heap_start
        + vm.layout_spec().heap_size
}

/// Mmap: the caller's address space as `mmap` leaves it, and the address at
/// the old heap cursor; `ResourceExhausted` when `mmap` finds no room.
pub open spec fn mmap_syscall_outcome(state: KernelState, pid: ProcessId, size: usize, r: SyscallResult<(KernelState, SyscallOutput)>) -> bool {
    let p = state.procs()[pid];
    if mmap_refused(p.memory, size) {
        r matches Err(KernelError::ResourceExhausted(m)) && m@ == "Out of memory"@
    } else {
        r matches Ok((s, out)) && {
            &&& out == SyscallOutput::Address(p.memory.heap_cursor())
            &&& only_changed(s, state, pid)
            &&& same_contents(s.procs()[pid], Process { memory: s.procs()[pid].memory, ..p })
            &&& mmap_outcome(p.memory, s.procs()[pid].memory, size, Some(p.memory.heap_cursor()))
        }
    }
}

/// Munmap: the caller's address space as `munmap` leaves it; an error when
/// the range is not wholly mapped.
pub open spec fn munmap_syscall_outcome(state: KernelState, pid: ProcessId, addr: u64, size: usize, r: SyscallResult<(KernelState, SyscallOutput)>) -> bool {
    let p = state.procs()[pid];
    if crate::memory::run_mapped(p.memory.pages(), addr as int, pages_for(size as int)) {
        r matches Ok((s, out)) && {
            &&& out == SyscallOutput::Success
            &&& only_changed(s, state, pid)
            &&& same_contents(s.procs()[pid], Process { memory: s.procs()[pid].memory, ..p })
            &&& munmap_outcome(p.memory, s.procs()[pid].memory, addr, size, true)
        }
    } else {
        r matches Err(KernelError::InvalidParameters(m)) && m@ == "Invalid munmap range"@
    }
}

/// Send: a message from the caller is queued at the back of the target's queue.
pub open spec fn send_outcome(state: KernelState, pid: ProcessId, target: ProcessId, data: Seq<u8>, r: SyscallResult<(KernelState, SyscallOutput)>) -> bool {
    if !state.procs().dom().contains(target) {
        r == Err::<(KernelState, SyscallOutput), KernelError>(KernelError::ProcessNotFound(target))
    } else {
        let t = state.procs()[target];
        r matches Ok((s, out)) && {
            &&& out == SyscallOutput::Success
            &&& only_changed(s, state, target)
            &&& same_contents(s.procs()[target], Process { message_queue: s.procs()[target].message_queue, ..t })
            &&& s.procs()[target].messages() == t.messages().push(s.procs()[target].messages().last())
            &&& s.procs()[target].messages().last().sender == pid
            &&& s.procs()[target].messages().last().receiver == target
            &&& s.procs()[target].messages().last().payload@ == data
        }
    }
}

/// Recv: the oldest message's payload leaves the caller's queue.
pub open spec fn recv_outcome(state: KernelState, pid: ProcessId, r: SyscallResult<(KernelState, SyscallOutput)>) -> bool {
    let p = state.procs()[pid];
    if p.messages().len() == 0 {
        r == Err::<(KernelState, SyscallOutput), KernelError>(KernelError::InvalidProcessState)
    } else {
        r matches Ok((s, SyscallOutput::Data(v))) && {
            &&& v == p.messages()[0].payload
            &&& only_changed(s, state, pid)
            &&& same_contents(s.procs()[pid], Process { message_queue: s.procs()[pid].message_queue, ..p })
            &&& s.procs()[pid].messages() == p.messages().drop_first()
        }
    }
}

/// The path of a pipe end: `/pipe/N/read` or `/pipe/N/write`.
pub open spec fn pipe_end_path(n: u32, end: Seq<char>) -> Seq<char> {
    "/pipe/"@ + decimal(n as nat) + "/"@ + end
}

/// Pipe: the lowest free descriptor from 3 up reads and the next one writes;
/// a new empty pipe is kept under the read descriptor.
pub open spec fn pipe_outcome(state: KernelState, pid: ProcessId, r: SyscallResult<(KernelState, SyscallOutput)>) -> bool {
    let p = state.procs()[pid];
    r matches Ok((s, SyscallOutput::Pipe { read_fd, write_fd })) && {
        &&& read_fd >= 3
        &&& !p.files().dom().contains(read_fd)
        &&& forall|fd: u32| 3 <= fd < read_fd ==> #[trigger] p.files().dom().contains(fd)
        &&& write_fd == read_fd + 1
        &&& s.procs() == state.procs().insert(pid, s.procs()[pid])
        &&& s.next_pid == state.next_pid
        &&& s.current_pid == state.current_pid
        &&& s.simulated_time == state.simulated_time
        &&& same_contents(s.procs()[pid], Process { open_files: s.procs()[pid].open_files, ..p })
        &&& s.procs()[pid].files().dom() == p.files().dom().insert(read_fd).insert(write_fd)
        &&& s.procs()[pid].files()[read_fd]@ == pipe_end_path(read_fd, "read"@)
        &&& s.procs()[pid].files()[write_fd]@ == pipe_end_path(read_fd, "write"@)
        &&& forall|fd: u32| #[trigger] p.files().dom().contains(fd) && fd != read_fd && fd != write_fd
            ==> s.procs()[pid].files()[fd] == p.files()[fd]
        &&& s.pipe_map() == state.pipe_map().insert(read_fd, s.pipe_map()[read_fd])
        &&& s.pipe_map()[read_fd].read_fd == read_fd
        &&& s.pipe_map()[read_fd].write_fd == write_fd
        &&& s.pipe_map()[read_fd].owner_pid == pid
        &&& s.pipe_map()[read_fd].data@.len() == 0
    }
}

/// Dup2: `newfd` names what `oldfd` names; an unknown `oldfd` is refused.
pub open spec fn dup2_outcome(state: KernelState, pid: ProcessId, oldfd: u32, newfd: u32, r: SyscallResult<(KernelState, SyscallOutput)>) -> bool {
    let p = state.procs()[pid];
    if p.files().dom().contains(oldfd) {
        r matches Ok((s, out)) && {
            &&& out == SyscallOutput::Success
            &&& only_changed(s, state, pid)
            &&& same_contents(s.procs()[pid], Process { open_files: s.procs()[pid].open_files, ..p })
            &&& s.procs()[pid].files() == p.files().insert(newfd, p.files()[oldfd])
        }
    } else {
        r matches Err(KernelError::InvalidParameters(m)) && m@ == "Invalid oldfd: "@ + decimal(oldfd as nat)
    }
}


// ---------------------------------------------------------------------------
// System call handlers
// ---------------------------------------------------------------------------

/// Handle Fork syscall
fn sys_fork(state: KernelState, calling_pid: ProcessId) -> (r: SyscallResult<(KernelState, SyscallOutput)>)
    requires
        state.procs().dom().contains(calling_pid),
        state.next_pid < u32::MAX,
    ensures
        fork_outcome(state, calling_pid, r),
{
    let mut st = state;
    let child_pid = st.allocate_pid();
    let parent = match st.get_process(calling_pid) {
        Some(p) => p,
        None => return Err(KernelError::ProcessNotFound(calling_pid)),
    };
    let mut child = parent.duplicate();
    child.pid = child_pid;
    child.parent_pid = Some(calling_pid);
    st.add_process(child);
    Ok((st, SyscallOutput::Pid(child_pid)))
}

/// Handle Exit syscall
fn sys_exit(state: KernelState, calling_pid: ProcessId, code: i32) -> (r: SyscallResult<(KernelState, SyscallOutput)>)
    requires
        state.procs().dom().contains(calling_pid),
    ensures
        exit_outcome(state, calling_pid, code, r),
{
    let mut st = state;
    let parent_pid = match st.get_process(calling_pid) {
        Some(p) => p.parent_pid,
        None => return Err(KernelError::ProcessNotFound(calling_pid)),
    };
    match st.get_process_mut(calling_pid) {
        Some(p) => {
            p.state = ProcessState::Terminated(code);
        },
        None => return Err(KernelError::ProcessNotFound(calling_pid)),
    }
    if let Some(pp) = parent_pid {
        if let Some(parent) = st.get_process_mut(pp) {
            parent.pending_signals.add(Signal::SIGCHLD);
        }
    }
    Ok((st, SyscallOutput::Success))
}

/// Handle WaitPid syscall
fn sys_waitpid(state: KernelState, calling_pid: ProcessId, wait_pid: ProcessId) -> (r: SyscallResult<(KernelState, SyscallOutput)>)
    requires
        state.procs().dom().contains(calling_pid),
    ensures
        waitpid_outcome(state, calling_pid, wait_pid, r),
{
    let code = match state.get_process(wait_pid) {
        None => return Err(KernelError::ProcessNotFound(wait_pid)),
        Some(target) => {
            if target.parent_pid != Some(calling_pid) {
                return Err(KernelError::PermissionDenied);
            }
            match target.state {
                ProcessState::Terminated(exit_code) => exit_code,
                _ => return Err(KernelError::InvalidProcessState),
            }
        },
    };
    Ok((state, SyscallOutput::Value(code)))
}

/// Handle Sleep syscall
fn sys_sleep(state: KernelState, calling_pid: ProcessId, duration_us: u64) -> (r: SyscallResult<(KernelState, SyscallOutput)>)
    requires
        state.procs().dom().contains(calling_pid),
        !(state.procs()[calling_pid].state is Terminated) && duration_us != 0 ==> state.simulated_time
            + duration_us <= u64::MAX,
    ensures
        sleep_outcome(state, calling_pid, duration_us, r),
{
    let terminated = match state.get_process(calling_pid) {
        Some(p) => p.is_terminated(),
        None => return Err(KernelError::ProcessNotFound(calling_pid)),
    };
    if terminated {
        return Err(KernelError::InvalidProcessState);
    }
    if duration_us == 0 {
        return Ok((state, SyscallOutput::Success));
    }
    let mut st = state;
    let wakeup_time = st.simulated_time + duration_us;
    match st.get_process_mut(calling_pid) {
        Some(p) => {
            p.state = ProcessState::Blocked;
            p.wakeup_time = Some(wakeup_time);
        },
        None => return Err(KernelError::ProcessNotFound(calling_pid)),
    }
    Ok((st, SyscallOutput::Success))
}

/// Handle Kill syscall (send signal to process)
fn sys_kill(state: KernelState, target_pid: ProcessId, signal_num: u32) -> (r: SyscallResult<(KernelState, SyscallOutput)>)
    ensures
        kill_outcome(state, target_pid, signal_num, r),
{
    let signal = match Signal::from_number(signal_num) {
        Some(s) => s,
        None => return Err(KernelError::InvalidSignal(signal_num)),
    };
    let mut st = state;
    match st.get_process_mut(target_pid) {
        Some(p) => {
            if matches!(signal, Signal::SIGKILL) {
                p.state = ProcessState::Terminated(9);
            } else {
                p.pending_signals.add(signal);
            }
        },
        None => return Err(KernelError::ProcessNotFound(target_pid)),
    }
    Ok((st, SyscallOutput::Success))
}

/// Handle Sigaction syscall - register signal handler
fn sys_sigaction(state: KernelState, calling_pid: ProcessId, signal_num: u32, action: SignalAction) -> (r: SyscallResult<(KernelState, SyscallOutput)>)
    requires
        state.procs().dom().contains(calling_pid),
    ensures
        sigaction_outcome(state, calling_pid, signal_num, action, r),
{
    let signal = match Signal::from_number(signal_num) {
        Some(s) => s,
        None => return Err(KernelError::InvalidSignal(signal_num)),
    };
    if matches!(signal, Signal::SIGKILL) {
        return Err(KernelError::InvalidParameters(text("Cannot set handler for SIGKILL")));
    }
    let mut st = state;
    match st.get_process_mut(calling_pid) {
        Some(p) => {
            handler_table_insert(&mut p.signal_handlers, signal_num, action);
        },
        None => return Err(KernelError::ProcessNotFound(calling_pid)),
    }
    Ok((st, SyscallOutput::Success))
}

/// The blocked set after blocking the signals of `block` (never `SIGKILL`)
/// and then unblocking those of `unblock`.
fn masked(blocked: SignalSet, block: &Vec<u32>, unblock: &Vec<u32>) -> (r: SignalSet)
    ensures
        r@ == blocked@.union(blockable(block@)).difference(named_signals(unblock@)),
{
    let mut m = blocked;
    let mut i: usize = 0;
    while i < block.len()
        invariant
            i <= block.len(),
            m@ == blocked@.union(blockable(block@.take(i as int))),
        decreases block.len() - i,
    {
        let n = block[i];
        let ghost before = m@;
        match Signal::from_number(n) {
            Some(sg) => {
                if !matches!(sg, Signal::SIGKILL) {
                    m.add(sg);
                }
            },
            None => {},
        }
        proof {
            let t = block@.take(i as int + 1);
            assert(t =~= block@.take(i as int).push(n));
            assert forall|s: Signal| #[trigger] blockable(t).contains(s) == (blockable(block@.take(i as int)).contains(s) || (s != Signal::SIGKILL && signal_number(s) == n)) by {
                assert(t.contains(signal_number(s)) == (block@.take(i as int).contains(signal_number(s)) || signal_number(s) == n)) by {
                    if signal_number(s) == n {
                        assert(t[i as int] == n);
                    }
                    if block@.take(i as int).contains(signal_number(s)) {
                        let k = choose|k: int| 0 <= k < i && block@.take(i as int)[k] == signal_number(s);
                        assert(t[k] == signal_number(s));
                    }
                }
            }
            assert forall|s: Signal| signal_number(s) == n implies signal_from_number(n) == Some(s) by {
                crate::signals::lemma_signal_number_roundtrip(s, n);
            }
            assert(m@ =~= blocked@.union(blockable(t)));
        }
        i = i + 1;
    }
    assert(block@.take(block@.len() as int) =~= block@);
    let ghost after_block = m@;
    let mut j: usize = 0;
    while j < unblock.len()
        invariant
            j <= unblock.len(),
            m@ == after_block.difference(named_signals(unblock@.take(j as int))),
        decreases unblock.len() - j,
    {
        let n = unblock[j];
        match Signal::from_number(n) {
            Some(sg) => {
                m.remove(sg);
            },
            None => {},
        }
        proof {
            let t = unblock@.take(j as int + 1);
            assert(t =~= unblock@.take(j as int).push(n));
            assert forall|s: Signal| #[trigger] named_signals(t).contains(s) == (named_signals(unblock@.take(j as int)).contains(s) || signal_number(s) == n) by {
                if signal_number(s) == n {
                    assert(t[j as int] == n);
                }
                if unblock@.take(j as int).contains(signal_number(s)) {
                    let k = choose|k: int| 0 <= k < j && unblock@.take(j as int)[k] == signal_number(s);
                    assert(t[k] == signal_number(s));
                }
            }
            assert forall|s: Signal| signal_number(s) == n implies signal_from_number(n) == Some(s) by {
                crate::signals::lemma_signal_number_roundtrip(s, n);
            }
            assert(m@ =~= after_block.difference(named_signals(t)));
        }
        j = j + 1;
    }
    assert(unblock@.take(unblock@.len() as int) =~= unblock@);
    m
}

/// Handle Sigprocmask syscall - block or unblock signals
fn sys_sigprocmask(state: KernelState, calling_pid: ProcessId, block: Vec<u32>, unblock: Vec<u32>) -> (r: SyscallResult<(KernelState, SyscallOutput)>)
    requires
        state.procs().dom().contains(calling_pid),
    ensures
        sigprocmask_outcome(state, calling_pid, block@, unblock@, r),
{
    let mut st = state;
    match st.get_process_mut(calling_pid) {
        Some(p) => {
            let m = masked(p.blocked_signals, &block, &unblock);
            p.blocked_signals = m;
        },
        None => return Err(KernelError::ProcessNotFound(calling_pid)),
    }
    Ok((st, SyscallOutput::Success))
}

/// Handle Close syscall
fn sys_close(state: KernelState, calling_pid: ProcessId, fd: u32) -> (r: SyscallResult<(KernelState, SyscallOutput)>)
    requires
        state.procs().dom().contains(calling_pid),
    ensures
        close_outcome(state, calling_pid, fd, r),
{
    let mut st = state;
    let closed = match st.get_process_mut(calling_pid) {
        Some(p) => p.close_file(fd).is_some(),
        None => return Err(KernelError::ProcessNotFound(calling_pid)),
    };
    if closed {
        Ok((st, SyscallOutput::Success))
    } else {
        Err(KernelError::InvalidFileDescriptor(fd))
    }
}

/// Handle Read syscall, given what the file system answered for the
/// descriptor's file (`None` when there is no file system to ask).
pub fn read_with_vfs(
    state: KernelState,
    calling_pid: ProcessId,
    fd: u32,
    count: usize,
    file: Option<Result<Vec<u8>, VfsFailure>>,
) -> (r: SyscallResult<(KernelState, SyscallOutput)>)
    ensures
        !state.procs().dom().contains(calling_pid) ==> r == Err::<(KernelState, SyscallOutput), KernelError>(
            KernelError::ProcessNotFound(calling_pid),
        ),
        state.procs().dom().contains(calling_pid) ==> read_outcome(state, calling_pid, fd, count, file, r),
{
    let path = match state.get_process(calling_pid) {
        Some(p) => match p.get_file_path(fd) {
            Some(path) => path.clone(),
            None => return Err(KernelError::InvalidFileDescriptor(fd)),
        },
        None => return Err(KernelError::ProcessNotFound(calling_pid)),
    };
    let c = chars_of(path.as_str());
    proof {
        reveal_strlit("/pipe/");
    }
    if starts_with(&c, &chars_of("/pipe/")) {
        let data = match pipe_table_get(&state.pipes, fd) {
            Some(pipe) => clipped(&pipe.data, count),
            None => return Err(KernelError::InvalidFileDescriptor(fd)),
        };
        return Ok((state, SyscallOutput::Data(data)));
    }
    match try_read_procfs(&state, path.as_str(), calling_pid) {
        Some(Ok(content)) => {
            let data = clipped(&content, count);
            Ok((state, SyscallOutput::Data(data)))
        },
        Some(Err(e)) => Err(e),
        None => match file {
            None => Err(KernelError::NotImplemented),
            Some(Ok(content)) => {
                let data = clipped(&content, count);
                Ok((state, SyscallOutput::Data(data)))
            },
            Some(Err(VfsFailure::NotFound)) => Err(KernelError::FileNotFound(path)),
            Some(Err(VfsFailure::PermissionDenied)) => Err(KernelError::PermissionDenied),
            Some(Err(_)) => Err(KernelError::InvalidParameters(text("VFS error during read"))),
        },
    }
}

/// Handle Write syscall, given what the file system answered to taking the
/// data for the descriptor's file (`None` when there is no file system).
pub fn write_with_vfs(
    state: KernelState,
    calling_pid: ProcessId,
    fd: u32,
    data: Vec<u8>,
    file: Option<Result<(), VfsFailure>>,
) -> (r: SyscallResult<(KernelState, SyscallOutput)>)
    ensures
        !state.procs().dom().contains(calling_pid) ==> r == Err::<(KernelState, SyscallOutput), KernelError>(
            KernelError::ProcessNotFound(calling_pid),
        ),
        state.procs().dom().contains(calling_pid) ==> write_outcome(state, calling_pid, fd, data@, file, r),
{
    let path = match state.get_process(calling_pid) {
        Some(p) => match p.get_file_path(fd) {
            Some(path) => path.clone(),
            None => return Err(KernelError::InvalidFileDescriptor(fd)),
        },
        None => return Err(KernelError::ProcessNotFound(calling_pid)),
    };
    let c = chars_of(path.as_str());
    proof {
        reveal_strlit("/pipe/");
    }
    if !starts_with(&c, &chars_of("/pipe/")) {
        return match file {
            None => Err(KernelError::NotImplemented),
            Some(Ok(())) => Ok((state, SyscallOutput::Value(data.len() as i32))),
            Some(Err(VfsFailure::NotFound)) => Err(KernelError::FileNotFound(path)),
            Some(Err(VfsFailure::PermissionDenied)) => Err(KernelError::PermissionDenied),
            Some(Err(_)) => Err(KernelError::InvalidParameters(text("VFS error during write"))),
        };
    }
    let end = find_slash(&c, 6);
    let read_fd = match parse_u32_in(&c, 6, end) {
        Some(n) => n,
        None => return Err(KernelError::InvalidFileDescriptor(fd)),
    };
    let mut st = state;
    match pipe_table_remove(&mut st.pipes, read_fd) {
        Some(pipe) => {
            let mut pipe = pipe;
            append_bytes(&mut pipe.data, &data);
            pipe_table_insert(&mut st.pipes, read_fd, pipe);
            proof {
                assert(st.pipe_map() =~= state.pipe_map().insert(read_fd, st.pipe_map()[read_fd]));
            }
            Ok((st, SyscallOutput::Value(data.len() as i32)))
        },
        None => Err(KernelError::InvalidFileDescriptor(fd)),
    }
}

/// Handle Mmap syscall
fn sys_mmap(state: KernelState, calling_pid: ProcessId, size: usize) -> (r: SyscallResult<(KernelState, SyscallOutput)>)
    requires
        state.procs().dom().contains(calling_pid),
        state.procs()[calling_pid].memory.mmap_fits(size),
    ensures
        mmap_syscall_outcome(state, calling_pid, size, r),
{
    let mut st = state;
    let addr = match st.get_process_mut(calling_pid) {
        Some(p) => p.memory.mmap(size),
        None => return Err(KernelError::ProcessNotFound(calling_pid)),
    };
    match addr {
        Some(a) => Ok((st, SyscallOutput::Address(a))),
        None => Err(KernelError::ResourceExhausted(text("Out of memory"))),
    }
}

/// Handle Munmap syscall
fn sys_munmap(state: KernelState, calling_pid: ProcessId, addr: u64, size: usize) -> (r: SyscallResult<(KernelState, SyscallOutput)>)
    requires
        state.procs().dom().contains(calling_pid),
        run_walk_fits(state.procs()[calling_pid].memory.pages(), addr as int, pages_for(size as int)),
    ensures
        munmap_syscall_outcome(state, calling_pid, addr, size, r),
{
    let mut st = state;
    let done = match st.get_process_mut(calling_pid) {
        Some(p) => p.memory.munmap(addr, size),
        None => return Err(KernelError::ProcessNotFound(calling_pid)),
    };
    if done {
        Ok((st, SyscallOutput::Success))
    } else {
        Err(KernelError::InvalidParameters(text("Invalid munmap range")))
    }
}

/// Handle Send syscall
fn sys_send(state: KernelState, calling_pid: ProcessId, target_pid: ProcessId, data: Vec<u8>) -> (r: SyscallResult<(KernelState, SyscallOutput)>)
    ensures
        send_outcome(state, calling_pid, target_pid, data@, r),
{
    let mut st = state;
    let message = Message::new(calling_pid, target_pid, data);
    match st.get_process_mut(target_pid) {
        Some(t) => {
            message_queue_push_back(&mut t.message_queue, message);
        },
        None => return Err(KernelError::ProcessNotFound(target_pid)),
    }
    Ok((st, SyscallOutput::Success))
}

/// Handle Recv syscall
fn sys_recv(state: KernelState, calling_pid: ProcessId) -> (r: SyscallResult<(KernelState, SyscallOutput)>)
    requires
        state.procs().dom().contains(calling_pid),
    ensures
        recv_outcome(state, calling_pid, r),
{
    let mut st = state;
    let message = match st.get_process_mut(calling_pid) {
        Some(p) => {
            if message_queue_is_empty(&p.message_queue) {
                return Err(KernelError::InvalidProcessState);
            }
            message_queue_remove_front(&mut p.message_queue)
        },
        None => return Err(KernelError::ProcessNotFound(calling_pid)),
    };
    Ok((st, SyscallOutput::Data(message.payload)))
}

/// The path of one end of the pipe read through descriptor `n`.
fn pipe_end(n: u32, end: &str) -> (r: String)
    ensures
        r@ == pipe_end_path(n, end@),
{
    let mut s = text("/pipe/");
    push_decimal(&mut s, n as u64);
    s.append("/");
    s.append(end);
    s
}

/// Handle Pipe syscall
fn sys_pipe(state: KernelState, calling_pid: ProcessId) -> (r: SyscallResult<(KernelState, SyscallOutput)>)
    requires
        state.procs().dom().contains(calling_pid),
        state.procs()[calling_pid].fd_space_left(),
    ensures
        pipe_outcome(state, calling_pid, r),
{
    let mut st = state;
    let read_fd = match st.get_process_mut(calling_pid) {
        Some(p) => {
            let read_fd = p.allocate_fd();
            let write_fd = read_fd + 1;
            fd_table_insert(&mut p.open_files, read_fd, pipe_end(read_fd, "read"));
            fd_table_insert(&mut p.open_files, write_fd, pipe_end(read_fd, "write"));
            read_fd
        },
        None => return Err(KernelError::ProcessNotFound(calling_pid)),
    };
    let write_fd = read_fd + 1;
    let pipe = PipeBuffer { read_fd, write_fd, owner_pid: calling_pid, data: Vec::new() };
    pipe_table_insert(&mut st.pipes, read_fd, pipe);
    Ok((st, SyscallOutput::Pipe { read_fd, write_fd }))
}

/// Handle Dup2 syscall
fn sys_dup2(state: KernelState, calling_pid: ProcessId, oldfd: u32, newfd: u32) -> (r: SyscallResult<(KernelState, SyscallOutput)>)
    requires
        state.procs().dom().contains(calling_pid),
    ensures
        dup2_outcome(state, calling_pid, oldfd, newfd, r),
{
    let mut st = state;
    let res = match st.get_process_mut(calling_pid) {
        Some(p) => p.dup_fd(oldfd, newfd),
        None => return Err(KernelError::ProcessNotFound(calling_pid)),
    };
    match res {
        Ok(_) => Ok((st, SyscallOutput::Success)),
        Err(msg) => Err(KernelError::InvalidParameters(msg)),
    }
}


/// Handle GetPid syscall
fn sys_getpid(state: KernelState, calling_pid: ProcessId) -> (r: SyscallResult<(KernelState, SyscallOutput)>)
    ensures
        r == Ok::<(KernelState, SyscallOutput), KernelError>((state, SyscallOutput::Pid(calling_pid))),
{
    Ok((state, SyscallOutput::Pid(calling_pid)))
}

// ---------------------------------------------------------------------------
// Dispatch
// ---------------------------------------------------------------------------

/// What a system call from an existing process gives. A call that would run
/// past the machine's limits (a full pid counter, the clock, the address
/// space, the descriptor numbers) is refused with an error. Calls that need
/// the virtual file system, an APR runtime or the VM manager, none of which a
/// kernel state here holds, are answered `NotImplemented`.
pub open spec fn syscall_outcome(state: KernelState, syscall: SystemCall, pid: ProcessId, r: SyscallResult<(KernelState, SyscallOutput)>) -> bool {
    match syscall {
        SystemCall::GetPid => r == Ok::<(KernelState, SyscallOutput), KernelError>((state, SyscallOutput::Pid(pid))),
        SystemCall::Fork => if state.next_pid == u32::MAX {
            r matches Err(KernelError::ResourceExhausted(m)) && m@ == "PID space exhausted"@
        } else {
            fork_outcome(state, pid, r)
        },
        SystemCall::Exit(code) => exit_outcome(state, pid, code, r),
        SystemCall::WaitPid(w) => waitpid_outcome(state, pid, w, r),
        SystemCall::Sleep(d) => if !(state.procs()[pid].state is Terminated) && d != 0 && state.simulated_time + d
            > u64::MAX {
            r matches Err(KernelError::InvalidParameters(m)) && m@ == "Sleep duration overflows the clock"@
        } else {
            sleep_outcome(state, pid, d, r)
        },
        SystemCall::Kill { pid: target, signal } => kill_outcome(state, target, signal, r),
        SystemCall::Close { fd } => close_outcome(state, pid, fd, r),
        SystemCall::Read { fd, count } => read_outcome(state, pid, fd, count, None, r),
        SystemCall::Write { fd, data } => write_outcome(state, pid, fd, data@, None, r),
        SystemCall::Mmap { size } => if !state.procs()[pid].memory.mmap_fits(size) {
            r matches Err(KernelError::ResourceExhausted(m)) && m@ == "Out of memory"@
        } else {
            mmap_syscall_outcome(state, pid, size, r)
        },
        SystemCall::Munmap { addr, size } => if !run_walk_fits(
            state.procs()[pid].memory.pages(),
            addr as int,
            pages_for(size as int),
        ) {
            r matches Err(KernelError::InvalidParameters(m)) && m@ == "Invalid munmap range"@
        } else {
            munmap_syscall_outcome(state, pid, addr, size, r)
        },
        SystemCall::Send { target_pid, data } => send_outcome(state, pid, target_pid, data@, r),
        SystemCall::Recv { .. } => recv_outcome(state, pid, r),
        SystemCall::Pipe => if !state.procs()[pid].fd_space_left() {
            r matches Err(KernelError::ResourceExhausted(m)) && m@ == "File descriptors exhausted"@
        } else {
            pipe_outcome(state, pid, r)
        },
        SystemCall::Dup2 { oldfd, newfd } => dup2_outcome(state, pid, oldfd, newfd, r),
        SystemCall::Sigaction { signal, action } => sigaction_outcome(state, pid, signal, action, r),
        SystemCall::Sigprocmask { block, unblock } => sigprocmask_outcome(state, pid, block@, unblock@, r),
        _ => r == Err::<(KernelState, SyscallOutput), KernelError>(KernelError::NotImplemented),
    }
}

/// Pure functional dispatcher: takes kernel state and syscall, returns new
/// state and output. Never panics: all errors are returned as results.
pub fn dispatch_syscall(state: KernelState, syscall: SystemCall, calling_pid: ProcessId) -> (r: SyscallResult<(KernelState, SyscallOutput)>)
    ensures
        !state.procs().dom().contains(calling_pid) ==> r == Err::<(KernelState, SyscallOutput), KernelError>(
            KernelError::ProcessNotFound(calling_pid),
        ),
        state.procs().dom().contains(calling_pid) ==> syscall_outcome(state, syscall, calling_pid, r),
{
    if !process_table_contains(&state.processes, calling_pid) {
        return Err(KernelError::ProcessNotFound(calling_pid));
    }
    match syscall {
        SystemCall::GetPid => sys_getpid(state, calling_pid),
        SystemCall::Fork => {
            if state.next_pid == u32::MAX {
                return Err(KernelError::ResourceExhausted(text("PID space exhausted")));
            }
            sys_fork(state, calling_pid)
        },
        SystemCall::Exit(code) => sys_exit(state, calling_pid, code),
        SystemCall::WaitPid(wait_pid) => sys_waitpid(state, calling_pid, wait_pid),
        SystemCall::Sleep(duration) => {
            let live = match state.get_process(calling_pid) {
                Some(p) => !p.is_terminated(),
                None => false,
            };
            if live && duration != 0 && state.simulated_time > u64::MAX - duration {
                return Err(KernelError::InvalidParameters(text("Sleep duration overflows the clock")));
            }
            sys_sleep(state, calling_pid, duration)
        },
        SystemCall::Close { fd } => sys_close(state, calling_pid, fd),
        SystemCall::Read { fd, count } => read_with_vfs(state, calling_pid, fd, count, None),
        SystemCall::Write { fd, data } => write_with_vfs(state, calling_pid, fd, data, None),
        SystemCall::Mmap { size } => {
            let fits = match state.get_process(calling_pid) {
                Some(p) => p.memory.mmap_within_limits(size),
                None => false,
            };
            if !fits {
                return Err(KernelError::ResourceExhausted(text("Out of memory")));
            }
            sys_mmap(state, calling_pid, size)
        },
        SystemCall::Munmap { addr, size } => {
            let fits = match state.get_process(calling_pid) {
                Some(p) => p.memory.range_walk_fits(addr, size),
                None => false,
            };
            if !fits {
                return Err(KernelError::InvalidParameters(text("Invalid munmap range")));
            }
            sys_munmap(state, calling_pid, addr, size)
        },
        SystemCall::Send { target_pid, data } => sys_send(state, calling_pid, target_pid, data),
        SystemCall::Recv { timeout: _ } => sys_recv(state, calling_pid),
        SystemCall::Pipe => {
            let room = match state.get_process(calling_pid) {
                Some(p) => p.has_fd_space(),
                None => false,
            };
            if !room {
                return Err(KernelError::ResourceExhausted(text("File descriptors exhausted")));
            }
            sys_pipe(state, calling_pid)
        },
        SystemCall::Dup2 { oldfd, newfd } => sys_dup2(state, calling_pid, oldfd, newfd),
        SystemCall::Kill { pid, signal } => sys_kill(state, pid, signal),
        SystemCall::Sigaction { signal, action } => sys_sigaction(state, calling_pid, signal, action),
        SystemCall::Sigprocmask { block, unblock } => sys_sigprocmask(state, calling_pid, block, unblock),
        _ => Err(KernelError::NotImplemented),
    }
}



// ---------------------------------------------------------------------------
// File system calls: the kernel's part, given what the file system answered
// ---------------------------------------------------------------------------

/// Open: a path that exists, or is created on `O_CREAT`, gets the caller's
/// lowest free descriptor from 3 up.
pub open spec fn open_outcome(
    state: KernelState,
    pid: ProcessId,
    path: Seq<char>,
    flags: u32,
    exists: bool,
    created: Result<(), VfsFailure>,
    r: SyscallResult<(KernelState, SyscallOutput)>,
) -> bool {
    if !exists && (flags & O_CREAT == 0 || created is Err) {
        r matches Err(KernelError::FileNotFound(m)) && m@ == path
    } else {
        let p = state.procs()[pid];
        r matches Ok((s, SyscallOutput::FileDescriptor(fd))) && {
            &&& fd >= 3
            &&& !p.files().dom().contains(fd)
            &&& forall|x: u32| 3 <= x < fd ==> #[trigger] p.files().dom().contains(x)
            &&& only_changed(s, state, pid)
            &&& same_contents(s.procs()[pid], Process { open_files: s.procs()[pid].open_files, ..p })
            &&& s.procs()[pid].files() == p.files().insert(fd, s.procs()[pid].files()[fd])
            &&& s.procs()[pid].files()[fd]@ == path
        }
    }
}

/// Handle Open syscall, given whether the path exists and, when it did not
/// and `O_CREAT` was given, what creating it gave.
pub fn open_with_vfs(
    state: KernelState,
    calling_pid: ProcessId,
    path: String,
    flags: u32,
    exists: bool,
    created: Result<(), VfsFailure>,
) -> (r: SyscallResult<(KernelState, SyscallOutput)>)
    requires
        state.procs().dom().contains(calling_pid) ==> state.procs()[calling_pid].fd_space_left(),
    ensures
        state.procs().dom().contains(calling_pid) ==> open_outcome(state, calling_pid, path@, flags, exists, created, r),
        !state.procs().dom().contains(calling_pid) ==> if !exists && (flags & O_CREAT == 0 || created is Err) {
            r matches Err(KernelError::FileNotFound(m)) && m@ == path@
        } else {
            r == Err::<(KernelState, SyscallOutput), KernelError>(KernelError::ProcessNotFound(calling_pid))
        },
{
    if !exists {
        if (flags & O_CREAT) != 0 {
            if created.is_err() {
                return Err(KernelError::FileNotFound(path));
            }
        } else {
            return Err(KernelError::FileNotFound(path));
        }
    }
    let mut st = state;
    let fd = match st.get_process_mut(calling_pid) {
        Some(p) => p.open_file(path),
        None => return Err(KernelError::ProcessNotFound(calling_pid)),
    };
    Ok((st, SyscallOutput::FileDescriptor(fd)))
}

/// Mkdir: success, or the file system's refusal as a kernel error.
pub open spec fn mkdir_outcome(state: KernelState, path: Seq<char>, res: Result<(), VfsFailure>, r: SyscallResult<(KernelState, SyscallOutput)>) -> bool {
    match res {
        Ok(()) => r == Ok::<(KernelState, SyscallOutput), KernelError>((state, SyscallOutput::Success)),
        Err(VfsFailure::AlreadyExists) => r matches Err(KernelError::FileAlreadyExists(m)) && m@ == path,
        Err(VfsFailure::NotFound) => r matches Err(KernelError::FileNotFound(m)) && m@ == path,
        Err(VfsFailure::PermissionDenied) => r == Err::<(KernelState, SyscallOutput), KernelError>(KernelError::PermissionDenied),
        Err(f) => r matches Err(KernelError::InvalidParameters(m)) && m@ == "Failed to create directory: "@ + failure_text(f),
    }
}

/// Create directory (mkdir syscall), given what the file system answered.
pub fn mkdir_with_vfs(state: KernelState, path: String, res: Result<(), VfsFailure>) -> (r: SyscallResult<(KernelState, SyscallOutput)>)
    ensures
        mkdir_outcome(state, path@, res, r),
{
    match res {
        Ok(()) => Ok((state, SyscallOutput::Success)),
        Err(VfsFailure::AlreadyExists) => Err(KernelError::FileAlreadyExists(path)),
        Err(VfsFailure::NotFound) => Err(KernelError::FileNotFound(path)),
        Err(VfsFailure::PermissionDenied) => Err(KernelError::PermissionDenied),
        Err(f) => Err(KernelError::InvalidParameters(failure_message("Failed to create directory: ", &f))),
    }
}

/// Rmdir: success, or the file system's refusal as a kernel error.
pub open spec fn rmdir_outcome(state: KernelState, path: Seq<char>, res: Result<(), VfsFailure>, r: SyscallResult<(KernelState, SyscallOutput)>) -> bool {
    match res {
        Ok(()) => r == Ok::<(KernelState, SyscallOutput), KernelError>((state, SyscallOutput::Success)),
        Err(VfsFailure::NotFound) => r matches Err(KernelError::FileNotFound(m)) && m@ == path,
        Err(VfsFailure::DirectoryNotEmpty) => r matches Err(KernelError::InvalidParameters(m)) && m@ == "Directory not empty"@,
        Err(VfsFailure::PermissionDenied) => r == Err::<(KernelState, SyscallOutput), KernelError>(KernelError::PermissionDenied),
        Err(f) => r matches Err(KernelError::InvalidParameters(m)) && m@ == "Failed to remove directory: "@ + failure_text(f),
    }
}

/// Remove directory (rmdir syscall), given what the file system answered.
pub fn rmdir_with_vfs(state: KernelState, path: String, res: Result<(), VfsFailure>) -> (r: SyscallResult<(KernelState, SyscallOutput)>)
    ensures
        rmdir_outcome(state, path@, res, r),
{
    match res {
        Ok(()) => Ok((state, SyscallOutput::Success)),
        Err(VfsFailure::NotFound) => Err(KernelError::FileNotFound(path)),
        Err(VfsFailure::DirectoryNotEmpty) => Err(KernelError::InvalidParameters(text("Directory not empty"))),
        Err(VfsFailure::PermissionDenied) => Err(KernelError::PermissionDenied),
        Err(f) => Err(KernelError::InvalidParameters(failure_message("Failed to remove directory: ", &f))),
    }
}

/// Getdents: the directory listing (as JSON) of an open descriptor's path,
/// or the file system's refusal as a kernel error.
pub open spec fn getdents_outcome(state: KernelState, pid: ProcessId, fd: u32, listing: Result<Vec<u8>, VfsFailure>, r: SyscallResult<(KernelState, SyscallOutput)>) -> bool {
    let p = state.procs()[pid];
    if !p.files().dom().contains(fd) {
        r == Err::<(KernelState, SyscallOutput), KernelError>(KernelError::InvalidFileDescriptor(fd))
    } else {
        match listing {
            Ok(json) => r matches Ok((s, SyscallOutput::Data(v))) && s == state && v@ == json@,
            Err(VfsFailure::NotFound) => r matches Err(KernelError::FileNotFound(m)) && m@ == p.files()[fd]@,
            Err(VfsFailure::NotADirectory) => r matches Err(KernelError::InvalidParameters(m)) && m@ == "Not a directory"@,
            Err(f) => r matches Err(KernelError::InvalidParameters(m)) && m@ == "Failed to read directory: "@ + failure_text(f),
        }
    }
}

/// Read directory entries (getdents syscall), given the file system's
/// listing of the descriptor's path, as JSON.
pub fn getdents_with_vfs(state: KernelState, calling_pid: ProcessId, fd: u32, listing: Result<Vec<u8>, VfsFailure>) -> (r: SyscallResult<(KernelState, SyscallOutput)>)
    ensures
        !state.procs().dom().contains(calling_pid) ==> r == Err::<(KernelState, SyscallOutput), KernelError>(
            KernelError::ProcessNotFound(calling_pid),
        ),
        state.procs().dom().contains(calling_pid) ==> getdents_outcome(state, calling_pid, fd, listing, r),
{
    let path = match state.get_process(calling_pid) {
        Some(p) => match p.get_file_path(fd) {
            Some(path) => path.clone(),
            None => return Err(KernelError::InvalidFileDescriptor(fd)),
        },
        None => return Err(KernelError::ProcessNotFound(calling_pid)),
    };
    match listing {
        Ok(json) => Ok((state, SyscallOutput::Data(json))),
        Err(VfsFailure::NotFound) => Err(KernelError::FileNotFound(path)),
        Err(VfsFailure::NotADirectory) => Err(KernelError::InvalidParameters(text("Not a directory"))),
        Err(f) => Err(KernelError::InvalidParameters(failure_message("Failed to read directory: ", &f))),
    }
}

/// Stat and lstat: the file's status (as JSON), or the file system's
/// refusal as a kernel error; `verb` names the call in other refusals.
pub open spec fn stat_outcome(state: KernelState, path: Seq<char>, verb: Seq<char>, info: Result<Vec<u8>, VfsFailure>, r: SyscallResult<(KernelState, SyscallOutput)>) -> bool {
    match info {
        Ok(json) => r matches Ok((s, SyscallOutput::Data(v))) && s == state && v@ == json@,
        Err(VfsFailure::NotFound) => r matches Err(KernelError::FileNotFound(m)) && m@ == path,
        Err(VfsFailure::PermissionDenied) => r == Err::<(KernelState, SyscallOutput), KernelError>(KernelError::PermissionDenied),
        Err(f) => r matches Err(KernelError::InvalidParameters(m)) && m@ == "Failed to "@ + verb + " file: "@ + failure_text(f),
    }
}

/// The status of a file, for stat (`verb` "stat") or lstat (`verb` "lstat").
fn stat_result(state: KernelState, path: String, verb: &str, info: Result<Vec<u8>, VfsFailure>) -> (r: SyscallResult<(KernelState, SyscallOutput)>)
    ensures
        stat_outcome(state, path@, verb@, info, r),
{
    match info {
        Ok(json) => Ok((state, SyscallOutput::Data(json))),
        Err(VfsFailure::NotFound) => Err(KernelError::FileNotFound(path)),
        Err(VfsFailure::PermissionDenied) => Err(KernelError::PermissionDenied),
        Err(f) => {
            let mut m = text("Failed to ");
            m.append(verb);
            m.append(" file: ");
            let t = f.debug_text();
            m.append(t.as_str());
            Err(KernelError::InvalidParameters(m))
        },
    }
}

/// Get file status (stat syscall), given the file system's answer as JSON.
pub fn stat_with_vfs(state: KernelState, path: String, info: Result<Vec<u8>, VfsFailure>) -> (r: SyscallResult<(KernelState, SyscallOutput)>)
    ensures
        stat_outcome(state, path@, "stat"@, info, r),
{
    stat_result(state, path, "stat", info)
}

/// Get file status without following symlinks (lstat syscall), given the
/// file system's answer as JSON.
pub fn lstat_with_vfs(state: KernelState, path: String, info: Result<Vec<u8>, VfsFailure>) -> (r: SyscallResult<(KernelState, SyscallOutput)>)
    ensures
        stat_outcome(state, path@, "lstat"@, info, r),
{
    stat_result(state, path, "lstat", info)
}

/// Get canonical absolute path (realpath syscall), given the normalised path:
/// its UTF-8 bytes.
pub fn realpath_with_vfs(state: KernelState, normalized: String) -> (r: SyscallResult<(KernelState, SyscallOutput)>)
    ensures
        r matches Ok((s, SyscallOutput::Data(v))) && s == state && v@ == encode_utf8(normalized@),
{
    Ok((state, SyscallOutput::Data(normalized.as_str().as_bytes_vec())))
}

/// Chmod, chown and access: success, or the file system's refusal as a
/// kernel error.
pub open spec fn path_op_outcome(state: KernelState, path: Seq<char>, res: Result<(), VfsFailure>, r: SyscallResult<(KernelState, SyscallOutput)>) -> bool {
    match res {
        Ok(()) => r == Ok::<(KernelState, SyscallOutput), KernelError>((state, SyscallOutput::Success)),
        Err(VfsFailure::NotFound) => r matches Err(KernelError::FileNotFound(m)) && m@ == path,
        Err(VfsFailure::PermissionDenied) => r == Err::<(KernelState, SyscallOutput), KernelError>(KernelError::PermissionDenied),
        Err(VfsFailure::InvalidPath) => r matches Err(KernelError::InvalidParameters(m)) && m@ == "Invalid path"@,
        Err(f) => r matches Err(KernelError::InvalidParameters(m)) && m@ == "VFS error: "@ + failure_text(f),
    }
}

/// Change permissions, ownership, or check access (chmod, chown and access
/// syscalls), given what the file system answered.
pub fn path_op_with_vfs(state: KernelState, path: String, res: Result<(), VfsFailure>) -> (r: SyscallResult<(KernelState, SyscallOutput)>)
    ensures
        path_op_outcome(state, path@, res, r),
{
    match res {
        Ok(()) => Ok((state, SyscallOutput::Success)),
        Err(VfsFailure::NotFound) => Err(KernelError::FileNotFound(path)),
        Err(VfsFailure::PermissionDenied) => Err(KernelError::PermissionDenied),
        Err(VfsFailure::InvalidPath) => Err(KernelError::InvalidParameters(text("Invalid path"))),
        Err(f) => Err(KernelError::InvalidParameters(failure_message("VFS error: ", &f))),
    }
}

/// Symlink: success, or the file system's refusal as a kernel error.
pub open spec fn symlink_outcome(state: KernelState, link_path: Seq<char>, res: Result<(), VfsFailure>, r: SyscallResult<(KernelState, SyscallOutput)>) -> bool {
    match res {
        Ok(()) => r == Ok::<(KernelState, SyscallOutput), KernelError>((state, SyscallOutput::Success)),
        Err(VfsFailure::NotFound) => r matches Err(KernelError::FileNotFound(m)) && m@ == "Parent directory not found"@,
        Err(VfsFailure::AlreadyExists) => r matches Err(KernelError::FileAlreadyExists(m)) && m@ == link_path,
        Err(VfsFailure::PermissionDenied) => r == Err::<(KernelState, SyscallOutput), KernelError>(KernelError::PermissionDenied),
        Err(VfsFailure::InvalidPath) => r matches Err(KernelError::InvalidParameters(m)) && m@ == "Invalid path"@,
        Err(f) => r matches Err(KernelError::InvalidParameters(m)) && m@ == "VFS error: "@ + failure_text(f),
    }
}

/// Create symbolic link (symlink syscall), given what the file system answered.
pub fn symlink_with_vfs(state: KernelState, link_path: String, res: Result<(), VfsFailure>) -> (r: SyscallResult<(KernelState, SyscallOutput)>)
    ensures
        symlink_outcome(state, link_path@, res, r),
{
    match res {
        Ok(()) => Ok((state, SyscallOutput::Success)),
        Err(VfsFailure::NotFound) => Err(KernelError::FileNotFound(text("Parent directory not found"))),
        Err(VfsFailure::AlreadyExists) => Err(KernelError::FileAlreadyExists(link_path)),
        Err(VfsFailure::PermissionDenied) => Err(KernelError::PermissionDenied),
        Err(VfsFailure::InvalidPath) => Err(KernelError::InvalidParameters(text("Invalid path"))),
        Err(f) => Err(KernelError::InvalidParameters(failure_message("VFS error: ", &f))),
    }
}

/// Readlink: the link's target as UTF-8 bytes, or the file system's refusal
/// as a kernel error.
pub open spec fn readlink_outcome(state: KernelState, path: Seq<char>, target: Result<String, VfsFailure>, r: SyscallResult<(KernelState, SyscallOutput)>) -> bool {
    match target {
        Ok(t) => r matches Ok((s, SyscallOutput::Data(v))) && s == state && v@ == encode_utf8(t@),
        Err(VfsFailure::NotFound) => r matches Err(KernelError::FileNotFound(m)) && m@ == path,
        Err(VfsFailure::InvalidPath) => r matches Err(KernelError::InvalidParameters(m)) && m@ == "Not a symbolic link"@,
        Err(f) => r matches Err(KernelError::InvalidParameters(m)) && m@ == "VFS error: "@ + failure_text(f),
    }
}

/// Read symbolic link target (readlink syscall), given what the file system answered.
pub fn readlink_with_vfs(state: KernelState, path: String, target: Result<String, VfsFailure>) -> (r: SyscallResult<(KernelState, SyscallOutput)>)
    ensures
        readlink_outcome(state, path@, target, r),
{
    match target {
        Ok(t) => Ok((state, SyscallOutput::Data(t.as_str().as_bytes_vec()))),
        Err(VfsFailure::NotFound) => Err(KernelError::FileNotFound(path)),
        Err(VfsFailure::InvalidPath) => Err(KernelError::InvalidParameters(text("Not a symbolic link"))),
        Err(f) => Err(KernelError::InvalidParameters(failure_message("VFS error: ", &f))),
    }
}


/// The environment a list of name/value pairs gives: later pairs override
/// earlier ones with the same name.
pub open spec fn env_from_pairs(pairs: Seq<(String, String)>) -> Map<Seq<char>, Seq<char>>
    decreases pairs.len(),
{
    if pairs.len() == 0 {
        Map::empty()
    } else {
        env_from_pairs(pairs.drop_last()).insert(pairs.last().0@, pairs.last().1@)
    }
}

/// `env` with `ARG0` up to `ARG{n-1}` set to the first `n` arguments.
pub open spec fn with_args(env: Map<Seq<char>, Seq<char>>, args: Seq<String>, n: nat) -> Map<Seq<char>, Seq<char>>
    decreases n,
{
    if n == 0 {
        env
    } else {
        with_args(env, args, (n - 1) as nat).insert("ARG"@ + decimal((n - 1) as nat), args[n - 1]@)
    }
}

/// The environment a program starts with: the given variables, then `_`
/// naming the program, `ARGC` counting the arguments and `ARGi` holding each.
pub open spec fn exec_env(path: Seq<char>, args: Seq<String>, env: Seq<(String, String)>) -> Map<Seq<char>, Seq<char>> {
    with_args(env_from_pairs(env).insert("_"@, path).insert("ARGC"@, decimal(args.len())), args, args.len())
}

/// Exec: a readable, non-empty program file gives the caller the program's
/// environment, records the program's path and arguments in its memory, and
/// makes it ready to run; a caller that does not exist is refused once the
/// file has been checked.
pub open spec fn exec_outcome(
    state: KernelState,
    pid: ProcessId,
    path: Seq<char>,
    args: Seq<String>,
    env: Seq<(String, String)>,
    content: Result<Vec<u8>, VfsFailure>,
    r: SyscallResult<(KernelState, SyscallOutput)>,
) -> bool {
    match content {
        Err(_) => r matches Err(KernelError::InvalidParameters(m)) && m@ == "Cannot exec "@ + path
            + ": file not found or not readable"@,
        Ok(c) => if c@.len() == 0 {
            r matches Err(KernelError::InvalidParameters(m)) && m@ == "Empty executable: "@ + path
        } else if !state.procs().dom().contains(pid) {
            r == Err::<(KernelState, SyscallOutput), KernelError>(KernelError::ProcessNotFound(pid))
        } else {
            let p = state.procs()[pid];
            r matches Ok((s, out)) && {
                let q = s.procs()[pid];
                &&& out == SyscallOutput::Success
                &&& only_changed(s, state, pid)
                &&& same_contents(q, Process { state: ProcessState::Ready, env: q.env, memory: q.memory, ..p })
                &&& q.memory.pages() == p.memory.pages()
                &&& q.memory.layout_spec() == p.memory.layout_spec()
                &&& q.memory.next_ppage() == p.memory.next_ppage()
                &&& q.memory.heap_cursor() == p.memory.heap_cursor()
                &&& s.procs()[pid].environment() == exec_env(path, args, env)
                &&& q.memory.program() matches Some(pp) && pp@ == path
                &&& q.memory.arguments() == args
            }
        },
    }
}

/// The environment of a program started with the given path, arguments and
/// variables.
fn program_env(path: &String, args: &Vec<String>, env: &Vec<(String, String)>) -> (r: im::HashMap<String, String>)
    ensures
        crate::state::env_table_view(r) == exec_env(path@, args@, env@),
{
    let mut m = crate::state::env_table_new();
    let mut i: usize = 0;
    while i < env.len()
        invariant
            i <= env.len(),
            crate::state::env_table_view(m) == env_from_pairs(env@.take(i as int)),
        decreases env.len() - i,
    {
        let k = env[i].0.clone();
        let v = env[i].1.clone();
        crate::state::env_table_insert(&mut m, k, v);
        assert(env@.take(i as int + 1).drop_last() =~= env@.take(i as int));
        i = i + 1;
    }
    assert(env@.take(env.len() as int) =~= env@);
    crate::state::env_table_insert(&mut m, text("_"), path.clone());
    let mut argc = String::new();
    push_decimal(&mut argc, args.len() as u64);
    crate::state::env_table_insert(&mut m, text("ARGC"), argc);
    let ghost base = crate::state::env_table_view(m);
    let mut j: usize = 0;
    while j < args.len()
        invariant
            j <= args.len(),
            crate::state::env_table_view(m) == with_args(base, args@, j as nat),
        decreases args.len() - j,
    {
        let mut name = text("ARG");
        push_decimal(&mut name, j as u64);
        crate::state::env_table_insert(&mut m, name, args[j].clone());
        j = j + 1;
    }
    m
}

/// Handle Exec syscall: replace the caller's program, given what the file
/// system answered for the program file.
pub fn exec_with_vfs(
    state: KernelState,
    calling_pid: ProcessId,
    path: String,
    args: Vec<String>,
    env: Vec<(String, String)>,
    content: Result<Vec<u8>, VfsFailure>,
) -> (r: SyscallResult<(KernelState, SyscallOutput)>)
    ensures
        exec_outcome(state, calling_pid, path@, args@, env@, content, r),
{
    match content {
        Err(_) => {
            let mut m = text("Cannot exec ");
            m.append(path.as_str());
            m.append(": file not found or not readable");
            Err(KernelError::InvalidParameters(m))
        },
        Ok(c) => {
            if c.len() == 0 {
                let mut m = text("Empty executable: ");
                m.append(path.as_str());
                return Err(KernelError::InvalidParameters(m));
            }
            let new_env = program_env(&path, &args, &env);
            let mut st = state;
            match st.get_process_mut(calling_pid) {
                Some(p) => {
                    p.env = new_env;
                    p.memory.set_program(path, args);
                    p.state = ProcessState::Ready;
                },
                None => return Err(KernelError::ProcessNotFound(calling_pid)),
            }
            Ok((st, SyscallOutput::Success))
        },
    }
}

// ---------------------------------------------------------------------------
// Laws
// ---------------------------------------------------------------------------

/// The State line of `/proc/PID/status` tells process states apart: two
/// states get the same name exactly when they are the same state, or both
/// terminated; a ready, running, blocked or terminated process is shown as
/// `Ready`, `Running`, `Blocked` or `Terminated`.
pub proof fn law_status_names_tell_states_apart(a: ProcessState, b: ProcessState)
    ensures
        state_name(a) == state_name(b) <==> (a == b || (a is Terminated && b is Terminated)),
        a is Ready ==> state_name(a) == "Ready"@,
        a is Running ==> state_name(a) == "Running"@,
        a is Blocked ==> state_name(a) == "Blocked"@,
        a is Terminated ==> state_name(a) == "Terminated"@,
{
    reveal_strlit("Ready");
    reveal_strlit("Running");
    reveal_strlit("Blocked");
    reveal_strlit("Terminated");
    if state_name(a) == state_name(b) && !(a == b || (a is Terminated && b is Terminated)) {
        assert(state_name(a)[0] == state_name(b)[0]);
        assert(state_name(a).len() == state_name(b).len());
        assert(state_name(a)[1] == state_name(b)[1]);
    }
}

/// The PPid line of `/proc/PID/status` shows the process's parent, or 0
/// for a process without one.
pub proof fn law_status_shows_parent(p: Process)
    ensures
        p.parent_pid matches Some(q) ==> shown_parent(p) == q,
        p.parent_pid is None ==> shown_parent(p) == 0,
{
}

/// A process that sleeps is then shown as `Blocked` by `/proc/PID/status`:
/// after a successful sleep of a nonzero duration, the status text of the
/// sleeper names the state `Blocked`.
pub proof fn law_sleeper_status_is_blocked(
    state: KernelState,
    pid: ProcessId,
    d: u64,
    r: SyscallResult<(KernelState, SyscallOutput)>,
)
    requires
        state.procs().dom().contains(pid),
        sleep_outcome(state, pid, d, r),
        d != 0,
        r is Ok,
    ensures
        r matches Ok((s, _)) && s.procs().dom().contains(pid) && state_name(s.procs()[pid].state) == "Blocked"@
            && proc_status_text(s.procs()[pid], pid) == "Pid:\t"@ + decimal(pid as nat) + "\nState:\t"@
            + "Blocked"@ + "\nPPid:\t"@ + decimal(shown_parent(s.procs()[pid]) as nat)
            + "\nMemoryPages:\t"@ + decimal(s.procs()[pid].memory_pages@.len()) + "\n"@,
{
    reveal_strlit("Blocked");
}

/// Fork, exit and wait compose: after a process forks a child and the child
/// exits with a code, the parent's wait for that child gives the code.
pub proof fn law_fork_exit_wait(
    s0: KernelState,
    parent: ProcessId,
    code: i32,
    r1: SyscallResult<(KernelState, SyscallOutput)>,
    r2: SyscallResult<(KernelState, SyscallOutput)>,
    r3: SyscallResult<(KernelState, SyscallOutput)>,
)
    requires
        s0.procs().dom().contains(parent),
        fork_outcome(s0, parent, r1),
        r1 matches Ok((s1, _)) && exit_outcome(s1, s0.next_pid, code, r2),
        r2 matches Ok((s2, _)) && waitpid_outcome(s2, parent, s0.next_pid, r3),
    ensures
        r3 == Ok::<(KernelState, SyscallOutput), KernelError>((r2->Ok_0.0, SyscallOutput::Value(code))),
{
    let c = s0.next_pid;
    let s1 = r1->Ok_0.0;
    let s2 = r2->Ok_0.0;
    assert(s1.procs().dom().contains(c));
    assert(s1.procs()[c].parent_pid == Some(parent));
    let p1 = s1.procs().insert(c, Process { state: ProcessState::Terminated(code), ..s1.procs()[c] });
    assert(p1[c].parent_pid == Some(parent));
    assert(s2.procs().dom().contains(c));
    assert(s2.procs()[c].parent_pid == Some(parent));
    assert(s2.procs()[c].state == ProcessState::Terminated(code));
}

/// Messages are delivered in the order they were sent: after a send to a
/// process, its next receive gives the oldest message it had queued, or the
/// one just sent when its queue was empty.
pub proof fn law_message_fifo(
    s0: KernelState,
    sender: ProcessId,
    target: ProcessId,
    data: Seq<u8>,
    r1: SyscallResult<(KernelState, SyscallOutput)>,
    r2: SyscallResult<(KernelState, SyscallOutput)>,
)
    requires
        s0.procs().dom().contains(target),
        send_outcome(s0, sender, target, data, r1),
        r1 matches Ok((s1, _)) && recv_outcome(s1, target, r2),
    ensures
        r2 matches Ok((_, SyscallOutput::Data(v))) && v@ == (if s0.procs()[target].messages().len() == 0 {
            data
        } else {
            s0.procs()[target].messages()[0].payload@
        }),
{
    let s1 = r1->Ok_0.0;
    let q0 = s0.procs()[target].messages();
    let q1 = s1.procs()[target].messages();
    assert(q1 == q0.push(q1.last()));
    assert(q1.len() > 0);
    assert(q1[0] == (if q0.len() == 0 { q1.last() } else { q0[0] }));
}

/// The payloads of a message queue, oldest first.
pub open spec fn payloads(q: Seq<Message>) -> Seq<Seq<u8>> {
    q.map_values(|m: Message| m.payload@)
}

/// A run of calls from state `states[0]`: `k` sends of `data[i]` from
/// `senders[i]` to `target`, then `m` receives by `target`, each call
/// leading to the next state when it succeeds.
pub open spec fn send_recv_run(
    states: Seq<KernelState>,
    results: Seq<SyscallResult<(KernelState, SyscallOutput)>>,
    senders: Seq<ProcessId>,
    target: ProcessId,
    data: Seq<Seq<u8>>,
    k: nat,
    m: nat,
) -> bool {
    &&& states.len() == k + m + 1
    &&& results.len() == k + m
    &&& senders.len() == k
    &&& data.len() == k
    &&& forall|i: int| 0 <= i < k ==> send_outcome(#[trigger] states[i], senders[i], target, data[i], results[i])
    &&& forall|i: int| k <= i < k + m ==> recv_outcome(#[trigger] states[i], target, results[i])
    &&& forall|i: int| 0 <= i < k + m ==> (#[trigger] results[i] matches Ok((s, _)) ==> s == states[i + 1])
}

/// After the first `i` sends of a run, the target exists and its queue holds
/// the first `i` payloads.
proof fn lemma_sends_queue(
    states: Seq<KernelState>,
    results: Seq<SyscallResult<(KernelState, SyscallOutput)>>,
    senders: Seq<ProcessId>,
    target: ProcessId,
    data: Seq<Seq<u8>>,
    k: nat,
    m: nat,
    i: nat,
)
    requires
        send_recv_run(states, results, senders, target, data, k, m),
        states[0].procs().dom().contains(target),
        states[0].procs()[target].messages().len() == 0,
        i <= k,
    ensures
        states[i as int].procs().dom().contains(target),
        payloads(states[i as int].procs()[target].messages()) == data.take(i as int),
    decreases i,
{
    if i == 0 {
        assert(payloads(states[0].procs()[target].messages()) =~= data.take(0));
    } else {
        let j = (i - 1) as nat;
        lemma_sends_queue(states, results, senders, target, data, k, m, j);
        let st = states[j as int];
        assert(send_outcome(st, senders[j as int], target, data[j as int], results[j as int]));
        assert(results[j as int] matches Ok((s, _)) ==> s == states[j as int + 1]);
        let s = results[j as int]->Ok_0.0;
        let q0 = st.procs()[target].messages();
        let q1 = s.procs()[target].messages();
        assert(q1 == q0.push(q1.last()));
        assert(payloads(q1) =~= payloads(q0).push(data[j as int]));
        assert(data.take(i as int) =~= data.take(j as int).push(data[j as int]));
    }
}

/// A receive by a process with queued messages gives the oldest one and
/// leaves the rest queued.
proof fn lemma_recv_step(st: KernelState, target: ProcessId, r: SyscallResult<(KernelState, SyscallOutput)>)
    requires
        recv_outcome(st, target, r),
        st.procs().dom().contains(target),
        st.procs()[target].messages().len() > 0,
    ensures
        r matches Ok((s, SyscallOutput::Data(v))) && v == st.procs()[target].messages()[0].payload
            && s.procs().dom().contains(target)
            && s.procs()[target].messages() == st.procs()[target].messages().drop_first(),
{
}

/// After the first `j` receives of a run with no more receives than sends,
/// the target's queue holds the payloads from the `j`-th on, and each
/// receive so far gave the payload sent at the same place.
#[verifier::rlimit(60)]
proof fn lemma_recvs_queue(
    states: Seq<KernelState>,
    results: Seq<SyscallResult<(KernelState, SyscallOutput)>>,
    senders: Seq<ProcessId>,
    target: ProcessId,
    data: Seq<Seq<u8>>,
    k: nat,
    m: nat,
    j: nat,
)
    requires
        send_recv_run(states, results, senders, target, data, k, m),
        states[0].procs().dom().contains(target),
        states[0].procs()[target].messages().len() == 0,
        m <= k,
        j <= m,
    ensures
        states[k as int + j].procs().dom().contains(target),
        payloads(states[k as int + j].procs()[target].messages()) == data.subrange(j as int, k as int),
        forall|t: int| 0 <= t < j ==> (#[trigger] results[k as int + t] matches Ok((_, SyscallOutput::Data(v))) && v@
            == data[t]),
    decreases j,
{
    if j == 0 {
        lemma_sends_queue(states, results, senders, target, data, k, m, k);
        assert(data.take(k as int) =~= data.subrange(0, k as int));
    } else {
        let t = (j - 1) as nat;
        lemma_recvs_queue(states, results, senders, target, data, k, m, t);
        let st = states[k as int + t];
        assert(recv_outcome(st, target, results[k as int + t]));
        let q0 = st.procs()[target].messages();
        assert(payloads(q0).len() == q0.len());
        assert(q0.len() > 0);
        lemma_recv_step(st, target, results[k as int + t]);
        assert(results[k as int + t] matches Ok((s, _)) ==> s == states[k as int + t + 1]);
        let s = results[k as int + t]->Ok_0.0;
        let q1 = s.procs()[target].messages();
        assert(payloads(q0)[0] == data[t as int]);
        assert(payloads(q1) =~= payloads(q0).drop_first());
        assert(data.subrange(j as int, k as int) =~= data.subrange(t as int, k as int).drop_first());
        assert(results[k as int + t] matches Ok((_, SyscallOutput::Data(v))) && v@ == data[t as int]);
        assert forall|u: int| 0 <= u < j implies (#[trigger] results[k + u] matches Ok((_, SyscallOutput::Data(v)))
            && v@ == data[u]) by {
            if u < t {
            } else {
                assert(u == t);
            }
        }
    }
}

/// Messages are delivered in the order they were sent, over any number of
/// calls: after `k` sends to a process with an empty queue, its next `m <= k`
/// receives give the payloads in the order sent, and once all `k` are
/// received, one more receive is refused with `InvalidProcessState`.
pub proof fn law_fifo_over_runs(
    states: Seq<KernelState>,
    results: Seq<SyscallResult<(KernelState, SyscallOutput)>>,
    senders: Seq<ProcessId>,
    target: ProcessId,
    data: Seq<Seq<u8>>,
    k: nat,
    m: nat,
    last: SyscallResult<(KernelState, SyscallOutput)>,
)
    requires
        send_recv_run(states, results, senders, target, data, k, m),
        states[0].procs().dom().contains(target),
        states[0].procs()[target].messages().len() == 0,
        m <= k,
        recv_outcome(states[k as int + m], target, last),
    ensures
        forall|t: int| 0 <= t < m ==> (#[trigger] results[k as int + t] matches Ok((_, SyscallOutput::Data(v))) && v@
            == data[t]),
        m == k ==> last == Err::<(KernelState, SyscallOutput), KernelError>(KernelError::InvalidProcessState),
{
    lemma_recvs_queue(states, results, senders, target, data, k, m, m);
    let q = states[k as int + m].procs()[target].messages();
    assert(payloads(q).len() == q.len());
}

/// A run of dispatched calls from state `states[0]`: `k` calls
/// `Send { target_pid: target, data: sends[i] }` by existing processes
/// `senders[i]`, then `m` calls `Recv` by `target`, each answered as
/// `dispatch_syscall` answers it and leading to the next state when it
/// succeeds.
pub open spec fn dispatched_send_recv_run(
    states: Seq<KernelState>,
    results: Seq<SyscallResult<(KernelState, SyscallOutput)>>,
    senders: Seq<ProcessId>,
    target: ProcessId,
    sends: Seq<Vec<u8>>,
    timeouts: Seq<u64>,
    k: nat,
    m: nat,
) -> bool {
    &&& states.len() == k + m + 1
    &&& results.len() == k + m
    &&& senders.len() == k
    &&& sends.len() == k
    &&& timeouts.len() == m
    &&& forall|i: int|
        0 <= i < k ==> #[trigger] states[i].procs().dom().contains(senders[i]) && syscall_outcome(
            states[i],
            SystemCall::Send { target_pid: target, data: sends[i] },
            senders[i],
            results[i],
        )
    &&& forall|i: int|
        k <= i < k + m ==> #[trigger] states[i].procs().dom().contains(target) && syscall_outcome(
            states[i],
            SystemCall::Recv { timeout: timeouts[i - k] },
            target,
            results[i],
        )
    &&& forall|i: int| 0 <= i < k + m ==> (#[trigger] results[i] matches Ok((s, _)) ==> s == states[i + 1])
}

/// Messages are delivered in the order they were sent, over any number of
/// dispatched calls: after `k` sends to a process with an empty queue, its
/// next `m <= k` receives give the payloads in the order sent, and once all
/// `k` are received, one more receive is refused with `InvalidProcessState`.
pub proof fn law_fifo_over_dispatch(
    states: Seq<KernelState>,
    results: Seq<SyscallResult<(KernelState, SyscallOutput)>>,
    senders: Seq<ProcessId>,
    target: ProcessId,
    sends: Seq<Vec<u8>>,
    timeouts: Seq<u64>,
    k: nat,
    m: nat,
    timeout: u64,
    last: SyscallResult<(KernelState, SyscallOutput)>,
)
    requires
        dispatched_send_recv_run(states, results, senders, target, sends, timeouts, k, m),
        states[0].procs().dom().contains(target),
        states[0].procs()[target].messages().len() == 0,
        m <= k,
        states[k as int + m].procs().dom().contains(target),
        syscall_outcome(states[k as int + m], SystemCall::Recv { timeout }, target, last),
    ensures
        forall|t: int| 0 <= t < m ==> (#[trigger] results[k as int + t] matches Ok((_, SyscallOutput::Data(v))) && v@
            == sends[t]@),
        m == k ==> last == Err::<(KernelState, SyscallOutput), KernelError>(KernelError::InvalidProcessState),
{
    let data = sends.map_values(|v: Vec<u8>| v@);
    assert forall|i: int| 0 <= i < k implies send_outcome(#[trigger] states[i], senders[i], target, data[i], results[i]) by {
        assert(states[i].procs().dom().contains(senders[i]));
    }
    assert forall|i: int| k <= i < k + m implies recv_outcome(#[trigger] states[i], target, results[i]) by {
        assert(states[i].procs().dom().contains(target));
    }
    law_fifo_over_runs(states, results, senders, target, data, k, m, last);
}

/// `SIGKILL` can never be blocked: a process whose blocked set lacks it
/// still lacks it after any `sigprocmask`.
pub proof fn law_sigkill_unblockable(
    state: KernelState,
    pid: ProcessId,
    block: Seq<u32>,
    unblock: Seq<u32>,
    r: SyscallResult<(KernelState, SyscallOutput)>,
)
    requires
        state.procs().dom().contains(pid),
        !state.procs()[pid].blocked_signals@.contains(Signal::SIGKILL),
        sigprocmask_outcome(state, pid, block, unblock, r),
    ensures
        r matches Ok((s, _)) && !s.procs()[pid].blocked_signals@.contains(Signal::SIGKILL),
{
}

/// `SIGKILL` can never be handled: installing any action for it is refused.
pub proof fn law_sigkill_unhandled(
    state: KernelState,
    pid: ProcessId,
    action: SignalAction,
    r: SyscallResult<(KernelState, SyscallOutput)>,
)
    requires
        sigaction_outcome(state, pid, 9, action, r),
    ensures
        r is Err,
{
}

} // verus!
