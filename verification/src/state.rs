//! Kernel state: processes with their file descriptors, messages and
//! signals, pipes, and the process table, with the invariant queries that
//! Jidoka guards ask of it.

use crate::jidoka::KernelStateView;
use crate::memory::{default_layout, VirtualMemory};
use crate::persistent::{map_sized, set_sized};
use crate::signals::{SignalAction, SignalSet};
use crate::text::text;
use std::collections::hash_map::DefaultHasher;
use std::hash::Hasher;
use vstd::prelude::*;
use vstd::std_specs::hash::DefaultHasherAdditionalSpecFns;
use vstd::utf8::encode_utf8;
use vstd::set_lib::lemma_len_subset;

verus! {

/// Process identifier
pub type ProcessId = u32;

/// File descriptor
pub type FileDescriptor = u32;

/// Standard input file descriptor
pub const STDIN_FD: FileDescriptor = 0;

/// Standard output file descriptor
pub const STDOUT_FD: FileDescriptor = 1;

/// Standard error file descriptor
pub const STDERR_FD: FileDescriptor = 2;

/// Process execution state
#[derive(Clone, Copy, Debug, PartialEq, Eq)]
pub enum ProcessState {
    /// Ready to run
    Ready,
    /// Currently executing
    Running,
    /// Blocked on I/O or IPC
    Blocked,
    /// Terminated (exit code)
    Terminated(i32),
}

/// Inter-process message
#[derive(Clone, Debug, PartialEq, Eq)]
pub struct Message {
    /// Sender process ID
    pub sender: ProcessId,
    /// Receiver process ID
    pub receiver: ProcessId,
    /// Message payload
    pub payload: Vec<u8>,
}

impl Message {
    /// Create a new message
    pub fn new(sender: ProcessId, receiver: ProcessId, payload: Vec<u8>) -> (r: Self)
        ensures
            r.sender == sender,
            r.receiver == receiver,
            r.payload == payload,
    {
        Self { sender, receiver, payload }
    }
}

// ---------------------------------------------------------------------------
// The persistent collections a process holds.
// ---------------------------------------------------------------------------

/// The open file descriptors of a process: descriptor to path.
pub uninterp spec fn fd_table_view(m: im::HashMap<u32, String>) -> Map<u32, String>;

/// `im::HashMap::new` for descriptor tables: the new map is empty.
#[verifier::external_body]
fn fd_table_new() -> (r: im::HashMap<u32, String>)
    ensures
        fd_table_view(r).dom().is_empty(),
{
    im::HashMap::new()
}

/// `im::HashMap::clone` for descriptor tables: the clone has the same contents.
#[verifier::external_body]
fn fd_table_clone(m: &im::HashMap<u32, String>) -> (r: im::HashMap<u32, String>)
    ensures
        fd_table_view(r) == fd_table_view(*m),
{
    m.clone()
}

/// `im::HashMap::insert` for descriptor tables.
#[verifier::external_body]
pub(crate) fn fd_table_insert(m: &mut im::HashMap<u32, String>, k: u32, v: String)
    ensures
        fd_table_view(*final(m)) == fd_table_view(*old(m)).insert(k, v),
{
    m.insert(k, v);
}

/// `im::HashMap::remove` for descriptor tables: returns the removed path, if any.
#[verifier::external_body]
fn fd_table_remove(m: &mut im::HashMap<u32, String>, k: u32) -> (r: Option<String>)
    ensures
        r == fd_table_view(*old(m)).get(k),
        fd_table_view(*final(m)) == fd_table_view(*old(m)).remove(k),
{
    m.remove(&k)
}

/// `im::HashMap::get` for descriptor tables.
#[verifier::external_body]
fn fd_table_get(m: &im::HashMap<u32, String>, k: u32) -> (r: Option<&String>)
    ensures
        match r {
            Some(v) => fd_table_view(*m).dom().contains(k) && *v == fd_table_view(*m)[k],
            None => !fd_table_view(*m).dom().contains(k),
        },
{
    m.get(&k)
}

/// `im::HashMap::contains_key` for descriptor tables.
#[verifier::external_body]
fn fd_table_contains(m: &im::HashMap<u32, String>, k: u32) -> (r: bool)
    ensures
        r == fd_table_view(*m).dom().contains(k),
{
    m.contains_key(&k)
}

/// `im::HashMap::len` for descriptor tables: the number of descriptors; the map is finite.
#[verifier::external_body]
fn fd_table_len(m: &im::HashMap<u32, String>) -> (r: usize)
    ensures
        map_sized(fd_table_view(*m), r),
{
    m.len()
}

/// The messages waiting for a process, oldest first.
pub uninterp spec fn message_queue_view(v: im::Vector<Message>) -> Seq<Message>;

/// `im::Vector::new` for message queues: the new queue is empty.
#[verifier::external_body]
fn message_queue_new() -> (r: im::Vector<Message>)
    ensures
        message_queue_view(r) == Seq::<Message>::empty(),
{
    im::Vector::new()
}

/// `im::Vector::clone` for message queues: the clone has the same contents.
#[verifier::external_body]
fn message_queue_clone(v: &im::Vector<Message>) -> (r: im::Vector<Message>)
    ensures
        message_queue_view(r) == message_queue_view(*v),
{
    v.clone()
}

/// `im::Vector::push_back` for message queues.
#[verifier::external_body]
pub(crate) fn message_queue_push_back(v: &mut im::Vector<Message>, x: Message)
    ensures
        message_queue_view(*final(v)) == message_queue_view(*old(v)).push(x),
{
    v.push_back(x);
}

/// `im::Vector::remove` at index 0 (which panics on an empty queue): removes
/// and returns the oldest message.
#[verifier::external_body]
pub(crate) fn message_queue_remove_front(v: &mut im::Vector<Message>) -> (r: Message)
    requires
        message_queue_view(*old(v)).len() > 0,
    ensures
        r == message_queue_view(*old(v))[0],
        message_queue_view(*final(v)) == message_queue_view(*old(v)).drop_first(),
{
    v.remove(0)
}

/// `im::Vector::is_empty` for message queues.
#[verifier::external_body]
pub(crate) fn message_queue_is_empty(v: &im::Vector<Message>) -> (r: bool)
    ensures
        r == (message_queue_view(*v).len() == 0),
{
    v.is_empty()
}

/// The installed signal handlers of a process: signal number to action.
pub uninterp spec fn handler_table_view(m: im::HashMap<u32, SignalAction>) -> Map<
    u32,
    SignalAction,
>;

/// `im::HashMap::new` for handler tables: the new map is empty.
#[verifier::external_body]
fn handler_table_new() -> (r: im::HashMap<u32, SignalAction>)
    ensures
        handler_table_view(r).dom().is_empty(),
{
    im::HashMap::new()
}

/// `im::HashMap::clone` for handler tables: the clone has the same contents.
#[verifier::external_body]
fn handler_table_clone(m: &im::HashMap<u32, SignalAction>) -> (r: im::HashMap<u32, SignalAction>)
    ensures
        handler_table_view(r) == handler_table_view(*m),
{
    m.clone()
}

/// `im::HashMap::insert` for handler tables.
#[verifier::external_body]
pub(crate) fn handler_table_insert(m: &mut im::HashMap<u32, SignalAction>, k: u32, v: SignalAction)
    ensures
        handler_table_view(*final(m)) == handler_table_view(*old(m)).insert(k, v),
{
    m.insert(k, v);
}

/// `im::HashMap::get` for handler tables, copied out.
#[verifier::external_body]
pub(crate) fn handler_table_get(m: &im::HashMap<u32, SignalAction>, k: u32) -> (r: Option<
    SignalAction,
>)
    ensures
        r == handler_table_view(*m).get(k),
{
    m.get(&k).copied()
}

/// The environment variables of a process: name to value.
pub uninterp spec fn env_table_view(m: im::HashMap<String, String>) -> Map<Seq<char>, Seq<char>>;

/// `im::HashMap::new` for environments: the new map is empty.
#[verifier::external_body]
pub(crate) fn env_table_new() -> (r: im::HashMap<String, String>)
    ensures
        env_table_view(r).dom().is_empty(),
{
    im::HashMap::new()
}

/// `im::HashMap::clone` for environments: the clone has the same contents.
#[verifier::external_body]
fn env_table_clone(m: &im::HashMap<String, String>) -> (r: im::HashMap<String, String>)
    ensures
        env_table_view(r) == env_table_view(*m),
{
    m.clone()
}

/// `im::HashMap::insert` for environments: the name now has the value.
#[verifier::external_body]
pub(crate) fn env_table_insert(m: &mut im::HashMap<String, String>, k: String, v: String)
    ensures
        env_table_view(*final(m)) == env_table_view(*old(m)).insert(k@, v@),
{
    m.insert(k, v);
}

// ---------------------------------------------------------------------------
// Processes
// ---------------------------------------------------------------------------

/// Process control block
#[derive(Debug, PartialEq)]
pub struct Process {
    /// Process ID
    pub pid: ProcessId,
    /// Current execution state
    pub state: ProcessState,
    /// Parent process ID (None for init)
    pub parent_pid: Option<ProcessId>,
    /// Memory pages allocated (simulated)
    pub memory_pages: Vec<u32>,
    /// Open file descriptors
    pub open_files: im::HashMap<FileDescriptor, String>,
    /// Virtual memory
    pub memory: VirtualMemory,
    /// Message queue (FIFO)
    pub message_queue: im::Vector<Message>,
    /// Wakeup time in microseconds (for sleeping processes)
    pub wakeup_time: Option<u64>,
    /// Pending signals waiting to be delivered
    pub pending_signals: SignalSet,
    /// Blocked signals that won't be delivered
    pub blocked_signals: SignalSet,
    /// Signal handlers (signal number -> action)
    pub signal_handlers: im::HashMap<u32, SignalAction>,
    /// Process priority (0 = highest, 7 = lowest, 4 = normal)
    pub priority: u8,
    /// Wait ticks for aging (prevents starvation)
    pub wait_ticks: u64,
    /// Environment variables
    pub env: im::HashMap<String, String>,
}

/// The descriptor table of a new process: the three standard streams.
pub open spec fn standard_streams(files: Map<u32, String>) -> bool {
    &&& files.dom() =~= set![0u32, 1u32, 2u32]
    &&& files[0]@ == "/dev/stdin"@
    &&& files[1]@ == "/dev/stdout"@
    &&& files[2]@ == "/dev/stderr"@
}

/// Two processes hold the same contents, field by field.
pub open spec fn same_contents(a: Process, b: Process) -> bool {
    &&& a.pid == b.pid
    &&& a.state == b.state
    &&& a.parent_pid == b.parent_pid
    &&& a.memory_pages@ == b.memory_pages@
    &&& a.files() == b.files()
    &&& a.memory.pages() == b.memory.pages()
    &&& a.memory.layout_spec() == b.memory.layout_spec()
    &&& a.memory.next_ppage() == b.memory.next_ppage()
    &&& a.memory.heap_cursor() == b.memory.heap_cursor()
    &&& a.memory.program() == b.memory.program()
    &&& a.memory.arguments() == b.memory.arguments()
    &&& a.messages() == b.messages()
    &&& a.wakeup_time == b.wakeup_time
    &&& a.pending_signals@ == b.pending_signals@
    &&& a.blocked_signals@ == b.blocked_signals@
    &&& a.handlers() == b.handlers()
    &&& a.priority == b.priority
    &&& a.wait_ticks == b.wait_ticks
    &&& a.environment() == b.environment()
}

/// A process as `Process::new` creates it.
pub open spec fn is_new_process(p: Process, pid: ProcessId, parent_pid: Option<ProcessId>) -> bool {
    &&& p.pid == pid
    &&& p.state == ProcessState::Ready
    &&& p.parent_pid == parent_pid
    &&& p.memory_pages@.len() == 0
    &&& standard_streams(p.files())
    &&& p.memory.pages().dom().is_empty()
    &&& p.memory.layout_spec() == default_layout()
    &&& p.memory.next_ppage() == 0
    &&& p.memory.heap_cursor() == default_layout().heap_start
    &&& p.memory.program() is None
    &&& p.memory.arguments().len() == 0
    &&& p.messages().len() == 0
    &&& p.wakeup_time is None
    &&& p.pending_signals@.is_empty()
    &&& p.blocked_signals@.is_empty()
    &&& p.handlers().dom().is_empty()
    &&& p.priority == 4
    &&& p.wait_ticks == 0
    &&& p.environment().dom().is_empty()
}

/// The set of `u32` values in `[lo, hi)` is finite and has `hi - lo` elements.
proof fn lemma_u32_range(lo: u32, hi: u32)
    requires
        lo <= hi,
    ensures
        set_sized(Set::new(|x: u32| lo <= x < hi), (hi - lo) as usize),
    decreases hi - lo,
{
    let s = Set::new(|x: u32| lo <= x < hi);
    if hi == lo {
        assert(s =~= Set::<u32>::empty());
    } else {
        let h = (hi - 1) as u32;
        lemma_u32_range(lo, h);
        let t = Set::new(|x: u32| lo <= x < h);
        assert(s =~= t.insert(h));
    }
}

impl Clone for Process {
    fn clone(&self) -> (r: Self)
        ensures
            same_contents(r, *self),
    {
        self.duplicate()
    }
}

impl Process {
    /// The open file descriptors.
    pub open spec fn files(&self) -> Map<u32, String> {
        fd_table_view(self.open_files)
    }

    /// The queued messages, oldest first.
    pub open spec fn messages(&self) -> Seq<Message> {
        message_queue_view(self.message_queue)
    }

    /// The installed signal handlers.
    pub open spec fn handlers(&self) -> Map<u32, SignalAction> {
        handler_table_view(self.signal_handlers)
    }

    /// The environment variables.
    pub open spec fn environment(&self) -> Map<Seq<char>, Seq<char>> {
        env_table_view(self.env)
    }

    /// Create a new process
    pub fn new(pid: ProcessId, parent_pid: Option<ProcessId>) -> (r: Self)
        ensures
            is_new_process(r, pid, parent_pid),
    {
        let mut open_files = fd_table_new();
        fd_table_insert(&mut open_files, STDIN_FD, text("/dev/stdin"));
        fd_table_insert(&mut open_files, STDOUT_FD, text("/dev/stdout"));
        fd_table_insert(&mut open_files, STDERR_FD, text("/dev/stderr"));
        let r = Self {
            pid,
            state: ProcessState::Ready,
            parent_pid,
            memory_pages: Vec::new(),
            open_files,
            memory: VirtualMemory::new(),
            message_queue: message_queue_new(),
            wakeup_time: None,
            pending_signals: SignalSet::new(),
            blocked_signals: SignalSet::new(),
            signal_handlers: handler_table_new(),
            priority: 4,
            wait_ticks: 0,
            env: env_table_new(),
        };
        assert(r.files().dom() =~= set![0u32, 1u32, 2u32]);
        r
    }

    /// A copy holding the same contents.
    pub fn duplicate(&self) -> (r: Self)
        ensures
            same_contents(r, *self),
    {
        let pages = self.memory_pages.clone();
        assert(pages@ =~= self.memory_pages@);
        Process {
            pid: self.pid,
            state: self.state,
            parent_pid: self.parent_pid,
            memory_pages: pages,
            open_files: fd_table_clone(&self.open_files),
            memory: self.memory.duplicate(),
            message_queue: message_queue_clone(&self.message_queue),
            wakeup_time: self.wakeup_time,
            pending_signals: self.pending_signals,
            blocked_signals: self.blocked_signals,
            signal_handlers: handler_table_clone(&self.signal_handlers),
            priority: self.priority,
            wait_ticks: self.wait_ticks,
            env: env_table_clone(&self.env),
        }
    }

    /// Check if process is runnable
    pub fn is_runnable(&self) -> (r: bool)
        ensures
            r == (self.state is Ready || self.state is Running),
    {
        matches!(self.state, ProcessState::Ready | ProcessState::Running)
    }

    /// Check if process has terminated
    pub fn is_terminated(&self) -> (r: bool)
        ensures
            r == (self.state is Terminated),
    {
        matches!(self.state, ProcessState::Terminated(_))
    }

    /// Whether a descriptor can still be allocated: fewer descriptors are
    /// open than there are descriptor numbers from 3 up.
    pub open spec fn fd_space_left(&self) -> bool {
        self.files().len() < u32::MAX - 3
    }

    /// Whether a descriptor is left to hand out.
    pub fn has_fd_space(&self) -> (r: bool)
        ensures
            r == self.fd_space_left(),
    {
        fd_table_len(&self.open_files) < 4294967292usize
    }

    /// Allocate next available file descriptor
    pub fn allocate_fd(&self) -> (r: FileDescriptor)
        requires
            self.fd_space_left(),
        ensures
            3 <= r < u32::MAX,
            !self.files().dom().contains(r),
            forall|fd: u32| 3 <= fd < r ==> #[trigger] self.files().dom().contains(fd),
    {
        let n = fd_table_len(&self.open_files);
        let mut fd: u32 = 3;
        while fd_table_contains(&self.open_files, fd)
            invariant
                3 <= fd,
                fd as int <= 3 + n,
                map_sized(self.files(), n),
                n < u32::MAX - 3,
                forall|x: u32| 3 <= x < fd ==> #[trigger] self.files().dom().contains(x),
            decreases 3 + n - fd,
        {
            proof {
                lemma_u32_range(3, (fd + 1) as u32);
                let range = Set::new(|x: u32| 3 <= x < fd + 1);
                assert(range.subset_of(self.files().dom()));
                lemma_len_subset(range, self.files().dom());
            }
            fd = fd + 1;
        }
        fd
    }

    /// Open a file (add file descriptor)
    pub fn open_file(&mut self, path: String) -> (r: FileDescriptor)
        requires
            old(self).fd_space_left(),
        ensures
            r >= 3,
            !old(self).files().dom().contains(r),
            forall|fd: u32| 3 <= fd < r ==> #[trigger] old(self).files().dom().contains(fd),
            final(self).files() == old(self).files().insert(r, path),
            same_contents(*final(self), Process { open_files: final(self).open_files, ..*old(self) }),
    {
        let fd = self.allocate_fd();
        fd_table_insert(&mut self.open_files, fd, path);
        fd
    }

    /// Close a file (remove file descriptor)
    pub fn close_file(&mut self, fd: FileDescriptor) -> (r: Option<String>)
        ensures
            fd < 3 ==> r is None && final(self).files() == old(self).files(),
            fd >= 3 ==> r == old(self).files().get(fd) && final(self).files() == old(self).files().remove(fd),
            same_contents(*final(self), Process { open_files: final(self).open_files, ..*old(self) }),
    {
        if fd == STDIN_FD || fd == STDOUT_FD || fd == STDERR_FD {
            return None;
        }
        fd_table_remove(&mut self.open_files, fd)
    }

    /// Get file path for file descriptor
    pub fn get_file_path(&self, fd: FileDescriptor) -> (r: Option<&String>)
        ensures
            match r {
                Some(p) => self.files().dom().contains(fd) && *p == self.files()[fd],
                None => !self.files().dom().contains(fd),
            },
    {
        fd_table_get(&self.open_files, fd)
    }

    /// Check if file descriptor is open
    pub fn is_fd_open(&self, fd: FileDescriptor) -> (r: bool)
        ensures
            r == self.files().dom().contains(fd),
    {
        fd_table_contains(&self.open_files, fd)
    }

    /// Duplicate file descriptor (for dup2)
    pub fn dup_fd(&mut self, oldfd: FileDescriptor, newfd: FileDescriptor) -> (r: Result<(), String>)
        ensures
            same_contents(*final(self), Process { open_files: final(self).open_files, ..*old(self) }),
            old(self).files().dom().contains(oldfd) ==> r is Ok && final(self).files()
                == old(self).files().insert(newfd, old(self).files()[oldfd]),
            !old(self).files().dom().contains(oldfd) ==> final(self).files() == old(self).files()
                && (r matches Err(e) && e@ == "Invalid oldfd: "@ + crate::text::decimal(oldfd as nat)),
    {
        let path = match fd_table_get(&self.open_files, oldfd) {
            Some(p) => p.clone(),
            None => {
                let mut msg = text("Invalid oldfd: ");
                crate::text::push_decimal(&mut msg, oldfd as u64);
                return Err(msg);
            },
        };
        if fd_table_contains(&self.open_files, newfd) && newfd >= 3 {
            fd_table_remove(&mut self.open_files, newfd);
        }
        fd_table_insert(&mut self.open_files, newfd, path);
        assert(self.files() =~= old(self).files().insert(newfd, old(self).files()[oldfd]));
        Ok(())
    }
}

// ---------------------------------------------------------------------------
// Pipes and the kernel state
// ---------------------------------------------------------------------------

/// Pipe buffer for inter-process communication
#[derive(Clone, Debug, PartialEq, Eq)]
pub struct PipeBuffer {
    /// Pipe read file descriptor
    pub read_fd: FileDescriptor,
    /// Pipe write file descriptor
    pub write_fd: FileDescriptor,
    /// Process ID that owns this pipe
    pub owner_pid: ProcessId,
    /// Buffer data
    pub data: Vec<u8>,
}

/// The process table: identifier to process.
pub uninterp spec fn process_table_view(m: im::HashMap<u32, Process>) -> Map<u32, Process>;

/// `im::HashMap::new` for process tables: the new map is empty.
#[verifier::external_body]
fn process_table_new() -> (r: im::HashMap<u32, Process>)
    ensures
        process_table_view(r).dom().is_empty(),
{
    im::HashMap::new()
}

/// `im::HashMap::clone` for process tables: the clone has the same contents.
#[verifier::external_body]
fn process_table_clone(m: &im::HashMap<u32, Process>) -> (r: im::HashMap<u32, Process>)
    ensures
        process_table_view(r) == process_table_view(*m),
{
    m.clone()
}

/// `im::HashMap::insert` for process tables.
#[verifier::external_body]
pub(crate) fn process_table_insert(m: &mut im::HashMap<u32, Process>, k: u32, v: Process)
    ensures
        process_table_view(*final(m)) == process_table_view(*old(m)).insert(k, v),
{
    m.insert(k, v);
}

/// `im::HashMap::remove` for process tables: returns the removed process, if any.
#[verifier::external_body]
pub(crate) fn process_table_remove(m: &mut im::HashMap<u32, Process>, k: u32) -> (r: Option<Process>)
    ensures
        r == process_table_view(*old(m)).get(k),
        process_table_view(*final(m)) == process_table_view(*old(m)).remove(k),
{
    m.remove(&k)
}

/// `im::HashMap::get` for process tables.
#[verifier::external_body]
pub(crate) fn process_table_get(m: &im::HashMap<u32, Process>, k: u32) -> (r: Option<&Process>)
    ensures
        match r {
            Some(v) => process_table_view(*m).dom().contains(k) && *v == process_table_view(*m)[k],
            None => !process_table_view(*m).dom().contains(k),
        },
{
    m.get(&k)
}

/// `im::HashMap::get_mut` for process tables: a mutable reference to the
/// key's process; the map then holds whatever the reference ends with.
#[verifier::external_body]
fn process_table_get_mut(m: &mut im::HashMap<u32, Process>, k: u32) -> (r: Option<&mut Process>)
    ensures
        match r {
            Some(v) => {
                &&& process_table_view(*old(m)).dom().contains(k)
                &&& *v == process_table_view(*old(m))[k]
                &&& process_table_view(*final(m)) == process_table_view(*old(m)).insert(k, *final(v))
            },
            None => {
                &&& !process_table_view(*old(m)).dom().contains(k)
                &&& process_table_view(*final(m)) == process_table_view(*old(m))
            },
        },
{
    m.get_mut(&k)
}

/// `im::HashMap::contains_key` for process tables.
#[verifier::external_body]
pub(crate) fn process_table_contains(m: &im::HashMap<u32, Process>, k: u32) -> (r: bool)
    ensures
        r == process_table_view(*m).dom().contains(k),
{
    m.contains_key(&k)
}

/// `im::HashMap::len` for process tables: the number of processes; the map is finite.
#[verifier::external_body]
fn process_table_len(m: &im::HashMap<u32, Process>) -> (r: usize)
    ensures
        map_sized(process_table_view(*m), r),
{
    m.len()
}

/// `im::HashMap::keys`, collected: every identifier once, in the map's
/// iteration order, which this contract leaves open.
#[verifier::external_body]
pub(crate) fn process_table_keys(m: &im::HashMap<u32, Process>) -> (r: Vec<u32>)
    ensures
        r@.no_duplicates() && r@.to_set() == process_table_view(*m).dom(),
{
    m.keys().copied().collect()
}

/// The pipe table: read descriptor to pipe buffer.
pub uninterp spec fn pipe_table_view(m: im::HashMap<u32, PipeBuffer>) -> Map<u32, PipeBuffer>;

/// `im::HashMap::new` for pipe tables: the new map is empty.
#[verifier::external_body]
fn pipe_table_new() -> (r: im::HashMap<u32, PipeBuffer>)
    ensures
        pipe_table_view(r).dom().is_empty(),
{
    im::HashMap::new()
}

/// `im::HashMap::clone` for pipe tables: the clone has the same contents.
#[verifier::external_body]
fn pipe_table_clone(m: &im::HashMap<u32, PipeBuffer>) -> (r: im::HashMap<u32, PipeBuffer>)
    ensures
        pipe_table_view(r) == pipe_table_view(*m),
{
    m.clone()
}

/// `im::HashMap::insert` for pipe tables.
#[verifier::external_body]
pub(crate) fn pipe_table_insert(m: &mut im::HashMap<u32, PipeBuffer>, k: u32, v: PipeBuffer)
    ensures
        pipe_table_view(*final(m)) == pipe_table_view(*old(m)).insert(k, v),
{
    m.insert(k, v);
}

/// `im::HashMap::get` for pipe tables.
#[verifier::external_body]
pub(crate) fn pipe_table_get(m: &im::HashMap<u32, PipeBuffer>, k: u32) -> (r: Option<&PipeBuffer>)
    ensures
        match r {
            Some(v) => pipe_table_view(*m).dom().contains(k) && *v == pipe_table_view(*m)[k],
            None => !pipe_table_view(*m).dom().contains(k),
        },
{
    m.get(&k)
}

/// `im::HashMap::remove` for pipe tables: returns the removed pipe, if any.
#[verifier::external_body]
pub(crate) fn pipe_table_remove(m: &mut im::HashMap<u32, PipeBuffer>, k: u32) -> (r: Option<PipeBuffer>)
    ensures
        r == pipe_table_view(*old(m)).get(k),
        pipe_table_view(*final(m)) == pipe_table_view(*old(m)).remove(k),
{
    m.remove(&k)
}

/// Complete kernel state
#[derive(Debug, PartialEq)]
pub struct KernelState {
    /// Process table (persistent HashMap for O(1) cloning)
    pub processes: im::HashMap<ProcessId, Process>,
    /// Next available PID
    pub next_pid: ProcessId,
    /// Currently running process
    pub current_pid: Option<ProcessId>,
    /// Pipe buffers (keyed by read FD)
    pub pipes: im::HashMap<FileDescriptor, PipeBuffer>,
    /// The simulated clock's current time in microseconds
    pub simulated_time: u64,
}

impl Clone for KernelState {
    fn clone(&self) -> (r: Self)
        ensures
            r.procs() == self.procs(),
            r.next_pid == self.next_pid,
            r.current_pid == self.current_pid,
            r.pipe_map() == self.pipe_map(),
            r.simulated_time == self.simulated_time,
    {
        KernelState {
            processes: process_table_clone(&self.processes),
            next_pid: self.next_pid,
            current_pid: self.current_pid,
            pipes: pipe_table_clone(&self.pipes),
            simulated_time: self.simulated_time,
        }
    }
}

impl Default for KernelState {
    fn default() -> (r: Self)
        ensures
            r.procs().dom().is_empty(),
            r.next_pid == 1,
            r.current_pid is None,
            r.pipe_map().dom().is_empty(),
            r.simulated_time == 0,
    {
        Self::new()
    }
}

impl KernelState {
    /// The process table.
    pub open spec fn procs(&self) -> Map<ProcessId, Process> {
        process_table_view(self.processes)
    }

    /// The pipes by read descriptor.
    pub open spec fn pipe_map(&self) -> Map<FileDescriptor, PipeBuffer> {
        pipe_table_view(self.pipes)
    }

    /// Create new kernel state
    pub fn new() -> (r: Self)
        ensures
            r.procs().dom().is_empty(),
            r.next_pid == 1,
            r.current_pid is None,
            r.pipe_map().dom().is_empty(),
            r.simulated_time == 0,
    {
        Self {
            processes: process_table_new(),
            next_pid: 1,
            current_pid: None,
            pipes: pipe_table_new(),
            simulated_time: 0,
        }
    }

    /// Create kernel state with init and shell processes
    pub fn with_init() -> (r: Self)
        ensures
            r.procs().dom() == set![1u32, 2u32],
            is_new_process(r.procs()[1], 1, None),
            is_new_process(r.procs()[2], 2, Some(1u32)),
            r.next_pid == 3,
            r.current_pid == Some(2u32),
            r.pipe_map().dom().is_empty(),
            r.simulated_time == 0,
    {
        let mut state = Self::new();
        let init = Process::new(1, None);
        state.add_process(init);
        state.next_pid = 2;
        let shell = Process::new(2, Some(1));
        state.add_process(shell);
        state.next_pid = 3;
        state.current_pid = Some(2);
        assert(state.procs().dom() =~= set![1u32, 2u32]);
        state
    }

    /// Allocate a new process ID
    pub fn allocate_pid(&mut self) -> (r: ProcessId)
        requires
            old(self).next_pid < u32::MAX,
        ensures
            r == old(self).next_pid,
            final(self).next_pid == old(self).next_pid + 1,
            final(self).procs() == old(self).procs(),
            final(self).current_pid == old(self).current_pid,
            final(self).pipe_map() == old(self).pipe_map(),
            final(self).simulated_time == old(self).simulated_time,
    {
        let pid = self.next_pid;
        self.next_pid = self.next_pid + 1;
        pid
    }

    /// Add a process to the process table
    pub fn add_process(&mut self, process: Process)
        ensures
            final(self).procs() == old(self).procs().insert(process.pid, process),
            final(self).next_pid == old(self).next_pid,
            final(self).current_pid == old(self).current_pid,
            final(self).pipe_map() == old(self).pipe_map(),
            final(self).simulated_time == old(self).simulated_time,
    {
        let pid = process.pid;
        process_table_insert(&mut self.processes, pid, process);
    }

    /// Get a process by PID
    pub fn get_process(&self, pid: ProcessId) -> (r: Option<&Process>)
        ensures
            match r {
                Some(p) => self.procs().dom().contains(pid) && *p == self.procs()[pid],
                None => !self.procs().dom().contains(pid),
            },
    {
        process_table_get(&self.processes, pid)
    }

    /// Get a mutable reference to a process
    pub fn get_process_mut(&mut self, pid: ProcessId) -> (r: Option<&mut Process>)
        ensures
            final(self).next_pid == old(self).next_pid,
            final(self).current_pid == old(self).current_pid,
            final(self).pipe_map() == old(self).pipe_map(),
            final(self).simulated_time == old(self).simulated_time,
            match r {
                Some(p) => {
                    &&& old(self).procs().dom().contains(pid)
                    &&& *p == old(self).procs()[pid]
                    &&& final(self).procs() == old(self).procs().insert(pid, *final(p))
                },
                None => {
                    &&& !old(self).procs().dom().contains(pid)
                    &&& final(self).procs() == old(self).procs()
                },
            },
    {
        process_table_get_mut(&mut self.processes, pid)
    }

    /// Remove a process from the process table
    pub fn remove_process(&mut self, pid: ProcessId) -> (r: Option<Process>)
        ensures
            r == old(self).procs().get(pid),
            final(self).procs() == old(self).procs().remove(pid),
            final(self).next_pid == old(self).next_pid,
            final(self).current_pid == old(self).current_pid,
            final(self).pipe_map() == old(self).pipe_map(),
            final(self).simulated_time == old(self).simulated_time,
    {
        process_table_remove(&mut self.processes, pid)
    }

    /// Count of active processes
    pub fn process_count(&self) -> (r: usize)
        ensures
            map_sized(self.procs(), r),
    {
        process_table_len(&self.processes)
    }
}

// ---------------------------------------------------------------------------
// Invariant queries over the process table
// ---------------------------------------------------------------------------

/// The sum of `f` over the processes of the given identifiers.
pub open spec fn sum_over(m: Map<ProcessId, Process>, ks: Set<ProcessId>, f: spec_fn(Process) -> nat) -> nat
    decreases ks.len(),
{
    if ks.finite() && ks.len() > 0 {
        let k = ks.choose();
        proof {
            assert(ks.contains(k)) by {
                if !ks.contains(k) {
                    assert(ks =~= Set::<ProcessId>::empty());
                }
            }
        }
        f(m[k]) + sum_over(m, ks.remove(k), f)
    } else {
        0
    }
}

/// A sum over a finite set of identifiers splits off any one of them.
proof fn lemma_sum_remove(m: Map<ProcessId, Process>, ks: Set<ProcessId>, f: spec_fn(Process) -> nat, k: ProcessId)
    requires
        ks.finite(),
        ks.contains(k),
    ensures
        sum_over(m, ks, f) == f(m[k]) + sum_over(m, ks.remove(k), f),
    decreases ks.len(),
{
    let c = ks.choose();
    assert(ks.contains(c)) by {
        if !ks.contains(c) {
            assert(ks.contains(k));
        }
    }
    if c != k {
        lemma_sum_remove(m, ks.remove(c), f, k);
        lemma_sum_remove(m, ks.remove(k), f, c);
        assert(ks.remove(c).remove(k) =~= ks.remove(k).remove(c));
    }
}

/// Adding one new identifier to a finite set adds its term to the sum.
proof fn lemma_sum_insert(m: Map<ProcessId, Process>, ks: Set<ProcessId>, f: spec_fn(Process) -> nat, k: ProcessId)
    requires
        ks.finite(),
        !ks.contains(k),
    ensures
        sum_over(m, ks.insert(k), f) == f(m[k]) + sum_over(m, ks, f),
{
    lemma_sum_remove(m, ks.insert(k), f, k);
    assert(ks.insert(k).remove(k) =~= ks);
}

/// The identifiers among the first `i` of a sequence, as a set; it grows by one
/// distinct identifier per step.
proof fn lemma_prefix_set(ks: Seq<ProcessId>, i: int)
    requires
        ks.no_duplicates(),
        0 <= i < ks.len(),
    ensures
        ks.take(i).to_set().finite(),
        !ks.take(i).to_set().contains(ks[i]),
        ks.take(i + 1).to_set() == ks.take(i).to_set().insert(ks[i]),
{
    vstd::seq_lib::seq_to_set_is_finite(ks.take(i));
    assert(ks.take(i + 1) =~= ks.take(i).push(ks[i]));
    assert forall|x: ProcessId| #[trigger] ks.take(i + 1).to_set().contains(x) == ks.take(
        i,
    ).to_set().insert(ks[i]).contains(x) by {
        let a = ks.take(i + 1);
        let b = ks.take(i);
        if a.contains(x) {
            let j = choose|j: int| 0 <= j < a.len() && a[j] == x;
            if j < i {
                assert(b[j] == x);
                assert(b.contains(x));
            }
        }
        if b.contains(x) {
            let j = choose|j: int| 0 <= j < b.len() && b[j] == x;
            assert(a[j] == x);
        }
        if x == ks[i] {
            assert(a[i] == x);
        }
    }
    assert(ks.take(i + 1).to_set() =~= ks.take(i).to_set().insert(ks[i]));
    if ks.take(i).to_set().contains(ks[i]) {
        let j = choose|j: int| 0 <= j < i && ks.take(i)[j] == ks[i];
        assert(ks[j] == ks[i]);
    }
}

/// The identifiers among the first `i` of a sequence without duplicates
/// grow by one new identifier per step.
pub proof fn lemma_prefix_set_pub(ks: Seq<ProcessId>, i: int)
    requires
        ks.no_duplicates(),
        0 <= i < ks.len(),
    ensures
        ks.take(i).to_set().finite(),
        !ks.take(i).to_set().contains(ks[i]),
        ks.take(i + 1).to_set() == ks.take(i).to_set().insert(ks[i]),
{
    lemma_prefix_set(ks, i);
}

/// Bytes of memory pages a process holds.
pub open spec fn page_bytes(p: Process) -> nat {
    p.memory_pages@.len() * 4096
}

/// Open descriptors a process holds.
pub open spec fn fd_count(p: Process) -> nat {
    p.files().len()
}

/// One for a terminated process, else zero.
pub open spec fn is_zombie(p: Process) -> nat {
    if p.state is Terminated {
        1
    } else {
        0
    }
}

/// One for a running process, else zero.
pub open spec fn is_running(p: Process) -> nat {
    if p.state is Running {
        1
    } else {
        0
    }
}

/// A natural number, saturated at `usize::MAX`.
pub open spec fn saturate(n: nat) -> usize {
    if n <= usize::MAX {
        n as usize
    } else {
        usize::MAX
    }
}

/// The largest number of memory pages a process may hold.
pub const MAX_PAGES_PER_PROCESS: usize = 65536;

impl KernelState {
    /// The sum of `f` over every process of the table.
    pub open spec fn total(&self, f: spec_fn(Process) -> nat) -> nat {
        sum_over(self.procs(), self.procs().dom(), f)
    }

    /// Adds up one kind of total (see `total_kind`) over every process,
    /// saturating at `usize::MAX`.
    fn saturating_total(&self, which: u8) -> (r: usize)
        requires
            which < 4,
        ensures
            r == saturate(self.total(total_kind(which))),
    {
        let ks = process_table_keys(&self.processes);
        let ghost m = self.procs();
        let ghost f = total_kind(which);
        let mut acc: usize = 0;
        let mut i: usize = 0;
        while i < ks.len()
            invariant
                i <= ks.len(),
                ks@.no_duplicates(),
                ks@.to_set() == m.dom(),
                m == self.procs(),
                f == total_kind(which),
                which < 4,
                acc == saturate(sum_over(m, ks@.take(i as int).to_set(), f)),
            decreases ks.len() - i,
        {
            let k = ks[i];
            proof {
                lemma_prefix_set(ks@, i as int);
                lemma_sum_insert(m, ks@.take(i as int).to_set(), f, k);
                assert(ks@.to_set().contains(k));
            }
            let p = match process_table_get(&self.processes, k) {
                Some(p) => p,
                None => {
                    assert(false);
                    return 0;
                },
            };
            let term: usize = if which == 0 {
                let n = p.memory_pages.len();
                if n > usize::MAX / 4096 {
                    usize::MAX
                } else {
                    n * 4096
                }
            } else if which == 1 {
                fd_table_len(&p.open_files)
            } else if which == 2 {
                if p.is_terminated() { 1 } else { 0 }
            } else {
                if matches!(p.state, ProcessState::Running) { 1 } else { 0 }
            };
            assert(term == saturate(f(m[k])));
            acc = if acc > usize::MAX - term {
                usize::MAX
            } else {
                acc + term
            };
            i = i + 1;
        }
        assert(ks@.take(ks@.len() as int) =~= ks@);
        acc
    }
}

/// The quantity summed by each kind of total: memory bytes, descriptors,
/// zombies, running processes.
pub open spec fn total_kind(which: u8) -> spec_fn(Process) -> nat {
    if which == 0 {
        |p: Process| page_bytes(p)
    } else if which == 1 {
        |p: Process| fd_count(p)
    } else if which == 2 {
        |p: Process| is_zombie(p)
    } else {
        |p: Process| is_running(p)
    }
}

/// Some process names a parent, other than the kernel's 0, that is not in the table.
pub open spec fn has_orphan(m: Map<ProcessId, Process>) -> bool {
    exists|k: ProcessId|
        #![trigger m.dom().contains(k)]
        m.dom().contains(k) && (m[k].parent_pid matches Some(pp) && pp != 0 && !m.dom().contains(pp))
}

/// Every process is filed under its own identifier.
pub open spec fn pids_match_keys(m: Map<ProcessId, Process>) -> bool {
    forall|k: ProcessId| #![trigger m.dom().contains(k)] m.dom().contains(k) ==> m[k].pid == k
}

/// Some process lists a memory page twice.
pub open spec fn has_duplicate_pages(m: Map<ProcessId, Process>) -> bool {
    exists|k: ProcessId|
        #![trigger m.dom().contains(k)]
        m.dom().contains(k) && !m[k].memory_pages@.no_duplicates()
}

/// No process holds more than the per-process page limit.
pub open spec fn page_counts_bounded(m: Map<ProcessId, Process>) -> bool {
    forall|k: ProcessId|
        #![trigger m.dom().contains(k)]
        m.dom().contains(k) ==> m[k].memory_pages@.len() <= MAX_PAGES_PER_PROCESS
}

/// Every running process is the current process, and the current process,
/// if any, is in the table and running.
pub open spec fn process_states_valid(m: Map<ProcessId, Process>, current: Option<ProcessId>) -> bool {
    &&& forall|k: ProcessId|
        #![trigger m.dom().contains(k)]
        m.dom().contains(k) && m[k].state is Running ==> current == Some(m[k].pid)
    &&& current matches Some(c) ==> m.dom().contains(c) && m[c].state is Running
}

/// At most one process runs, and one runs exactly when there is a current process.
pub open spec fn running_consistent(running: nat, current: Option<ProcessId>) -> bool {
    &&& running <= 1
    &&& current is Some ==> running == 1
    &&& current is None ==> running == 0
}

/// The process-state check of a Jidoka guard on a kernel state finds a
/// violation exactly when some running process is not the current one, or
/// the current process is missing or not running.
pub proof fn law_process_state_check(state: KernelState)
    ensures
        crate::jidoka::check_violation(crate::jidoka::InvariantCheck::ValidProcessStates, state) is Some <==> (
        (exists|k: ProcessId|
            #![trigger state.procs().dom().contains(k)]
            state.procs().dom().contains(k) && state.procs()[k].state is Running && state.current_pid != Some(
                state.procs()[k].pid,
            )) || (state.current_pid matches Some(c) && !(state.procs().dom().contains(c)
            && state.procs()[c].state is Running))),
{
}

/// The structural checks of a Jidoka guard on a kernel state: the PID
/// check fires exactly when some process is filed under another identifier
/// than its own; the orphan check exactly when some process names a parent
/// other than 0 that is not in the table; the overlap check exactly when
/// some process lists a page twice; the totals check exactly when some
/// process holds more than 65536 pages.
pub proof fn law_structural_checks(state: KernelState)
    ensures
        crate::jidoka::check_violation(crate::jidoka::InvariantCheck::UniquePids, state) is Some <==> (exists|k: ProcessId|
            #![trigger state.procs().dom().contains(k)]
            state.procs().dom().contains(k) && state.procs()[k].pid != k),
        crate::jidoka::check_violation(crate::jidoka::InvariantCheck::NoOrphanProcesses, state) is Some <==> (exists|
            k: ProcessId,
        |
            #![trigger state.procs().dom().contains(k)]
            state.procs().dom().contains(k) && (state.procs()[k].parent_pid matches Some(pp) && pp != 0
                && !state.procs().dom().contains(pp))),
        crate::jidoka::check_violation(crate::jidoka::InvariantCheck::NoMemoryOverlaps, state) is Some <==> (exists|
            k: ProcessId,
        |
            #![trigger state.procs().dom().contains(k)]
            state.procs().dom().contains(k) && !state.procs()[k].memory_pages@.no_duplicates()),
        crate::jidoka::check_violation(crate::jidoka::InvariantCheck::ConsistentMemoryTotals, state) is Some <==> (exists|
            k: ProcessId,
        |
            #![trigger state.procs().dom().contains(k)]
            state.procs().dom().contains(k) && state.procs()[k].memory_pages@.len() > 65536),
{
}

impl KernelStateView for KernelState {
    open spec fn spec_process_count(&self) -> usize {
        self.procs().len() as usize
    }

    open spec fn spec_memory_used(&self) -> usize {
        saturate(self.total(total_kind(0)))
    }

    open spec fn spec_total_fd_count(&self) -> usize {
        saturate(self.total(total_kind(1)))
    }

    open spec fn spec_has_orphan_processes(&self) -> bool {
        has_orphan(self.procs())
    }

    open spec fn spec_zombie_count(&self) -> usize {
        saturate(self.total(total_kind(2)))
    }

    open spec fn spec_vm_count(&self) -> usize {
        0
    }

    open spec fn spec_vm_memory_within_bounds(&self) -> bool {
        true
    }

    open spec fn spec_rng_state_valid(&self) -> bool {
        true
    }

    open spec fn spec_all_pids_unique(&self) -> bool {
        pids_match_keys(self.procs())
    }

    open spec fn spec_has_memory_overlaps(&self) -> bool {
        has_duplicate_pages(self.procs())
    }

    open spec fn spec_memory_totals_consistent(&self) -> bool {
        page_counts_bounded(self.procs())
    }

    open spec fn spec_all_process_states_valid(&self) -> bool {
        process_states_valid(self.procs(), self.current_pid)
    }

    open spec fn spec_scheduler_consistent(&self) -> bool {
        running_consistent(self.total(total_kind(3)), self.current_pid)
    }

    fn process_count(&self) -> (r: usize) {
        process_table_len(&self.processes)
    }

    fn memory_used(&self) -> (r: usize) {
        self.saturating_total(0)
    }

    fn total_fd_count(&self) -> (r: usize) {
        self.saturating_total(1)
    }

    fn has_orphan_processes(&self) -> (r: bool) {
        let ks = process_table_keys(&self.processes);
        let mut i: usize = 0;
        while i < ks.len()
            invariant
                i <= ks.len(),
                ks@.to_set() == self.procs().dom(),
                forall|j: int| 0 <= j < i ==> !(self.procs()[#[trigger] ks@[j]].parent_pid matches Some(pp)
                    && pp != 0 && !self.procs().dom().contains(pp)),
            decreases ks.len() - i,
        {
            let k = ks[i];
            assert(ks@.to_set().contains(k));
            let p = match process_table_get(&self.processes, k) {
                Some(p) => p,
                None => {
                    assert(false);
                    return false;
                },
            };
            if let Some(parent_pid) = p.parent_pid {
                if parent_pid != 0 && !process_table_contains(&self.processes, parent_pid) {
                    assert(self.procs().dom().contains(k));
                    return true;
                }
            }
            i = i + 1;
        }
        assert forall|k: ProcessId| #[trigger] self.procs().dom().contains(k) implies !(
        self.procs()[k].parent_pid matches Some(pp) && pp != 0 && !self.procs().dom().contains(
            pp,
        )) by {
            assert(ks@.to_set().contains(k));
            let j = choose|j: int| 0 <= j < ks@.len() && ks@[j] == k;
        }
        false
    }

    fn zombie_count(&self) -> (r: usize) {
        self.saturating_total(2)
    }

    fn vm_count(&self) -> (r: usize) {
        0
    }

    fn vm_memory_within_bounds(&self) -> (r: bool) {
        true
    }

    fn rng_state_valid(&self) -> (r: bool) {
        true
    }

    fn all_pids_unique(&self) -> (r: bool) {
        let ks = process_table_keys(&self.processes);
        let mut i: usize = 0;
        while i < ks.len()
            invariant
                i <= ks.len(),
                ks@.to_set() == self.procs().dom(),
                forall|j: int| 0 <= j < i ==> self.procs()[#[trigger] ks@[j]].pid == ks@[j],
            decreases ks.len() - i,
        {
            let k = ks[i];
            assert(ks@.to_set().contains(k));
            let p = match process_table_get(&self.processes, k) {
                Some(p) => p,
                None => {
                    assert(false);
                    return false;
                },
            };
            if p.pid != k {
                return false;
            }
            i = i + 1;
        }
        assert forall|k: ProcessId| #[trigger] self.procs().dom().contains(k) implies self.procs()[k].pid
            == k by {
            assert(ks@.to_set().contains(k));
            let j = choose|j: int| 0 <= j < ks@.len() && ks@[j] == k;
        }
        true
    }

    fn has_memory_overlaps(&self) -> (r: bool) {
        let ks = process_table_keys(&self.processes);
        let mut i: usize = 0;
        while i < ks.len()
            invariant
                i <= ks.len(),
                ks@.to_set() == self.procs().dom(),
                forall|j: int| 0 <= j < i ==> self.procs()[#[trigger] ks@[j]].memory_pages@.no_duplicates(),
            decreases ks.len() - i,
        {
            let k = ks[i];
            assert(ks@.to_set().contains(k));
            let p = match process_table_get(&self.processes, k) {
                Some(p) => p,
                None => {
                    assert(false);
                    return false;
                },
            };
            if !distinct_pages(&p.memory_pages) {
                assert(self.procs().dom().contains(k));
                return true;
            }
            i = i + 1;
        }
        assert forall|k: ProcessId| #[trigger] self.procs().dom().contains(k) implies self.procs()[k].memory_pages@.no_duplicates() by {
            assert(ks@.to_set().contains(k));
            let j = choose|j: int| 0 <= j < ks@.len() && ks@[j] == k;
        }
        false
    }

    fn memory_totals_consistent(&self) -> (r: bool) {
        let ks = process_table_keys(&self.processes);
        let mut i: usize = 0;
        while i < ks.len()
            invariant
                i <= ks.len(),
                ks@.to_set() == self.procs().dom(),
                forall|j: int| 0 <= j < i ==> self.procs()[#[trigger] ks@[j]].memory_pages@.len() <= MAX_PAGES_PER_PROCESS,
            decreases ks.len() - i,
        {
            let k = ks[i];
            assert(ks@.to_set().contains(k));
            let p = match process_table_get(&self.processes, k) {
                Some(p) => p,
                None => {
                    assert(false);
                    return false;
                },
            };
            if p.memory_pages.len() > MAX_PAGES_PER_PROCESS {
                assert(self.procs().dom().contains(k));
                return false;
            }
            i = i + 1;
        }
        assert forall|k: ProcessId| #[trigger] self.procs().dom().contains(k) implies self.procs()[k].memory_pages@.len() <= MAX_PAGES_PER_PROCESS by {
            assert(ks@.to_set().contains(k));
            let j = choose|j: int| 0 <= j < ks@.len() && ks@[j] == k;
        }
        true
    }

    fn all_process_states_valid(&self) -> (r: bool) {
        let ks = process_table_keys(&self.processes);
        let mut i: usize = 0;
        while i < ks.len()
            invariant
                i <= ks.len(),
                ks@.to_set() == self.procs().dom(),
                forall|j: int| 0 <= j < i && self.procs()[#[trigger] ks@[j]].state is Running ==> self.current_pid == Some(self.procs()[ks@[j]].pid),
            decreases ks.len() - i,
        {
            let k = ks[i];
            assert(ks@.to_set().contains(k));
            let p = match process_table_get(&self.processes, k) {
                Some(p) => p,
                None => {
                    assert(false);
                    return false;
                },
            };
            if matches!(p.state, ProcessState::Running) && self.current_pid != Some(p.pid) {
                assert(self.procs().dom().contains(k));
                return false;
            }
            i = i + 1;
        }
        assert forall|k: ProcessId| #[trigger] self.procs().dom().contains(k) && self.procs()[k].state is Running implies self.current_pid == Some(self.procs()[k].pid) by {
            assert(ks@.to_set().contains(k));
            let j = choose|j: int| 0 <= j < ks@.len() && ks@[j] == k;
        }
        if let Some(current) = self.current_pid {
            match process_table_get(&self.processes, current) {
                Some(process) => {
                    if !matches!(process.state, ProcessState::Running) {
                        return false;
                    }
                },
                None => {
                    return false;
                },
            }
        }
        true
    }

    fn scheduler_consistent(&self) -> (r: bool) {
        let running_count = self.saturating_total(3);
        let n = process_table_len(&self.processes);
        proof {
            self.lemma_running_total_fits(n);
        }
        if running_count > 1 {
            return false;
        }
        if self.current_pid.is_some() && running_count != 1 {
            return false;
        }
        if self.current_pid.is_none() && running_count != 0 {
            return false;
        }
        true
    }
}

impl KernelState {
    /// A count of processes never exceeds the number of processes, which
    /// fits in a `usize`.
    proof fn lemma_running_total_fits(&self, n: usize)
        requires
            map_sized(self.procs(), n),
        ensures
            self.total(total_kind(3)) <= usize::MAX,
    {
        let m = self.procs();
        lemma_indicator_sum_bounded(m, m.dom(), total_kind(3));
    }
}

/// A sum of zeros and ones over a finite set is at most the set's size.
proof fn lemma_indicator_sum_bounded(m: Map<ProcessId, Process>, ks: Set<ProcessId>, f: spec_fn(Process) -> nat)
    requires
        ks.finite(),
        forall|p: Process| #[trigger] f(p) <= 1,
    ensures
        sum_over(m, ks, f) <= ks.len(),
    decreases ks.len(),
{
    if ks.len() > 0 {
        let k = ks.choose();
        lemma_sum_remove(m, ks, f, k);
        assert(ks.contains(k)) by {
            if !ks.contains(k) {
                assert(ks =~= Set::<ProcessId>::empty());
            }
        }
        lemma_indicator_sum_bounded(m, ks.remove(k), f);
    }
}

/// Whether a list of pages holds no page twice.
fn distinct_pages(pages: &Vec<u32>) -> (r: bool)
    ensures
        r == pages@.no_duplicates(),
{
    let mut i: usize = 0;
    while i < pages.len()
        invariant
            i <= pages.len(),
            forall|a: int, b: int| 0 <= a < b < pages@.len() && a < i ==> pages@[a] != pages@[b],
        decreases pages.len() - i,
    {
        let mut j: usize = i + 1;
        while j < pages.len()
            invariant
                i < pages.len(),
                i + 1 <= j <= pages.len(),
                forall|a: int, b: int| 0 <= a < b < pages@.len() && a < i ==> pages@[a] != pages@[b],
                forall|b: int| i < b < j ==> pages@[i as int] != pages@[b],
            decreases pages.len() - j,
        {
            if pages[i] == pages[j] {
                return false;
            }
            j = j + 1;
        }
        i = i + 1;
    }
    true
}


// ---------------------------------------------------------------------------
// State hashing
// ---------------------------------------------------------------------------

/// `h` rotated left by `k` bits, for `k` below 64.
pub open spec fn rotated(h: u64, k: u64) -> u64 {
    if k == 0 {
        h
    } else {
        (h << k) | (h >> (64 - k) as u64)
    }
}

/// Byte `i` of the 32-byte expansion of a 64-bit hash: four little-endian
/// copies of the hash, the `n`-th rotated left by `16 * n` bits.
pub open spec fn hash_byte(h: u64, i: int) -> u8 {
    ((rotated(h, (16 * (i / 8)) as u64) >> (8 * (i % 8)) as u64) & 0xff) as u8
}

/// `r` is the 32-byte expansion of the hash `h`.
pub open spec fn is_expansion(r: Seq<u8>, h: u64) -> bool {
    &&& r.len() == 32
    &&& forall|i: int| 0 <= i < 32 ==> #[trigger] r[i] == hash_byte(h, i)
}

/// Expands a 64-bit hash to 32 bytes: four little-endian copies, the
/// `n`-th rotated left by `16 * n` bits.
pub fn expand_hash(hash: u64) -> (r: [u8; 32])
    ensures
        is_expansion(r@, hash),
{
    let mut result = [0u8; 32];
    let mut n: usize = 0;
    while n < 4
        invariant
            n <= 4,
            result@.len() == 32,
            forall|i: int| 0 <= i < 8 * n ==> #[trigger] result@[i] == hash_byte(hash, i),
        decreases 4 - n,
    {
        let k = (16 * n) as u64;
        let rot: u64 = if k == 0 {
            hash
        } else {
            (hash << k) | (hash >> (64 - k))
        };
        assert(rot == rotated(hash, k));
        let mut j: usize = 0;
        while j < 8
            invariant
                n < 4,
                j <= 8,
                k == 16 * n,
                rot == rotated(hash, k),
                result@.len() == 32,
                forall|i: int| 0 <= i < 8 * n + j ==> #[trigger] result@[i] == hash_byte(hash, i),
            decreases 8 - j,
        {
            let idx = 8 * n + j;
            let b = ((rot >> ((8 * j) as u64)) & 0xff) as u8;
            result[idx] = b;
            proof {
                assert((idx as int) / 8 == n as int);
                assert((idx as int) % 8 == j as int);
                assert(result@[idx as int] == hash_byte(hash, idx as int));
            }
            j = j + 1;
        }
        n = n + 1;
    }
    result
}

/// The hash `DefaultHasher` gives for a text, hashed as `str` hashes itself:
/// its UTF-8 bytes, then the byte `0xff`.
pub open spec fn text_hash(t: Seq<char>) -> u64 {
    DefaultHasher::spec_finish(seq![encode_utf8(t), seq![0xffu8]])
}

/// The 32-byte hash of a state from its JSON text: the text's
/// `DefaultHasher` hash, expanded by `expand_hash`.
pub fn hash_of_json(json: &String) -> (r: [u8; 32])
    ensures
        is_expansion(r@, text_hash(json@)),
{
    let mut hasher = DefaultHasher::new();
    let text = json.as_str();
    let bytes = text.as_bytes();
    assert(bytes@ == encode_utf8(json@));
    hasher.write(bytes);
    let end: [u8; 1] = [0xffu8];
    let tail: &[u8] = &end;
    assert(tail@ =~= seq![0xffu8]);
    hasher.write(tail);
    assert(hasher@ =~= seq![encode_utf8(json@), seq![0xffu8]]);
    let h = hasher.finish();
    expand_hash(h)
}

} // verus!
