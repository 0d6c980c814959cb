//! Synchronisation primitives: mutexes with FIFO hand-off, counting and
//! bounded semaphores, and a manager that creates and destroys them.

use crate::persistent::{
    pid_queue_contains, pid_queue_len, pid_queue_new, pid_queue_pop_front,
    pid_queue_push_back, pid_queue_view,
};
use crate::state::ProcessId;
use vstd::prelude::*;

verus! {

/// Mutex identifier
pub type MutexId = u32;

/// Semaphore identifier
pub type SemaphoreId = u32;

/// Mutex state
#[derive(Clone, Copy, Debug, PartialEq, Eq)]
pub enum MutexState {
    /// Mutex is unlocked
    Unlocked,
    /// Mutex is locked by a process
    Locked(ProcessId),
}

/// Mutex for mutual exclusion
#[derive(Debug, PartialEq)]
pub struct Mutex {
    /// Unique mutex identifier
    pub id: MutexId,
    /// Current state (locked or unlocked)
    pub state: MutexState,
    /// Queue of processes waiting to acquire this mutex
    pub wait_queue: im::Vector<ProcessId>,
}

/// Result of mutex lock operation
#[derive(Clone, Copy, Debug, PartialEq, Eq)]
pub enum MutexLockResult {
    /// Lock successfully acquired
    Acquired,
    /// Process blocked and added to wait queue
    Blocked,
    /// Deadlock detected (process trying to lock mutex it already owns)
    Deadlock,
}

impl Clone for Mutex {
    fn clone(&self) -> (r: Self)
        ensures
            r.id == self.id,
            r.state == self.state,
            r.waiters() == self.waiters(),
    {
        Mutex {
            id: self.id,
            state: self.state,
            wait_queue: crate::persistent::pid_queue_clone(&self.wait_queue),
        }
    }
}

impl Mutex {
    /// The processes waiting for the mutex, longest waiting first.
    pub open spec fn waiters(&self) -> Seq<ProcessId> {
        pid_queue_view(self.wait_queue)
    }

    /// A mutex is consistent when no process waits twice, the owner does not
    /// wait for its own mutex, and nobody waits for an unlocked mutex.
    pub open spec fn wf(&self) -> bool {
        &&& self.waiters().no_duplicates()
        &&& match self.state {
            MutexState::Locked(o) => !self.waiters().contains(o),
            MutexState::Unlocked => self.waiters().len() == 0,
        }
    }

    /// Create a new mutex
    pub fn new(id: MutexId) -> (r: Self)
        ensures
            r.id == id,
            r.state == MutexState::Unlocked,
            r.waiters() == Seq::<ProcessId>::empty(),
            r.wf(),
    {
        Self { id, state: MutexState::Unlocked, wait_queue: pid_queue_new() }
    }

    /// Check if mutex is locked
    pub fn is_locked(&self) -> (r: bool)
        ensures
            r == (self.state is Locked),
    {
        matches!(self.state, MutexState::Locked(_))
    }

    /// Get the process that owns this mutex (if locked)
    pub fn owner(&self) -> (r: Option<ProcessId>)
        ensures
            r == match self.state {
                MutexState::Locked(pid) => Some(pid),
                MutexState::Unlocked => None,
            },
    {
        match self.state {
            MutexState::Locked(pid) => Some(pid),
            MutexState::Unlocked => None,
        }
    }

    /// Try to lock the mutex
    ///
    /// Returns Ok(()) if lock acquired, Err if already locked
    pub fn try_lock(&mut self, pid: ProcessId) -> (r: Result<(), &'static str>)
        ensures
            final(self).id == old(self).id,
            final(self).waiters() == old(self).waiters(),
            old(self).wf() ==> final(self).wf(),
            old(self).state is Unlocked ==> r is Ok && final(self).state == MutexState::Locked(
                pid,
            ),
            old(self).state is Locked ==> final(self).state == old(self).state && (r matches Err(
                e,
            ) && e@ == "Mutex already locked"@),
    {
        match self.state {
            MutexState::Unlocked => {
                self.state = MutexState::Locked(pid);
                Ok(())
            },
            MutexState::Locked(_) => Err("Mutex already locked"),
        }
    }

    /// Lock the mutex (blocking)
    ///
    /// If already locked, add process to wait queue
    pub fn lock(&mut self, pid: ProcessId) -> (r: MutexLockResult)
        ensures
            final(self).id == old(self).id,
            old(self).wf() ==> final(self).wf(),
            match old(self).state {
                MutexState::Unlocked => {
                    &&& r == MutexLockResult::Acquired
                    &&& final(self).state == MutexState::Locked(pid)
                    &&& final(self).waiters() == old(self).waiters()
                },
                MutexState::Locked(o) => if o == pid {
                    &&& r == MutexLockResult::Deadlock
                    &&& final(self).state == old(self).state
                    &&& final(self).waiters() == old(self).waiters()
                } else {
                    &&& r == MutexLockResult::Blocked
                    &&& final(self).state == old(self).state
                    &&& final(self).waiters() == if old(self).waiters().contains(pid) {
                        old(self).waiters()
                    } else {
                        old(self).waiters().push(pid)
                    }
                },
            },
    {
        match self.state {
            MutexState::Unlocked => {
                self.state = MutexState::Locked(pid);
                MutexLockResult::Acquired
            },
            MutexState::Locked(owner) => {
                if owner == pid {
                    MutexLockResult::Deadlock
                } else {
                    if !pid_queue_contains(&self.wait_queue, pid) {
                        proof {
                            if old(self).wf() {
                                lemma_push_fresh(old(self).waiters(), pid, owner);
                            }
                        }
                        pid_queue_push_back(&mut self.wait_queue, pid);
                    }
                    MutexLockResult::Blocked
                }
            },
        }
    }

    /// Unlock the mutex
    ///
    /// Returns the next process to wake up from wait queue
    pub fn unlock(&mut self, pid: ProcessId) -> (r: Result<Option<ProcessId>, &'static str>)
        ensures
            final(self).id == old(self).id,
            old(self).wf() ==> final(self).wf(),
            match old(self).state {
                MutexState::Locked(o) => if o == pid {
                    if old(self).waiters().len() > 0 {
                        &&& r == Ok::<Option<ProcessId>, &'static str>(
                            Some(old(self).waiters()[0]),
                        )
                        &&& final(self).state == MutexState::Locked(old(self).waiters()[0])
                        &&& final(self).waiters() == old(self).waiters().drop_first()
                    } else {
                        &&& r == Ok::<Option<ProcessId>, &'static str>(None)
                        &&& final(self).state == MutexState::Unlocked
                        &&& final(self).waiters() == old(self).waiters()
                    }
                } else {
                    &&& r matches Err(e) && e@ == "Cannot unlock mutex owned by another process"@
                    &&& final(self).state == old(self).state
                    &&& final(self).waiters() == old(self).waiters()
                },
                MutexState::Unlocked => {
                    &&& r matches Err(e) && e@ == "Mutex is not locked"@
                    &&& final(self).state == old(self).state
                    &&& final(self).waiters() == old(self).waiters()
                },
            },
    {
        match self.state {
            MutexState::Locked(owner) => {
                if owner == pid {
                    proof {
                        if old(self).wf() && old(self).waiters().len() > 0 {
                            lemma_drop_front(old(self).waiters());
                        }
                    }
                    match pid_queue_pop_front(&mut self.wait_queue) {
                        Some(next_pid) => {
                            self.state = MutexState::Locked(next_pid);
                            Ok(Some(next_pid))
                        },
                        None => {
                            self.state = MutexState::Unlocked;
                            Ok(None)
                        },
                    }
                } else {
                    Err("Cannot unlock mutex owned by another process")
                }
            },
            MutexState::Unlocked => Err("Mutex is not locked"),
        }
    }
}

/// Appending a value that does not occur keeps a sequence free of duplicates.
proof fn lemma_push_fresh(w: Seq<ProcessId>, x: ProcessId, o: ProcessId)
    requires
        w.no_duplicates(),
        !w.contains(x),
        !w.contains(o),
        o != x,
    ensures
        w.push(x).no_duplicates(),
        !w.push(x).contains(o),
{
    assert forall|i: int, j: int| 0 <= i < j < w.push(x).len() implies w.push(x)[i] != w.push(
        x,
    )[j] by {
        if j == w.len() {
            assert(w.contains(w[i]));
        }
    }
    if w.push(x).contains(o) {
        let k = choose|k: int| 0 <= k < w.push(x).len() && w.push(x)[k] == o;
        if k < w.len() {
            assert(w.contains(o));
        }
    }
}

/// Dropping the front of a sequence without duplicates leaves one without
/// duplicates that no longer holds the front.
proof fn lemma_drop_front(w: Seq<ProcessId>)
    requires
        w.no_duplicates(),
        w.len() > 0,
    ensures
        w.drop_first().no_duplicates(),
        !w.drop_first().contains(w[0]),
{
    if w.drop_first().contains(w[0]) {
        let k = choose|k: int| 0 <= k < w.drop_first().len() && w.drop_first()[k] == w[0];
        assert(w[k + 1] == w[0]);
    }
    assert forall|i: int, j: int| 0 <= i < j < w.drop_first().len() implies w.drop_first()[i]
        != w.drop_first()[j] by {
        assert(w[i + 1] != w[j + 1]);
    }
}

/// Semaphore for counting resources
#[derive(Debug, PartialEq)]
pub struct Semaphore {
    /// Unique semaphore identifier
    pub id: SemaphoreId,
    /// Current count (number of available resources)
    pub count: i32,
    /// Maximum count (for bounded semaphores)
    pub max_count: Option<i32>,
    /// Queue of processes waiting on this semaphore
    pub wait_queue: im::Vector<ProcessId>,
}

/// Result of semaphore wait operation
#[derive(Clone, Copy, Debug, PartialEq, Eq)]
pub enum SemaphoreWaitResult {
    /// Resource acquired (count decremented)
    Acquired,
    /// Process blocked and added to wait queue
    Blocked,
}

impl Clone for Semaphore {
    fn clone(&self) -> (r: Self)
        ensures
            r.id == self.id,
            r.count == self.count,
            r.max_count == self.max_count,
            r.waiters() == self.waiters(),
    {
        Semaphore {
            id: self.id,
            count: self.count,
            max_count: self.max_count,
            wait_queue: crate::persistent::pid_queue_clone(&self.wait_queue),
        }
    }
}

impl Semaphore {
    /// The processes waiting on the semaphore, longest waiting first.
    pub open spec fn waiters(&self) -> Seq<ProcessId> {
        pid_queue_view(self.wait_queue)
    }

    /// The count is not negative and, for a bounded semaphore, not above
    /// the maximum.
    pub open spec fn count_in_bounds(&self) -> bool {
        &&& 0 <= self.count
        &&& self.max_count matches Some(m) ==> self.count <= m
    }

    /// Whether `post` stays within `i32`: it overflows only when it would
    /// raise an unbounded count past `i32::MAX` with nobody waiting.
    pub open spec fn post_fits(&self) -> bool {
        self.max_count is None && self.waiters().len() == 0 ==> self.count < i32::MAX
    }

    /// Create a new semaphore with initial count
    pub fn new(id: SemaphoreId, initial_count: i32) -> (r: Self)
        ensures
            r.id == id,
            r.count == initial_count,
            r.max_count is None,
            r.waiters() == Seq::<ProcessId>::empty(),
    {
        Self { id, count: initial_count, max_count: None, wait_queue: pid_queue_new() }
    }

    /// Create a bounded semaphore with max count
    pub fn new_bounded(id: SemaphoreId, initial_count: i32, max_count: i32) -> (r: Self)
        ensures
            r.id == id,
            r.count == initial_count,
            r.max_count == Some(max_count),
            r.waiters() == Seq::<ProcessId>::empty(),
    {
        Self { id, count: initial_count, max_count: Some(max_count), wait_queue: pid_queue_new() }
    }

    /// Wait (decrement) - P operation
    ///
    /// If count > 0, decrement and return Acquired
    /// If count = 0, add process to wait queue and return Blocked
    pub fn wait(&mut self, pid: ProcessId) -> (r: SemaphoreWaitResult)
        ensures
            final(self).id == old(self).id,
            final(self).max_count == old(self).max_count,
            old(self).count_in_bounds() ==> final(self).count_in_bounds(),
            old(self).count > 0 ==> {
                &&& r == SemaphoreWaitResult::Acquired
                &&& final(self).count == old(self).count - 1
                &&& final(self).waiters() == old(self).waiters()
            },
            old(self).count <= 0 ==> {
                &&& r == SemaphoreWaitResult::Blocked
                &&& final(self).count == old(self).count
                &&& final(self).waiters() == if old(self).waiters().contains(pid) {
                    old(self).waiters()
                } else {
                    old(self).waiters().push(pid)
                }
            },
    {
        if self.count > 0 {
            self.count = self.count - 1;
            SemaphoreWaitResult::Acquired
        } else {
            if !pid_queue_contains(&self.wait_queue, pid) {
                pid_queue_push_back(&mut self.wait_queue, pid);
            }
            SemaphoreWaitResult::Blocked
        }
    }

    /// Post (increment) - V operation
    ///
    /// Increment count and wake up next waiting process if any
    /// Returns error if bounded semaphore would exceed max_count
    pub fn post(&mut self) -> (r: Result<Option<ProcessId>, &'static str>)
        requires
            old(self).post_fits(),
        ensures
            final(self).id == old(self).id,
            final(self).max_count == old(self).max_count,
            old(self).count_in_bounds() ==> final(self).count_in_bounds(),
            if old(self).max_count matches Some(max) && old(self).count >= max {
                &&& r matches Err(e) && e@ == "Semaphore count would exceed maximum"@
                &&& final(self).count == old(self).count
                &&& final(self).waiters() == old(self).waiters()
            } else if old(self).waiters().len() > 0 {
                &&& r == Ok::<Option<ProcessId>, &'static str>(Some(old(self).waiters()[0]))
                &&& final(self).count == old(self).count
                &&& final(self).waiters() == old(self).waiters().drop_first()
            } else {
                &&& r == Ok::<Option<ProcessId>, &'static str>(None)
                &&& final(self).count == old(self).count + 1
                &&& final(self).waiters() == old(self).waiters()
            },
    {
        if let Some(max) = self.max_count {
            if self.count >= max {
                return Err("Semaphore count would exceed maximum");
            }
        }
        match pid_queue_pop_front(&mut self.wait_queue) {
            Some(next_pid) => Ok(Some(next_pid)),
            None => {
                self.count = self.count + 1;
                Ok(None)
            },
        }
    }

    /// Try wait (non-blocking) - try to decrement without blocking
    pub fn try_wait(&mut self) -> (r: Result<(), &'static str>)
        ensures
            final(self).id == old(self).id,
            final(self).max_count == old(self).max_count,
            final(self).waiters() == old(self).waiters(),
            old(self).count_in_bounds() ==> final(self).count_in_bounds(),
            old(self).count > 0 ==> r is Ok && final(self).count == old(self).count - 1,
            old(self).count <= 0 ==> final(self).count == old(self).count && (r matches Err(e)
                && e@ == "Semaphore count is zero"@),
    {
        if self.count > 0 {
            self.count = self.count - 1;
            Ok(())
        } else {
            Err("Semaphore count is zero")
        }
    }
}

/// The contents of the mutex table.
pub uninterp spec fn mutex_table_view(m: im::HashMap<u32, Mutex>) -> Map<u32, Mutex>;

/// The contents of the semaphore table.
pub uninterp spec fn semaphore_table_view(m: im::HashMap<u32, Semaphore>) -> Map<u32, Semaphore>;

/// `im::HashMap::new` for mutexes: the new map is empty.
#[verifier::external_body]
fn mutex_table_new() -> (r: im::HashMap<u32, Mutex>)
    ensures
        mutex_table_view(r).dom().is_empty(),
{
    im::HashMap::new()
}

/// `im::HashMap::insert` for mutexes.
#[verifier::external_body]
fn mutex_table_insert(m: &mut im::HashMap<u32, Mutex>, k: u32, v: Mutex)
    ensures
        mutex_table_view(*final(m)) == mutex_table_view(*old(m)).insert(k, v),
{
    m.insert(k, v);
}

/// `im::HashMap::get` for mutexes.
#[verifier::external_body]
fn mutex_table_get(m: &im::HashMap<u32, Mutex>, k: u32) -> (r: Option<&Mutex>)
    ensures
        match r {
            Some(v) => mutex_table_view(*m).dom().contains(k) && *v == mutex_table_view(*m)[k],
            None => !mutex_table_view(*m).dom().contains(k),
        },
{
    m.get(&k)
}

/// `im::HashMap::remove` for mutexes.
#[verifier::external_body]
fn mutex_table_remove(m: &mut im::HashMap<u32, Mutex>, k: u32)
    ensures
        mutex_table_view(*final(m)) == mutex_table_view(*old(m)).remove(k),
{
    m.remove(&k);
}

/// `im::HashMap::clone` for mutexes: the clone has the same contents.
#[verifier::external_body]
fn mutex_table_clone(m: &im::HashMap<u32, Mutex>) -> (r: im::HashMap<u32, Mutex>)
    ensures
        mutex_table_view(r) == mutex_table_view(*m),
{
    m.clone()
}

/// `im::HashMap::new` for semaphores: the new map is empty.
#[verifier::external_body]
fn semaphore_table_new() -> (r: im::HashMap<u32, Semaphore>)
    ensures
        semaphore_table_view(r).dom().is_empty(),
{
    im::HashMap::new()
}

/// `im::HashMap::insert` for semaphores.
#[verifier::external_body]
fn semaphore_table_insert(m: &mut im::HashMap<u32, Semaphore>, k: u32, v: Semaphore)
    ensures
        semaphore_table_view(*final(m)) == semaphore_table_view(*old(m)).insert(k, v),
{
    m.insert(k, v);
}

/// `im::HashMap::get` for semaphores.
#[verifier::external_body]
fn semaphore_table_get(m: &im::HashMap<u32, Semaphore>, k: u32) -> (r: Option<&Semaphore>)
    ensures
        match r {
            Some(v) => semaphore_table_view(*m).dom().contains(k) && *v == semaphore_table_view(
                *m,
            )[k],
            None => !semaphore_table_view(*m).dom().contains(k),
        },
{
    m.get(&k)
}

/// `im::HashMap::remove` for semaphores.
#[verifier::external_body]
fn semaphore_table_remove(m: &mut im::HashMap<u32, Semaphore>, k: u32)
    ensures
        semaphore_table_view(*final(m)) == semaphore_table_view(*old(m)).remove(k),
{
    m.remove(&k);
}

/// `im::HashMap::clone` for semaphores: the clone has the same contents.
#[verifier::external_body]
fn semaphore_table_clone(m: &im::HashMap<u32, Semaphore>) -> (r: im::HashMap<u32, Semaphore>)
    ensures
        semaphore_table_view(r) == semaphore_table_view(*m),
{
    m.clone()
}

/// Synchronization primitive manager
#[derive(Debug, PartialEq)]
pub struct SyncManager {
    /// All mutexes in the system
    pub mutexes: im::HashMap<MutexId, Mutex>,
    /// All semaphores in the system
    pub semaphores: im::HashMap<SemaphoreId, Semaphore>,
    /// Next available mutex ID
    pub next_mutex_id: MutexId,
    /// Next available semaphore ID
    pub next_semaphore_id: SemaphoreId,
}

impl Clone for SyncManager {
    fn clone(&self) -> (r: Self)
        ensures
            r.mutex_map() == self.mutex_map(),
            r.semaphore_map() == self.semaphore_map(),
            r.next_mutex_id == self.next_mutex_id,
            r.next_semaphore_id == self.next_semaphore_id,
    {
        SyncManager {
            mutexes: mutex_table_clone(&self.mutexes),
            semaphores: semaphore_table_clone(&self.semaphores),
            next_mutex_id: self.next_mutex_id,
            next_semaphore_id: self.next_semaphore_id,
        }
    }
}

impl Default for SyncManager {
    fn default() -> (r: Self)
        ensures
            r.mutex_map().dom().is_empty(),
            r.semaphore_map().dom().is_empty(),
            r.next_mutex_id == 1,
            r.next_semaphore_id == 1,
    {
        Self::new()
    }
}

impl SyncManager {
    /// The mutexes by identifier.
    pub open spec fn mutex_map(&self) -> Map<MutexId, Mutex> {
        mutex_table_view(self.mutexes)
    }

    /// The semaphores by identifier.
    pub open spec fn semaphore_map(&self) -> Map<SemaphoreId, Semaphore> {
        semaphore_table_view(self.semaphores)
    }

    /// Create a new synchronization manager
    pub fn new() -> (r: Self)
        ensures
            r.mutex_map().dom().is_empty(),
            r.semaphore_map().dom().is_empty(),
            r.next_mutex_id == 1,
            r.next_semaphore_id == 1,
    {
        Self {
            mutexes: mutex_table_new(),
            semaphores: semaphore_table_new(),
            next_mutex_id: 1,
            next_semaphore_id: 1,
        }
    }

    /// Create a new mutex
    pub fn create_mutex(&mut self) -> (r: MutexId)
        requires
            old(self).next_mutex_id < u32::MAX,
        ensures
            r == old(self).next_mutex_id,
            final(self).next_mutex_id == old(self).next_mutex_id + 1,
            final(self).mutex_map().dom() == old(self).mutex_map().dom().insert(r),
            final(self).mutex_map().remove(r) == old(self).mutex_map().remove(r),
            final(self).mutex_map()[r].id == r,
            final(self).mutex_map()[r].state is Unlocked,
            final(self).mutex_map()[r].waiters().len() == 0,
            final(self).semaphore_map() == old(self).semaphore_map(),
            final(self).next_semaphore_id == old(self).next_semaphore_id,
    {
        let id = self.next_mutex_id;
        self.next_mutex_id = self.next_mutex_id + 1;
        let mutex = Mutex::new(id);
        mutex_table_insert(&mut self.mutexes, id, mutex);
        assert(self.mutex_map().remove(id) =~= old(self).mutex_map().remove(id));
        id
    }

    /// Create a new semaphore with initial count
    pub fn create_semaphore(&mut self, initial_count: i32) -> (r: SemaphoreId)
        requires
            old(self).next_semaphore_id < u32::MAX,
        ensures
            r == old(self).next_semaphore_id,
            final(self).next_semaphore_id == old(self).next_semaphore_id + 1,
            final(self).semaphore_map().dom() == old(self).semaphore_map().dom().insert(r),
            final(self).semaphore_map().remove(r) == old(self).semaphore_map().remove(r),
            final(self).semaphore_map()[r].id == r,
            final(self).semaphore_map()[r].count == initial_count,
            final(self).semaphore_map()[r].max_count is None,
            final(self).semaphore_map()[r].waiters().len() == 0,
            final(self).mutex_map() == old(self).mutex_map(),
            final(self).next_mutex_id == old(self).next_mutex_id,
    {
        let id = self.next_semaphore_id;
        self.next_semaphore_id = self.next_semaphore_id + 1;
        let sem = Semaphore::new(id, initial_count);
        semaphore_table_insert(&mut self.semaphores, id, sem);
        assert(self.semaphore_map().remove(id) =~= old(self).semaphore_map().remove(id));
        id
    }

    /// Create a bounded semaphore
    pub fn create_bounded_semaphore(&mut self, initial_count: i32, max_count: i32) -> (r:
        SemaphoreId)
        requires
            old(self).next_semaphore_id < u32::MAX,
        ensures
            r == old(self).next_semaphore_id,
            final(self).next_semaphore_id == old(self).next_semaphore_id + 1,
            final(self).semaphore_map().dom() == old(self).semaphore_map().dom().insert(r),
            final(self).semaphore_map().remove(r) == old(self).semaphore_map().remove(r),
            final(self).semaphore_map()[r].id == r,
            final(self).semaphore_map()[r].count == initial_count,
            final(self).semaphore_map()[r].max_count == Some(max_count),
            final(self).semaphore_map()[r].waiters().len() == 0,
            final(self).mutex_map() == old(self).mutex_map(),
            final(self).next_mutex_id == old(self).next_mutex_id,
    {
        let id = self.next_semaphore_id;
        self.next_semaphore_id = self.next_semaphore_id + 1;
        let sem = Semaphore::new_bounded(id, initial_count, max_count);
        semaphore_table_insert(&mut self.semaphores, id, sem);
        assert(self.semaphore_map().remove(id) =~= old(self).semaphore_map().remove(id));
        id
    }

    /// Destroy a mutex
    pub fn destroy_mutex(&mut self, id: MutexId) -> (r: Result<(), &'static str>)
        ensures
            final(self).semaphore_map() == old(self).semaphore_map(),
            final(self).next_mutex_id == old(self).next_mutex_id,
            final(self).next_semaphore_id == old(self).next_semaphore_id,
            if old(self).mutex_map().dom().contains(id) && old(self).mutex_map()[id].state is Locked {
                &&& r matches Err(e) && e@ == "Cannot destroy locked mutex"@
                &&& final(self).mutex_map() == old(self).mutex_map()
            } else if old(self).mutex_map().dom().contains(id) && old(self).mutex_map()[id].waiters().len()
                > 0 {
                &&& r matches Err(e) && e@ == "Cannot destroy mutex with waiting processes"@
                &&& final(self).mutex_map() == old(self).mutex_map()
            } else {
                &&& r is Ok
                &&& final(self).mutex_map() == old(self).mutex_map().remove(id)
            },
    {
        if let Some(mutex) = mutex_table_get(&self.mutexes, id) {
            if mutex.is_locked() {
                return Err("Cannot destroy locked mutex");
            }
            if pid_queue_len(&mutex.wait_queue) != 0 {
                return Err("Cannot destroy mutex with waiting processes");
            }
        }
        mutex_table_remove(&mut self.mutexes, id);
        Ok(())
    }

    /// Destroy a semaphore
    pub fn destroy_semaphore(&mut self, id: SemaphoreId) -> (r: Result<(), &'static str>)
        ensures
            final(self).mutex_map() == old(self).mutex_map(),
            final(self).next_mutex_id == old(self).next_mutex_id,
            final(self).next_semaphore_id == old(self).next_semaphore_id,
            if old(self).semaphore_map().dom().contains(id) && old(self).semaphore_map()[id].waiters().len()
                > 0 {
                &&& r matches Err(e) && e@ == "Cannot destroy semaphore with waiting processes"@
                &&& final(self).semaphore_map() == old(self).semaphore_map()
            } else {
                &&& r is Ok
                &&& final(self).semaphore_map() == old(self).semaphore_map().remove(id)
            },
    {
        if let Some(sem) = semaphore_table_get(&self.semaphores, id) {
            if pid_queue_len(&sem.wait_queue) != 0 {
                return Err("Cannot destroy semaphore with waiting processes");
            }
        }
        semaphore_table_remove(&mut self.semaphores, id);
        Ok(())
    }
}

} // verus!
