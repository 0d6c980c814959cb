//! Tracing and Time-Travel Debugging
//!
//! Records all system calls and kernel state transitions for debugging and replay.

use crate::state::{KernelState, ProcessId};
use crate::syscall::{SyscallOutput, SystemCall};
use vstd::prelude::*;

verus! {

/// System call trace entry
#[derive(Debug, PartialEq)]
pub struct SystemCallTrace {
    /// Sequential trace ID
    pub trace_id: usize,
    /// Process that made the syscall
    pub calling_pid: ProcessId,
    /// The system call
    pub syscall: SystemCall,
    /// System call result (the error as its message)
    pub result: Result<SyscallOutput, String>,
    /// Timestamp (simulated microseconds)
    pub timestamp_us: u64,
}

impl Clone for SystemCallTrace {
    fn clone(&self) -> (r: Self)
        ensures
            r.trace_id == self.trace_id,
            r.calling_pid == self.calling_pid,
            r.timestamp_us == self.timestamp_us,
            match (self.result, r.result) {
                (Ok(a), Ok(b)) => crate::syscall::output_copy(a, b),
                (Err(a), Err(b)) => a@ == b@,
                _ => false,
            },
    {
        let result = match &self.result {
            Ok(o) => Ok(o.clone()),
            Err(e) => Err(e.clone()),
        };
        SystemCallTrace {
            trace_id: self.trace_id,
            calling_pid: self.calling_pid,
            syscall: self.syscall.clone(),
            result,
            timestamp_us: self.timestamp_us,
        }
    }
}

/// The recorded states, oldest first.
pub uninterp spec fn snapshot_list_view(v: im::Vector<KernelState>) -> Seq<KernelState>;

/// `im::Vector::unit`: a list of the one state.
#[verifier::external_body]
fn snapshot_list_unit(s: KernelState) -> (r: im::Vector<KernelState>)
    ensures
        snapshot_list_view(r) == seq![s],
{
    im::Vector::unit(s)
}

/// `im::Vector::clone` for state lists: the same states.
#[verifier::external_body]
fn snapshot_list_clone(v: &im::Vector<KernelState>) -> (r: im::Vector<KernelState>)
    ensures
        snapshot_list_view(r) == snapshot_list_view(*v),
{
    v.clone()
}

/// `im::Vector::push_back` for state lists.
#[verifier::external_body]
fn snapshot_list_push_back(v: &mut im::Vector<KernelState>, s: KernelState)
    ensures
        snapshot_list_view(*final(v)) == snapshot_list_view(*old(v)).push(s),
{
    v.push_back(s);
}

/// `im::Vector::len` for state lists.
#[verifier::external_body]
fn snapshot_list_len(v: &im::Vector<KernelState>) -> (r: usize)
    ensures
        r == snapshot_list_view(*v).len(),
{
    v.len()
}

/// Indexing a state list (which panics out of bounds).
#[verifier::external_body]
fn snapshot_list_index(v: &im::Vector<KernelState>, i: usize) -> (r: &KernelState)
    requires
        i < snapshot_list_view(*v).len(),
    ensures
        *r == snapshot_list_view(*v)[i as int],
{
    &v[i]
}

/// The recorded traces, oldest first.
pub uninterp spec fn trace_list_view(v: im::Vector<SystemCallTrace>) -> Seq<SystemCallTrace>;

/// `im::Vector::new` for trace lists: the new list is empty.
#[verifier::external_body]
fn trace_list_new() -> (r: im::Vector<SystemCallTrace>)
    ensures
        trace_list_view(r) == Seq::<SystemCallTrace>::empty(),
{
    im::Vector::new()
}

/// `im::Vector::clone` for trace lists: the same traces.
#[verifier::external_body]
fn trace_list_clone(v: &im::Vector<SystemCallTrace>) -> (r: im::Vector<SystemCallTrace>)
    ensures
        trace_list_view(r) == trace_list_view(*v),
{
    v.clone()
}

/// `im::Vector::push_back` for trace lists.
#[verifier::external_body]
fn trace_list_push_back(v: &mut im::Vector<SystemCallTrace>, t: SystemCallTrace)
    ensures
        trace_list_view(*final(v)) == trace_list_view(*old(v)).push(t),
{
    v.push_back(t);
}

/// `im::Vector::len` for trace lists.
#[verifier::external_body]
fn trace_list_len(v: &im::Vector<SystemCallTrace>) -> (r: usize)
    ensures
        r == trace_list_view(*v).len(),
{
    v.len()
}

/// `im::Vector::get` for trace lists: the trace at `i`, if any.
#[verifier::external_body]
fn trace_list_get(v: &im::Vector<SystemCallTrace>, i: usize) -> (r: Option<&SystemCallTrace>)
    ensures
        match r {
            Some(t) => i < trace_list_view(*v).len() && *t == trace_list_view(*v)[i as int],
            None => i >= trace_list_view(*v).len(),
        },
{
    v.get(i)
}

/// Kernel history with state snapshots for time-travel debugging
#[derive(Debug, PartialEq)]
pub struct KernelHistory {
    /// State snapshots (one per syscall)
    snapshots: im::Vector<KernelState>,
    /// System call traces
    traces: im::Vector<SystemCallTrace>,
    /// Current position in history (0 = initial state)
    current_position: usize,
}

/// Where stepping back from `pos` leads.
pub open spec fn back_from(pos: int) -> int {
    if pos > 0 {
        pos - 1
    } else {
        pos
    }
}

/// Where stepping forward from `pos` leads in a history of `len` states.
pub open spec fn forward_from(pos: int, len: int) -> int {
    if pos < len - 1 {
        pos + 1
    } else {
        pos
    }
}

impl KernelHistory {
    /// There is always a state to show: at least the initial one, one more
    /// per trace, and the position names one of them.
    #[verifier::type_invariant]
    spec fn inv(self) -> bool {
        &&& snapshot_list_view(self.snapshots).len() >= 1
        &&& snapshot_list_view(self.snapshots).len() == trace_list_view(self.traces).len() + 1
        &&& self.current_position < snapshot_list_view(self.snapshots).len()
    }

    /// The recorded states, the initial one first.
    pub closed spec fn states(&self) -> Seq<KernelState> {
        snapshot_list_view(self.snapshots)
    }

    /// The recorded traces, the oldest first.
    pub closed spec fn trace_seq(&self) -> Seq<SystemCallTrace> {
        trace_list_view(self.traces)
    }

    /// The position shown.
    pub closed spec fn pos(&self) -> usize {
        self.current_position
    }

    /// Create new history with initial state
    pub fn new(initial_state: KernelState) -> (r: Self)
        ensures
            r.states() == seq![initial_state],
            r.trace_seq().len() == 0,
            r.pos() == 0,
    {
        Self { snapshots: snapshot_list_unit(initial_state), traces: trace_list_new(), current_position: 0 }
    }

    /// Record a system call and new state
    pub fn record_syscall(
        &mut self,
        calling_pid: ProcessId,
        syscall: SystemCall,
        result: Result<SyscallOutput, String>,
        new_state: KernelState,
        timestamp_us: u64,
    )
        ensures
            final(self).states() == old(self).states().push(new_state),
            final(self).trace_seq() == old(self).trace_seq().push(
                SystemCallTrace {
                    trace_id: old(self).trace_seq().len() as usize,
                    calling_pid,
                    syscall,
                    result,
                    timestamp_us,
                },
            ),
            final(self).pos() == old(self).states().len(),
    {
        proof {
            use_type_invariant(&*self);
        }
        let trace = SystemCallTrace {
            trace_id: trace_list_len(&self.traces),
            calling_pid,
            syscall,
            result,
            timestamp_us,
        };
        let mut traces = trace_list_clone(&self.traces);
        let mut snapshots = snapshot_list_clone(&self.snapshots);
        trace_list_push_back(&mut traces, trace);
        snapshot_list_push_back(&mut snapshots, new_state);
        let position = snapshot_list_len(&snapshots) - 1;
        *self = KernelHistory { snapshots, traces, current_position: position };
    }

    /// Get current kernel state
    pub fn current_state(&self) -> (r: &KernelState)
        ensures
            *r == self.states()[self.pos() as int],
    {
        proof {
            use_type_invariant(self);
        }
        snapshot_list_index(&self.snapshots, self.current_position)
    }

    /// Get current position in history
    pub fn position(&self) -> (r: usize)
        ensures
            r == self.pos(),
    {
        self.current_position
    }

    /// Get total number of states (including initial)
    pub fn len(&self) -> (r: usize)
        ensures
            r == self.states().len(),
            r >= 1,
            r == self.trace_seq().len() + 1,
            self.pos() < r,
    {
        proof {
            use_type_invariant(self);
        }
        snapshot_list_len(&self.snapshots)
    }

    /// Check if history is empty (only initial state)
    pub fn is_empty(&self) -> (r: bool)
        ensures
            r == (self.states().len() == 1),
    {
        snapshot_list_len(&self.snapshots) == 1
    }

    /// Get number of traces
    pub fn trace_count(&self) -> (r: usize)
        ensures
            r == self.trace_seq().len(),
    {
        trace_list_len(&self.traces)
    }

    /// Step back one state
    pub fn step_back(&mut self) -> (r: bool)
        ensures
            r == (old(self).pos() > 0),
            final(self).pos() == back_from(old(self).pos() as int),
            final(self).states() == old(self).states(),
            final(self).trace_seq() == old(self).trace_seq(),
    {
        proof {
            use_type_invariant(&*self);
        }
        if self.current_position > 0 {
            let p = self.current_position - 1;
            *self = KernelHistory {
                snapshots: snapshot_list_clone(&self.snapshots),
                traces: trace_list_clone(&self.traces),
                current_position: p,
            };
            true
        } else {
            false
        }
    }

    /// Step forward one state
    pub fn step_forward(&mut self) -> (r: bool)
        ensures
            r == (old(self).pos() < old(self).states().len() - 1),
            final(self).pos() == forward_from(old(self).pos() as int, old(self).states().len() as int),
            final(self).states() == old(self).states(),
            final(self).trace_seq() == old(self).trace_seq(),
    {
        proof {
            use_type_invariant(&*self);
        }
        if self.current_position < snapshot_list_len(&self.snapshots) - 1 {
            let p = self.current_position + 1;
            *self = KernelHistory {
                snapshots: snapshot_list_clone(&self.snapshots),
                traces: trace_list_clone(&self.traces),
                current_position: p,
            };
            true
        } else {
            false
        }
    }

    /// Jump to specific position
    pub fn jump_to(&mut self, position: usize) -> (r: bool)
        ensures
            r == (position < old(self).states().len()),
            final(self).pos() == (if r {
                position
            } else {
                old(self).pos()
            }),
            final(self).states() == old(self).states(),
            final(self).trace_seq() == old(self).trace_seq(),
    {
        proof {
            use_type_invariant(&*self);
        }
        if position < snapshot_list_len(&self.snapshots) {
            *self = KernelHistory {
                snapshots: snapshot_list_clone(&self.snapshots),
                traces: trace_list_clone(&self.traces),
                current_position: position,
            };
            true
        } else {
            false
        }
    }

    /// Get trace at specific index
    pub fn get_trace(&self, index: usize) -> (r: Option<&SystemCallTrace>)
        ensures
            match r {
                Some(t) => index < self.trace_seq().len() && *t == self.trace_seq()[index as int],
                None => index >= self.trace_seq().len(),
            },
    {
        trace_list_get(&self.traces, index)
    }

    /// Get all traces
    pub fn traces(&self) -> (r: &im::Vector<SystemCallTrace>)
        ensures
            trace_list_view(*r) == self.trace_seq(),
    {
        &self.traces
    }
}

impl Clone for KernelHistory {
    fn clone(&self) -> (r: Self)
        ensures
            r.states() == self.states(),
            r.trace_seq() == self.trace_seq(),
            r.pos() == self.pos(),
    {
        proof {
            use_type_invariant(self);
        }
        KernelHistory {
            snapshots: snapshot_list_clone(&self.snapshots),
            traces: trace_list_clone(&self.traces),
            current_position: self.current_position,
        }
    }
}

impl Default for KernelHistory {
    fn default() -> (r: Self)
        ensures
            r.states().len() == 1,
            r.trace_seq().len() == 0,
            r.pos() == 0,
    {
        Self::new(KernelState::new())
    }
}

/// Stepping back and then forward returns to the same position, and so does
/// stepping forward and then back, whenever the first step moves.
pub proof fn law_step_back_forward(pos: int, len: int)
    requires
        0 <= pos < len,
    ensures
        pos > 0 ==> forward_from(back_from(pos), len) == pos,
        pos < len - 1 ==> back_from(forward_from(pos, len)) == pos,
{
}

/// Recording a call never alters what was recorded before: the earlier
/// states and traces are a prefix of the new ones, and each trace's
/// identifier is its index.
pub proof fn law_record_keeps_history(h: KernelHistory, g: KernelHistory, call: SystemCallTrace, s: KernelState)
    requires
        g.states() == h.states().push(s),
        g.trace_seq() == h.trace_seq().push(call),
        call.trace_id == h.trace_seq().len(),
        forall|i: int| 0 <= i < h.trace_seq().len() ==> #[trigger] h.trace_seq()[i].trace_id == i,
    ensures
        g.states().take(h.states().len() as int) == h.states(),
        g.trace_seq().take(h.trace_seq().len() as int) == h.trace_seq(),
        forall|i: int| 0 <= i < g.trace_seq().len() ==> #[trigger] g.trace_seq()[i].trace_id == i,
{
    assert(g.states().take(h.states().len() as int) =~= h.states());
    assert(g.trace_seq().take(h.trace_seq().len() as int) =~= h.trace_seq());
    assert forall|i: int| 0 <= i < g.trace_seq().len() implies #[trigger] g.trace_seq()[i].trace_id == i by {
        if i < h.trace_seq().len() {
            assert(g.trace_seq()[i] == h.trace_seq()[i]);
        }
    }
}

} // verus!
