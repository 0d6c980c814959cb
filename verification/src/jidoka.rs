//! Jidoka guards for kernel invariants: check a kernel state against a list
//! of invariants and halt, with the list of violations, when any fails.

use crate::text::{decimal, push_decimal, text};
use vstd::prelude::*;

verus! {

/// Maximum allowed processes before Jidoka halt
pub const MAX_PROCESSES: usize = 1000;

/// Maximum allowed zombie processes before Jidoka halt
pub const MAX_ZOMBIES: usize = 100;

/// Maximum memory allocation (256 MB)
pub const MAX_MEMORY_BYTES: usize = 268435456;

/// Maximum open file descriptors per process
pub const MAX_FDS_PER_PROCESS: usize = 256;

/// Maximum total open file descriptors
pub const MAX_TOTAL_FDS: usize = 4096;

/// Maximum VMs allowed
pub const MAX_VMS: usize = 16;

/// Categories of invariant violations
#[derive(Clone, Copy, Debug, PartialEq, Eq, Hash)]
pub enum ViolationCategory {
    /// Process-related violation
    Process,
    /// Memory-related violation
    Memory,
    /// File system violation
    FileSystem,
    /// VM/virtualization violation
    Virtualization,
    /// Scheduler violation
    Scheduler,
    /// IPC violation
    Ipc,
    /// Resource exhaustion
    Resource,
    /// Internal consistency violation
    Consistency,
}

/// Severity levels for violations
#[derive(Clone, Copy, Debug, PartialEq, Eq, PartialOrd, Ord, Hash)]
pub enum Severity {
    /// Warning - log but continue
    Warning,
    /// Error - should halt but may recover
    Error,
    /// Critical - must halt immediately
    Critical,
}

/// The name under which a category is shown.
pub open spec fn category_name(c: ViolationCategory) -> Seq<char> {
    match c {
        ViolationCategory::Process => "Process"@,
        ViolationCategory::Memory => "Memory"@,
        ViolationCategory::FileSystem => "FileSystem"@,
        ViolationCategory::Virtualization => "Virtualization"@,
        ViolationCategory::Scheduler => "Scheduler"@,
        ViolationCategory::Ipc => "Ipc"@,
        ViolationCategory::Resource => "Resource"@,
        ViolationCategory::Consistency => "Consistency"@,
    }
}

/// The name under which a severity is shown.
pub open spec fn severity_name(s: Severity) -> Seq<char> {
    match s {
        Severity::Warning => "Warning"@,
        Severity::Error => "Error"@,
        Severity::Critical => "Critical"@,
    }
}

fn category_str(c: ViolationCategory) -> (r: &'static str)
    ensures
        r@ == category_name(c),
{
    match c {
        ViolationCategory::Process => "Process",
        ViolationCategory::Memory => "Memory",
        ViolationCategory::FileSystem => "FileSystem",
        ViolationCategory::Virtualization => "Virtualization",
        ViolationCategory::Scheduler => "Scheduler",
        ViolationCategory::Ipc => "Ipc",
        ViolationCategory::Resource => "Resource",
        ViolationCategory::Consistency => "Consistency",
    }
}

fn severity_str(s: Severity) -> (r: &'static str)
    ensures
        r@ == severity_name(s),
{
    match s {
        Severity::Warning => "Warning",
        Severity::Error => "Error",
        Severity::Critical => "Critical",
    }
}

/// An invariant violation
#[derive(Clone, Debug, PartialEq)]
pub struct Violation {
    /// Category of the violation
    pub category: ViolationCategory,
    /// Human-readable description
    pub message: String,
    /// Severity level
    pub severity: Severity,
    /// Additional context data
    pub context: Option<String>,
}

/// A violation as plain values: category, message, severity and context text.
pub type ViolationView = (ViolationCategory, Seq<char>, Severity, Option<Seq<char>>);

/// The text of an optional string.
pub open spec fn opt_text(o: Option<String>) -> Option<Seq<char>> {
    match o {
        Some(s) => Some(s@),
        None => None,
    }
}

/// The plain values of each violation of a sequence.
pub open spec fn violation_views(vs: Seq<Violation>) -> Seq<ViolationView> {
    vs.map_values(|v: Violation| v@)
}

impl Violation {
    /// The violation as plain values.
    pub open spec fn view(&self) -> ViolationView {
        (self.category, self.message@, self.severity, opt_text(self.context))
    }

    /// Create a new violation
    pub fn new(category: ViolationCategory, message: &str, severity: Severity) -> (r: Self)
        ensures
            r@ == (category, message@, severity, None::<Seq<char>>),
    {
        Violation { category, message: text(message), severity, context: None }
    }

    /// Add context to violation
    pub fn with_context(self, context: &str) -> (r: Self)
        ensures
            r@ == (self.category, self.message@, self.severity, Some(context@)),
    {
        Violation { context: Some(text(context)), ..self }
    }

    /// A copy of the violation with the same plain values.
    pub fn duplicate(&self) -> (r: Self)
        ensures
            r@ == self@,
    {
        let context = match &self.context {
            Some(c) => Some(c.clone()),
            None => None,
        };
        Violation {
            category: self.category,
            message: self.message.clone(),
            severity: self.severity,
            context,
        }
    }

    /// The text shown for the violation:
    /// `[severity] category: message`, followed by ` (context)` when there is a context.
    pub fn to_display_string(&self) -> (r: String)
        ensures
            r@ == display_text(self@),
    {
        let mut s = text("[");
        s.append(severity_str(self.severity));
        s.append("] ");
        s.append(category_str(self.category));
        s.append(": ");
        s.append(self.message.as_str());
        match &self.context {
            Some(c) => {
                s.append(" (");
                s.append(c.as_str());
                s.append(")");
            },
            None => {},
        }
        s
    }
}

/// The text shown for a violation.
pub open spec fn display_text(v: ViolationView) -> Seq<char> {
    let head = "["@ + severity_name(v.2) + "] "@ + category_name(v.0) + ": "@ + v.1;
    match v.3 {
        Some(c) => head + " ("@ + c + ")"@,
        None => head,
    }
}

/// Copies every violation of a list.
fn duplicate_all(vs: &Vec<Violation>) -> (r: Vec<Violation>)
    ensures
        violation_views(r@) == violation_views(vs@),
{
    let mut r: Vec<Violation> = Vec::new();
    let mut i: usize = 0;
    while i < vs.len()
        invariant
            i <= vs.len(),
            r@.len() == i,
            forall|j: int| 0 <= j < i ==> (#[trigger] r@[j])@ == vs@[j]@,
        decreases vs.len() - i,
    {
        let v = vs[i].duplicate();
        r.push(v);
        i = i + 1;
    }
    assert(violation_views(r@) =~= violation_views(vs@));
    r
}

/// Result of a Jidoka check
#[derive(Clone, Debug, PartialEq)]
pub enum JidokaStatus {
    /// All invariants satisfied
    Healthy,
    /// One or more invariants violated - halt immediately
    Halt(Vec<Violation>),
}

impl JidokaStatus {
    /// Check if status is OK
    pub fn is_ok(&self) -> (r: bool)
        ensures
            r == (self is Healthy),
    {
        matches!(self, Self::Healthy)
    }

    /// Check if status is halt
    pub fn is_halt(&self) -> (r: bool)
        ensures
            r == (self is Halt),
    {
        matches!(self, Self::Halt(_))
    }

    /// Get violations if any
    pub fn violations(&self) -> (r: Option<&[Violation]>)
        ensures
            self is Healthy ==> r is None,
            self matches JidokaStatus::Halt(v) ==> r matches Some(s) && s@ == v@,
    {
        match self {
            Self::Healthy => None,
            Self::Halt(v) => Some(v.as_slice()),
        }
    }
}

/// Invariant check types
#[derive(Clone, Debug, PartialEq)]
pub enum InvariantCheck {
    /// Process count within limits
    ProcessCountLimit(usize),
    /// Memory usage within limits
    MemoryLimit(usize),
    /// File descriptor count within limits
    FdLimit(usize),
    /// No orphan processes (all have valid parent or are init)
    NoOrphanProcesses,
    /// Zombie count within limits
    NoZombieBloat(usize),
    /// VM count within limits
    VmCountLimit(usize),
    /// VM memory within bounds
    VmMemoryBounds,
    /// Deterministic RNG state valid
    DeterministicRng,
    /// PID uniqueness
    UniquePids,
    /// No memory overlaps
    NoMemoryOverlaps,
    /// Consistent memory totals
    ConsistentMemoryTotals,
    /// Valid process states
    ValidProcessStates,
    /// Scheduler queue consistency
    SchedulerConsistency,
    /// Custom invariant
    Custom(String),
}

/// Trait for kernel state inspection
///
/// Implement this trait to allow Jidoka guards to inspect kernel state. Each
/// query comes with a specification function that names its answer.
pub trait KernelStateView {
    /// The process count this state reports.
    spec fn spec_process_count(&self) -> usize;

    /// The memory use in bytes this state reports.
    spec fn spec_memory_used(&self) -> usize;

    /// The open file descriptor count this state reports.
    spec fn spec_total_fd_count(&self) -> usize;

    /// Whether this state reports orphan processes.
    spec fn spec_has_orphan_processes(&self) -> bool;

    /// The zombie count this state reports.
    spec fn spec_zombie_count(&self) -> usize;

    /// The VM count this state reports.
    spec fn spec_vm_count(&self) -> usize;

    /// Whether this state reports all VM memory within bounds.
    spec fn spec_vm_memory_within_bounds(&self) -> bool;

    /// Whether this state reports a valid RNG state.
    spec fn spec_rng_state_valid(&self) -> bool;

    /// Whether this state reports unique PIDs.
    spec fn spec_all_pids_unique(&self) -> bool;

    /// Whether this state reports memory overlaps.
    spec fn spec_has_memory_overlaps(&self) -> bool;

    /// Whether this state reports consistent memory totals.
    spec fn spec_memory_totals_consistent(&self) -> bool;

    /// Whether this state reports valid process states.
    spec fn spec_all_process_states_valid(&self) -> bool;

    /// Whether this state reports a consistent scheduler.
    spec fn spec_scheduler_consistent(&self) -> bool;

    /// Get total process count
    fn process_count(&self) -> (r: usize)
        ensures
            r == self.spec_process_count(),
    ;

    /// Get memory used in bytes
    fn memory_used(&self) -> (r: usize)
        ensures
            r == self.spec_memory_used(),
    ;

    /// Get total open file descriptor count
    fn total_fd_count(&self) -> (r: usize)
        ensures
            r == self.spec_total_fd_count(),
    ;

    /// Check if there are orphan processes
    fn has_orphan_processes(&self) -> (r: bool)
        ensures
            r == self.spec_has_orphan_processes(),
    ;

    /// Get zombie process count
    fn zombie_count(&self) -> (r: usize)
        ensures
            r == self.spec_zombie_count(),
    ;

    /// Get VM count
    fn vm_count(&self) -> (r: usize)
        ensures
            r == self.spec_vm_count(),
    ;

    /// Check if all VM memory is within bounds
    fn vm_memory_within_bounds(&self) -> (r: bool)
        ensures
            r == self.spec_vm_memory_within_bounds(),
    ;

    /// Check if RNG state is valid
    fn rng_state_valid(&self) -> (r: bool)
        ensures
            r == self.spec_rng_state_valid(),
    ;

    /// Check if all PIDs are unique
    fn all_pids_unique(&self) -> (r: bool)
        ensures
            r == self.spec_all_pids_unique(),
    ;

    /// Check for memory region overlaps
    fn has_memory_overlaps(&self) -> (r: bool)
        ensures
            r == self.spec_has_memory_overlaps(),
    ;

    /// Check if memory totals are consistent
    fn memory_totals_consistent(&self) -> (r: bool)
        ensures
            r == self.spec_memory_totals_consistent(),
    ;

    /// Check if all process states are valid
    fn all_process_states_valid(&self) -> (r: bool)
        ensures
            r == self.spec_all_process_states_valid(),
    ;

    /// Check scheduler consistency
    fn scheduler_consistent(&self) -> (r: bool)
        ensures
            r == self.spec_scheduler_consistent(),
    ;
}

/// The message of a limit violation: `<what> <value> exceeds limit <max>`.
pub open spec fn limit_message(what: Seq<char>, value: usize, max: usize) -> Seq<char> {
    what + " "@ + decimal(value as nat) + " exceeds limit "@ + decimal(max as nat)
}

/// The violation, if any, that one invariant check finds in a state.
pub open spec fn check_violation<S: KernelStateView>(check: InvariantCheck, state: S) -> Option<
    ViolationView,
> {
    match check {
        InvariantCheck::ProcessCountLimit(max) => if state.spec_process_count() > max {
            Some(
                (
                    ViolationCategory::Process,
                    limit_message("Process count"@, state.spec_process_count(), max),
                    Severity::Critical,
                    None,
                ),
            )
        } else {
            None
        },
        InvariantCheck::MemoryLimit(max) => if state.spec_memory_used() > max {
            Some(
                (
                    ViolationCategory::Memory,
                    limit_message("Memory usage"@, state.spec_memory_used(), max),
                    Severity::Critical,
                    None,
                ),
            )
        } else {
            None
        },
        InvariantCheck::FdLimit(max) => if state.spec_total_fd_count() > max {
            Some(
                (
                    ViolationCategory::FileSystem,
                    limit_message("FD count"@, state.spec_total_fd_count(), max),
                    Severity::Critical,
                    None,
                ),
            )
        } else {
            None
        },
        InvariantCheck::NoOrphanProcesses => if state.spec_has_orphan_processes() {
            Some(
                (
                    ViolationCategory::Process,
                    "Orphan processes detected (not reparented to init)"@,
                    Severity::Error,
                    None,
                ),
            )
        } else {
            None
        },
        InvariantCheck::NoZombieBloat(max) => if state.spec_zombie_count() > max {
            Some(
                (
                    ViolationCategory::Process,
                    limit_message("Zombie count"@, state.spec_zombie_count(), max),
                    Severity::Error,
                    None,
                ),
            )
        } else {
            None
        },
        InvariantCheck::VmCountLimit(max) => if state.spec_vm_count() > max {
            Some(
                (
                    ViolationCategory::Virtualization,
                    limit_message("VM count"@, state.spec_vm_count(), max),
                    Severity::Critical,
                    None,
                ),
            )
        } else {
            None
        },
        InvariantCheck::VmMemoryBounds => if !state.spec_vm_memory_within_bounds() {
            Some(
                (
                    ViolationCategory::Virtualization,
                    "VM memory exceeds allocated bounds"@,
                    Severity::Critical,
                    None,
                ),
            )
        } else {
            None
        },
        InvariantCheck::DeterministicRng => if !state.spec_rng_state_valid() {
            Some(
                (
                    ViolationCategory::Consistency,
                    "RNG state is invalid or non-deterministic"@,
                    Severity::Error,
                    None,
                ),
            )
        } else {
            None
        },
        InvariantCheck::UniquePids => if !state.spec_all_pids_unique() {
            Some(
                (
                    ViolationCategory::Process,
                    "Duplicate PIDs detected"@,
                    Severity::Critical,
                    None,
                ),
            )
        } else {
            None
        },
        InvariantCheck::NoMemoryOverlaps => if state.spec_has_memory_overlaps() {
            Some(
                (
                    ViolationCategory::Memory,
                    "Memory region overlaps detected"@,
                    Severity::Critical,
                    None,
                ),
            )
        } else {
            None
        },
        InvariantCheck::ConsistentMemoryTotals => if !state.spec_memory_totals_consistent() {
            Some(
                (
                    ViolationCategory::Memory,
                    "Memory totals are inconsistent"@,
                    Severity::Error,
                    None,
                ),
            )
        } else {
            None
        },
        InvariantCheck::ValidProcessStates => if !state.spec_all_process_states_valid() {
            Some(
                (
                    ViolationCategory::Process,
                    "Invalid process state transition detected"@,
                    Severity::Error,
                    None,
                ),
            )
        } else {
            None
        },
        InvariantCheck::SchedulerConsistency => if !state.spec_scheduler_consistent() {
            Some(
                (
                    ViolationCategory::Scheduler,
                    "Scheduler queue inconsistency detected"@,
                    Severity::Error,
                    None,
                ),
            )
        } else {
            None
        },
        InvariantCheck::Custom(_) => None,
    }
}

/// The violations found by running the first `n` checks in order; with
/// `halt_on_first`, running stops after the first violation.
pub open spec fn collect_violations<S: KernelStateView>(
    checks: Seq<InvariantCheck>,
    halt_on_first: bool,
    state: S,
    n: nat,
) -> Seq<ViolationView>
    decreases n,
{
    if n == 0 {
        Seq::empty()
    } else {
        let prev = collect_violations(checks, halt_on_first, state, (n - 1) as nat);
        if halt_on_first && prev.len() > 0 {
            prev
        } else {
            match check_violation(checks[n - 1], state) {
                Some(v) => prev.push(v),
                None => prev,
            }
        }
    }
}

/// The violations found by running all checks of a list.
pub open spec fn all_violations<S: KernelStateView>(
    checks: Seq<InvariantCheck>,
    halt_on_first: bool,
    state: S,
) -> Seq<ViolationView> {
    collect_violations(checks, halt_on_first, state, checks.len())
}

/// The status a check reports for a list of violations.
pub open spec fn status_of(found: Seq<ViolationView>, status: JidokaStatus) -> bool {
    if found.len() == 0 {
        status is Healthy
    } else {
        status matches JidokaStatus::Halt(v) && violation_views(v@) == found
    }
}

/// Once a halting run has found a violation, running further checks finds no more.
proof fn lemma_halt_keeps<S: KernelStateView>(
    checks: Seq<InvariantCheck>,
    state: S,
    i: nat,
    n: nat,
)
    requires
        i <= n,
        collect_violations(checks, true, state, i).len() > 0,
    ensures
        collect_violations(checks, true, state, n) == collect_violations(checks, true, state, i),
    decreases n - i,
{
    if i < n {
        lemma_halt_keeps(checks, state, i, (n - 1) as nat);
    }
}

/// Each check reports a violation exactly when the state fails the one
/// query the check is about, whatever the other queries answer; a custom
/// check never reports one.
pub proof fn law_each_check_asks_its_own_query<S: KernelStateView>(state: S, max: usize, name: String)
    ensures
        check_violation(InvariantCheck::ProcessCountLimit(max), state) is Some <==> state.spec_process_count() > max,
        check_violation(InvariantCheck::MemoryLimit(max), state) is Some <==> state.spec_memory_used() > max,
        check_violation(InvariantCheck::FdLimit(max), state) is Some <==> state.spec_total_fd_count() > max,
        check_violation(InvariantCheck::NoOrphanProcesses, state) is Some <==> state.spec_has_orphan_processes(),
        check_violation(InvariantCheck::NoZombieBloat(max), state) is Some <==> state.spec_zombie_count() > max,
        check_violation(InvariantCheck::VmCountLimit(max), state) is Some <==> state.spec_vm_count() > max,
        check_violation(InvariantCheck::VmMemoryBounds, state) is Some <==> !state.spec_vm_memory_within_bounds(),
        check_violation(InvariantCheck::DeterministicRng, state) is Some <==> !state.spec_rng_state_valid(),
        check_violation(InvariantCheck::UniquePids, state) is Some <==> !state.spec_all_pids_unique(),
        check_violation(InvariantCheck::NoMemoryOverlaps, state) is Some <==> state.spec_has_memory_overlaps(),
        check_violation(InvariantCheck::ConsistentMemoryTotals, state) is Some
            <==> !state.spec_memory_totals_consistent(),
        check_violation(InvariantCheck::ValidProcessStates, state) is Some
            <==> !state.spec_all_process_states_valid(),
        check_violation(InvariantCheck::ValidProcessStates, state) is Some ==> check_violation(
            InvariantCheck::ValidProcessStates,
            state,
        ).unwrap().0 == ViolationCategory::Process,
        check_violation(InvariantCheck::SchedulerConsistency, state) is Some
            <==> !state.spec_scheduler_consistent(),
        check_violation(InvariantCheck::Custom(name), state) is None,
{
}

/// A halting check finds at most one violation, and a non-halting check
/// finds every violation that a halting check finds.
pub proof fn lemma_strict_finds_at_most_one<S: KernelStateView>(
    checks: Seq<InvariantCheck>,
    state: S,
    n: nat,
)
    ensures
        collect_violations(checks, true, state, n).len() <= 1,
        collect_violations(checks, true, state, n).len() == 0 <==> collect_violations(
            checks,
            false,
            state,
            n,
        ).len() == 0,
    decreases n,
{
    if n > 0 {
        lemma_strict_finds_at_most_one(checks, state, (n - 1) as nat);
    }
}

/// Jidoka guard for kernel state
pub struct JidokaGuard {
    /// Enabled invariant checks
    checks: Vec<InvariantCheck>,
    /// Recorded violations
    violations: Vec<Violation>,
    /// Whether to halt on first violation
    halt_on_first: bool,
}

/// The checks a new guard runs.
pub open spec fn default_checks() -> Seq<InvariantCheck> {
    seq![
        InvariantCheck::ProcessCountLimit(MAX_PROCESSES),
        InvariantCheck::MemoryLimit(MAX_MEMORY_BYTES),
        InvariantCheck::FdLimit(MAX_TOTAL_FDS),
        InvariantCheck::NoOrphanProcesses,
        InvariantCheck::NoZombieBloat(MAX_ZOMBIES),
        InvariantCheck::UniquePids,
        InvariantCheck::ValidProcessStates,
    ]
}

impl Default for JidokaGuard {
    fn default() -> (r: Self)
        ensures
            r.checks() == default_checks(),
            r.recorded().len() == 0,
            !r.halts_on_first(),
    {
        Self::new()
    }
}

impl JidokaGuard {
    /// The checks the guard runs, in order.
    pub closed spec fn checks(&self) -> Seq<InvariantCheck> {
        self.checks@
    }

    /// The violations recorded by the last check.
    pub closed spec fn recorded(&self) -> Seq<ViolationView> {
        violation_views(self.violations@)
    }

    /// Whether the guard stops at the first violation.
    pub closed spec fn halts_on_first(&self) -> bool {
        self.halt_on_first
    }

    /// Create a new Jidoka guard with default checks
    pub fn new() -> (r: Self)
        ensures
            r.checks() == default_checks(),
            r.recorded().len() == 0,
            !r.halts_on_first(),
    {
        let r = Self {
            checks: vec![
                InvariantCheck::ProcessCountLimit(MAX_PROCESSES),
                InvariantCheck::MemoryLimit(MAX_MEMORY_BYTES),
                InvariantCheck::FdLimit(MAX_TOTAL_FDS),
                InvariantCheck::NoOrphanProcesses,
                InvariantCheck::NoZombieBloat(MAX_ZOMBIES),
                InvariantCheck::UniquePids,
                InvariantCheck::ValidProcessStates,
            ],
            violations: Vec::new(),
            halt_on_first: false,
        };
        assert(r.checks@ =~= default_checks());
        r
    }

    /// Create a strict guard that halts on first violation
    pub fn strict() -> (r: Self)
        ensures
            r.checks() == default_checks(),
            r.recorded().len() == 0,
            r.halts_on_first(),
    {
        let mut guard = Self::new();
        guard.halt_on_first = true;
        guard
    }

    /// Add a custom check
    pub fn add_check(&mut self, check: InvariantCheck)
        ensures
            final(self).checks() == old(self).checks().push(check),
            final(self).recorded() == old(self).recorded(),
            final(self).halts_on_first() == old(self).halts_on_first(),
    {
        self.checks.push(check);
    }

    /// Check kernel state for violations
    pub fn check<S: KernelStateView>(&mut self, state: &S) -> (r: JidokaStatus)
        ensures
            final(self).checks() == old(self).checks(),
            final(self).halts_on_first() == old(self).halts_on_first(),
            final(self).recorded() == all_violations(
                old(self).checks(),
                old(self).halts_on_first(),
                *state,
            ),
            status_of(final(self).recorded(), r),
    {
        self.violations.clear();
        let n = self.checks.len();
        let mut i: usize = 0;
        while i < n
            invariant_except_break
                i <= n,
                n == self.checks@.len(),
                self.checks@ == old(self).checks@,
                self.halt_on_first == old(self).halt_on_first,
                violation_views(self.violations@) == collect_violations(
                    self.checks@,
                    self.halt_on_first,
                    *state,
                    i as nat,
                ),
                !self.halt_on_first || self.violations@.len() == 0,
            ensures
                self.checks@ == old(self).checks@,
                self.halt_on_first == old(self).halt_on_first,
                violation_views(self.violations@) == collect_violations(
                    self.checks@,
                    self.halt_on_first,
                    *state,
                    n as nat,
                ),
            decreases n - i,
        {
            let found = self.verify_invariant(&self.checks[i], state);
            match found {
                Some(violation) => {
                    self.violations.push(violation);
                    proof {
                        assert(violation_views(self.violations@) =~= collect_violations(
                            self.checks@,
                            self.halt_on_first,
                            *state,
                            (i + 1) as nat,
                        ));
                    }
                    if self.halt_on_first {
                        proof {
                            lemma_halt_keeps(self.checks@, *state, (i + 1) as nat, n as nat);
                        }
                        break;
                    }
                },
                None => {},
            }
            i = i + 1;
        }
        if self.violations.len() == 0 {
            JidokaStatus::Healthy
        } else {
            JidokaStatus::Halt(duplicate_all(&self.violations))
        }
    }

    /// Builds a limit violation message.
    fn limit_text(what: &str, value: usize, max: usize) -> (r: String)
        ensures
            r@ == limit_message(what@, value, max),
    {
        let mut s = text(what);
        s.append(" ");
        push_decimal(&mut s, value as u64);
        s.append(" exceeds limit ");
        push_decimal(&mut s, max as u64);
        proof {
            reveal_strlit(" ");
        }
        assert(s@ =~= limit_message(what@, value, max));
        s
    }

    /// Verify a single invariant
    #[verifier::rlimit(60)]
    fn verify_invariant<S: KernelStateView>(&self, check: &InvariantCheck, state: &S) -> (r:
        Option<Violation>)
        ensures
            check_violation(*check, *state) == match r {
                Some(v) => Some(v@),
                None => None::<ViolationView>,
            },
    {
        match check {
            InvariantCheck::ProcessCountLimit(max) => {
                let count = state.process_count();
                if count > *max {
                    Some(
                        Violation::new(
                            ViolationCategory::Process,
                            Self::limit_text("Process count", count, *max).as_str(),
                            Severity::Critical,
                        ),
                    )
                } else {
                    None
                }
            },
            InvariantCheck::MemoryLimit(max) => {
                let used = state.memory_used();
                if used > *max {
                    Some(
                        Violation::new(
                            ViolationCategory::Memory,
                            Self::limit_text("Memory usage", used, *max).as_str(),
                            Severity::Critical,
                        ),
                    )
                } else {
                    None
                }
            },
            InvariantCheck::FdLimit(max) => {
                let count = state.total_fd_count();
                if count > *max {
                    Some(
                        Violation::new(
                            ViolationCategory::FileSystem,
                            Self::limit_text("FD count", count, *max).as_str(),
                            Severity::Critical,
                        ),
                    )
                } else {
                    None
                }
            },
            InvariantCheck::NoOrphanProcesses => {
                if state.has_orphan_processes() {
                    Some(
                        Violation::new(
                            ViolationCategory::Process,
                            "Orphan processes detected (not reparented to init)",
                            Severity::Error,
                        ),
                    )
                } else {
                    None
                }
            },
            InvariantCheck::NoZombieBloat(max) => {
                let zombies = state.zombie_count();
                if zombies > *max {
                    Some(
                        Violation::new(
                            ViolationCategory::Process,
                            Self::limit_text("Zombie count", zombies, *max).as_str(),
                            Severity::Error,
                        ),
                    )
                } else {
                    None
                }
            },
            InvariantCheck::VmCountLimit(max) => {
                let count = state.vm_count();
                if count > *max {
                    Some(
                        Violation::new(
                            ViolationCategory::Virtualization,
                            Self::limit_text("VM count", count, *max).as_str(),
                            Severity::Critical,
                        ),
                    )
                } else {
                    None
                }
            },
            InvariantCheck::VmMemoryBounds => {
                if !state.vm_memory_within_bounds() {
                    Some(
                        Violation::new(
                            ViolationCategory::Virtualization,
                            "VM memory exceeds allocated bounds",
                            Severity::Critical,
                        ),
                    )
                } else {
                    None
                }
            },
            InvariantCheck::DeterministicRng => {
                if !state.rng_state_valid() {
                    Some(
                        Violation::new(
                            ViolationCategory::Consistency,
                            "RNG state is invalid or non-deterministic",
                            Severity::Error,
                        ),
                    )
                } else {
                    None
                }
            },
            InvariantCheck::UniquePids => {
                if !state.all_pids_unique() {
                    Some(
                        Violation::new(
                            ViolationCategory::Process,
                            "Duplicate PIDs detected",
                            Severity::Critical,
                        ),
                    )
                } else {
                    None
                }
            },
            InvariantCheck::NoMemoryOverlaps => {
                if state.has_memory_overlaps() {
                    Some(
                        Violation::new(
                            ViolationCategory::Memory,
                            "Memory region overlaps detected",
                            Severity::Critical,
                        ),
                    )
                } else {
                    None
                }
            },
            InvariantCheck::ConsistentMemoryTotals => {
                if !state.memory_totals_consistent() {
                    Some(
                        Violation::new(
                            ViolationCategory::Memory,
                            "Memory totals are inconsistent",
                            Severity::Error,
                        ),
                    )
                } else {
                    None
                }
            },
            InvariantCheck::ValidProcessStates => {
                if !state.all_process_states_valid() {
                    Some(
                        Violation::new(
                            ViolationCategory::Process,
                            "Invalid process state transition detected",
                            Severity::Error,
                        ),
                    )
                } else {
                    None
                }
            },
            InvariantCheck::SchedulerConsistency => {
                if !state.scheduler_consistent() {
                    Some(
                        Violation::new(
                            ViolationCategory::Scheduler,
                            "Scheduler queue inconsistency detected",
                            Severity::Error,
                        ),
                    )
                } else {
                    None
                }
            },
            InvariantCheck::Custom(_name) => None,
        }
    }

    /// Get all violations from last check
    pub fn violations(&self) -> (r: &[Violation])
        ensures
            violation_views(r@) == self.recorded(),
    {
        self.violations.as_slice()
    }

    /// Clear recorded violations
    pub fn clear_violations(&mut self)
        ensures
            final(self).recorded().len() == 0,
            final(self).checks() == old(self).checks(),
            final(self).halts_on_first() == old(self).halts_on_first(),
    {
        self.violations.clear();
    }
}

/// Simple mock state for testing
#[derive(Default)]
pub struct MockKernelState {
    /// Number of processes in the system
    pub process_count: usize,
    /// Total memory used in bytes
    pub memory_used: usize,
    /// Total file descriptors open across all processes
    pub total_fds: usize,
    /// Whether orphan processes exist (children without parents)
    pub has_orphans: bool,
    /// Number of zombie processes
    pub zombie_count: usize,
    /// Number of virtual machines
    pub vm_count: usize,
    /// Whether duplicate PIDs exist (invariant violation)
    pub duplicate_pids: bool,
}

impl KernelStateView for MockKernelState {
    open spec fn spec_process_count(&self) -> usize {
        self.process_count
    }

    open spec fn spec_memory_used(&self) -> usize {
        self.memory_used
    }

    open spec fn spec_total_fd_count(&self) -> usize {
        self.total_fds
    }

    open spec fn spec_has_orphan_processes(&self) -> bool {
        self.has_orphans
    }

    open spec fn spec_zombie_count(&self) -> usize {
        self.zombie_count
    }

    open spec fn spec_vm_count(&self) -> usize {
        self.vm_count
    }

    open spec fn spec_vm_memory_within_bounds(&self) -> bool {
        true
    }

    open spec fn spec_rng_state_valid(&self) -> bool {
        true
    }

    open spec fn spec_all_pids_unique(&self) -> bool {
        !self.duplicate_pids
    }

    open spec fn spec_has_memory_overlaps(&self) -> bool {
        false
    }

    open spec fn spec_memory_totals_consistent(&self) -> bool {
        true
    }

    open spec fn spec_all_process_states_valid(&self) -> bool {
        true
    }

    open spec fn spec_scheduler_consistent(&self) -> bool {
        true
    }

    fn process_count(&self) -> (r: usize) {
        self.process_count
    }

    fn memory_used(&self) -> (r: usize) {
        self.memory_used
    }

    fn total_fd_count(&self) -> (r: usize) {
        self.total_fds
    }

    fn has_orphan_processes(&self) -> (r: bool) {
        self.has_orphans
    }

    fn zombie_count(&self) -> (r: usize) {
        self.zombie_count
    }

    fn vm_count(&self) -> (r: usize) {
        self.vm_count
    }

    fn vm_memory_within_bounds(&self) -> (r: bool) {
        true
    }

    fn rng_state_valid(&self) -> (r: bool) {
        true
    }

    fn all_pids_unique(&self) -> (r: bool) {
        !self.duplicate_pids
    }

    fn has_memory_overlaps(&self) -> (r: bool) {
        false
    }

    fn memory_totals_consistent(&self) -> (r: bool) {
        true
    }

    fn all_process_states_valid(&self) -> (r: bool) {
        true
    }

    fn scheduler_consistent(&self) -> (r: bool) {
        true
    }
}

} // verus!
