//! Process scheduler: round-robin over a ready queue, and priority
//! scheduling over eight levels with round-robin within a level and aging
//! against starvation; plus waking sleepers and delivering signals.

use crate::persistent::{
    pid_queue_clone, pid_queue_contains, pid_queue_get, pid_queue_len, pid_queue_new,
    pid_queue_push_back, pid_queue_remove, pid_queue_view,
};
use crate::signals::Signal;
use crate::state::ProcessId;
use vstd::prelude::*;

verus! {

/// Number of priority levels (0 = highest, 7 = lowest)
pub const NUM_PRIORITY_LEVELS: usize = 8;

/// Aging threshold - boost priority after this many wait ticks
pub const AGING_THRESHOLD: u64 = 5;

/// The wait ticks of each queued process.
pub uninterp spec fn ticks_table_view(m: im::HashMap<u32, u64>) -> Map<u32, u64>;

/// `im::HashMap::new` for wait ticks: the new map is empty.
#[verifier::external_body]
fn ticks_table_new() -> (r: im::HashMap<u32, u64>)
    ensures
        ticks_table_view(r).dom().is_empty(),
{
    im::HashMap::new()
}

/// `im::HashMap::clone` for wait ticks: the clone has the same contents.
#[verifier::external_body]
fn ticks_table_clone(m: &im::HashMap<u32, u64>) -> (r: im::HashMap<u32, u64>)
    ensures
        ticks_table_view(r) == ticks_table_view(*m),
{
    m.clone()
}

/// `im::HashMap::insert` for wait ticks.
#[verifier::external_body]
fn ticks_table_insert(m: &mut im::HashMap<u32, u64>, k: u32, v: u64)
    ensures
        ticks_table_view(*final(m)) == ticks_table_view(*old(m)).insert(k, v),
{
    m.insert(k, v);
}

/// `im::HashMap::get` for wait ticks, copied out.
#[verifier::external_body]
fn ticks_table_get(m: &im::HashMap<u32, u64>, k: u32) -> (r: Option<u64>)
    ensures
        r == ticks_table_view(*m).get(k),
{
    m.get(&k).copied()
}

/// `im::HashMap::remove` for wait ticks.
#[verifier::external_body]
fn ticks_table_remove(m: &mut im::HashMap<u32, u64>, k: u32)
    ensures
        ticks_table_view(*final(m)) == ticks_table_view(*old(m)).remove(k),
{
    m.remove(&k);
}

/// `im::HashMap::contains_key` for wait ticks.
#[verifier::external_body]
fn ticks_table_contains(m: &im::HashMap<u32, u64>, k: u32) -> (r: bool)
    ensures
        r == ticks_table_view(*m).dom().contains(k),
{
    m.contains_key(&k)
}

/// The position of the first occurrence of a value in a sequence.
pub open spec fn is_first_index(s: Seq<ProcessId>, x: ProcessId, i: int) -> bool {
    &&& 0 <= i < s.len()
    &&& s[i] == x
    &&& forall|j: int| 0 <= j < i ==> s[j] != x
}

/// Finds the first occurrence of a value in a queue.
fn position(q: &im::Vector<ProcessId>, x: ProcessId) -> (r: Option<usize>)
    ensures
        match r {
            Some(i) => is_first_index(pid_queue_view(*q), x, i as int),
            None => !pid_queue_view(*q).contains(x),
        },
{
    let n = pid_queue_len(q);
    let mut i: usize = 0;
    while i < n
        invariant
            i <= n,
            n == pid_queue_view(*q).len(),
            forall|j: int| 0 <= j < i ==> pid_queue_view(*q)[j] != x,
        decreases n - i,
    {
        if pid_queue_get(q, i) == x {
            return Some(i);
        }
        i = i + 1;
    }
    None
}

/// The priority level of a priority value: values above 7 count as 7.
pub open spec fn level_of(priority: u8) -> int {
    if priority > 7 {
        7
    } else {
        priority as int
    }
}

/// Round-robin process scheduler with priority support
#[derive(Debug, PartialEq)]
pub struct Scheduler {
    /// Ready queue (processes ready to run) - legacy round-robin
    ready_queue: im::Vector<ProcessId>,
    /// Current position in round-robin (for fairness tracking)
    pub current_index: usize,
    /// Priority queues (one per priority level 0-7)
    priority_queues: [im::Vector<ProcessId>; 8],
    /// Current index within each priority level (for round-robin within priority)
    priority_indices: [usize; 8],
    /// Wait ticks tracking for aging (ProcessId -> wait_ticks)
    wait_ticks: im::HashMap<ProcessId, u64>,
}

impl Clone for Scheduler {
    fn clone(&self) -> (r: Self)
        ensures
            r.ready() == self.ready(),
            r.rr_index() == self.rr_index(),
            r.levels() == self.levels(),
            r.indices() == self.indices(),
            r.ticks() == self.ticks(),
    {
        let r = Scheduler {
            ready_queue: pid_queue_clone(&self.ready_queue),
            current_index: self.current_index,
            priority_queues: [
                pid_queue_clone(&self.priority_queues[0]),
                pid_queue_clone(&self.priority_queues[1]),
                pid_queue_clone(&self.priority_queues[2]),
                pid_queue_clone(&self.priority_queues[3]),
                pid_queue_clone(&self.priority_queues[4]),
                pid_queue_clone(&self.priority_queues[5]),
                pid_queue_clone(&self.priority_queues[6]),
                pid_queue_clone(&self.priority_queues[7]),
            ],
            priority_indices: self.priority_indices,
            wait_ticks: ticks_table_clone(&self.wait_ticks),
        };
        assert(r.levels() =~= self.levels());
        r
    }
}

impl Default for Scheduler {
    fn default() -> (r: Self)
        ensures
            r.ready() == Seq::<ProcessId>::empty(),
            r.rr_index() == 0,
            r.levels() == Seq::new(8, |l: int| Seq::<ProcessId>::empty()),
            r.indices() == Seq::new(8, |l: int| 0usize),
            r.ticks().dom().is_empty(),
    {
        Self::new()
    }
}

impl Scheduler {
    /// The round-robin ready queue.
    pub closed spec fn ready(&self) -> Seq<ProcessId> {
        pid_queue_view(self.ready_queue)
    }

    /// The round-robin position in the ready queue.
    pub closed spec fn rr_index(&self) -> usize {
        self.current_index
    }

    /// The eight priority queues, level 0 first.
    pub closed spec fn levels(&self) -> Seq<Seq<ProcessId>> {
        Seq::new(8, |l: int| pid_queue_view(self.priority_queues@[l]))
    }

    /// The round-robin position within each priority level.
    pub closed spec fn indices(&self) -> Seq<usize> {
        self.priority_indices@
    }

    /// The wait ticks of queued processes.
    pub closed spec fn ticks(&self) -> Map<ProcessId, u64> {
        ticks_table_view(self.wait_ticks)
    }

    /// The round-robin position points into a non-empty ready queue.
    pub open spec fn round_robin_ok(&self) -> bool {
        self.ready().len() > 0 ==> self.rr_index() < self.ready().len()
    }

    /// The ready queue holds each process at most once, and the round-robin
    /// position points into it, or is 0 when it is empty.
    pub open spec fn ready_wf(&self) -> bool {
        &&& self.ready().no_duplicates()
        &&& (self.rr_index() < self.ready().len() || (self.ready().len() == 0 && self.rr_index()
            == 0))
    }

    /// Each level's position points into its queue, or is 0.
    pub open spec fn levels_ok(&self) -> bool {
        forall|l: int|
            0 <= l < 8 ==> #[trigger] self.indices()[l] < self.levels()[l].len() || self.indices()[l]
                == 0
    }

    /// Create a new scheduler
    pub fn new() -> (r: Self)
        ensures
            r.ready() == Seq::<ProcessId>::empty(),
            r.rr_index() == 0,
            r.levels() == Seq::new(8, |l: int| Seq::<ProcessId>::empty()),
            r.indices() == Seq::new(8, |l: int| 0usize),
            r.ticks().dom().is_empty(),
            r.ready_wf(),
    {
        let r = Self {
            ready_queue: pid_queue_new(),
            current_index: 0,
            priority_queues: [
                pid_queue_new(),
                pid_queue_new(),
                pid_queue_new(),
                pid_queue_new(),
                pid_queue_new(),
                pid_queue_new(),
                pid_queue_new(),
                pid_queue_new(),
            ],
            priority_indices: [0; 8],
            wait_ticks: ticks_table_new(),
        };
        assert(r.levels() =~= Seq::new(8, |l: int| Seq::<ProcessId>::empty()));
        assert(r.indices() =~= Seq::new(8, |l: int| 0usize));
        r
    }

    /// Add a process to the ready queue
    pub fn enqueue(&mut self, pid: ProcessId)
        ensures
            final(self).ready() == if old(self).ready().contains(pid) {
                old(self).ready()
            } else {
                old(self).ready().push(pid)
            },
            final(self).rr_index() == old(self).rr_index(),
            final(self).levels() == old(self).levels(),
            final(self).indices() == old(self).indices(),
            final(self).ticks() == old(self).ticks(),
            final(self).ready().contains(pid),
            old(self).ready_wf() ==> final(self).ready_wf(),
    {
        if !pid_queue_contains(&self.ready_queue, pid) {
            pid_queue_push_back(&mut self.ready_queue, pid);
            proof {
                let q = old(self).ready();
                assert(self.ready()[q.len() as int] == pid);
                if q.no_duplicates() {
                    assert forall|i: int, j: int|
                        0 <= i < j < q.push(pid).len() implies q.push(pid)[i] != q.push(
                        pid,
                    )[j] by {
                        assert(q.push(pid)[i] == q[i]);
                        if j == q.len() {
                            assert(q.contains(q[i]));
                        } else {
                            assert(q.push(pid)[j] == q[j]);
                        }
                    }
                }
            }
        }
    }

    /// Remove a process from the ready queue
    pub fn dequeue(&mut self, pid: ProcessId)
        ensures
            !old(self).ready().contains(pid) ==> final(self).ready() == old(self).ready()
                && final(self).rr_index() == old(self).rr_index(),
            old(self).ready().contains(pid) ==> exists|i: int|
                #![trigger is_first_index(old(self).ready(), pid, i)]
                is_first_index(old(self).ready(), pid, i) && final(self).ready() == old(
                    self,
                ).ready().remove(i),
            old(self).ready().contains(pid) ==> final(self).rr_index() == if old(
                self,
            ).rr_index() >= old(self).ready().len() - 1 {
                0
            } else {
                old(self).rr_index()
            },
            old(self).round_robin_ok() ==> final(self).round_robin_ok(),
            old(self).ready().no_duplicates() ==> !final(self).ready().contains(pid),
            old(self).ready_wf() ==> final(self).ready_wf(),
            final(self).levels() == old(self).levels(),
            final(self).indices() == old(self).indices(),
            final(self).ticks() == old(self).ticks(),
    {
        if let Some(idx) = position(&self.ready_queue, pid) {
            pid_queue_remove(&mut self.ready_queue, idx);
            if self.current_index >= pid_queue_len(&self.ready_queue) {
                self.current_index = 0;
            }
            assert(is_first_index(old(self).ready(), pid, idx as int));
            proof {
                let q = old(self).ready();
                let r = q.remove(idx as int);
                assert(self.ready() == r);
                if q.no_duplicates() {
                    assert forall|k: int| 0 <= k < r.len() implies r[k] != pid by {
                        if k < idx {
                            assert(q[k] == r[k]);
                        } else {
                            assert(q[k + 1] == r[k]);
                        }
                    }
                    assert forall|a: int, b: int|
                        0 <= a < b < r.len() implies r[a] != r[b] by {
                        let qa = if a < idx { a } else { a + 1 };
                        let qb = if b < idx { b } else { b + 1 };
                        assert(q[qa] == r[a]);
                        assert(q[qb] == r[b]);
                    }
                }
            }
        }
    }

    /// Select next process to run using round-robin
    ///
    /// Returns None if no processes are ready.
    /// Guarantees fairness: each process gets equal CPU time.
    pub fn schedule(&mut self) -> (r: Option<ProcessId>)
        requires
            old(self).round_robin_ok(),
        ensures
            old(self).ready().len() == 0 ==> r is None && final(self).rr_index() == old(
                self,
            ).rr_index(),
            old(self).ready().len() > 0 ==> r == Some(old(self).ready()[old(self).rr_index() as int])
                && final(self).rr_index() == (old(self).rr_index() + 1) % old(
                self,
            ).ready().len() as int,
            final(self).round_robin_ok(),
            old(self).ready_wf() ==> final(self).ready_wf(),
            final(self).ready() == old(self).ready(),
            final(self).levels() == old(self).levels(),
            final(self).indices() == old(self).indices(),
            final(self).ticks() == old(self).ticks(),
    {
        let n = pid_queue_len(&self.ready_queue);
        if n == 0 {
            return None;
        }
        let pid = pid_queue_get(&self.ready_queue, self.current_index);
        self.current_index = (self.current_index + 1) % n;
        Some(pid)
    }

    /// Get the number of processes in the ready queue
    pub fn ready_count(&self) -> (r: usize)
        ensures
            r == self.ready().len(),
    {
        pid_queue_len(&self.ready_queue)
    }

    /// Check if a process is in the ready queue
    pub fn is_ready(&self, pid: ProcessId) -> (r: bool)
        ensures
            r == self.ready().contains(pid),
    {
        pid_queue_contains(&self.ready_queue, pid)
    }
}

/// The round-robin position after `k` schedules from position `c` in a
/// queue of `n` processes.
pub open spec fn rr_position(c: int, n: int, k: nat) -> int
    decreases k,
{
    if k == 0 {
        c
    } else {
        (rr_position(c, n, (k - 1) as nat) + 1) % n
    }
}

/// Round-robin fairness: from any position, `n` consecutive schedules of a
/// queue of `n` processes pick every position exactly once and end where
/// they started.
pub proof fn law_round_robin_fair(c: int, n: int)
    requires
        0 <= c < n,
    ensures
        rr_position(c, n, n as nat) == c,
        forall|a: nat, b: nat|
            a < b < n ==> #[trigger] rr_position(c, n, a) != #[trigger] rr_position(c, n, b),
        forall|k: nat| #[trigger] rr_position(c, n, k) == (c + k) % n,
{
    assert forall|k: nat| #[trigger] rr_position(c, n, k) == (c + k) % n by {
        lemma_rr_position(c, n, k);
    }
    assert(rr_position(c, n, n as nat) == c) by {
        assert((c + n) % n == c) by (nonlinear_arith)
            requires
                0 <= c < n,
        ;
    }
    assert forall|a: nat, b: nat| a < b < n implies #[trigger] rr_position(c, n, a)
        != #[trigger] rr_position(c, n, b) by {
        assert((c + a) % n != (c + b) % n) by (nonlinear_arith)
            requires
                0 <= c < n,
                a < b < n,
        ;
    }
}

proof fn lemma_rr_position(c: int, n: int, k: nat)
    requires
        0 <= c < n,
    ensures
        rr_position(c, n, k) == (c + k) % n,
    decreases k,
{
    if k == 0 {
        assert(c % n == c) by (nonlinear_arith)
            requires
                0 <= c < n,
        ;
    } else {
        lemma_rr_position(c, n, (k - 1) as nat);
        assert(((c + k - 1) % n + 1) % n == (c + k) % n) by (nonlinear_arith)
            requires
                n > 0,
                c + k - 1 >= 0,
        ;
    }
}

// ---------------------------------------------------------------------------
// Priority scheduling with aging
// ---------------------------------------------------------------------------

/// The state priority scheduling works on: the eight queues, the position
/// within each, and the wait ticks.
pub type PriorityState = (Seq<Seq<ProcessId>>, Seq<usize>, Map<ProcessId, u64>);

/// The processes among the first `n` of a level's queue whose wait ticks
/// reached the aging threshold, each with the level.
pub open spec fn level_boosts(q: Seq<ProcessId>, ticks: Map<ProcessId, u64>, lvl: usize, n: nat) -> Seq<(ProcessId, usize)>
    decreases n,
{
    if n == 0 {
        Seq::empty()
    } else {
        let prev = level_boosts(q, ticks, lvl, (n - 1) as nat);
        let p = q[n - 1];
        if ticks.dom().contains(p) && ticks[p] >= AGING_THRESHOLD {
            prev.push((p, lvl))
        } else {
            prev
        }
    }
}

/// The processes due for a boost in levels `1..l`, level by level and in
/// queue order.
pub open spec fn boost_list(qs: Seq<Seq<ProcessId>>, ticks: Map<ProcessId, u64>, l: nat) -> Seq<(ProcessId, usize)>
    decreases l,
{
    if l <= 1 {
        Seq::empty()
    } else {
        boost_list(qs, ticks, (l - 1) as nat) + level_boosts(qs[l - 1], ticks, (l - 1) as usize, qs[l - 1].len())
    }
}

/// The position of the first occurrence of a value that occurs.
pub open spec fn first_index(s: Seq<ProcessId>, x: ProcessId) -> int {
    choose|i: int| is_first_index(s, x, i)
}

/// A sequence holding a value has a first occurrence of it.
proof fn lemma_first_index_exists(s: Seq<ProcessId>, x: ProcessId)
    requires
        s.contains(x),
    ensures
        is_first_index(s, x, first_index(s, x)),
{
    let k = choose|k: int| 0 <= k < s.len() && s[k] == x;
    lemma_first_below(s, x, k);
}

proof fn lemma_first_below(s: Seq<ProcessId>, x: ProcessId, k: int)
    requires
        0 <= k < s.len(),
        s[k] == x,
    ensures
        exists|i: int| is_first_index(s, x, i),
    decreases k,
{
    if exists|j: int| 0 <= j < k && s[j] == x {
        let j = choose|j: int| 0 <= j < k && s[j] == x;
        lemma_first_below(s, x, j);
    } else {
        assert(is_first_index(s, x, k));
    }
}

/// A queue and its position after removing the first occurrence of a
/// process: the position resets to 0 when it falls off a non-empty queue.
pub open spec fn remove_from_level(q: Seq<ProcessId>, pos: usize, pid: ProcessId) -> (Seq<ProcessId>, usize) {
    if q.contains(pid) {
        let q1 = q.remove(first_index(q, pid));
        (q1, if pos >= q1.len() && q1.len() != 0 { 0 } else { pos })
    } else {
        (q, pos)
    }
}

/// One boost: the process leaves its level, joins the level above unless it
/// is already there, and its wait ticks restart at 0.
pub open spec fn apply_boost(st: PriorityState, b: (ProcessId, usize)) -> PriorityState {
    let (qs, idx, t) = st;
    let (pid, old) = b;
    let (q1, i1) = remove_from_level(qs[old as int], idx[old as int], pid);
    let qs1 = qs.update(old as int, q1);
    let idx1 = idx.update(old as int, i1);
    let nl = old - 1;
    let qs2 = if qs1[nl].contains(pid) {
        qs1
    } else {
        qs1.update(nl, qs1[nl].push(pid))
    };
    (qs2, idx1, t.insert(pid, 0))
}

/// The first `n` boosts of a list applied in order.
pub open spec fn apply_boosts(st: PriorityState, bs: Seq<(ProcessId, usize)>, n: nat) -> PriorityState
    decreases n,
{
    if n == 0 {
        st
    } else {
        apply_boost(apply_boosts(st, bs, (n - 1) as nat), bs[n - 1])
    }
}

/// Aging: every process at levels 1..7 whose wait ticks reached the
/// threshold moves one level up.
pub open spec fn aged(st: PriorityState) -> PriorityState {
    apply_boosts(st, boost_list(st.0, st.2, 8), boost_list(st.0, st.2, 8).len())
}

/// The highest-priority non-empty level from `l` on, and the process at its position.
pub open spec fn pick_from(qs: Seq<Seq<ProcessId>>, idx: Seq<usize>, l: nat) -> Option<(usize, ProcessId)>
    decreases 8 - l,
{
    if l >= 8 {
        None
    } else if qs[l as int].len() > 0 {
        Some((l as usize, qs[l as int][idx[l as int] as int]))
    } else {
        pick_from(qs, idx, l + 1)
    }
}

/// The queues one after another, levels `0..l`.
pub open spec fn flatten(qs: Seq<Seq<ProcessId>>, l: nat) -> Seq<ProcessId>
    decreases l,
{
    if l == 0 {
        Seq::empty()
    } else {
        flatten(qs, (l - 1) as nat) + qs[l - 1]
    }
}

/// The wait ticks after adding one for each occurrence, in order, of a
/// process other than `skip`.
pub open spec fn bump_all(t: Map<ProcessId, u64>, s: Seq<ProcessId>, skip: ProcessId) -> Map<ProcessId, u64>
    decreases s.len(),
{
    if s.len() == 0 {
        t
    } else {
        let prev = bump_all(t, s.drop_last(), skip);
        let x = s.last();
        if x == skip {
            prev
        } else {
            prev.insert(x, (ticks_or_zero(prev, x) + 1) as u64)
        }
    }
}

/// The wait ticks of a process, 0 when it has none.
pub open spec fn ticks_or_zero(t: Map<ProcessId, u64>, x: ProcessId) -> u64 {
    if t.dom().contains(x) {
        t[x]
    } else {
        0
    }
}

/// Every addition of `bump_all` stays within `u64`.
pub open spec fn bump_fits(t: Map<ProcessId, u64>, s: Seq<ProcessId>, skip: ProcessId) -> bool
    decreases s.len(),
{
    if s.len() == 0 {
        true
    } else {
        bump_fits(t, s.drop_last(), skip) && (s.last() == skip || ticks_or_zero(
            bump_all(t, s.drop_last(), skip),
            s.last(),
        ) < u64::MAX)
    }
}

proof fn lemma_bump_fits_prefix(t: Map<ProcessId, u64>, s: Seq<ProcessId>, skip: ProcessId, k: int)
    requires
        bump_fits(t, s, skip),
        0 <= k <= s.len(),
    ensures
        bump_fits(t, s.take(k), skip),
    decreases s.len(),
{
    if k < s.len() {
        assert(s.drop_last().take(k) =~= s.take(k));
        lemma_bump_fits_prefix(t, s.drop_last(), skip, k);
    } else {
        assert(s.take(k) =~= s);
    }
}

/// Every level's position points into its queue, or is 0.
pub open spec fn positions_ok(qs: Seq<Seq<ProcessId>>, idx: Seq<usize>) -> bool {
    &&& qs.len() == 8
    &&& idx.len() == 8
    &&& forall|l: int| 0 <= l < 8 ==> #[trigger] idx[l] < qs[l].len() || idx[l] == 0
}

proof fn lemma_boost_keeps_positions(st: PriorityState, b: (ProcessId, usize))
    requires
        positions_ok(st.0, st.1),
        1 <= b.1 < 8,
    ensures
        positions_ok(apply_boost(st, b).0, apply_boost(st, b).1),
{
    let (qs, idx, t) = st;
    let (pid, old) = b;
    let q = qs[old as int];
    if q.contains(pid) {
        lemma_first_index_exists(q, pid);
    }
    let r = apply_boost(st, b);
    assert forall|l: int| 0 <= l < 8 implies #[trigger] r.1[l] < r.0[l].len() || r.1[l] == 0 by {
        if l == old as int {
            if q.contains(pid) {
                assert(idx[l] < q.len() || idx[l] == 0);
            }
        }
    }
}

proof fn lemma_boosts_keep_positions(st: PriorityState, bs: Seq<(ProcessId, usize)>, n: nat)
    requires
        positions_ok(st.0, st.1),
        n <= bs.len(),
        forall|i: int| 0 <= i < bs.len() ==> 1 <= (#[trigger] bs[i]).1 < 8,
    ensures
        positions_ok(apply_boosts(st, bs, n).0, apply_boosts(st, bs, n).1),
    decreases n,
{
    if n > 0 {
        lemma_boosts_keep_positions(st, bs, (n - 1) as nat);
        lemma_boost_keeps_positions(apply_boosts(st, bs, (n - 1) as nat), bs[n - 1]);
    }
}

proof fn lemma_level_boosts_levels(q: Seq<ProcessId>, ticks: Map<ProcessId, u64>, lvl: usize, n: nat)
    requires
        n <= q.len(),
    ensures
        forall|i: int| 0 <= i < level_boosts(q, ticks, lvl, n).len() ==> (#[trigger] level_boosts(q, ticks, lvl, n)[i]).1 == lvl,
    decreases n,
{
    if n > 0 {
        lemma_level_boosts_levels(q, ticks, lvl, (n - 1) as nat);
        let prev = level_boosts(q, ticks, lvl, (n - 1) as nat);
        let cur = level_boosts(q, ticks, lvl, n);
        assert forall|i: int| 0 <= i < cur.len() implies (#[trigger] cur[i]).1 == lvl by {
            if i < prev.len() {
                assert(cur[i] == prev[i]);
            }
        }
    }
}

proof fn lemma_boost_list_levels(qs: Seq<Seq<ProcessId>>, ticks: Map<ProcessId, u64>, l: nat)
    requires
        l <= 8,
    ensures
        forall|i: int| 0 <= i < boost_list(qs, ticks, l).len() ==> 1 <= (#[trigger] boost_list(qs, ticks, l)[i]).1 < l,
    decreases l,
{
    if l > 1 {
        lemma_boost_list_levels(qs, ticks, (l - 1) as nat);
        let a = boost_list(qs, ticks, (l - 1) as nat);
        let b = level_boosts(qs[l - 1], ticks, (l - 1) as usize, qs[l - 1].len());
        lemma_level_boosts_levels(qs[l - 1], ticks, (l - 1) as usize, qs[l - 1].len());
        assert forall|i: int| 0 <= i < (a + b).len() implies 1 <= (#[trigger] (a + b)[i]).1 < l by {
            if i >= a.len() {
                assert((a + b)[i] == b[i - a.len()]);
            }
        }
    }
}

/// Aging keeps every level's position pointing into its queue, or at 0.
pub proof fn law_aging_keeps_positions(st: PriorityState)
    requires
        positions_ok(st.0, st.1),
    ensures
        positions_ok(aged(st).0, aged(st).1),
{
    let bs = boost_list(st.0, st.2, 8);
    lemma_boost_list_levels(st.0, st.2, 8);
    lemma_boosts_keep_positions(st, bs, bs.len());
}

impl Scheduler {
    /// The scheduler's priority state.
    pub open spec fn priority_state(&self) -> PriorityState {
        (self.levels(), self.indices(), self.ticks())
    }

    /// Replaces the queue of one level.
    fn set_level(&mut self, l: usize, q: im::Vector<ProcessId>)
        requires
            l < 8,
        ensures
            final(self).levels() == old(self).levels().update(l as int, pid_queue_view(q)),
            final(self).indices() == old(self).indices(),
            final(self).ticks() == old(self).ticks(),
            final(self).ready() == old(self).ready(),
            final(self).rr_index() == old(self).rr_index(),
    {
        self.priority_queues[l] = q;
        assert(self.levels() =~= old(self).levels().update(l as int, pid_queue_view(q)));
    }

    /// Add a process to a specific priority queue
    pub fn enqueue_priority(&mut self, pid: ProcessId, priority: u8)
        ensures
            ({
                let l = level_of(priority);
                let q = old(self).levels()[l];
                final(self).levels() == old(self).levels().update(
                    l,
                    if q.contains(pid) {
                        q
                    } else {
                        q.push(pid)
                    },
                )
            }),
            final(self).indices() == old(self).indices(),
            final(self).ticks() == if old(self).ticks().dom().contains(pid) {
                old(self).ticks()
            } else {
                old(self).ticks().insert(pid, 0)
            },
            final(self).ready() == old(self).ready(),
            final(self).rr_index() == old(self).rr_index(),
            old(self).levels_ok() ==> final(self).levels_ok(),
    {
        let level: usize = if priority > 7 {
            7
        } else {
            priority as usize
        };
        let mut q = pid_queue_clone(&self.priority_queues[level]);
        assert(pid_queue_view(q) == old(self).levels()[level as int]);
        if !pid_queue_contains(&q, pid) {
            pid_queue_push_back(&mut q, pid);
            self.set_level(level, q);
        } else {
            assert(old(self).levels().update(level as int, old(self).levels()[level as int]) =~= old(self).levels());
        }
        if !ticks_table_contains(&self.wait_ticks, pid) {
            ticks_table_insert(&mut self.wait_ticks, pid, 0);
        }
    }

    /// Remove a process from priority queue
    pub fn dequeue_priority(&mut self, pid: ProcessId, priority: u8)
        ensures
            ({
                let l = level_of(priority);
                let (q1, i1) = remove_from_level(old(self).levels()[l], old(self).indices()[l], pid);
                &&& final(self).levels() == old(self).levels().update(l, q1)
                &&& final(self).indices() == old(self).indices().update(l, i1)
            }),
            final(self).ticks() == old(self).ticks().remove(pid),
            final(self).ready() == old(self).ready(),
            final(self).rr_index() == old(self).rr_index(),
            old(self).levels_ok() ==> final(self).levels_ok(),
    {
        let level: usize = if priority > 7 {
            7
        } else {
            priority as usize
        };
        self.remove_from_priority_level(level, pid);
        ticks_table_remove(&mut self.wait_ticks, pid);
        proof {
            if old(self).levels()[level as int].contains(pid) {
                lemma_first_index_exists(old(self).levels()[level as int], pid);
            }
            if old(self).levels_ok() {
                assert forall|l: int| 0 <= l < 8 implies #[trigger] self.indices()[l] < self.levels()[l].len()
                    || self.indices()[l] == 0 by {
                    assert(old(self).indices()[l] < old(self).levels()[l].len() || old(self).indices()[l] == 0);
                }
            }
        }
    }
}

/// The queues of levels `0..a` come first among those of levels `0..b`.
proof fn lemma_flatten_prefix(qs: Seq<Seq<ProcessId>>, a: nat, b: nat)
    requires
        a <= b,
    ensures
        flatten(qs, a).len() <= flatten(qs, b).len(),
        forall|i: int| 0 <= i < flatten(qs, a).len() ==> #[trigger] flatten(qs, b)[i] == flatten(qs, a)[i],
    decreases b,
{
    if a < b {
        lemma_flatten_prefix(qs, a, (b - 1) as nat);
    }
}

/// The queues of levels `0..a` followed by the first `j` of level `a` are
/// the first values of the queues of all eight levels.
proof fn lemma_flatten_take(qs: Seq<Seq<ProcessId>>, a: nat, j: int)
    requires
        a < 8,
        0 <= j <= qs[a as int].len(),
    ensures
        flatten(qs, a).len() + qs[a as int].len() <= flatten(qs, 8).len(),
        flatten(qs, 8).take(flatten(qs, a).len() + j) == flatten(qs, a) + qs[a as int].take(j),
{
    lemma_flatten_prefix(qs, a + 1, 8);
    let f = flatten(qs, a);
    assert(flatten(qs, a + 1) == f + qs[a as int]);
    assert forall|i: int| 0 <= i < f.len() + j implies #[trigger] flatten(qs, 8).take(f.len() + j)[i]
        == (f + qs[a as int].take(j))[i] by {
        assert(flatten(qs, 8)[i] == flatten(qs, a + 1)[i]);
    }
    assert(flatten(qs, 8).take(f.len() + j) =~= f + qs[a as int].take(j));
}

/// Whether the wait-tick additions of priority scheduling stay within `u64`.
pub open spec fn schedule_fits(st: PriorityState) -> bool {
    match pick_from(st.0, st.1, 0) {
        Some((l, pid)) => bump_fits(st.2.insert(pid, 0), flatten(st.0, 8), pid),
        None => true,
    }
}

impl Scheduler {
    /// Removes the first occurrence of a process from a level, resetting the
    /// level's position when it falls off a non-empty queue.
    fn remove_from_priority_level(&mut self, l: usize, pid: ProcessId)
        requires
            l < 8,
        ensures
            ({
                let (q1, i1) = remove_from_level(old(self).levels()[l as int], old(self).indices()[l as int], pid);
                &&& final(self).levels() == old(self).levels().update(l as int, q1)
                &&& final(self).indices() == old(self).indices().update(l as int, i1)
            }),
            final(self).ticks() == old(self).ticks(),
            final(self).ready() == old(self).ready(),
            final(self).rr_index() == old(self).rr_index(),
    {
        let ghost q0 = old(self).levels()[l as int];
        assert(pid_queue_view(self.priority_queues[l as int]) == q0);
        match position(&self.priority_queues[l], pid) {
            Some(idx) => {
                proof {
                    lemma_first_index_exists(q0, pid);
                    let f = first_index(q0, pid);
                    if f < idx {
                        assert(q0[f] == pid);
                    } else if f > idx {
                        assert(q0[idx as int] == pid);
                    }
                }
                let mut q = pid_queue_clone(&self.priority_queues[l]);
                pid_queue_remove(&mut q, idx);
                let n = pid_queue_len(&q);
                self.set_level(l, q);
                if self.priority_indices[l] >= n && n != 0 {
                    self.priority_indices[l] = 0;
                }
                assert(self.indices() =~= old(self).indices().update(
                    l as int,
                    remove_from_level(q0, old(self).indices()[l as int], pid).1,
                ));
            },
            None => {
                assert(old(self).levels().update(l as int, q0) =~= old(self).levels());
                assert(old(self).indices().update(l as int, old(self).indices()[l as int]) =~= old(self).indices());
            },
        }
    }

    /// Apply aging to prevent starvation
    ///
    /// Processes that have waited too long get temporarily boosted priority
    fn apply_aging(&mut self)
        ensures
            final(self).priority_state() == aged(old(self).priority_state()),
            final(self).ready() == old(self).ready(),
            final(self).rr_index() == old(self).rr_index(),
    {
        let ghost st0 = self.priority_state();
        let mut boosts: Vec<(ProcessId, usize)> = Vec::new();
        let mut level: usize = 1;
        while level < 8
            invariant
                1 <= level <= 8,
                self.priority_state() == st0,
                self.ready() == old(self).ready(),
                self.rr_index() == old(self).rr_index(),
                st0 == old(self).priority_state(),
                boosts@ == boost_list(st0.0, st0.2, level as nat),
            decreases 8 - level,
        {
            let n = pid_queue_len(&self.priority_queues[level]);
            assert(n == st0.0[level as int].len());
            let mut j: usize = 0;
            while j < n
                invariant
                    1 <= level < 8,
                    j <= n,
                    n == st0.0[level as int].len(),
                    self.priority_state() == st0,
                    self.ready() == old(self).ready(),
                    self.rr_index() == old(self).rr_index(),
                    st0 == old(self).priority_state(),
                    boosts@ == boost_list(st0.0, st0.2, level as nat) + level_boosts(
                        st0.0[level as int],
                        st0.2,
                        level,
                        j as nat,
                    ),
                decreases n - j,
            {
                let pid = pid_queue_get(&self.priority_queues[level], j);
                assert(pid == st0.0[level as int][j as int]);
                let ghost before = boosts@;
                if let Some(t) = ticks_table_get(&self.wait_ticks, pid) {
                    if t >= AGING_THRESHOLD {
                        boosts.push((pid, level));
                    }
                }
                assert(boosts@ =~= boost_list(st0.0, st0.2, level as nat) + level_boosts(
                    st0.0[level as int],
                    st0.2,
                    level,
                    (j + 1) as nat,
                ));
                j = j + 1;
            }
            level = level + 1;
        }
        proof {
            lemma_boost_list_levels(st0.0, st0.2, 8);
        }
        let mut i: usize = 0;
        while i < boosts.len()
            invariant
                i <= boosts.len(),
                boosts@ == boost_list(st0.0, st0.2, 8),
                forall|k: int| 0 <= k < boosts@.len() ==> 1 <= (#[trigger] boosts@[k]).1 < 8,
                self.priority_state() == apply_boosts(st0, boosts@, i as nat),
                self.levels().len() == 8,
                self.indices().len() == 8,
                self.ready() == old(self).ready(),
                self.rr_index() == old(self).rr_index(),
            decreases boosts.len() - i,
        {
            let (pid, old_priority) = boosts[i];
            assert((pid, old_priority) == boosts@[i as int]);
            let ghost before = self.priority_state();
            self.remove_from_priority_level(old_priority, pid);
            let new_priority = old_priority - 1;
            let ghost mid = self.levels();
            assert(pid_queue_view(self.priority_queues[new_priority as int]) == mid[new_priority as int]);
            if !pid_queue_contains(&self.priority_queues[new_priority], pid) {
                let mut q = pid_queue_clone(&self.priority_queues[new_priority]);
                pid_queue_push_back(&mut q, pid);
                self.set_level(new_priority, q);
            }
            ticks_table_insert(&mut self.wait_ticks, pid, 0);
            assert(self.priority_state() == apply_boost(before, (pid, old_priority)));
            i = i + 1;
        }
    }

    /// Select next process using priority-based scheduling with aging
    ///
    /// Returns the next process to run, selecting from the highest priority
    /// non-empty queue. Uses round-robin within each priority level.
    /// Implements aging to prevent starvation of low-priority processes.
    pub fn schedule_priority(&mut self, state: &crate::state::KernelState) -> (r: Option<ProcessId>)
        requires
            old(self).levels_ok(),
            schedule_fits(aged(old(self).priority_state())),
        ensures
            (r, final(self).priority_state()) == priority_step(old(self).priority_state()),
            final(self).levels_ok(),
            final(self).ready() == old(self).ready(),
            final(self).rr_index() == old(self).rr_index(),
    {
        proof {
            law_aging_keeps_positions(old(self).priority_state());
        }
        self.apply_aging();
        let ghost a = self.priority_state();
        let mut l: usize = 0;
        while l < 8
            invariant
                l <= 8,
                self.priority_state() == a,
                a == aged(old(self).priority_state()),
                positions_ok(a.0, a.1),
                pick_from(a.0, a.1, 0) == pick_from(a.0, a.1, l as nat),
                schedule_fits(a),
                self.ready() == old(self).ready(),
                self.rr_index() == old(self).rr_index(),
            decreases 8 - l,
        {
            let n = pid_queue_len(&self.priority_queues[l]);
            assert(n == a.0[l as int].len());
            if n > 0 {
                let idx = self.priority_indices[l];
                assert(idx < n);
                let pid = pid_queue_get(&self.priority_queues[l], idx);
                self.priority_indices[l] = (idx + 1) % n;
                ticks_table_insert(&mut self.wait_ticks, pid, 0);
                let ghost base = self.ticks();
                let ghost qs = self.levels();
                assert(qs == a.0);
                let mut ol: usize = 0;
                while ol < 8
                    invariant
                        ol <= 8,
                        self.levels() == qs,
                        self.ticks() == bump_all(base, flatten(qs, ol as nat), pid),
                        bump_fits(base, flatten(qs, 8), pid),
                        qs.len() == 8,
                        self.indices() == a.1.update(l as int, ((a.1[l as int] + 1) % a.0[l as int].len() as int) as usize),
                        self.ready() == old(self).ready(),
                        self.rr_index() == old(self).rr_index(),
                    decreases 8 - ol,
                {
                    let m = pid_queue_len(&self.priority_queues[ol]);
                    assert(m == qs[ol as int].len());
                    let mut j: usize = 0;
                    while j < m
                        invariant
                            ol < 8,
                            j <= m,
                            m == qs[ol as int].len(),
                            self.levels() == qs,
                            qs.len() == 8,
                            self.ticks() == bump_all(base, flatten(qs, ol as nat) + qs[ol as int].take(j as int), pid),
                            bump_fits(base, flatten(qs, 8), pid),
                            self.indices() == a.1.update(l as int, ((a.1[l as int] + 1) % a.0[l as int].len() as int) as usize),
                            self.ready() == old(self).ready(),
                            self.rr_index() == old(self).rr_index(),
                        decreases m - j,
                    {
                        let other = pid_queue_get(&self.priority_queues[ol], j);
                        let ghost prefix = flatten(qs, ol as nat) + qs[ol as int].take(j as int);
                        let ghost next = flatten(qs, ol as nat) + qs[ol as int].take(j + 1);
                        proof {
                            assert(other == qs[ol as int][j as int]);
                            assert(next.drop_last() =~= prefix);
                            assert(next.last() == other);
                            lemma_flatten_take(qs, ol as nat, j + 1);
                            lemma_bump_fits_prefix(base, flatten(qs, 8), pid, flatten(qs, ol as nat).len() + j + 1);
                        }
                        if other != pid {
                            let t = match ticks_table_get(&self.wait_ticks, other) {
                                Some(t) => t,
                                None => 0,
                            };
                            ticks_table_insert(&mut self.wait_ticks, other, t + 1);
                        }
                        j = j + 1;
                    }
                    assert(qs[ol as int].take(m as int) =~= qs[ol as int]);
                    assert(flatten(qs, (ol + 1) as nat) == flatten(qs, ol as nat) + qs[ol as int]);
                    ol = ol + 1;
                }
                proof {
                    assert forall|k: int| 0 <= k < 8 implies #[trigger] self.indices()[k] < self.levels()[k].len()
                        || self.indices()[k] == 0 by {
                        if k == l as int {
                            assert((idx + 1) as int % (n as int) < n as int) by (nonlinear_arith)
                                requires
                                    n > 0,
                            ;
                        }
                    }
                }
                return Some(pid);
            }
            l = l + 1;
        }
        None
    }
}

// ---------------------------------------------------------------------------
// Progress under aging
// ---------------------------------------------------------------------------

/// How many times a process occurs in a queue.
pub open spec fn occurrences(s: Seq<ProcessId>, x: ProcessId) -> nat
    decreases s.len(),
{
    if s.len() == 0 {
        0
    } else {
        occurrences(s.drop_last(), x) + if s.last() == x {
            1nat
        } else {
            0nat
        }
    }
}

/// How many boosts of a list are for a process.
pub open spec fn boosts_of(bs: Seq<(ProcessId, usize)>, x: ProcessId) -> nat
    decreases bs.len(),
{
    if bs.len() == 0 {
        0
    } else {
        boosts_of(bs.drop_last(), x) + if bs.last().0 == x {
            1nat
        } else {
            0nat
        }
    }
}

/// The process sits once in level `l` of the eight queues, and in no other.
pub open spec fn sits_at(qs: Seq<Seq<ProcessId>>, x: ProcessId, l: int) -> bool {
    &&& qs.len() == 8
    &&& 0 <= l < 8
    &&& forall|j: int|
        0 <= j < 8 ==> #[trigger] occurrences(qs[j], x) == if j == l {
            1nat
        } else {
            0nat
        }
}

/// Whether the wait ticks of a process reached the aging threshold.
pub open spec fn aging_due(t: Map<ProcessId, u64>, x: ProcessId) -> bool {
    t.dom().contains(x) && t[x] >= AGING_THRESHOLD
}

/// How far a waiting process at level `l` with `t` wait ticks is from the
/// top level: each level above counts the threshold plus one, and the ticks
/// still missing to the threshold count one each.
pub open spec fn wait_distance(l: int, t: u64) -> int {
    l * (AGING_THRESHOLD + 1) + (AGING_THRESHOLD - if t >= AGING_THRESHOLD {
        AGING_THRESHOLD
    } else {
        t
    })
}

/// What one call of `schedule_priority` does to a priority state: the
/// process it picks, if any, and the state it leaves.
pub open spec fn priority_step(st: PriorityState) -> (Option<ProcessId>, PriorityState) {
    let a = aged(st);
    match pick_from(a.0, a.1, 0) {
        None => (None, a),
        Some((l, pid)) => (
            Some(pid),
            (
                a.0,
                a.1.update(l as int, ((a.1[l as int] + 1) % a.0[l as int].len() as int) as usize),
                bump_all(a.2.insert(pid, 0), flatten(a.0, 8), pid),
            ),
        ),
    }
}

proof fn lemma_occ_push(s: Seq<ProcessId>, y: ProcessId, x: ProcessId)
    ensures
        occurrences(s.push(y), x) == occurrences(s, x) + if y == x {
            1nat
        } else {
            0nat
        },
{
    assert(s.push(y).drop_last() =~= s);
}

proof fn lemma_occ_add(a: Seq<ProcessId>, b: Seq<ProcessId>, x: ProcessId)
    ensures
        occurrences(a + b, x) == occurrences(a, x) + occurrences(b, x),
    decreases b.len(),
{
    if b.len() == 0 {
        assert(a + b =~= a);
    } else {
        assert((a + b).drop_last() =~= a + b.drop_last());
        assert((a + b).last() == b.last());
        lemma_occ_add(a, b.drop_last(), x);
    }
}

proof fn lemma_occ_contains(s: Seq<ProcessId>, x: ProcessId)
    ensures
        occurrences(s, x) > 0 <==> s.contains(x),
    decreases s.len(),
{
    if s.len() > 0 {
        lemma_occ_contains(s.drop_last(), x);
        if s.drop_last().contains(x) {
            let i = choose|i: int| 0 <= i < s.drop_last().len() && s.drop_last()[i] == x;
            assert(s[i] == x);
        }
        if s.contains(x) && s.last() != x {
            let i = choose|i: int| 0 <= i < s.len() && s[i] == x;
            assert(s.drop_last()[i] == x);
        }
        if s.last() == x {
            assert(s[s.len() - 1] == x);
        }
    }
}

proof fn lemma_occ_remove(s: Seq<ProcessId>, i: int, x: ProcessId)
    requires
        0 <= i < s.len(),
    ensures
        occurrences(s.remove(i), x) + (if s[i] == x {
            1nat
        } else {
            0nat
        }) == occurrences(s, x),
{
    let a = s.take(i);
    let c = s.skip(i + 1);
    assert(s =~= a.push(s[i]) + c);
    assert(s.remove(i) =~= a + c);
    lemma_occ_add(a.push(s[i]), c, x);
    lemma_occ_add(a, c, x);
    lemma_occ_push(a, s[i], x);
}

proof fn lemma_boosts_push(bs: Seq<(ProcessId, usize)>, b: (ProcessId, usize), x: ProcessId)
    ensures
        boosts_of(bs.push(b), x) == boosts_of(bs, x) + if b.0 == x {
            1nat
        } else {
            0nat
        },
{
    assert(bs.push(b).drop_last() =~= bs);
}

proof fn lemma_boosts_add(a: Seq<(ProcessId, usize)>, b: Seq<(ProcessId, usize)>, x: ProcessId)
    ensures
        boosts_of(a + b, x) == boosts_of(a, x) + boosts_of(b, x),
    decreases b.len(),
{
    if b.len() == 0 {
        assert(a + b =~= a);
    } else {
        assert((a + b).drop_last() =~= a + b.drop_last());
        assert((a + b).last() == b.last());
        lemma_boosts_add(a, b.drop_last(), x);
    }
}

proof fn lemma_level_boosts_count(
    q: Seq<ProcessId>,
    t: Map<ProcessId, u64>,
    lvl: usize,
    n: nat,
    x: ProcessId,
)
    requires
        n <= q.len(),
    ensures
        boosts_of(level_boosts(q, t, lvl, n), x) == if aging_due(t, x) {
            occurrences(q.take(n as int), x)
        } else {
            0
        },
    decreases n,
{
    if n == 0 {
        assert(q.take(0) =~= Seq::<ProcessId>::empty());
    } else {
        lemma_level_boosts_count(q, t, lvl, (n - 1) as nat, x);
        let prev = level_boosts(q, t, lvl, (n - 1) as nat);
        let p = q[n - 1];
        assert(q.take(n as int) =~= q.take(n - 1).push(p));
        lemma_occ_push(q.take(n - 1), p, x);
        let cur = level_boosts(q, t, lvl, n);
        if t.dom().contains(p) && t[p] >= AGING_THRESHOLD {
            lemma_boosts_push(prev, (p, lvl), x);
            assert(cur == prev.push((p, lvl)));
        }
    }
}

proof fn lemma_level_boosts_members(q: Seq<ProcessId>, t: Map<ProcessId, u64>, lvl: usize, n: nat)
    requires
        n <= q.len(),
    ensures
        forall|i: int|
            0 <= i < level_boosts(q, t, lvl, n).len() ==> q.contains(
                (#[trigger] level_boosts(q, t, lvl, n)[i]).0,
            ),
    decreases n,
{
    if n > 0 {
        lemma_level_boosts_members(q, t, lvl, (n - 1) as nat);
        let prev = level_boosts(q, t, lvl, (n - 1) as nat);
        let cur = level_boosts(q, t, lvl, n);
        assert forall|i: int| 0 <= i < cur.len() implies q.contains((#[trigger] cur[i]).0) by {
            if i < prev.len() {
                assert(cur[i] == prev[i]);
            } else {
                assert(q[n - 1] == cur[i].0);
            }
        }
    }
}

proof fn lemma_boost_list_members(qs: Seq<Seq<ProcessId>>, t: Map<ProcessId, u64>, lv: nat)
    requires
        lv <= 8,
    ensures
        forall|i: int|
            0 <= i < boost_list(qs, t, lv).len() ==> qs[(#[trigger] boost_list(
                qs,
                t,
                lv,
            )[i]).1 as int].contains(boost_list(qs, t, lv)[i].0),
    decreases lv,
{
    if lv > 1 {
        lemma_boost_list_members(qs, t, (lv - 1) as nat);
        let a = boost_list(qs, t, (lv - 1) as nat);
        let q = qs[lv - 1];
        let b = level_boosts(q, t, (lv - 1) as usize, q.len());
        lemma_level_boosts_members(q, t, (lv - 1) as usize, q.len());
        lemma_level_boosts_levels(q, t, (lv - 1) as usize, q.len());
        assert forall|i: int| 0 <= i < (a + b).len() implies qs[(#[trigger] (a + b)[i]).1 as int].contains(
            (a + b)[i].0,
        ) by {
            if i >= a.len() {
                assert((a + b)[i] == b[i - a.len()]);
            } else {
                assert((a + b)[i] == a[i]);
            }
        }
    }
}

proof fn lemma_boost_list_count(
    qs: Seq<Seq<ProcessId>>,
    t: Map<ProcessId, u64>,
    lv: nat,
    x: ProcessId,
    l: int,
)
    requires
        sits_at(qs, x, l),
        lv <= 8,
    ensures
        boosts_of(boost_list(qs, t, lv), x) == if aging_due(t, x) && 1 <= l < lv {
            1nat
        } else {
            0nat
        },
    decreases lv,
{
    if lv > 1 {
        lemma_boost_list_count(qs, t, (lv - 1) as nat, x, l);
        let a = boost_list(qs, t, (lv - 1) as nat);
        let q = qs[lv - 1];
        let b = level_boosts(q, t, (lv - 1) as usize, q.len());
        lemma_level_boosts_count(q, t, (lv - 1) as usize, q.len(), x);
        lemma_level_boosts_levels(q, t, (lv - 1) as usize, q.len());
        assert(q.take(q.len() as int) =~= q);
        assert(occurrences(qs[lv - 1], x) == if lv - 1 == l {
            1nat
        } else {
            0nat
        });
        lemma_boosts_add(a, b, x);
    }
}

proof fn lemma_boost_keeps_occ(st: PriorityState, b: (ProcessId, usize), x: ProcessId)
    requires
        st.0.len() == 8,
        b.0 != x,
        1 <= b.1 < 8,
    ensures
        apply_boost(st, b).0.len() == 8,
        forall|j: int| 0 <= j < 8 ==> #[trigger] occurrences(apply_boost(st, b).0[j], x) == occurrences(st.0[j], x),
        ticks_or_zero(apply_boost(st, b).2, x) == ticks_or_zero(st.2, x),
{
    let (qs, idx, t) = st;
    let (pid, old) = b;
    let q = qs[old as int];
    let q1 = remove_from_level(q, idx[old as int], pid).0;
    if q.contains(pid) {
        lemma_first_index_exists(q, pid);
        lemma_occ_remove(q, first_index(q, pid), x);
    }
    assert(occurrences(q1, x) == occurrences(q, x));
    let qs1 = qs.update(old as int, q1);
    let nl = old - 1;
    lemma_occ_push(qs1[nl], pid, x);
    let r = apply_boost(st, b);
    assert forall|j: int| 0 <= j < 8 implies #[trigger] occurrences(r.0[j], x) == occurrences(
        qs[j],
        x,
    ) by {
        if j == old as int {
            assert(r.0[j] == q1);
        } else if j == nl {
            assert(qs1[j] == qs[j]);
        } else {
            assert(r.0[j] == qs[j]);
        }
    }
}

proof fn lemma_boost_other(st: PriorityState, b: (ProcessId, usize), x: ProcessId, l: int)
    requires
        sits_at(st.0, x, l),
        b.0 != x,
        1 <= b.1 < 8,
    ensures
        sits_at(apply_boost(st, b).0, x, l),
        ticks_or_zero(apply_boost(st, b).2, x) == ticks_or_zero(st.2, x),
{
    lemma_boost_keeps_occ(st, b, x);
    let r = apply_boost(st, b);
    assert forall|j: int| 0 <= j < 8 implies #[trigger] occurrences(r.0[j], x) == if j == l {
        1nat
    } else {
        0nat
    } by {
        assert(occurrences(r.0[j], x) == occurrences(st.0[j], x));
    }
}

proof fn lemma_boost_own(st: PriorityState, x: ProcessId, l: int)
    requires
        sits_at(st.0, x, l),
        1 <= l,
    ensures
        sits_at(apply_boost(st, (x, l as usize)).0, x, l - 1),
        ticks_or_zero(apply_boost(st, (x, l as usize)).2, x) == 0,
{
    let (qs, idx, t) = st;
    let q = qs[l];
    assert(occurrences(q, x) == 1);
    lemma_occ_contains(q, x);
    lemma_first_index_exists(q, x);
    lemma_occ_remove(q, first_index(q, x), x);
    let q1 = remove_from_level(q, idx[l], x).0;
    let qs1 = qs.update(l, q1);
    let nl = l - 1;
    assert(qs1[nl] == qs[nl]);
    assert(occurrences(qs[nl], x) == 0);
    lemma_occ_contains(qs[nl], x);
    lemma_occ_push(qs1[nl], x, x);
    let r = apply_boost(st, (x, l as usize));
    assert forall|j: int| 0 <= j < 8 implies #[trigger] occurrences(r.0[j], x) == if j == l - 1 {
        1nat
    } else {
        0nat
    } by {
        if j == l {
            assert(r.0[j] == q1);
        } else if j == nl {
        } else {
            assert(r.0[j] == qs[j]);
        }
    }
}

proof fn lemma_boosts_prefix(
    st: PriorityState,
    bs: Seq<(ProcessId, usize)>,
    n: nat,
    x: ProcessId,
    l: int,
)
    requires
        sits_at(st.0, x, l),
        n <= bs.len(),
        boosts_of(bs, x) <= 1,
        forall|i: int| 0 <= i < bs.len() ==> 1 <= (#[trigger] bs[i]).1 < 8,
        forall|i: int| 0 <= i < bs.len() && (#[trigger] bs[i]).0 == x ==> bs[i].1 == l,
    ensures
        boosts_of(bs.take(n as int), x) <= 1,
        sits_at(apply_boosts(st, bs, n).0, x, l - boosts_of(bs.take(n as int), x)),
        ticks_or_zero(apply_boosts(st, bs, n).2, x) == if boosts_of(bs.take(n as int), x) == 0 {
            ticks_or_zero(st.2, x)
        } else {
            0
        },
    decreases n,
{
    assert(bs =~= bs.take(n as int) + bs.skip(n as int));
    lemma_boosts_add(bs.take(n as int), bs.skip(n as int), x);
    if n == 0 {
        assert(bs.take(0) =~= Seq::<(ProcessId, usize)>::empty());
    } else {
        lemma_boosts_prefix(st, bs, (n - 1) as nat, x, l);
        let b = bs[n - 1];
        assert(bs.take(n as int) =~= bs.take(n - 1).push(b));
        lemma_boosts_push(bs.take(n - 1), b, x);
        let c = boosts_of(bs.take(n - 1), x);
        let prev = apply_boosts(st, bs, (n - 1) as nat);
        if b.0 != x {
            lemma_boost_other(prev, b, x, l - c);
        } else {
            assert(c == 0);
            assert(b.1 == l);
            lemma_boost_own(prev, x, l);
        }
    }
}

/// Aging moves a process that sits once in one level, and in no other, up
/// by one level with its wait ticks restarted at 0 when it is below the top
/// level and its wait ticks reached the threshold; otherwise the process
/// stays where it is with its wait ticks.
pub proof fn law_aging_moves_one_level(st: PriorityState, x: ProcessId, l: int)
    requires
        sits_at(st.0, x, l),
    ensures
        1 <= l && aging_due(st.2, x) ==> sits_at(aged(st).0, x, l - 1) && ticks_or_zero(
            aged(st).2,
            x,
        ) == 0,
        !(1 <= l && aging_due(st.2, x)) ==> sits_at(aged(st).0, x, l) && ticks_or_zero(
            aged(st).2,
            x,
        ) == ticks_or_zero(st.2, x),
{
    let bs = boost_list(st.0, st.2, 8);
    lemma_boost_list_levels(st.0, st.2, 8);
    lemma_boost_list_members(st.0, st.2, 8);
    lemma_boost_list_count(st.0, st.2, 8, x, l);
    assert forall|i: int| 0 <= i < bs.len() && (#[trigger] bs[i]).0 == x implies bs[i].1 == l by {
        let j = bs[i].1 as int;
        assert(st.0[j].contains(x));
        lemma_occ_contains(st.0[j], x);
    }
    lemma_boosts_prefix(st, bs, bs.len(), x, l);
    assert(bs.take(bs.len() as int) =~= bs);
}

/// The process sits in none of the eight queues.
pub open spec fn absent(qs: Seq<Seq<ProcessId>>, x: ProcessId) -> bool {
    forall|j: int| 0 <= j < 8 ==> #[trigger] occurrences(qs[j], x) == 0
}

/// Every process sits at most once in the eight queues, in one level.
pub open spec fn each_sits_once(qs: Seq<Seq<ProcessId>>) -> bool {
    &&& qs.len() == 8
    &&& forall|x: ProcessId, j: int, k: int|
        0 <= j < 8 && 0 <= k < 8 && #[trigger] occurrences(qs[j], x) > 0
            && #[trigger] occurrences(qs[k], x) > 0 ==> j == k && occurrences(qs[j], x) == 1
}

proof fn lemma_boosts_len(st: PriorityState, bs: Seq<(ProcessId, usize)>, n: nat)
    requires
        st.0.len() == 8,
        n <= bs.len(),
        forall|i: int| 0 <= i < bs.len() ==> 1 <= (#[trigger] bs[i]).1 < 8,
    ensures
        apply_boosts(st, bs, n).0.len() == 8,
    decreases n,
{
    if n > 0 {
        lemma_boosts_len(st, bs, (n - 1) as nat);
    }
}

proof fn lemma_boosts_keep_occ(st: PriorityState, bs: Seq<(ProcessId, usize)>, n: nat, x: ProcessId)
    requires
        st.0.len() == 8,
        n <= bs.len(),
        forall|i: int| 0 <= i < bs.len() ==> 1 <= (#[trigger] bs[i]).1 < 8,
        forall|i: int| 0 <= i < bs.len() ==> (#[trigger] bs[i]).0 != x,
    ensures
        apply_boosts(st, bs, n).0.len() == 8,
        forall|j: int| 0 <= j < 8 ==> #[trigger] occurrences(apply_boosts(st, bs, n).0[j], x) == occurrences(st.0[j], x),
    decreases n,
{
    if n > 0 {
        lemma_boosts_keep_occ(st, bs, (n - 1) as nat, x);
        let prev = apply_boosts(st, bs, (n - 1) as nat);
        lemma_boost_keeps_occ(prev, bs[n - 1], x);
        assert forall|j: int| 0 <= j < 8 implies #[trigger] occurrences(apply_boosts(st, bs, n).0[j], x) == occurrences(st.0[j], x) by {
            assert(occurrences(prev.0[j], x) == occurrences(st.0[j], x));
        }
    }
}

/// Aging keeps the queues at eight levels.
proof fn lemma_aging_len(st: PriorityState)
    requires
        st.0.len() == 8,
    ensures
        aged(st).0.len() == 8,
{
    let bs = boost_list(st.0, st.2, 8);
    lemma_boost_list_levels(st.0, st.2, 8);
    lemma_boosts_len(st, bs, bs.len());
}

/// Aging brings no process into the queues.
proof fn lemma_aging_keeps_absent(st: PriorityState, x: ProcessId)
    requires
        st.0.len() == 8,
        absent(st.0, x),
    ensures
        absent(aged(st).0, x),
{
    let bs = boost_list(st.0, st.2, 8);
    lemma_boost_list_levels(st.0, st.2, 8);
    lemma_boost_list_members(st.0, st.2, 8);
    assert forall|i: int| 0 <= i < bs.len() implies (#[trigger] bs[i]).0 != x by {
        let j = bs[i].1 as int;
        if bs[i].0 == x {
            assert(st.0[j].contains(x));
            lemma_occ_contains(st.0[j], x);
            assert(occurrences(st.0[j], x) == 0);
        }
    }
    lemma_boosts_keep_occ(st, bs, bs.len(), x);
    assert forall|j: int| 0 <= j < 8 implies #[trigger] occurrences(aged(st).0[j], x) == 0 by {
        assert(occurrences(st.0[j], x) == 0);
    }
}

proof fn lemma_once_sits(qs: Seq<Seq<ProcessId>>, x: ProcessId, j: int)
    requires
        each_sits_once(qs),
        0 <= j < 8,
        occurrences(qs[j], x) > 0,
    ensures
        sits_at(qs, x, j),
{
    assert forall|k: int| 0 <= k < 8 implies #[trigger] occurrences(qs[k], x) == if k == j {
        1nat
    } else {
        0nat
    } by {
        if occurrences(qs[k], x) > 0 {
            assert(j == k && occurrences(qs[j], x) == 1);
        }
    }
}

proof fn lemma_sits_only_there(qs: Seq<Seq<ProcessId>>, x: ProcessId, l: int, j: int)
    requires
        sits_at(qs, x, l),
        0 <= j < 8,
        occurrences(qs[j], x) > 0,
    ensures
        j == l,
        occurrences(qs[j], x) == 1,
{
}

/// Aging keeps every process at most once in the queues, in one level.
pub proof fn law_aging_keeps_each_once(st: PriorityState)
    requires
        each_sits_once(st.0),
    ensures
        each_sits_once(aged(st).0),
{
    lemma_aging_len(st);
    let a = aged(st);
    assert forall|x: ProcessId, j: int, k: int|
        0 <= j < 8 && 0 <= k < 8 && #[trigger] occurrences(a.0[j], x) > 0
            && #[trigger] occurrences(a.0[k], x) > 0 implies j == k && occurrences(a.0[j], x) == 1 by {
        if exists|l: int| 0 <= l < 8 && occurrences(st.0[l], x) > 0 {
            let l = choose|l: int| 0 <= l < 8 && occurrences(st.0[l], x) > 0;
            lemma_once_sits(st.0, x, l);
            law_aging_moves_one_level(st, x, l);
            let l2 = if 1 <= l && aging_due(st.2, x) {
                l - 1
            } else {
                l
            };
            lemma_sits_only_there(a.0, x, l2, j);
            lemma_sits_only_there(a.0, x, l2, k);
        } else {
            assert(absent(st.0, x));
            lemma_aging_keeps_absent(st, x);
            assert(occurrences(a.0[j], x) == 0);
        }
    }
}

proof fn lemma_flatten_update_len(qs: Seq<Seq<ProcessId>>, j: int, q2: Seq<ProcessId>, n: nat)
    requires
        qs.len() == 8,
        0 <= j < 8,
        n <= 8,
    ensures
        flatten(qs.update(j, q2), n).len() == flatten(qs, n).len() + if j < n {
            q2.len() - qs[j].len()
        } else {
            0
        },
    decreases n,
{
    if n > 0 {
        lemma_flatten_update_len(qs, j, q2, (n - 1) as nat);
    }
}

proof fn lemma_flatten_first(qs: Seq<Seq<ProcessId>>, n: nat)
    requires
        1 <= n,
    ensures
        qs[0].len() <= flatten(qs, n).len(),
    decreases n,
{
    if n > 1 {
        lemma_flatten_first(qs, (n - 1) as nat);
    } else {
        assert(flatten(qs, 0).len() == 0);
    }
}

/// A boost of a process that sits in its level keeps the number of queued
/// entries.
proof fn lemma_boost_total(st: PriorityState, b: (ProcessId, usize))
    requires
        1 <= b.1 < 8,
        sits_at(st.0, b.0, b.1 as int),
    ensures
        apply_boost(st, b).0.len() == 8,
        flatten(apply_boost(st, b).0, 8).len() == flatten(st.0, 8).len(),
{
    let (qs, idx, t) = st;
    let (pid, old) = b;
    let q = qs[old as int];
    lemma_occ_contains(q, pid);
    lemma_first_index_exists(q, pid);
    let q1 = remove_from_level(q, idx[old as int], pid).0;
    assert(q1.len() == q.len() - 1);
    let qs1 = qs.update(old as int, q1);
    lemma_flatten_update_len(qs, old as int, q1, 8);
    let nl = old - 1;
    assert(qs1[nl] == qs[nl]);
    assert(occurrences(qs[nl], pid) == 0);
    lemma_occ_contains(qs[nl], pid);
    lemma_flatten_update_len(qs1, nl, qs1[nl].push(pid), 8);
}

proof fn lemma_boosts_total(st: PriorityState, n: nat)
    requires
        each_sits_once(st.0),
        n <= boost_list(st.0, st.2, 8).len(),
    ensures
        apply_boosts(st, boost_list(st.0, st.2, 8), n).0.len() == 8,
        flatten(apply_boosts(st, boost_list(st.0, st.2, 8), n).0, 8).len() == flatten(st.0, 8).len(),
    decreases n,
{
    let bs = boost_list(st.0, st.2, 8);
    if n > 0 {
        lemma_boosts_total(st, (n - 1) as nat);
        lemma_boost_list_levels(st.0, st.2, 8);
        lemma_boost_list_members(st.0, st.2, 8);
        let b = bs[n - 1];
        let x = b.0;
        let l = b.1 as int;
        assert(st.0[l].contains(x));
        lemma_occ_contains(st.0[l], x);
        lemma_once_sits(st.0, x, l);
        lemma_boost_list_count(st.0, st.2, 8, x, l);
        assert forall|i: int| 0 <= i < bs.len() && (#[trigger] bs[i]).0 == x implies bs[i].1 == l by {
            let j = bs[i].1 as int;
            assert(st.0[j].contains(x));
            lemma_occ_contains(st.0[j], x);
        }
        lemma_boosts_prefix(st, bs, (n - 1) as nat, x, l);
        lemma_boosts_prefix(st, bs, n, x, l);
        assert(bs.take(n as int) =~= bs.take(n - 1).push(b));
        lemma_boosts_push(bs.take(n - 1), b, x);
        lemma_boost_total(apply_boosts(st, bs, (n - 1) as nat), b);
    }
}

/// Aging keeps the number of queued entries when every process sits at
/// most once.
proof fn lemma_aging_total(st: PriorityState)
    requires
        each_sits_once(st.0),
    ensures
        flatten(aged(st).0, 8).len() == flatten(st.0, 8).len(),
{
    lemma_boosts_total(st, boost_list(st.0, st.2, 8).len());
}

proof fn lemma_boosts_top(st: PriorityState, bs: Seq<(ProcessId, usize)>, n: nat)
    requires
        st.0.len() == 8,
        st.1.len() == 8,
        n <= bs.len(),
        forall|i: int| 0 <= i < bs.len() ==> 1 <= (#[trigger] bs[i]).1 < 8,
    ensures
        apply_boosts(st, bs, n).0[0].len() >= st.0[0].len(),
        forall|i: int| 0 <= i < st.0[0].len() ==> #[trigger] apply_boosts(st, bs, n).0[0][i] == st.0[0][i],
        apply_boosts(st, bs, n).1[0] == st.1[0],
        apply_boosts(st, bs, n).1.len() == 8,
    decreases n,
{
    if n > 0 {
        lemma_boosts_top(st, bs, (n - 1) as nat);
        lemma_boosts_len(st, bs, (n - 1) as nat);
        let prev = apply_boosts(st, bs, (n - 1) as nat);
        let b = bs[n - 1];
        let r = apply_boost(prev, b);
        let q1 = remove_from_level(prev.0[b.1 as int], prev.1[b.1 as int], b.0).0;
        let qs1 = prev.0.update(b.1 as int, q1);
        assert(qs1[0] == prev.0[0]);
        assert forall|i: int| 0 <= i < st.0[0].len() implies #[trigger] r.0[0][i] == st.0[0][i] by {
            assert(prev.0[0][i] == st.0[0][i]);
            if b.1 == 1 && !qs1[0].contains(b.0) {
                assert(r.0[0] == qs1[0].push(b.0));
            }
        }
    }
}

/// Aging only appends to the top level and keeps its position.
proof fn lemma_aging_top(st: PriorityState)
    requires
        st.0.len() == 8,
        st.1.len() == 8,
    ensures
        aged(st).0[0].len() >= st.0[0].len(),
        forall|i: int| 0 <= i < st.0[0].len() ==> #[trigger] aged(st).0[0][i] == st.0[0][i],
        aged(st).1[0] == st.1[0],
{
    lemma_boost_list_levels(st.0, st.2, 8);
    lemma_boosts_top(st, boost_list(st.0, st.2, 8), boost_list(st.0, st.2, 8).len());
}

proof fn lemma_first_index_is(s: Seq<ProcessId>, x: ProcessId, i: int)
    requires
        is_first_index(s, x, i),
    ensures
        first_index(s, x) == i,
{
    lemma_first_index_exists(s, x);
    let f = first_index(s, x);
    if f < i {
        assert(s[f] == x);
    } else if f > i {
        assert(s[i] == x);
    }
}

/// How many calls of priority scheduling a process at the top level still
/// waits for, with at most `n` entries queued: the distance from the top
/// level's position forward to the process, round the level's end.
pub open spec fn top_distance(st: PriorityState, x: ProcessId, n: int) -> int {
    let px = first_index(st.0[0], x);
    let c = st.1[0] as int;
    if c <= px {
        px - c
    } else {
        n - c + px
    }
}

/// One call of priority scheduling keeps every process at most once in the
/// queues, the positions within their queues, and the number of entries.
proof fn lemma_step_keeps(st: PriorityState)
    requires
        each_sits_once(st.0),
        positions_ok(st.0, st.1),
    ensures
        each_sits_once(priority_step(st).1.0),
        positions_ok(priority_step(st).1.0, priority_step(st).1.1),
        flatten(priority_step(st).1.0, 8).len() == flatten(st.0, 8).len(),
{
    law_aging_keeps_each_once(st);
    law_aging_keeps_positions(st);
    lemma_aging_total(st);
    let a = aged(st);
    match pick_from(a.0, a.1, 0) {
        None => {},
        Some((l, pid)) => {
            lemma_pick_level(a.0, a.1, 0);
            let n = a.0[l as int].len();
            let c = a.1[l as int];
            assert((c + 1) % (n as int) < n) by (nonlinear_arith)
                requires
                    n > 0,
            ;
            let st2 = priority_step(st).1;
            assert forall|k: int| 0 <= k < 8 implies #[trigger] st2.1[k] < st2.0[k].len() || st2.1[k] == 0 by {
                if k != l as int {
                    assert(st2.1[k] == a.1[k]);
                }
            }
        },
    }
}

proof fn lemma_pick_level(qs: Seq<Seq<ProcessId>>, idx: Seq<usize>, k: nat)
    requires
        pick_from(qs, idx, k) is Some,
    ensures
        k <= pick_from(qs, idx, k).unwrap().0 < 8,
        qs[pick_from(qs, idx, k).unwrap().0 as int].len() > 0,
        pick_from(qs, idx, k).unwrap().1 == qs[pick_from(qs, idx, k).unwrap().0 as int][idx[pick_from(qs, idx, k).unwrap().0 as int] as int],
    decreases 8 - k,
{
    if k < 8 && qs[k as int].len() == 0 {
        lemma_pick_level(qs, idx, k + 1);
    }
}

/// At the top level, one call of priority scheduling either picks the
/// process or brings the level's position one step closer to it.
proof fn lemma_top_step(st: PriorityState, x: ProcessId, n: int)
    requires
        each_sits_once(st.0),
        sits_at(st.0, x, 0),
        positions_ok(st.0, st.1),
        flatten(st.0, 8).len() <= n <= usize::MAX,
    ensures
        0 <= top_distance(st, x, n) < n,
        priority_step(st).0 != Some(x) ==> sits_at(priority_step(st).1.0, x, 0) && 0 <= top_distance(
            priority_step(st).1,
            x,
            n,
        ) < top_distance(st, x, n),
{
    let q = st.0[0];
    assert(occurrences(q, x) == 1);
    lemma_occ_contains(q, x);
    lemma_first_index_exists(q, x);
    let px = first_index(q, x);
    lemma_flatten_first(st.0, 8);
    let c = st.1[0] as int;
    assert(c < q.len());
    law_aging_moves_one_level(st, x, 0);
    law_aging_keeps_positions(st);
    lemma_aging_top(st);
    lemma_aging_total(st);
    let a = aged(st);
    let q2 = a.0[0];
    lemma_flatten_first(a.0, 8);
    assert(q2[px] == x);
    assert(is_first_index(q2, x, px));
    lemma_first_index_is(q2, x, px);
    assert(a.1[0] == c);
    let m = q2.len();
    assert(pick_from(a.0, a.1, 0) == Some((0usize, q2[c])));
    if priority_step(st).0 != Some(x) {
        assert(q2[c] != x);
        if c == px {
            assert(false);
        }
        let st2 = priority_step(st).1;
        assert(st2.0 == a.0);
        assert(st2.1[0] == ((c + 1) % (m as int)) as usize);
        assert(m <= n);
        assert(first_index(st2.0[0], x) == px);
        if c + 1 < m {
            assert((c + 1) % (m as int) == c + 1) by (nonlinear_arith)
                requires
                    0 <= c + 1 < m,
            ;
            assert(st2.1[0] == c + 1);
        } else {
            assert(c + 1 == m);
            vstd::arithmetic::div_mod::lemma_mod_self_0(m as int);
            assert(st2.1[0] == 0);
        }
        assert(sits_at(st2.0, x, 0));
        assert(top_distance(st2, x, n) < top_distance(st, x, n));
    }
}

/// Within `k` calls of priority scheduling from a state, one picks the
/// process.
pub open spec fn runs_within(st: PriorityState, x: ProcessId, k: nat) -> bool
    decreases k,
{
    k > 0 && (priority_step(st).0 == Some(x) || runs_within(priority_step(st).1, x, (k - 1) as nat))
}

proof fn lemma_top_runs(st: PriorityState, x: ProcessId, n: int, k: nat)
    requires
        each_sits_once(st.0),
        sits_at(st.0, x, 0),
        positions_ok(st.0, st.1),
        flatten(st.0, 8).len() <= n <= usize::MAX,
        k > top_distance(st, x, n),
    ensures
        runs_within(st, x, k),
    decreases k,
{
    lemma_top_step(st, x, n);
    if priority_step(st).0 != Some(x) {
        lemma_step_keeps(st);
        lemma_top_runs(priority_step(st).1, x, n, (k - 1) as nat);
    }
}

proof fn lemma_bump_count(t: Map<ProcessId, u64>, s: Seq<ProcessId>, skip: ProcessId, x: ProcessId)
    requires
        x != skip,
        bump_fits(t, s, skip),
    ensures
        ticks_or_zero(bump_all(t, s, skip), x) == ticks_or_zero(t, x) + occurrences(s, x),
    decreases s.len(),
{
    if s.len() > 0 {
        lemma_bump_count(t, s.drop_last(), skip, x);
    }
}

proof fn lemma_flatten_occ(qs: Seq<Seq<ProcessId>>, n: nat, x: ProcessId, l: int)
    requires
        sits_at(qs, x, l),
        n <= 8,
    ensures
        occurrences(flatten(qs, n), x) == if l < n {
            1nat
        } else {
            0nat
        },
    decreases n,
{
    if n > 0 {
        lemma_flatten_occ(qs, (n - 1) as nat, x, l);
        lemma_occ_add(flatten(qs, (n - 1) as nat), qs[n - 1], x);
        assert(occurrences(qs[n - 1], x) == if n - 1 == l {
            1nat
        } else {
            0nat
        });
    }
}

proof fn lemma_pick_some(qs: Seq<Seq<ProcessId>>, idx: Seq<usize>, k: nat, j: int)
    requires
        k <= j < 8,
        qs[j].len() > 0,
    ensures
        pick_from(qs, idx, k) is Some,
    decreases 8 - k,
{
    if qs[k as int].len() == 0 {
        lemma_pick_some(qs, idx, k + 1, j);
    }
}

/// Aging keeps a waiting process moving towards the CPU. Take a process
/// that sits once in a level below the top one, and in no other. One call
/// of priority scheduling picks some process; unless it picks this one,
/// the process either moves one level up (its wait ticks had reached the
/// threshold) or waits one tick longer at its level, and its wait distance
/// drops by at least one. The wait distance is at most 47 at the lowest
/// level, so such a process runs, or reaches the top level, within 48
/// calls.
pub proof fn law_aging_progress(st: PriorityState, x: ProcessId, l: int)
    requires
        sits_at(st.0, x, l),
        1 <= l,
        schedule_fits(aged(st)),
    ensures
        priority_step(st).0 is Some,
        0 <= wait_distance(l, ticks_or_zero(st.2, x)) <= 47,
        priority_step(st).0 != Some(x) ==> ({
            let st2 = priority_step(st).1;
            let l2 = if aging_due(st.2, x) {
                l - 1
            } else {
                l
            };
            &&& sits_at(st2.0, x, l2)
            &&& ticks_or_zero(st2.2, x) == (if aging_due(st.2, x) {
                0
            } else {
                ticks_or_zero(st.2, x)
            }) + 1
            &&& wait_distance(l2, ticks_or_zero(st2.2, x)) < wait_distance(
                l,
                ticks_or_zero(st.2, x),
            )
        }),
{
    law_aging_moves_one_level(st, x, l);
    let a = aged(st);
    let l2 = if aging_due(st.2, x) {
        l - 1
    } else {
        l
    };
    assert(occurrences(a.0[l2], x) == 1);
    lemma_occ_contains(a.0[l2], x);
    lemma_pick_some(a.0, a.1, 0, l2);
    let (pl, pid) = pick_from(a.0, a.1, 0).unwrap();
    if pid != x {
        lemma_bump_count(a.2.insert(pid, 0), flatten(a.0, 8), pid, x);
        lemma_flatten_occ(a.0, 8, x, l2);
        assert(ticks_or_zero(a.2.insert(pid, 0), x) == ticks_or_zero(a.2, x));
    }
}

/// Every one of `k` calls of priority scheduling from a state keeps its
/// wait-tick additions within `u64`.
pub open spec fn fits_along(st: PriorityState, k: nat) -> bool
    decreases k,
{
    k == 0 || (schedule_fits(aged(st)) && fits_along(priority_step(st).1, (k - 1) as nat))
}

/// No starvation under aging: when every process sits at most once in the
/// queues, a process that sits in any level is run within 48 + N calls of
/// priority scheduling, N the number of queued entries, whatever else is
/// queued (so long as the wait ticks stay within `u64`): at most 48 calls
/// bring it to the top level, and the top level's round robin reaches it
/// within N more.
pub proof fn law_aging_no_starvation(st: PriorityState, x: ProcessId, l: int)
    requires
        each_sits_once(st.0),
        positions_ok(st.0, st.1),
        sits_at(st.0, x, l),
        flatten(st.0, 8).len() <= usize::MAX,
        fits_along(st, 48 + flatten(st.0, 8).len()),
    ensures
        runs_within(st, x, 48 + flatten(st.0, 8).len()),
{
    let n = flatten(st.0, 8).len();
    if l == 0 {
        lemma_top_step(st, x, n as int);
        lemma_top_runs(st, x, n as int, (48 + n) as nat);
    } else {
        law_aging_progress(st, x, l);
        lemma_runs_from(st, x, l, n as int, (48 + n) as nat);
    }
}

proof fn lemma_runs_from(st: PriorityState, x: ProcessId, l: int, n: int, k: nat)
    requires
        each_sits_once(st.0),
        sits_at(st.0, x, l),
        1 <= l,
        positions_ok(st.0, st.1),
        flatten(st.0, 8).len() <= n <= usize::MAX,
        fits_along(st, k),
        k > wait_distance(l, ticks_or_zero(st.2, x)) + n,
    ensures
        runs_within(st, x, k),
    decreases k,
{
    law_aging_progress(st, x, l);
    if priority_step(st).0 != Some(x) {
        lemma_step_keeps(st);
        let st2 = priority_step(st).1;
        let l2 = if aging_due(st.2, x) {
            l - 1
        } else {
            l
        };
        if l2 >= 1 {
            lemma_runs_from(st2, x, l2, n, (k - 1) as nat);
        } else {
            lemma_top_step(st2, x, n);
            lemma_top_runs(st2, x, n, (k - 1) as nat);
        }
    }
}

/// The runnable processes of a table.
pub open spec fn runnable_pids(m: Map<ProcessId, crate::state::Process>) -> Set<ProcessId> {
    Set::new(|k: ProcessId| m.dom().contains(k) && (m[k].state is Ready || m[k].state is Running))
}

/// The runnable processes of a table whose priority puts them at level `l`.
pub open spec fn runnable_at_level(m: Map<ProcessId, crate::state::Process>, l: int) -> Set<ProcessId> {
    Set::new(|k: ProcessId| runnable_pids(m).contains(k) && level_of(m[k].priority) == l)
}

/// The wait ticks the table's runnable processes bring with them.
pub open spec fn runnable_ticks(m: Map<ProcessId, crate::state::Process>) -> Map<ProcessId, u64> {
    Map::new(|k: ProcessId| runnable_pids(m).contains(k), |k: ProcessId| m[k].wait_ticks)
}

/// A queue holds each process at most once and exactly those of a set.
pub open spec fn queue_holds(q: Seq<ProcessId>, s: Set<ProcessId>) -> bool {
    q.no_duplicates() && q.to_set() == s
}

/// Appending a new value to a queue that holds a set makes it hold one more.
proof fn lemma_queue_push(q: Seq<ProcessId>, s: Set<ProcessId>, x: ProcessId)
    requires
        queue_holds(q, s),
        !s.contains(x),
    ensures
        queue_holds(q.push(x), s.insert(x)),
{
    assert forall|i: int, j: int| 0 <= i < j < q.push(x).len() implies q.push(x)[i] != q.push(x)[j] by {
        if j == q.len() {
            assert(q.to_set().contains(q[i]));
        }
    }
    assert forall|y: ProcessId| #[trigger] q.push(x).to_set().contains(y) == s.insert(x).contains(y) by {
        if q.push(x).contains(y) {
            let k = choose|k: int| 0 <= k < q.push(x).len() && q.push(x)[k] == y;
            if k < q.len() {
                assert(q.contains(y));
            }
        }
        if q.contains(y) {
            let k = choose|k: int| 0 <= k < q.len() && q[k] == y;
            assert(q.push(x)[k] == y);
        }
        if y == x {
            assert(q.push(x)[q.len() as int] == x);
        }
    }
    assert(q.push(x).to_set() =~= s.insert(x));
}

proof fn lemma_occ_no_dup(s: Seq<ProcessId>, x: ProcessId)
    requires
        s.no_duplicates(),
    ensures
        occurrences(s, x) == if s.contains(x) {
            1nat
        } else {
            0nat
        },
    decreases s.len(),
{
    lemma_occ_contains(s, x);
    if s.len() > 0 {
        let d = s.drop_last();
        assert(d.no_duplicates()) by {
            assert forall|i: int, j: int| 0 <= i < j < d.len() implies d[i] != d[j] by {
                assert(d[i] == s[i] && d[j] == s[j]);
            }
        }
        lemma_occ_no_dup(d, x);
        lemma_occ_contains(d, x);
        if s.last() == x && d.contains(x) {
            let i = choose|i: int| 0 <= i < d.len() && d[i] == x;
            assert(s[i] == s[s.len() - 1]);
        }
    }
}

/// After queues are rebuilt from a process table, every process sits at
/// most once in them, and a runnable process sits once in the level of its
/// priority, and in no other, as aging and its laws expect.
pub proof fn law_synced_processes_sit_once(
    qs: Seq<Seq<ProcessId>>,
    m: Map<ProcessId, crate::state::Process>,
    x: ProcessId,
)
    requires
        qs.len() == 8,
        forall|l: int| 0 <= l < 8 ==> #[trigger] queue_holds(qs[l], runnable_at_level(m, l)),
        runnable_pids(m).contains(x),
    ensures
        each_sits_once(qs),
        sits_at(qs, x, level_of(m[x].priority)),
{
    assert forall|y: ProcessId, j: int, k: int|
        0 <= j < 8 && 0 <= k < 8 && #[trigger] occurrences(qs[j], y) > 0
            && #[trigger] occurrences(qs[k], y) > 0 implies j == k && occurrences(qs[j], y) == 1 by {
        assert(queue_holds(qs[j], runnable_at_level(m, j)));
        assert(queue_holds(qs[k], runnable_at_level(m, k)));
        lemma_occ_no_dup(qs[j], y);
        lemma_occ_no_dup(qs[k], y);
        assert(qs[j].to_set().contains(y));
        assert(qs[k].to_set().contains(y));
    }
    let lx = level_of(m[x].priority);
    assert forall|j: int| 0 <= j < 8 implies #[trigger] occurrences(qs[j], x) == if j == lx {
        1nat
    } else {
        0nat
    } by {
        assert(queue_holds(qs[j], runnable_at_level(m, j)));
        lemma_occ_no_dup(qs[j], x);
        assert(qs[j].to_set().contains(x) == qs[j].contains(x));
        assert(runnable_at_level(m, j).contains(x) == (j == lx));
    }
}

impl Scheduler {
    /// Rebuild ready queue from kernel state
    ///
    /// Scans all processes and rebuilds the ready queue based on process states.
    /// This ensures consistency between scheduler and kernel state. The order
    /// of the queues follows the process table's iteration order.
    pub fn sync_with_state(&mut self, state: &crate::state::KernelState)
        ensures
            queue_holds(final(self).ready(), runnable_pids(state.procs())),
            final(self).rr_index() == 0,
            forall|l: int| 0 <= l < 8 ==> #[trigger] queue_holds(final(self).levels()[l], runnable_at_level(state.procs(), l)),
            final(self).indices() == Seq::new(8, |l: int| 0usize),
            final(self).ticks() == runnable_ticks(state.procs()),
            final(self).levels_ok(),
            final(self).round_robin_ok(),
            final(self).ready_wf(),
    {
        *self = Scheduler::new();
        let ks = crate::state::process_table_keys(&state.processes);
        let ghost m = state.procs();
        proof {
            assert(ks@.take(0).to_set() =~= Set::<ProcessId>::empty());
            assert(runnable_pids(m).intersect(ks@.take(0).to_set()) =~= Set::<ProcessId>::empty());
            assert(self.ready().to_set() =~= Set::<ProcessId>::empty());
            assert forall|l: int| 0 <= l < 8 implies #[trigger] queue_holds(self.levels()[l], runnable_at_level(m, l).intersect(ks@.take(0).to_set())) by {
                assert(runnable_at_level(m, l).intersect(ks@.take(0).to_set()) =~= Set::<ProcessId>::empty());
                assert(self.levels()[l].to_set() =~= Set::<ProcessId>::empty());
            }
            assert(self.ticks() =~= Map::new(|x: ProcessId| runnable_pids(m).intersect(ks@.take(0).to_set()).contains(x), |x: ProcessId| m[x].wait_ticks));
        }
        let mut i: usize = 0;
        while i < ks.len()
            invariant
                i <= ks.len(),
                ks@.no_duplicates(),
                ks@.to_set() == m.dom(),
                m == state.procs(),
                self.rr_index() == 0,
                self.indices() == Seq::new(8, |l: int| 0usize),
                self.levels().len() == 8,
                queue_holds(self.ready(), runnable_pids(m).intersect(ks@.take(i as int).to_set())),
                forall|l: int| 0 <= l < 8 ==> #[trigger] queue_holds(self.levels()[l], runnable_at_level(m, l).intersect(ks@.take(i as int).to_set())),
                self.ticks() == Map::new(|k: ProcessId| runnable_pids(m).intersect(ks@.take(i as int).to_set()).contains(k), |k: ProcessId| m[k].wait_ticks),
            decreases ks.len() - i,
        {
            let k = ks[i];
            let ghost before = ks@.take(i as int).to_set();
            let ghost after = ks@.take(i + 1).to_set();
            proof {
                crate::state::lemma_prefix_set_pub(ks@, i as int);
                assert(ks@.to_set().contains(k));
            }
            let p = match crate::state::process_table_get(&state.processes, k) {
                Some(p) => p,
                None => {
                    assert(false);
                    return;
                },
            };
            if p.is_runnable() {
                proof {
                    lemma_queue_push(self.ready(), runnable_pids(m).intersect(before), k);
                    assert(runnable_pids(m).intersect(before).insert(k) =~= runnable_pids(m).intersect(after));
                }
                pid_queue_push_back(&mut self.ready_queue, k);
                let level: usize = if p.priority > 7 {
                    7
                } else {
                    p.priority as usize
                };
                let ghost levels0 = self.levels();
                let mut q = pid_queue_clone(&self.priority_queues[level]);
                assert(pid_queue_view(q) == levels0[level as int]);
                proof {
                    assert(queue_holds(levels0[level as int], runnable_at_level(m, level as int).intersect(before)));
                    assert(!runnable_at_level(m, level as int).intersect(before).contains(k));
                    assert(!levels0[level as int].to_set().contains(k));
                    lemma_queue_push(levels0[level as int], runnable_at_level(m, level as int).intersect(before), k);
                    assert(!levels0[level as int].contains(k));
                }
                if !pid_queue_contains(&q, k) {
                    pid_queue_push_back(&mut q, k);
                    self.set_level(level, q);
                }
                ticks_table_insert(&mut self.wait_ticks, k, p.wait_ticks);
                proof {
                    assert forall|l: int| 0 <= l < 8 implies #[trigger] queue_holds(self.levels()[l], runnable_at_level(m, l).intersect(after)) by {
                        if l == level as int {
                            assert(runnable_at_level(m, l).intersect(before).insert(k) =~= runnable_at_level(m, l).intersect(after));
                        } else {
                            assert(runnable_at_level(m, l).intersect(before) =~= runnable_at_level(m, l).intersect(after));
                        }
                    }
                    assert(self.ticks() =~= Map::new(|x: ProcessId| runnable_pids(m).intersect(after).contains(x), |x: ProcessId| m[x].wait_ticks));
                }
            } else {
                proof {
                    assert(runnable_pids(m).intersect(before) =~= runnable_pids(m).intersect(after));
                    assert forall|l: int| 0 <= l < 8 implies #[trigger] queue_holds(self.levels()[l], runnable_at_level(m, l).intersect(after)) by {
                        assert(runnable_at_level(m, l).intersect(before) =~= runnable_at_level(m, l).intersect(after));
                    }
                    assert(self.ticks() =~= Map::new(|x: ProcessId| runnable_pids(m).intersect(after).contains(x), |x: ProcessId| m[x].wait_ticks));
                }
            }
            i = i + 1;
        }
        proof {
            assert(ks@.take(ks@.len() as int) =~= ks@);
            assert(runnable_pids(m).intersect(m.dom()) =~= runnable_pids(m));
            assert forall|l: int| 0 <= l < 8 implies #[trigger] queue_holds(self.levels()[l], runnable_at_level(m, l)) by {
                assert(runnable_at_level(m, l).intersect(m.dom()) =~= runnable_at_level(m, l));
            }
            assert(self.ticks() =~= runnable_ticks(m));
        }
    }
}


// ---------------------------------------------------------------------------
// Waking sleepers
// ---------------------------------------------------------------------------

/// A blocked process whose wake-up time the clock has reached.
pub open spec fn due(p: crate::state::Process, now: u64) -> bool {
    p.state is Blocked && (p.wakeup_time matches Some(w) && now >= w)
}

/// A woken process: ready, with no wake-up time.
pub open spec fn woken(p: crate::state::Process) -> crate::state::Process {
    crate::state::Process { state: crate::state::ProcessState::Ready, wakeup_time: None, ..p }
}

/// What `schedule` leaves of process `p`.
pub open spec fn after_wakeups(p: crate::state::Process, now: u64) -> crate::state::Process {
    if due(p, now) {
        woken(p)
    } else {
        p
    }
}

/// Schedule the next process to run
///
/// Wakes every blocked process whose wake-up time the simulated clock has
/// reached; the choice of process is left to the caller (`None`).
pub fn schedule(state: crate::state::KernelState) -> (r: Result<
    (crate::state::KernelState, Option<ProcessId>),
    crate::syscall::KernelError,
>)
    ensures
        r matches Ok((s, chosen)) && {
            &&& chosen is None
            &&& crate::syscall::same_but_procs(s, state)
            &&& s.procs().dom() == state.procs().dom()
            &&& forall|pid: ProcessId| #[trigger] state.procs().dom().contains(pid) ==> s.procs()[pid]
                == after_wakeups(state.procs()[pid], state.simulated_time)
        },
{
    let now = state.simulated_time;
    let ks = crate::state::process_table_keys(&state.processes);
    let mut st = state;
    let ghost m = state.procs();
    let mut i: usize = 0;
    while i < ks.len()
        invariant
            i <= ks.len(),
            ks@.no_duplicates(),
            ks@.to_set() == m.dom(),
            m == state.procs(),
            now == state.simulated_time,
            crate::syscall::same_but_procs(st, state),
            st.procs().dom() == m.dom(),
            forall|pid: ProcessId| #[trigger] m.dom().contains(pid) ==> st.procs()[pid] == (if ks@.take(
                i as int,
            ).contains(pid) {
                after_wakeups(m[pid], now)
            } else {
                m[pid]
            }),
        decreases ks.len() - i,
    {
        let pid = ks[i];
        let ghost before = st.procs();
        proof {
            assert(ks@.to_set().contains(pid));
            assert(!ks@.take(i as int).contains(pid)) by {
                if ks@.take(i as int).contains(pid) {
                    let k = choose|k: int| 0 <= k < i && ks@.take(i as int)[k] == pid;
                    assert(ks@[k] == ks@[i as int]);
                }
            }
        }
        match st.get_process_mut(pid) {
            Some(p) => {
                let wake = match (p.state, p.wakeup_time) {
                    (crate::state::ProcessState::Blocked, Some(w)) => now >= w,
                    _ => false,
                };
                if wake {
                    p.state = crate::state::ProcessState::Ready;
                    p.wakeup_time = None;
                }
            },
            None => {},
        }
        proof {
            assert forall|x: ProcessId| #[trigger] m.dom().contains(x) implies st.procs()[x] == (if ks@.take(
                i as int + 1,
            ).contains(x) {
                after_wakeups(m[x], now)
            } else {
                m[x]
            }) by {
                assert(ks@.take(i as int + 1) =~= ks@.take(i as int).push(pid));
                if x != pid {
                    assert(ks@.take(i as int + 1).contains(x) == ks@.take(i as int).contains(x)) by {
                        let t = ks@.take(i as int + 1);
                        if t.contains(x) {
                            let k = choose|k: int| 0 <= k < t.len() && #[trigger] t[k] == x;
                            assert(ks@.take(i as int)[k] == x);
                        }
                    }
                } else {
                    assert(ks@.take(i as int + 1)[i as int] == pid);
                }
            }
            assert(st.procs().dom() =~= m.dom());
        }
        i = i + 1;
    }
    proof {
        assert forall|pid: ProcessId| #[trigger] m.dom().contains(pid) implies ks@.take(ks.len() as int).contains(pid) by {
            assert(ks@.take(ks.len() as int) =~= ks@);
            assert(ks@.to_set().contains(pid));
        }
    }
    Ok((st, None))
}

// ---------------------------------------------------------------------------
// Signal delivery
// ---------------------------------------------------------------------------

/// The number of signals in a set (each of the eight counted once).
pub open spec fn signal_count(s: Set<crate::signals::Signal>) -> nat {
    (if s.contains(Signal::SIGINT) { 1nat } else { 0nat }) + (if s.contains(Signal::SIGTERM) { 1nat } else { 0nat })
        + (if s.contains(Signal::SIGKILL) { 1nat } else { 0nat }) + (if s.contains(Signal::SIGUSR1) { 1nat } else { 0nat })
        + (if s.contains(Signal::SIGUSR2) { 1nat } else { 0nat }) + (if s.contains(Signal::SIGCHLD) { 1nat } else { 0nat })
        + (if s.contains(Signal::SIGSEGV) { 1nat } else { 0nat }) + (if s.contains(Signal::SIGPIPE) { 1nat } else { 0nat })
}

/// The signal of lowest number in a set, if any.
pub open spec fn lowest_signal(s: Set<crate::signals::Signal>) -> Option<crate::signals::Signal> {
    if s.contains(Signal::SIGINT) {
        Some(Signal::SIGINT)
    } else if s.contains(Signal::SIGKILL) {
        Some(Signal::SIGKILL)
    } else if s.contains(Signal::SIGUSR1) {
        Some(Signal::SIGUSR1)
    } else if s.contains(Signal::SIGSEGV) {
        Some(Signal::SIGSEGV)
    } else if s.contains(Signal::SIGUSR2) {
        Some(Signal::SIGUSR2)
    } else if s.contains(Signal::SIGPIPE) {
        Some(Signal::SIGPIPE)
    } else if s.contains(Signal::SIGTERM) {
        Some(Signal::SIGTERM)
    } else if s.contains(Signal::SIGCHLD) {
        Some(Signal::SIGCHLD)
    } else {
        None
    }
}

/// The action a signal takes for a process with the given handlers.
pub open spec fn action_for(handlers: Map<u32, crate::signals::SignalAction>, s: crate::signals::Signal) -> crate::signals::SignalAction {
    let n = crate::signals::signal_number(s);
    if handlers.dom().contains(n) {
        handlers[n]
    } else {
        crate::signals::signal_default_action(s)
    }
}

/// Delivering pending signals, lowest number first: blocked signals are
/// withheld and stay pending, while delivery goes on with the next unblocked
/// one; ignored and handled signals are dropped; a signal that terminates
/// ends delivery. The result is the signals still pending and, if the
/// process terminates, its exit code.
pub open spec fn delivery(
    pending: Set<crate::signals::Signal>,
    blocked: Set<crate::signals::Signal>,
    handlers: Map<u32, crate::signals::SignalAction>,
) -> (Set<crate::signals::Signal>, Option<i32>)
    decreases signal_count(pending),
{
    match lowest_signal(pending.difference(blocked)) {
        None => (pending, None),
        Some(s) => {
            let rest = pending.remove(s);
            match action_for(handlers, s) {
                crate::signals::SignalAction::Terminate => (rest, Some(crate::signals::signal_number(s) as i32)),
                _ => delivery(rest, blocked, handlers),
            }
        },
    }
}

/// Blocked signals are withheld, not lost: after delivery every blocked
/// pending signal is still pending, nothing new becomes pending, and when
/// no signal terminates the process exactly the blocked ones remain.
pub proof fn law_blocked_signals_withheld(
    pending: Set<crate::signals::Signal>,
    blocked: Set<crate::signals::Signal>,
    handlers: Map<u32, crate::signals::SignalAction>,
)
    ensures
        delivery(pending, blocked, handlers).0.subset_of(pending),
        pending.intersect(blocked).subset_of(delivery(pending, blocked, handlers).0),
        delivery(pending, blocked, handlers).1 is None ==> delivery(pending, blocked, handlers).0 == pending.intersect(
            blocked,
        ),
    decreases signal_count(pending),
{
    let d = pending.difference(blocked);
    lemma_lowest_in(d);
    match lowest_signal(d) {
        None => {
            assert(pending.intersect(blocked) =~= pending) by {
                assert forall|x: Signal| pending.contains(x) implies blocked.contains(x) by {
                    if !blocked.contains(x) {
                        assert(d.contains(x));
                    }
                }
            }
        },
        Some(sg) => {
            let rest = pending.remove(sg);
            lemma_count_remove(pending, sg);
            assert(pending.intersect(blocked) =~= rest.intersect(blocked));
            match action_for(handlers, sg) {
                crate::signals::SignalAction::Terminate => {},
                _ => {
                    law_blocked_signals_withheld(rest, blocked, handlers);
                },
            }
        },
    }
}

/// Removing a signal that is in a set lowers the set's count.
/// An unblocked pending signal that is the lowest one not blocked, has no
/// handler and is not `SIGCHLD` terminates the process with the signal's
/// number as exit code, and is no longer pending; for instance an unhandled
/// `SIGUSR1` ends the process with code 10.
pub proof fn law_unhandled_signal_terminates(
    pending: Set<crate::signals::Signal>,
    blocked: Set<crate::signals::Signal>,
    handlers: Map<u32, crate::signals::SignalAction>,
    s: crate::signals::Signal,
)
    requires
        lowest_signal(pending.difference(blocked)) == Some(s),
        !handlers.dom().contains(crate::signals::signal_number(s)),
        s != Signal::SIGCHLD,
    ensures
        delivery(pending, blocked, handlers) == (pending.remove(s), Some(crate::signals::signal_number(s) as i32)),
        s == Signal::SIGUSR1 ==> delivery(pending, blocked, handlers).1 == Some(10i32),
{
    crate::signals::law_default_actions(s);
}

/// The lowest unblocked pending signal is pending, unblocked, and no other
/// pending unblocked signal has a lower number.
pub proof fn law_lowest_signal_is_lowest(p: Set<crate::signals::Signal>, t: crate::signals::Signal)
    requires
        p.contains(t),
    ensures
        lowest_signal(p) matches Some(s) && p.contains(s) && crate::signals::signal_number(s)
            <= crate::signals::signal_number(t),
{
}

proof fn lemma_count_remove(p: Set<crate::signals::Signal>, s: crate::signals::Signal)
    ensures
        p.contains(s) ==> signal_count(p.remove(s)) < signal_count(p),
{
    match s {
        Signal::SIGINT => {},
        Signal::SIGTERM => {},
        Signal::SIGKILL => {},
        Signal::SIGUSR1 => {},
        Signal::SIGUSR2 => {},
        Signal::SIGCHLD => {},
        Signal::SIGSEGV => {},
        Signal::SIGPIPE => {},
    }
}

/// What `deliver_signals` leaves of process `p`: a live process has its
/// pending signals delivered, and is terminated if one of them terminates it.
pub open spec fn after_delivery(p: crate::state::Process, q: crate::state::Process) -> bool {
    if p.state is Terminated {
        q == p
    } else {
        let (rest, code) = delivery(p.pending_signals@, p.blocked_signals@, p.handlers());
        &&& crate::state::same_contents(q, crate::state::Process { state: q.state, pending_signals: q.pending_signals, ..p })
        &&& q.pending_signals@ == rest
        &&& q.state == match code {
            Some(c) => crate::state::ProcessState::Terminated(c),
            None => p.state,
        }
    }
}

/// The lowest signal of a non-empty set is in it, and removing it lowers
/// the count.
proof fn lemma_lowest_in(s: Set<crate::signals::Signal>)
    ensures
        lowest_signal(s) matches Some(t) ==> s.contains(t) && signal_count(s.remove(t)) < signal_count(s),
        lowest_signal(s) is None ==> s == Set::<crate::signals::Signal>::empty(),
{
    if lowest_signal(s) is None {
        assert(s =~= Set::<Signal>::empty()) by {
            assert forall|t: Signal| !(#[trigger] s.contains(t)) by {
                match t {
                    Signal::SIGINT => {},
                    Signal::SIGTERM => {},
                    Signal::SIGKILL => {},
                    Signal::SIGUSR1 => {},
                    Signal::SIGUSR2 => {},
                    Signal::SIGCHLD => {},
                    Signal::SIGSEGV => {},
                    Signal::SIGPIPE => {},
                }
            }
        }
    }
}

/// The signal `next_signal` gives is the lowest.
proof fn lemma_next_is_lowest(s: Set<crate::signals::Signal>, t: crate::signals::Signal)
    requires
        s.contains(t),
        forall|u: crate::signals::Signal| #![trigger s.contains(u)] s.contains(u) ==> crate::signals::signal_number(t) <= crate::signals::signal_number(u),
    ensures
        lowest_signal(s) == Some(t),
{
    lemma_lowest_in(s);
    let l = lowest_signal(s)->0;
    assert(s.contains(l));
    crate::signals::lemma_signal_number_injective(l, t);
    assert(crate::signals::signal_number(t) <= crate::signals::signal_number(l));
    match t {
        Signal::SIGINT => {},
        Signal::SIGTERM => {},
        Signal::SIGKILL => {},
        Signal::SIGUSR1 => {},
        Signal::SIGUSR2 => {},
        Signal::SIGCHLD => {},
        Signal::SIGSEGV => {},
        Signal::SIGPIPE => {},
    }
}

/// Delivers the pending signals of one process.
fn deliver_to(
    pending: crate::signals::SignalSet,
    blocked: crate::signals::SignalSet,
    handlers: &im::HashMap<u32, crate::signals::SignalAction>,
) -> (r: (crate::signals::SignalSet, Option<i32>))
    ensures
        (r.0@, r.1) == delivery(pending@, blocked@, crate::state::handler_table_view(*handlers)),
{
    let ghost h = crate::state::handler_table_view(*handlers);
    let mut pend = pending;
    let mut cand = pending;
    let mut code: Option<i32> = None;
    loop
        invariant_except_break
            delivery(pend@, blocked@, h) == delivery(pending@, blocked@, h),
            cand@.subset_of(pend@),
            pend@.difference(blocked@) == cand@.difference(blocked@),
            code is None,
            h == crate::state::handler_table_view(*handlers),
        ensures
            (pend@, code) == delivery(pending@, blocked@, h),
        decreases signal_count(cand@),
    {
        proof {
            lemma_lowest_in(cand@);
        }
        let sig = match cand.next_signal() {
            Some(s) => s,
            None => {
                proof {
                    assert(pend@.difference(blocked@) =~= Set::<Signal>::empty());
                }
                break;
            },
        };
        proof {
            lemma_count_remove(cand@, sig);
        }
        if blocked.contains(sig) {
            cand.remove(sig);
            assert(pend@.difference(blocked@) =~= cand@.difference(blocked@));
            continue;
        }
        proof {
            lemma_next_is_lowest(pend@.difference(blocked@), sig);
        }
        let ghost p0 = pend@;
        let ghost c0 = cand@;
        cand.remove(sig);
        pend.remove(sig);
        assert forall|x: Signal| #[trigger] pend@.difference(blocked@).contains(x) == cand@.difference(blocked@).contains(x) by {
            assert(p0.difference(blocked@).contains(x) == c0.difference(blocked@).contains(x));
        }
        assert(pend@.difference(blocked@) =~= cand@.difference(blocked@));
        let n = sig.number();
        let action = match crate::state::handler_table_get(handlers, n) {
            Some(a) => a,
            None => sig.default_action(),
        };
        match action {
            crate::signals::SignalAction::Terminate => {
                code = Some(n as i32);
                break;
            },
            _ => {},
        }
    }
    (pend, code)
}

/// Deliver pending signals to processes
///
/// For each live process, pending signals are taken lowest number first:
/// blocked signals are withheld and stay pending; each other one is removed
/// and its action (handler, or default) applied, terminating the process
/// with the signal's number, which ends its delivery, when the action is to
/// terminate.
pub fn deliver_signals(state: crate::state::KernelState) -> (r: Result<crate::state::KernelState, crate::syscall::KernelError>)
    ensures
        r matches Ok(s) && {
            &&& crate::syscall::same_but_procs(s, state)
            &&& s.procs().dom() == state.procs().dom()
            &&& forall|pid: ProcessId| #[trigger] state.procs().dom().contains(pid) ==> after_delivery(
                state.procs()[pid],
                s.procs()[pid],
            )
        },
{
    let ks = crate::state::process_table_keys(&state.processes);
    let mut st = state;
    let ghost m = state.procs();
    let mut i: usize = 0;
    while i < ks.len()
        invariant
            i <= ks.len(),
            ks@.no_duplicates(),
            ks@.to_set() == m.dom(),
            m == state.procs(),
            crate::syscall::same_but_procs(st, state),
            st.procs().dom() == m.dom(),
            forall|pid: ProcessId| #[trigger] m.dom().contains(pid) ==> if ks@.take(i as int).contains(pid) {
                after_delivery(m[pid], st.procs()[pid])
            } else {
                st.procs()[pid] == m[pid]
            },
        decreases ks.len() - i,
    {
        let pid = ks[i];
        proof {
            assert(ks@.to_set().contains(pid));
            assert(!ks@.take(i as int).contains(pid)) by {
                if ks@.take(i as int).contains(pid) {
                    let k = choose|k: int| 0 <= k < i && ks@.take(i as int)[k] == pid;
                    assert(ks@[k] == ks@[i as int]);
                }
            }
        }
        match st.get_process_mut(pid) {
            Some(p) => {
                if !p.pending_signals.is_empty() && !p.is_terminated() {
                    let (rest, code) = deliver_to(p.pending_signals, p.blocked_signals, &p.signal_handlers);
                    p.pending_signals = rest;
                    if let Some(c) = code {
                        p.state = crate::state::ProcessState::Terminated(c);
                    }
                } else {
                    proof {
                        lemma_lowest_in(p.pending_signals@);
                    }
                }
            },
            None => {},
        }
        proof {
            assert forall|x: ProcessId| #[trigger] m.dom().contains(x) implies (if ks@.take(i as int + 1).contains(x) {
                after_delivery(m[x], st.procs()[x])
            } else {
                st.procs()[x] == m[x]
            }) by {
                assert(ks@.take(i as int + 1) =~= ks@.take(i as int).push(pid));
                if x != pid {
                    assert(ks@.take(i as int + 1).contains(x) == ks@.take(i as int).contains(x)) by {
                        let t = ks@.take(i as int + 1);
                        if t.contains(x) {
                            let k = choose|k: int| 0 <= k < t.len() && #[trigger] t[k] == x;
                            assert(ks@.take(i as int)[k] == x);
                        }
                    }
                } else {
                    assert(ks@.take(i as int + 1)[i as int] == pid);
                }
            }
            assert(st.procs().dom() =~= m.dom());
        }
        i = i + 1;
    }
    proof {
        assert forall|pid: ProcessId| #[trigger] m.dom().contains(pid) implies ks@.take(ks.len() as int).contains(pid) by {
            assert(ks@.take(ks.len() as int) =~= ks@);
            assert(ks@.to_set().contains(pid));
        }
    }
    Ok(st)
}

} // verus!
