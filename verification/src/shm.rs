//! Shared Memory IPC
//!
//! POSIX-like shared memory for fast inter-process communication.
//! Allows multiple processes to map the same physical memory into their
//! virtual address spaces.

use crate::memory::{PagePermissions, VirtualAddress};
use crate::persistent::set_sized;
use crate::state::ProcessId;
use vstd::prelude::*;

verus! {

/// Shared memory segment identifier
pub type SharedMemoryId = u32;

// ---------------------------------------------------------------------------
// The persistent collections a segment and the manager hold
// ---------------------------------------------------------------------------

/// The bytes of a segment.
pub uninterp spec fn shm_bytes_view(v: im::Vector<u8>) -> Seq<u8>;

/// `im::Vector::from_iter` over `n` zero bytes.
#[verifier::external_body]
fn shm_bytes_zeroed(n: usize) -> (r: im::Vector<u8>)
    ensures
        shm_bytes_view(r) == Seq::new(n as nat, |i: int| 0u8),
{
    im::Vector::from_iter(vec![0u8; n])
}

/// `im::Vector::clone` on bytes: the same bytes.
#[verifier::external_body]
fn shm_bytes_clone(v: &im::Vector<u8>) -> (r: im::Vector<u8>)
    ensures
        shm_bytes_view(r) == shm_bytes_view(*v),
{
    v.clone()
}

/// `im::Vector::slice` on bytes: removes `lo..hi` and returns what it removed.
#[verifier::external_body]
fn shm_bytes_slice(v: &mut im::Vector<u8>, lo: usize, hi: usize) -> (r: im::Vector<u8>)
    requires
        lo <= hi <= shm_bytes_view(*old(v)).len(),
    ensures
        shm_bytes_view(r) == shm_bytes_view(*old(v)).subrange(lo as int, hi as int),
        shm_bytes_view(*final(v)) == shm_bytes_view(*old(v)).subrange(0, lo as int) + shm_bytes_view(
            *old(v),
        ).subrange(hi as int, shm_bytes_view(*old(v)).len() as int),
{
    v.slice(lo..hi)
}

/// `im::Vector::set` on bytes (which panics out of bounds): replaces the byte at `i`.
#[verifier::external_body]
fn shm_bytes_set(v: &mut im::Vector<u8>, i: usize, b: u8)
    requires
        i < shm_bytes_view(*old(v)).len(),
    ensures
        shm_bytes_view(*final(v)) == shm_bytes_view(*old(v)).update(i as int, b),
{
    v.set(i, b);
}

/// The processes that have mapped a segment.
pub uninterp spec fn pid_set_view(s: im::HashSet<u32>) -> Set<u32>;

/// `im::HashSet::new`: the new set is empty.
#[verifier::external_body]
fn pid_set_new() -> (r: im::HashSet<u32>)
    ensures
        pid_set_view(r).is_empty(),
        pid_set_view(r).finite(),
{
    im::HashSet::new()
}

/// `im::HashSet::clone`: the same elements.
#[verifier::external_body]
fn pid_set_clone(s: &im::HashSet<u32>) -> (r: im::HashSet<u32>)
    ensures
        pid_set_view(r) == pid_set_view(*s),
{
    s.clone()
}

/// `im::HashSet::contains`.
#[verifier::external_body]
fn pid_set_contains(s: &im::HashSet<u32>, x: u32) -> (r: bool)
    ensures
        r == pid_set_view(*s).contains(x),
{
    s.contains(&x)
}

/// `im::HashSet::insert`: the element is added.
#[verifier::external_body]
fn pid_set_insert(s: &mut im::HashSet<u32>, x: u32)
    ensures
        pid_set_view(*final(s)) == pid_set_view(*old(s)).insert(x),
{
    s.insert(x);
}

/// `im::HashSet::remove`: the element is dropped.
#[verifier::external_body]
fn pid_set_remove(s: &mut im::HashSet<u32>, x: u32)
    ensures
        pid_set_view(*final(s)) == pid_set_view(*old(s)).remove(x),
{
    s.remove(&x);
}

/// Shared memory segment
#[derive(Debug, PartialEq)]
pub struct SharedMemorySegment {
    /// Unique identifier
    pub id: SharedMemoryId,
    /// Size in bytes
    pub size: usize,
    /// Permissions (read, write, execute)
    pub permissions: PagePermissions,
    /// Actual data (simulated physical memory)
    pub data: im::Vector<u8>,
    /// Processes that have mapped this segment
    pub mapped_processes: im::HashSet<ProcessId>,
    /// Reference count (for cleanup)
    pub ref_count: usize,
}

/// `a` and `b` hold the same segment contents.
pub open spec fn same_segment(a: SharedMemorySegment, b: SharedMemorySegment) -> bool {
    &&& a.id == b.id
    &&& a.size == b.size
    &&& a.permissions == b.permissions
    &&& a.bytes() == b.bytes()
    &&& a.mapped() == b.mapped()
    &&& a.ref_count == b.ref_count
}

/// The bytes of a segment after writing `data` at `offset`.
pub open spec fn written(bytes: Seq<u8>, offset: int, data: Seq<u8>) -> Seq<u8> {
    bytes.subrange(0, offset) + data + bytes.subrange(offset + data.len(), bytes.len() as int)
}

impl Clone for SharedMemorySegment {
    fn clone(&self) -> (r: Self)
        ensures
            same_segment(r, *self),
    {
        SharedMemorySegment {
            id: self.id,
            size: self.size,
            permissions: self.permissions,
            data: shm_bytes_clone(&self.data),
            mapped_processes: pid_set_clone(&self.mapped_processes),
            ref_count: self.ref_count,
        }
    }
}

impl SharedMemorySegment {
    /// The processes that have mapped the segment.
    pub open spec fn mapped(&self) -> Set<ProcessId> {
        pid_set_view(self.mapped_processes)
    }

    /// The segment's bytes.
    pub open spec fn bytes(&self) -> Seq<u8> {
        shm_bytes_view(self.data)
    }

    /// The segment holds `size` bytes, and its reference count is the number
    /// of processes that have mapped it.
    pub open spec fn wf(&self) -> bool {
        &&& set_sized(self.mapped(), self.ref_count)
        &&& self.bytes().len() == self.size
    }

    /// Create a new shared memory segment
    pub fn new(id: SharedMemoryId, size: usize, permissions: PagePermissions) -> (r: Self)
        ensures
            r.id == id,
            r.size == size,
            r.permissions == permissions,
            r.bytes() == Seq::new(size as nat, |i: int| 0u8),
            r.mapped().is_empty(),
            r.ref_count == 0,
            r.wf(),
    {
        let r = Self {
            id,
            size,
            permissions,
            data: shm_bytes_zeroed(size),
            mapped_processes: pid_set_new(),
            ref_count: 0,
        };
        proof {
            vstd::set_lib::lemma_set_empty_equivalency_len(r.mapped());
        }
        r
    }

    /// Map this segment to a process
    pub fn map_to_process(&mut self, pid: ProcessId) -> (r: Result<(), &'static str>)
        requires
            !old(self).mapped().contains(pid) ==> old(self).ref_count < usize::MAX,
        ensures
            old(self).mapped().contains(pid) ==> {
                &&& r matches Err(m) && m@ == "Process has already mapped this segment"@
                &&& *final(self) == *old(self)
            },
            !old(self).mapped().contains(pid) ==> {
                &&& r is Ok
                &&& final(self).mapped() == old(self).mapped().insert(pid)
                &&& final(self).ref_count == old(self).ref_count + 1
                &&& final(self).id == old(self).id
                &&& final(self).size == old(self).size
                &&& final(self).permissions == old(self).permissions
                &&& final(self).data == old(self).data
            },
            old(self).wf() ==> final(self).wf(),
    {
        if pid_set_contains(&self.mapped_processes, pid) {
            return Err("Process has already mapped this segment");
        }
        pid_set_insert(&mut self.mapped_processes, pid);
        self.ref_count = self.ref_count + 1;
        Ok(())
    }

    /// Unmap this segment from a process
    pub fn unmap_from_process(&mut self, pid: ProcessId) -> (r: Result<(), &'static str>)
        ensures
            !old(self).mapped().contains(pid) ==> {
                &&& r matches Err(m) && m@ == "Process has not mapped this segment"@
                &&& *final(self) == *old(self)
            },
            old(self).mapped().contains(pid) ==> {
                &&& r is Ok
                &&& final(self).mapped() == old(self).mapped().remove(pid)
                &&& final(self).ref_count == (if old(self).ref_count > 0 {
                    old(self).ref_count - 1
                } else {
                    0
                })
                &&& final(self).id == old(self).id
                &&& final(self).size == old(self).size
                &&& final(self).permissions == old(self).permissions
                &&& final(self).data == old(self).data
            },
            old(self).wf() ==> final(self).wf(),
    {
        if !pid_set_contains(&self.mapped_processes, pid) {
            return Err("Process has not mapped this segment");
        }
        pid_set_remove(&mut self.mapped_processes, pid);
        self.ref_count = if self.ref_count > 0 {
            self.ref_count - 1
        } else {
            0
        };
        Ok(())
    }

    /// Read data from segment
    pub fn read(&self, offset: usize, length: usize) -> (r: Result<im::Vector<u8>, &'static str>)
        requires
            self.wf(),
            offset + length <= usize::MAX,
        ensures
            offset + length > self.size ==> (r matches Err(m) && m@ == "Read beyond segment bounds"@),
            offset + length <= self.size && !self.permissions.read ==> (r matches Err(m) && m@
                == "Segment is not readable"@),
            offset + length <= self.size && self.permissions.read ==> (r matches Ok(v) && shm_bytes_view(v)
                == self.bytes().subrange(offset as int, offset + length)),
    {
        if offset + length > self.size {
            return Err("Read beyond segment bounds");
        }
        if !self.permissions.allows_read() {
            return Err("Segment is not readable");
        }
        let end = offset + length;
        let mut copy = shm_bytes_clone(&self.data);
        Ok(shm_bytes_slice(&mut copy, offset, end))
    }

    /// Write data to segment
    pub fn write(&mut self, offset: usize, data: &[u8]) -> (r: Result<(), &'static str>)
        requires
            old(self).wf(),
            offset + data@.len() <= usize::MAX,
        ensures
            offset + data@.len() > old(self).size ==> {
                &&& r matches Err(m) && m@ == "Write beyond segment bounds"@
                &&& *final(self) == *old(self)
            },
            offset + data@.len() <= old(self).size && !old(self).permissions.write ==> {
                &&& r matches Err(m) && m@ == "Segment is not writable"@
                &&& *final(self) == *old(self)
            },
            offset + data@.len() <= old(self).size && old(self).permissions.write ==> {
                &&& r is Ok
                &&& final(self).bytes() == written(old(self).bytes(), offset as int, data@)
                &&& final(self).id == old(self).id
                &&& final(self).size == old(self).size
                &&& final(self).permissions == old(self).permissions
                &&& final(self).mapped_processes == old(self).mapped_processes
                &&& final(self).ref_count == old(self).ref_count
            },
            final(self).wf(),
    {
        if offset + data.len() > self.size {
            return Err("Write beyond segment bounds");
        }
        if !self.permissions.allows_write() {
            return Err("Segment is not writable");
        }
        let ghost b = self.bytes();
        let mut new_data = shm_bytes_clone(&self.data);
        let mut i: usize = 0;
        while i < data.len()
            invariant
                i <= data@.len(),
                offset + data@.len() <= b.len(),
                b.len() <= usize::MAX,
                shm_bytes_view(new_data) == b.subrange(0, offset as int) + data@.take(i as int) + b.subrange(
                    offset + i,
                    b.len() as int,
                ),
            decreases data.len() - i,
        {
            shm_bytes_set(&mut new_data, offset + i, data[i]);
            assert(shm_bytes_view(new_data) =~= b.subrange(0, offset as int) + data@.take(i + 1) + b.subrange(
                offset + i + 1,
                b.len() as int,
            ));
            i = i + 1;
        }
        assert(data@.take(data@.len() as int) =~= data@);
        self.data = new_data;
        Ok(())
    }
}

/// Writing data into a segment's bytes and then reading the same range gives
/// the data back, and the length of the bytes is kept.
pub proof fn law_write_then_read(bytes: Seq<u8>, offset: int, data: Seq<u8>)
    requires
        0 <= offset,
        offset + data.len() <= bytes.len(),
    ensures
        written(bytes, offset, data).subrange(offset, offset + data.len()) == data,
        written(bytes, offset, data).len() == bytes.len(),
{
    assert(written(bytes, offset, data).subrange(offset, offset + data.len()) =~= data);
}

/// Writing leaves every byte outside the written range as it was.
pub proof fn law_write_keeps_other_bytes(bytes: Seq<u8>, offset: int, data: Seq<u8>, i: int)
    requires
        0 <= offset,
        offset + data.len() <= bytes.len(),
        0 <= i < bytes.len(),
        i < offset || offset + data.len() <= i,
    ensures
        written(bytes, offset, data)[i] == bytes[i],
{
}


// ---------------------------------------------------------------------------
// The manager
// ---------------------------------------------------------------------------

/// Process mapping information
#[derive(Clone, Copy, Debug, PartialEq, Eq)]
pub struct ProcessMapping {
    /// Shared memory segment ID
    pub shm_id: SharedMemoryId,
    /// Virtual address where segment is mapped
    pub virtual_addr: VirtualAddress,
    /// Size of mapping
    pub size: usize,
    /// Permissions for this mapping
    pub permissions: PagePermissions,
}

/// The segments of a manager: identifier to segment.
pub uninterp spec fn segment_table_view(m: im::HashMap<u32, SharedMemorySegment>) -> Map<u32, SharedMemorySegment>;

/// `im::HashMap::new` for segment tables: the new map is empty.
#[verifier::external_body]
fn segment_table_new() -> (r: im::HashMap<u32, SharedMemorySegment>)
    ensures
        segment_table_view(r).dom().is_empty(),
{
    im::HashMap::new()
}

/// `im::HashMap::clone` for segment tables: the same contents.
#[verifier::external_body]
fn segment_table_clone(m: &im::HashMap<u32, SharedMemorySegment>) -> (r: im::HashMap<u32, SharedMemorySegment>)
    ensures
        segment_table_view(r) == segment_table_view(*m),
{
    m.clone()
}

/// `im::HashMap::get` for segment tables.
#[verifier::external_body]
fn segment_table_get(m: &im::HashMap<u32, SharedMemorySegment>, k: u32) -> (r: Option<&SharedMemorySegment>)
    ensures
        match r {
            Some(v) => segment_table_view(*m).dom().contains(k) && *v == segment_table_view(*m)[k],
            None => !segment_table_view(*m).dom().contains(k),
        },
{
    m.get(&k)
}

/// `im::HashMap::get_mut` for segment tables: a mutable reference to the
/// key's segment; the map then holds whatever the reference ends with.
#[verifier::external_body]
fn segment_table_get_mut(m: &mut im::HashMap<u32, SharedMemorySegment>, k: u32) -> (r: Option<&mut SharedMemorySegment>)
    ensures
        match r {
            Some(v) => {
                &&& segment_table_view(*old(m)).dom().contains(k)
                &&& *v == segment_table_view(*old(m))[k]
                &&& segment_table_view(*final(m)) == segment_table_view(*old(m)).insert(k, *final(v))
            },
            None => {
                &&& !segment_table_view(*old(m)).dom().contains(k)
                &&& segment_table_view(*final(m)) == segment_table_view(*old(m))
            },
        },
{
    m.get_mut(&k)
}

/// `im::HashMap::insert` for segment tables.
#[verifier::external_body]
fn segment_table_insert(m: &mut im::HashMap<u32, SharedMemorySegment>, k: u32, v: SharedMemorySegment)
    ensures
        segment_table_view(*final(m)) == segment_table_view(*old(m)).insert(k, v),
{
    m.insert(k, v);
}

/// `im::HashMap::remove` for segment tables.
#[verifier::external_body]
fn segment_table_remove(m: &mut im::HashMap<u32, SharedMemorySegment>, k: u32)
    ensures
        segment_table_view(*final(m)) == segment_table_view(*old(m)).remove(k),
{
    m.remove(&k);
}

/// The mappings a process holds, oldest first.
pub uninterp spec fn mapping_list_view(v: im::Vector<ProcessMapping>) -> Seq<ProcessMapping>;

/// `im::Vector::new` for mapping lists: the new list is empty.
#[verifier::external_body]
fn mapping_list_new() -> (r: im::Vector<ProcessMapping>)
    ensures
        mapping_list_view(r) == Seq::<ProcessMapping>::empty(),
{
    im::Vector::new()
}

/// `im::Vector::clone` for mapping lists: the same mappings.
#[verifier::external_body]
fn mapping_list_clone(v: &im::Vector<ProcessMapping>) -> (r: im::Vector<ProcessMapping>)
    ensures
        mapping_list_view(r) == mapping_list_view(*v),
{
    v.clone()
}

/// `im::Vector::push_back` for mapping lists.
#[verifier::external_body]
fn mapping_list_push_back(v: &mut im::Vector<ProcessMapping>, x: ProcessMapping)
    ensures
        mapping_list_view(*final(v)) == mapping_list_view(*old(v)).push(x),
{
    v.push_back(x);
}

/// `im::Vector::len` for mapping lists.
#[verifier::external_body]
fn mapping_list_len(v: &im::Vector<ProcessMapping>) -> (r: usize)
    ensures
        r == mapping_list_view(*v).len(),
{
    v.len()
}

/// Indexing a mapping list (which panics out of bounds), copied out.
#[verifier::external_body]
fn mapping_list_get(v: &im::Vector<ProcessMapping>, i: usize) -> (r: ProcessMapping)
    requires
        i < mapping_list_view(*v).len(),
    ensures
        r == mapping_list_view(*v)[i as int],
{
    v[i]
}

/// The mapping lists of a manager: process to list.
pub uninterp spec fn mapping_table_view(m: im::HashMap<u32, im::Vector<ProcessMapping>>) -> Map<
    u32,
    im::Vector<ProcessMapping>,
>;

/// `im::HashMap::new` for mapping tables: the new map is empty.
#[verifier::external_body]
fn mapping_table_new() -> (r: im::HashMap<u32, im::Vector<ProcessMapping>>)
    ensures
        mapping_table_view(r).dom().is_empty(),
{
    im::HashMap::new()
}

/// `im::HashMap::clone` for mapping tables: the same contents.
#[verifier::external_body]
fn mapping_table_clone(m: &im::HashMap<u32, im::Vector<ProcessMapping>>) -> (r: im::HashMap<u32, im::Vector<ProcessMapping>>)
    ensures
        mapping_table_view(r) == mapping_table_view(*m),
{
    m.clone()
}

/// `im::HashMap::get` for mapping tables.
#[verifier::external_body]
fn mapping_table_get(m: &im::HashMap<u32, im::Vector<ProcessMapping>>, k: u32) -> (r: Option<&im::Vector<ProcessMapping>>)
    ensures
        match r {
            Some(v) => mapping_table_view(*m).dom().contains(k) && *v == mapping_table_view(*m)[k],
            None => !mapping_table_view(*m).dom().contains(k),
        },
{
    m.get(&k)
}

/// `im::HashMap::insert` for mapping tables.
#[verifier::external_body]
fn mapping_table_insert(m: &mut im::HashMap<u32, im::Vector<ProcessMapping>>, k: u32, v: im::Vector<ProcessMapping>)
    ensures
        mapping_table_view(*final(m)) == mapping_table_view(*old(m)).insert(k, v),
{
    m.insert(k, v);
}

/// `im::HashMap::remove` for mapping tables.
#[verifier::external_body]
fn mapping_table_remove(m: &mut im::HashMap<u32, im::Vector<ProcessMapping>>, k: u32)
    ensures
        mapping_table_view(*final(m)) == mapping_table_view(*old(m)).remove(k),
{
    m.remove(&k);
}

/// A segment as `SharedMemorySegment::new` creates it.
pub open spec fn fresh_segment(seg: SharedMemorySegment, id: SharedMemoryId, size: usize, permissions: PagePermissions) -> bool {
    &&& seg.id == id
    &&& seg.size == size
    &&& seg.permissions == permissions
    &&& seg.bytes() == Seq::new(size as nat, |i: int| 0u8)
    &&& seg.mapped().is_empty()
    &&& seg.ref_count == 0
}

/// `b` is segment `a` with process `pid` added to its mappers.
pub open spec fn mapped_to(a: SharedMemorySegment, b: SharedMemorySegment, pid: ProcessId) -> bool {
    &&& b.mapped() == a.mapped().insert(pid)
    &&& b.ref_count == a.ref_count + 1
    &&& b.id == a.id
    &&& b.size == a.size
    &&& b.permissions == a.permissions
    &&& b.bytes() == a.bytes()
}

/// `b` is segment `a` with process `pid` dropped from its mappers.
pub open spec fn unmapped_from(a: SharedMemorySegment, b: SharedMemorySegment, pid: ProcessId) -> bool {
    &&& b.mapped() == a.mapped().remove(pid)
    &&& b.ref_count == (if a.ref_count > 0 {
        a.ref_count - 1
    } else {
        0
    })
    &&& b.id == a.id
    &&& b.size == a.size
    &&& b.permissions == a.permissions
    &&& b.bytes() == a.bytes()
}

/// A mapping list without the mappings of segment `id`, in order.
pub open spec fn without_segment(s: Seq<ProcessMapping>, id: SharedMemoryId) -> Seq<ProcessMapping>
    decreases s.len(),
{
    if s.len() == 0 {
        s
    } else {
        let rest = without_segment(s.drop_last(), id);
        if s.last().shm_id != id {
            rest.push(s.last())
        } else {
            rest
        }
    }
}

/// Whether a mapping belongs to a segment other than `id`.
pub open spec fn of_other_segment(id: SharedMemoryId) -> spec_fn(ProcessMapping) -> bool {
    |m: ProcessMapping| m.shm_id != id
}

/// Dropping a segment from a process's mapping list keeps exactly the
/// mappings of the other segments, in their order: the list filtered by
/// segment. A mapping is kept exactly when it was in the list and belongs to
/// another segment, and the kept list is never longer.
pub proof fn law_unmap_keeps_other_segments(l: Seq<ProcessMapping>, id: SharedMemoryId)
    ensures
        without_segment(l, id) == l.filter(of_other_segment(id)),
        forall|m: ProcessMapping| #[trigger] without_segment(l, id).contains(m) <==> l.contains(m) && m.shm_id != id,
        without_segment(l, id).len() <= l.len(),
        (forall|k: int| 0 <= k < l.len() ==> (#[trigger] l[k]).shm_id != id) ==> without_segment(l, id) == l,
    decreases l.len(),
{
    if l.len() == 0 {
        reveal(Seq::filter);
    } else {
        law_unmap_keeps_other_segments(l.drop_last(), id);
        let rest = without_segment(l.drop_last(), id);
        reveal(Seq::filter);
        assert(l.filter(of_other_segment(id)) == if of_other_segment(id)(l.last()) {
            l.drop_last().filter(of_other_segment(id)).push(l.last())
        } else {
            l.drop_last().filter(of_other_segment(id))
        });
        assert forall|m: ProcessMapping| #[trigger] without_segment(l, id).contains(m) <==> l.contains(m)
            && m.shm_id != id by {
            if l.contains(m) && m.shm_id != id {
                let k = choose|k: int| 0 <= k < l.len() && l[k] == m;
                if k < l.len() - 1 {
                    assert(l.drop_last()[k] == m);
                    assert(rest.contains(m));
                    if l.last().shm_id != id {
                        let j = choose|j: int| 0 <= j < rest.len() && rest[j] == m;
                        assert(rest.push(l.last())[j] == m);
                    }
                } else {
                    assert(rest.push(l.last())[rest.len() as int] == m);
                }
            }
            if without_segment(l, id).contains(m) {
                let j = choose|j: int| 0 <= j < without_segment(l, id).len() && without_segment(l, id)[j] == m;
                if j < rest.len() {
                    if l.last().shm_id != id {
                        assert(rest.push(l.last())[j] == rest[j]);
                    }
                    assert(rest.contains(m));
                    let k = choose|k: int| 0 <= k < l.drop_last().len() && l.drop_last()[k] == m;
                    assert(l[k] == m);
                } else {
                    assert(l[l.len() - 1] == m);
                }
            }
        }
        if forall|k: int| 0 <= k < l.len() ==> (#[trigger] l[k]).shm_id != id {
            assert forall|k: int| 0 <= k < l.drop_last().len() implies (#[trigger] l.drop_last()[k]).shm_id != id by {
                assert(l[k] == l.drop_last()[k]);
            }
            assert(l.last().shm_id != id);
            assert(l.drop_last().push(l.last()) =~= l);
        }
    }
}

/// The segment identifiers of a mapping list.
pub open spec fn segment_ids(s: Seq<ProcessMapping>) -> Set<SharedMemoryId> {
    Set::new(|id: SharedMemoryId| exists|i: int| 0 <= i < s.len() && #[trigger] s[i].shm_id == id)
}

/// Shared memory manager
#[derive(Debug, PartialEq)]
pub struct SharedMemoryManager {
    /// All shared memory segments
    pub segments: im::HashMap<SharedMemoryId, SharedMemorySegment>,
    /// Next available segment ID
    pub next_id: SharedMemoryId,
    /// Process mappings (ProcessId -> list of mappings)
    pub process_mappings: im::HashMap<ProcessId, im::Vector<ProcessMapping>>,
}

impl Clone for SharedMemoryManager {
    fn clone(&self) -> (r: Self)
        ensures
            r.segs() == self.segs(),
            r.next_id == self.next_id,
            r.mappings() == self.mappings(),
    {
        let r = SharedMemoryManager {
            segments: segment_table_clone(&self.segments),
            next_id: self.next_id,
            process_mappings: mapping_table_clone(&self.process_mappings),
        };
        assert(r.mappings() =~= self.mappings());
        r
    }
}

impl Default for SharedMemoryManager {
    fn default() -> (r: Self)
        ensures
            r.segs().dom().is_empty(),
            r.next_id == 1,
            r.mappings().dom().is_empty(),
            r.wf(),
    {
        Self::new()
    }
}

impl SharedMemoryManager {
    /// The segments by identifier.
    pub open spec fn segs(&self) -> Map<SharedMemoryId, SharedMemorySegment> {
        segment_table_view(self.segments)
    }

    /// The mapping lists by process.
    pub open spec fn mappings(&self) -> Map<ProcessId, Seq<ProcessMapping>> {
        Map::new(
            |k: ProcessId| mapping_table_view(self.process_mappings).dom().contains(k),
            |k: ProcessId| mapping_list_view(mapping_table_view(self.process_mappings)[k]),
        )
    }

    /// The mappings of a process; none if it has no list.
    pub open spec fn mappings_of(&self, pid: ProcessId) -> Seq<ProcessMapping> {
        if self.mappings().dom().contains(pid) {
            self.mappings()[pid]
        } else {
            Seq::empty()
        }
    }

    /// Every segment is well formed.
    pub open spec fn wf(&self) -> bool {
        forall|k: SharedMemoryId| #[trigger] self.segs().dom().contains(k) ==> self.segs()[k].wf()
    }

    /// Create a new shared memory manager
    pub fn new() -> (r: Self)
        ensures
            r.segs().dom().is_empty(),
            r.next_id == 1,
            r.mappings().dom().is_empty(),
            r.wf(),
    {
        let r = Self { segments: segment_table_new(), next_id: 1, process_mappings: mapping_table_new() };
        assert(r.mappings().dom() =~= Set::<ProcessId>::empty());
        r
    }

    /// Create a new shared memory segment
    pub fn create_segment(&mut self, size: usize, permissions: PagePermissions) -> (id: SharedMemoryId)
        requires
            old(self).next_id < u32::MAX,
        ensures
            id == old(self).next_id,
            final(self).next_id == old(self).next_id + 1,
            final(self).segs() == old(self).segs().insert(id, final(self).segs()[id]),
            fresh_segment(final(self).segs()[id], id, size, permissions),
            final(self).mappings() == old(self).mappings(),
            old(self).wf() ==> final(self).wf(),
    {
        let id = self.next_id;
        self.next_id = self.next_id + 1;
        let segment = SharedMemorySegment::new(id, size, permissions);
        segment_table_insert(&mut self.segments, id, segment);
        proof {
            assert(self.mappings() =~= old(self).mappings());
        }
        id
    }

    /// Map a shared memory segment into a process's address space
    pub fn map_segment(
        &mut self,
        shm_id: SharedMemoryId,
        pid: ProcessId,
        virtual_addr: VirtualAddress,
        permissions: PagePermissions,
    ) -> (r: Result<(), &'static str>)
        requires
            old(self).segs().dom().contains(shm_id) && !(permissions.read && !old(self).segs()[shm_id].permissions.read)
                && !(permissions.write && !old(self).segs()[shm_id].permissions.write)
                && !old(self).segs()[shm_id].mapped().contains(pid)
                ==> old(self).segs()[shm_id].ref_count < usize::MAX,
        ensures
            final(self).next_id == old(self).next_id,
            old(self).wf() ==> final(self).wf(),
            ({
                let s = old(self).segs()[shm_id];
                if !old(self).segs().dom().contains(shm_id) {
                    &&& r matches Err(m) && m@ == "Shared memory segment not found"@
                    &&& final(self).segs() == old(self).segs()
                    &&& final(self).mappings() == old(self).mappings()
                } else if permissions.read && !s.permissions.read {
                    &&& r matches Err(m) && m@ == "Requested read permission not available on segment"@
                    &&& final(self).segs() == old(self).segs()
                    &&& final(self).mappings() == old(self).mappings()
                } else if permissions.write && !s.permissions.write {
                    &&& r matches Err(m) && m@ == "Requested write permission not available on segment"@
                    &&& final(self).segs() == old(self).segs()
                    &&& final(self).mappings() == old(self).mappings()
                } else if s.mapped().contains(pid) {
                    &&& r matches Err(m) && m@ == "Process has already mapped this segment"@
                    &&& final(self).segs() == old(self).segs()
                    &&& final(self).mappings() == old(self).mappings()
                } else {
                    &&& r is Ok
                    &&& final(self).segs() == old(self).segs().insert(shm_id, final(self).segs()[shm_id])
                    &&& mapped_to(s, final(self).segs()[shm_id], pid)
                    &&& final(self).mappings() == old(self).mappings().insert(
                        pid,
                        old(self).mappings_of(pid).push(
                            ProcessMapping { shm_id, virtual_addr, size: s.size, permissions },
                        ),
                    )
                }
            }),
    {
        let size = match segment_table_get(&self.segments, shm_id) {
            None => return Err("Shared memory segment not found"),
            Some(segment) => {
                if permissions.allows_read() && !segment.permissions.allows_read() {
                    return Err("Requested read permission not available on segment");
                }
                if permissions.allows_write() && !segment.permissions.allows_write() {
                    return Err("Requested write permission not available on segment");
                }
                if pid_set_contains(&segment.mapped_processes, pid) {
                    return Err("Process has already mapped this segment");
                }
                segment.size
            },
        };
        match segment_table_get_mut(&mut self.segments, shm_id) {
            Some(segment) => {
                let _ = segment.map_to_process(pid);
            },
            None => {},
        }
        let mapping = ProcessMapping { shm_id, virtual_addr, size, permissions };
        let mut mappings = match mapping_table_get(&self.process_mappings, pid) {
            Some(v) => mapping_list_clone(v),
            None => mapping_list_new(),
        };
        mapping_list_push_back(&mut mappings, mapping);
        mapping_table_insert(&mut self.process_mappings, pid, mappings);
        proof {
            assert(self.mappings() =~= old(self).mappings().insert(
                pid,
                old(self).mappings_of(pid).push(mapping),
            ));
            if old(self).wf() {
                assert forall|k: SharedMemoryId| #[trigger] self.segs().dom().contains(k) implies self.segs()[k].wf() by {
                    if k != shm_id {
                        assert(old(self).segs().dom().contains(k));
                    }
                }
            }
        }
        Ok(())
    }

    /// Drops the mappings of segment `shm_id` from the list of process `pid`,
    /// and the list itself when nothing is left.
    fn drop_mappings(&mut self, shm_id: SharedMemoryId, pid: ProcessId)
        ensures
            final(self).segs() == old(self).segs(),
            final(self).next_id == old(self).next_id,
            old(self).mappings().dom().contains(pid) ==> {
                let f = without_segment(old(self).mappings()[pid], shm_id);
                if f.len() == 0 {
                    final(self).mappings() == old(self).mappings().remove(pid)
                } else {
                    final(self).mappings() == old(self).mappings().insert(pid, f)
                }
            },
            !old(self).mappings().dom().contains(pid) ==> final(self).mappings() == old(self).mappings(),
    {
        let list = match mapping_table_get(&self.process_mappings, pid) {
            Some(v) => mapping_list_clone(v),
            None => return,
        };
        let ghost l = mapping_list_view(list);
        let n = mapping_list_len(&list);
        let mut kept = mapping_list_new();
        let mut i: usize = 0;
        while i < n
            invariant
                i <= n,
                n == l.len(),
                l == mapping_list_view(list),
                mapping_list_view(kept) == without_segment(l.take(i as int), shm_id),
            decreases n - i,
        {
            let m = mapping_list_get(&list, i);
            proof {
                assert(l.take(i as int + 1).drop_last() =~= l.take(i as int));
            }
            if m.shm_id != shm_id {
                mapping_list_push_back(&mut kept, m);
            }
            i = i + 1;
        }
        assert(l.take(n as int) =~= l);
        if mapping_list_len(&kept) == 0 {
            mapping_table_remove(&mut self.process_mappings, pid);
            assert(self.mappings() =~= old(self).mappings().remove(pid));
        } else {
            mapping_table_insert(&mut self.process_mappings, pid, kept);
            assert(self.mappings() =~= old(self).mappings().insert(pid, without_segment(l, shm_id)));
        }
    }

    /// Unmap a shared memory segment from a process
    pub fn unmap_segment(&mut self, shm_id: SharedMemoryId, pid: ProcessId) -> (r: Result<(), &'static str>)
        ensures
            final(self).next_id == old(self).next_id,
            old(self).wf() ==> final(self).wf(),
            ({
                let s = old(self).segs()[shm_id];
                if !old(self).segs().dom().contains(shm_id) {
                    &&& r matches Err(m) && m@ == "Shared memory segment not found"@
                    &&& final(self).segs() == old(self).segs()
                    &&& final(self).mappings() == old(self).mappings()
                } else if !s.mapped().contains(pid) {
                    &&& r matches Err(m) && m@ == "Process has not mapped this segment"@
                    &&& final(self).segs() == old(self).segs()
                    &&& final(self).mappings() == old(self).mappings()
                } else {
                    &&& r is Ok
                    &&& final(self).segs() == old(self).segs().insert(shm_id, final(self).segs()[shm_id])
                    &&& unmapped_from(s, final(self).segs()[shm_id], pid)
                    &&& if old(self).mappings().dom().contains(pid) {
                        let f = without_segment(old(self).mappings()[pid], shm_id);
                        if f.len() == 0 {
                            final(self).mappings() == old(self).mappings().remove(pid)
                        } else {
                            final(self).mappings() == old(self).mappings().insert(pid, f)
                        }
                    } else {
                        final(self).mappings() == old(self).mappings()
                    }
                }
            }),
    {
        match segment_table_get(&self.segments, shm_id) {
            None => return Err("Shared memory segment not found"),
            Some(segment) => {
                if !pid_set_contains(&segment.mapped_processes, pid) {
                    return Err("Process has not mapped this segment");
                }
            },
        }
        match segment_table_get_mut(&mut self.segments, shm_id) {
            Some(segment) => {
                let _ = segment.unmap_from_process(pid);
            },
            None => {},
        }
        proof {
            if old(self).wf() {
                assert forall|k: SharedMemoryId| #[trigger] self.segs().dom().contains(k) implies self.segs()[k].wf() by {
                    assert(old(self).segs().dom().contains(k));
                }
            }
        }
        self.drop_mappings(shm_id, pid);
        Ok(())
    }

    /// Destroy a shared memory segment (if ref count is zero)
    pub fn destroy_segment(&mut self, shm_id: SharedMemoryId) -> (r: Result<(), &'static str>)
        ensures
            final(self).next_id == old(self).next_id,
            final(self).mappings() == old(self).mappings(),
            old(self).wf() ==> final(self).wf(),
            !old(self).segs().dom().contains(shm_id) ==> {
                &&& r matches Err(m) && m@ == "Shared memory segment not found"@
                &&& final(self).segs() == old(self).segs()
            },
            old(self).segs().dom().contains(shm_id) && old(self).segs()[shm_id].ref_count > 0 ==> {
                &&& r matches Err(m) && m@ == "Cannot destroy segment with active mappings"@
                &&& final(self).segs() == old(self).segs()
            },
            old(self).segs().dom().contains(shm_id) && old(self).segs()[shm_id].ref_count == 0 ==> {
                &&& r is Ok
                &&& final(self).segs() == old(self).segs().remove(shm_id)
            },
    {
        match segment_table_get(&self.segments, shm_id) {
            None => return Err("Shared memory segment not found"),
            Some(segment) => {
                if segment.ref_count > 0 {
                    return Err("Cannot destroy segment with active mappings");
                }
            },
        }
        segment_table_remove(&mut self.segments, shm_id);
        proof {
            assert(self.mappings() =~= old(self).mappings());
        }
        Ok(())
    }

    /// Read from a shared memory segment
    pub fn read(&self, shm_id: SharedMemoryId, pid: ProcessId, offset: usize, length: usize) -> (r: Result<
        im::Vector<u8>,
        &'static str,
    >)
        requires
            self.wf(),
            offset + length <= usize::MAX,
        ensures
            ({
                let s = self.segs()[shm_id];
                if !self.segs().dom().contains(shm_id) {
                    r matches Err(m) && m@ == "Shared memory segment not found"@
                } else if !s.mapped().contains(pid) {
                    r matches Err(m) && m@ == "Process has not mapped this segment"@
                } else if offset + length > s.size {
                    r matches Err(m) && m@ == "Read beyond segment bounds"@
                } else if !s.permissions.read {
                    r matches Err(m) && m@ == "Segment is not readable"@
                } else {
                    r matches Ok(v) && shm_bytes_view(v) == s.bytes().subrange(offset as int, offset + length)
                }
            }),
    {
        let segment = match segment_table_get(&self.segments, shm_id) {
            Some(s) => s,
            None => return Err("Shared memory segment not found"),
        };
        if !pid_set_contains(&segment.mapped_processes, pid) {
            return Err("Process has not mapped this segment");
        }
        assert(self.segs().dom().contains(shm_id));
        segment.read(offset, length)
    }

    /// Write to a shared memory segment
    pub fn write(&mut self, shm_id: SharedMemoryId, pid: ProcessId, offset: usize, data: &[u8]) -> (r: Result<
        (),
        &'static str,
    >)
        requires
            old(self).wf(),
            offset + data@.len() <= usize::MAX,
        ensures
            final(self).next_id == old(self).next_id,
            final(self).mappings() == old(self).mappings(),
            final(self).wf(),
            ({
                let s = old(self).segs()[shm_id];
                if !old(self).segs().dom().contains(shm_id) {
                    &&& r matches Err(m) && m@ == "Shared memory segment not found"@
                    &&& final(self).segs() == old(self).segs()
                } else if !s.mapped().contains(pid) {
                    &&& r matches Err(m) && m@ == "Process has not mapped this segment"@
                    &&& final(self).segs() == old(self).segs()
                } else if offset + data@.len() > s.size {
                    &&& r matches Err(m) && m@ == "Write beyond segment bounds"@
                    &&& final(self).segs() == old(self).segs()
                } else if !s.permissions.write {
                    &&& r matches Err(m) && m@ == "Segment is not writable"@
                    &&& final(self).segs() == old(self).segs()
                } else {
                    &&& r is Ok
                    &&& final(self).segs() == old(self).segs().insert(shm_id, final(self).segs()[shm_id])
                    &&& final(self).segs()[shm_id].bytes() == written(s.bytes(), offset as int, data@)
                    &&& final(self).segs()[shm_id].id == s.id
                    &&& final(self).segs()[shm_id].size == s.size
                    &&& final(self).segs()[shm_id].permissions == s.permissions
                    &&& final(self).segs()[shm_id].mapped() == s.mapped()
                    &&& final(self).segs()[shm_id].ref_count == s.ref_count
                }
            }),
    {
        match segment_table_get(&self.segments, shm_id) {
            Some(segment) => {
                if !pid_set_contains(&segment.mapped_processes, pid) {
                    return Err("Process has not mapped this segment");
                }
            },
            None => return Err("Shared memory segment not found"),
        }
        proof {
            assert(old(self).segs().dom().contains(shm_id));
            assert(old(self).segs()[shm_id].wf());
        }
        let r = match segment_table_get_mut(&mut self.segments, shm_id) {
            Some(segment) => segment.write(offset, data),
            None => Err("Shared memory segment not found"),
        };
        proof {
            if r is Err {
                assert(self.segs() =~= old(self).segs());
            }
            assert forall|k: SharedMemoryId| #[trigger] self.segs().dom().contains(k) implies self.segs()[k].wf() by {
                if k != shm_id {
                    assert(old(self).segs().dom().contains(k));
                }
            }
            assert(self.mappings() =~= old(self).mappings());
        }
        r
    }

    /// Get all mappings for a process
    pub fn get_process_mappings(&self, pid: ProcessId) -> (r: im::Vector<ProcessMapping>)
        ensures
            mapping_list_view(r) == self.mappings_of(pid),
    {
        match mapping_table_get(&self.process_mappings, pid) {
            Some(v) => mapping_list_clone(v),
            None => mapping_list_new(),
        }
    }

    /// Cleanup all mappings for a process (called when process terminates)
    pub fn cleanup_process(&mut self, pid: ProcessId)
        ensures
            final(self).next_id == old(self).next_id,
            final(self).mappings() == old(self).mappings().remove(pid),
            final(self).segs().dom() == old(self).segs().dom(),
            old(self).wf() ==> final(self).wf(),
            forall|k: SharedMemoryId| #[trigger] old(self).segs().dom().contains(k) ==> if segment_ids(
                old(self).mappings_of(pid),
            ).contains(k) && old(self).segs()[k].mapped().contains(pid) {
                unmapped_from(old(self).segs()[k], final(self).segs()[k], pid)
            } else {
                final(self).segs()[k] == old(self).segs()[k]
            },
    {
        let list = self.get_process_mappings(pid);
        let ghost l = mapping_list_view(list);
        let ghost s0 = self.segs();
        let n = mapping_list_len(&list);
        let mut i: usize = 0;
        while i < n
            invariant
                i <= n,
                n == l.len(),
                l == mapping_list_view(list),
                l == old(self).mappings_of(pid),
                s0 == old(self).segs(),
                self.next_id == old(self).next_id,
                self.segs().dom() == s0.dom(),
                self.mappings().remove(pid) == old(self).mappings().remove(pid),
                old(self).wf() ==> self.wf(),
                forall|k: SharedMemoryId| #[trigger] s0.dom().contains(k) ==> if segment_ids(l.take(i as int)).contains(k)
                    && s0[k].mapped().contains(pid) {
                    unmapped_from(s0[k], self.segs()[k], pid)
                } else {
                    self.segs()[k] == s0[k]
                },
            decreases n - i,
        {
            let m = mapping_list_get(&list, i);
            let id = m.shm_id;
            let ghost before = self.segs();
            let ghost before_maps = self.mappings();
            let _ = self.unmap_segment(id, pid);
            proof {
                let t = l.take(i as int + 1);
                assert(t =~= l.take(i as int).push(m));
                assert forall|k: SharedMemoryId| segment_ids(t).contains(k) == (segment_ids(l.take(i as int)).contains(k) || k == id) by {
                    if k == id {
                        assert(t[i as int].shm_id == id);
                    }
                    if segment_ids(l.take(i as int)).contains(k) {
                        let j = choose|j: int| 0 <= j < l.take(i as int).len() && #[trigger] l.take(i as int)[j].shm_id == k;
                        assert(t[j].shm_id == k);
                    }
                    if segment_ids(t).contains(k) && k != id {
                        let j = choose|j: int| 0 <= j < t.len() && #[trigger] t[j].shm_id == k;
                        assert(l.take(i as int)[j].shm_id == k);
                    }
                }
                assert(self.segs().dom() =~= s0.dom());
                assert(self.mappings().remove(pid) =~= before_maps.remove(pid));
            }
            i = i + 1;
        }
        mapping_table_remove(&mut self.process_mappings, pid);
        proof {
            assert(l.take(n as int) =~= l);
            assert(self.mappings() =~= old(self).mappings().remove(pid));
        }
    }
}

/// The reference count of every segment is the number of processes that
/// have mapped it, after any sequence of the manager's operations; here:
/// mapping a process then unmapping it gives back the mappers and the count.
pub proof fn law_map_unmap_restores(a: SharedMemorySegment, b: SharedMemorySegment, c: SharedMemorySegment, pid: ProcessId)
    requires
        a.wf(),
        !a.mapped().contains(pid),
        mapped_to(a, b, pid),
        unmapped_from(b, c, pid),
    ensures
        c.mapped() == a.mapped(),
        c.ref_count == a.ref_count,
        c.bytes() == a.bytes(),
{
    assert(c.mapped() =~= a.mapped());
}

} // verus!
