//! Virtual memory: a page table from virtual to physical pages, a fixed
//! region layout, and a bump allocator for page-aligned heap regions.

use crate::persistent::map_sized;
use vstd::prelude::*;

verus! {

/// Page size in bytes (4KB)
pub const PAGE_SIZE: usize = 4096;

/// Virtual page number
pub type VirtualPage = u32;

/// Physical page number
pub type PhysicalPage = u32;

/// Virtual address
pub type VirtualAddress = u64;

/// Physical address
pub type PhysicalAddress = u64;

/// The contents of a page table: virtual page to physical page.
pub uninterp spec fn page_table_view(m: im::HashMap<u32, u32>) -> Map<u32, u32>;

/// `im::HashMap::new`: the new map is empty.
#[verifier::external_body]
fn page_table_new() -> (r: im::HashMap<u32, u32>)
    ensures
        page_table_view(r).dom().is_empty(),
{
    im::HashMap::new()
}

/// `im::HashMap::clone`: the clone has the same contents.
#[verifier::external_body]
fn page_table_clone(m: &im::HashMap<u32, u32>) -> (r: im::HashMap<u32, u32>)
    ensures
        page_table_view(r) == page_table_view(*m),
{
    m.clone()
}

/// `im::HashMap::insert`: the key now maps to the value; other keys keep theirs.
#[verifier::external_body]
fn page_table_insert(m: &mut im::HashMap<u32, u32>, k: u32, v: u32)
    ensures
        page_table_view(*final(m)) == page_table_view(*old(m)).insert(k, v),
{
    m.insert(k, v);
}

/// `im::HashMap::remove`: returns the key's value, if any, and drops the key.
#[verifier::external_body]
fn page_table_remove(m: &mut im::HashMap<u32, u32>, k: u32) -> (r: Option<u32>)
    ensures
        r == page_table_view(*old(m)).get(k),
        page_table_view(*final(m)) == page_table_view(*old(m)).remove(k),
{
    m.remove(&k)
}

/// `im::HashMap::get`, copied out: the key's value, if any.
#[verifier::external_body]
fn page_table_get(m: &im::HashMap<u32, u32>, k: u32) -> (r: Option<u32>)
    ensures
        r == page_table_view(*m).get(k),
{
    m.get(&k).copied()
}

/// `im::HashMap::contains_key`: whether the key has a value.
#[verifier::external_body]
fn page_table_contains(m: &im::HashMap<u32, u32>, k: u32) -> (r: bool)
    ensures
        r == page_table_view(*m).dom().contains(k),
{
    m.contains_key(&k)
}

/// `im::HashMap::len`: the number of keys; the map is finite.
#[verifier::external_body]
fn page_table_len(m: &im::HashMap<u32, u32>) -> (r: usize)
    ensures
        map_sized(page_table_view(*m), r),
{
    m.len()
}

/// `im::HashMap::keys`, collected: every mapped page once, in the map's
/// iteration order, which this contract leaves open.
#[verifier::external_body]
fn page_table_keys(m: &im::HashMap<u32, u32>) -> (r: Vec<u32>)
    ensures
        r@.no_duplicates() && r@.to_set() == page_table_view(*m).dom(),
{
    m.keys().copied().collect()
}

/// Memory region type
#[derive(Clone, Copy, Debug, PartialEq, Eq)]
pub enum MemoryRegion {
    /// Code segment (executable)
    Code,
    /// Data segment (read/write)
    Data,
    /// Heap (dynamically allocated)
    Heap,
    /// Stack (grows downward)
    Stack,
}

/// Page access permissions
#[derive(Clone, Copy, Debug, PartialEq, Eq)]
pub struct PagePermissions {
    /// Pages may be read
    pub read: bool,
    /// Pages may be written
    pub write: bool,
    /// Pages may be executed
    pub execute: bool,
}

impl PagePermissions {
    /// Read and write, no execute
    pub fn read_write() -> (r: Self)
        ensures
            r.read && r.write && !r.execute,
    {
        PagePermissions { read: true, write: true, execute: false }
    }

    /// Read only
    pub fn read_only() -> (r: Self)
        ensures
            r.read && !r.write && !r.execute,
    {
        PagePermissions { read: true, write: false, execute: false }
    }

    /// Whether reading is allowed
    pub fn allows_read(&self) -> (r: bool)
        ensures
            r == self.read,
    {
        self.read
    }

    /// Whether writing is allowed
    pub fn allows_write(&self) -> (r: bool)
        ensures
            r == self.write,
    {
        self.write
    }
}

/// Memory layout configuration
#[derive(Clone, Debug, PartialEq)]
pub struct MemoryLayout {
    /// Code region start address
    pub code_start: VirtualAddress,
    /// Code region size in bytes
    pub code_size: usize,
    /// Data region start address
    pub data_start: VirtualAddress,
    /// Data region size in bytes
    pub data_size: usize,
    /// Heap region start address
    pub heap_start: VirtualAddress,
    /// Heap region size in bytes
    pub heap_size: usize,
    /// Stack region start address
    pub stack_start: VirtualAddress,
    /// Stack region size in bytes
    pub stack_size: usize,
}

/// The layout every new address space starts with.
pub open spec fn default_layout() -> MemoryLayout {
    MemoryLayout {
        code_start: 0x0000_0000_1000_0000,
        code_size: 16777216usize,
        data_start: 0x0000_0000_2000_0000,
        data_size: 16777216usize,
        heap_start: 0x0000_0000_3000_0000,
        heap_size: 268435456usize,
        stack_start: 0x0000_0000_7FFF_F000,
        stack_size: 8388608usize,
    }
}

impl Default for MemoryLayout {
    fn default() -> (r: Self)
        ensures
            r == default_layout(),
    {
        Self {
            code_start: 0x0000_0000_1000_0000,
            code_size: 16777216usize,
            data_start: 0x0000_0000_2000_0000,
            data_size: 16777216usize,
            heap_start: 0x0000_0000_3000_0000,
            heap_size: 268435456usize,
            stack_start: 0x0000_0000_7FFF_F000,
            stack_size: 8388608usize,
        }
    }
}

/// Whether an address lies in `[start, start + size)`.
pub open spec fn in_range(addr: int, start: int, size: int) -> bool {
    start <= addr < start + size
}

/// The region an address belongs to: code, data and heap are half-open
/// ranges, the stack is the closed range below its start; earlier regions win.
pub open spec fn region_of(l: MemoryLayout, addr: u64) -> Option<MemoryRegion> {
    if in_range(addr as int, l.code_start as int, l.code_size as int) {
        Some(MemoryRegion::Code)
    } else if in_range(addr as int, l.data_start as int, l.data_size as int) {
        Some(MemoryRegion::Data)
    } else if in_range(addr as int, l.heap_start as int, l.heap_size as int) {
        Some(MemoryRegion::Heap)
    } else if l.stack_start - l.stack_size <= addr <= l.stack_start {
        Some(MemoryRegion::Stack)
    } else {
        None
    }
}

/// The region lookup of an address stays within 64-bit arithmetic: each
/// region end that is computed fits, and the stack's lower end is not negative.
pub open spec fn region_lookup_fits(l: MemoryLayout, addr: u64) -> bool {
    &&& addr >= l.code_start ==> l.code_start + l.code_size <= u64::MAX
    &&& !in_range(addr as int, l.code_start as int, l.code_size as int) && addr >= l.data_start
        ==> l.data_start + l.data_size <= u64::MAX
    &&& !in_range(addr as int, l.code_start as int, l.code_size as int) && !in_range(
        addr as int,
        l.data_start as int,
        l.data_size as int,
    ) && addr >= l.heap_start ==> l.heap_start + l.heap_size <= u64::MAX
    &&& !in_range(addr as int, l.code_start as int, l.code_size as int) && !in_range(
        addr as int,
        l.data_start as int,
        l.data_size as int,
    ) && !in_range(addr as int, l.heap_start as int, l.heap_size as int) ==> l.stack_size
        <= l.stack_start
}

impl MemoryLayout {
    /// Get region type for virtual address
    pub fn region_for_address(&self, addr: VirtualAddress) -> (r: Option<MemoryRegion>)
        requires
            region_lookup_fits(*self, addr),
        ensures
            r == region_of(*self, addr),
    {
        if addr >= self.code_start && addr < self.code_start + self.code_size as u64 {
            Some(MemoryRegion::Code)
        } else if addr >= self.data_start && addr < self.data_start + self.data_size as u64 {
            Some(MemoryRegion::Data)
        } else if addr >= self.heap_start && addr < self.heap_start + self.heap_size as u64 {
            Some(MemoryRegion::Heap)
        } else if addr >= (self.stack_start - self.stack_size as u64) && addr <= self.stack_start {
            Some(MemoryRegion::Stack)
        } else {
            None
        }
    }
}

/// The code, data, heap and stack regions of the default layout do not
/// overlap, and every lookup in it stays within 64-bit arithmetic.
pub proof fn lemma_default_layout_disjoint(addr: u64)
    ensures
        ({
            let l = default_layout();
            &&& l.code_start + l.code_size <= l.data_start
            &&& l.data_start + l.data_size <= l.heap_start
            &&& l.heap_start + l.heap_size <= l.stack_start - l.stack_size
            &&& region_lookup_fits(l, addr)
        }),
{
}

/// The virtual page that holds an address.
pub open spec fn page_of(addr: int) -> u32 {
    (addr / 4096) as u32
}

/// The `i`-th page of the run of pages from `addr`.
pub open spec fn run_page(addr: int, i: int) -> u32 {
    page_of(addr + i * 4096)
}

/// The number of pages needed for a size in bytes.
pub open spec fn pages_for(size: int) -> int {
    (size + 4095) / 4096
}

/// The page table after mapping `n` consecutive pages from `start`, the
/// `i`-th to physical page `first + i`, in order.
pub open spec fn map_run(pages: Map<u32, u32>, start: int, first: int, n: nat) -> Map<u32, u32>
    decreases n,
{
    if n == 0 {
        pages
    } else {
        map_run(pages, start, first, (n - 1) as nat).insert(
            run_page(start, n - 1),
            (first + n - 1) as u32,
        )
    }
}

/// Whether the `n` pages from `addr` are all mapped.
pub open spec fn run_mapped(pages: Map<u32, u32>, addr: int, n: int) -> bool {
    forall|i: int| 0 <= i < n ==> #[trigger] pages.dom().contains(run_page(addr, i))
}

/// The pages of the run of `n` pages from `addr`.
pub open spec fn run_pages(addr: int, n: int) -> Set<u32> {
    Set::new(|v: u32| exists|i: int| 0 <= i < n && v == run_page(addr, i))
}

/// Walking the run of `n` pages from `addr` stays within 64-bit addresses
/// for as long as the pages walked so far are mapped.
pub open spec fn run_walk_fits(pages: Map<u32, u32>, addr: int, n: int) -> bool {
    forall|i: int| 0 <= i < n && #[trigger] run_mapped(pages, addr, i) ==> addr + i * 4096 <= u64::MAX
}

/// What `mmap` of `size_bytes` does to an address space `a`, giving `b`
/// and the result `r`: a run of fresh pages at the heap cursor, or nothing
/// when the size is zero or the heap region would overflow.
pub open spec fn mmap_outcome(a: VirtualMemory, b: VirtualMemory, size_bytes: usize, r: Option<u64>) -> bool {
    let n = pages_for(size_bytes as int);
    let start = a.heap_cursor();
    let end = start + n * 4096;
    &&& b.layout_spec() == a.layout_spec()
    &&& b.program() == a.program()
    &&& b.arguments() == a.arguments()
    &&& if size_bytes == 0 || end > a.layout_spec().heap_start + a.layout_spec().heap_size {
        &&& r is None
        &&& b.pages() == a.pages()
        &&& b.next_ppage() == a.next_ppage()
        &&& b.heap_cursor() == a.heap_cursor()
    } else {
        &&& r == Some(start)
        &&& b.pages() == map_run(a.pages(), start as int, a.next_ppage() as int, n as nat)
        &&& b.next_ppage() == a.next_ppage() + n
        &&& b.heap_cursor() == end
    }
}

/// What `munmap` of `size_bytes` at `addr` does to an address space `a`,
/// giving `b` and the result `r`: the run's pages are dropped when all are
/// mapped, and nothing changes otherwise.
pub open spec fn munmap_outcome(a: VirtualMemory, b: VirtualMemory, addr: u64, size_bytes: usize, r: bool) -> bool {
    &&& r == run_mapped(a.pages(), addr as int, pages_for(size_bytes as int))
    &&& r ==> b.pages() == a.pages().remove_keys(run_pages(addr as int, pages_for(size_bytes as int)))
    &&& !r ==> b.pages() == a.pages()
    &&& b.layout_spec() == a.layout_spec()
    &&& b.program() == a.program()
    &&& b.arguments() == a.arguments()
    &&& b.next_ppage() == a.next_ppage()
    &&& b.heap_cursor() == a.heap_cursor()
}

/// Virtual memory management with page tables
#[derive(Debug, PartialEq)]
pub struct VirtualMemory {
    /// Page table (virtual page -> physical page mapping)
    page_table: im::HashMap<VirtualPage, PhysicalPage>,
    /// Memory layout
    layout: MemoryLayout,
    /// Next physical page to allocate
    pub next_physical_page: PhysicalPage,
    /// Next virtual address for heap allocations
    next_heap_addr: VirtualAddress,
    /// Path of the program the process runs, once it has executed one
    pub program_path: Option<String>,
    /// Arguments the program was started with
    pub program_args: Vec<String>,
}

impl Clone for VirtualMemory {
    fn clone(&self) -> (r: Self)
        ensures
            r.pages() == self.pages(),
            r.layout_spec() == self.layout_spec(),
            r.next_ppage() == self.next_ppage(),
            r.heap_cursor() == self.heap_cursor(),
            r.program() == self.program(),
            r.arguments() == self.arguments(),
    {
        self.duplicate()
    }
}

impl Default for VirtualMemory {
    fn default() -> (r: Self)
        ensures
            r.pages() == Map::<u32, u32>::empty(),
            r.layout_spec() == default_layout(),
            r.next_ppage() == 0,
            r.heap_cursor() == default_layout().heap_start,
            r.program() is None,
            r.arguments().len() == 0,
    {
        Self::new()
    }
}

impl VirtualMemory {
    /// The page table.
    pub closed spec fn pages(&self) -> Map<u32, u32> {
        page_table_view(self.page_table)
    }

    /// The memory layout.
    pub closed spec fn layout_spec(&self) -> MemoryLayout {
        self.layout
    }

    /// The next physical page to hand out.
    pub closed spec fn next_ppage(&self) -> u32 {
        self.next_physical_page
    }

    /// The next heap address to hand out.
    pub closed spec fn heap_cursor(&self) -> u64 {
        self.next_heap_addr
    }

    /// The path of the program the process runs, if it executed one.
    pub closed spec fn program(&self) -> Option<String> {
        self.program_path
    }

    /// The arguments the program was started with.
    pub closed spec fn arguments(&self) -> Seq<String> {
        self.program_args@
    }

    /// Records the program the process now runs and its arguments.
    pub fn set_program(&mut self, path: String, args: Vec<String>)
        ensures
            final(self).program() == Some(path),
            final(self).arguments() == args@,
            final(self).pages() == old(self).pages(),
            final(self).layout_spec() == old(self).layout_spec(),
            final(self).next_ppage() == old(self).next_ppage(),
            final(self).heap_cursor() == old(self).heap_cursor(),
    {
        self.program_path = Some(path);
        self.program_args = args;
    }

    /// Create new virtual memory with default layout
    pub fn new() -> (r: Self)
        ensures
            r.pages() == Map::<u32, u32>::empty(),
            r.layout_spec() == default_layout(),
            r.next_ppage() == 0,
            r.heap_cursor() == default_layout().heap_start,
            r.program() is None,
            r.arguments().len() == 0,
    {
        let layout = MemoryLayout::default();
        let r = Self {
            page_table: page_table_new(),
            next_heap_addr: layout.heap_start,
            layout,
            next_physical_page: 0,
            program_path: None,
            program_args: Vec::new(),
        };
        assert(r.pages() =~= Map::<u32, u32>::empty());
        r
    }

    /// Create with custom layout
    pub fn with_layout(layout: MemoryLayout) -> (r: Self)
        ensures
            r.pages() == Map::<u32, u32>::empty(),
            r.layout_spec() == layout,
            r.next_ppage() == 0,
            r.heap_cursor() == layout.heap_start,
            r.program() is None,
            r.arguments().len() == 0,
    {
        let next_heap_addr = layout.heap_start;
        let r = Self {
            page_table: page_table_new(),
            next_heap_addr,
            layout,
            next_physical_page: 0,
            program_path: None,
            program_args: Vec::new(),
        };
        assert(r.pages() =~= Map::<u32, u32>::empty());
        r
    }

    /// A copy with the same page table, layout and allocation cursors.
    pub fn duplicate(&self) -> (r: Self)
        ensures
            r.pages() == self.pages(),
            r.layout_spec() == self.layout_spec(),
            r.next_ppage() == self.next_ppage(),
            r.heap_cursor() == self.heap_cursor(),
            r.program() == self.program(),
            r.arguments() == self.arguments(),
    {
        let program_path = match &self.program_path {
            Some(p) => Some(p.clone()),
            None => None,
        };
        let program_args = self.program_args.clone();
        assert(program_args@ =~= self.program_args@);
        VirtualMemory {
            page_table: page_table_clone(&self.page_table),
            layout: MemoryLayout {
                code_start: self.layout.code_start,
                code_size: self.layout.code_size,
                data_start: self.layout.data_start,
                data_size: self.layout.data_size,
                heap_start: self.layout.heap_start,
                heap_size: self.layout.heap_size,
                stack_start: self.layout.stack_start,
                stack_size: self.layout.stack_size,
            },
            next_physical_page: self.next_physical_page,
            next_heap_addr: self.next_heap_addr,
            program_path,
            program_args,
        }
    }

    /// Get memory layout
    pub fn layout(&self) -> (r: &MemoryLayout)
        ensures
            *r == self.layout_spec(),
    {
        &self.layout
    }

    /// Map virtual page to physical page
    pub fn map_page(&mut self, vpage: VirtualPage, ppage: PhysicalPage)
        ensures
            final(self).pages() == old(self).pages().insert(vpage, ppage),
            final(self).layout_spec() == old(self).layout_spec(),
            final(self).next_ppage() == old(self).next_ppage(),
            final(self).heap_cursor() == old(self).heap_cursor(),
    {
        page_table_insert(&mut self.page_table, vpage, ppage);
    }

    /// Unmap virtual page
    pub fn unmap_page(&mut self, vpage: VirtualPage) -> (r: Option<PhysicalPage>)
        ensures
            r == old(self).pages().get(vpage),
            final(self).pages() == old(self).pages().remove(vpage),
            final(self).layout_spec() == old(self).layout_spec(),
            final(self).next_ppage() == old(self).next_ppage(),
            final(self).heap_cursor() == old(self).heap_cursor(),
    {
        page_table_remove(&mut self.page_table, vpage)
    }

    /// Allocate a new physical page and map it to virtual page
    pub fn allocate_page(&mut self, vpage: VirtualPage) -> (r: PhysicalPage)
        requires
            old(self).next_ppage() < u32::MAX,
        ensures
            r == old(self).next_ppage(),
            final(self).next_ppage() == old(self).next_ppage() + 1,
            final(self).pages() == old(self).pages().insert(vpage, r),
            final(self).layout_spec() == old(self).layout_spec(),
            final(self).heap_cursor() == old(self).heap_cursor(),
    {
        let ppage = self.next_physical_page;
        self.next_physical_page = self.next_physical_page + 1;
        page_table_insert(&mut self.page_table, vpage, ppage);
        ppage
    }

    /// Get physical page for virtual page
    pub fn get_physical_page(&self, vpage: VirtualPage) -> (r: Option<PhysicalPage>)
        ensures
            r == self.pages().get(vpage),
    {
        page_table_get(&self.page_table, vpage)
    }

    /// Translate virtual address to physical address
    pub fn translate(&self, vaddr: VirtualAddress) -> (r: Option<PhysicalAddress>)
        ensures
            r == match self.pages().get(page_of(vaddr as int)) {
                Some(p) => Some((p * 4096 + vaddr % 4096) as u64),
                None => None,
            },
    {
        let vpage = (vaddr / 4096) as VirtualPage;
        let offset = vaddr % 4096;
        match page_table_get(&self.page_table, vpage) {
            Some(ppage) => Some((ppage as u64) * 4096 + offset),
            None => None,
        }
    }

    /// Check if virtual page is mapped
    pub fn is_mapped(&self, vpage: VirtualPage) -> (r: bool)
        ensures
            r == self.pages().dom().contains(vpage),
    {
        page_table_contains(&self.page_table, vpage)
    }

    /// Get number of mapped pages
    pub fn mapped_page_count(&self) -> (r: usize)
        ensures
            r == self.pages().len(),
            self.pages().dom().finite(),
    {
        page_table_len(&self.page_table)
    }

    /// Virtual address to page number
    pub fn vaddr_to_page(vaddr: VirtualAddress) -> (r: VirtualPage)
        ensures
            r == page_of(vaddr as int),
    {
        (vaddr / 4096) as VirtualPage
    }

    /// Page number to virtual address
    pub fn page_to_vaddr(vpage: VirtualPage) -> (r: VirtualAddress)
        ensures
            r == vpage * 4096,
    {
        (vpage as u64) * 4096
    }

    /// Whether `mmap(size_bytes)` stays within machine integers: the rounded
    /// size fits in a `usize`, the new heap cursor and the heap's end fit in
    /// 64 bits, and a region that fits leaves room for its physical pages.
    pub open spec fn mmap_fits(&self, size_bytes: usize) -> bool {
        size_bytes > 0 ==> {
            let bytes = pages_for(size_bytes as int) * 4096;
            &&& bytes <= usize::MAX
            &&& self.heap_cursor() + bytes <= u64::MAX
            &&& self.layout_spec().heap_start + self.layout_spec().heap_size <= u64::MAX
            &&& self.heap_cursor() + bytes <= self.layout_spec().heap_start
                + self.layout_spec().heap_size ==> self.next_ppage() + pages_for(
                size_bytes as int,
            ) <= u32::MAX
        }
    }

    /// Allocate contiguous virtual memory region (mmap)
    ///
    /// Returns the starting virtual address of the allocated region.
    /// Allocates page-aligned memory in the heap region.
    pub fn mmap(&mut self, size_bytes: usize) -> (r: Option<VirtualAddress>)
        requires
            old(self).mmap_fits(size_bytes),
        ensures
            mmap_outcome(*old(self), *final(self), size_bytes, r),
    {
        if size_bytes == 0 {
            return None;
        }
        let num_pages = size_bytes / 4096 + if size_bytes % 4096 > 0 {
            1
        } else {
            0
        };
        assert(num_pages == pages_for(size_bytes as int));
        let start_addr = self.next_heap_addr;
        let end_addr = start_addr + (num_pages * 4096) as u64;
        let heap_end = self.layout.heap_start + self.layout.heap_size as u64;
        if end_addr > heap_end {
            return None;
        }
        let first = self.next_physical_page;
        let mut i: usize = 0;
        while i < num_pages
            invariant
                i <= num_pages,
                num_pages == pages_for(size_bytes as int),
                num_pages * 4096 <= usize::MAX,
                start_addr as int + num_pages * 4096 <= u64::MAX,
                first as int + num_pages <= u32::MAX,
                self.next_physical_page == first + i,
                self.next_heap_addr == start_addr,
                self.layout == old(self).layout,
                self.program_path == old(self).program_path,
                self.program_args == old(self).program_args,
                first == old(self).next_ppage(),
                start_addr == old(self).next_heap_addr,
                self.pages() == map_run(old(self).pages(), start_addr as int, first as int, i as nat),
            decreases num_pages - i,
        {
            let vaddr = start_addr + (i * 4096) as u64;
            let vpage = Self::vaddr_to_page(vaddr);
            let ppage = self.next_physical_page;
            self.next_physical_page = self.next_physical_page + 1;
            page_table_insert(&mut self.page_table, vpage, ppage);
            i = i + 1;
        }
        self.next_heap_addr = end_addr;
        Some(start_addr)
    }

    /// Free virtual memory region (munmap)
    ///
    /// Unmaps all pages in the specified range.
    /// Returns true if successful, false if any page was not mapped.
    pub fn munmap(&mut self, addr: VirtualAddress, size_bytes: usize) -> (r: bool)
        requires
            run_walk_fits(old(self).pages(), addr as int, pages_for(size_bytes as int)),
        ensures
            munmap_outcome(*old(self), *final(self), addr, size_bytes, r),
    {
        if size_bytes == 0 {
            assert(old(self).pages().remove_keys(run_pages(addr as int, 0)) =~= old(self).pages());
            return true;
        }
        if !self.is_range_mapped(addr, size_bytes) {
            return false;
        }
        let num_pages = size_bytes / 4096 + if size_bytes % 4096 > 0 {
            1
        } else {
            0
        };
        let ghost n = pages_for(size_bytes as int);
        let mut i: usize = 0;
        while i < num_pages
            invariant
                i <= num_pages,
                num_pages == n,
                n == pages_for(size_bytes as int),
                size_bytes > 0,
                num_pages > 0,
                run_mapped(old(self).pages(), addr as int, n),
                run_walk_fits(old(self).pages(), addr as int, n),
                self.layout == old(self).layout,
                self.program_path == old(self).program_path,
                self.program_args == old(self).program_args,
                self.next_physical_page == old(self).next_ppage(),
                self.next_heap_addr == old(self).next_heap_addr,
                self.pages() == old(self).pages().remove_keys(run_pages(addr as int, i as int)),
            decreases num_pages - i,
        {
            assert(run_mapped(old(self).pages(), addr as int, i as int));
            assert(addr + i * 4096 <= u64::MAX);
            assert(i * 4096 < size_bytes) by (nonlinear_arith)
                requires
                    i < num_pages,
                    num_pages == (size_bytes + 4095) / 4096,
                    size_bytes > 0,
            ;
            let vaddr = addr + (i * 4096) as u64;
            let vpage = Self::vaddr_to_page(vaddr);
            assert(vpage == run_page(addr as int, i as int));
            page_table_remove(&mut self.page_table, vpage);
            proof {
                assert(self.pages() =~= old(self).pages().remove_keys(
                    run_pages(addr as int, i + 1),
                )) by {
                    assert forall|v: u32| #[trigger]
                        run_pages(addr as int, i + 1).contains(v) == (run_pages(
                            addr as int,
                            i as int,
                        ).contains(v) || v == vpage) by {
                        if run_pages(addr as int, i + 1).contains(v) {
                            let j = choose|j: int|
                                0 <= j < i + 1 && v == run_page(addr as int, j);
                            if j < i {
                                assert(run_pages(addr as int, i as int).contains(v));
                            }
                        }
                        if run_pages(addr as int, i as int).contains(v) {
                            let j = choose|j: int| 0 <= j < i && v == run_page(addr as int, j);
                            assert(0 <= j < i + 1 && v == run_page(addr as int, j));
                        }
                        if v == vpage {
                            assert(0 <= i < i + 1 && v == run_page(addr as int, i as int));
                        }
                    }
                }
            }
            i = i + 1;
        }
        true
    }

    /// Whether walking the pages of a range stays within 64-bit addresses for
    /// as long as the pages walked are mapped.
    pub fn range_walk_fits(&self, addr: VirtualAddress, size_bytes: usize) -> (r: bool)
        ensures
            r == run_walk_fits(self.pages(), addr as int, pages_for(size_bytes as int)),
    {
        let ghost n = pages_for(size_bytes as int);
        if size_bytes == 0 {
            return true;
        }
        let num_pages = size_bytes / 4096 + if size_bytes % 4096 > 0 {
            1
        } else {
            0
        };
        let mut i: usize = 0;
        while i < num_pages
            invariant
                i <= num_pages,
                num_pages == n,
                n == pages_for(size_bytes as int),
                size_bytes > 0,
                run_mapped(self.pages(), addr as int, i as int),
                i > 0 ==> addr + (i - 1) * 4096 <= u64::MAX,
            decreases num_pages - i,
        {
            assert(i * 4096 < size_bytes) by (nonlinear_arith)
                requires
                    i < num_pages,
                    num_pages == (size_bytes + 4095) / 4096,
                    size_bytes > 0,
            ;
            if addr as u128 + (i * 4096) as u128 > 0xffff_ffff_ffff_ffffu128 {
                assert(!run_walk_fits(self.pages(), addr as int, n)) by {
                    assert(run_mapped(self.pages(), addr as int, i as int));
                }
                return false;
            }
            let vaddr = addr + (i * 4096) as u64;
            let vpage = Self::vaddr_to_page(vaddr);
            assert(vpage == run_page(addr as int, i as int));
            if !self.is_mapped(vpage) {
                assert forall|j: int| 0 <= j < n && #[trigger] run_mapped(self.pages(), addr as int, j)
                    implies addr + j * 4096 <= u64::MAX by {
                    if j > i {
                        assert(self.pages().dom().contains(run_page(addr as int, i as int)));
                    }
                }
                return true;
            }
            assert(run_mapped(self.pages(), addr as int, i + 1));
            i = i + 1;
        }
        assert forall|j: int| 0 <= j < n && #[trigger] run_mapped(self.pages(), addr as int, j)
            implies addr + j * 4096 <= u64::MAX by {}
        true
    }

    /// Whether `mmap(size_bytes)` stays within machine integers (see
    /// `mmap_fits`).
    pub fn mmap_within_limits(&self, size_bytes: usize) -> (r: bool)
        ensures
            r == self.mmap_fits(size_bytes),
    {
        if size_bytes == 0 {
            return true;
        }
        let pages: u128 = (size_bytes as u128 + 4095) / 4096;
        assert(pages == pages_for(size_bytes as int));
        assert(pages * 4096 <= 0x1_0000_0000_0000_1000) by (nonlinear_arith)
            requires
                pages == (size_bytes + 4095) / 4096,
                size_bytes <= 0xffff_ffff_ffff_ffff,
        ;
        let bytes: u128 = pages * 4096;
        let cursor = self.next_heap_addr as u128;
        let heap_end = self.layout.heap_start as u128 + self.layout.heap_size as u128;
        if bytes > usize::MAX as u128 || cursor + bytes > 0xffff_ffff_ffff_ffffu128
            || heap_end > 0xffff_ffff_ffff_ffffu128 {
            return false;
        }
        if cursor + bytes <= heap_end {
            self.next_physical_page as u128 + pages <= 0xffff_ffff
        } else {
            true
        }
    }

    /// The next heap address to hand out.
    pub fn heap_address(&self) -> (r: VirtualAddress)
        ensures
            r == self.heap_cursor(),
    {
        self.next_heap_addr
    }

    /// The page table's entries, virtual page and physical page, each
    /// mapped page once, in an order this contract leaves open.
    pub fn page_entries(&self) -> (r: Vec<(VirtualPage, PhysicalPage)>)
        ensures
            r@.map_values(|e: (u32, u32)| e.0).no_duplicates(),
            r@.map_values(|e: (u32, u32)| e.0).to_set() == self.pages().dom(),
            forall|i: int| 0 <= i < r@.len() ==> self.pages()[(#[trigger] r@[i]).0] == r@[i].1,
    {
        let ks = page_table_keys(&self.page_table);
        let mut r: Vec<(VirtualPage, PhysicalPage)> = Vec::new();
        let mut i: usize = 0;
        while i < ks.len()
            invariant
                i <= ks.len(),
                ks@.no_duplicates(),
                ks@.to_set() == self.pages().dom(),
                r@.len() == i,
                forall|j: int| 0 <= j < i ==> (#[trigger] r@[j]).0 == ks@[j] && self.pages()[ks@[j]] == r@[j].1,
            decreases ks.len() - i,
        {
            let k = ks[i];
            assert(ks@.to_set().contains(k));
            let v = match page_table_get(&self.page_table, k) {
                Some(v) => v,
                None => {
                    assert(false);
                    0
                },
            };
            r.push((k, v));
            i = i + 1;
        }
        assert(r@.map_values(|e: (u32, u32)| e.0) =~= ks@);
        r
    }

    /// Check if address range is fully mapped
    pub fn is_range_mapped(&self, addr: VirtualAddress, size_bytes: usize) -> (r: bool)
        requires
            run_walk_fits(self.pages(), addr as int, pages_for(size_bytes as int)),
        ensures
            r == run_mapped(self.pages(), addr as int, pages_for(size_bytes as int)),
    {
        if size_bytes == 0 {
            return true;
        }
        let num_pages = size_bytes / 4096 + if size_bytes % 4096 > 0 {
            1
        } else {
            0
        };
        let ghost n = pages_for(size_bytes as int);
        let mut i: usize = 0;
        while i < num_pages
            invariant
                i <= num_pages,
                num_pages == n,
                n == pages_for(size_bytes as int),
                size_bytes > 0,
                run_mapped(self.pages(), addr as int, i as int),
                run_walk_fits(self.pages(), addr as int, n),
            decreases num_pages - i,
        {
            assert(addr + i * 4096 <= u64::MAX);
            assert(i * 4096 < size_bytes) by (nonlinear_arith)
                requires
                    i < num_pages,
                    num_pages == (size_bytes + 4095) / 4096,
                    size_bytes > 0,
            ;
            let vaddr = addr + (i * 4096) as u64;
            let vpage = Self::vaddr_to_page(vaddr);
            assert(vpage == run_page(addr as int, i as int));
            if !self.is_mapped(vpage) {
                assert(!run_mapped(self.pages(), addr as int, n));
                return false;
            }
            assert(run_mapped(self.pages(), addr as int, i + 1));
            i = i + 1;
        }
        true
    }
}

/// The `i`-th page of a run is the run's first page plus `i`, while the
/// run stays within the 32-bit page numbers.
pub proof fn lemma_run_page_offset(start: int, i: int)
    requires
        0 <= start,
        0 <= i,
        start / 4096 + i <= u32::MAX,
    ensures
        run_page(start, i) == start / 4096 + i,
{
    assert((start + i * 4096) / 4096 == start / 4096 + i) by (nonlinear_arith)
        requires
            0 <= start,
            0 <= i,
    ;
}

/// After mapping a run, every page of the run is mapped, and every page
/// mapped before is still mapped.
pub proof fn law_map_run_maps_run(pages: Map<u32, u32>, start: int, first: int, n: nat)
    ensures
        run_mapped(map_run(pages, start, first, n), start, n as int),
        pages.dom().subset_of(map_run(pages, start, first, n).dom()),
    decreases n,
{
    if n > 0 {
        law_map_run_maps_run(pages, start, first, (n - 1) as nat);
        let m = map_run(pages, start, first, n);
        assert forall|i: int| 0 <= i < n implies #[trigger] m.dom().contains(run_page(start, i)) by {
            if i < n - 1 {
                assert(map_run(pages, start, first, (n - 1) as nat).dom().contains(
                    run_page(start, i),
                ));
            }
        }
    }
}

/// A run of `n` pages that were all unmapped, and whose page numbers do not
/// wrap around, adds exactly `n` pages to a finite page table; the `i`-th
/// page maps to physical page `first + i`.
pub proof fn law_map_run_adds_pages(pages: Map<u32, u32>, start: int, first: int, n: nat)
    requires
        pages.dom().finite(),
        0 <= start,
        0 <= first,
        first + n <= u32::MAX + 1,
        start / 4096 + n <= u32::MAX + 1,
        forall|i: int| 0 <= i < n ==> !pages.dom().contains(#[trigger] run_page(start, i)),
    ensures
        map_run(pages, start, first, n).dom().finite(),
        map_run(pages, start, first, n).len() == pages.len() + n,
        forall|i: int|
            0 <= i < n ==> #[trigger] map_run(pages, start, first, n)[run_page(start, i)] == first
                + i,
    decreases n,
{
    if n > 0 {
        law_map_run_adds_pages(pages, start, first, (n - 1) as nat);
        let prev = map_run(pages, start, first, (n - 1) as nat);
        lemma_run_page_offset(start, n - 1);
        assert(!prev.dom().contains(run_page(start, n - 1))) by {
            if prev.dom().contains(run_page(start, n - 1)) {
                lemma_map_run_dom(pages, start, first, (n - 1) as nat, run_page(start, n - 1));
                let j = choose|j: int|
                    0 <= j < n - 1 && #[trigger] run_page(start, j) == run_page(start, n - 1);
                lemma_run_page_offset(start, j);
            }
        }
        assert forall|i: int| 0 <= i < n implies #[trigger] map_run(pages, start, first, n)[run_page(
            start,
            i,
        )] == first + i by {
            if i < n - 1 {
                lemma_run_page_offset(start, i);
                assert(prev[run_page(start, i)] == first + i);
            }
        }
    }
}

/// A page mapped after mapping a run was mapped before or is a page of the run.
proof fn lemma_map_run_dom(pages: Map<u32, u32>, start: int, first: int, n: nat, v: u32)
    requires
        map_run(pages, start, first, n).dom().contains(v),
    ensures
        pages.dom().contains(v) || exists|j: int| 0 <= j < n && #[trigger] run_page(start, j) == v,
    decreases n,
{
    if n > 0 {
        if v != run_page(start, n - 1) {
            lemma_map_run_dom(pages, start, first, (n - 1) as nat, v);
            if !pages.dom().contains(v) {
                let j = choose|j: int| 0 <= j < n - 1 && #[trigger] run_page(start, j) == v;
                assert(0 <= j < n && run_page(start, j) == v);
            }
        } else {
            assert(0 <= n - 1 < n && run_page(start, n - 1) == v);
        }
    }
}

/// Translating an address of a mapped page keeps the offset within the
/// page: the address `v * 4096 + off` lies in page `v` at offset `off`.
pub proof fn law_translate_keeps_offset(v: u32, off: u64)
    requires
        off < 4096,
    ensures
        page_of(v * 4096 + off) == v,
        (v * 4096 + off) % 4096 == off,
{
    assert((v * 4096 + off) / 4096 == v && (v * 4096 + off) % 4096 == off) by (nonlinear_arith)
        requires
            off < 4096,
            v >= 0,
    ;
}

/// Unmapping a run leaves every page outside the run with its mapping.
pub proof fn law_unmap_run_keeps_others(pages: Map<u32, u32>, addr: int, n: int, v: u32)
    requires
        !run_pages(addr, n).contains(v),
    ensures
        pages.remove_keys(run_pages(addr, n)).get(v) == pages.get(v),
{
}


/// Mapping a run changes no page outside the run.
proof fn lemma_map_run_other(pages: Map<u32, u32>, start: int, first: int, n: nat, v: u32)
    requires
        forall|j: int| 0 <= j < n ==> #[trigger] run_page(start, j) != v,
    ensures
        map_run(pages, start, first, n).get(v) == pages.get(v),
    decreases n,
{
    if n > 0 {
        assert(run_page(start, n - 1) != v);
        lemma_map_run_other(pages, start, first, (n - 1) as nat, v);
    }
}

/// The pages of a run of `k + 1` pages are those of the first `k` and the
/// `k`-th.
proof fn lemma_run_pages_step(addr: int, k: nat)
    ensures
        run_pages(addr, k + 1int) == run_pages(addr, k as int).insert(run_page(addr, k as int)),
{
    let v = run_page(addr, k as int);
    assert forall|x: u32| #[trigger] run_pages(addr, k + 1int).contains(x) == run_pages(addr, k as int).insert(v).contains(x) by {
        if run_pages(addr, k + 1int).contains(x) {
            let i = choose|i: int| 0 <= i < k + 1 && x == run_page(addr, i);
            if i < k {
                assert(run_pages(addr, k as int).contains(x));
            }
        }
        if run_pages(addr, k as int).contains(x) {
            let i = choose|i: int| 0 <= i < k && x == run_page(addr, i);
            assert(0 <= i < k + 1 && x == run_page(addr, i));
        }
        if x == v {
            assert(0 <= k < k + 1 && x == run_page(addr, k as int));
        }
    }
    assert(run_pages(addr, k + 1int) =~= run_pages(addr, k as int).insert(v));
}

/// Dropping the pages of a run whose first `k` pages are all mapped removes
/// exactly the run's distinct pages from a finite table.
proof fn lemma_unmap_prefix_len(pages: Map<u32, u32>, addr: int, k: nat)
    requires
        pages.dom().finite(),
        run_mapped(pages, addr, k as int),
    ensures
        run_pages(addr, k as int).finite(),
        pages.remove_keys(run_pages(addr, k as int)).dom().finite(),
        pages.remove_keys(run_pages(addr, k as int)).len() == pages.len() - run_pages(addr, k as int).len(),
    decreases k,
{
    if k == 0 {
        assert(run_pages(addr, 0) =~= Set::<u32>::empty());
        assert(pages.remove_keys(run_pages(addr, 0)) =~= pages);
    } else {
        let j = (k - 1) as nat;
        assert(run_mapped(pages, addr, j as int)) by {
            assert forall|i: int| 0 <= i < j implies #[trigger] pages.dom().contains(run_page(addr, i)) by {
                assert(0 <= i < k);
            }
        }
        lemma_unmap_prefix_len(pages, addr, j);
        lemma_run_pages_step(addr, j);
        let prev = pages.remove_keys(run_pages(addr, j as int));
        let v = run_page(addr, j as int);
        assert(pages.dom().contains(v));
        if run_pages(addr, j as int).contains(v) {
            assert(run_pages(addr, k as int) =~= run_pages(addr, j as int));
        } else {
            assert(prev.dom().contains(v));
            assert(pages.remove_keys(run_pages(addr, k as int)) =~= prev.remove(v));
            assert(prev.remove(v).dom() =~= prev.dom().remove(v));
        }
    }
}

/// A run of `k` pages whose page numbers do not wrap around holds `k`
/// distinct pages.
proof fn lemma_run_pages_len(addr: int, k: nat)
    requires
        0 <= addr,
        addr / 4096 + k <= u32::MAX + 1,
    ensures
        run_pages(addr, k as int).finite(),
        run_pages(addr, k as int).len() == k,
    decreases k,
{
    if k == 0 {
        assert(run_pages(addr, 0) =~= Set::<u32>::empty());
    } else {
        let j = (k - 1) as nat;
        lemma_run_pages_len(addr, j);
        lemma_run_pages_step(addr, j);
        let v = run_page(addr, j as int);
        lemma_run_page_offset(addr, j as int);
        assert(!run_pages(addr, j as int).contains(v)) by {
            if run_pages(addr, j as int).contains(v) {
                let i = choose|i: int| 0 <= i < j && v == run_page(addr, i);
                lemma_run_page_offset(addr, i);
            }
        }
    }
}

/// Unmapping a run whose pages are all mapped lowers the number of mapped
/// pages by exactly the number of distinct pages in the run, which is the
/// run's length when its page numbers do not wrap around, and leaves none of
/// its pages mapped; a refused unmapping changes nothing.
pub proof fn law_munmap_drops_run(
    a: VirtualMemory,
    b: VirtualMemory,
    addr: u64,
    size: usize,
    r: bool,
)
    requires
        munmap_outcome(a, b, addr, size, r),
        a.pages().dom().finite(),
    ensures
        r == run_mapped(a.pages(), addr as int, pages_for(size as int)),
        r ==> b.pages().dom().finite() && b.pages().len() == a.pages().len() - run_pages(
            addr as int,
            pages_for(size as int),
        ).len(),
        addr / 4096 + pages_for(size as int) <= u32::MAX + 1 ==> run_pages(
            addr as int,
            pages_for(size as int),
        ).len() == pages_for(size as int),
        r ==> forall|i: int|
            0 <= i < pages_for(size as int) ==> !b.pages().dom().contains(
                #[trigger] run_page(addr as int, i),
            ),
        !r ==> b.pages() == a.pages(),
{
    let n = pages_for(size as int);
    if r {
        lemma_unmap_prefix_len(a.pages(), addr as int, n as nat);
        assert forall|i: int| 0 <= i < n implies !b.pages().dom().contains(
            #[trigger] run_page(addr as int, i),
        ) by {
            assert(run_pages(addr as int, n).contains(run_page(addr as int, i)));
        }
    }
    if addr / 4096 + n <= u32::MAX + 1 {
        lemma_run_pages_len(addr as int, n as nat);
    }
}

/// Unmapping exactly the region that `mmap` gave back restores the page
/// table from before the `mmap`, when none of the region's pages was mapped
/// before it.
pub proof fn law_mmap_munmap_restores(
    a: VirtualMemory,
    b: VirtualMemory,
    c: VirtualMemory,
    size: usize,
    addr: u64,
    r: bool,
)
    requires
        mmap_outcome(a, b, size, Some(addr)),
        munmap_outcome(b, c, addr, size, r),
        forall|i: int| 0 <= i < pages_for(size as int) ==> !a.pages().dom().contains(#[trigger] run_page(addr as int, i)),
    ensures
        r,
        c.pages() == a.pages(),
{
    let n = pages_for(size as int);
    law_map_run_maps_run(a.pages(), addr as int, a.next_ppage() as int, n as nat);
    let run = run_pages(addr as int, n);
    assert forall|v: u32| #[trigger] c.pages().get(v) == a.pages().get(v) by {
        if run.contains(v) {
            let j = choose|j: int| 0 <= j < n && v == run_page(addr as int, j);
            assert(!a.pages().dom().contains(run_page(addr as int, j)));
        } else {
            assert forall|j: int| 0 <= j < n implies #[trigger] run_page(addr as int, j) != v by {
                if run_page(addr as int, j) == v {
                    assert(run.contains(v));
                }
            }
            lemma_map_run_other(a.pages(), addr as int, a.next_ppage() as int, n as nat, v);
        }
    }
    assert(c.pages() =~= a.pages()) by {
        assert forall|v: u32| #[trigger] c.pages().dom().contains(v) == a.pages().dom().contains(v) by {
            assert(c.pages().get(v) == a.pages().get(v));
        }
        assert forall|v: u32| #[trigger] c.pages().dom().contains(v) implies c.pages()[v] == a.pages()[v] by {
            assert(c.pages().get(v) == a.pages().get(v));
        }
    }
}


/// The region `mmap` gives lies in the heap region, and the heap cursor
/// stays within it, for an address space whose cursor is in the heap (as
/// every new one is).
pub proof fn law_mmap_in_heap(a: VirtualMemory, b: VirtualMemory, size: usize, addr: u64)
    requires
        mmap_outcome(a, b, size, Some(addr)),
        a.layout_spec().heap_start <= a.heap_cursor(),
    ensures
        a.layout_spec().heap_start <= addr < a.layout_spec().heap_start + a.layout_spec().heap_size,
        b.layout_spec().heap_start <= b.heap_cursor() <= b.layout_spec().heap_start + b.layout_spec().heap_size,
{
}

/// Successive `mmap`s give successive regions: the second starts where the
/// first ends, so no address is given twice.
pub proof fn law_mmap_sequential(
    a: VirtualMemory,
    b: VirtualMemory,
    c: VirtualMemory,
    s1: usize,
    s2: usize,
    x: u64,
    y: u64,
)
    requires
        mmap_outcome(a, b, s1, Some(x)),
        mmap_outcome(b, c, s2, Some(y)),
    ensures
        y == x + pages_for(s1 as int) * 4096,
        x < y,
{
}

} // verus!
