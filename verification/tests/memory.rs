use wos_kernel::memory::{MemoryLayout, MemoryRegion, VirtualMemory, PAGE_SIZE};

#[test]
fn test_virtual_memory_creation() {
    let vm = VirtualMemory::new();
    assert_eq!(vm.mapped_page_count(), 0);
    assert_eq!(vm.next_physical_page, 0);

    let layout = vm.layout();
    assert_eq!(layout.code_start, 0x0000_0000_1000_0000);
    assert_eq!(layout.code_size, 16 * 1024 * 1024);
}

#[test]
fn test_page_table_operations() {
    let mut vm = VirtualMemory::new();

    // Map pages
    vm.map_page(0, 100);
    vm.map_page(1, 101);
    vm.map_page(2, 102);

    assert_eq!(vm.mapped_page_count(), 3);

    // Lookup
    assert_eq!(vm.get_physical_page(0), Some(100));
    assert_eq!(vm.get_physical_page(1), Some(101));
    assert_eq!(vm.get_physical_page(2), Some(102));
    assert_eq!(vm.get_physical_page(3), None);

    // Unmap
    assert_eq!(vm.unmap_page(1), Some(101));
    assert_eq!(vm.mapped_page_count(), 2);
    assert_eq!(vm.get_physical_page(1), None);
}

#[test]
fn test_address_translation() {
    let mut vm = VirtualMemory::new();

    // Map virtual page 0 to physical page 100
    vm.map_page(0, 100);

    // Translate address in page 0
    let vaddr = 0x0000; // Offset 0 in page 0
    let paddr = vm.translate(vaddr);
    assert_eq!(paddr, Some(100 * PAGE_SIZE as u64));

    // Translate with offset
    let vaddr = 0x0100; // Offset 256 in page 0
    let paddr = vm.translate(vaddr);
    assert_eq!(paddr, Some(100 * PAGE_SIZE as u64 + 256));

    // Unmapped page returns None
    let vaddr = PAGE_SIZE as u64; // Page 1, unmapped
    let paddr = vm.translate(vaddr);
    assert_eq!(paddr, None);
}

#[test]
fn test_allocate_page() {
    let mut vm = VirtualMemory::new();

    let ppage0 = vm.allocate_page(0);
    assert_eq!(ppage0, 0);
    assert_eq!(vm.get_physical_page(0), Some(0));

    let ppage1 = vm.allocate_page(1);
    assert_eq!(ppage1, 1);
    assert_eq!(vm.get_physical_page(1), Some(1));

    assert_eq!(vm.mapped_page_count(), 2);
}

#[test]
fn test_memory_layout_regions() {
    let layout = MemoryLayout::default();

    // Code region
    let code_addr = layout.code_start;
    assert_eq!(
        layout.region_for_address(code_addr),
        Some(MemoryRegion::Code)
    );

    // Data region
    let data_addr = layout.data_start;
    assert_eq!(
        layout.region_for_address(data_addr),
        Some(MemoryRegion::Data)
    );

    // Heap region
    let heap_addr = layout.heap_start;
    assert_eq!(
        layout.region_for_address(heap_addr),
        Some(MemoryRegion::Heap)
    );

    // Stack region
    let stack_addr = layout.stack_start;
    assert_eq!(
        layout.region_for_address(stack_addr),
        Some(MemoryRegion::Stack)
    );

    // Invalid region
    let invalid_addr = 0x0;
    assert_eq!(layout.region_for_address(invalid_addr), None);
}

#[test]
fn test_vaddr_page_conversion() {
    let vaddr = 0x5000; // 5 pages * 4096 bytes
    let vpage = VirtualMemory::vaddr_to_page(vaddr);
    assert_eq!(vpage, 5);

    let vaddr2 = VirtualMemory::page_to_vaddr(vpage);
    assert_eq!(vaddr2, 5 * PAGE_SIZE as u64);
}

#[test]
fn test_is_mapped() {
    let mut vm = VirtualMemory::new();
    assert!(!vm.is_mapped(0));

    vm.map_page(0, 100);
    assert!(vm.is_mapped(0));
    assert!(!vm.is_mapped(1));
}

#[test]
fn test_mmap_basic() {
    let mut vm = VirtualMemory::new();
    let layout = vm.layout().clone();

    // Allocate 1 page
    let addr = vm.mmap(PAGE_SIZE).unwrap();
    assert_eq!(addr, layout.heap_start);
    assert_eq!(vm.mapped_page_count(), 1);

    // Verify page is mapped
    let vpage = VirtualMemory::vaddr_to_page(addr);
    assert!(vm.is_mapped(vpage));
}

#[test]
fn test_mmap_multiple_pages() {
    let mut vm = VirtualMemory::new();
    let layout = vm.layout().clone();

    // Allocate 3 pages
    let addr = vm.mmap(3 * PAGE_SIZE).unwrap();
    assert_eq!(addr, layout.heap_start);
    assert_eq!(vm.mapped_page_count(), 3);

    // Verify all pages are mapped
    for i in 0..3 {
        let vpage = VirtualMemory::vaddr_to_page(addr + (i * PAGE_SIZE) as u64);
        assert!(vm.is_mapped(vpage));
    }
}

#[test]
fn test_mmap_rounds_up_to_page() {
    let mut vm = VirtualMemory::new();

    // Allocate 1 byte (should round up to 1 page)
    let addr = vm.mmap(1).unwrap();
    assert_eq!(vm.mapped_page_count(), 1);

    // Allocate PAGE_SIZE + 1 bytes (should round up to 2 pages)
    let addr2 = vm.mmap(PAGE_SIZE + 1).unwrap();
    assert_eq!(vm.mapped_page_count(), 3); // 1 + 2 pages
    assert!(addr2 > addr);
}

#[test]
fn test_mmap_zero_size() {
    let mut vm = VirtualMemory::new();

    // Zero-size allocation should return None
    let result = vm.mmap(0);
    assert_eq!(result, None);
    assert_eq!(vm.mapped_page_count(), 0);
}

#[test]
fn test_mmap_sequential_allocations() {
    let mut vm = VirtualMemory::new();
    let layout = vm.layout().clone();

    // First allocation
    let addr1 = vm.mmap(PAGE_SIZE).unwrap();
    assert_eq!(addr1, layout.heap_start);

    // Second allocation should be contiguous
    let addr2 = vm.mmap(PAGE_SIZE).unwrap();
    assert_eq!(addr2, layout.heap_start + PAGE_SIZE as u64);

    // Third allocation
    let addr3 = vm.mmap(2 * PAGE_SIZE).unwrap();
    assert_eq!(addr3, layout.heap_start + (2 * PAGE_SIZE) as u64);

    assert_eq!(vm.mapped_page_count(), 4); // 1 + 1 + 2 pages
}

#[test]
fn test_mmap_out_of_memory() {
    let mut vm = VirtualMemory::new();
    let layout = vm.layout().clone();

    // Try to allocate more than heap size
    let result = vm.mmap(layout.heap_size + PAGE_SIZE);
    assert_eq!(result, None);

    // Allocate maximum heap size
    let addr = vm.mmap(layout.heap_size).unwrap();
    assert_eq!(addr, layout.heap_start);

    // Next allocation should fail
    let result2 = vm.mmap(PAGE_SIZE);
    assert_eq!(result2, None);
}

#[test]
fn test_munmap_basic() {
    let mut vm = VirtualMemory::new();

    // Allocate and then free
    let addr = vm.mmap(PAGE_SIZE).unwrap();
    assert_eq!(vm.mapped_page_count(), 1);

    let result = vm.munmap(addr, PAGE_SIZE);
    assert!(result);
    assert_eq!(vm.mapped_page_count(), 0);

    // Verify page is unmapped
    let vpage = VirtualMemory::vaddr_to_page(addr);
    assert!(!vm.is_mapped(vpage));
}

#[test]
fn test_munmap_multiple_pages() {
    let mut vm = VirtualMemory::new();

    // Allocate 5 pages
    let addr = vm.mmap(5 * PAGE_SIZE).unwrap();
    assert_eq!(vm.mapped_page_count(), 5);

    // Free all 5 pages
    let result = vm.munmap(addr, 5 * PAGE_SIZE);
    assert!(result);
    assert_eq!(vm.mapped_page_count(), 0);

    // Verify all pages are unmapped
    for i in 0..5 {
        let vpage = VirtualMemory::vaddr_to_page(addr + (i * PAGE_SIZE) as u64);
        assert!(!vm.is_mapped(vpage));
    }
}

#[test]
fn test_munmap_partial_range() {
    let mut vm = VirtualMemory::new();

    // Allocate 5 pages
    let addr = vm.mmap(5 * PAGE_SIZE).unwrap();
    assert_eq!(vm.mapped_page_count(), 5);

    // Free middle 3 pages
    let middle_addr = addr + PAGE_SIZE as u64;
    let result = vm.munmap(middle_addr, 3 * PAGE_SIZE);
    assert!(result);
    assert_eq!(vm.mapped_page_count(), 2);

    // First and last pages should still be mapped
    let vpage0 = VirtualMemory::vaddr_to_page(addr);
    let vpage4 = VirtualMemory::vaddr_to_page(addr + (4 * PAGE_SIZE) as u64);
    assert!(vm.is_mapped(vpage0));
    assert!(vm.is_mapped(vpage4));

    // Middle pages should be unmapped
    for i in 1..4 {
        let vpage = VirtualMemory::vaddr_to_page(addr + (i * PAGE_SIZE) as u64);
        assert!(!vm.is_mapped(vpage));
    }
}

#[test]
fn test_munmap_zero_size() {
    let mut vm = VirtualMemory::new();

    // Allocate a page
    let addr = vm.mmap(PAGE_SIZE).unwrap();

    // Zero-size munmap should succeed and do nothing
    let result = vm.munmap(addr, 0);
    assert!(result);
    assert_eq!(vm.mapped_page_count(), 1);
}

#[test]
fn test_munmap_unmapped_fails() {
    let mut vm = VirtualMemory::new();
    let layout = vm.layout().clone();

    // Try to unmap unmapped pages
    let result = vm.munmap(layout.heap_start, PAGE_SIZE);
    assert!(!result); // Should fail
}

#[test]
fn test_munmap_partially_mapped_fails() {
    let mut vm = VirtualMemory::new();

    // Allocate 2 pages
    let addr = vm.mmap(2 * PAGE_SIZE).unwrap();

    // Try to unmap 3 pages (one unmapped)
    let result = vm.munmap(addr, 3 * PAGE_SIZE);
    assert!(!result); // Should fail

    // Original pages should still be mapped (all-or-nothing)
    assert_eq!(vm.mapped_page_count(), 2);
}

#[test]
fn test_is_range_mapped() {
    let mut vm = VirtualMemory::new();

    // Allocate 3 pages
    let addr = vm.mmap(3 * PAGE_SIZE).unwrap();

    // Range should be fully mapped
    assert!(vm.is_range_mapped(addr, 3 * PAGE_SIZE));
    assert!(vm.is_range_mapped(addr, PAGE_SIZE));
    assert!(vm.is_range_mapped(addr + PAGE_SIZE as u64, PAGE_SIZE));

    // Beyond allocation should not be mapped
    assert!(!vm.is_range_mapped(addr, 4 * PAGE_SIZE));
    assert!(!vm.is_range_mapped(addr + (3 * PAGE_SIZE) as u64, PAGE_SIZE));

    // Zero-size range is always "mapped"
    assert!(vm.is_range_mapped(addr, 0));
    assert!(vm.is_range_mapped(0, 0));
}

#[test]
fn test_mmap_munmap_cycle() {
    let mut vm = VirtualMemory::new();

    // Allocate, free, allocate again
    let addr1 = vm.mmap(PAGE_SIZE).unwrap();
    vm.munmap(addr1, PAGE_SIZE);
    let addr2 = vm.mmap(PAGE_SIZE).unwrap();

    // Note: Sequential allocator doesn't reuse freed pages
    // Second allocation comes after first
    assert!(addr2 > addr1);
}
