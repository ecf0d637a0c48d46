use flow_kernel::mem::allocator::bump::BumpAllocator;
use flow_kernel::mem::allocator::linked_list::{LinkedListAllocator, ListNode};
use flow_kernel::mem::allocator::physical_page::PhysicalPageAllocator;
use flow_kernel::mem::allocator::{align_down, align_up, power_of_two, KernelAllocator, Layout};
use flow_kernel::mem::vm::paging::{PhysicalAddress, TablePool, VirtualAddress};
use flow_kernel::mem::{
    check_memory_map, KernelLayout, MemoryKind, MemoryMapEntry, VirtualMemoryManagerInner,
};

const DIRECT_MAP: u64 = 0xffff_8000_0000_0000;

fn layout() -> KernelLayout {
    KernelLayout {
        binary_start: 0xffff_ffff_fc00_0000,
        code_start: 0xffff_ffff_fc00_0000,
        code_end: 0xffff_ffff_fc10_0000,
        data_start: 0xffff_ffff_fc10_0000,
        data_end: 0xffff_ffff_fc18_0000,
        heap_start: 0xffff_ffff_8000_0000,
    }
}

#[test]
fn align_helpers() {
    assert_eq!(align_down(0x1234, 0x1000), 0x1000);
    assert_eq!(align_down(0x1000, 0x1000), 0x1000);
    assert_eq!(align_down(0x1234, 0), 0x1234);
    assert_eq!(align_down(7, 8), 0);
    assert_eq!(align_up(0x1234, 0x1000), 0x2000);
    assert_eq!(align_up(0x1000, 0x1000), 0x1000);
    assert_eq!(align_up(0, 8), 0);
    assert_eq!(align_up(1, 8), 8);
    assert!(power_of_two(1));
    assert!(power_of_two(4096));
    assert!(!power_of_two(0));
    assert!(!power_of_two(12));
}

#[test]
fn layout_checks_its_alignment() {
    assert!(Layout::from_size_align(16, 3).is_none());
    assert!(Layout::from_size_align(16, 0).is_none());
    assert!(Layout::from_size_align(u64::MAX, 8).is_none());
    let layout = Layout::from_size_align(10, 8).unwrap();
    assert_eq!(layout.size(), 10);
    assert_eq!(layout.align(), 8);
    assert_eq!(layout.padded_size(), 16);
}

#[test]
fn list_node_ends() {
    let node = ListNode::new(0x1000, 0x234);
    assert_eq!(node.start_addr(), 0x1000);
    assert_eq!(node.end_addr(), 0x1234);
}

#[test]
fn physical_pages_are_conserved() {
    let mut pages = PhysicalPageAllocator::new(DIRECT_MAP);
    assert!(pages.can_add(PhysicalAddress(0x10_0000), 0x8000));
    pages.add_heap_region(PhysicalAddress(0x10_0000), 0x8000);
    assert!(!pages.can_add(PhysicalAddress(0x10_4000), 0x1000));
    assert!(!pages.can_add(PhysicalAddress(0x20_0800), 0x1000));
    assert!(!pages.can_add(PhysicalAddress(0x20_0000), 8));
    pages.add_heap_region(PhysicalAddress(0x20_0000), 0x2000);
    // the list is searched head first: the region added last comes first
    assert_eq!(pages.allocate(0x1000), Some(PhysicalAddress(0x20_0000)));
    assert_eq!(pages.allocate(0x4000), Some(PhysicalAddress(0x10_0000)));
    // what is left of a carved region goes to the head of the list
    assert_eq!(pages.allocate(0x1000), Some(PhysicalAddress(0x10_4000)));
    assert_eq!(pages.allocate(0x1000), Some(PhysicalAddress(0x10_5000)));
    assert_eq!(pages.allocate(0x4000), None);
    assert_eq!(pages.allocate(0x2000), Some(PhysicalAddress(0x10_6000)));
    assert_eq!(pages.allocate(0x1000), Some(PhysicalAddress(0x20_1000)));
    // 0xa000 bytes added, 0xa000 bytes allocated
    assert_eq!(pages.allocate(0x1000), None);
    assert_eq!(pages.allocate(0), None);
}

#[test]
fn physical_pages_skip_a_region_with_too_small_a_rest() {
    let mut pages = PhysicalPageAllocator::new(DIRECT_MAP);
    pages.add_heap_region(PhysicalAddress(0x10_0000), 0x3000);
    pages.add_heap_region(PhysicalAddress(0x20_0000), 0x1008);
    // the head would keep 8 bytes, too few for a header
    assert_eq!(pages.allocate(0x1000), Some(PhysicalAddress(0x10_0000)));
    assert_eq!(
        PhysicalPageAllocator::alloc_from_region(&ListNode::new(DIRECT_MAP + 0x20_0000, 0x1008), 0x1000),
        Err(())
    );
    assert_eq!(
        PhysicalPageAllocator::alloc_from_region(&ListNode::new(DIRECT_MAP + 0x20_0000, 0x1010), 0x1000),
        Ok(DIRECT_MAP + 0x20_0000)
    );
    // the block starts at the next page boundary and ends with the region
    assert_eq!(
        PhysicalPageAllocator::alloc_from_region(&ListNode::new(DIRECT_MAP + 0x20_0008, 0x1ff8), 0x1000),
        Ok(DIRECT_MAP + 0x20_1000)
    );
    assert_eq!(
        PhysicalPageAllocator::alloc_from_region(&ListNode::new(DIRECT_MAP + 0x20_0008, 0x1ff0), 0x1000),
        Err(())
    );
    assert_eq!(
        pages.direct_map_virt_to_phys(VirtualAddress(DIRECT_MAP + 0x1234)),
        PhysicalAddress(0x1234)
    );
}

#[test]
fn heap_cuts_blocks_and_keeps_the_rest() {
    let mut heap = LinkedListAllocator::new();
    assert!(heap.can_add(0x1_0000, 0x100));
    heap.add_heap_region(0x1_0000, 0x100);
    assert!(!heap.can_add(0x1_0080, 0x100));
    assert!(!heap.can_add(0x2_0004, 0x100));
    let small = Layout::from_size_align(10, 1).unwrap();
    assert_eq!(LinkedListAllocator::size_align(small), (16, 8));
    let wide = Layout::from_size_align(100, 64).unwrap();
    assert_eq!(LinkedListAllocator::size_align(wide), (128, 64));
    assert_eq!(heap.alloc_block(small), Some(0x1_0000));
    assert_eq!(heap.alloc_block(wide), Some(0x1_0040));
    // the bytes before the aligned block are lost, the rest is 0x40 bytes
    assert_eq!(heap.alloc_block(wide), None);
    let rest = Layout::from_size_align(0x40, 8).unwrap();
    assert_eq!(heap.alloc_block(rest), Some(0x1_00c0));
    assert_eq!(heap.alloc_block(small), None);
    heap.dealloc(0x1_0040, wide);
    assert_eq!(heap.alloc_block(small), Some(0x1_0040));
    assert_eq!(heap.alloc_block(small), Some(0x1_0050));
}

#[test]
fn heap_allocate_takes_the_whole_region() {
    let mut heap = LinkedListAllocator::new();
    heap.add_heap_region(0x1_0000, 0x100);
    heap.add_heap_region(0x2_0000, 0x18);
    assert_eq!(heap.allocate(0x20, 0x10), Some(0x1_0000));
    assert_eq!(heap.allocate(0x20, 0x10), None);
    assert_eq!(heap.allocate(0x18, 8), Some(0x2_0000));
    assert_eq!(LinkedListAllocator::alloc_from_region(&ListNode::new(0x1008, 0x100), 0x10, 0x10), Ok(0x1010));
    assert_eq!(LinkedListAllocator::alloc_from_region(&ListNode::new(0x1008, 0x100), 0xf0, 0x10), Err(()));
    assert_eq!(LinkedListAllocator::alloc_from_region(&ListNode::new(0x1000, 0x100), 0x200, 8), Err(()));
}

#[test]
fn bump_allocator_bumps_and_resets() {
    let mut bump = BumpAllocator::new();
    assert!(!bump.is_initialised());
    bump.init(VirtualAddress(0x1000), VirtualAddress(0x2000));
    assert!(bump.is_initialised());
    assert_eq!(bump.used(), 0);
    let a = Layout::from_size_align(0x10, 8).unwrap();
    let b = Layout::from_size_align(0x100, 0x100).unwrap();
    assert_eq!(bump.alloc_block(a), Some(0x1000));
    assert_eq!(bump.alloc_block(b), Some(0x1100));
    assert_eq!(bump.used(), 0x200);
    assert_eq!(bump.get_size(), 0x200);
    let big = Layout::from_size_align(0xe00, 8).unwrap();
    // the block would end at the end of the range: exhausted
    assert_eq!(bump.alloc_block(big), None);
    assert_eq!(bump.used(), 0x200);
    assert_eq!(bump.allocations(), 2);
    bump.dealloc();
    assert_eq!(bump.used(), 0x200);
    bump.dealloc();
    assert_eq!(bump.allocations(), 0);
    assert_eq!(bump.used(), 0);
    assert_eq!(bump.alloc_block(a), Some(0x1000));
}

#[test]
fn facade_serves_from_the_boot_allocator_first() {
    let mut vmm = VirtualMemoryManagerInner::new(DIRECT_MAP, layout());
    let mut heap = KernelAllocator::new();
    assert!(!heap.uses_main_allocator());
    heap.init_boot_allocator(VirtualAddress(DIRECT_MAP + 0x10_0000), VirtualAddress(DIRECT_MAP + 0x11_0000));
    let page = Layout::from_size_align(4096, 4096).unwrap();
    assert_eq!(heap.alloc_block(page, &mut vmm), Some(DIRECT_MAP + 0x10_0000));
    assert_eq!(heap.alloc_block(page, &mut vmm), Some(DIRECT_MAP + 0x10_1000));
    assert_eq!(heap.boot_used(), 0x2000);
    assert!(heap.boot_is_initialised());
    assert!(heap.can_dealloc(DIRECT_MAP + 0x10_1000, page));
    heap.dealloc(DIRECT_MAP + 0x10_1000, page);
    assert_eq!(heap.boot_used(), 0x2000);
    assert!(vmm.switch_to_kernel_heap(&mut heap, 0x1_0000));
    assert!(heap.uses_main_allocator());
    assert!(!vmm.switch_to_kernel_heap(&mut heap, 0x1_0000));
    // the rest of the first 64 KiB of the heap window, from the third page on
    assert_eq!(heap.alloc_block(page, &mut vmm), Some(0xffff_ffff_8000_2000));
}

#[test]
fn heap_growth_via_facade() {
    let mut vmm = VirtualMemoryManagerInner::new(0, layout());
    let entries = vec![
        MemoryMapEntry { base: 0x4000_0000, length: 0x10_0000, kind: MemoryKind::Usable },
    ];
    assert!(check_memory_map(&entries, 0));
    vmm.init_memory_map(&entries);
    let mut pool = TablePool::new(0, 0xffff_ffff_8000_0000);
    assert!(pool.add_page(0x5000_0000));
    let windows = Vec::new();
    assert!(vmm.create_kernel_page_table(&mut pool, &windows, 0).is_ok());

    let mut heap = KernelAllocator::new();
    assert_eq!(heap.use_main_allocator(), 0);
    let block = Layout::from_size_align(16 * 1024, 8).unwrap();
    // the heap is empty: the block comes from one grant of four pages
    assert_eq!(vmm.kernel_alloc_unchecked(0), Some((PhysicalAddress(0x4000_0000), 0)));
    assert_eq!(heap.alloc_block(block, &mut vmm), Some(0x4000_0000));
    // the grant is used up: the same request takes the next four pages
    assert_eq!(heap.alloc_block(block, &mut vmm), Some(0x4000_4000));
    assert_eq!(vmm.kernel_alloc_unchecked(0), Some((PhysicalAddress(0x4000_8000), 0)));

    // a request that leaves room: the next one needs no grant
    let odd = Layout::from_size_align(10 * 1024, 8).unwrap();
    assert_eq!(heap.alloc_block(odd, &mut vmm), Some(0x4000_8000));
    assert_eq!(vmm.kernel_alloc_unchecked(0), Some((PhysicalAddress(0x4000_b000), 0)));
    let little = Layout::from_size_align(1024, 8).unwrap();
    assert_eq!(heap.alloc_block(little, &mut vmm), Some(0x4000_a800));
    assert_eq!(vmm.kernel_alloc_unchecked(0), Some((PhysicalAddress(0x4000_b000), 0)));
}

#[test]
fn facade_fails_when_no_pages_are_left() {
    let mut vmm = VirtualMemoryManagerInner::new(0, layout());
    let mut heap = KernelAllocator::new();
    heap.use_main_allocator();
    let block = Layout::from_size_align(64, 8).unwrap();
    // no kernel table yet: the manager grants nothing
    assert_eq!(heap.alloc_block(block, &mut vmm), None);
    assert!(heap.can_add_heap_region(VirtualAddress(0x1000), 0x40));
    heap.add_heap_region(VirtualAddress(0x1000), 0x40, false);
    assert_eq!(heap.alloc_block(block, &mut vmm), Some(0x1000));
    assert_eq!(heap.alloc_block(block, &mut vmm), None);
    assert!(!heap.boot_is_initialised());
    assert!(heap.can_dealloc(0x1000, block));
    assert!(!heap.can_dealloc(0x1004, block));
    heap.dealloc(0x1000, block);
    assert!(!heap.can_dealloc(0x1000, block));
    assert_eq!(heap.alloc_block(block, &mut vmm), Some(0x1000));
}
