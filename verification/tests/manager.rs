use flow_kernel::mem::vm::paging::{
    PhysicalAddress, TablePool, VaRange, VirtualAddress, VirtualMemoryRegion, ACCESSED,
    DEVICE_NGNRNE, EXECUTE_NEVER, NORMAL, READ_ONLY, TABLE_OR_PAGE, VALID,
};
use flow_kernel::mem::vm::MapError;
use flow_kernel::mem::{
    bootstrap_translation_control, check_memory_map, check_window, kernel_translation_control,
    KernelLayout, KernelWindow, MemoryKind, MemoryManager, MemoryMapEntry, MemoryMapResult,
    TranslationControl, VirtualMemoryManager, VirtualMemoryManagerInner, INITIAL_ALLOC_SIZE,
};
use flow_kernel::sync::{IRQSafeNullLock, InitStateLock, Mutex, NullLock, OnceCell, ReadWriteEx};
use flow_kernel::util::{div_ceil, size_human_readable_ceil};

const DIRECT_MAP: u64 = 0xffff_8000_0000_0000;

fn layout() -> KernelLayout {
    KernelLayout {
        binary_start: 0xffff_ffff_fc00_0000,
        code_start: 0xffff_ffff_fc00_0000,
        code_end: 0xffff_ffff_fc00_3000,
        data_start: 0xffff_ffff_fc00_3000,
        data_end: 0xffff_ffff_fc00_5000,
        heap_start: 0xffff_ffff_8000_0000,
    }
}

fn entries() -> Vec<MemoryMapEntry> {
    vec![
        MemoryMapEntry { base: 0x0, length: 0x1000, kind: MemoryKind::Other },
        MemoryMapEntry { base: 0x4000_0000, length: 0x20_0000, kind: MemoryKind::Usable },
        MemoryMapEntry { base: 0x4020_0000, length: 0x10_0000, kind: MemoryKind::KernelAndModules },
        MemoryMapEntry { base: 0x4030_0000, length: 0x10_0000, kind: MemoryKind::Usable },
    ]
}

#[test]
fn memory_map_is_checked() {
    assert!(check_memory_map(&entries(), DIRECT_MAP));
    assert!(check_memory_map(&Vec::new(), DIRECT_MAP));
    let mut overlapping = entries();
    overlapping[2].base = 0x4010_0000;
    assert!(!check_memory_map(&overlapping, DIRECT_MAP));
    let mut unaligned = entries();
    unaligned[1].base = 0x4000_0800;
    assert!(!check_memory_map(&unaligned, DIRECT_MAP));
    let mut tiny = entries();
    tiny[3].length = 8;
    assert!(!check_memory_map(&tiny, DIRECT_MAP));
    let mut huge = entries();
    huge[3].length = 0x8000_0000_0000;
    assert!(!check_memory_map(&huge, DIRECT_MAP));
}

#[test]
fn memory_map_seeds_the_page_allocator() {
    let mut vmm = VirtualMemoryManagerInner::new(DIRECT_MAP, layout());
    assert_eq!(vmm.direct_map_virt_offset(), DIRECT_MAP);
    let result = vmm.init_memory_map(&entries());
    assert_eq!(result.highest_physical_address, PhysicalAddress(0x4040_0000));
    assert_eq!(result.kernel_physical_address, PhysicalAddress(0x4020_0000));
    assert!(vmm.supports_physical_memory(result));
    assert!(!vmm.supports_physical_memory(MemoryMapResult {
        highest_physical_address: PhysicalAddress(0x7fff_fc00_0001),
        kernel_physical_address: PhysicalAddress(0),
    }));
    // before the kernel's own table exists, only the unchecked path serves
    assert_eq!(vmm.kernel_alloc(0x1000), None);
    assert!(vmm.kernel_page_table().is_none());
    // the usable entry that came last is at the head of the list
    assert_eq!(
        vmm.kernel_alloc_unchecked(INITIAL_ALLOC_SIZE),
        Some((PhysicalAddress(0x4030_0000), 0x1_0000))
    );
    assert_eq!(vmm.kernel_alloc_unchecked(1), Some((PhysicalAddress(0x4031_0000), 0x1000)));
    assert_eq!(vmm.kernel_alloc_unchecked(0x20_0000), Some((PhysicalAddress(0x4000_0000), 0x20_0000)));
    assert_eq!(vmm.kernel_alloc_unchecked(0x10_0000), None);
    assert_eq!(vmm.kernel_alloc_unchecked(u64::MAX), None);
}

#[test]
fn kernel_windows_follow_the_layout() {
    let vmm = VirtualMemoryManagerInner::new(DIRECT_MAP, layout());
    let map = MemoryMapResult {
        highest_physical_address: PhysicalAddress(0x4040_0000),
        kernel_physical_address: PhysicalAddress(0x4020_0000),
    };
    let windows = vmm.kernel_windows(map, PhysicalAddress(0x4030_0000), 0x1_0000).unwrap();
    assert_eq!(
        windows,
        vec![
            KernelWindow {
                region: VirtualMemoryRegion::new(DIRECT_MAP, DIRECT_MAP + 0x4040_0000),
                pa: PhysicalAddress(0),
                flags: DEVICE_NGNRNE | EXECUTE_NEVER,
            },
            KernelWindow {
                region: VirtualMemoryRegion::new(0xffff_ffff_fc00_0000, 0xffff_ffff_fc00_3000),
                pa: PhysicalAddress(0x4020_0000),
                flags: NORMAL | READ_ONLY,
            },
            KernelWindow {
                region: VirtualMemoryRegion::new(0xffff_ffff_fc00_3000, 0xffff_ffff_fc00_5000),
                pa: PhysicalAddress(0x4020_3000),
                flags: NORMAL | EXECUTE_NEVER,
            },
            KernelWindow {
                region: VirtualMemoryRegion::new(0xffff_ffff_8000_0000, 0xffff_ffff_8001_0000),
                pa: PhysicalAddress(0x4030_0000),
                flags: NORMAL | EXECUTE_NEVER,
            },
        ]
    );
    assert!(windows.iter().all(check_window));
    assert!(vmm.kernel_windows(map, PhysicalAddress(0), u64::MAX).is_none());
    assert!(!check_window(&KernelWindow {
        region: VirtualMemoryRegion::new(0x1000, 0x3000),
        pa: PhysicalAddress(u64::MAX - 0x1000),
        flags: NORMAL,
    }));
}

fn pool_with(pages: u64) -> TablePool {
    let mut pool = TablePool::new(DIRECT_MAP, 0xffff_ffff_8000_0000);
    let mut i = 0;
    while i < pages {
        assert!(pool.add_page(DIRECT_MAP + 0x4030_0000 + i * 4096));
        i += 1;
    }
    pool
}

#[test]
fn bootstrap_table_holds_the_kernel_mappings() {
    let mut vmm = VirtualMemoryManagerInner::new(DIRECT_MAP, layout());
    let map = vmm.init_memory_map(&entries());
    let windows = vmm.kernel_windows(map, PhysicalAddress(0x4030_0000), 0x1_0000).unwrap();
    let mut pool = pool_with(16);
    let (table, write, control) =
        vmm.bootstrap_kernel_page_table(&mut pool, &windows, 0xb007_0000).unwrap();
    assert_eq!(control, TranslationControl { region_size_offset: 16, ttbr0_walks: true });
    assert_eq!(control, bootstrap_translation_control());
    assert_eq!(write.register, VaRange::Upper);
    assert_eq!(write.value, table.to_physical().0);
    assert_eq!(write.invalidate_asid, None);
    // the boot loader's value is forgotten: a release restores nothing
    assert!(!table.is_active());

    let direct = table.resolve(VirtualAddress(DIRECT_MAP + 0x1234_5678), &pool).unwrap();
    assert_eq!(direct.pa, PhysicalAddress(0x1234_5678));
    assert_eq!(direct.attributes & !TABLE_OR_PAGE, VALID | ACCESSED | DEVICE_NGNRNE | EXECUTE_NEVER);
    assert_eq!(table.resolve(VirtualAddress(DIRECT_MAP + 0x4040_0000), &pool), None);
    let code = table.resolve(VirtualAddress(0xffff_ffff_fc00_2abc), &pool).unwrap();
    assert_eq!(code.pa, PhysicalAddress(0x4020_2abc));
    assert_eq!(code.attributes, VALID | ACCESSED | TABLE_OR_PAGE | NORMAL | READ_ONLY);
    let data = table.resolve(VirtualAddress(0xffff_ffff_fc00_4000), &pool).unwrap();
    assert_eq!(data.pa, PhysicalAddress(0x4020_4000));
    assert_eq!(data.attributes, VALID | ACCESSED | TABLE_OR_PAGE | NORMAL | EXECUTE_NEVER);
    let heap = table.resolve(VirtualAddress(0xffff_ffff_8000_f000), &pool).unwrap();
    assert_eq!(heap.pa, PhysicalAddress(0x4030_f000));
    assert_eq!(table.resolve(VirtualAddress(0xffff_ffff_8001_0000), &pool), None);

    let used = 16 - pool.available();
    assert_eq!(table.release(&mut pool), None);
    assert_eq!(pool.available(), 16);
    assert!(used >= 4);
}

#[test]
fn kernel_table_is_kept_and_stays_active() {
    let mut vmm = VirtualMemoryManagerInner::new(DIRECT_MAP, layout());
    let map = vmm.init_memory_map(&entries());
    let windows = vmm.kernel_windows(map, PhysicalAddress(0x4030_0000), 0x1_0000).unwrap();
    let mut empty = pool_with(0);
    assert_eq!(
        vmm.create_kernel_page_table(&mut empty, &windows, 0xb007_0000),
        Err(MapError::OutOfTables)
    );
    let mut short = pool_with(2);
    assert_eq!(
        vmm.create_kernel_page_table(&mut short, &windows, 0xb007_0000),
        Err(MapError::OutOfTables)
    );
    // every page is back in the pool
    assert_eq!(short.available(), 2);
    assert!(vmm.kernel_page_table().is_none());

    let mut pool = pool_with(16);
    let (write, control) = vmm.create_kernel_page_table(&mut pool, &windows, 0xb007_0000).unwrap();
    assert_eq!(control, kernel_translation_control());
    assert!(!control.ttbr0_walks);
    let table = vmm.kernel_page_table().unwrap();
    assert!(table.is_active());
    assert_eq!(write.value, table.to_physical().0);
    // from now on the checked path serves, in direct-map addresses
    assert_eq!(
        vmm.kernel_alloc(0x1800),
        Some((VirtualAddress(DIRECT_MAP + 0x4030_0000), 0x2000))
    );
}

#[test]
fn manager_behind_its_lock() {
    let mut manager = VirtualMemoryManager::new(DIRECT_MAP, layout());
    assert_eq!(manager.kernel_alloc(0x1000), None);
    let mut inner = manager.into_inner();
    inner.init_memory_map(&entries());
    let mut pool = pool_with(1);
    assert!(inner.create_kernel_page_table(&mut pool, &Vec::new(), 0).is_ok());
    let mut manager = VirtualMemoryManager::from_inner(inner);
    assert_eq!(manager.kernel_alloc(1), Some((VirtualAddress(DIRECT_MAP + 0x4030_0000), 0x1000)));
}

#[test]
fn locks_hand_out_their_value() {
    let mut lock = IRQSafeNullLock::new(5u32);
    *lock.lock() += 1;
    assert_eq!(*lock.read(), 6);
    *lock.write() = 9;
    assert_eq!(lock.into_inner(), 9);
    let mut plain = NullLock::new(1u8);
    *plain.lock() = 2;
    assert_eq!(*plain.read(), 2);
    *plain.write() = 3;
    assert_eq!(plain.into_inner(), 3);
    let mut state = InitStateLock::new(10u64);
    assert!(!state.is_sealed());
    *state.write() = 11;
    state.seal();
    assert!(state.is_sealed());
    assert_eq!(*state.read(), 11);
}

#[test]
fn once_cell_is_set_once() {
    let mut cell: OnceCell<u32> = OnceCell::new();
    assert!(!cell.is_set());
    assert_eq!(cell.get(), None);
    cell.set(4);
    assert!(cell.is_set());
    assert_eq!(cell.get(), Some(&4));
}

#[test]
fn sizes_for_people() {
    assert_eq!(size_human_readable_ceil(0), (0, "Byte"));
    assert_eq!(size_human_readable_ceil(1023), (1023, "Byte"));
    assert_eq!(size_human_readable_ceil(1024), (1, "KiB"));
    assert_eq!(size_human_readable_ceil(1025), (2, "KiB"));
    assert_eq!(size_human_readable_ceil(5 * 1024 * 1024), (5, "MiB"));
    assert_eq!(size_human_readable_ceil(5 * 1024 * 1024 + 1), (6, "MiB"));
    assert_eq!(size_human_readable_ceil(3 << 30), (3, "GiB"));
    assert_eq!(size_human_readable_ceil(0x7fff_8000_0000), (128, "TiB"));
    assert_eq!(size_human_readable_ceil(u64::MAX), (1 << 24, "TiB"));
    assert_eq!(div_ceil(10, 4), 3);
    assert_eq!(div_ceil(8, 4), 2);
}
