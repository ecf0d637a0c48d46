use flow_kernel::mem::vm::paging::{
    granularity_at_level, is_aligned, Attributes, Descriptor, PhysicalAddress, RawPageTable,
    RootPageTable, TablePool, VaRange, VirtualAddress, VirtualMemoryRegion, ACCESSED,
    ADDRESSABLE_SIZE, EXECUTE_NEVER, NORMAL, READ_ONLY, TABLE_OR_PAGE, USER, VALID,
};
use flow_kernel::mem::vm::MapError;

const DIRECT_MAP: u64 = 0xffff_8000_0000_0000;
const WINDOW_END: u64 = 0xffff_ffff_8000_0000;

fn pool_with(pages: u64) -> TablePool {
    let mut pool = TablePool::new(DIRECT_MAP, WINDOW_END);
    let mut i = 0;
    while i < pages {
        assert!(pool.add_page(DIRECT_MAP + 0x10_0000 + i * 4096));
        i += 1;
    }
    pool
}

fn attrs(bits: u64) -> Attributes {
    Attributes::from_bits(bits).unwrap()
}

#[test]
fn empty_range_map_is_a_no_op() {
    let mut pool = pool_with(8);
    let mut table = RootPageTable::new(0, VaRange::Lower, &mut pool).unwrap();
    let before = pool.available();
    let region = VirtualMemoryRegion::new(0x1000, 0x1000);
    assert!(region.is_empty());
    assert_eq!(table.map_range(&mut pool, &region, PhysicalAddress(0), attrs(NORMAL)), Ok(()));
    assert_eq!(pool.available(), before);
    assert_eq!(table.resolve(VirtualAddress(0x1000), &pool), None);
}

#[test]
fn one_page_map_writes_one_leaf_descriptor() {
    let mut pool = pool_with(8);
    let mut table = RootPageTable::new(0, VaRange::Lower, &mut pool).unwrap();
    let region = VirtualMemoryRegion::new(0x1000, 0x2000);
    let mapped = table.map_range(
        &mut pool,
        &region,
        PhysicalAddress(0x40000),
        attrs(NORMAL | EXECUTE_NEVER),
    );
    assert_eq!(mapped, Ok(()));
    // one table for each of the levels 1, 2 and 3
    assert_eq!(pool.available(), 4);
    let hit = table.resolve(VirtualAddress(0x1000), &pool).unwrap();
    assert_eq!(hit.pa, PhysicalAddress(0x40000));
    assert_eq!(hit.level, 3);
    assert_eq!(hit.attributes, VALID | ACCESSED | TABLE_OR_PAGE | NORMAL | EXECUTE_NEVER);
    assert_eq!(hit.attributes | 0x40000, 0x0060_0000_0004_0707);
    assert_eq!(table.resolve(VirtualAddress(0x1abc), &pool).unwrap().pa, PhysicalAddress(0x40abc));
    assert_eq!(table.resolve(VirtualAddress(0x0), &pool), None);
    assert_eq!(table.resolve(VirtualAddress(0x2000), &pool), None);
}

#[test]
fn one_page_map_in_the_upper_half() {
    let mut pool = pool_with(8);
    let mut table = RootPageTable::new(0, VaRange::Upper, &mut pool).unwrap();
    let low = VirtualMemoryRegion::new(0x1000, 0x2000);
    assert_eq!(
        table.map_range(&mut pool, &low, PhysicalAddress(0x40000), attrs(NORMAL | EXECUTE_NEVER)),
        Err(MapError::AddressRange(VirtualAddress(0x1000)))
    );
    assert_eq!(pool.available(), 7);
    let high = VirtualMemoryRegion::new(0xffff_0000_0000_1000, 0xffff_0000_0000_2000);
    assert_eq!(
        table.map_range(&mut pool, &high, PhysicalAddress(0x40000), attrs(NORMAL | EXECUTE_NEVER)),
        Ok(())
    );
    assert_eq!(pool.available(), 4);
    let hit = table.resolve(VirtualAddress(0xffff_0000_0000_1000), &pool).unwrap();
    assert_eq!(hit.pa, PhysicalAddress(0x40000));
    assert_eq!(hit.attributes, VALID | ACCESSED | TABLE_OR_PAGE | NORMAL | EXECUTE_NEVER);
    assert_eq!(hit.level, 3);
}

#[test]
fn backwards_range_is_refused() {
    let mut pool = pool_with(4);
    let mut table = RootPageTable::new(0, VaRange::Lower, &mut pool).unwrap();
    let region = VirtualMemoryRegion::new(0x2000, 0x1000);
    assert_eq!(
        table.map_range(&mut pool, &region, PhysicalAddress(0), attrs(NORMAL)),
        Err(MapError::RegionBackwards(region))
    );
    assert_eq!(pool.available(), 3);
}

#[test]
fn upper_half_address_is_out_of_range_for_lower() {
    let mut pool = pool_with(4);
    let mut table = RootPageTable::new(0, VaRange::Lower, &mut pool).unwrap();
    let region = VirtualMemoryRegion::new(0xffff_0000_0000_0000, 0xffff_0000_0000_1000);
    assert_eq!(
        table.map_range(&mut pool, &region, PhysicalAddress(0), attrs(NORMAL)),
        Err(MapError::AddressRange(VirtualAddress(0xffff_0000_0000_0000)))
    );
    let beyond = VirtualMemoryRegion::new(0x1000, ADDRESSABLE_SIZE + 0x1000);
    assert_eq!(
        table.map_range(&mut pool, &beyond, PhysicalAddress(0), attrs(NORMAL)),
        Err(MapError::AddressRange(VirtualAddress(ADDRESSABLE_SIZE + 0x1000)))
    );
}

#[test]
fn upper_table_refuses_what_lies_below_its_range() {
    let mut pool = pool_with(4);
    let mut table = RootPageTable::new(0, VaRange::Upper, &mut pool).unwrap();
    let region = VirtualMemoryRegion::new(0xfffe_ffff_ffff_f000, 0xffff_0000_0000_0000);
    assert_eq!(
        table.map_range(&mut pool, &region, PhysicalAddress(0), attrs(NORMAL)),
        Err(MapError::AddressRange(VirtualAddress(0xfffe_ffff_ffff_f000)))
    );
}

#[test]
fn block_split_keeps_the_old_mapping_around_the_new_page() {
    let mut pool = pool_with(16);
    let mut table = RootPageTable::new(0, VaRange::Lower, &mut pool).unwrap();
    let block = VirtualMemoryRegion::new(0x0, 0x4000_0000);
    assert_eq!(
        table.map_range(&mut pool, &block, PhysicalAddress(0x8000_0000), attrs(NORMAL)),
        Ok(())
    );
    // the level-1 table only: the gigabyte is one block
    assert_eq!(pool.available(), 14);
    let whole = table.resolve(VirtualAddress(0x1234_5678), &pool).unwrap();
    assert_eq!(whole.level, 1);
    assert_eq!(whole.pa, PhysicalAddress(0x8000_0000 + 0x1234_5678));
    assert_eq!(whole.attributes, VALID | ACCESSED | NORMAL);

    let page = VirtualMemoryRegion::new(0x1000, 0x2000);
    assert_eq!(
        table.map_range(
            &mut pool,
            &page,
            PhysicalAddress(0x99_9000),
            attrs(NORMAL | EXECUTE_NEVER)
        ),
        Ok(())
    );
    // one level-2 table and one level-3 table
    assert_eq!(pool.available(), 12);

    let inside = table.resolve(VirtualAddress(0x1000), &pool).unwrap();
    assert_eq!(inside.pa, PhysicalAddress(0x99_9000));
    assert_eq!(inside.attributes, VALID | ACCESSED | TABLE_OR_PAGE | NORMAL | EXECUTE_NEVER);
    assert_eq!(inside.level, 3);

    let before = table.resolve(VirtualAddress(0x0), &pool).unwrap();
    assert_eq!(before.pa, PhysicalAddress(0x8000_0000));
    assert_eq!(before.attributes & !TABLE_OR_PAGE, VALID | ACCESSED | NORMAL);
    assert_eq!(before.level, 3);

    let after = table.resolve(VirtualAddress(0x2000), &pool).unwrap();
    assert_eq!(after.pa, PhysicalAddress(0x8000_2000));
    assert_eq!(after.attributes & !TABLE_OR_PAGE, VALID | ACCESSED | NORMAL);

    let same_table = table.resolve(VirtualAddress(0x1f_f000), &pool).unwrap();
    assert_eq!(same_table.pa, PhysicalAddress(0x801f_f000));
    assert_eq!(same_table.level, 3);

    let far = table.resolve(VirtualAddress(0x3fff_f000), &pool).unwrap();
    assert_eq!(far.pa, PhysicalAddress(0x8000_0000 + 0x3fff_f000));
    assert_eq!(far.attributes, VALID | ACCESSED | NORMAL);
    assert_eq!(far.level, 2);

    assert_eq!(table.resolve(VirtualAddress(0x4000_0000), &pool), None);
}

#[test]
fn mapping_the_same_range_twice_changes_nothing() {
    let mut pool = pool_with(16);
    let mut table = RootPageTable::new(0, VaRange::Lower, &mut pool).unwrap();
    let region = VirtualMemoryRegion::new(0x20_0000, 0x60_3000);
    let flags = attrs(NORMAL | READ_ONLY);
    assert_eq!(table.map_range(&mut pool, &region, PhysicalAddress(0x4000_0000), flags), Ok(()));
    let left = pool.available();
    let probes = [0x20_0000u64, 0x3f_f000, 0x40_0000, 0x60_0000, 0x60_2fff, 0x60_3000, 0x1f_f000];
    let first: Vec<_> =
        probes.iter().map(|va| table.resolve(VirtualAddress(*va), &pool)).collect();
    assert_eq!(table.map_range(&mut pool, &region, PhysicalAddress(0x4000_0000), flags), Ok(()));
    let second: Vec<_> =
        probes.iter().map(|va| table.resolve(VirtualAddress(*va), &pool)).collect();
    assert_eq!(first, second);
    assert_eq!(pool.available(), left);
    assert_eq!(first[0].unwrap().level, 2);
    assert_eq!(first[3].unwrap().level, 3);
    assert_eq!(first[3].unwrap().pa, PhysicalAddress(0x4040_0000));
    assert_eq!(first[5], None);
    assert_eq!(first[6], None);
}

#[test]
fn map_range_tells_when_the_pool_runs_dry() {
    let mut pool = pool_with(3);
    let mut table = RootPageTable::new(0, VaRange::Lower, &mut pool).unwrap();
    let region = VirtualMemoryRegion::new(0x1000, 0x2000);
    assert_eq!(
        table.map_range(&mut pool, &region, PhysicalAddress(0x40000), attrs(NORMAL)),
        Err(MapError::OutOfTables)
    );
    assert_eq!(pool.available(), 0);
    assert_eq!(table.resolve(VirtualAddress(0x1000), &pool), None);
    // what was taken comes back when the hierarchy is released
    assert_eq!(table.release(&mut pool), None);
    assert_eq!(pool.available(), 3);
}

#[test]
fn new_root_needs_a_page() {
    let mut pool = pool_with(0);
    assert!(RootPageTable::new(0, VaRange::Upper, &mut pool).is_none());
    let mut pool = pool_with(1);
    let table = RootPageTable::new(7, VaRange::Upper, &mut pool).unwrap();
    assert_eq!(table.to_physical(), PhysicalAddress(0x10_0000));
    assert_eq!(table.va_range(), VaRange::Upper);
    assert_eq!(table.size(), 1 << 48);
    assert!(!table.is_active());
}

#[test]
fn activate_and_deactivate_take_turns() {
    let mut pool = pool_with(2);
    let mut table = RootPageTable::new(3, VaRange::Upper, &mut pool).unwrap();
    let write = table.activate(0xdead_0000);
    assert_eq!(write.register, VaRange::Upper);
    assert_eq!(write.value, 0x10_1000 | (3 << 48));
    assert_eq!(write.invalidate_asid, None);
    assert!(table.is_active());
    let restore = table.deactivate();
    assert_eq!(restore.register, VaRange::Upper);
    assert_eq!(restore.value, 0xdead_0000);
    assert_eq!(restore.invalidate_asid, Some(3 << 48));
    assert!(!table.is_active());
    let again = table.activate(0xbeef_0000);
    assert_eq!(again.value, 0x10_1000 | (3 << 48));
    assert!(table.is_active());
}

#[test]
fn release_restores_a_saved_register_only() {
    let mut pool = pool_with(8);
    let mut idle = RootPageTable::new(0, VaRange::Lower, &mut pool).unwrap();
    let region = VirtualMemoryRegion::new(0x1000, 0x2000);
    assert_eq!(idle.map_range(&mut pool, &region, PhysicalAddress(0x40000), attrs(NORMAL)), Ok(()));
    assert_eq!(pool.available(), 4);
    assert_eq!(idle.release(&mut pool), None);
    assert_eq!(pool.available(), 8);

    let mut active = RootPageTable::new(5, VaRange::Lower, &mut pool).unwrap();
    active.activate(0x1234_0000);
    let restore = active.release(&mut pool).unwrap();
    assert_eq!(restore.register, VaRange::Lower);
    assert_eq!(restore.value, 0x1234_0000);
    assert_eq!(restore.invalidate_asid, Some(5 << 48));
    assert_eq!(pool.available(), 8);

    let mut forgotten = RootPageTable::new(0, VaRange::Upper, &mut pool).unwrap();
    forgotten.activate(0x1234_0000);
    forgotten.invalidate_previous_ttbr();
    assert_eq!(forgotten.release(&mut pool), None);
}

#[test]
fn region_rounds_to_pages() {
    let region = VirtualMemoryRegion::new(0x1234, 0x5678);
    assert_eq!(region.start(), VirtualAddress(0x1000));
    assert_eq!(region.end(), VirtualAddress(0x6000));
    assert_eq!(region.len(), 0x5000);
    assert!(!region.is_empty());
    let exact = VirtualMemoryRegion::new(0x2000, 0x3000);
    assert_eq!(exact.start(), VirtualAddress(0x2000));
    assert_eq!(exact.end(), VirtualAddress(0x3000));
    assert_eq!(exact.len(), 0x1000);
    let top = VirtualMemoryRegion::new(0xffff_ffff_ffff_e001, 0xffff_ffff_ffff_f000);
    assert_eq!(top.start(), VirtualAddress(0xffff_ffff_ffff_e000));
    assert_eq!(top.end(), VirtualAddress(0xffff_ffff_ffff_f000));
}

#[test]
fn granularity_of_each_level() {
    assert_eq!(granularity_at_level(3), 4096);
    assert_eq!(granularity_at_level(2), 2 * 1024 * 1024);
    assert_eq!(granularity_at_level(1), 1024 * 1024 * 1024);
    assert_eq!(granularity_at_level(0), 512 * 1024 * 1024 * 1024);
    assert!(is_aligned(0x20_0000, granularity_at_level(2)));
    assert!(!is_aligned(0x20_1000, granularity_at_level(2)));
}

#[test]
fn descriptor_fields() {
    let mut word = Descriptor(0);
    assert!(!word.is_valid());
    assert_eq!(word.output_address(), None);
    assert_eq!(word.flags(), None);
    assert!(!word.is_table_or_page());
    word.set(PhysicalAddress(0x1234_5000), attrs(NORMAL | USER));
    assert_eq!(word, Descriptor(0x1234_5000 | NORMAL | USER | VALID));
    assert!(word.is_valid());
    assert_eq!(word.output_address(), Some(PhysicalAddress(0x1234_5000)));
    assert_eq!(word.flags().unwrap().bits(), NORMAL | USER | VALID);
    assert!(!word.is_table_or_page());
    assert!(!word.points_to_subtable(1));
    word.set(PhysicalAddress(0x7000), attrs(TABLE_OR_PAGE));
    assert!(word.is_table_or_page());
    assert!(word.points_to_subtable(2));
    assert!(!word.points_to_subtable(3));
    // a bit without a meaning hides the attributes
    assert_eq!(Descriptor(VALID | 0x8).flags(), None);
}

#[test]
fn attributes_know_their_bits() {
    assert!(Attributes::from_bits(0x8).is_none());
    assert_eq!(Attributes::from_bits_truncate(0x8 | NORMAL).bits(), NORMAL);
    assert_eq!(Attributes::empty().bits(), 0);
    let both = attrs(NORMAL).union(attrs(EXECUTE_NEVER));
    assert_eq!(both.bits(), NORMAL | EXECUTE_NEVER);
    assert!(both.contains(attrs(NORMAL)));
    assert!(!both.contains(attrs(READ_ONLY)));
    assert_eq!(EXECUTE_NEVER, 3 << 53);
    assert_eq!(NORMAL, 1 << 2 | 3 << 8);
}

#[test]
fn pool_takes_only_pages_of_the_window() {
    let mut pool = TablePool::new(DIRECT_MAP, WINDOW_END);
    assert!(!pool.add_page(0x1000));
    assert!(!pool.add_page(DIRECT_MAP + 0x800));
    assert!(!pool.add_page(WINDOW_END));
    assert!(pool.add_page(DIRECT_MAP + 0x3000));
    assert!(pool.add_page(DIRECT_MAP + 0x5000));
    assert_eq!(pool.available(), 2);
    assert_eq!(pool.take(), Some(DIRECT_MAP + 0x5000));
    assert_eq!(pool.take(), Some(DIRECT_MAP + 0x3000));
    assert_eq!(pool.take(), None);
    let raw = RawPageTable::new(DIRECT_MAP + 0x3000);
    assert_eq!(raw.get_physical_base(DIRECT_MAP, WINDOW_END), PhysicalAddress(0x3000));
}

#[test]
fn addresses_add_and_subtract() {
    assert_eq!(VirtualAddress(0x1000).add(0x234), VirtualAddress(0x1234));
    assert_eq!(VirtualAddress(0x1234).sub(0x234), VirtualAddress(0x1000));
    assert_eq!(VirtualAddress(0x1234).distance_from(VirtualAddress(0x1000)), 0x234);
    assert_eq!(PhysicalAddress(0x1000).add(0x234), PhysicalAddress(0x1234));
    assert_eq!(PhysicalAddress(0x1234).sub(0x234), PhysicalAddress(0x1000));
    assert_eq!(PhysicalAddress(0x1234).distance_from(PhysicalAddress(0x1000)), 0x234);
}

#[test]
fn images_hold_what_the_hardware_walks() {
    let mut pool = pool_with(8);
    let mut table = RootPageTable::new(0, VaRange::Lower, &mut pool).unwrap();
    let region = VirtualMemoryRegion::new(0x4020_3000, 0x4020_5000);
    assert_eq!(
        table.map_range(&mut pool, &region, PhysicalAddress(0x7000_0000), attrs(NORMAL)),
        Ok(())
    );
    let images = table.images(&pool);
    assert_eq!(images.len(), 4);
    assert_eq!(images[0].address, DIRECT_MAP + table.to_physical().0);
    assert!(images.iter().all(|image| image.words.len() == 512));
    // walk by the descriptors alone, from the level-0 table down
    let va: u64 = 0x4020_4abc;
    let mut page = images[0].address;
    let mut level = 0;
    let leaf = loop {
        let image = images.iter().find(|image| image.address == page).unwrap();
        let index = ((va >> (12 + 9 * (3 - level))) % 512) as usize;
        let word = image.words[index];
        assert!(word.is_valid());
        if level == 3 {
            break word;
        }
        assert!(word.points_to_subtable(level));
        page = DIRECT_MAP + word.output_address().unwrap().0;
        level += 1;
    };
    assert_eq!(leaf.output_address(), Some(PhysicalAddress(0x7000_1000)));
    let walked = table.resolve(VirtualAddress(va), &pool).unwrap();
    assert_eq!(walked.pa, PhysicalAddress(0x7000_1abc));
    assert_eq!(walked.attributes, leaf.0 & 0xffff_0000_0000_0fff);
    // every other descriptor of the leaf table but the two pages is invalid
    let last = images.iter().find(|image| image.address == page).unwrap();
    assert_eq!(last.words.iter().filter(|word| word.is_valid()).count(), 2);
}

#[test]
fn finer_flags_split_a_two_megabyte_block() {
    let mut pool = pool_with(8);
    let mut table = RootPageTable::new(0, VaRange::Upper, &mut pool).unwrap();
    let base: u64 = 0xffff_ffff_fc00_0000;
    let block = VirtualMemoryRegion::new(base, base + 0x20_0000);
    assert_eq!(
        table.map_range(&mut pool, &block, PhysicalAddress(0x4020_0000), attrs(NORMAL)),
        Ok(())
    );
    assert_eq!(table.resolve(VirtualAddress(base + 0x5000), &pool).unwrap().level, 2);
    let code = VirtualMemoryRegion::new(base + 0x4000, base + 0x8000);
    assert_eq!(
        table.map_range(
            &mut pool,
            &code,
            PhysicalAddress(0x4020_4000),
            attrs(NORMAL | READ_ONLY)
        ),
        Ok(())
    );
    let mut offset = 0;
    while offset < 0x20_0000 {
        let hit = table.resolve(VirtualAddress(base + offset), &pool).unwrap();
        assert_eq!(hit.pa, PhysicalAddress(0x4020_0000 + offset));
        assert_eq!(hit.level, 3);
        let expected = if (0x4000..0x8000).contains(&offset) {
            VALID | ACCESSED | NORMAL | READ_ONLY
        } else {
            VALID | ACCESSED | NORMAL
        };
        assert_eq!(hit.attributes & !TABLE_OR_PAGE, expected);
        offset += 0x1000;
    }
    assert_eq!(table.resolve(VirtualAddress(base + 0x20_0000), &pool), None);
    assert_eq!(table.resolve(VirtualAddress(base - 0x1000), &pool), None);
}
