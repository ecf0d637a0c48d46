//! Laws of mapping: what holds of a hierarchy after a range has been mapped
//! into it.

use vstd::prelude::*;

use crate::mem::allocator::{floor_to, is_aligned_to};
use crate::mem::vm::paging::{
    chunk_last, empty_table, spec_check_range, spec_granularity, spec_index, spec_is_block,
    spec_map_chunk, spec_map_range, spec_resolve, spec_root_map, table_count, table_count_slots,
    Descriptor, MapOutcome,
    RootOutcome, TableModel, VaRange, VirtualMemoryRegion, ACCESSED, ADDRESSABLE_SIZE,
    ALL_ATTRIBUTES, ATTRIBUTE_FIELD_MASK, LEAF_LEVEL, OUTPUT_ADDRESS_MASK, TABLE_OR_PAGE, VALID,
};

verus! {

/// Whether `first` and `last` are translated by the same table at `level`:
/// they lie in the same stretch of 512 entries.
pub open spec fn same_span(first: u64, last: u64, level: usize) -> bool {
    (first / spec_granularity(level)) / 512 == (last / spec_granularity(level)) / 512
}

/// The table has 512 slots.
pub open spec fn has_shape(table: TableModel) -> bool {
    table.words.len() == 512 && table.subtables.len() == 512
}

/// The table and every table below it have 512 slots.
pub open spec fn well_shaped(table: TableModel, level: usize) -> bool
    decreases LEAF_LEVEL - level,
{
    &&& has_shape(table)
    &&& level < LEAF_LEVEL ==> forall|i: int|
        0 <= i < 512 && (#[trigger] table.subtables[i]) is Some ==> well_shaped(
            table.subtables[i]->0,
            (level + 1) as usize,
        )
}

/// How the entries of a level lie in the address space: the entry that
/// holds `a` ends at `a` with its low bits set; the next address, if there
/// is one, lies in the next entry; an entry of this level is a whole table
/// of the level below.
pub proof fn lemma_entry_facts(a: u64, level: usize)
    requires
        level <= LEAF_LEVEL,
    ensures
        ({
            let g = spec_granularity(level);
            let end = a | ((g - 1) as u64);
            &&& end >= a
            &&& end / g == a / g
            &&& floor_to(a, g) / g == a / g
            &&& floor_to(a, g) <= a
            &&& end < u64::MAX ==> (end + 1) / (g as int) == a / g + 1
            &&& level < LEAF_LEVEL ==> forall|x: u64|
                (#[trigger] (x / g) == a / g) ==> (x / spec_granularity((level + 1) as usize)) / 512
                    == a / g
        }),
{
    let g = spec_granularity(level);
    if level == 0 {
        let m: u64 = 0x7f_ffff_ffff;
        assert((a | m) >= a && (a | m) / 0x80_0000_0000 == a / 0x80_0000_0000 && (a & !m)
            / 0x80_0000_0000 == a / 0x80_0000_0000 && (a & !m) <= a) by (bit_vector)
            requires
                m == 0x7f_ffff_ffffu64,
        ;
        let end = a | m;
        if end < u64::MAX {
            let next = (end + 1) as u64;
            assert(next / 0x80_0000_0000 == a / 0x80_0000_0000 + 1) by (bit_vector)
                requires
                    next == (a | 0x7f_ffff_ffffu64) + 1,
                    (a | 0x7f_ffff_ffffu64) < 0xffff_ffff_ffff_ffffu64,
            ;
        }
        assert forall|x: u64| (#[trigger] (x / g) == a / g) implies (x / spec_granularity(
            1,
        )) / 512 == a / g by {
            assert((x / 0x4000_0000) / 512 == x / 0x80_0000_0000) by (bit_vector);
        }
    } else if level == 1 {
        let m: u64 = 0x3fff_ffff;
        assert((a | m) >= a && (a | m) / 0x4000_0000 == a / 0x4000_0000 && (a & !m) / 0x4000_0000
            == a / 0x4000_0000 && (a & !m) <= a) by (bit_vector)
            requires
                m == 0x3fff_ffffu64,
        ;
        let end = a | m;
        if end < u64::MAX {
            let next = (end + 1) as u64;
            assert(next / 0x4000_0000 == a / 0x4000_0000 + 1) by (bit_vector)
                requires
                    next == (a | 0x3fff_ffffu64) + 1,
                    (a | 0x3fff_ffffu64) < 0xffff_ffff_ffff_ffffu64,
            ;
        }
        assert forall|x: u64| (#[trigger] (x / g) == a / g) implies (x / spec_granularity(
            2,
        )) / 512 == a / g by {
            assert((x / 0x20_0000) / 512 == x / 0x4000_0000) by (bit_vector);
        }
    } else if level == 2 {
        let m: u64 = 0x1f_ffff;
        assert((a | m) >= a && (a | m) / 0x20_0000 == a / 0x20_0000 && (a & !m) / 0x20_0000 == a
            / 0x20_0000 && (a & !m) <= a) by (bit_vector)
            requires
                m == 0x1f_ffffu64,
        ;
        let end = a | m;
        if end < u64::MAX {
            let next = (end + 1) as u64;
            assert(next / 0x20_0000 == a / 0x20_0000 + 1) by (bit_vector)
                requires
                    next == (a | 0x1f_ffffu64) + 1,
                    (a | 0x1f_ffffu64) < 0xffff_ffff_ffff_ffffu64,
            ;
        }
        assert forall|x: u64| (#[trigger] (x / g) == a / g) implies (x / spec_granularity(
            3,
        )) / 512 == a / g by {
            assert((x / 0x1000) / 512 == x / 0x20_0000) by (bit_vector);
        }
    } else {
        let m: u64 = 0xfff;
        assert((a | m) >= a && (a | m) / 0x1000 == a / 0x1000 && (a & !m) / 0x1000 == a / 0x1000
            && (a & !m) <= a) by (bit_vector)
            requires
                m == 0xfffu64,
        ;
        let end = a | m;
        if end < u64::MAX {
            let next = (end + 1) as u64;
            assert(next / 0x1000 == a / 0x1000 + 1) by (bit_vector)
                requires
                    next == (a | 0xfffu64) + 1,
                    (a | 0xfffu64) < 0xffff_ffff_ffff_ffffu64,
            ;
        }
    }
}

/// Mapping a chunk keeps the shape of the table and touches no slot but
/// the one that translates the chunk.
pub proof fn lemma_chunk_frame(
    table: TableModel,
    level: usize,
    pool: Seq<u64>,
    direct_map_offset: u64,
    first: u64,
    last: u64,
    pa: u64,
    flags: u64,
)
    requires
        level <= LEAF_LEVEL,
        has_shape(table),
    ensures
        ({
            let r = spec_map_chunk(table, level, pool, direct_map_offset, first, last, pa, flags);
            &&& has_shape(r.table)
            &&& forall|j: int|
                0 <= j < 512 && j != spec_index(first, level) ==> r.table.words[j]
                    == table.words[j] && r.table.subtables[j] == table.subtables[j]
        }),
{
}

/// Mapping a range keeps the shape of the table and touches no slot before
/// the one that translates the start of the range.
pub proof fn lemma_range_frame(
    table: TableModel,
    level: usize,
    pool: Seq<u64>,
    direct_map_offset: u64,
    first: u64,
    last: u64,
    pa: u64,
    flags: u64,
)
    requires
        level <= LEAF_LEVEL,
        has_shape(table),
        first <= last,
        same_span(first, last, level),
    ensures
        ({
            let r = spec_map_range(table, level, pool, direct_map_offset, first, last, pa, flags);
            &&& has_shape(r.table)
            &&& forall|j: int|
                0 <= j < spec_index(first, level) ==> r.table.words[j] == table.words[j]
                    && r.table.subtables[j] == table.subtables[j]
        }),
    decreases last - first,
{
    let g = spec_granularity(level);
    let stop = chunk_last(first, last, g);
    lemma_entry_facts(first, level);
    let step = spec_map_chunk(table, level, pool, direct_map_offset, first, stop, pa, flags);
    lemma_chunk_frame(table, level, pool, direct_map_offset, first, stop, pa, flags);
    if step.done && stop < last {
        let next = (stop + 1) as u64;
        let next_pa = (pa + (stop - first) + 1) as u64;
        assert(same_span(next, last, level));
        lemma_range_frame(step.table, level, step.pool, direct_map_offset, next, last, next_pa, flags);
        assert(spec_index(next, level) == spec_index(first, level) + 1);
    }
}

/// A block that is written without the table bit in its attributes is not
/// taken for a table pointer.
pub proof fn lemma_block_is_no_table(pa: u64, flags: u64, level: usize)
    requires
        level <= LEAF_LEVEL,
        is_aligned_to(pa, spec_granularity(level)),
        flags & TABLE_OR_PAGE == 0,
    ensures
        !Descriptor::spec_set(pa, flags | ACCESSED).spec_is_table_or_page(),
{
    let g = spec_granularity(level);
    let mask = (g - 1) as u64;
    let word = pa | ((flags | 0x400) | 0x1);
    assert(pa & mask == 0 && (mask == 0xfff || mask == 0x1f_ffff || mask == 0x3fff_ffff || mask
        == 0x7f_ffff_ffff) && flags & 0x2 == 0 && word == pa | ((flags | 0x400) | 0x1) ==> (word
        & 0xffff_0000_0000_0fffu64) & 0x2 != 0x2) by (bit_vector);
}

/// Mapping a chunk a second time, with the same addresses and attributes,
/// changes nothing and takes no page from the pool, whatever the pool holds
/// by then. The attributes must not hold the table bit.
pub proof fn lemma_chunk_twice(
    table: TableModel,
    level: usize,
    pool: Seq<u64>,
    later_pool: Seq<u64>,
    direct_map_offset: u64,
    first: u64,
    last: u64,
    pa: u64,
    flags: u64,
)
    requires
        level <= LEAF_LEVEL,
        first <= last,
        last <= first | ((spec_granularity(level) - 1) as u64),
        flags & TABLE_OR_PAGE == 0,
        spec_map_chunk(table, level, pool, direct_map_offset, first, last, pa, flags).done,
        well_shaped(table, level),
    ensures
        spec_map_chunk(
            spec_map_chunk(table, level, pool, direct_map_offset, first, last, pa, flags).table,
            level,
            later_pool,
            direct_map_offset,
            first,
            last,
            pa,
            flags,
        ) == (MapOutcome {
            table: spec_map_chunk(
                table,
                level,
                pool,
                direct_map_offset,
                first,
                last,
                pa,
                flags,
            ).table,
            pool: later_pool,
            done: true,
        }),
    decreases LEAF_LEVEL - level, last - first, 0int,
{
    let g = spec_granularity(level);
    let index = spec_index(first, level);
    let word = table.words[index];
    let once = spec_map_chunk(table, level, pool, direct_map_offset, first, last, pa, flags);
    let twice = spec_map_chunk(
        once.table,
        level,
        later_pool,
        direct_map_offset,
        first,
        last,
        pa,
        flags,
    );
    lemma_entry_facts(first, level);
    if level >= LEAF_LEVEL {
        assert(twice.table.words =~= once.table.words);
    } else if table.subtables[index] is Some {
        let child = table.subtables[index]->0;
        assert(same_span(first, last, (level + 1) as usize)) by {
            assert(first / g == first / g);
            assert(last / g == first / g);
        }
        lemma_range_twice(
            child,
            (level + 1) as usize,
            pool,
            later_pool,
            direct_map_offset,
            first,
            last,
            pa,
            flags,
        );
        assert(twice.table.words =~= once.table.words);
        assert(twice.table.subtables =~= once.table.subtables);
    } else if spec_is_block(first, last, g) && !word.spec_is_table_or_page() && is_aligned_to(
        pa,
        g,
    ) {
        lemma_block_is_no_table(pa, flags, level);
        assert(twice.table.words =~= once.table.words);
    } else if pool.len() == 0 {
    } else {
        let page = pool.last();
        let fresh = crate::mem::vm::paging::empty_table((level + 1) as usize, page);
        let split = if word.spec_flags() is Some {
            spec_map_range(
                fresh,
                (level + 1) as usize,
                pool.drop_last(),
                direct_map_offset,
                floor_to(first, g),
                first | ((g - 1) as u64),
                word.spec_output_address()->0,
                word.spec_flags()->0,
            )
        } else {
            MapOutcome { table: fresh, pool: pool.drop_last(), done: true }
        };
        assert(well_shaped(fresh, (level + 1) as usize));
        if word.spec_flags() is Some {
            assert(same_span(floor_to(first, g), first | ((g - 1) as u64), (level + 1) as usize))
                by {
                assert(floor_to(first, g) / g == first / g);
                assert((first | ((g - 1) as u64)) / g == first / g);
            }
            lemma_range_well_shaped(
                fresh,
                (level + 1) as usize,
                pool.drop_last(),
                direct_map_offset,
                floor_to(first, g),
                first | ((g - 1) as u64),
                word.spec_output_address()->0,
                word.spec_flags()->0,
            );
        }
        assert(well_shaped(split.table, (level + 1) as usize));
        assert(split.done);
        assert(same_span(first, last, (level + 1) as usize)) by {
            assert(first / g == first / g);
            assert(last / g == first / g);
        }
        lemma_range_well_shaped(
            split.table,
            (level + 1) as usize,
            split.pool,
            direct_map_offset,
            first,
            last,
            pa,
            flags,
        );
        lemma_range_twice(
            split.table,
            (level + 1) as usize,
            split.pool,
            later_pool,
            direct_map_offset,
            first,
            last,
            pa,
            flags,
        );
        assert(twice.table.words =~= once.table.words);
        assert(twice.table.subtables =~= once.table.subtables);
    }
}

/// Mapping a range a second time, with the same addresses and attributes,
/// changes nothing and takes no page from the pool, whatever the pool holds
/// by then. The attributes must not hold the table bit.
pub proof fn lemma_range_twice(
    table: TableModel,
    level: usize,
    pool: Seq<u64>,
    later_pool: Seq<u64>,
    direct_map_offset: u64,
    first: u64,
    last: u64,
    pa: u64,
    flags: u64,
)
    requires
        level <= LEAF_LEVEL,
        first <= last,
        same_span(first, last, level),
        flags & TABLE_OR_PAGE == 0,
        spec_map_range(table, level, pool, direct_map_offset, first, last, pa, flags).done,
        well_shaped(table, level),
    ensures
        spec_map_range(
            spec_map_range(table, level, pool, direct_map_offset, first, last, pa, flags).table,
            level,
            later_pool,
            direct_map_offset,
            first,
            last,
            pa,
            flags,
        ) == (MapOutcome {
            table: spec_map_range(
                table,
                level,
                pool,
                direct_map_offset,
                first,
                last,
                pa,
                flags,
            ).table,
            pool: later_pool,
            done: true,
        }),
    decreases LEAF_LEVEL - level, last - first, 1int,
{
    let g = spec_granularity(level);
    let stop = chunk_last(first, last, g);
    let index = spec_index(first, level);
    lemma_entry_facts(first, level);
    let step = spec_map_chunk(table, level, pool, direct_map_offset, first, stop, pa, flags);
    lemma_chunk_frame(table, level, pool, direct_map_offset, first, stop, pa, flags);
    lemma_chunk_twice(table, level, pool, later_pool, direct_map_offset, first, stop, pa, flags);
    if stop < last {
        let next = (stop + 1) as u64;
        let next_pa = (pa + (stop - first) + 1) as u64;
        let rest = spec_map_range(
            step.table,
            level,
            step.pool,
            direct_map_offset,
            next,
            last,
            next_pa,
            flags,
        );
        assert(same_span(next, last, level));
        assert(spec_index(next, level) == index + 1);
        lemma_chunk_well_shaped(table, level, pool, direct_map_offset, first, stop, pa, flags);
        lemma_range_frame(step.table, level, step.pool, direct_map_offset, next, last, next_pa, flags);
        lemma_range_twice(
            step.table,
            level,
            step.pool,
            later_pool,
            direct_map_offset,
            next,
            last,
            next_pa,
            flags,
        );
        // The slot of the first chunk is as the first chunk left it.
        assert(rest.table.words[index] == step.table.words[index]);
        assert(rest.table.subtables[index] == step.table.subtables[index]);
        let again = spec_map_chunk(
            rest.table,
            level,
            later_pool,
            direct_map_offset,
            first,
            stop,
            pa,
            flags,
        );
        let settled = spec_map_chunk(
            step.table,
            level,
            later_pool,
            direct_map_offset,
            first,
            stop,
            pa,
            flags,
        );
        assert(settled == (MapOutcome { table: step.table, pool: later_pool, done: true }));
        lemma_chunk_frame(rest.table, level, later_pool, direct_map_offset, first, stop, pa, flags);
        lemma_chunk_reads_its_slot(
            step.table,
            rest.table,
            level,
            later_pool,
            direct_map_offset,
            first,
            stop,
            pa,
            flags,
        );
        assert(again.table.words =~= rest.table.words);
        assert(again.table.subtables =~= rest.table.subtables);
        assert(again.table == rest.table);
    }
}

/// What mapping a chunk leaves in the slot that translates it, and whether
/// it succeeds and what it leaves of the pool, depends on nothing of the
/// table but that slot.
pub proof fn lemma_chunk_reads_its_slot(
    a: TableModel,
    b: TableModel,
    level: usize,
    pool: Seq<u64>,
    direct_map_offset: u64,
    first: u64,
    last: u64,
    pa: u64,
    flags: u64,
)
    requires
        level <= LEAF_LEVEL,
        has_shape(a),
        has_shape(b),
        a.words[spec_index(first, level)] == b.words[spec_index(first, level)],
        a.subtables[spec_index(first, level)] == b.subtables[spec_index(first, level)],
    ensures
        ({
            let i = spec_index(first, level);
            let ra = spec_map_chunk(a, level, pool, direct_map_offset, first, last, pa, flags);
            let rb = spec_map_chunk(b, level, pool, direct_map_offset, first, last, pa, flags);
            &&& ra.table.words[i] == rb.table.words[i]
            &&& ra.table.subtables[i] == rb.table.subtables[i]
            &&& ra.pool == rb.pool
            &&& ra.done == rb.done
            &&& rb.table.level == b.level
            &&& rb.table.address == b.address
        }),
{
}

/// Mapping a chunk leaves every table with 512 slots.
pub proof fn lemma_chunk_well_shaped(
    table: TableModel,
    level: usize,
    pool: Seq<u64>,
    direct_map_offset: u64,
    first: u64,
    last: u64,
    pa: u64,
    flags: u64,
)
    requires
        level <= LEAF_LEVEL,
        well_shaped(table, level),
    ensures
        well_shaped(
            spec_map_chunk(table, level, pool, direct_map_offset, first, last, pa, flags).table,
            level,
        ),
    decreases LEAF_LEVEL - level, last - first, 0int,
{
    let g = spec_granularity(level);
    let index = spec_index(first, level);
    let word = table.words[index];
    let once = spec_map_chunk(table, level, pool, direct_map_offset, first, last, pa, flags);
    if level >= LEAF_LEVEL {
    } else if table.subtables[index] is Some {
        lemma_range_well_shaped(
            table.subtables[index]->0,
            (level + 1) as usize,
            pool,
            direct_map_offset,
            first,
            last,
            pa,
            flags,
        );
        assert forall|i: int| 0 <= i < 512 && (#[trigger] once.table.subtables[i]) is Some implies
            well_shaped(once.table.subtables[i]->0, (level + 1) as usize) by {
            if i != index {
                assert(once.table.subtables[i] == table.subtables[i]);
            }
        }
    } else if spec_is_block(first, last, g) && !word.spec_is_table_or_page() && is_aligned_to(
        pa,
        g,
    ) {
        assert forall|i: int| 0 <= i < 512 && (#[trigger] once.table.subtables[i]) is Some implies
            well_shaped(once.table.subtables[i]->0, (level + 1) as usize) by {
            assert(once.table.subtables[i] == table.subtables[i]);
        }
    } else if pool.len() == 0 {
    } else {
        let fresh = crate::mem::vm::paging::empty_table((level + 1) as usize, pool.last());
        assert(well_shaped(fresh, (level + 1) as usize));
        let split = if word.spec_flags() is Some {
            spec_map_range(
                fresh,
                (level + 1) as usize,
                pool.drop_last(),
                direct_map_offset,
                floor_to(first, g),
                first | ((g - 1) as u64),
                word.spec_output_address()->0,
                word.spec_flags()->0,
            )
        } else {
            MapOutcome { table: fresh, pool: pool.drop_last(), done: true }
        };
        if word.spec_flags() is Some {
            lemma_range_well_shaped(
                fresh,
                (level + 1) as usize,
                pool.drop_last(),
                direct_map_offset,
                floor_to(first, g),
                first | ((g - 1) as u64),
                word.spec_output_address()->0,
                word.spec_flags()->0,
            );
        }
        if split.done {
            lemma_range_well_shaped(
                split.table,
                (level + 1) as usize,
                split.pool,
                direct_map_offset,
                first,
                last,
                pa,
                flags,
            );
        }
        assert forall|i: int| 0 <= i < 512 && (#[trigger] once.table.subtables[i]) is Some implies
            well_shaped(once.table.subtables[i]->0, (level + 1) as usize) by {
            if i != index {
                assert(once.table.subtables[i] == table.subtables[i]);
            }
        }
    }
}

/// Mapping a range leaves every table with 512 slots.
pub proof fn lemma_range_well_shaped(
    table: TableModel,
    level: usize,
    pool: Seq<u64>,
    direct_map_offset: u64,
    first: u64,
    last: u64,
    pa: u64,
    flags: u64,
)
    requires
        level <= LEAF_LEVEL,
        well_shaped(table, level),
    ensures
        well_shaped(
            spec_map_range(table, level, pool, direct_map_offset, first, last, pa, flags).table,
            level,
        ),
    decreases LEAF_LEVEL - level, last - first, 1int,
{
    if first <= last {
        let stop = chunk_last(first, last, spec_granularity(level));
        if stop >= first {
            let step = spec_map_chunk(
                table,
                level,
                pool,
                direct_map_offset,
                first,
                stop,
                pa,
                flags,
            );
            lemma_chunk_well_shaped(table, level, pool, direct_map_offset, first, stop, pa, flags);
            if step.done && stop < last {
                lemma_range_well_shaped(
                    step.table,
                    level,
                    step.pool,
                    direct_map_offset,
                    (stop + 1) as u64,
                    last,
                    (pa + (stop - first) + 1) as u64,
                    flags,
                );
            }
        }
    }
}

/// What `va` resolves to in `table`, with the table-or-page bit left out
/// of the attributes: the physical address and the attributes.
pub open spec fn spec_lookup(table: TableModel, level: usize, va: u64) -> Option<(u64, u64)>
    decreases LEAF_LEVEL - level,
{
    let index = spec_index(va, level);
    let word = table.words[index];
    if level > LEAF_LEVEL {
        None
    } else if level < LEAF_LEVEL && table.subtables[index] is Some {
        spec_lookup(table.subtables[index]->0, (level + 1) as usize, va)
    } else if !word.spec_is_valid() {
        None
    } else {
        Some(
            (
                ((word.0 & OUTPUT_ADDRESS_MASK) + va % spec_granularity(level)) as u64,
                (word.0 & ATTRIBUTE_FIELD_MASK) & !TABLE_OR_PAGE,
            ),
        )
    }
}

/// A lookup is a walk of the table, less the table-or-page bit and the
/// level.
pub proof fn lemma_lookup_is_resolve(table: TableModel, level: usize, va: u64)
    ensures
        spec_lookup(table, level, va) == match spec_resolve(table, level, va) {
            Some(found) => Some((found.pa.0, found.attributes & !TABLE_OR_PAGE)),
            None => None,
        },
    decreases LEAF_LEVEL - level,
{
    let index = spec_index(va, level);
    if level < LEAF_LEVEL && table.subtables[index] is Some {
        lemma_lookup_is_resolve(table.subtables[index]->0, (level + 1) as usize, va);
    }
}

/// A descriptor that maps something at `level` is in order: its attribute
/// bits all have a meaning, the access flag is set, above the leaf level
/// the table bit is clear, and the output address is aligned to the entry.
pub open spec fn entry_clean(word: Descriptor, level: usize) -> bool {
    word.spec_is_valid() ==> {
        &&& (word.0 & ATTRIBUTE_FIELD_MASK) & !ALL_ATTRIBUTES == 0
        &&& word.0 & ACCESSED != 0
        &&& level < LEAF_LEVEL ==> word.0 & TABLE_OR_PAGE == 0
        &&& is_aligned_to(word.0 & OUTPUT_ADDRESS_MASK, spec_granularity(level))
    }
}

/// Every table of the hierarchy has 512 slots, only tables above the leaf
/// level own subtables, and every descriptor of a slot without a subtable
/// is in order.
pub open spec fn clean(table: TableModel, level: usize) -> bool
    decreases LEAF_LEVEL - level,
{
    &&& has_shape(table)
    &&& level <= LEAF_LEVEL
    &&& forall|i: int|
        0 <= i < 512 ==> match #[trigger] table.subtables[i] {
            Some(child) => level < LEAF_LEVEL && clean(child, (level + 1) as usize),
            None => entry_clean(table.words[i], level),
        }
}

/// Whether the addresses `first..=last` can be mapped to the physical
/// addresses from `pa` on with `flags`: the range is made of whole pages,
/// `pa` is a page boundary, the physical addresses stay below 2^48, and
/// the attributes are known ones without the table bit.
pub open spec fn mappable(first: u64, last: u64, pa: u64, flags: u64) -> bool {
    &&& first <= last
    &&& first % 4096 == 0
    &&& last % 4096 == 4095
    &&& pa % 4096 == 0
    &&& pa + (last - first) <= 0xffff_ffff_ffff
    &&& flags & !ALL_ATTRIBUTES == 0
    &&& flags & TABLE_OR_PAGE == 0
}

/// What a written descriptor holds: its output address and its attributes
/// are those that were written, and it is in order.
pub proof fn lemma_written_word(pa: u64, flags: u64, level: usize)
    requires
        level <= LEAF_LEVEL,
        pa % 4096 == 0,
        pa <= 0xffff_ffff_ffff,
        flags & !ALL_ATTRIBUTES == 0,
        flags & TABLE_OR_PAGE == 0,
        is_aligned_to(pa, spec_granularity(level)),
    ensures
        ({
            let page = Descriptor::spec_set(pa, flags | ACCESSED | TABLE_OR_PAGE);
            let block = Descriptor::spec_set(pa, flags | ACCESSED);
            &&& page.spec_is_valid()
            &&& block.spec_is_valid()
            &&& page.0 & OUTPUT_ADDRESS_MASK == pa
            &&& block.0 & OUTPUT_ADDRESS_MASK == pa
            &&& (page.0 & ATTRIBUTE_FIELD_MASK) & !TABLE_OR_PAGE == flags | ACCESSED | VALID
            &&& (block.0 & ATTRIBUTE_FIELD_MASK) & !TABLE_OR_PAGE == flags | ACCESSED | VALID
            &&& entry_clean(block, level)
            &&& level == LEAF_LEVEL ==> entry_clean(page, level)
            &&& !block.spec_is_table_or_page()
        }),
{
    let page = pa | (((flags | 0x400) | 0x2) | 0x1);
    let block = pa | ((flags | 0x400) | 0x1);
    assert(pa % 4096 == 0 && pa <= 0xffff_ffff_ffff && flags & !0x0060_0000_0000_0fc7u64 == 0
        && flags & 0x2 == 0 && page == pa | (((flags | 0x400) | 0x2) | 0x1) && block == pa | ((
    flags | 0x400) | 0x1) ==> page & 0x1 != 0 && block & 0x1 != 0 && page
        & 0x0000_ffff_ffff_f000u64 == pa && block & 0x0000_ffff_ffff_f000u64 == pa && (page
        & 0xffff_0000_0000_0fffu64) & !0x2u64 == (flags | 0x400) | 0x1 && (block
        & 0xffff_0000_0000_0fffu64) & !0x2u64 == (flags | 0x400) | 0x1 && (page
        & 0xffff_0000_0000_0fffu64) & !0x0060_0000_0000_0fc7u64 == 0 && (block
        & 0xffff_0000_0000_0fffu64) & !0x0060_0000_0000_0fc7u64 == 0 && page & 0x400 != 0 && block
        & 0x400 != 0 && block & 0x2 == 0 && (block & 0xffff_0000_0000_0fffu64) & 0x2 != 0x2)
        by (bit_vector);
}

/// What a descriptor in order gives when its block is laid out again: the
/// attributes that it holds are known ones without the table bit, writing
/// them again with the access flag changes nothing, and the block ends
/// below 2^48.
pub proof fn lemma_old_word(word: Descriptor, level: usize)
    requires
        level < LEAF_LEVEL,
        word.spec_is_valid(),
        entry_clean(word, level),
    ensures
        word.spec_flags() == Some(word.0 & ATTRIBUTE_FIELD_MASK),
        word.spec_output_address() == Some(word.0 & OUTPUT_ADDRESS_MASK),
        ({
            let flags = word.0 & ATTRIBUTE_FIELD_MASK;
            let pa = word.0 & OUTPUT_ADDRESS_MASK;
            &&& flags & !ALL_ATTRIBUTES == 0
            &&& flags & TABLE_OR_PAGE == 0
            &&& flags | ACCESSED | VALID == flags & !TABLE_OR_PAGE
            &&& pa % 4096 == 0
            &&& pa + (spec_granularity(level) - 1) <= 0xffff_ffff_ffff
        }),
{
    let w = word.0;
    let g = spec_granularity(level);
    let mask = (g - 1) as u64;
    assert(w & 0x1 != 0 && w & 0x400 != 0 && w & 0x2 == 0 && (mask == 0x1f_ffff || mask
        == 0x3fff_ffff || mask == 0x7f_ffff_ffff) && (w & 0x0000_ffff_ffff_f000u64) & mask == 0
        ==> (w & 0xffff_0000_0000_0fffu64) & 0x2 == 0 && ((w & 0xffff_0000_0000_0fffu64) | 0x400)
        | 0x1 == (w & 0xffff_0000_0000_0fffu64) & !0x2u64 && (w & 0x0000_ffff_ffff_f000u64) % 4096
        == 0 && (w & 0x0000_ffff_ffff_f000u64) + mask <= 0xffff_ffff_ffffu64 && (w
        & 0x0000_ffff_ffff_f000u64) + mask >= mask) by (bit_vector);
}

/// How an entry lies around an address in it: the entry starts on a page
/// boundary and ends just before one, and the offset of an address in the
/// entry is its distance from the start of the entry.
pub proof fn lemma_entry_offsets(a: u64, va: u64, level: usize)
    requires
        level <= LEAF_LEVEL,
        va / spec_granularity(level) == a / spec_granularity(level),
    ensures
        ({
            let g = spec_granularity(level);
            &&& floor_to(a, g) % 4096 == 0
            &&& (a | ((g - 1) as u64)) % 4096 == 4095
            &&& floor_to(a, g) <= va <= (a | ((g - 1) as u64))
            &&& va - floor_to(a, g) == va % g
            &&& (a | ((g - 1) as u64)) - floor_to(a, g) == g - 1
            &&& is_aligned_to(a, g) ==> floor_to(a, g) == a
            &&& is_aligned_to(a, g) <==> a % g == 0
        }),
{
    let g = spec_granularity(level);
    let m = (g - 1) as u64;
    let low = a & !m;
    let high = a | m;
    if level == 0 {
        assert(m == 0x7f_ffff_ffffu64 && low == a & !m && high == a | m ==> low % 4096 == 0 && high
            % 4096 == 4095 && low % 0x80_0000_0000 == 0 && low / 0x80_0000_0000 == a
            / 0x80_0000_0000 && high - low == m && high >= low && (a & m == 0 ==> low == a) && (a
            & m == 0 <==> a % 0x80_0000_0000 == 0)) by (bit_vector);
    } else if level == 1 {
        assert(m == 0x3fff_ffffu64 && low == a & !m && high == a | m ==> low % 4096 == 0 && high
            % 4096 == 4095 && low % 0x4000_0000 == 0 && low / 0x4000_0000 == a / 0x4000_0000
            && high - low == m && high >= low && (a & m == 0 ==> low == a) && (a & m == 0 <==> a
            % 0x4000_0000 == 0)) by (bit_vector);
    } else if level == 2 {
        assert(m == 0x1f_ffffu64 && low == a & !m && high == a | m ==> low % 4096 == 0 && high
            % 4096 == 4095 && low % 0x20_0000 == 0 && low / 0x20_0000 == a / 0x20_0000 && high
            - low == m && high >= low && (a & m == 0 ==> low == a) && (a & m == 0 <==> a
            % 0x20_0000 == 0)) by (bit_vector);
    } else {
        assert(m == 0xfffu64 && low == a & !m && high == a | m ==> low % 4096 == 0 && high % 4096
            == 4095 && low % 0x1000 == 0 && low / 0x1000 == a / 0x1000 && high - low == m && high
            >= low && (a & m == 0 ==> low == a) && (a & m == 0 <==> a % 0x1000 == 0))
            by (bit_vector);
    }
}

/// An empty table is clean, and nothing resolves in it.
pub proof fn lemma_empty_table(level: usize, address: u64, va: u64)
    requires
        level <= LEAF_LEVEL,
    ensures
        clean(empty_table(level, address), level),
        spec_lookup(empty_table(level, address), level, va) is None,
{
    assert(0u64 & 0x1 == 0) by (bit_vector);
}

/// The tail of a mappable range, from the chunk after the first on, is
/// mappable to the physical addresses that follow those of the first
/// chunk.
pub proof fn lemma_mappable_tail(first: u64, last: u64, pa: u64, flags: u64, level: usize)
    requires
        level <= LEAF_LEVEL,
        mappable(first, last, pa, flags),
    ensures
        ({
            let stop = chunk_last(first, last, spec_granularity(level));
            &&& first <= stop <= last
            &&& stop <= first | ((spec_granularity(level) - 1) as u64)
            &&& stop / spec_granularity(level) == first / spec_granularity(level)
            &&& mappable(first, stop, pa, flags)
            &&& stop < last ==> stop == first | ((spec_granularity(level) - 1) as u64) && mappable(
                (stop + 1) as u64,
                last,
                (pa + (stop - first) + 1) as u64,
                flags,
            )
        }),
{
    let g = spec_granularity(level);
    let high = first | ((g - 1) as u64);
    let stop = chunk_last(first, last, g);
    lemma_entry_facts(first, level);
    lemma_entry_offsets(first, first, level);
    assert(first <= high);
    assert(high / g == first / g);
    assert(high % 4096 == 4095);
    assert(first <= stop <= high);
    assert(stop % 4096 == 4095);
    if level == 0 {
        assert(stop / 0x80_0000_0000 == first / 0x80_0000_0000);
    } else if level == 1 {
        assert(stop / 0x4000_0000 == first / 0x4000_0000);
    } else if level == 2 {
        assert(stop / 0x20_0000 == first / 0x20_0000);
    } else {
        assert(stop / 0x1000 == first / 0x1000);
    }
    assert(mappable(first, stop, pa, flags));
    if stop < last {
        assert(stop == high);
        assert((stop + 1) % 4096 == 0);
        assert((pa + (stop - first) + 1) % 4096 == 0);
    }
}

/// Mapping a chunk of a mappable range into a clean table leaves a clean
/// table.
pub proof fn lemma_chunk_clean(
    table: TableModel,
    level: usize,
    pool: Seq<u64>,
    direct_map_offset: u64,
    first: u64,
    last: u64,
    pa: u64,
    flags: u64,
)
    requires
        clean(table, level),
        mappable(first, last, pa, flags),
        last <= first | ((spec_granularity(level) - 1) as u64),
    ensures
        clean(
            spec_map_chunk(table, level, pool, direct_map_offset, first, last, pa, flags).table,
            level,
        ),
    decreases LEAF_LEVEL - level, last - first, 0int,
{
    let g = spec_granularity(level);
    let index = spec_index(first, level);
    let word = table.words[index];
    let once = spec_map_chunk(table, level, pool, direct_map_offset, first, last, pa, flags);
    lemma_entry_offsets(first, first, level);
    assert(table.subtables[index] is None ==> entry_clean(word, level));
    if level >= LEAF_LEVEL {
        lemma_entry_offsets(pa, pa, level);
        lemma_written_word(pa, flags, level);
        assert forall|i: int| 0 <= i < 512 implies match #[trigger] once.table.subtables[i] {
            Some(child) => level < LEAF_LEVEL && clean(child, (level + 1) as usize),
            None => entry_clean(once.table.words[i], level),
        } by {
            assert(once.table.subtables[i] == table.subtables[i]);
        }
    } else if table.subtables[index] is Some {
        lemma_range_clean(
            table.subtables[index]->0,
            (level + 1) as usize,
            pool,
            direct_map_offset,
            first,
            last,
            pa,
            flags,
        );
        assert forall|i: int| 0 <= i < 512 implies match #[trigger] once.table.subtables[i] {
            Some(child) => level < LEAF_LEVEL && clean(child, (level + 1) as usize),
            None => entry_clean(once.table.words[i], level),
        } by {
            if i != index {
                assert(once.table.subtables[i] == table.subtables[i]);
            }
        }
    } else if spec_is_block(first, last, g) && !word.spec_is_table_or_page() && is_aligned_to(
        pa,
        g,
    ) {
        lemma_written_word(pa, flags, level);
        assert forall|i: int| 0 <= i < 512 implies match #[trigger] once.table.subtables[i] {
            Some(child) => level < LEAF_LEVEL && clean(child, (level + 1) as usize),
            None => entry_clean(once.table.words[i], level),
        } by {
            assert(once.table.subtables[i] == table.subtables[i]);
        }
    } else if pool.len() == 0 {
    } else {
        let fresh = empty_table((level + 1) as usize, pool.last());
        lemma_empty_table((level + 1) as usize, pool.last(), first);
        let split = if word.spec_flags() is Some {
            spec_map_range(
                fresh,
                (level + 1) as usize,
                pool.drop_last(),
                direct_map_offset,
                floor_to(first, g),
                first | ((g - 1) as u64),
                word.spec_output_address()->0,
                word.spec_flags()->0,
            )
        } else {
            MapOutcome { table: fresh, pool: pool.drop_last(), done: true }
        };
        if word.spec_flags() is Some {
            lemma_old_word(word, level);
            lemma_range_clean(
                fresh,
                (level + 1) as usize,
                pool.drop_last(),
                direct_map_offset,
                floor_to(first, g),
                first | ((g - 1) as u64),
                word.spec_output_address()->0,
                word.spec_flags()->0,
            );
        }
        if split.done {
            lemma_range_clean(
                split.table,
                (level + 1) as usize,
                split.pool,
                direct_map_offset,
                first,
                last,
                pa,
                flags,
            );
        }
        assert forall|i: int| 0 <= i < 512 implies match #[trigger] once.table.subtables[i] {
            Some(child) => level < LEAF_LEVEL && clean(child, (level + 1) as usize),
            None => entry_clean(once.table.words[i], level),
        } by {
            if i != index {
                assert(once.table.subtables[i] == table.subtables[i]);
            }
        }
    }
}

/// Mapping a mappable range into a clean table leaves a clean table.
pub proof fn lemma_range_clean(
    table: TableModel,
    level: usize,
    pool: Seq<u64>,
    direct_map_offset: u64,
    first: u64,
    last: u64,
    pa: u64,
    flags: u64,
)
    requires
        clean(table, level),
        mappable(first, last, pa, flags),
    ensures
        clean(
            spec_map_range(table, level, pool, direct_map_offset, first, last, pa, flags).table,
            level,
        ),
    decreases LEAF_LEVEL - level, last - first, 1int,
{
    let stop = chunk_last(first, last, spec_granularity(level));
    lemma_mappable_tail(first, last, pa, flags, level);
    let step = spec_map_chunk(table, level, pool, direct_map_offset, first, stop, pa, flags);
    lemma_chunk_clean(table, level, pool, direct_map_offset, first, stop, pa, flags);
    if step.done && stop < last {
        lemma_range_clean(
            step.table,
            level,
            step.pool,
            direct_map_offset,
            (stop + 1) as u64,
            last,
            (pa + (stop - first) + 1) as u64,
            flags,
        );
    }
}

/// What an address resolves to depends on nothing of the table but the
/// slot that translates the address.
pub proof fn lemma_lookup_reads_its_slot(a: TableModel, b: TableModel, level: usize, va: u64)
    requires
        a.words[spec_index(va, level)] == b.words[spec_index(va, level)],
        a.subtables[spec_index(va, level)] == b.subtables[spec_index(va, level)],
    ensures
        spec_lookup(a, level, va) == spec_lookup(b, level, va),
{
}

/// What mapping a chunk does to an address `va` of the entry that holds
/// the chunk: inside the chunk, `va` resolves to the new physical address
/// with the new attributes, the access flag and the valid bit; outside it,
/// `va` resolves as before.
pub proof fn lemma_chunk_lookup(
    table: TableModel,
    level: usize,
    pool: Seq<u64>,
    direct_map_offset: u64,
    first: u64,
    last: u64,
    pa: u64,
    flags: u64,
    va: u64,
)
    requires
        clean(table, level),
        mappable(first, last, pa, flags),
        last <= first | ((spec_granularity(level) - 1) as u64),
        va / spec_granularity(level) == first / spec_granularity(level),
        spec_map_chunk(table, level, pool, direct_map_offset, first, last, pa, flags).done,
    ensures
        spec_lookup(
            spec_map_chunk(table, level, pool, direct_map_offset, first, last, pa, flags).table,
            level,
            va,
        ) == (if first <= va <= last {
            Some(((pa + (va - first)) as u64, flags | ACCESSED | VALID))
        } else {
            spec_lookup(table, level, va)
        }),
    decreases LEAF_LEVEL - level, last - first, 0int,
{
    let g = spec_granularity(level);
    let index = spec_index(first, level);
    let word = table.words[index];
    let once = spec_map_chunk(table, level, pool, direct_map_offset, first, last, pa, flags);
    lemma_entry_facts(first, level);
    lemma_entry_offsets(first, va, level);
    lemma_entry_offsets(first, first, level);
    lemma_entry_offsets(pa, pa, level);
    assert(spec_index(va, level) == index);
    assert(table.subtables[index] is None ==> entry_clean(word, level));
    if level >= LEAF_LEVEL {
        lemma_written_word(pa, flags, level);
        assert(first <= va <= last);
    } else if table.subtables[index] is Some {
        let child = table.subtables[index]->0;
        assert(same_span(first, last, (level + 1) as usize) && same_span(
            first,
            va,
            (level + 1) as usize,
        )) by {
            assert(first / g == first / g);
            assert(last / g == first / g);
            assert(va / g == first / g);
        }
        lemma_range_lookup(
            child,
            (level + 1) as usize,
            pool,
            direct_map_offset,
            first,
            last,
            pa,
            flags,
            va,
        );
    } else if spec_is_block(first, last, g) && !word.spec_is_table_or_page() && is_aligned_to(
        pa,
        g,
    ) {
        lemma_written_word(pa, flags, level);
        assert(first <= va <= last);
        assert(va - first == va % g);
    } else if pool.len() == 0 {
    } else {
        let fresh = empty_table((level + 1) as usize, pool.last());
        lemma_empty_table((level + 1) as usize, pool.last(), va);
        let low = floor_to(first, g);
        let high = first | ((g - 1) as u64);
        let split = if word.spec_flags() is Some {
            spec_map_range(
                fresh,
                (level + 1) as usize,
                pool.drop_last(),
                direct_map_offset,
                low,
                high,
                word.spec_output_address()->0,
                word.spec_flags()->0,
            )
        } else {
            MapOutcome { table: fresh, pool: pool.drop_last(), done: true }
        };
        assert(same_span(first, last, (level + 1) as usize) && same_span(
            first,
            va,
            (level + 1) as usize,
        ) && same_span(low, high, (level + 1) as usize) && same_span(
            low,
            va,
            (level + 1) as usize,
        )) by {
            assert(first / g == first / g);
            assert(last / g == first / g);
            assert(va / g == first / g);
            assert(low / g == first / g);
            assert(high / g == first / g);
        }
        if word.spec_flags() is Some {
            lemma_old_word(word, level);
            lemma_range_clean(
                fresh,
                (level + 1) as usize,
                pool.drop_last(),
                direct_map_offset,
                low,
                high,
                word.spec_output_address()->0,
                word.spec_flags()->0,
            );
            lemma_range_lookup(
                fresh,
                (level + 1) as usize,
                pool.drop_last(),
                direct_map_offset,
                low,
                high,
                word.spec_output_address()->0,
                word.spec_flags()->0,
                va,
            );
            assert(spec_lookup(split.table, (level + 1) as usize, va) == spec_lookup(
                table,
                level,
                va,
            ));
        } else {
            assert(!word.spec_is_valid());
            assert(spec_lookup(split.table, (level + 1) as usize, va) == spec_lookup(
                table,
                level,
                va,
            ));
        }
        lemma_range_lookup(
            split.table,
            (level + 1) as usize,
            split.pool,
            direct_map_offset,
            first,
            last,
            pa,
            flags,
            va,
        );
    }
}

/// What mapping a range does to an address `va` that the table
/// translates: inside the range, `va` resolves to the new physical address
/// with the new attributes, the access flag and the valid bit; outside it,
/// `va` resolves as before.
pub proof fn lemma_range_lookup(
    table: TableModel,
    level: usize,
    pool: Seq<u64>,
    direct_map_offset: u64,
    first: u64,
    last: u64,
    pa: u64,
    flags: u64,
    va: u64,
)
    requires
        clean(table, level),
        mappable(first, last, pa, flags),
        same_span(first, last, level),
        same_span(first, va, level),
        spec_map_range(table, level, pool, direct_map_offset, first, last, pa, flags).done,
    ensures
        spec_lookup(
            spec_map_range(table, level, pool, direct_map_offset, first, last, pa, flags).table,
            level,
            va,
        ) == (if first <= va <= last {
            Some(((pa + (va - first)) as u64, flags | ACCESSED | VALID))
        } else {
            spec_lookup(table, level, va)
        }),
    decreases LEAF_LEVEL - level, last - first, 1int,
{
    let g = spec_granularity(level);
    let stop = chunk_last(first, last, g);
    let index = spec_index(first, level);
    lemma_mappable_tail(first, last, pa, flags, level);
    lemma_entry_facts(first, level);
    let step = spec_map_chunk(table, level, pool, direct_map_offset, first, stop, pa, flags);
    lemma_chunk_frame(table, level, pool, direct_map_offset, first, stop, pa, flags);
    lemma_chunk_clean(table, level, pool, direct_map_offset, first, stop, pa, flags);
    if va / g == first / g {
        lemma_chunk_lookup(table, level, pool, direct_map_offset, first, stop, pa, flags, va);
        lemma_entry_offsets(first, va, level);
    } else {
        assert(spec_index(va, level) != index);
        lemma_lookup_reads_its_slot(step.table, table, level, va);
        assert(!(first <= va <= stop));
    }
    if stop < last {
        let next = (stop + 1) as u64;
        let next_pa = (pa + (stop - first) + 1) as u64;
        let rest = spec_map_range(
            step.table,
            level,
            step.pool,
            direct_map_offset,
            next,
            last,
            next_pa,
            flags,
        );
        assert(same_span(next, last, level));
        assert(same_span(next, va, level));
        assert(spec_index(next, level) == index + 1);
        if va / g == first / g {
            lemma_range_frame(
                step.table,
                level,
                step.pool,
                direct_map_offset,
                next,
                last,
                next_pa,
                flags,
            );
            lemma_lookup_reads_its_slot(rest.table, step.table, level, va);
        } else {
            lemma_range_lookup(
                step.table,
                level,
                step.pool,
                direct_map_offset,
                next,
                last,
                next_pa,
                flags,
                va,
            );
        }
    }
}

/// Whether a hierarchy for `va_range` translates `va`: the address lies
/// in the bottom 2^48 bytes of the address space for `Lower`, in the top
/// 2^48 bytes for `Upper`.
pub open spec fn in_half(va_range: VaRange, va: u64) -> bool {
    match va_range {
        VaRange::Lower => va < ADDRESSABLE_SIZE,
        VaRange::Upper => va >= 0xffff_0000_0000_0000,
    }
}

/// Whether `region` can be mapped to the physical addresses from `pa` on
/// with `flags`: the region is made of pages and is not empty, `pa` is a
/// page boundary, the physical addresses stay below 2^48, and the
/// attributes are known ones without the table bit.
pub open spec fn region_mappable(region: VirtualMemoryRegion, pa: u64, flags: u64) -> bool {
    &&& region.wf()
    &&& region.spec_start() < region.spec_end()
    &&& pa % 4096 == 0
    &&& pa + (region.spec_end() - region.spec_start()) <= ADDRESSABLE_SIZE
    &&& flags & !ALL_ATTRIBUTES == 0
    &&& flags & TABLE_OR_PAGE == 0
}

/// A clean hierarchy has 512 slots in every table.
pub proof fn lemma_clean_is_well_shaped(table: TableModel, level: usize)
    requires
        clean(table, level),
    ensures
        well_shaped(table, level),
    decreases LEAF_LEVEL - level,
{
    if level < LEAF_LEVEL {
        assert forall|i: int| 0 <= i < 512 && (#[trigger] table.subtables[i]) is Some implies
            well_shaped(table.subtables[i]->0, (level + 1) as usize) by {
            lemma_clean_is_well_shaped(table.subtables[i]->0, (level + 1) as usize);
        }
    }
}

/// Mapping keeps a hierarchy clean: after a mappable region has been
/// mapped into a clean hierarchy, whether the pool sufficed or not, the
/// hierarchy is clean.
pub proof fn lemma_map_range_keeps_clean(
    table: TableModel,
    va_range: VaRange,
    pool: Seq<u64>,
    direct_map_offset: u64,
    region: VirtualMemoryRegion,
    pa: u64,
    flags: u64,
)
    requires
        clean(table, 0),
        region_mappable(region, pa, flags) || region.spec_start() >= region.spec_end(),
    ensures
        clean(
            spec_root_map(table, va_range, pool, direct_map_offset, region, pa, flags).table,
            0,
        ),
{
    if spec_check_range(va_range, region) is None && region.spec_start() < region.spec_end() {
        lemma_range_clean(
            table,
            0,
            pool,
            direct_map_offset,
            region.spec_start(),
            (region.spec_end() - 1) as u64,
            pa,
            flags,
        );
    }
}

/// Mapping is idempotent: when a region has been mapped into a hierarchy,
/// mapping it again to the same physical addresses with the same
/// attributes succeeds, leaves every descriptor and every table as it is,
/// and takes no page from the pool, whatever the pool holds by then. The
/// attributes must not hold the table bit.
pub proof fn lemma_map_range_twice(
    table: TableModel,
    va_range: VaRange,
    pool: Seq<u64>,
    later_pool: Seq<u64>,
    direct_map_offset: u64,
    region: VirtualMemoryRegion,
    pa: u64,
    flags: u64,
)
    requires
        well_shaped(table, 0),
        flags & TABLE_OR_PAGE == 0,
        spec_root_map(table, va_range, pool, direct_map_offset, region, pa, flags).result is Ok,
    ensures
        spec_root_map(
            spec_root_map(table, va_range, pool, direct_map_offset, region, pa, flags).table,
            va_range,
            later_pool,
            direct_map_offset,
            region,
            pa,
            flags,
        ) == (RootOutcome {
            table: spec_root_map(
                table,
                va_range,
                pool,
                direct_map_offset,
                region,
                pa,
                flags,
            ).table,
            pool: later_pool,
            result: Ok(()),
        }),
{
    if region.spec_start() < region.spec_end() {
        let first = region.spec_start();
        let last = (region.spec_end() - 1) as u64;
        assert(same_span(first, last, 0));
        lemma_range_twice(table, 0, pool, later_pool, direct_map_offset, first, last, pa, flags);
    }
}

/// Mapping does what it says and nothing else: after a mappable region has
/// been mapped into a clean hierarchy, every address of the region
/// resolves to its place in the physical range, with the new attributes,
/// the access flag and the valid bit, so there is no gap; and every other
/// address that the hierarchy translates resolves as it did before, with
/// the attributes that it had. This holds also where a block had to be
/// split into a subtable to map the region.
pub proof fn lemma_map_range_resolves(
    table: TableModel,
    va_range: VaRange,
    pool: Seq<u64>,
    direct_map_offset: u64,
    region: VirtualMemoryRegion,
    pa: u64,
    flags: u64,
    va: u64,
)
    requires
        clean(table, 0),
        region_mappable(region, pa, flags),
        in_half(va_range, va),
        spec_root_map(table, va_range, pool, direct_map_offset, region, pa, flags).result is Ok,
    ensures
        spec_lookup(
            spec_root_map(table, va_range, pool, direct_map_offset, region, pa, flags).table,
            0,
            va,
        ) == (if region.spec_start() <= va < region.spec_end() {
            Some(((pa + (va - region.spec_start())) as u64, flags | ACCESSED | VALID))
        } else {
            spec_lookup(table, 0, va)
        }),
{
    let first = region.spec_start();
    let last = (region.spec_end() - 1) as u64;
    assert(same_span(first, last, 0));
    assert(same_span(first, va, 0));
    lemma_range_lookup(table, 0, pool, direct_map_offset, first, last, pa, flags, va);
}

/// Every page of the pool lies at or after the start of the direct map,
/// and its physical address fits the output-address field of a
/// descriptor.
pub open spec fn pool_usable(pool: Seq<u64>, direct_map_offset: u64) -> bool {
    forall|k: int|
        0 <= k < pool.len() ==> (#[trigger] pool[k]) >= direct_map_offset && ((pool[k]
            - direct_map_offset) as u64) & ATTRIBUTE_FIELD_MASK == 0
}

/// The descriptors agree with the ownership of the tables: wherever a slot
/// owns a subtable, its descriptor is a table pointer, and the address
/// that it points to is the physical address of the page that holds the
/// subtable. So a walk by the descriptors goes where a walk by the owned
/// subtables goes.
pub open spec fn consistent(table: TableModel, level: usize, direct_map_offset: u64) -> bool
    decreases LEAF_LEVEL - level,
{
    &&& has_shape(table)
    &&& forall|i: int|
        0 <= i < 512 && (#[trigger] table.subtables[i]) is Some ==> {
            &&& level < LEAF_LEVEL
            &&& table.words[i].spec_is_table_or_page()
            &&& table.words[i].spec_output_address() == Some(
                ((table.subtables[i]->0).address - direct_map_offset) as u64,
            )
            &&& consistent(table.subtables[i]->0, (level + 1) as usize, direct_map_offset)
        }
}

/// In a clean table, a descriptor in a slot that owns no subtable is no
/// table pointer.
pub proof fn lemma_clean_has_no_stray_pointer(table: TableModel, level: usize, index: int)
    requires
        clean(table, level),
        level < LEAF_LEVEL,
        0 <= index < 512,
        table.subtables[index] is None,
    ensures
        !table.words[index].spec_is_table_or_page(),
{
    let w = table.words[index].0;
    assert(entry_clean(table.words[index], level));
    assert(w & 0x2 == 0 ==> (w & 0xffff_0000_0000_0fffu64) & 0x2 != 0x2) by (bit_vector);
}

/// A pointer to a table in a page of the pool is a table pointer to that
/// page.
pub proof fn lemma_pointer_word(page: u64, direct_map_offset: u64)
    requires
        page >= direct_map_offset,
        ((page - direct_map_offset) as u64) & ATTRIBUTE_FIELD_MASK == 0,
    ensures
        Descriptor::spec_set((page - direct_map_offset) as u64, TABLE_OR_PAGE).spec_is_table_or_page(),
        Descriptor::spec_set(
            (page - direct_map_offset) as u64,
            TABLE_OR_PAGE,
        ).spec_output_address() == Some((page - direct_map_offset) as u64),
{
    let pa = (page - direct_map_offset) as u64;
    let word = pa | (0x2u64 | 0x1u64);
    assert(pa & 0xffff_0000_0000_0fffu64 == 0 && word == pa | (0x2u64 | 0x1u64) ==> word & 0x1 != 0
        && (word & 0xffff_0000_0000_0fffu64) & !0x0060_0000_0000_0fc7u64 == 0 && (word
        & 0xffff_0000_0000_0fffu64) & 0x2 == 0x2 && word & 0x0000_ffff_ffff_f000u64 == pa)
        by (bit_vector);
}

/// Mapping a chunk keeps the descriptors in agreement with the ownership
/// of the tables, keeps the table in its page, and leaves a pool of usable
/// pages.
pub proof fn lemma_chunk_consistent(
    table: TableModel,
    level: usize,
    pool: Seq<u64>,
    direct_map_offset: u64,
    first: u64,
    last: u64,
    pa: u64,
    flags: u64,
)
    requires
        level <= LEAF_LEVEL,
        consistent(table, level, direct_map_offset),
        pool_usable(pool, direct_map_offset),
    ensures
        ({
            let r = spec_map_chunk(table, level, pool, direct_map_offset, first, last, pa, flags);
            &&& consistent(r.table, level, direct_map_offset)
            &&& pool_usable(r.pool, direct_map_offset)
            &&& r.table.address == table.address
        }),
    decreases LEAF_LEVEL - level, last - first, 0int,
{
    let g = spec_granularity(level);
    let index = spec_index(first, level);
    let word = table.words[index];
    let once = spec_map_chunk(table, level, pool, direct_map_offset, first, last, pa, flags);
    if level >= LEAF_LEVEL {
        assert forall|i: int| 0 <= i < 512 && (#[trigger] once.table.subtables[i]) is Some implies
            false by {
            assert(once.table.subtables[i] == table.subtables[i]);
        }
    } else if table.subtables[index] is Some {
        lemma_range_consistent(
            table.subtables[index]->0,
            (level + 1) as usize,
            pool,
            direct_map_offset,
            first,
            last,
            pa,
            flags,
        );
        assert forall|i: int| 0 <= i < 512 && (#[trigger] once.table.subtables[i]) is Some implies {
            &&& once.table.words[i].spec_is_table_or_page()
            &&& once.table.words[i].spec_output_address() == Some(
                ((once.table.subtables[i]->0).address - direct_map_offset) as u64,
            )
            &&& consistent(once.table.subtables[i]->0, (level + 1) as usize, direct_map_offset)
        } by {
            if i != index {
                assert(once.table.subtables[i] == table.subtables[i]);
            }
        }
    } else if spec_is_block(first, last, g) && !word.spec_is_table_or_page() && is_aligned_to(
        pa,
        g,
    ) {
        assert forall|i: int| 0 <= i < 512 && (#[trigger] once.table.subtables[i]) is Some implies {
            &&& once.table.words[i].spec_is_table_or_page()
            &&& once.table.words[i].spec_output_address() == Some(
                ((once.table.subtables[i]->0).address - direct_map_offset) as u64,
            )
            &&& consistent(once.table.subtables[i]->0, (level + 1) as usize, direct_map_offset)
        } by {
            assert(once.table.subtables[i] == table.subtables[i]);
            assert(i != index);
        }
    } else if pool.len() == 0 {
    } else {
        let page = pool.last();
        let fresh = empty_table((level + 1) as usize, page);
        assert(consistent(fresh, (level + 1) as usize, direct_map_offset));
        assert(pool_usable(pool.drop_last(), direct_map_offset)) by {
            assert forall|k: int| 0 <= k < pool.drop_last().len() implies (
            #[trigger] pool.drop_last()[k]) >= direct_map_offset && ((pool.drop_last()[k]
                - direct_map_offset) as u64) & ATTRIBUTE_FIELD_MASK == 0 by {
                assert(pool.drop_last()[k] == pool[k]);
            }
        }
        assert(pool[pool.len() - 1] == page);
        lemma_pointer_word(page, direct_map_offset);
        let split = if word.spec_flags() is Some {
            spec_map_range(
                fresh,
                (level + 1) as usize,
                pool.drop_last(),
                direct_map_offset,
                floor_to(first, g),
                first | ((g - 1) as u64),
                word.spec_output_address()->0,
                word.spec_flags()->0,
            )
        } else {
            MapOutcome { table: fresh, pool: pool.drop_last(), done: true }
        };
        if word.spec_flags() is Some {
            lemma_range_consistent(
                fresh,
                (level + 1) as usize,
                pool.drop_last(),
                direct_map_offset,
                floor_to(first, g),
                first | ((g - 1) as u64),
                word.spec_output_address()->0,
                word.spec_flags()->0,
            );
        }
        if split.done {
            lemma_range_consistent(
                split.table,
                (level + 1) as usize,
                split.pool,
                direct_map_offset,
                first,
                last,
                pa,
                flags,
            );
        }
        assert forall|i: int| 0 <= i < 512 && (#[trigger] once.table.subtables[i]) is Some implies {
            &&& once.table.words[i].spec_is_table_or_page()
            &&& once.table.words[i].spec_output_address() == Some(
                ((once.table.subtables[i]->0).address - direct_map_offset) as u64,
            )
            &&& consistent(once.table.subtables[i]->0, (level + 1) as usize, direct_map_offset)
        } by {
            if i != index {
                assert(once.table.subtables[i] == table.subtables[i]);
            }
        }
    }
}

/// Mapping a range keeps the descriptors in agreement with the ownership
/// of the tables, keeps the table in its page, and leaves a pool of usable
/// pages.
pub proof fn lemma_range_consistent(
    table: TableModel,
    level: usize,
    pool: Seq<u64>,
    direct_map_offset: u64,
    first: u64,
    last: u64,
    pa: u64,
    flags: u64,
)
    requires
        level <= LEAF_LEVEL,
        consistent(table, level, direct_map_offset),
        pool_usable(pool, direct_map_offset),
    ensures
        ({
            let r = spec_map_range(table, level, pool, direct_map_offset, first, last, pa, flags);
            &&& consistent(r.table, level, direct_map_offset)
            &&& pool_usable(r.pool, direct_map_offset)
            &&& r.table.address == table.address
        }),
    decreases LEAF_LEVEL - level, last - first, 1int,
{
    if first <= last {
        let stop = chunk_last(first, last, spec_granularity(level));
        if stop >= first {
            let step = spec_map_chunk(
                table,
                level,
                pool,
                direct_map_offset,
                first,
                stop,
                pa,
                flags,
            );
            lemma_chunk_consistent(table, level, pool, direct_map_offset, first, stop, pa, flags);
            if step.done && stop < last {
                lemma_range_consistent(
                    step.table,
                    level,
                    step.pool,
                    direct_map_offset,
                    (stop + 1) as u64,
                    last,
                    (pa + (stop - first) + 1) as u64,
                    flags,
                );
            }
        }
    }
}

/// Mapping a region keeps the descriptors of a hierarchy in agreement with
/// the ownership of its tables, whatever is mapped and whether the pool
/// suffices or not.
pub proof fn lemma_map_range_keeps_consistent(
    table: TableModel,
    va_range: VaRange,
    pool: Seq<u64>,
    direct_map_offset: u64,
    region: VirtualMemoryRegion,
    pa: u64,
    flags: u64,
)
    requires
        consistent(table, 0, direct_map_offset),
        pool_usable(pool, direct_map_offset),
    ensures
        consistent(
            spec_root_map(table, va_range, pool, direct_map_offset, region, pa, flags).table,
            0,
            direct_map_offset,
        ),
{
    if spec_check_range(va_range, region) is None && region.spec_start() < region.spec_end() {
        lemma_range_consistent(
            table,
            0,
            pool,
            direct_map_offset,
            region.spec_start(),
            (region.spec_end() - 1) as u64,
            pa,
            flags,
        );
    }
}

/// The number of tables below and including the subtable of a slot, 0 if
/// the slot owns none.
pub open spec fn slot_count(slot: Option<TableModel>, level: usize) -> nat {
    match slot {
        Some(child) => table_count(child, (level + 1) as usize),
        None => 0,
    }
}

/// How the number of tables below some slots changes when one slot gets
/// another subtable: by the difference of what hangs below that slot, if
/// the slot is among them.
pub proof fn lemma_count_with_slot(
    before: TableModel,
    after: TableModel,
    level: usize,
    index: int,
    count: nat,
)
    requires
        level < LEAF_LEVEL,
        count <= 512,
        0 <= index < 512,
        has_shape(before),
        has_shape(after),
        forall|j: int| 0 <= j < 512 && j != index ==> after.subtables[j] == before.subtables[j],
    ensures
        table_count_slots(after, level, count) + (if index < count {
            slot_count(before.subtables[index], level)
        } else {
            0
        }) == table_count_slots(before, level, count) + (if index < count {
            slot_count(after.subtables[index], level)
        } else {
            0
        }),
    decreases count,
{
    if count > 0 {
        lemma_count_with_slot(before, after, level, index, (count - 1) as nat);
    }
}

/// No table hangs below the slots of an empty table.
pub proof fn lemma_count_empty_slots(level: usize, address: u64, count: nat)
    requires
        level <= LEAF_LEVEL,
        count <= 512,
    ensures
        table_count_slots(empty_table(level, address), level, count) == 0,
    decreases count,
{
    if count > 0 {
        lemma_count_empty_slots(level, address, (count - 1) as nat);
    }
}

/// An empty table is one table.
pub proof fn lemma_count_empty(level: usize, address: u64)
    requires
        level <= LEAF_LEVEL,
    ensures
        table_count(empty_table(level, address), level) == 1,
{
    lemma_count_empty_slots(level, address, 512);
}

/// Mapping a chunk keeps the books of table pages: the tables of the
/// hierarchy and the pages of the pool are together as many as before.
pub proof fn lemma_chunk_balance(
    table: TableModel,
    level: usize,
    pool: Seq<u64>,
    direct_map_offset: u64,
    first: u64,
    last: u64,
    pa: u64,
    flags: u64,
)
    requires
        level <= LEAF_LEVEL,
        well_shaped(table, level),
    ensures
        ({
            let r = spec_map_chunk(table, level, pool, direct_map_offset, first, last, pa, flags);
            table_count(r.table, level) + r.pool.len() == table_count(table, level) + pool.len()
        }),
    decreases LEAF_LEVEL - level, last - first, 0int,
{
    let g = spec_granularity(level);
    let index = spec_index(first, level);
    let word = table.words[index];
    let once = spec_map_chunk(table, level, pool, direct_map_offset, first, last, pa, flags);
    lemma_chunk_frame(table, level, pool, direct_map_offset, first, last, pa, flags);
    if level >= LEAF_LEVEL {
    } else {
        lemma_count_with_slot(table, once.table, level, index, 512);
        if table.subtables[index] is Some {
            let child = table.subtables[index]->0;
            lemma_range_balance(
                child,
                (level + 1) as usize,
                pool,
                direct_map_offset,
                first,
                last,
                pa,
                flags,
            );
        } else if spec_is_block(first, last, g) && !word.spec_is_table_or_page() && is_aligned_to(
            pa,
            g,
        ) {
        } else if pool.len() == 0 {
        } else {
            let fresh = empty_table((level + 1) as usize, pool.last());
            lemma_count_empty((level + 1) as usize, pool.last());
            assert(well_shaped(fresh, (level + 1) as usize));
            let split = if word.spec_flags() is Some {
                spec_map_range(
                    fresh,
                    (level + 1) as usize,
                    pool.drop_last(),
                    direct_map_offset,
                    floor_to(first, g),
                    first | ((g - 1) as u64),
                    word.spec_output_address()->0,
                    word.spec_flags()->0,
                )
            } else {
                MapOutcome { table: fresh, pool: pool.drop_last(), done: true }
            };
            if word.spec_flags() is Some {
                lemma_range_well_shaped(
                    fresh,
                    (level + 1) as usize,
                    pool.drop_last(),
                    direct_map_offset,
                    floor_to(first, g),
                    first | ((g - 1) as u64),
                    word.spec_output_address()->0,
                    word.spec_flags()->0,
                );
                lemma_range_balance(
                    fresh,
                    (level + 1) as usize,
                    pool.drop_last(),
                    direct_map_offset,
                    floor_to(first, g),
                    first | ((g - 1) as u64),
                    word.spec_output_address()->0,
                    word.spec_flags()->0,
                );
            }
            if split.done {
                lemma_range_balance(
                    split.table,
                    (level + 1) as usize,
                    split.pool,
                    direct_map_offset,
                    first,
                    last,
                    pa,
                    flags,
                );
            }
        }
    }
}

/// Mapping a range keeps the books of table pages: the tables of the
/// hierarchy and the pages of the pool are together as many as before.
pub proof fn lemma_range_balance(
    table: TableModel,
    level: usize,
    pool: Seq<u64>,
    direct_map_offset: u64,
    first: u64,
    last: u64,
    pa: u64,
    flags: u64,
)
    requires
        level <= LEAF_LEVEL,
        well_shaped(table, level),
    ensures
        ({
            let r = spec_map_range(table, level, pool, direct_map_offset, first, last, pa, flags);
            table_count(r.table, level) + r.pool.len() == table_count(table, level) + pool.len()
        }),
    decreases LEAF_LEVEL - level, last - first, 1int,
{
    if first <= last {
        let stop = chunk_last(first, last, spec_granularity(level));
        if stop >= first {
            let step = spec_map_chunk(
                table,
                level,
                pool,
                direct_map_offset,
                first,
                stop,
                pa,
                flags,
            );
            lemma_chunk_well_shaped(table, level, pool, direct_map_offset, first, stop, pa, flags);
            lemma_chunk_balance(table, level, pool, direct_map_offset, first, stop, pa, flags);
            if step.done && stop < last {
                lemma_range_balance(
                    step.table,
                    level,
                    step.pool,
                    direct_map_offset,
                    (stop + 1) as u64,
                    last,
                    (pa + (stop - first) + 1) as u64,
                    flags,
                );
            }
        }
    }
}

/// No table page is lost: whatever is mapped, and whether the pool
/// suffices or not, the tables of the hierarchy and the pages of the pool
/// are together as many after the mapping as before. As releasing a
/// hierarchy gives the pool one page for each of its tables, every page
/// that mapping took from the pool comes back.
pub proof fn lemma_map_range_keeps_pages(
    table: TableModel,
    va_range: VaRange,
    pool: Seq<u64>,
    direct_map_offset: u64,
    region: VirtualMemoryRegion,
    pa: u64,
    flags: u64,
)
    requires
        well_shaped(table, 0),
    ensures
        ({
            let r = spec_root_map(table, va_range, pool, direct_map_offset, region, pa, flags);
            table_count(r.table, 0) + r.pool.len() == table_count(table, 0) + pool.len()
        }),
{
    if spec_check_range(va_range, region) is None && region.spec_start() < region.spec_end() {
        lemma_range_balance(
            table,
            0,
            pool,
            direct_map_offset,
            region.spec_start(),
            (region.spec_end() - 1) as u64,
            pa,
            flags,
        );
    }
}

} // verus!
