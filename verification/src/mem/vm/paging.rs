//! AArch64 stage-1 translation tables with a 4 KiB granule, 48-bit input
//! addresses and a level-0 root.
//!
//! A table owns its subtables: every slot of a table holds the descriptor
//! word the hardware reads and, where that word points to a subtable, the
//! handle of that subtable. Table pages come from a [`TablePool`] of
//! direct-mapped pages and go back to it when a hierarchy is released.

use vstd::prelude::*;

use crate::mem::allocator::{
    align_down, align_up, ceil_to, floor_to, is_aligned_to, is_power_of_two, lemma_floor_to,
    lemma_page_aligned,
};
use crate::mem::vm::laws::{
    clean, consistent, lemma_empty_table, lemma_map_range_keeps_clean,
    lemma_map_range_keeps_consistent, pool_usable, region_mappable, well_shaped,
};
use crate::mem::vm::MapError;

verus! {

/// Number of address bits inside a page.
pub const PAGE_SHIFT: usize = 12;

/// The level whose entries are page mappings.
pub const LEAF_LEVEL: usize = 3;

/// The page size in bytes.
pub const PAGE_SIZE: u64 = 4096;

/// Address bits resolved by one level of lookup.
pub const BITS_PER_LEVEL: usize = 9;

/// Descriptors in one table.
pub const ENTRIES_PER_TABLE: usize = 512;

/// Bytes of address space that a level-0 table covers.
pub const ADDRESSABLE_SIZE: u64 = 0x0001_0000_0000_0000;

/// The descriptor bits that hold the output address, bits 12 to 47.
pub const OUTPUT_ADDRESS_MASK: u64 = 0x0000_ffff_ffff_f000;

/// The descriptor bits that may hold attributes.
pub const ATTRIBUTE_FIELD_MASK: u64 = 0xffff_0000_0000_0fff;

/// The entry maps or points to something.
pub const VALID: u64 = 0x1;

/// The entry is a table pointer, or at the leaf level a page.
pub const TABLE_OR_PAGE: u64 = 0x2;

/// Device memory, nGnRnE.
pub const DEVICE_NGNRNE: u64 = 0x0;

/// Normal memory, inner shareable.
pub const NORMAL: u64 = 0x304;

/// Accessible from EL0.
pub const USER: u64 = 0x40;

/// Not writable.
pub const READ_ONLY: u64 = 0x80;

/// The access flag.
pub const ACCESSED: u64 = 0x400;

/// Tagged with the address-space identifier.
pub const NON_GLOBAL: u64 = 0x800;

/// Not executable, privileged and unprivileged.
pub const EXECUTE_NEVER: u64 = 0x0060_0000_0000_0000;

/// Every attribute bit that has a meaning.
pub const ALL_ATTRIBUTES: u64 = 0x0060_0000_0000_0fc7;

/// Attribute bits of a mapping.
#[derive(Clone, Copy, Debug, PartialEq, Eq, Structural)]
pub struct Attributes {
    bits: u64,
}

impl Attributes {
    /// The bits of the set.
    pub closed spec fn view(&self) -> u64 {
        self.bits
    }

    /// Every bit of the set has a meaning.
    pub open spec fn wf(&self) -> bool {
        self@ & !ALL_ATTRIBUTES == 0
    }

    /// The set with exactly the given bits, if each of them has a meaning.
    pub fn from_bits(bits: u64) -> (r: Option<Attributes>)
        ensures
            r.is_some() <==> bits & !ALL_ATTRIBUTES == 0,
            r.is_some() ==> r.unwrap()@ == bits && r.unwrap().wf(),
    {
        if bits & !ALL_ATTRIBUTES == 0 {
            Some(Attributes { bits })
        } else {
            None
        }
    }

    /// The given bits without those that have no meaning.
    pub fn from_bits_truncate(bits: u64) -> (r: Attributes)
        ensures
            r@ == bits & ALL_ATTRIBUTES,
            r.wf(),
    {
        assert((bits & 0x0060_0000_0000_0fc7u64) & !0x0060_0000_0000_0fc7u64 == 0) by (bit_vector);
        Attributes { bits: bits & ALL_ATTRIBUTES }
    }

    /// The empty set.
    pub fn empty() -> (r: Attributes)
        ensures
            r@ == 0,
            r.wf(),
    {
        assert(0u64 & !0x0060_0000_0000_0fc7u64 == 0) by (bit_vector);
        Attributes { bits: 0 }
    }

    /// The bits of the set.
    pub fn bits(&self) -> (r: u64)
        ensures
            r == self@,
    {
        self.bits
    }

    /// The bits of either set.
    pub fn union(self, other: Attributes) -> (r: Attributes)
        ensures
            r@ == self@ | other@,
            self.wf() && other.wf() ==> r.wf(),
    {
        let a = self.bits;
        let b = other.bits;
        assert(a & !0x0060_0000_0000_0fc7u64 == 0 && b & !0x0060_0000_0000_0fc7u64 == 0 ==> (a | b)
            & !0x0060_0000_0000_0fc7u64 == 0) by (bit_vector);
        Attributes { bits: self.bits | other.bits }
    }

    /// Whether every bit of `other` is in this set.
    pub fn contains(&self, other: Attributes) -> (r: bool)
        ensures
            r == (self@ & other@ == other@),
    {
        self.bits & other.bits == other.bits
    }
}

/// Which half of the address space a table serves, and so which base
/// register holds it.
#[derive(Clone, Copy, Debug, PartialEq, Eq, Structural)]
pub enum VaRange {
    /// The bottom of the address space, from address 0; `TTBR0`.
    Lower,
    /// The top of the address space, up to the last address; `TTBR1`.
    Upper,
}

/// A virtual address, the input of a stage-1 translation.
#[derive(Clone, Copy, Debug, PartialEq, Eq, Structural)]
pub struct VirtualAddress(pub u64);

/// A physical address, the output of a stage-1 translation.
#[derive(Clone, Copy, Debug, PartialEq, Eq, Structural)]
pub struct PhysicalAddress(pub u64);

impl VirtualAddress {
    /// The address `offset` bytes further on.
    pub fn add(self, offset: u64) -> (r: VirtualAddress)
        requires
            self.0 + offset <= u64::MAX,
        ensures
            r.0 == self.0 + offset,
    {
        VirtualAddress(self.0 + offset)
    }

    /// The address `offset` bytes back.
    pub fn sub(self, offset: u64) -> (r: VirtualAddress)
        requires
            offset <= self.0,
        ensures
            r.0 == self.0 - offset,
    {
        VirtualAddress(self.0 - offset)
    }

    /// The bytes from `other` up to this address.
    pub fn distance_from(self, other: VirtualAddress) -> (r: u64)
        requires
            other.0 <= self.0,
        ensures
            r == self.0 - other.0,
    {
        self.0 - other.0
    }
}

impl PhysicalAddress {
    /// The address `offset` bytes further on.
    pub fn add(self, offset: u64) -> (r: PhysicalAddress)
        requires
            self.0 + offset <= u64::MAX,
        ensures
            r.0 == self.0 + offset,
    {
        PhysicalAddress(self.0 + offset)
    }

    /// The address `offset` bytes back.
    pub fn sub(self, offset: u64) -> (r: PhysicalAddress)
        requires
            offset <= self.0,
        ensures
            r.0 == self.0 - offset,
    {
        PhysicalAddress(self.0 - offset)
    }

    /// The bytes from `other` up to this address.
    pub fn distance_from(self, other: PhysicalAddress) -> (r: u64)
        requires
            other.0 <= self.0,
        ensures
            r == self.0 - other.0,
    {
        self.0 - other.0
    }
}

/// A half-open range of virtual addresses whose two ends are page
/// boundaries.
#[derive(Clone, Copy, Debug, PartialEq, Eq, Structural)]
pub struct VirtualMemoryRegion {
    start: VirtualAddress,
    end: VirtualAddress,
}

/// A half-open range of physical addresses.
#[derive(Clone, Copy, Debug, PartialEq, Eq, Structural)]
pub struct PhysicalMemoryRegion {
    pub start: PhysicalAddress,
    pub end: PhysicalAddress,
}

impl VirtualMemoryRegion {
    /// The first address of the range.
    pub closed spec fn spec_start(&self) -> u64 {
        self.start.0
    }

    /// The first address after the range.
    pub closed spec fn spec_end(&self) -> u64 {
        self.end.0
    }

    /// The range from `start` to `end`, as it is.
    pub closed spec fn spec_from(start: u64, end: u64) -> VirtualMemoryRegion {
        VirtualMemoryRegion { start: VirtualAddress(start), end: VirtualAddress(end) }
    }

    /// The range from `start` rounded down to a page boundary to `end`
    /// rounded up to one.
    pub open spec fn spec_new(start: u64, end: u64) -> VirtualMemoryRegion {
        Self::spec_from(floor_to(start, PAGE_SIZE), ceil_to(end, PAGE_SIZE))
    }

    /// Both ends are page boundaries.
    pub open spec fn wf(&self) -> bool {
        self.spec_start() % 4096 == 0 && self.spec_end() % 4096 == 0
    }

    /// The range from `start` rounded down to a page boundary to `end`
    /// rounded up to one. The rounded end must fit in a machine word.
    pub fn new(start: u64, end: u64) -> (r: VirtualMemoryRegion)
        requires
            end + 4095 <= u64::MAX,
        ensures
            r.wf(),
            r == Self::spec_new(start, end),
            r.spec_start() == start - start % 4096,
            r.spec_end() == (if end % 4096 == 0 {
                end as int
            } else {
                end - end % 4096 + 4096
            }),
            r.spec_start() <= start,
            r.spec_end() >= end,
            start <= end ==> r.spec_end() - r.spec_start() >= end - start,
    {
        proof {
            lemma_page_aligned(start);
            lemma_page_aligned(end);
            crate::mem::allocator::lemma_page_size_is_power_of_two();
        }
        VirtualMemoryRegion {
            start: VirtualAddress(align_down(start, PAGE_SIZE)),
            end: VirtualAddress(align_up(end, PAGE_SIZE)),
        }
    }

    /// The first address of the range.
    pub fn start(&self) -> (r: VirtualAddress)
        ensures
            r.0 == self.spec_start(),
    {
        self.start
    }

    /// The first address after the range.
    pub fn end(&self) -> (r: VirtualAddress)
        ensures
            r.0 == self.spec_end(),
    {
        self.end
    }

    /// The length of the range in bytes; the range must not be backwards.
    pub fn len(&self) -> (r: u64)
        requires
            self.spec_start() <= self.spec_end(),
        ensures
            r == self.spec_end() - self.spec_start(),
    {
        self.end.0 - self.start.0
    }

    /// Whether the range holds no byte.
    pub fn is_empty(&self) -> (r: bool)
        ensures
            r == (self.spec_start() == self.spec_end()),
    {
        self.start.0 == self.end.0
    }
}

/// Bytes of address space that one entry of a table at `level` covers.
pub open spec fn spec_granularity(level: usize) -> u64 {
    if level == 0 {
        0x80_0000_0000
    } else if level == 1 {
        0x4000_0000
    } else if level == 2 {
        0x20_0000
    } else {
        0x1000
    }
}

/// Bytes of address space that one entry of a table at `level` covers.
pub fn granularity_at_level(level: usize) -> (r: u64)
    requires
        level <= LEAF_LEVEL,
    ensures
        r == spec_granularity(level),
        is_power_of_two(r),
        r >= 4096,
{
    let shift: u64 = ((LEAF_LEVEL - level) * BITS_PER_LEVEL) as u64;
    assert(shift == 0 || shift == 9 || shift == 18 || shift == 27);
    assert(4096u64 << 0 == 0x1000 && 4096u64 << 9 == 0x20_0000 && 4096u64 << 18 == 0x4000_0000
        && 4096u64 << 27 == 0x80_0000_0000) by (bit_vector);
    proof {
        lemma_granularity(level);
    }
    PAGE_SIZE << shift
}

/// Every granularity is a power of two and a multiple of the page size.
pub proof fn lemma_granularity(level: usize)
    ensures
        is_power_of_two(spec_granularity(level)),
        spec_granularity(level) >= 4096,
        spec_granularity(level) % 4096 == 0,
{
    assert(0x80_0000_0000u64 & ((0x80_0000_0000u64 - 1) as u64) == 0) by (bit_vector);
    assert(0x4000_0000u64 & ((0x4000_0000u64 - 1) as u64) == 0) by (bit_vector);
    assert(0x20_0000u64 & ((0x20_0000u64 - 1) as u64) == 0) by (bit_vector);
    assert(0x1000u64 & ((0x1000u64 - 1) as u64) == 0) by (bit_vector);
}

/// Whether `value` is a multiple of the power of two `alignment`.
pub fn is_aligned(value: u64, alignment: u64) -> (r: bool)
    requires
        alignment > 0,
    ensures
        r == is_aligned_to(value, alignment),
{
    value & (alignment - 1) == 0
}

/// One entry of a translation table: invalid, a page mapping at the leaf
/// level, a block mapping above it, or a pointer to a subtable.
#[derive(Clone, Copy, Debug, PartialEq, Eq, Structural)]
pub struct Descriptor(pub u64);

impl Descriptor {
    /// Whether the entry maps or points to something.
    pub open spec fn spec_is_valid(self) -> bool {
        self.0 & VALID != 0
    }

    /// The output address of a valid entry.
    pub open spec fn spec_output_address(self) -> Option<u64> {
        if self.spec_is_valid() {
            Some(self.0 & OUTPUT_ADDRESS_MASK)
        } else {
            None
        }
    }

    /// The attribute bits of a valid entry, if each of them has a meaning.
    pub open spec fn spec_flags(self) -> Option<u64> {
        if self.spec_is_valid() && (self.0 & ATTRIBUTE_FIELD_MASK) & !ALL_ATTRIBUTES == 0 {
            Some(self.0 & ATTRIBUTE_FIELD_MASK)
        } else {
            None
        }
    }

    /// Whether the entry is a table pointer or a page.
    pub open spec fn spec_is_table_or_page(self) -> bool {
        match self.spec_flags() {
            Some(flags) => flags & TABLE_OR_PAGE == TABLE_OR_PAGE,
            None => false,
        }
    }

    /// The valid entry with the given output address and attributes.
    pub open spec fn spec_set(pa: u64, flags: u64) -> Descriptor {
        Descriptor(pa | (flags | VALID))
    }

    /// The output address of a valid entry.
    pub fn output_address(&self) -> (r: Option<PhysicalAddress>)
        ensures
            r.is_some() == self.spec_output_address().is_some(),
            r.is_some() ==> r.unwrap().0 == self.spec_output_address().unwrap(),
    {
        if self.is_valid() {
            Some(PhysicalAddress(self.0 & OUTPUT_ADDRESS_MASK))
        } else {
            None
        }
    }

    /// The attributes of a valid entry, if each of its bits has a meaning.
    pub fn flags(self) -> (r: Option<Attributes>)
        ensures
            r.is_some() == self.spec_flags().is_some(),
            r.is_some() ==> r.unwrap()@ == self.spec_flags().unwrap(),
    {
        if self.is_valid() {
            Attributes::from_bits(self.0 & ATTRIBUTE_FIELD_MASK)
        } else {
            None
        }
    }

    /// Whether the entry maps or points to something.
    pub fn is_valid(self) -> (r: bool)
        ensures
            r == self.spec_is_valid(),
    {
        (self.0 & VALID) != 0
    }

    /// Whether the entry is a table pointer or a page.
    pub fn is_table_or_page(self) -> (r: bool)
        ensures
            r == self.spec_is_table_or_page(),
    {
        match self.flags() {
            Some(flags) => flags.bits() & TABLE_OR_PAGE == TABLE_OR_PAGE,
            None => false,
        }
    }

    /// Makes the entry valid, with the given output address and attributes.
    pub fn set(&mut self, pa: PhysicalAddress, flags: Attributes)
        ensures
            *final(self) == Self::spec_set(pa.0, flags@),
    {
        self.0 = pa.0 | (flags.bits() | VALID);
    }

    /// Whether the entry, in a table at `level`, points to a subtable.
    pub fn points_to_subtable(&self, level: usize) -> (r: bool)
        ensures
            r == (level < LEAF_LEVEL && self.spec_is_table_or_page()),
    {
        level < LEAF_LEVEL && self.is_table_or_page()
    }
}

/// Whether the page at virtual address `page` can hold a table: it lies in
/// the direct-map window `[direct_map_offset, window_end)` and its physical
/// address fits the output-address field of a descriptor.
pub open spec fn table_page_ok(direct_map_offset: u64, window_end: u64, page: u64) -> bool {
    &&& direct_map_offset <= page < window_end
    &&& ((page - direct_map_offset) as u64) & ATTRIBUTE_FIELD_MASK == 0
}

/// The direct-mapped pages from which tables are made. A page is named by
/// its virtual address in the direct-map window; its physical address is
/// that less the direct-map offset.
pub struct TablePool {
    direct_map_offset: u64,
    window_end: u64,
    pages: Vec<u64>,
}

impl TablePool {
    /// The free pages; the last one is handed out first.
    pub closed spec fn view(&self) -> Seq<u64> {
        self.pages@
    }

    /// The offset of the direct map.
    pub closed spec fn spec_direct_map_offset(&self) -> u64 {
        self.direct_map_offset
    }

    /// The end of the direct-map window.
    pub closed spec fn spec_window_end(&self) -> u64 {
        self.window_end
    }

    /// Every free page can hold a table.
    pub open spec fn wf(&self) -> bool {
        forall|i: int|
            0 <= i < self@.len() ==> table_page_ok(
                self.spec_direct_map_offset(),
                self.spec_window_end(),
                #[trigger] self@[i],
            )
    }

    /// Every page of a well-formed pool is usable for a table.
    pub proof fn lemma_usable(&self)
        requires
            self.wf(),
        ensures
            pool_usable(self@, self.spec_direct_map_offset()),
    {
        assert forall|k: int| 0 <= k < self@.len() implies (#[trigger] self@[k])
            >= self.spec_direct_map_offset() && ((self@[k] - self.spec_direct_map_offset()) as u64)
            & ATTRIBUTE_FIELD_MASK == 0 by {
            assert(table_page_ok(self.spec_direct_map_offset(), self.spec_window_end(), self@[k]));
        }
    }

    /// An empty pool for the window `[direct_map_offset, window_end)`.
    pub fn new(direct_map_offset: u64, window_end: u64) -> (r: TablePool)
        ensures
            r.wf(),
            r@ == Seq::<u64>::empty(),
            r.spec_direct_map_offset() == direct_map_offset,
            r.spec_window_end() == window_end,
    {
        TablePool { direct_map_offset, window_end, pages: Vec::new() }
    }

    /// The offset of the direct map.
    pub fn direct_map_offset(&self) -> (r: u64)
        ensures
            r == self.spec_direct_map_offset(),
    {
        self.direct_map_offset
    }

    /// The end of the direct-map window.
    pub fn window_end(&self) -> (r: u64)
        ensures
            r == self.spec_window_end(),
    {
        self.window_end
    }

    /// The number of free pages.
    pub fn available(&self) -> (r: usize)
        ensures
            r == self@.len(),
    {
        self.pages.len()
    }

    /// Whether the page at `page` can hold a table of this pool.
    pub fn accepts(&self, page: u64) -> (r: bool)
        ensures
            r == table_page_ok(self.spec_direct_map_offset(), self.spec_window_end(), page),
    {
        page >= self.direct_map_offset && page < self.window_end && (page
            - self.direct_map_offset) & ATTRIBUTE_FIELD_MASK == 0
    }

    /// Adds the page at `page` to the pool if it can hold a table, and says
    /// whether it did.
    pub fn add_page(&mut self, page: u64) -> (r: bool)
        requires
            old(self).wf(),
        ensures
            final(self).wf(),
            final(self).spec_direct_map_offset() == old(self).spec_direct_map_offset(),
            final(self).spec_window_end() == old(self).spec_window_end(),
            r == table_page_ok(old(self).spec_direct_map_offset(), old(self).spec_window_end(), page),
            r ==> final(self)@ == old(self)@.push(page),
            !r ==> final(self)@ == old(self)@,
    {
        if self.accepts(page) {
            self.pages.push(page);
            assert forall|i: int| 0 <= i < self@.len() implies table_page_ok(
                self.spec_direct_map_offset(),
                self.spec_window_end(),
                #[trigger] self@[i],
            ) by {
                if i < old(self)@.len() {
                    assert(self@[i] == old(self)@[i]);
                }
            }
            true
        } else {
            false
        }
    }

    /// Takes the page that was added last, if there is one.
    pub fn take(&mut self) -> (r: Option<u64>)
        requires
            old(self).wf(),
        ensures
            final(self).wf(),
            final(self).spec_direct_map_offset() == old(self).spec_direct_map_offset(),
            final(self).spec_window_end() == old(self).spec_window_end(),
            r.is_some() <==> old(self)@.len() > 0,
            r.is_some() ==> r.unwrap() == old(self)@.last() && final(self)@ == old(
                self,
            )@.drop_last() && table_page_ok(
                final(self).spec_direct_map_offset(),
                final(self).spec_window_end(),
                r.unwrap(),
            ),
            r.is_none() ==> final(self)@ == old(self)@,
    {
        self.pages.pop()
    }
}

/// One level of a translation table: 512 descriptors in the page at
/// `address`.
pub struct RawPageTable {
    address: VirtualAddress,
    entries: Vec<Descriptor>,
}

impl RawPageTable {
    /// The virtual address of the page that holds the table.
    pub closed spec fn spec_address(&self) -> u64 {
        self.address.0
    }

    /// The descriptors of the table.
    pub closed spec fn view(&self) -> Seq<Descriptor> {
        self.entries@
    }

    /// A table of 512 invalid descriptors in the page at `page`.
    pub fn new(page: u64) -> (r: RawPageTable)
        ensures
            r.spec_address() == page,
            r@ == Seq::new(512, |i: int| Descriptor(0)),
    {
        let mut entries: Vec<Descriptor> = Vec::new();
        while entries.len() < ENTRIES_PER_TABLE
            invariant
                entries@.len() <= 512,
                forall|i: int| 0 <= i < entries@.len() ==> entries@[i] == Descriptor(0),
            decreases 512 - entries@.len(),
        {
            entries.push(Descriptor(0));
        }
        assert(entries@ =~= Seq::new(512, |i: int| Descriptor(0)));
        RawPageTable { address: VirtualAddress(page), entries }
    }

    /// The physical address of the table: its virtual address less the
    /// direct-map offset. The table must lie in the direct-map window
    /// `[direct_map_offset, window_end)`.
    pub fn get_physical_base(&self, direct_map_offset: u64, window_end: u64) -> (r: PhysicalAddress)
        requires
            direct_map_offset <= self.spec_address() < window_end,
        ensures
            r.0 == self.spec_address() - direct_map_offset,
    {
        PhysicalAddress(self.address.0 - direct_map_offset)
    }
}

/// What a table holds: its level, the page it lies in, its descriptors, and
/// for each slot the subtable that the slot owns.
pub struct TableModel {
    pub level: usize,
    pub address: u64,
    pub words: Seq<Descriptor>,
    pub subtables: Seq<Option<TableModel>>,
}

/// What mapping a range leaves behind: the table, the pool, and whether the
/// whole range was mapped (`false`: the pool ran dry on the way).
pub struct MapOutcome {
    pub table: TableModel,
    pub pool: Seq<u64>,
    pub done: bool,
}

/// The table of invalid descriptors at `level` in the page at `address`.
pub open spec fn empty_table(level: usize, address: u64) -> TableModel {
    TableModel {
        level,
        address,
        words: Seq::new(512, |i: int| Descriptor(0)),
        subtables: Seq::new(512, |i: int| None::<TableModel>),
    }
}

/// The slot of a table at `level` that translates `va`.
pub open spec fn spec_index(va: u64, level: usize) -> int {
    (va / spec_granularity(level)) as int % 512
}

/// The last address of the chunk that starts at `first`: the end of the
/// entry that holds `first`, or `last` if that comes sooner.
pub open spec fn chunk_last(first: u64, last: u64, granularity: u64) -> u64 {
    let entry_last = first | ((granularity - 1) as u64);
    if last < entry_last {
        last
    } else {
        entry_last
    }
}

/// Whether `[first, last]` is the whole of one entry of the given
/// granularity.
pub open spec fn spec_is_block(first: u64, last: u64, granularity: u64) -> bool {
    is_aligned_to(first, granularity) && last == first | ((granularity - 1) as u64)
}

/// `table` with the descriptor of slot `index` replaced.
pub open spec fn with_word(table: TableModel, index: int, word: Descriptor) -> TableModel {
    TableModel { words: table.words.update(index, word), ..table }
}

/// `table` with the descriptor and the subtable of slot `index` replaced.
pub open spec fn with_subtable(
    table: TableModel,
    index: int,
    word: Descriptor,
    subtable: TableModel,
) -> TableModel {
    TableModel {
        words: table.words.update(index, word),
        subtables: table.subtables.update(index, Some(subtable)),
        ..table
    }
}

/// Maps the addresses `first..=last`, which lie in one slot of `table`, to
/// the physical addresses from `pa` on.
///
/// At the leaf level the slot becomes a page. Above it, a chunk in a slot
/// that owns a subtable is mapped in that subtable. A slot that owns none
/// becomes a block if the chunk is the whole entry, the descriptor is no
/// table pointer and `pa` is aligned to the entry. Otherwise a subtable is
/// made from the last page of the pool; a block that the slot held is
/// first laid out again in the new subtable, over the whole entry, and
/// then the chunk is mapped in it. With an empty pool nothing changes and
/// the mapping is not done.
pub open spec fn spec_map_chunk(
    table: TableModel,
    level: usize,
    pool: Seq<u64>,
    direct_map_offset: u64,
    first: u64,
    last: u64,
    pa: u64,
    flags: u64,
) -> MapOutcome
    decreases LEAF_LEVEL - level, last - first, 0int,
{
    let granularity = spec_granularity(level);
    let index = spec_index(first, level);
    let word = table.words[index];
    if level >= LEAF_LEVEL {
        MapOutcome {
            table: with_word(
                table,
                index,
                Descriptor::spec_set(pa, flags | ACCESSED | TABLE_OR_PAGE),
            ),
            pool,
            done: true,
        }
    } else if table.subtables[index] is Some {
        let inner = spec_map_range(
            table.subtables[index]->0,
            (level + 1) as usize,
            pool,
            direct_map_offset,
            first,
            last,
            pa,
            flags,
        );
        MapOutcome {
            table: with_subtable(table, index, word, inner.table),
            pool: inner.pool,
            done: inner.done,
        }
    } else if spec_is_block(first, last, granularity) && !word.spec_is_table_or_page()
        && is_aligned_to(pa, granularity) {
        MapOutcome {
            table: with_word(table, index, Descriptor::spec_set(pa, flags | ACCESSED)),
            pool,
            done: true,
        }
    } else if pool.len() == 0 {
        MapOutcome { table, pool, done: false }
    } else {
        let page = pool.last();
        let fresh = empty_table((level + 1) as usize, page);
        let pointer = Descriptor::spec_set((page - direct_map_offset) as u64, TABLE_OR_PAGE);
        let split = if word.spec_flags() is Some {
            spec_map_range(
                fresh,
                (level + 1) as usize,
                pool.drop_last(),
                direct_map_offset,
                floor_to(first, granularity),
                first | ((granularity - 1) as u64),
                word.spec_output_address()->0,
                word.spec_flags()->0,
            )
        } else {
            MapOutcome { table: fresh, pool: pool.drop_last(), done: true }
        };
        let inner = if split.done {
            spec_map_range(
                split.table,
                (level + 1) as usize,
                split.pool,
                direct_map_offset,
                first,
                last,
                pa,
                flags,
            )
        } else {
            split
        };
        MapOutcome {
            table: with_subtable(table, index, pointer, inner.table),
            pool: inner.pool,
            done: inner.done,
        }
    }
}

/// Maps the addresses `first..=last` in `table`, chunk by chunk, to the
/// physical addresses from `pa` on. Stops at the first chunk for which the
/// pool runs dry.
pub open spec fn spec_map_range(
    table: TableModel,
    level: usize,
    pool: Seq<u64>,
    direct_map_offset: u64,
    first: u64,
    last: u64,
    pa: u64,
    flags: u64,
) -> MapOutcome
    decreases LEAF_LEVEL - level, last - first, 1int,
{
    if level > LEAF_LEVEL || first > last {
        MapOutcome { table, pool, done: true }
    } else {
        let stop = chunk_last(first, last, spec_granularity(level));
        if stop < first {
            MapOutcome { table, pool, done: true }
        } else {
            let step = spec_map_chunk(
                table,
                level,
                pool,
                direct_map_offset,
                first,
                stop,
                pa,
                flags,
            );
            if !step.done || stop >= last {
                step
            } else {
                spec_map_range(
                    step.table,
                    level,
                    step.pool,
                    direct_map_offset,
                    (stop + 1) as u64,
                    last,
                    (pa + (stop - first) + 1) as u64,
                    flags,
                )
            }
        }
    }
}

/// A table together with its level and the subtables that its slots own.
pub struct PageTable {
    table: RawPageTable,
    level: usize,
    subtables: Vec<Option<Box<PageTable>>>,
}

impl PageTable {
    /// The level of the table.
    pub closed spec fn spec_level(&self) -> usize {
        self.level
    }

    /// What the table holds, down to `depth` levels below it.
    pub closed spec fn model_at(&self, depth: nat) -> TableModel
        decreases depth,
    {
        TableModel {
            level: self.level,
            address: self.table.address.0,
            words: self.table.entries@,
            subtables: Seq::new(
                self.subtables@.len(),
                |i: int|
                    match self.subtables@[i] {
                        Some(child) => if depth > 0 {
                            Some(child.model_at((depth - 1) as nat))
                        } else {
                            None
                        },
                        None => None,
                    },
            ),
        }
    }

    /// What the table holds.
    pub closed spec fn view(&self) -> TableModel {
        self.model_at((LEAF_LEVEL - self.level) as nat)
    }

    /// The table and its subtables, `depth` levels deep, each have 512
    /// slots, lie in pages of the direct-map window, and sit one level below
    /// their owner; tables at the leaf level own nothing.
    pub closed spec fn wf_at(&self, depth: nat, direct_map_offset: u64, window_end: u64) -> bool
        decreases depth,
    {
        &&& self.level + depth == LEAF_LEVEL
        &&& self.table.entries@.len() == 512
        &&& self.subtables@.len() == 512
        &&& table_page_ok(direct_map_offset, window_end, self.table.address.0)
        &&& forall|i: int|
            0 <= i < 512 ==> match #[trigger] self.subtables@[i] {
                Some(child) => depth > 0 && child.wf_at(
                    (depth - 1) as nat,
                    direct_map_offset,
                    window_end,
                ),
                None => true,
            }
    }

    /// The hierarchy below the table is well formed for the direct-map
    /// window `[direct_map_offset, window_end)`.
    pub closed spec fn wf(&self, direct_map_offset: u64, window_end: u64) -> bool {
        self.level <= LEAF_LEVEL && self.wf_at(
            (LEAF_LEVEL - self.level) as nat,
            direct_map_offset,
            window_end,
        )
    }

    /// Every table of a well-formed hierarchy, `depth` levels deep, has 512
    /// slots.
    pub proof fn lemma_wf_at_well_shaped(&self, depth: nat, direct_map_offset: u64, window_end: u64)
        requires
            self.wf_at(depth, direct_map_offset, window_end),
        ensures
            well_shaped(self.model_at(depth), self.spec_level()),
        decreases depth,
    {
        let model = self.model_at(depth);
        if self.level < LEAF_LEVEL {
            assert forall|i: int| 0 <= i < 512 && (#[trigger] model.subtables[i]) is Some implies
                well_shaped(model.subtables[i]->0, (self.level + 1) as usize) by {
                match self.subtables@[i] {
                    Some(child) => {
                        assert(depth > 0);
                        assert(child.wf_at((depth - 1) as nat, direct_map_offset, window_end));
                        child.lemma_wf_at_well_shaped(
                            (depth - 1) as nat,
                            direct_map_offset,
                            window_end,
                        );
                        assert(model.subtables[i] == Some(child.model_at((depth - 1) as nat)));
                        assert(child.spec_level() == self.level + 1);
                    },
                    None => {
                        assert(model.subtables[i] is None);
                    },
                }
            }
        }
    }

    /// Every table of a well-formed hierarchy has 512 slots.
    pub proof fn lemma_wf_well_shaped(&self, direct_map_offset: u64, window_end: u64)
        requires
            self.wf(direct_map_offset, window_end),
        ensures
            well_shaped(self@, self.spec_level()),
    {
        self.lemma_wf_at_well_shaped(
            (LEAF_LEVEL - self.level) as nat,
            direct_map_offset,
            window_end,
        );
    }

    /// An empty table at `level` in the page at `page`.
    pub fn new(level: usize, page: u64, pool: &TablePool) -> (r: PageTable)
        requires
            level <= LEAF_LEVEL,
            table_page_ok(pool.spec_direct_map_offset(), pool.spec_window_end(), page),
        ensures
            r.wf(pool.spec_direct_map_offset(), pool.spec_window_end()),
            r.spec_level() == level,
            r@ == empty_table(level, page),
    {
        let table = RawPageTable::new(page);
        let mut subtables: Vec<Option<Box<PageTable>>> = Vec::new();
        while subtables.len() < ENTRIES_PER_TABLE
            invariant
                subtables@.len() <= 512,
                forall|i: int| 0 <= i < subtables@.len() ==> subtables@[i] is None,
            decreases 512 - subtables@.len(),
        {
            subtables.push(None);
        }
        let r = PageTable { table, level, subtables };
        assert(r@.subtables =~= empty_table(level, page).subtables);
        assert(r@.words =~= empty_table(level, page).words);
        r
    }

    /// The slot of a table at `level` that translates `va`.
    pub fn index_of(va: u64, level: usize) -> (r: usize)
        requires
            level <= LEAF_LEVEL,
        ensures
            r == spec_index(va, level),
            r < 512,
    {
        let shift: u64 = (PAGE_SHIFT + (LEAF_LEVEL - level) * BITS_PER_LEVEL) as u64;
        assert(va >> 12 == va / 0x1000 && va >> 21 == va / 0x20_0000 && va >> 30 == va
            / 0x4000_0000 && va >> 39 == va / 0x80_0000_0000) by (bit_vector);
        ((va >> shift) % 512) as usize
    }

    /// Maps the addresses `first..=last`, which lie in one slot of this
    /// table, to the physical addresses from `pa` on. Returns `false` if the
    /// pool ran dry on the way.
    pub fn map_chunk(
        &mut self,
        pool: &mut TablePool,
        first: u64,
        last: u64,
        pa: u64,
        flags: Attributes,
    ) -> (done: bool)
        requires
            old(self).wf(old(pool).spec_direct_map_offset(), old(pool).spec_window_end()),
            old(pool).wf(),
            first <= last,
            last <= first | ((spec_granularity(old(self).spec_level()) - 1) as u64),
            pa + (last - first) <= u64::MAX,
        ensures
            final(self).wf(old(pool).spec_direct_map_offset(), old(pool).spec_window_end()),
            final(self).spec_level() == old(self).spec_level(),
            final(self)@.address == old(self)@.address,
            final(pool).wf(),
            final(pool).spec_direct_map_offset() == old(pool).spec_direct_map_offset(),
            final(pool).spec_window_end() == old(pool).spec_window_end(),
            (MapOutcome { table: final(self)@, pool: final(pool)@, done }) == spec_map_chunk(
                old(self)@,
                old(self).spec_level(),
                old(pool)@,
                old(pool).spec_direct_map_offset(),
                first,
                last,
                pa,
                flags@,
            ),
        decreases LEAF_LEVEL - old(self).spec_level(), 0int,
    {
        let level = self.level;
        let granularity = granularity_at_level(level);
        let index = Self::index_of(first, level);
        let ghost before = self@;
        let ghost depth = (LEAF_LEVEL - level) as nat;
        let ghost offset = pool.spec_direct_map_offset();
        let ghost window_end = pool.spec_window_end();
        if level == LEAF_LEVEL {
            let attributes = flags.union(Attributes { bits: ACCESSED }).union(
                Attributes { bits: TABLE_OR_PAGE },
            );
            let mut word = self.table.entries[index];
            word.set(PhysicalAddress(pa), attributes);
            self.table.entries.set(index, word);
            assert(self@.subtables =~= before.subtables);
            return true;
        }
        let taken = self.subtables[index].take();
        match taken {
            Some(boxed) => {
                let mut child = *boxed;
                assert(old(self).subtables@[index as int] == Some(boxed));
                assert(child.wf_at((depth - 1) as nat, offset, window_end));
                assert(before.subtables[index as int] == Some(child@));
                let done = child.map_range(pool, first, last, pa, flags);
                let ghost after = child@;
                self.subtables.set(index, Some(Box::new(child)));
                assert(self@.subtables =~= before.subtables.update(index as int, Some(after)));
                assert(self@.words =~= before.words.update(index as int, before.words[index as int]));
                assert forall|i: int| 0 <= i < 512 implies match #[trigger] self.subtables@[i] {
                    Some(c) => depth > 0 && c.wf_at((depth - 1) as nat, offset, window_end),
                    None => true,
                } by {
                    if i != index {
                        assert(self.subtables@[i] == old(self).subtables@[i]);
                    }
                }
                done
            },
            None => {
                assert(self.subtables@ =~= old(self).subtables@);
                assert(self@.subtables =~= before.subtables);
                let old_word = self.table.entries[index];
                let entry_last = first | (granularity - 1);
                if is_aligned(first, granularity) && last == entry_last
                    && !old_word.is_table_or_page() && is_aligned(pa, granularity) {
                    let mut word = old_word;
                    word.set(PhysicalAddress(pa), flags.union(Attributes { bits: ACCESSED }));
                    self.table.entries.set(index, word);
                    assert(self@.subtables =~= before.subtables);
                    return true;
                }
                let page = match pool.take() {
                    Some(page) => page,
                    None => {
                        return false;
                    },
                };
                let mut child = PageTable::new(level + 1, page, pool);
                let mut done = true;
                match (old_word.flags(), old_word.output_address()) {
                    (Some(old_flags), Some(old_pa)) => {
                        proof {
                            lemma_floor_to(first, granularity);
                            lemma_entry_span(first, granularity);
                            lemma_output_address_bound(old_word.0);
                        }
                        done = child.map_range(
                            pool,
                            align_down(first, granularity),
                            entry_last,
                            old_pa.0,
                            old_flags,
                        );
                    },
                    _ => {},
                }
                if done {
                    done = child.map_range(pool, first, last, pa, flags);
                }
                let mut word = old_word;
                word.set(PhysicalAddress(page - pool.direct_map_offset()), Attributes { bits: TABLE_OR_PAGE });
                self.table.entries.set(index, word);
                let ghost after = child@;
                self.subtables.set(index, Some(Box::new(child)));
                assert(self@.subtables =~= before.subtables.update(index as int, Some(after)));
                assert forall|i: int| 0 <= i < 512 implies match #[trigger] self.subtables@[i] {
                    Some(c) => depth > 0 && c.wf_at((depth - 1) as nat, offset, window_end),
                    None => true,
                } by {
                    if i != index {
                        assert(self.subtables@[i] == old(self).subtables@[i]);
                    }
                }
                done
            },
        }
    }

    /// Maps the addresses `first..=last` in this table, chunk by chunk, to
    /// the physical addresses from `pa` on. Returns `false` if the pool ran
    /// dry on the way; the chunks before that one are mapped then.
    pub fn map_range(
        &mut self,
        pool: &mut TablePool,
        first: u64,
        last: u64,
        pa: u64,
        flags: Attributes,
    ) -> (done: bool)
        requires
            old(self).wf(old(pool).spec_direct_map_offset(), old(pool).spec_window_end()),
            old(pool).wf(),
            first <= last,
            pa + (last - first) <= u64::MAX,
        ensures
            final(self).wf(old(pool).spec_direct_map_offset(), old(pool).spec_window_end()),
            final(self).spec_level() == old(self).spec_level(),
            final(self)@.address == old(self)@.address,
            final(pool).wf(),
            final(pool).spec_direct_map_offset() == old(pool).spec_direct_map_offset(),
            final(pool).spec_window_end() == old(pool).spec_window_end(),
            (MapOutcome { table: final(self)@, pool: final(pool)@, done }) == spec_map_range(
                old(self)@,
                old(self).spec_level(),
                old(pool)@,
                old(pool).spec_direct_map_offset(),
                first,
                last,
                pa,
                flags@,
            ),
        decreases LEAF_LEVEL - old(self).spec_level(), 1int,
    {
        let level = self.level;
        let granularity = granularity_at_level(level);
        let mut cursor: u64 = first;
        let mut phys: u64 = pa;
        let ghost offset = pool.spec_direct_map_offset();
        let ghost goal = spec_map_range(
            self@,
            level,
            pool@,
            offset,
            first,
            last,
            pa,
            flags@,
        );
        loop
            invariant
                self.wf(offset, pool.spec_window_end()),
                self.spec_level() == level,
                level == old(self).spec_level(),
                self@.address == old(self)@.address,
                level <= LEAF_LEVEL,
                granularity == spec_granularity(level),
                is_power_of_two(granularity),
                pool.wf(),
                pool.spec_direct_map_offset() == offset,
                offset == old(pool).spec_direct_map_offset(),
                pool.spec_window_end() == old(pool).spec_window_end(),
                cursor <= last,
                phys + (last - cursor) <= u64::MAX,
                goal == spec_map_range(self@, level, pool@, offset, cursor, last, phys, flags@),
                goal == spec_map_range(
                    old(self)@,
                    old(self).spec_level(),
                    old(pool)@,
                    old(pool).spec_direct_map_offset(),
                    first,
                    last,
                    pa,
                    flags@,
                ),
            decreases last - cursor,
        {
            let entry_last = cursor | (granularity - 1);
            proof {
                lemma_entry_span(cursor, granularity);
            }
            let stop = if last < entry_last {
                last
            } else {
                entry_last
            };
            let done = self.map_chunk(pool, cursor, stop, phys, flags);
            if !done || stop >= last {
                return done;
            }
            phys = phys + (stop - cursor) + 1;
            cursor = stop + 1;
        }
    }
}

/// The entry that holds `first` ends at or after `first`, starts at
/// `first` with its low bits cleared, and spans one granule.
pub proof fn lemma_entry_span(first: u64, granularity: u64)
    requires
        is_power_of_two(granularity),
    ensures
        first | ((granularity - 1) as u64) >= first,
        (first | ((granularity - 1) as u64)) - floor_to(first, granularity) == granularity - 1,
{
    let mask = (granularity - 1) as u64;
    assert(granularity != 0 && granularity & mask == 0 && mask == (granularity - 1) as u64 ==> (
    first | mask) >= first && (first | mask) - (first & !mask) == mask) by (bit_vector);
}

/// An output address lies below 2^48.
pub proof fn lemma_output_address_bound(word: u64)
    ensures
        word & OUTPUT_ADDRESS_MASK <= 0x0000_ffff_ffff_f000,
{
    assert(word & 0x0000_ffff_ffff_f000u64 <= 0x0000_ffff_ffff_f000) by (bit_vector);
}

/// The pool after the subtables in the first `count` slots of `table`,
/// taken from the last of them down, have been released into `pool`.
pub open spec fn spec_free_slots(table: TableModel, level: usize, pool: Seq<u64>, count: nat) -> Seq<
    u64,
>
    decreases LEAF_LEVEL - level, count, 0int,
{
    if count == 0 || level >= LEAF_LEVEL {
        pool
    } else {
        let after = match table.subtables[count - 1] {
            Some(child) => spec_free(child, (level + 1) as usize, pool),
            None => pool,
        };
        spec_free_slots(table, level, after, (count - 1) as nat)
    }
}

/// The pool after `table` and every table below it have been released into
/// `pool`: the pages of the subtables first, the table's own page last.
pub open spec fn spec_free(table: TableModel, level: usize, pool: Seq<u64>) -> Seq<u64>
    decreases LEAF_LEVEL - level, 512nat, 1int,
{
    if level > LEAF_LEVEL {
        pool
    } else {
        spec_free_slots(table, level, pool, 512).push(table.address)
    }
}

/// The number of tables in the hierarchy below and including `table`.
pub open spec fn table_count(table: TableModel, level: usize) -> nat
    decreases LEAF_LEVEL - level, 512nat, 1int,
{
    if level > LEAF_LEVEL {
        0
    } else {
        1 + table_count_slots(table, level, 512)
    }
}

/// The number of tables that hang below the first `count` slots of `table`.
pub open spec fn table_count_slots(table: TableModel, level: usize, count: nat) -> nat
    decreases LEAF_LEVEL - level, count, 0int,
{
    if count == 0 || level >= LEAF_LEVEL {
        0
    } else {
        (match table.subtables[count - 1] {
            Some(child) => table_count(child, (level + 1) as usize),
            None => 0,
        }) + table_count_slots(table, level, (count - 1) as nat)
    }
}

/// Releasing a hierarchy adds one page to the pool for each of its tables
/// and leaves the pages that were in the pool where they were.
pub proof fn lemma_free_returns_every_table(table: TableModel, level: usize, pool: Seq<u64>)
    requires
        level <= LEAF_LEVEL,
    ensures
        spec_free(table, level, pool).len() == pool.len() + table_count(table, level),
        pool.is_prefix_of(spec_free(table, level, pool)),
    decreases LEAF_LEVEL - level, 512nat, 1int,
{
    lemma_free_slots_returns_every_table(table, level, pool, 512);
}

/// Releasing the subtables of some slots adds one page to the pool for each
/// table below them.
pub proof fn lemma_free_slots_returns_every_table(
    table: TableModel,
    level: usize,
    pool: Seq<u64>,
    count: nat,
)
    requires
        level <= LEAF_LEVEL,
    ensures
        spec_free_slots(table, level, pool, count).len() == pool.len() + table_count_slots(
            table,
            level,
            count,
        ),
        pool.is_prefix_of(spec_free_slots(table, level, pool, count)),
    decreases LEAF_LEVEL - level, count, 0int,
{
    if count == 0 || level >= LEAF_LEVEL {
    } else {
        let after = match table.subtables[count - 1] {
            Some(child) => spec_free(child, (level + 1) as usize, pool),
            None => pool,
        };
        match table.subtables[count - 1] {
            Some(child) => {
                lemma_free_returns_every_table(child, (level + 1) as usize, pool);
            },
            None => {},
        }
        lemma_free_slots_returns_every_table(table, level, after, (count - 1) as nat);
    }
}

impl PageTable {
    /// Releases the table and every table below it into `pool`.
    pub fn free(self, pool: &mut TablePool)
        requires
            self.wf(old(pool).spec_direct_map_offset(), old(pool).spec_window_end()),
            old(pool).wf(),
        ensures
            final(pool).wf(),
            final(pool).spec_direct_map_offset() == old(pool).spec_direct_map_offset(),
            final(pool).spec_window_end() == old(pool).spec_window_end(),
            final(pool)@ == spec_free(self@, self.spec_level(), old(pool)@),
        decreases LEAF_LEVEL - self.spec_level(),
    {
        let ghost model = self@;
        let ghost depth = (LEAF_LEVEL - self.level) as nat;
        let ghost offset = pool.spec_direct_map_offset();
        let ghost window_end = pool.spec_window_end();
        let PageTable { table, level, mut subtables } = self;
        if level < LEAF_LEVEL {
            while subtables.len() > 0
                invariant
                    subtables@.len() <= 512,
                    level < LEAF_LEVEL,
                    level == self.level,
                    depth == LEAF_LEVEL - level,
                    subtables@ == self.subtables@.take(subtables@.len() as int),
                    self.wf(offset, window_end),
                    model == self@,
                    pool.wf(),
                    pool.spec_direct_map_offset() == offset,
                    pool.spec_window_end() == window_end,
                    spec_free_slots(model, level, old(pool)@, 512) == spec_free_slots(
                        model,
                        level,
                        pool@,
                        subtables@.len(),
                    ),
                decreases subtables@.len(),
            {
                let ghost count = subtables@.len();
                let slot = subtables.pop();
                assert(slot == Some(self.subtables@[count - 1]));
                match slot {
                    Some(Some(boxed)) => {
                        let child = *boxed;
                        assert(child.wf_at((depth - 1) as nat, offset, window_end));
                        assert(model.subtables[count - 1] == Some(child@));
                        child.free(pool);
                    },
                    _ => {
                        assert(model.subtables[count - 1] is None);
                    },
                }
            }
        }
        let added = pool.add_page(table.address.0);
        assert(added);
    }
}

/// A write to one of the two translation table base registers.
#[derive(Clone, Copy, Debug, PartialEq, Eq, Structural)]
pub struct TtbrWrite {
    /// Which register: `TTBR0` for `Lower`, `TTBR1` for `Upper`.
    pub register: VaRange,
    /// The value to write.
    pub value: u64,
    /// The operand of the TLB invalidation by ASID that follows the write,
    /// if one follows.
    pub invalidate_asid: Option<u64>,
}

/// The error, if any, with which a table for `va_range` refuses the range
/// `[start, end)`.
pub open spec fn spec_check_range(va_range: VaRange, region: VirtualMemoryRegion) -> Option<
    MapError,
> {
    let start = region.spec_start();
    let end = region.spec_end();
    if end < start {
        Some(MapError::RegionBackwards(region))
    } else {
        match va_range {
            VaRange::Lower => if start >= 0x8000_0000_0000_0000 {
                Some(MapError::AddressRange(VirtualAddress(start)))
            } else if end > ADDRESSABLE_SIZE {
                Some(MapError::AddressRange(VirtualAddress(end)))
            } else {
                None
            },
            VaRange::Upper => if start < 0x8000_0000_0000_0000 || 0x1_0000_0000_0000_0000 - start
                > ADDRESSABLE_SIZE {
                Some(MapError::AddressRange(VirtualAddress(start)))
            } else {
                None
            },
        }
    }
}

/// What mapping a region into a hierarchy leaves behind: the hierarchy, the
/// pool, and what the caller is told.
pub struct RootOutcome {
    pub table: TableModel,
    pub pool: Seq<u64>,
    pub result: Result<(), MapError>,
}

/// Maps `region` into the hierarchy `table` for `va_range`.
///
/// A backwards region and a region outside the half of the address space
/// that the hierarchy serves are refused and leave everything as it was; so
/// does an empty region, which succeeds. Otherwise the region is mapped
/// chunk by chunk from level 0, and `OutOfTables` tells that the pool ran
/// dry on the way.
pub open spec fn spec_root_map(
    table: TableModel,
    va_range: VaRange,
    pool: Seq<u64>,
    direct_map_offset: u64,
    region: VirtualMemoryRegion,
    pa: u64,
    flags: u64,
) -> RootOutcome {
    match spec_check_range(va_range, region) {
        Some(error) => RootOutcome { table, pool, result: Err(error) },
        None => if region.spec_start() == region.spec_end() {
            RootOutcome { table, pool, result: Ok(()) }
        } else {
            let outcome = spec_map_range(
                table,
                0,
                pool,
                direct_map_offset,
                region.spec_start(),
                (region.spec_end() - 1) as u64,
                pa,
                flags,
            );
            RootOutcome {
                table: outcome.table,
                pool: outcome.pool,
                result: if outcome.done {
                    Ok(())
                } else {
                    Err(MapError::OutOfTables)
                },
            }
        },
    }
}

/// A complete hierarchy of translation tables for one half of the address
/// space.
pub struct RootPageTable {
    table: PageTable,
    pa: PhysicalAddress,
    va_range: VaRange,
    asid: u64,
    previous_ttbr: Option<u64>,
}

impl RootPageTable {
    /// What the hierarchy holds.
    pub closed spec fn view(&self) -> TableModel {
        self.table@
    }

    /// The physical address of the level-0 table.
    pub closed spec fn spec_physical(&self) -> u64 {
        self.pa.0
    }

    /// The half of the address space that the hierarchy serves.
    pub closed spec fn spec_va_range(&self) -> VaRange {
        self.va_range
    }

    /// The address-space identifier of the hierarchy.
    pub closed spec fn spec_asid(&self) -> u64 {
        self.asid
    }

    /// The value that the base register held before the hierarchy was
    /// activated, while it is active.
    pub closed spec fn spec_saved_ttbr(&self) -> Option<u64> {
        self.previous_ttbr
    }

    /// The hierarchy is well formed, starts at level 0, and lies in the
    /// direct-map window `[direct_map_offset, window_end)`.
    pub closed spec fn wf(&self, direct_map_offset: u64, window_end: u64) -> bool {
        &&& self.table.wf(direct_map_offset, window_end)
        &&& self.table.spec_level() == 0
        &&& self.pa.0 == self.table@.address - direct_map_offset
    }

    /// Every table of a well-formed hierarchy has 512 slots.
    pub proof fn lemma_wf_well_shaped(&self, direct_map_offset: u64, window_end: u64)
        requires
            self.wf(direct_map_offset, window_end),
        ensures
            well_shaped(self@, 0),
    {
        self.table.lemma_wf_well_shaped(direct_map_offset, window_end);
    }

    /// A new hierarchy whose level-0 table is empty and lies in the last
    /// page of `pool`; `None` if the pool is empty.
    pub fn new(asid: u64, va_range: VaRange, pool: &mut TablePool) -> (r: Option<RootPageTable>)
        requires
            old(pool).wf(),
        ensures
            final(pool).wf(),
            final(pool).spec_direct_map_offset() == old(pool).spec_direct_map_offset(),
            final(pool).spec_window_end() == old(pool).spec_window_end(),
            r.is_some() <==> old(pool)@.len() > 0,
            r.is_none() ==> final(pool)@ == old(pool)@,
            r.is_some() ==> {
                let root = r.unwrap();
                &&& final(pool)@ == old(pool)@.drop_last()
                &&& root.wf(old(pool).spec_direct_map_offset(), old(pool).spec_window_end())
                &&& root@ == empty_table(0, old(pool)@.last())
                &&& clean(root@, 0)
                &&& consistent(root@, 0, old(pool).spec_direct_map_offset())
                &&& root.spec_physical() == old(pool)@.last() - old(pool).spec_direct_map_offset()
                &&& root.spec_va_range() == va_range
                &&& root.spec_asid() == asid
                &&& root.spec_saved_ttbr() is None
            },
    {
        match pool.take() {
            Some(page) => {
                let table = PageTable::new(0, page, pool);
                proof {
                    lemma_empty_table(0, page, 0);
                }
                let pa = table.table.get_physical_base(
                    pool.direct_map_offset(),
                    pool.window_end(),
                );
                Some(RootPageTable { table, pa, va_range, asid, previous_ttbr: None })
            },
            None => None,
        }
    }

    /// Bytes of address space that the hierarchy can map: 2^48.
    pub fn size(&self) -> (r: u64)
        ensures
            r == ADDRESSABLE_SIZE,
    {
        assert(0x80_0000_0000u64 << 9 == 0x0001_0000_0000_0000) by (bit_vector);
        granularity_at_level(0) << (BITS_PER_LEVEL as u64)
    }

    /// Maps `range` to the physical addresses from `pa` on, with `flags`.
    ///
    /// A backwards range and a range outside the half of the address space
    /// that the hierarchy serves are refused and leave everything as it
    /// was; so does an empty range, which succeeds. Otherwise the range is
    /// mapped chunk by chunk, and `OutOfTables` tells that the pool ran dry
    /// on the way.
    pub fn map_range(
        &mut self,
        pool: &mut TablePool,
        range: &VirtualMemoryRegion,
        pa: PhysicalAddress,
        flags: Attributes,
    ) -> (r: Result<(), MapError>)
        requires
            old(self).wf(old(pool).spec_direct_map_offset(), old(pool).spec_window_end()),
            old(pool).wf(),
            range.spec_start() < range.spec_end() ==> pa.0 + (range.spec_end() - range.spec_start()
                - 1) <= u64::MAX,
        ensures
            final(self).wf(old(pool).spec_direct_map_offset(), old(pool).spec_window_end()),
            final(pool).wf(),
            final(pool).spec_direct_map_offset() == old(pool).spec_direct_map_offset(),
            final(pool).spec_window_end() == old(pool).spec_window_end(),
            final(self).spec_physical() == old(self).spec_physical(),
            final(self).spec_va_range() == old(self).spec_va_range(),
            final(self).spec_asid() == old(self).spec_asid(),
            final(self).spec_saved_ttbr() == old(self).spec_saved_ttbr(),
            (RootOutcome { table: final(self)@, pool: final(pool)@, result: r }) == spec_root_map(
                old(self)@,
                old(self).spec_va_range(),
                old(pool)@,
                old(pool).spec_direct_map_offset(),
                *range,
                pa.0,
                flags@,
            ),
            clean(old(self)@, 0) && (region_mappable(*range, pa.0, flags@) || range.spec_start()
                >= range.spec_end()) ==> clean(final(self)@, 0),
            consistent(old(self)@, 0, old(pool).spec_direct_map_offset()) ==> consistent(
                final(self)@,
                0,
                old(pool).spec_direct_map_offset(),
            ),
    {
        proof {
            pool.lemma_usable();
            if consistent(self@, 0, pool.spec_direct_map_offset()) {
                lemma_map_range_keeps_consistent(
                    self@,
                    self.spec_va_range(),
                    pool@,
                    pool.spec_direct_map_offset(),
                    *range,
                    pa.0,
                    flags@,
                );
            }
            if clean(self@, 0) && (region_mappable(*range, pa.0, flags@) || range.spec_start()
                >= range.spec_end()) {
                lemma_map_range_keeps_clean(
                    self@,
                    self.spec_va_range(),
                    pool@,
                    pool.spec_direct_map_offset(),
                    *range,
                    pa.0,
                    flags@,
                );
            }
        }
        let start = range.start().0;
        let end = range.end().0;
        if end < start {
            return Err(MapError::RegionBackwards(*range));
        }
        match self.va_range {
            VaRange::Lower => {
                if start >= 0x8000_0000_0000_0000 {
                    return Err(MapError::AddressRange(range.start()));
                } else if end > self.size() {
                    return Err(MapError::AddressRange(range.end()));
                }
            },
            VaRange::Upper => {
                if start < 0x8000_0000_0000_0000 || (u64::MAX - start) >= self.size() {
                    return Err(MapError::AddressRange(range.start()));
                }
            },
        }
        if start == end {
            return Ok(());
        }
        if self.table.map_range(pool, start, end - 1, pa.0, flags) {
            Ok(())
        } else {
            Err(MapError::OutOfTables)
        }
    }

    /// The physical address of the level-0 table.
    pub fn to_physical(&self) -> (r: PhysicalAddress)
        ensures
            r.0 == self.spec_physical(),
    {
        self.pa
    }

    /// The half of the address space that the hierarchy serves.
    pub fn va_range(&self) -> (r: VaRange)
        ensures
            r == self.spec_va_range(),
    {
        self.va_range
    }

    /// Whether the hierarchy is active: a previous value of the base
    /// register is saved.
    pub fn is_active(&self) -> (r: bool)
        ensures
            r == self.spec_saved_ttbr().is_some(),
    {
        self.previous_ttbr.is_some()
    }

    /// Activates the hierarchy: saves `current_ttbr`, the value that the
    /// base register of this half holds, and returns the write that puts
    /// the hierarchy in its place. The value carries the physical address
    /// of the level-0 table and, in its top 16 bits, the ASID. The
    /// hierarchy must not be active already.
    pub fn activate(&mut self, current_ttbr: u64) -> (r: TtbrWrite)
        requires
            old(self).spec_saved_ttbr() is None,
        ensures
            final(self).spec_saved_ttbr() == Some(current_ttbr),
            final(self)@ == old(self)@,
            final(self).spec_physical() == old(self).spec_physical(),
            final(self).spec_va_range() == old(self).spec_va_range(),
            final(self).spec_asid() == old(self).spec_asid(),
            forall|d: u64, e: u64| old(self).wf(d, e) ==> final(self).wf(d, e),
            r.register == old(self).spec_va_range(),
            r.value == old(self).spec_physical() | (old(self).spec_asid() << 48),
            r.invalidate_asid is None,
    {
        self.previous_ttbr = Some(current_ttbr);
        TtbrWrite {
            register: self.va_range,
            value: self.pa.0 | (self.asid << 48),
            invalidate_asid: None,
        }
    }

    /// Deactivates the hierarchy: returns the write that restores the saved
    /// value of the base register, followed by the invalidation of the TLB
    /// entries of this ASID, and forgets the saved value. The hierarchy
    /// must be active.
    pub fn deactivate(&mut self) -> (r: TtbrWrite)
        requires
            old(self).spec_saved_ttbr() is Some,
        ensures
            final(self).spec_saved_ttbr() is None,
            final(self)@ == old(self)@,
            final(self).spec_physical() == old(self).spec_physical(),
            final(self).spec_va_range() == old(self).spec_va_range(),
            final(self).spec_asid() == old(self).spec_asid(),
            forall|d: u64, e: u64| old(self).wf(d, e) ==> final(self).wf(d, e),
            r.register == old(self).spec_va_range(),
            r.value == old(self).spec_saved_ttbr()->0,
            r.invalidate_asid == Some(old(self).spec_asid() << 48),
    {
        let value = match self.previous_ttbr {
            Some(value) => value,
            None => 0,
        };
        self.previous_ttbr = None;
        TtbrWrite { register: self.va_range, value, invalidate_asid: Some(self.asid << 48) }
    }

    /// Forgets the saved value of the base register, so that releasing the
    /// hierarchy does not restore it.
    pub fn invalidate_previous_ttbr(&mut self)
        ensures
            final(self).spec_saved_ttbr() is None,
            final(self)@ == old(self)@,
            final(self).spec_physical() == old(self).spec_physical(),
            final(self).spec_va_range() == old(self).spec_va_range(),
            final(self).spec_asid() == old(self).spec_asid(),
            forall|d: u64, e: u64| old(self).wf(d, e) ==> final(self).wf(d, e),
    {
        self.previous_ttbr = None;
    }

    /// Releases the hierarchy: every table goes back into `pool`. If the
    /// hierarchy is still active, the write that deactivates it is returned
    /// and has to be performed before the pages are used again; if it is
    /// not, no register is touched.
    pub fn release(self, pool: &mut TablePool) -> (r: Option<TtbrWrite>)
        requires
            self.wf(old(pool).spec_direct_map_offset(), old(pool).spec_window_end()),
            old(pool).wf(),
        ensures
            final(pool).wf(),
            final(pool).spec_direct_map_offset() == old(pool).spec_direct_map_offset(),
            final(pool).spec_window_end() == old(pool).spec_window_end(),
            final(pool)@ == spec_free(self@, 0, old(pool)@),
            final(pool)@.len() == old(pool)@.len() + table_count(self@, 0),
            r.is_some() == self.spec_saved_ttbr().is_some(),
            r.is_some() ==> r.unwrap() == (TtbrWrite {
                register: self.spec_va_range(),
                value: self.spec_saved_ttbr()->0,
                invalidate_asid: Some(self.spec_asid() << 48),
            }),
    {
        let mut root = self;
        let restore = if root.previous_ttbr.is_some() {
            Some(root.deactivate())
        } else {
            None
        };
        proof {
            lemma_free_returns_every_table(root@, 0, pool@);
        }
        root.table.free(pool);
        restore
    }
}

/// What a virtual address resolves to: the physical address, the
/// attribute field of the descriptor that maps it, and the level of that
/// descriptor.
#[derive(Clone, Copy, Debug, PartialEq, Eq, Structural)]
pub struct Resolved {
    pub pa: PhysicalAddress,
    pub attributes: u64,
    pub level: usize,
}

/// What `va` resolves to in `table`: the walk descends through the slots
/// that own subtables and ends at the first slot that owns none; an invalid
/// descriptor there resolves to nothing, a valid one to its output address
/// plus the offset of `va` in the entry. Where the descriptors agree with
/// the ownership of the tables, this is the walk that the hardware makes.
pub open spec fn spec_resolve(table: TableModel, level: usize, va: u64) -> Option<Resolved>
    decreases LEAF_LEVEL - level,
{
    let index = spec_index(va, level);
    let word = table.words[index];
    if level > LEAF_LEVEL {
        None
    } else if level < LEAF_LEVEL && table.subtables[index] is Some {
        spec_resolve(table.subtables[index]->0, (level + 1) as usize, va)
    } else if !word.spec_is_valid() {
        None
    } else {
        Some(
            Resolved {
                pa: PhysicalAddress(
                    ((word.0 & OUTPUT_ADDRESS_MASK) + va % spec_granularity(level)) as u64,
                ),
                attributes: word.0 & ATTRIBUTE_FIELD_MASK,
                level,
            },
        )
    }
}

impl PageTable {
    /// What `va` resolves to in this table.
    pub fn resolve(&self, va: u64, pool: &TablePool) -> (r: Option<Resolved>)
        requires
            self.wf(pool.spec_direct_map_offset(), pool.spec_window_end()),
        ensures
            r == spec_resolve(self@, self.spec_level(), va),
        decreases LEAF_LEVEL - self.spec_level(),
    {
        let level = self.level;
        let index = Self::index_of(va, level);
        let ghost depth = (LEAF_LEVEL - level) as nat;
        if level < LEAF_LEVEL {
            match &self.subtables[index] {
                Some(child) => {
                    assert(child.wf_at(
                        (depth - 1) as nat,
                        pool.spec_direct_map_offset(),
                        pool.spec_window_end(),
                    ));
                    assert(self@.subtables[index as int] == Some(child@));
                    return child.resolve(va, pool);
                },
                None => {},
            }
        }
        assert(self@.subtables[index as int] is None);
        let word = self.table.entries[index];
        if !word.is_valid() {
            return None;
        }
        let granularity = granularity_at_level(level);
        proof {
            lemma_output_address_bound(word.0);
        }
        Some(
            Resolved {
                pa: PhysicalAddress((word.0 & OUTPUT_ADDRESS_MASK) + va % granularity),
                attributes: word.0 & ATTRIBUTE_FIELD_MASK,
                level,
            },
        )
    }
}

impl RootPageTable {
    /// What `va` resolves to in this hierarchy.
    pub fn resolve(&self, va: VirtualAddress, pool: &TablePool) -> (r: Option<Resolved>)
        requires
            self.wf(pool.spec_direct_map_offset(), pool.spec_window_end()),
        ensures
            r == spec_resolve(self@, 0, va.0),
    {
        self.table.resolve(va.0, pool)
    }
}

/// What one page of a hierarchy has to hold for the hardware to walk the
/// hierarchy: the 512 descriptors of the table that lies in the page at
/// `address`.
pub struct TablePage {
    pub address: u64,
    pub words: Seq<Descriptor>,
}

/// The contents of one table page, for the caller to write to the page.
pub struct TableImage {
    /// The virtual address of the page in the direct map.
    pub address: u64,
    /// The descriptors of the table, in the order of the slots.
    pub words: Vec<Descriptor>,
}

impl TableImage {
    /// The page and what it has to hold.
    pub open spec fn view(&self) -> TablePage {
        TablePage { address: self.address, words: self.words@ }
    }
}

/// The pages of the images, in their order.
pub open spec fn image_pages(images: Seq<TableImage>) -> Seq<TablePage> {
    Seq::new(images.len(), |i: int| images[i]@)
}

/// The pages of the tables that hang below the first `count` slots of
/// `table`, in the order of the slots.
pub open spec fn spec_pages_below(table: TableModel, level: usize, count: nat) -> Seq<TablePage>
    decreases LEAF_LEVEL - level, count, 0int,
{
    if count == 0 || level >= LEAF_LEVEL {
        Seq::empty()
    } else {
        spec_pages_below(table, level, (count - 1) as nat) + (match table.subtables[count - 1] {
            Some(child) => spec_pages(child, (level + 1) as usize),
            None => Seq::empty(),
        })
    }
}

/// The pages of a hierarchy: the page of the table itself, then the pages
/// of the hierarchies below its slots, in the order of the slots.
pub open spec fn spec_pages(table: TableModel, level: usize) -> Seq<TablePage>
    decreases LEAF_LEVEL - level, 512nat, 1int,
{
    if level > LEAF_LEVEL {
        Seq::empty()
    } else {
        seq![TablePage { address: table.address, words: table.words }] + spec_pages_below(
            table,
            level,
            512,
        )
    }
}

impl PageTable {
    /// Appends to `images` the contents of the page of this table and of
    /// the pages of the tables below it.
    pub fn collect_images(&self, pool: &TablePool, images: &mut Vec<TableImage>)
        requires
            self.wf(pool.spec_direct_map_offset(), pool.spec_window_end()),
        ensures
            image_pages(final(images)@) == image_pages(old(images)@) + spec_pages(
                self@,
                self.spec_level(),
            ),
        decreases LEAF_LEVEL - self.spec_level(),
    {
        let level = self.level;
        let ghost depth = (LEAF_LEVEL - level) as nat;
        let ghost model = self@;
        let ghost before = image_pages(images@);
        let mut words: Vec<Descriptor> = Vec::new();
        let mut k: usize = 0;
        while k < ENTRIES_PER_TABLE
            invariant
                k <= 512,
                self.table.entries@.len() == 512,
                words@ == self.table.entries@.take(k as int),
            decreases 512 - k,
        {
            words.push(self.table.entries[k]);
            assert(words@ =~= self.table.entries@.take(k + 1));
            k = k + 1;
        }
        assert(words@ =~= model.words);
        images.push(TableImage { address: self.table.address.0, words });
        assert(image_pages(images@) =~= before + seq![
            TablePage { address: model.address, words: model.words },
        ]);
        if level < LEAF_LEVEL {
            let mut i: usize = 0;
            while i < ENTRIES_PER_TABLE
                invariant
                    i <= 512,
                    level < LEAF_LEVEL,
                    level == self.spec_level(),
                    depth == LEAF_LEVEL - level,
                    model == self@,
                    self.wf(pool.spec_direct_map_offset(), pool.spec_window_end()),
                    image_pages(images@) == before + seq![
                        TablePage { address: model.address, words: model.words },
                    ] + spec_pages_below(model, level, i as nat),
                decreases 512 - i,
            {
                let ghost so_far = image_pages(images@);
                match &self.subtables[i] {
                    Some(child) => {
                        assert(child.wf_at(
                            (depth - 1) as nat,
                            pool.spec_direct_map_offset(),
                            pool.spec_window_end(),
                        ));
                        assert(model.subtables[i as int] == Some(child@));
                        child.collect_images(pool, images);
                    },
                    None => {
                        assert(model.subtables[i as int] is None);
                        assert(so_far + Seq::<TablePage>::empty() =~= so_far);
                    },
                }
                assert(image_pages(images@) =~= before + seq![
                    TablePage { address: model.address, words: model.words },
                ] + spec_pages_below(model, level, (i + 1) as nat));
                i = i + 1;
            }
        } else {
            assert(spec_pages_below(model, level, 512) =~= Seq::<TablePage>::empty());
        }
        assert(image_pages(images@) =~= before + spec_pages(model, level));
    }
}

impl RootPageTable {
    /// The contents of every table page of the hierarchy, the page of the
    /// level-0 table first: what has to stand in memory for the hardware
    /// to walk the hierarchy.
    pub fn images(&self, pool: &TablePool) -> (r: Vec<TableImage>)
        requires
            self.wf(pool.spec_direct_map_offset(), pool.spec_window_end()),
        ensures
            image_pages(r@) == spec_pages(self@, 0),
    {
        let mut images: Vec<TableImage> = Vec::new();
        assert(image_pages(images@) =~= Seq::<TablePage>::empty());
        self.table.collect_images(pool, &mut images);
        assert(Seq::<TablePage>::empty() + spec_pages(self@, 0) =~= spec_pages(self@, 0));
        images
    }
}

} // verus!
