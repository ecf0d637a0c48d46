//! Memory management: allocators, translation tables, and the manager that
//! takes the kernel from the boot loader's tables to its own.
//!
//! The kernel's virtual address space, from the top:
//! `0xFFFF_FFFF_FC00_0000..` code and data, `0xFFFF_FFFF_FB00_0000..` the
//! stack, `0xFFFF_FFFF_8000_0000..` the heap. Below lies the direct map of
//! physical memory, at the offset that the boot loader chose.

use vstd::prelude::*;

use crate::mem::allocator::linked_list::{free_bytes, ListNode};
use crate::mem::allocator::physical_page::{spec_allocate_pages, PhysicalPageAllocator};
use crate::mem::allocator::bump::BumpState;
use crate::mem::allocator::{
    align_up, ceil_to, is_aligned_to, KernelAllocator,
};
use crate::mem::vm::paging::{
    spec_root_map, Attributes, PhysicalAddress, RootOutcome, RootPageTable, TableModel, TablePool,
    TtbrWrite, VaRange, VirtualAddress, VirtualMemoryRegion, DEVICE_NGNRNE, EXECUTE_NEVER,
    NORMAL, PAGE_SIZE, READ_ONLY,
};
use crate::mem::vm::laws::{clean, consistent, region_mappable};
use crate::mem::vm::MapError;
use crate::sync::{IRQSafeNullLock, Mutex, OnceCell};

pub mod allocator;
pub mod vm;

verus! {

/// The first address of the kernel heap.
pub const KERNEL_HEAP_START: u64 = 0xffff_ffff_8000_0000;

/// The last address of the kernel heap.
pub const KERNEL_HEAP_END: u64 = 0xffff_ffff_faff_ffff;

/// The first address of the kernel stack.
pub const KERNEL_STACK_START: u64 = 0xffff_ffff_fb00_0000;

/// The last address of the kernel stack.
pub const KERNEL_STACK_END: u64 = 0xffff_ffff_fbff_ffff;

/// The first address of the kernel's code and data.
pub const KERNEL_BINARY_START: u64 = 0xffff_ffff_fc00_0000;

/// Bytes of physical memory with which the heap is started.
pub const INITIAL_ALLOC_SIZE: u64 = 0x1_0000;

/// What the boot loader says of a stretch of physical memory.
#[derive(Clone, Copy, Debug, PartialEq, Eq, Structural)]
pub enum MemoryKind {
    /// Free for the kernel to use.
    Usable,
    /// Holds the kernel and its modules.
    KernelAndModules,
    /// Anything else.
    Other,
}

/// One entry of the boot loader's memory map.
#[derive(Clone, Copy, Debug, PartialEq, Eq, Structural)]
pub struct MemoryMapEntry {
    pub base: u64,
    pub length: u64,
    pub kind: MemoryKind,
}

/// What the kernel keeps of the memory map.
#[derive(Clone, Copy, Debug, PartialEq, Eq, Structural)]
pub struct MemoryMapResult {
    /// The greatest end of any entry.
    pub highest_physical_address: PhysicalAddress,
    /// Where the kernel lies in physical memory.
    pub kernel_physical_address: PhysicalAddress,
}

/// Where the linker put the parts of the kernel, in virtual addresses.
#[derive(Clone, Copy, Debug, PartialEq, Eq, Structural)]
pub struct KernelLayout {
    pub binary_start: u64,
    pub code_start: u64,
    pub code_end: u64,
    pub data_start: u64,
    pub data_end: u64,
    pub heap_start: u64,
}

/// A window of the kernel's address space and what it is mapped to.
#[derive(Clone, Copy, Debug, PartialEq, Eq, Structural)]
pub struct KernelWindow {
    pub region: VirtualMemoryRegion,
    pub pa: PhysicalAddress,
    /// The attribute bits of the mapping.
    pub flags: u64,
}

/// The setting of the translation control register that goes with a kernel
/// table: 48-bit physical addresses, 4 KiB granule and a 48-bit range for
/// both halves, write-back cacheable walks, the ASID taken from `TTBR0`,
/// and walks through `TTBR0` switched on or off.
#[derive(Clone, Copy, Debug, PartialEq, Eq, Structural)]
pub struct TranslationControl {
    /// T0SZ and T1SZ.
    pub region_size_offset: u64,
    /// Whether walks through `TTBR0` are enabled.
    pub ttbr0_walks: bool,
}

/// The greatest end of the entries, 0 if there is none.
pub open spec fn spec_highest(entries: Seq<MemoryMapEntry>) -> int
    decreases entries.len(),
{
    if entries.len() == 0 {
        0
    } else {
        let rest = spec_highest(entries.drop_last());
        let end = entries.last().base + entries.last().length;
        if end > rest {
            end
        } else {
            rest
        }
    }
}

/// The base of the last entry that holds the kernel, 0 if there is none.
pub open spec fn spec_kernel_base(entries: Seq<MemoryMapEntry>) -> u64
    decreases entries.len(),
{
    if entries.len() == 0 {
        0
    } else if entries.last().kind == MemoryKind::KernelAndModules {
        entries.last().base
    } else {
        spec_kernel_base(entries.drop_last())
    }
}

/// The free list after each usable entry, in the order of the map, has been
/// put at its head.
pub open spec fn spec_usable(entries: Seq<MemoryMapEntry>, direct_map_offset: u64) -> Seq<
    ListNode,
>
    decreases entries.len(),
{
    if entries.len() == 0 {
        Seq::empty()
    } else {
        let rest = spec_usable(entries.drop_last(), direct_map_offset);
        if entries.last().kind == MemoryKind::Usable {
            rest.insert(
                0,
                ListNode {
                    start: (entries.last().base + direct_map_offset) as u64,
                    size: entries.last().length,
                },
            )
        } else {
            rest
        }
    }
}

/// The end of the last entry, 0 if there is none.
pub open spec fn spec_frontier(entries: Seq<MemoryMapEntry>) -> int {
    if entries.len() == 0 {
        0
    } else {
        entries.last().base + entries.last().length
    }
}

/// The entry can follow entries that end at `frontier`: it starts at or
/// after `frontier`, it fits in the direct map at `direct_map_offset`, and
/// if it is usable it starts on a page boundary and can hold the header of
/// a free region.
pub open spec fn entry_valid(entry: MemoryMapEntry, frontier: int, direct_map_offset: u64) -> bool {
    &&& entry.base >= frontier
    &&& entry.base + entry.length + direct_map_offset <= u64::MAX
    &&& entry.kind == MemoryKind::Usable ==> is_aligned_to(entry.base, PAGE_SIZE) && entry.length
        >= 16
}

/// The memory map can be taken in: its entries are in ascending order and
/// do not overlap, and each is valid where it stands.
pub open spec fn memory_map_valid(entries: Seq<MemoryMapEntry>, direct_map_offset: u64) -> bool
    decreases entries.len(),
{
    entries.len() == 0 || (memory_map_valid(entries.drop_last(), direct_map_offset) && entry_valid(
        entries.last(),
        spec_frontier(entries.drop_last()),
        direct_map_offset,
    ))
}

/// Every prefix of a valid memory map is valid.
pub proof fn lemma_valid_prefix(entries: Seq<MemoryMapEntry>, direct_map_offset: u64, count: int)
    requires
        memory_map_valid(entries, direct_map_offset),
        0 <= count <= entries.len(),
    ensures
        memory_map_valid(entries.take(count), direct_map_offset),
    decreases entries.len(),
{
    if count == entries.len() {
        assert(entries.take(count) =~= entries);
    } else {
        assert(entries.drop_last().take(count) =~= entries.take(count));
        lemma_valid_prefix(entries.drop_last(), direct_map_offset, count);
    }
}

/// Whether the memory map can be taken in.
pub fn check_memory_map(entries: &Vec<MemoryMapEntry>, direct_map_offset: u64) -> (r: bool)
    ensures
        r == memory_map_valid(entries@, direct_map_offset),
{
    let mut i: usize = 0;
    let mut frontier: u64 = 0;
    while i < entries.len()
        invariant
            i <= entries@.len(),
            memory_map_valid(entries@.take(i as int), direct_map_offset),
            frontier == spec_frontier(entries@.take(i as int)),
        decreases entries@.len() - i,
    {
        let entry = entries[i];
        let ghost grown = entries@.take(i + 1);
        assert(grown.drop_last() =~= entries@.take(i as int));
        assert(grown.last() == entry);
        let fits = entry.length <= u64::MAX - entry.base && direct_map_offset <= u64::MAX - (
        entry.base + entry.length);
        let ordered = entry.base >= frontier;
        let usable = match entry.kind {
            MemoryKind::Usable => entry.base & (PAGE_SIZE - 1) == 0 && entry.length >= 16,
            _ => true,
        };
        if !fits || !ordered || !usable {
            proof {
                if memory_map_valid(entries@, direct_map_offset) {
                    lemma_valid_prefix(entries@, direct_map_offset, i + 1);
                }
            }
            return false;
        }
        frontier = entry.base + entry.length;
        i = i + 1;
    }
    assert(entries@.take(i as int) =~= entries@);
    true
}

/// The virtual address at which the kernel sees the physical address
/// `phys`: in the heap window once the heap has moved there, in the direct
/// map before; `None` if that address does not fit a machine word.
pub open spec fn spec_kernel_address(
    phys: u64,
    use_heap_addresses: bool,
    heap_start: u64,
    direct_map_offset: u64,
) -> Option<u64> {
    let base = if use_heap_addresses {
        heap_start
    } else {
        direct_map_offset
    };
    if phys + base <= u64::MAX {
        Some((phys + base) as u64)
    } else {
        None
    }
}

/// Whether the window can be mapped: the physical addresses that it is
/// mapped to fit a machine word.
pub open spec fn window_fits(window: KernelWindow) -> bool {
    window.region.spec_start() < window.region.spec_end() ==> window.pa.0 + (
    window.region.spec_end() - window.region.spec_start() - 1) <= u64::MAX
}

/// The mappings that every kernel table holds, in the order in which they
/// are made: the direct map of physical memory, as device memory; the
/// kernel's code, read only; its data; and the first stretch of its heap.
pub open spec fn spec_kernel_windows(
    direct_map_offset: u64,
    layout: KernelLayout,
    memory_map: MemoryMapResult,
    initial_alloc_start: PhysicalAddress,
    initial_alloc_size: u64,
) -> Seq<KernelWindow> {
    seq![
        KernelWindow {
            region: VirtualMemoryRegion::spec_new(
                direct_map_offset,
                (direct_map_offset + memory_map.highest_physical_address.0) as u64,
            ),
            pa: PhysicalAddress(0),
            flags: DEVICE_NGNRNE | EXECUTE_NEVER,
        },
        KernelWindow {
            region: VirtualMemoryRegion::spec_new(layout.code_start, layout.code_end),
            pa: memory_map.kernel_physical_address,
            flags: NORMAL | READ_ONLY,
        },
        KernelWindow {
            region: VirtualMemoryRegion::spec_new(layout.data_start, layout.data_end),
            pa: PhysicalAddress(
                (memory_map.kernel_physical_address.0 + (layout.data_start
                    - layout.binary_start)) as u64,
            ),
            flags: NORMAL | EXECUTE_NEVER,
        },
        KernelWindow {
            region: VirtualMemoryRegion::spec_new(
                layout.heap_start,
                (layout.heap_start + initial_alloc_size) as u64,
            ),
            pa: initial_alloc_start,
            flags: NORMAL | EXECUTE_NEVER,
        },
    ]
}

/// Whether the kernel's mappings can be written down: every end of a
/// window, rounded up to a page, fits a machine word, the data does not
/// start before the binary, and every window can be mapped.
pub open spec fn spec_windows_fit(
    direct_map_offset: u64,
    layout: KernelLayout,
    memory_map: MemoryMapResult,
    initial_alloc_start: PhysicalAddress,
    initial_alloc_size: u64,
) -> bool {
    let windows = spec_kernel_windows(
        direct_map_offset,
        layout,
        memory_map,
        initial_alloc_start,
        initial_alloc_size,
    );
    &&& direct_map_offset + memory_map.highest_physical_address.0 + 4095 <= u64::MAX
    &&& layout.code_end + 4095 <= u64::MAX
    &&& layout.data_end + 4095 <= u64::MAX
    &&& layout.heap_start + initial_alloc_size + 4095 <= u64::MAX
    &&& layout.binary_start <= layout.data_start
    &&& memory_map.kernel_physical_address.0 + (layout.data_start - layout.binary_start)
        <= u64::MAX
    &&& window_fits(windows[0])
    &&& window_fits(windows[1])
    &&& window_fits(windows[2])
    &&& window_fits(windows[3])
}

/// Whether the window is empty or can be mapped so that the hierarchy stays
/// clean: it is made of pages, its physical addresses start on a page
/// boundary and stay below 2^48, and its attributes hold no table bit.
pub open spec fn window_mappable(window: KernelWindow) -> bool {
    window.region.spec_start() >= window.region.spec_end() || region_mappable(
        window.region,
        window.pa.0,
        window.flags & crate::mem::vm::paging::ALL_ATTRIBUTES,
    )
}

/// Whether each of the windows is empty or can be mapped so that the
/// hierarchy stays clean.
pub open spec fn windows_mappable(windows: Seq<KernelWindow>) -> bool {
    forall|i: int| 0 <= i < windows.len() ==> window_mappable(#[trigger] windows[i])
}

/// Maps the windows, one after the other, into the hierarchy `table`, and
/// stops at the first that fails.
pub open spec fn spec_map_windows(
    table: TableModel,
    va_range: VaRange,
    pool: Seq<u64>,
    direct_map_offset: u64,
    windows: Seq<KernelWindow>,
) -> RootOutcome
    decreases windows.len(),
{
    if windows.len() == 0 {
        RootOutcome { table, pool, result: Ok(()) }
    } else {
        let first = spec_root_map(
            table,
            va_range,
            pool,
            direct_map_offset,
            windows[0].region,
            windows[0].pa.0,
            windows[0].flags & crate::mem::vm::paging::ALL_ATTRIBUTES,
        );
        if first.result is Err {
            first
        } else {
            spec_map_windows(
                first.table,
                va_range,
                first.pool,
                direct_map_offset,
                windows.skip(1),
            )
        }
    }
}

/// Whether the window can be mapped.
pub fn check_window(window: &KernelWindow) -> (r: bool)
    ensures
        r == window_fits(*window),
{
    let start = window.region.start().0;
    let end = window.region.end().0;
    if start < end {
        window.pa.0 <= u64::MAX - (end - start - 1)
    } else {
        true
    }
}

/// The state of the virtual memory manager: the physical page allocator,
/// the kernel's own table once it is built, and whether the heap has moved
/// to its own window.
pub struct VirtualMemoryManagerInner {
    physical_allocator: PhysicalPageAllocator,
    kernel_page_table: OnceCell<RootPageTable>,
    use_kernel_heap_addresses: bool,
    layout: KernelLayout,
}

impl VirtualMemoryManagerInner {
    /// The free list of physical pages, in direct-map addresses.
    pub closed spec fn spec_free_list(&self) -> Seq<ListNode> {
        self.physical_allocator@
    }

    /// The offset of the direct map.
    pub closed spec fn spec_direct_map_offset(&self) -> u64 {
        self.physical_allocator.spec_direct_map_offset()
    }

    /// Where the linker put the parts of the kernel.
    pub closed spec fn spec_layout(&self) -> KernelLayout {
        self.layout
    }

    /// The kernel's own table, once it is built.
    pub closed spec fn spec_kernel_table(&self) -> Option<RootPageTable> {
        self.kernel_page_table@
    }

    /// Whether the heap has moved to its own window.
    pub closed spec fn spec_uses_heap_addresses(&self) -> bool {
        self.use_kernel_heap_addresses
    }

    /// The physical page allocator is well formed.
    pub closed spec fn wf(&self) -> bool {
        self.physical_allocator.wf()
    }

    /// A manager without memory and without a table, for the direct map at
    /// the page-aligned offset `direct_map_offset`.
    pub fn new(direct_map_offset: u64, layout: KernelLayout) -> (r: Self)
        requires
            is_aligned_to(direct_map_offset, PAGE_SIZE),
        ensures
            r.wf(),
            r.spec_free_list() == Seq::<ListNode>::empty(),
            r.spec_direct_map_offset() == direct_map_offset,
            r.spec_layout() == layout,
            r.spec_kernel_table() is None,
            !r.spec_uses_heap_addresses(),
    {
        Self {
            physical_allocator: PhysicalPageAllocator::new(direct_map_offset),
            kernel_page_table: OnceCell::new(),
            use_kernel_heap_addresses: false,
            layout,
        }
    }

    /// The offset of the direct map.
    pub fn direct_map_virt_offset(&self) -> (r: u64)
        ensures
            r == self.spec_direct_map_offset(),
    {
        self.physical_allocator.direct_map_offset()
    }

    /// The kernel's own table, once it is built.
    pub fn kernel_page_table(&self) -> (r: Option<&RootPageTable>)
        ensures
            r.is_some() == self.spec_kernel_table().is_some(),
            r.is_some() ==> *r.unwrap() == self.spec_kernel_table().unwrap(),
    {
        self.kernel_page_table.get()
    }

    /// Takes in the boot loader's memory map: every usable entry goes to
    /// the physical page allocator, in the order of the map. Returns the
    /// greatest end of any entry and the base of the entry that holds the
    /// kernel.
    pub fn init_memory_map(&mut self, entries: &Vec<MemoryMapEntry>) -> (r: MemoryMapResult)
        requires
            old(self).wf(),
            old(self).spec_free_list().len() == 0,
            memory_map_valid(entries@, old(self).spec_direct_map_offset()),
        ensures
            final(self).wf(),
            final(self).spec_free_list() == spec_usable(
                entries@,
                old(self).spec_direct_map_offset(),
            ),
            r.highest_physical_address.0 == spec_highest(entries@),
            r.kernel_physical_address.0 == spec_kernel_base(entries@),
            final(self).spec_direct_map_offset() == old(self).spec_direct_map_offset(),
            final(self).spec_layout() == old(self).spec_layout(),
            final(self).spec_kernel_table() == old(self).spec_kernel_table(),
            final(self).spec_uses_heap_addresses() == old(self).spec_uses_heap_addresses(),
    {
        let mut result = MemoryMapResult {
            highest_physical_address: PhysicalAddress(0),
            kernel_physical_address: PhysicalAddress(0),
        };
        let ghost offset = self.spec_direct_map_offset();
        let mut i: usize = 0;
        assert(self.spec_free_list() =~= spec_usable(entries@.take(0), offset));
        while i < entries.len()
            invariant
                i <= entries@.len(),
                self.wf(),
                memory_map_valid(entries@, offset),
                self.spec_direct_map_offset() == offset,
                self.spec_layout() == old(self).spec_layout(),
                self.spec_kernel_table() == old(self).spec_kernel_table(),
                self.spec_uses_heap_addresses() == old(self).spec_uses_heap_addresses(),
                self.spec_free_list() == spec_usable(entries@.take(i as int), offset),
                result.highest_physical_address.0 == spec_highest(entries@.take(i as int)),
                result.kernel_physical_address.0 == spec_kernel_base(entries@.take(i as int)),
                spec_frontier(entries@.take(i as int)) <= spec_highest(entries@.take(i as int)),
                forall|k: int|
                    0 <= k < self.spec_free_list().len() ==> (
                    #[trigger] self.spec_free_list()[k]).spec_end() <= spec_frontier(
                        entries@.take(i as int),
                    ) + offset,
            decreases entries@.len() - i,
        {
            let entry = entries[i];
            let ghost seen = entries@.take(i as int);
            let ghost grown = entries@.take(i + 1);
            proof {
                assert(grown.drop_last() =~= seen);
                assert(grown.last() == entry);
                lemma_valid_prefix(entries@, offset, i + 1);
            }
            let end = entry.base + entry.length;
            if end > result.highest_physical_address.0 {
                result.highest_physical_address = PhysicalAddress(end);
            }
            match entry.kind {
                MemoryKind::Usable => {
                    let ghost node = self.physical_allocator.region_node(
                        PhysicalAddress(entry.base),
                        entry.length,
                    );
                    self.physical_allocator.add_heap_region(
                        PhysicalAddress(entry.base),
                        entry.length,
                    );
                    assert forall|k: int| 0 <= k < self.spec_free_list().len() implies (
                    #[trigger] self.spec_free_list()[k]).spec_end() <= spec_frontier(grown)
                        + offset by {
                        if k > 0 {
                            assert(self.spec_free_list()[k] == spec_usable(seen, offset)[k - 1]);
                        }
                    }
                },
                MemoryKind::KernelAndModules => {
                    result.kernel_physical_address = PhysicalAddress(entry.base);
                },
                MemoryKind::Other => {},
            }
            i = i + 1;
        }
        assert(entries@.take(i as int) =~= entries@);
        result
    }

    /// Whether the direct map has room for all of physical memory: the
    /// highest physical address does not reach past the start of the
    /// kernel binary.
    pub fn supports_physical_memory(&self, memory_map: MemoryMapResult) -> (r: bool)
        ensures
            r == (memory_map.highest_physical_address.0 + self.spec_direct_map_offset()
                <= self.spec_layout().binary_start),
    {
        let offset = self.physical_allocator.direct_map_offset();
        self.layout.binary_start >= offset && memory_map.highest_physical_address.0
            <= self.layout.binary_start - offset
    }

    /// Allocates `size` bytes, rounded up to whole pages, of physical
    /// memory. Returns where they start and how many they are; `None` if
    /// the rounded size does not fit a machine word or no free region holds
    /// that many.
    pub fn kernel_alloc_unchecked(&mut self, size: u64) -> (r: Option<(PhysicalAddress, u64)>)
        requires
            old(self).wf(),
        ensures
            final(self).wf(),
            final(self).spec_direct_map_offset() == old(self).spec_direct_map_offset(),
            final(self).spec_layout() == old(self).spec_layout(),
            final(self).spec_kernel_table() == old(self).spec_kernel_table(),
            final(self).spec_uses_heap_addresses() == old(self).spec_uses_heap_addresses(),
            size + 4095 > u64::MAX ==> r is None && final(self).spec_free_list() == old(self).spec_free_list(),
            size + 4095 <= u64::MAX ==> {
                let rounded = ceil_to(size, PAGE_SIZE);
                let carved = spec_allocate_pages(old(self).spec_free_list(), rounded);
                &&& final(self).spec_free_list() == carved.0
                &&& r.is_some() == carved.1.is_some()
                &&& r.is_some() ==> r.unwrap().0.0 == carved.1.unwrap() - old(self).spec_direct_map_offset() && r.unwrap().1 == rounded && is_aligned_to(
                    r.unwrap().0.0,
                    PAGE_SIZE,
                ) && free_bytes(final(self).spec_free_list()) + rounded == free_bytes(
                    old(self).spec_free_list(),
                )
            },
    {
        if size > u64::MAX - (PAGE_SIZE - 1) {
            return None;
        }
        proof {
            crate::mem::allocator::lemma_page_size_is_power_of_two();
        }
        let size = align_up(size, PAGE_SIZE);
        match self.physical_allocator.allocate(size) {
            Some(alloc_start) => Some((alloc_start, size)),
            None => None,
        }
    }

    /// What `kernel_alloc` leaves of the free list of physical pages, and
    /// what it returns.
    pub open spec fn spec_kernel_alloc(&self, size: u64) -> (
        Seq<ListNode>,
        Option<(VirtualAddress, u64)>,
    ) {
        if self.spec_kernel_table() is None || size + 4095 > u64::MAX {
            (self.spec_free_list(), None)
        } else {
            let rounded = ceil_to(size, PAGE_SIZE);
            let carved = spec_allocate_pages(self.spec_free_list(), rounded);
            (
                carved.0,
                match carved.1 {
                    Some(start) => match spec_kernel_address(
                        (start - self.spec_direct_map_offset()) as u64,
                        self.spec_uses_heap_addresses(),
                        self.spec_layout().heap_start,
                        self.spec_direct_map_offset(),
                    ) {
                        Some(address) => Some((VirtualAddress(address), rounded)),
                        None => None,
                    },
                    None => None,
                },
            )
        }
    }

    /// Allocates `size` bytes, rounded up to whole pages, of physical
    /// memory for the kernel heap, and returns the virtual address at which
    /// the kernel sees them and how many they are. `None` if the kernel's
    /// own table is not built yet, if the allocation fails, or if the
    /// virtual address does not fit a machine word.
    pub fn kernel_alloc(&mut self, size: u64) -> (r: Option<(VirtualAddress, u64)>)
        requires
            old(self).wf(),
        ensures
            final(self).wf(),
            final(self).spec_direct_map_offset() == old(self).spec_direct_map_offset(),
            final(self).spec_layout() == old(self).spec_layout(),
            final(self).spec_kernel_table() == old(self).spec_kernel_table(),
            final(self).spec_uses_heap_addresses() == old(self).spec_uses_heap_addresses(),
            (final(self).spec_free_list(), r) == old(self).spec_kernel_alloc(size),
    {
        if !self.kernel_page_table.is_set() {
            return None;
        }
        match self.kernel_alloc_unchecked(size) {
            Some((alloc_start, alloc_size)) => {
                let base = if self.use_kernel_heap_addresses {
                    self.layout.heap_start
                } else {
                    self.physical_allocator.direct_map_offset()
                };
                match alloc_start.0.checked_add(base) {
                    Some(address) => Some((VirtualAddress(address), alloc_size)),
                    None => None,
                }
            },
            None => None,
        }
    }
}

/// The setting of the translation control register for the table with
/// which the kernel leaves the boot loader's tables: walks through both
/// base registers.
pub fn bootstrap_translation_control() -> (r: TranslationControl)
    ensures
        r == (TranslationControl { region_size_offset: 16, ttbr0_walks: true }),
{
    TranslationControl { region_size_offset: 16, ttbr0_walks: true }
}

/// The setting of the translation control register for the kernel's own
/// table: no walks through `TTBR0`, as the kernel maps nothing in the lower
/// half.
pub fn kernel_translation_control() -> (r: TranslationControl)
    ensures
        r == (TranslationControl { region_size_offset: 16, ttbr0_walks: false }),
{
    TranslationControl { region_size_offset: 16, ttbr0_walks: false }
}

impl VirtualMemoryManagerInner {
    /// The mappings that every kernel table holds, in the order in which
    /// they are made; `None` if they cannot be written down.
    pub fn kernel_windows(
        &self,
        memory_map: MemoryMapResult,
        initial_alloc_start: PhysicalAddress,
        initial_alloc_size: u64,
    ) -> (r: Option<Vec<KernelWindow>>)
        ensures
            r.is_some() == spec_windows_fit(
                self.spec_direct_map_offset(),
                self.spec_layout(),
                memory_map,
                initial_alloc_start,
                initial_alloc_size,
            ),
            r.is_some() ==> r.unwrap()@ == spec_kernel_windows(
                self.spec_direct_map_offset(),
                self.spec_layout(),
                memory_map,
                initial_alloc_start,
                initial_alloc_size,
            ),
    {
        let offset = self.physical_allocator.direct_map_offset();
        let layout = self.layout;
        let highest = memory_map.highest_physical_address.0;
        let limit = u64::MAX - 4095;
        if offset > limit || highest > limit - offset || layout.code_end > limit || layout.data_end
            > limit || layout.heap_start > limit || initial_alloc_size > limit - layout.heap_start
            || layout.binary_start > layout.data_start {
            return None;
        }
        let data_offset = layout.data_start - layout.binary_start;
        if memory_map.kernel_physical_address.0 > u64::MAX - data_offset {
            return None;
        }
        let direct_map = KernelWindow {
            region: VirtualMemoryRegion::new(offset, offset + highest),
            pa: PhysicalAddress(0),
            flags: DEVICE_NGNRNE | EXECUTE_NEVER,
        };
        let code = KernelWindow {
            region: VirtualMemoryRegion::new(layout.code_start, layout.code_end),
            pa: memory_map.kernel_physical_address,
            flags: NORMAL | READ_ONLY,
        };
        let data = KernelWindow {
            region: VirtualMemoryRegion::new(layout.data_start, layout.data_end),
            pa: PhysicalAddress(memory_map.kernel_physical_address.0 + data_offset),
            flags: NORMAL | EXECUTE_NEVER,
        };
        let heap = KernelWindow {
            region: VirtualMemoryRegion::new(
                layout.heap_start,
                layout.heap_start + initial_alloc_size,
            ),
            pa: initial_alloc_start,
            flags: NORMAL | EXECUTE_NEVER,
        };
        if !check_window(&direct_map) || !check_window(&code) || !check_window(&data)
            || !check_window(&heap) {
            return None;
        }
        let mut windows: Vec<KernelWindow> = Vec::new();
        windows.push(direct_map);
        windows.push(code);
        windows.push(data);
        windows.push(heap);
        assert(windows@ =~= spec_kernel_windows(
            self.spec_direct_map_offset(),
            self.spec_layout(),
            memory_map,
            initial_alloc_start,
            initial_alloc_size,
        ));
        Some(windows)
    }

    /// Maps the windows into `kernel_table`, one after the other, and then
    /// activates the table: `current_ttbr`, the value that the table's base
    /// register holds, is saved, and the write that puts the table in its
    /// place is returned. At the first window that fails, the error is
    /// returned and the table is not activated. The table must not be
    /// active, and each window must be mappable.
    pub fn fill_kernel_page_table(
        &self,
        kernel_table: &mut RootPageTable,
        pool: &mut TablePool,
        windows: &Vec<KernelWindow>,
        current_ttbr: u64,
    ) -> (r: Result<TtbrWrite, MapError>)
        requires
            old(kernel_table).wf(
                old(pool).spec_direct_map_offset(),
                old(pool).spec_window_end(),
            ),
            old(kernel_table).spec_saved_ttbr() is None,
            old(pool).wf(),
            forall|i: int| 0 <= i < windows@.len() ==> window_fits(#[trigger] windows@[i]),
        ensures
            final(kernel_table).wf(
                old(pool).spec_direct_map_offset(),
                old(pool).spec_window_end(),
            ),
            final(pool).wf(),
            final(pool).spec_direct_map_offset() == old(pool).spec_direct_map_offset(),
            final(pool).spec_window_end() == old(pool).spec_window_end(),
            final(kernel_table).spec_physical() == old(kernel_table).spec_physical(),
            final(kernel_table).spec_va_range() == old(kernel_table).spec_va_range(),
            final(kernel_table).spec_asid() == old(kernel_table).spec_asid(),
            consistent(old(kernel_table)@, 0, old(pool).spec_direct_map_offset()) ==> consistent(
                final(kernel_table)@,
                0,
                old(pool).spec_direct_map_offset(),
            ),
            clean(old(kernel_table)@, 0) && windows_mappable(windows@) ==> clean(
                final(kernel_table)@,
                0,
            ),
            ({
                let outcome = spec_map_windows(
                    old(kernel_table)@,
                    old(kernel_table).spec_va_range(),
                    old(pool)@,
                    old(pool).spec_direct_map_offset(),
                    windows@,
                );
                &&& final(kernel_table)@ == outcome.table
                &&& final(pool)@ == outcome.pool
                &&& match outcome.result {
                    Ok(_) => r == Ok::<TtbrWrite, MapError>(
                        TtbrWrite {
                            register: old(kernel_table).spec_va_range(),
                            value: old(kernel_table).spec_physical() | (old(kernel_table).spec_asid() << 48),
                            invalidate_asid: None,
                        },
                    ) && final(kernel_table).spec_saved_ttbr() == Some(current_ttbr),
                    Err(error) => r == Err::<TtbrWrite, MapError>(error) && final(kernel_table).spec_saved_ttbr() is None,
                }
            }),
    {
        let ghost offset = pool.spec_direct_map_offset();
        let ghost window_end = pool.spec_window_end();
        let ghost goal = spec_map_windows(
            kernel_table@,
            kernel_table.spec_va_range(),
            pool@,
            offset,
            windows@,
        );
        let mut i: usize = 0;
        assert(windows@.skip(0) =~= windows@);
        while i < windows.len()
            invariant
                i <= windows@.len(),
                kernel_table.wf(offset, window_end),
                kernel_table.spec_saved_ttbr() is None,
                kernel_table.spec_physical() == old(kernel_table).spec_physical(),
                kernel_table.spec_va_range() == old(kernel_table).spec_va_range(),
                kernel_table.spec_asid() == old(kernel_table).spec_asid(),
                pool.wf(),
                pool.spec_direct_map_offset() == offset,
                pool.spec_window_end() == window_end,
                offset == old(pool).spec_direct_map_offset(),
                window_end == old(pool).spec_window_end(),
                forall|k: int| 0 <= k < windows@.len() ==> window_fits(#[trigger] windows@[k]),
                consistent(old(kernel_table)@, 0, offset) ==> consistent(kernel_table@, 0, offset),
                clean(old(kernel_table)@, 0) && windows_mappable(windows@) ==> clean(
                    kernel_table@,
                    0,
                ),
                goal == spec_map_windows(
                    old(kernel_table)@,
                    old(kernel_table).spec_va_range(),
                    old(pool)@,
                    old(pool).spec_direct_map_offset(),
                    windows@,
                ),
                goal == spec_map_windows(
                    kernel_table@,
                    kernel_table.spec_va_range(),
                    pool@,
                    offset,
                    windows@.skip(i as int),
                ),
            decreases windows@.len() - i,
        {
            let window = windows[i];
            assert(windows@.skip(i as int)[0] == window);
            assert(windows_mappable(windows@) ==> window_mappable(windows@[i as int]));
            assert(windows@.skip(i as int).skip(1) =~= windows@.skip(i + 1));
            let mapped = kernel_table.map_range(
                pool,
                &window.region,
                window.pa,
                Attributes::from_bits_truncate(window.flags),
            );
            match mapped {
                Ok(_) => {},
                Err(error) => {
                    return Err(error);
                },
            }
            i = i + 1;
        }
        Ok(kernel_table.activate(current_ttbr))
    }

    /// Builds a kernel table: a new hierarchy for the upper half with ASID
    /// 0, filled with the kernel's mappings and activated. If the pool runs
    /// dry or a window is refused, every page goes back to the pool and the
    /// error is returned.
    pub fn build_kernel_table(
        &self,
        pool: &mut TablePool,
        windows: &Vec<KernelWindow>,
        current_ttbr: u64,
    ) -> (r: Result<(RootPageTable, TtbrWrite), MapError>)
        requires
            old(pool).wf(),
            forall|i: int| 0 <= i < windows@.len() ==> window_fits(#[trigger] windows@[i]),
        ensures
            final(pool).wf(),
            final(pool).spec_direct_map_offset() == old(pool).spec_direct_map_offset(),
            final(pool).spec_window_end() == old(pool).spec_window_end(),
            r is Ok ==> consistent(r.unwrap().0@, 0, old(pool).spec_direct_map_offset()) && (
            windows_mappable(windows@) ==> clean(r.unwrap().0@, 0)),
            old(pool)@.len() == 0 ==> r == Err::<(RootPageTable, TtbrWrite), MapError>(
                MapError::OutOfTables,
            ) && final(pool)@ == old(pool)@,
            old(pool)@.len() > 0 ==> ({
                let outcome = spec_map_windows(
                    crate::mem::vm::paging::empty_table(0, old(pool)@.last()),
                    VaRange::Upper,
                    old(pool)@.drop_last(),
                    old(pool).spec_direct_map_offset(),
                    windows@,
                );
                match outcome.result {
                    Ok(_) => r is Ok && r.unwrap().0@ == outcome.table && final(pool)@
                        == outcome.pool && r.unwrap().0.wf(
                        old(pool).spec_direct_map_offset(),
                        old(pool).spec_window_end(),
                    ) && r.unwrap().0.spec_saved_ttbr() == Some(current_ttbr)
                        && r.unwrap().0.spec_va_range() == VaRange::Upper
                        && r.unwrap().0.spec_asid() == 0 && r.unwrap().1 == (TtbrWrite {
                        register: VaRange::Upper,
                        value: r.unwrap().0.spec_physical() | (0u64 << 48),
                        invalidate_asid: None,
                    }),
                    Err(error) => r == Err::<(RootPageTable, TtbrWrite), MapError>(error)
                        && final(pool)@ == crate::mem::vm::paging::spec_free(
                        outcome.table,
                        0,
                        outcome.pool,
                    ),
                }
            }),
    {
        let mut table = match RootPageTable::new(0, VaRange::Upper, pool) {
            Some(table) => table,
            None => {
                return Err(MapError::OutOfTables);
            },
        };
        match self.fill_kernel_page_table(&mut table, pool, windows, current_ttbr) {
            Ok(write) => Ok((table, write)),
            Err(error) => {
                let _ = table.release(pool);
                Err(error)
            },
        }
    }

    /// Builds the table with which the kernel leaves the boot loader's
    /// tables. The table is filled and activated, and then forgets the
    /// boot loader's value of the base register, so that releasing the
    /// table does not bring that value back. Returns the table, the write
    /// that activates it, and the setting of the translation control
    /// register that goes with it.
    pub fn bootstrap_kernel_page_table(
        &self,
        pool: &mut TablePool,
        windows: &Vec<KernelWindow>,
        current_ttbr: u64,
    ) -> (r: Result<(RootPageTable, TtbrWrite, TranslationControl), MapError>)
        requires
            old(pool).wf(),
            forall|i: int| 0 <= i < windows@.len() ==> window_fits(#[trigger] windows@[i]),
        ensures
            final(pool).wf(),
            final(pool).spec_direct_map_offset() == old(pool).spec_direct_map_offset(),
            final(pool).spec_window_end() == old(pool).spec_window_end(),
            r is Ok ==> consistent(r.unwrap().0@, 0, old(pool).spec_direct_map_offset()) && (
            windows_mappable(windows@) ==> clean(r.unwrap().0@, 0)),
            old(pool)@.len() == 0 ==> r is Err && final(pool)@ == old(pool)@,
            old(pool)@.len() > 0 ==> ({
                let outcome = spec_map_windows(
                    crate::mem::vm::paging::empty_table(0, old(pool)@.last()),
                    VaRange::Upper,
                    old(pool)@.drop_last(),
                    old(pool).spec_direct_map_offset(),
                    windows@,
                );
                match outcome.result {
                    Ok(_) => r is Ok && r.unwrap().0@ == outcome.table && final(pool)@
                        == outcome.pool && r.unwrap().0.wf(
                        old(pool).spec_direct_map_offset(),
                        old(pool).spec_window_end(),
                    ) && r.unwrap().0.spec_saved_ttbr() is None && r.unwrap().1.register
                        == VaRange::Upper && r.unwrap().1.value == r.unwrap().0.spec_physical() | (
                    0u64 << 48) && r.unwrap().2 == (TranslationControl {
                        region_size_offset: 16,
                        ttbr0_walks: true,
                    }),
                    Err(error) => r is Err && r->Err_0 == error,
                }
            }),
    {
        match self.build_kernel_table(pool, windows, current_ttbr) {
            Ok((mut table, write)) => {
                table.invalidate_previous_ttbr();
                Ok((table, write, bootstrap_translation_control()))
            },
            Err(error) => Err(error),
        }
    }

    /// Builds the kernel's own table and keeps it. The table is filled and
    /// activated, and stays active. Returns the write that activates it and
    /// the setting of the translation control register that goes with it.
    /// The kernel's own table must not have been built before.
    pub fn create_kernel_page_table(
        &mut self,
        pool: &mut TablePool,
        windows: &Vec<KernelWindow>,
        current_ttbr: u64,
    ) -> (r: Result<(TtbrWrite, TranslationControl), MapError>)
        requires
            old(self).wf(),
            old(self).spec_kernel_table() is None,
            old(pool).wf(),
            forall|i: int| 0 <= i < windows@.len() ==> window_fits(#[trigger] windows@[i]),
        ensures
            final(self).wf(),
            final(self).spec_free_list() == old(self).spec_free_list(),
            final(self).spec_direct_map_offset() == old(self).spec_direct_map_offset(),
            final(self).spec_layout() == old(self).spec_layout(),
            final(self).spec_uses_heap_addresses() == old(self).spec_uses_heap_addresses(),
            final(pool).wf(),
            final(pool).spec_direct_map_offset() == old(pool).spec_direct_map_offset(),
            final(pool).spec_window_end() == old(pool).spec_window_end(),
            r is Ok <==> final(self).spec_kernel_table() is Some,
            r is Ok ==> consistent(
                final(self).spec_kernel_table().unwrap()@,
                0,
                old(pool).spec_direct_map_offset(),
            ) && (windows_mappable(windows@) ==> clean(
                final(self).spec_kernel_table().unwrap()@,
                0,
            )),
            old(pool)@.len() == 0 ==> r is Err && final(pool)@ == old(pool)@,
            old(pool)@.len() > 0 ==> ({
                let outcome = spec_map_windows(
                    crate::mem::vm::paging::empty_table(0, old(pool)@.last()),
                    VaRange::Upper,
                    old(pool)@.drop_last(),
                    old(pool).spec_direct_map_offset(),
                    windows@,
                );
                match outcome.result {
                    Ok(_) => r is Ok && final(self).spec_kernel_table().unwrap()@ == outcome.table
                        && final(pool)@ == outcome.pool && final(self).spec_kernel_table().unwrap().spec_saved_ttbr() == Some(current_ttbr)
                        && r.unwrap().0.register == VaRange::Upper && r.unwrap().1 == (
                    TranslationControl { region_size_offset: 16, ttbr0_walks: false }),
                    Err(error) => r is Err && r->Err_0 == error,
                }
            }),
    {
        match self.build_kernel_table(pool, windows, current_ttbr) {
            Ok((table, write)) => {
                self.kernel_page_table.set(table);
                Ok((write, kernel_translation_control()))
            },
            Err(error) => Err(error),
        }
    }
}

impl VirtualMemoryManagerInner {
    /// Moves the heap to its own window: the boot allocator hands over to
    /// the main allocator, which gets what the boot allocator has not used
    /// of the first `alloc_size` bytes of the heap window, from the next
    /// page boundary on. Returns `false`, and changes nothing, if the heap
    /// has moved already, if the boot allocator has used all of it, or if
    /// the rest cannot be added to the main allocator.
    pub fn switch_to_kernel_heap(&mut self, heap: &mut KernelAllocator, alloc_size: u64) -> (r:
        bool)
        requires
            old(self).wf(),
            old(heap).wf(),
        ensures
            final(self).wf(),
            final(heap).wf(),
            final(self).spec_free_list() == old(self).spec_free_list(),
            final(self).spec_direct_map_offset() == old(self).spec_direct_map_offset(),
            final(self).spec_layout() == old(self).spec_layout(),
            final(self).spec_kernel_table() == old(self).spec_kernel_table(),
            final(heap).spec_boot() == old(heap).spec_boot(),
            r == old(self).spec_can_switch(*old(heap), alloc_size),
            !r ==> final(heap).spec_main() == old(heap).spec_main() && final(heap).spec_uses_main()
                == old(heap).spec_uses_main() && final(self).spec_uses_heap_addresses() == old(self).spec_uses_heap_addresses(),
            r ==> final(heap).spec_uses_main() && final(self).spec_uses_heap_addresses() && final(heap).spec_main() == old(heap).spec_main().insert(
                0,
                old(self).spec_heap_rest(*old(heap), alloc_size),
            ),
    {
        if heap.uses_main_allocator() {
            return false;
        }
        let used = heap.boot_used();
        if used > u64::MAX - (PAGE_SIZE - 1) {
            return false;
        }
        proof {
            crate::mem::allocator::lemma_page_size_is_power_of_two();
        }
        let start_offset = align_up(used, PAGE_SIZE);
        if start_offset > alloc_size || self.layout.heap_start > u64::MAX - start_offset {
            return false;
        }
        let start = self.layout.heap_start + start_offset;
        let size = alloc_size - start_offset;
        if !heap.can_add_heap_region(VirtualAddress(start), size) {
            return false;
        }
        let _ = heap.use_main_allocator();
        heap.add_heap_region(VirtualAddress(start), size, false);
        self.use_kernel_heap_addresses = true;
        true
    }

    /// What is left for the main allocator of the first `alloc_size` bytes
    /// of the heap window: from the bytes that the boot allocator has used,
    /// rounded up to a page, to the end.
    pub open spec fn spec_heap_rest(&self, heap: KernelAllocator, alloc_size: u64) -> ListNode {
        let start_offset = ceil_to(
            (heap.spec_boot().next - heap.spec_boot().start) as u64,
            PAGE_SIZE,
        );
        ListNode {
            start: (self.spec_layout().heap_start + start_offset) as u64,
            size: (alloc_size - start_offset) as u64,
        }
    }

    /// Whether the heap can move to its own window.
    pub open spec fn spec_can_switch(&self, heap: KernelAllocator, alloc_size: u64) -> bool {
        let used = heap.spec_boot().next - heap.spec_boot().start;
        let rest = self.spec_heap_rest(heap, alloc_size);
        &&& !heap.spec_uses_main()
        &&& used + 4095 <= u64::MAX
        &&& ceil_to(used as u64, PAGE_SIZE) <= alloc_size
        &&& self.spec_layout().heap_start + ceil_to(used as u64, PAGE_SIZE) <= u64::MAX
        &&& rest.wf()
        &&& crate::mem::allocator::linked_list::disjoint_from_list(heap.spec_main(), rest)
    }
}

impl VirtualMemoryManagerInner {
    /// Starts the heap: allocates `INITIAL_ALLOC_SIZE` bytes of physical
    /// memory and gives them, as seen through the direct map, to the boot
    /// allocator as its range. Returns where the memory starts and how much
    /// it is; `None`, with the boot allocator untouched, if the allocation
    /// fails or its end in the direct map does not fit a machine word. The
    /// boot allocator must not have a range yet.
    pub fn seed_boot_allocator(&mut self, heap: &mut KernelAllocator) -> (r: Option<
        (PhysicalAddress, u64),
    >)
        requires
            old(self).wf(),
            old(heap).wf(),
            old(heap).spec_boot().start == 0,
        ensures
            final(self).wf(),
            final(heap).wf(),
            final(self).spec_direct_map_offset() == old(self).spec_direct_map_offset(),
            final(self).spec_layout() == old(self).spec_layout(),
            final(self).spec_kernel_table() == old(self).spec_kernel_table(),
            final(self).spec_uses_heap_addresses() == old(self).spec_uses_heap_addresses(),
            final(heap).spec_main() == old(heap).spec_main(),
            final(heap).spec_uses_main() == old(heap).spec_uses_main(),
            final(self).spec_free_list() == spec_allocate_pages(
                old(self).spec_free_list(),
                INITIAL_ALLOC_SIZE,
            ).0,
            match spec_allocate_pages(old(self).spec_free_list(), INITIAL_ALLOC_SIZE).1 {
                Some(start) => if start + INITIAL_ALLOC_SIZE <= u64::MAX {
                    &&& r == Some(
                        (
                            PhysicalAddress(
                                (start - old(self).spec_direct_map_offset()) as u64,
                            ),
                            INITIAL_ALLOC_SIZE,
                        ),
                    )
                    &&& final(heap).spec_boot() == (BumpState {
                        start,
                        end: (start + INITIAL_ALLOC_SIZE) as u64,
                        next: start,
                        allocations: old(heap).spec_boot().allocations,
                    })
                } else {
                    r is None && final(heap).spec_boot() == old(heap).spec_boot()
                },
                None => r is None && final(heap).spec_boot() == old(heap).spec_boot(),
            },
    {
        proof {
            assert(ceil_to(INITIAL_ALLOC_SIZE, PAGE_SIZE) == INITIAL_ALLOC_SIZE) by {
                assert(((0x1_0000u64 + 4095) as u64) & !0xfffu64 == 0x1_0000u64) by (bit_vector);
            }
        }
        match self.kernel_alloc_unchecked(INITIAL_ALLOC_SIZE) {
            Some((alloc_start, alloc_size)) => {
                let offset = self.physical_allocator.direct_map_offset();
                let start = alloc_start.0 + offset;
                if start > u64::MAX - alloc_size {
                    return None;
                }
                heap.init_boot_allocator(VirtualAddress(start), VirtualAddress(start + alloc_size));
                Some((alloc_start, alloc_size))
            },
            None => None,
        }
    }
}

/// What the kernel asks of its memory manager.
pub trait MemoryManager {
    /// The free list of physical pages.
    spec fn free_pages(&self) -> Seq<ListNode>;

    /// What an allocation of `size` bytes leaves of the free list, and what
    /// it returns.
    spec fn allocation(&self, size: u64) -> (Seq<ListNode>, Option<(VirtualAddress, u64)>);

    /// Whether the manager is in a state to serve.
    spec fn ready(&self) -> bool;

    /// Allocates `size` bytes, rounded up to whole pages, for the kernel
    /// heap, and returns where the kernel sees them and how many they are.
    fn kernel_alloc(&mut self, size: u64) -> (r: Option<(VirtualAddress, u64)>)
        requires
            old(self).ready(),
        ensures
            final(self).ready(),
            (final(self).free_pages(), r) == old(self).allocation(size),
    ;
}

/// The kernel's memory manager: its state behind the kernel's lock.
pub struct VirtualMemoryManager {
    inner: IRQSafeNullLock<VirtualMemoryManagerInner>,
}

impl VirtualMemoryManager {
    /// The state of the manager.
    pub closed spec fn view(&self) -> VirtualMemoryManagerInner {
        self.inner@
    }

    /// A manager without memory and without a table, for the direct map at
    /// the page-aligned offset `direct_map_offset`.
    pub fn new(direct_map_offset: u64, layout: KernelLayout) -> (r: Self)
        requires
            is_aligned_to(direct_map_offset, PAGE_SIZE),
        ensures
            r@.wf(),
            r@.spec_free_list() == Seq::<ListNode>::empty(),
            r@.spec_direct_map_offset() == direct_map_offset,
            r@.spec_layout() == layout,
            r@.spec_kernel_table() is None,
            !r@.spec_uses_heap_addresses(),
    {
        Self {
            inner: IRQSafeNullLock::new(VirtualMemoryManagerInner::new(direct_map_offset, layout)),
        }
    }

    /// The state of the manager, taken out of its lock.
    pub fn into_inner(self) -> (r: VirtualMemoryManagerInner)
        ensures
            r == self@,
    {
        self.inner.into_inner()
    }

    /// The manager of the given state.
    pub fn from_inner(inner: VirtualMemoryManagerInner) -> (r: Self)
        ensures
            r@ == inner,
    {
        Self { inner: IRQSafeNullLock::new(inner) }
    }
}

impl MemoryManager for VirtualMemoryManager {
    closed spec fn free_pages(&self) -> Seq<ListNode> {
        self.inner@.spec_free_list()
    }

    closed spec fn allocation(&self, size: u64) -> (Seq<ListNode>, Option<(VirtualAddress, u64)>) {
        self.inner@.spec_kernel_alloc(size)
    }

    closed spec fn ready(&self) -> bool {
        self.inner@.wf()
    }

    fn kernel_alloc(&mut self, size: u64) -> (r: Option<(VirtualAddress, u64)>) {
        let inner = self.inner.lock();
        inner.kernel_alloc(size)
    }
}

} // verus!
