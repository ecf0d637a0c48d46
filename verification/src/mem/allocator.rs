//! Alignment helpers and the kernel allocator facade.

use vstd::prelude::*;

use crate::mem::allocator::bump::{spec_bump, BumpAllocator, BumpState};
use crate::mem::allocator::linked_list::{
    disjoint_from_list, list_wf, spec_alloc, spec_size_align, LinkedListAllocator, ListNode,
};
use crate::mem::vm::paging::VirtualAddress;
use crate::mem::VirtualMemoryManagerInner;

pub mod bump;
pub mod linked_list;
pub mod physical_page;

verus! {

/// The size and alignment of a block of memory.
#[derive(Clone, Copy, Debug, PartialEq, Eq, Structural)]
pub struct Layout {
    size: u64,
    align: u64,
}

/// The greatest size that a layout may have once it is rounded up to its
/// alignment.
pub const MAX_LAYOUT_SIZE: u64 = 0x7fff_ffff_ffff_ffff;

impl Layout {
    /// The size of the block in bytes.
    pub closed spec fn spec_size(&self) -> u64 {
        self.size
    }

    /// The alignment of the block, a power of two.
    pub closed spec fn spec_align(&self) -> u64 {
        self.align
    }

    /// The alignment is a power of two, and the size rounded up to it does
    /// not exceed `MAX_LAYOUT_SIZE`.
    pub open spec fn wf(&self) -> bool {
        &&& is_power_of_two(self.spec_align())
        &&& self.spec_align() <= MAX_LAYOUT_SIZE
        &&& self.spec_size() <= MAX_LAYOUT_SIZE + 1 - self.spec_align()
    }

    /// The layout with the given size and alignment, if the alignment is a
    /// power of two and the size, rounded up to it, is at most
    /// `MAX_LAYOUT_SIZE`.
    pub fn from_size_align(size: u64, align: u64) -> (r: Option<Layout>)
        ensures
            r.is_some() <==> is_power_of_two(align) && align <= MAX_LAYOUT_SIZE && size
                <= MAX_LAYOUT_SIZE + 1 - align,
            r.is_some() ==> r.unwrap().wf() && r.unwrap().spec_size() == size
                && r.unwrap().spec_align() == align,
    {
        if power_of_two(align) && align <= MAX_LAYOUT_SIZE && size <= MAX_LAYOUT_SIZE + 1 - align {
            Some(Layout { size, align })
        } else {
            None
        }
    }

    /// The size of the block in bytes.
    pub fn size(&self) -> (r: u64)
        ensures
            r == self.spec_size(),
    {
        self.size
    }

    /// The alignment of the block.
    pub fn align(&self) -> (r: u64)
        ensures
            r == self.spec_align(),
    {
        self.align
    }

    /// The size rounded up to the alignment.
    pub fn padded_size(&self) -> (r: u64)
        requires
            self.wf(),
        ensures
            r == ceil_to(self.spec_size(), self.spec_align()),
            r >= self.spec_size(),
            is_aligned_to(r, self.spec_align()),
            r <= MAX_LAYOUT_SIZE,
    {
        let r = align_up(self.size, self.align);
        proof {
            let a = self.align;
            let m = (a - 1) as u64;
            let limit = (MAX_LAYOUT_SIZE + 1 - a) as u64;
            let size = self.size;
            assert(a != 0 && a & m == 0 && m == (a - 1) as u64 && a <= 0x7fff_ffff_ffff_ffffu64
                && limit == 0x8000_0000_0000_0000u64 - a && size <= limit && r & m == 0 && r
                >= size && r - size < a ==> r <= 0x7fff_ffff_ffff_ffffu64) by (bit_vector);
        }
        r
    }
}

/// Whether `align` is a power of two.
pub open spec fn is_power_of_two(align: u64) -> bool {
    align != 0 && align & ((align - 1) as u64) == 0
}

/// Whether `value` is a multiple of the power of two `align`: none of the
/// bits below `align` is set.
pub open spec fn is_aligned_to(value: u64, align: u64) -> bool {
    value & ((align - 1) as u64) == 0
}

/// `value` with the bits below the power of two `align` cleared; `value`
/// itself when `align` is zero.
pub open spec fn floor_to(value: u64, align: u64) -> u64 {
    if align == 0 {
        value
    } else {
        value & !((align - 1) as u64)
    }
}

/// `value` rounded up to the power of two `align`.
pub open spec fn ceil_to(value: u64, align: u64) -> u64 {
    ((value + align - 1) as u64) & !((align - 1) as u64)
}

/// Clearing the low bits gives the one aligned value in `(value - align, value]`.
pub proof fn lemma_floor_to(value: u64, align: u64)
    requires
        is_power_of_two(align),
    ensures
        is_aligned_to(floor_to(value, align), align),
        floor_to(value, align) <= value,
        value - floor_to(value, align) < align,
        is_aligned_to(value, align) ==> floor_to(value, align) == value,
{
    let mask = (align - 1) as u64;
    assert(align != 0 && align & mask == 0 && mask == (align - 1) as u64 ==> (value & !mask) & mask
        == 0 && (value & !mask) <= value && value - (value & !mask) < align && (value & mask == 0
        ==> value & !mask == value)) by (bit_vector);
}

/// Rounding up gives the one aligned value in `[value, value + align)`.
pub proof fn lemma_ceil_to(value: u64, align: u64)
    requires
        is_power_of_two(align),
        value + align - 1 <= u64::MAX,
    ensures
        is_aligned_to(ceil_to(value, align), align),
        ceil_to(value, align) >= value,
        ceil_to(value, align) - value < align,
        is_aligned_to(value, align) ==> ceil_to(value, align) == value,
{
    let mask = (align - 1) as u64;
    let bumped = (value + align - 1) as u64;
    assert(align != 0 && align & mask == 0 && mask == (align - 1) as u64 && bumped == value + mask
        && bumped >= value ==> (bumped & !mask) & mask == 0 && (bumped & !mask) >= value && (bumped
        & !mask) - value < align && (value & mask == 0 ==> bumped & !mask == value))
        by (bit_vector);
}

/// 4096, the page size, is a power of two.
pub proof fn lemma_page_size_is_power_of_two()
    ensures
        is_power_of_two(4096),
{
    assert(4096u64 & ((4096u64 - 1) as u64) == 0) by (bit_vector);
}

/// For the page size, alignment is divisibility by 4096.
pub proof fn lemma_page_aligned(value: u64)
    ensures
        is_aligned_to(value, 4096) <==> value % 4096 == 0,
        floor_to(value, 4096) == value - value % 4096,
        value + 4095 <= u64::MAX ==> ceil_to(value, 4096) == (if value % 4096 == 0 {
            value as int
        } else {
            value - value % 4096 + 4096
        }),
{
    assert((value & 0xfffu64 == 0) <==> value % 4096 == 0) by (bit_vector);
    assert(value & !0xfffu64 == value - value % 4096) by (bit_vector);
    let bumped = (value + 4095) as u64;
    assert(bumped & !0xfffu64 == bumped - bumped % 4096) by (bit_vector);
}

/// Whether `value` is a power of two.
pub fn power_of_two(value: u64) -> (r: bool)
    ensures
        r == is_power_of_two(value),
{
    value != 0 && value & (value - 1) == 0
}

/// Rounds `size` down to a multiple of `align`, which must be a power of two
/// or zero; with zero the value is returned unchanged.
pub fn align_down(size: u64, align: u64) -> (r: u64)
    requires
        align == 0 || is_power_of_two(align),
    ensures
        r == floor_to(size, align),
        r <= size,
        align != 0 ==> is_aligned_to(r, align) && size - r < align,
{
    if power_of_two(align) {
        proof {
            lemma_floor_to(size, align);
        }
        size & !(align - 1)
    } else {
        size
    }
}

/// Rounds `addr` up to a multiple of `align`, which must be a power of two.
/// The rounded value must fit in a machine word.
pub fn align_up(addr: u64, align: u64) -> (r: u64)
    requires
        is_power_of_two(align),
        addr + align - 1 <= u64::MAX,
    ensures
        r == ceil_to(addr, align),
        r >= addr,
        is_aligned_to(r, align),
        r - addr < align,
{
    proof {
        lemma_ceil_to(addr, align);
    }
    (addr + (align - 1)) & !(align - 1)
}

/// What an allocation from the main heap leaves of the heap and of the free
/// list of physical pages, and where the block starts.
///
/// The block is cut from the heap if a free region fits. If none does, the
/// memory manager is asked for the size of the layout, rounded up to its
/// alignment, in whole pages; what it grants is added to the heap, and the
/// block is cut once more. A grant that cannot be added to the heap is of
/// no use: the allocation fails.
pub open spec fn spec_heap_alloc(
    main: Seq<ListNode>,
    vmm: VirtualMemoryManagerInner,
    layout: Layout,
) -> (Seq<ListNode>, Seq<ListNode>, Option<u64>) {
    let first = spec_alloc(main, layout);
    if first.1 is Some {
        (first.0, vmm.spec_free_list(), first.1)
    } else {
        let grant = vmm.spec_kernel_alloc(ceil_to(layout.spec_size(), layout.spec_align()));
        match grant.1 {
            None => (main, grant.0, None),
            Some((start, size)) => {
                let node = ListNode { start: start.0, size };
                if node.wf() && disjoint_from_list(main, node) {
                    let second = spec_alloc(main.insert(0, node), layout);
                    (second.0, grant.0, second.1)
                } else {
                    (main, grant.0, None)
                }
            },
        }
    }
}

/// The kernel's allocator: the boot allocator until the heap has moved to
/// its own window, the main allocator from then on.
pub struct KernelAllocator {
    boot_allocator: BumpAllocator,
    main_allocator: LinkedListAllocator,
    use_main_allocator: bool,
}

impl KernelAllocator {
    /// What the boot allocator holds.
    pub closed spec fn spec_boot(&self) -> BumpState {
        self.boot_allocator@
    }

    /// The free list of the main allocator.
    pub closed spec fn spec_main(&self) -> Seq<ListNode> {
        self.main_allocator@
    }

    /// Whether the main allocator serves.
    pub closed spec fn spec_uses_main(&self) -> bool {
        self.use_main_allocator
    }

    /// Both allocators are well formed.
    pub open spec fn wf(&self) -> bool {
        &&& list_wf(self.spec_main())
        &&& self.spec_boot().start <= self.spec_boot().next
    }

    /// An allocator in its boot state, without memory.
    pub fn new() -> (r: Self)
        ensures
            r.wf(),
            !r.spec_uses_main(),
            r.spec_main() == Seq::<ListNode>::empty(),
            r.spec_boot() == (BumpState { start: 0, end: 0, next: 0, allocations: 0 }),
    {
        Self {
            boot_allocator: BumpAllocator::new(),
            main_allocator: LinkedListAllocator::new(),
            use_main_allocator: false,
        }
    }

    /// Whether the main allocator serves.
    pub fn uses_main_allocator(&self) -> (r: bool)
        ensures
            r == self.spec_uses_main(),
    {
        self.use_main_allocator
    }

    /// Whether the boot allocator has been given its range.
    pub fn boot_is_initialised(&self) -> (r: bool)
        ensures
            r == (self.spec_boot().start != 0),
    {
        self.boot_allocator.is_initialised()
    }

    /// Whether the block of the given layout at `ptr` can be taken back:
    /// before the hand-over, the boot allocator has its range and at least
    /// one block handed out; after it, the block can hold a header and
    /// overlaps no free region.
    pub fn can_dealloc(&self, ptr: u64, layout: Layout) -> (r: bool)
        requires
            self.wf(),
            layout.wf(),
            layout.spec_size() <= 0x7fff_ffff_ffff_fff8,
        ensures
            r == (if self.spec_uses_main() {
                (ListNode { start: ptr, size: spec_size_align(layout).0 }).wf()
                    && disjoint_from_list(
                    self.spec_main(),
                    ListNode { start: ptr, size: spec_size_align(layout).0 },
                )
            } else {
                self.spec_boot().start != 0 && self.spec_boot().allocations > 0
            }),
    {
        if self.use_main_allocator {
            let (size, _) = LinkedListAllocator::size_align(layout);
            self.main_allocator.can_add(ptr, size)
        } else {
            self.boot_allocator.is_initialised() && self.boot_allocator.allocations() > 0
        }
    }

    /// The bytes that the boot allocator has used.
    pub fn boot_used(&self) -> (r: u64)
        requires
            self.wf(),
        ensures
            r == self.spec_boot().next - self.spec_boot().start,
    {
        self.boot_allocator.used()
    }

    /// Whether the region of `heap_size` bytes at `heap_start` could be
    /// added to the main allocator.
    pub fn can_add_heap_region(&self, heap_start: VirtualAddress, heap_size: u64) -> (r: bool)
        requires
            self.wf(),
        ensures
            r == ((ListNode { start: heap_start.0, size: heap_size }).wf() && disjoint_from_list(
                self.spec_main(),
                ListNode { start: heap_start.0, size: heap_size },
            )),
    {
        self.main_allocator.can_add(heap_start.0, heap_size)
    }

    /// Adds the region of `heap_size` bytes at `heap_start` to the main
    /// allocator. Allowed only while the kernel boots:
    /// `early_init_complete` must be `false`.
    pub fn add_heap_region(
        &mut self,
        heap_start: VirtualAddress,
        heap_size: u64,
        early_init_complete: bool,
    )
        requires
            !early_init_complete,
            old(self).wf(),
            (ListNode { start: heap_start.0, size: heap_size }).wf(),
            disjoint_from_list(
                old(self).spec_main(),
                ListNode { start: heap_start.0, size: heap_size },
            ),
        ensures
            final(self).wf(),
            final(self).spec_main() == old(self).spec_main().insert(
                0,
                ListNode { start: heap_start.0, size: heap_size },
            ),
            final(self).spec_boot() == old(self).spec_boot(),
            final(self).spec_uses_main() == old(self).spec_uses_main(),
    {
        self.main_allocator.add_heap_region(heap_start.0, heap_size);
    }

    /// Gives the boot allocator its range `[start, end)`. It must not have
    /// one yet.
    pub fn init_boot_allocator(&mut self, start: VirtualAddress, end: VirtualAddress)
        requires
            old(self).wf(),
            old(self).spec_boot().start == 0,
        ensures
            final(self).wf(),
            final(self).spec_boot() == (BumpState {
                start: start.0,
                end: end.0,
                next: start.0,
                allocations: old(self).spec_boot().allocations,
            }),
            final(self).spec_main() == old(self).spec_main(),
            final(self).spec_uses_main() == old(self).spec_uses_main(),
    {
        self.boot_allocator.init(start, end);
    }

    /// Hands over to the main allocator, once and for all, and returns the
    /// bytes that the boot allocator has used. The main allocator must not
    /// serve yet.
    pub fn use_main_allocator(&mut self) -> (r: u64)
        requires
            old(self).wf(),
            !old(self).spec_uses_main(),
        ensures
            final(self).wf(),
            final(self).spec_uses_main(),
            r == old(self).spec_boot().next - old(self).spec_boot().start,
            final(self).spec_boot() == old(self).spec_boot(),
            final(self).spec_main() == old(self).spec_main(),
    {
        self.use_main_allocator = true;
        self.boot_allocator.get_size()
    }

    /// Allocates a block of the given layout and returns where it starts,
    /// or `None` if there is no memory for it.
    ///
    /// Before the hand-over the boot allocator serves, which must have its
    /// range. After it the main allocator serves; when it has no region
    /// that fits, the memory manager is asked for more pages once, and the
    /// block is cut from the heap that they have been added to.
    pub fn alloc_block(&mut self, layout: Layout, vmm: &mut VirtualMemoryManagerInner) -> (r:
        Option<u64>)
        requires
            old(self).wf(),
            old(vmm).wf(),
            layout.wf(),
            layout.spec_size() <= 0x7fff_ffff_ffff_fff8,
            !old(self).spec_uses_main() ==> old(self).spec_boot().start != 0,
        ensures
            final(self).wf(),
            final(vmm).wf(),
            final(self).spec_uses_main() == old(self).spec_uses_main(),
            final(vmm).spec_direct_map_offset() == old(vmm).spec_direct_map_offset(),
            final(vmm).spec_layout() == old(vmm).spec_layout(),
            final(vmm).spec_kernel_table() == old(vmm).spec_kernel_table(),
            final(vmm).spec_uses_heap_addresses() == old(vmm).spec_uses_heap_addresses(),
            r is Some ==> is_aligned_to(r.unwrap(), layout.spec_align()),
            !old(self).spec_uses_main() ==> {
                &&& r == spec_bump(old(self).spec_boot(), layout.spec_size(), layout.spec_align())
                &&& final(self).spec_main() == old(self).spec_main()
                &&& final(vmm).spec_free_list() == old(vmm).spec_free_list()
                &&& r is None ==> final(self).spec_boot() == old(self).spec_boot()
                &&& r is Some ==> final(self).spec_boot() == (BumpState {
                    next: (r.unwrap() + layout.spec_size()) as u64,
                    allocations: (old(self).spec_boot().allocations + 1) as u64,
                    ..old(self).spec_boot()
                })
            },
            old(self).spec_uses_main() ==> {
                &&& final(self).spec_boot() == old(self).spec_boot()
                &&& (final(self).spec_main(), final(vmm).spec_free_list(), r) == spec_heap_alloc(
                    old(self).spec_main(),
                    *old(vmm),
                    layout,
                )
            },
    {
        if self.use_main_allocator {
            let result = self.main_allocator.alloc_block(layout);
            if result.is_some() {
                return result;
            }
            match vmm.kernel_alloc(layout.padded_size()) {
                Some((alloc_start, size)) => {
                    if self.main_allocator.can_add(alloc_start.0, size) {
                        self.main_allocator.add_heap_region(alloc_start.0, size);
                        self.main_allocator.alloc_block(layout)
                    } else {
                        None
                    }
                },
                None => None,
            }
        } else {
            self.boot_allocator.alloc_block(layout)
        }
    }

    /// Takes back the block of the given layout at `ptr`.
    ///
    /// Before the hand-over the boot allocator counts one block less; at
    /// least one must be handed out. After it the block goes to the head of
    /// the main allocator's free list; it must have been cut with this
    /// layout and overlap no free region.
    pub fn dealloc(&mut self, ptr: u64, layout: Layout)
        requires
            old(self).wf(),
            layout.wf(),
            layout.spec_size() <= 0x7fff_ffff_ffff_fff8,
            !old(self).spec_uses_main() ==> old(self).spec_boot().start != 0 && old(self).spec_boot().allocations > 0,
            old(self).spec_uses_main() ==> (ListNode {
                start: ptr,
                size: spec_size_align(layout).0,
            }).wf() && disjoint_from_list(
                old(self).spec_main(),
                ListNode { start: ptr, size: spec_size_align(layout).0 },
            ),
        ensures
            final(self).wf(),
            final(self).spec_uses_main() == old(self).spec_uses_main(),
            !old(self).spec_uses_main() ==> final(self).spec_main() == old(self).spec_main()
                && final(self).spec_boot() == (BumpState {
                allocations: (old(self).spec_boot().allocations - 1) as u64,
                next: if old(self).spec_boot().allocations == 1 {
                    old(self).spec_boot().start
                } else {
                    old(self).spec_boot().next
                },
                ..old(self).spec_boot()
            }),
            old(self).spec_uses_main() ==> final(self).spec_boot() == old(self).spec_boot()
                && final(self).spec_main() == old(self).spec_main().insert(
                0,
                ListNode { start: ptr, size: spec_size_align(layout).0 },
            ),
    {
        if self.use_main_allocator {
            self.main_allocator.dealloc(ptr, layout)
        } else {
            self.boot_allocator.dealloc()
        }
    }
}

} // verus!
