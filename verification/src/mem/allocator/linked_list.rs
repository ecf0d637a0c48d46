//! Free lists of memory regions and the heap allocator built on one.
//!
//! A free region is described by a node: where the region starts and how
//! many bytes it holds. A free list is a sequence of such nodes, head first.

use vstd::prelude::*;

use crate::mem::allocator::{
    align_up, ceil_to, is_aligned_to, is_power_of_two, lemma_ceil_to, Layout,
};

verus! {

/// Bytes that the header of a free region takes at the front of the region.
pub const LIST_NODE_SIZE: u64 = 16;

/// The alignment of the header of a free region.
pub const LIST_NODE_ALIGN: u64 = 8;

/// A free region: `size` bytes from `start`.
#[derive(Clone, Copy, Debug, PartialEq, Eq, Structural)]
pub struct ListNode {
    pub start: u64,
    pub size: u64,
}

impl ListNode {
    /// The first address after the region.
    pub open spec fn spec_end(&self) -> int {
        self.start + self.size
    }

    /// The region can hold its header: its start is aligned for one, it is
    /// at least as large as one, and it ends within the address space.
    pub open spec fn wf(&self) -> bool {
        &&& is_aligned_to(self.start, LIST_NODE_ALIGN)
        &&& self.size >= LIST_NODE_SIZE
        &&& self.start + self.size <= u64::MAX
    }

    /// Whether the two regions share no byte.
    pub open spec fn disjoint(&self, other: ListNode) -> bool {
        self.spec_end() <= other.start || other.spec_end() <= self.start
    }

    /// The region of `size` bytes from `start`.
    pub fn new(start: u64, size: u64) -> (r: ListNode)
        ensures
            r.start == start,
            r.size == size,
    {
        ListNode { start, size }
    }

    /// The first address of the region.
    pub fn start_addr(&self) -> (r: u64)
        ensures
            r == self.start,
    {
        self.start
    }

    /// The first address after the region, which must lie within the
    /// address space.
    pub fn end_addr(&self) -> (r: u64)
        requires
            self.start + self.size <= u64::MAX,
        ensures
            r == self.spec_end(),
    {
        self.start + self.size
    }
}

/// Every node of the list can hold its header, and no two nodes overlap.
pub open spec fn list_wf(nodes: Seq<ListNode>) -> bool {
    &&& forall|i: int| 0 <= i < nodes.len() ==> (#[trigger] nodes[i]).wf()
    &&& forall|i: int, j: int|
        0 <= i < nodes.len() && 0 <= j < nodes.len() && i != j ==> (#[trigger] nodes[i]).disjoint(
            #[trigger] nodes[j],
        )
}

/// Whether `node` overlaps no node of the list.
pub open spec fn disjoint_from_list(nodes: Seq<ListNode>, node: ListNode) -> bool {
    forall|i: int| 0 <= i < nodes.len() ==> node.disjoint(#[trigger] nodes[i])
}

/// The bytes that the nodes of the list hold together.
pub open spec fn free_bytes(nodes: Seq<ListNode>) -> nat
    decreases nodes.len(),
{
    if nodes.len() == 0 {
        0
    } else {
        nodes.last().size as nat + free_bytes(nodes.drop_last())
    }
}

/// Where a block of `size` bytes aligned to `align` starts if it is cut
/// from `node`: at the start of the node rounded up to `align`. The block
/// has to end within the node, and what is left behind it has to be nothing
/// or enough for a header.
pub open spec fn fit(node: ListNode, size: u64, align: u64) -> Option<u64> {
    if node.start + align - 1 > u64::MAX {
        None
    } else {
        let start = ceil_to(node.start, align);
        if start + size > node.spec_end() {
            None
        } else {
            let excess = node.spec_end() - (start + size);
            if 0 < excess < LIST_NODE_SIZE {
                None
            } else {
                Some(start)
            }
        }
    }
}

/// The index of the first node, from `from` on, from which the block can be
/// cut.
pub open spec fn first_fit(nodes: Seq<ListNode>, size: u64, align: u64, from: int) -> Option<int>
    decreases nodes.len() - from,
{
    if from < 0 || from >= nodes.len() {
        None
    } else if fit(nodes[from], size, align) is Some {
        Some(from)
    } else {
        first_fit(nodes, size, align, from + 1)
    }
}

/// The first fit is an index of the list, the block fits there, and it fits
/// in no node before.
pub proof fn lemma_first_fit(nodes: Seq<ListNode>, size: u64, align: u64, from: int)
    requires
        0 <= from,
    ensures
        match first_fit(nodes, size, align, from) {
            Some(i) => from <= i < nodes.len() && fit(nodes[i], size, align) is Some && forall|
                j: int,
            | from <= j < i ==> fit(#[trigger] nodes[j], size, align) is None,
            None => forall|j: int|
                from <= j < nodes.len() ==> fit(#[trigger] nodes[j], size, align) is None,
        },
    decreases nodes.len() - from,
{
    if from < nodes.len() && fit(nodes[from], size, align) is None {
        lemma_first_fit(nodes, size, align, from + 1);
    }
}

/// The list with the remainder of `node` behind a block of `size` bytes at
/// `start` put at its head, if there is a remainder.
pub open spec fn with_remainder(nodes: Seq<ListNode>, node: ListNode, start: u64, size: u64) -> Seq<
    ListNode,
> {
    let excess = node.spec_end() - (start + size);
    if excess > 0 {
        nodes.insert(0, ListNode { start: (start + size) as u64, size: excess as u64 })
    } else {
        nodes
    }
}

/// Adding a node at the head adds its bytes.
pub proof fn lemma_free_bytes_insert(nodes: Seq<ListNode>, node: ListNode)
    ensures
        free_bytes(nodes.insert(0, node)) == free_bytes(nodes) + node.size,
    decreases nodes.len(),
{
    let grown = nodes.insert(0, node);
    if nodes.len() == 0 {
        assert(grown.drop_last() =~= nodes);
        assert(grown.last() == node);
    } else {
        assert(grown.drop_last() =~= nodes.drop_last().insert(0, node));
        assert(grown.last() == nodes.last());
        lemma_free_bytes_insert(nodes.drop_last(), node);
    }
}

/// Removing a node takes its bytes away.
pub proof fn lemma_free_bytes_remove(nodes: Seq<ListNode>, index: int)
    requires
        0 <= index < nodes.len(),
    ensures
        free_bytes(nodes.remove(index)) + nodes[index].size == free_bytes(nodes),
    decreases nodes.len(),
{
    let rest = nodes.remove(index);
    if index == nodes.len() - 1 {
        assert(rest =~= nodes.drop_last());
    } else {
        assert(rest.drop_last() =~= nodes.drop_last().remove(index));
        assert(rest.last() == nodes.last());
        lemma_free_bytes_remove(nodes.drop_last(), index);
    }
}

/// A well-formed list stays so when a node is removed, and what is
/// disjoint from the list stays disjoint from the rest.
pub proof fn lemma_remove_wf(nodes: Seq<ListNode>, index: int)
    requires
        list_wf(nodes),
        0 <= index < nodes.len(),
    ensures
        list_wf(nodes.remove(index)),
        disjoint_from_list(nodes.remove(index), nodes[index]),
{
    let rest = nodes.remove(index);
    assert forall|i: int| 0 <= i < rest.len() implies (#[trigger] rest[i]).wf()
        && nodes[index].disjoint(rest[i]) by {
        if i < index {
            assert(rest[i] == nodes[i]);
        } else {
            assert(rest[i] == nodes[i + 1]);
        }
    }
    assert forall|i: int, j: int|
        0 <= i < rest.len() && 0 <= j < rest.len() && i != j implies (#[trigger] rest[i]).disjoint(
        #[trigger] rest[j],
    ) by {
        let a = if i < index { i } else { i + 1 };
        let b = if j < index { j } else { j + 1 };
        assert(rest[i] == nodes[a]);
        assert(rest[j] == nodes[b]);
    }
}

/// A well-formed list stays so when a well-formed node that overlaps none
/// of its nodes is put at its head.
pub proof fn lemma_insert_wf(nodes: Seq<ListNode>, node: ListNode)
    requires
        list_wf(nodes),
        node.wf(),
        disjoint_from_list(nodes, node),
    ensures
        list_wf(nodes.insert(0, node)),
{
    let grown = nodes.insert(0, node);
    assert forall|i: int| 0 <= i < grown.len() implies (#[trigger] grown[i]).wf() by {
        if i > 0 {
            assert(grown[i] == nodes[i - 1]);
        }
    }
    assert forall|i: int, j: int|
        0 <= i < grown.len() && 0 <= j < grown.len() && i != j implies (
    #[trigger] grown[i]).disjoint(#[trigger] grown[j]) by {
        if i > 0 {
            assert(grown[i] == nodes[i - 1]);
        }
        if j > 0 {
            assert(grown[j] == nodes[j - 1]);
        }
    }
}

/// Tries to cut a block of `size` bytes aligned to `align` from `region`,
/// and returns where the block starts.
pub fn alloc_from_region(region: &ListNode, size: u64, align: u64) -> (r: Result<u64, ()>)
    requires
        is_power_of_two(align),
        region.start + region.size <= u64::MAX,
    ensures
        r.is_ok() == fit(*region, size, align).is_some(),
        r.is_ok() ==> r.unwrap() == fit(*region, size, align).unwrap(),
        r.is_ok() ==> is_aligned_to(r.unwrap(), align) && region.start <= r.unwrap()
            && r.unwrap() + size <= region.spec_end(),
{
    if region.start > u64::MAX - (align - 1) {
        return Err(());
    }
    let alloc_start = align_up(region.start, align);
    let alloc_end = match alloc_start.checked_add(size) {
        Some(end) => end,
        None => {
            return Err(());
        },
    };
    if alloc_end > region.end_addr() {
        return Err(());
    }
    let excess_size = region.end_addr() - alloc_end;
    if excess_size > 0 && excess_size < LIST_NODE_SIZE {
        return Err(());
    }
    Ok(alloc_start)
}

/// Finds the first node of `nodes` from which a block of `size` bytes
/// aligned to `align` can be cut, removes it from the list, and returns it
/// with the start of the block.
pub fn take_first_fit(nodes: &mut Vec<ListNode>, size: u64, align: u64) -> (r: Option<
    (ListNode, u64),
>)
    requires
        is_power_of_two(align),
        list_wf(old(nodes)@),
    ensures
        list_wf(final(nodes)@),
        match first_fit(old(nodes)@, size, align, 0) {
            Some(i) => r == Some((old(nodes)@[i], fit(old(nodes)@[i], size, align).unwrap()))
                && final(nodes)@ == old(nodes)@.remove(i) && disjoint_from_list(
                final(nodes)@,
                old(nodes)@[i],
            ) && old(nodes)@[i].wf(),
            None => r is None && final(nodes)@ == old(nodes)@,
        },
{
    let mut i: usize = 0;
    while i < nodes.len()
        invariant
            i <= nodes@.len(),
            nodes@ == old(nodes)@,
            is_power_of_two(align),
            list_wf(nodes@),
            first_fit(nodes@, size, align, 0) == first_fit(nodes@, size, align, i as int),
        decreases nodes@.len() - i,
    {
        let region = nodes[i];
        match alloc_from_region(&region, size, align) {
            Ok(alloc_start) => {
                proof {
                    lemma_remove_wf(nodes@, i as int);
                }
                let node = nodes.remove(i);
                return Some((node, alloc_start));
            },
            Err(_) => {
                i = i + 1;
            },
        }
    }
    None
}

/// Whether the region of `size` bytes at `start` overlaps no node of
/// `nodes`.
pub fn region_is_free(nodes: &Vec<ListNode>, start: u64, size: u64) -> (r: bool)
    requires
        start + size <= u64::MAX,
        list_wf(nodes@),
    ensures
        r == disjoint_from_list(nodes@, ListNode { start, size }),
{
    let ghost node = ListNode { start, size };
    let mut i: usize = 0;
    while i < nodes.len()
        invariant
            i <= nodes@.len(),
            start + size <= u64::MAX,
            list_wf(nodes@),
            node == (ListNode { start, size }),
            forall|j: int| 0 <= j < i ==> node.disjoint(#[trigger] nodes@[j]),
        decreases nodes@.len() - i,
    {
        let other = nodes[i];
        if !(start + size <= other.start || other.end_addr() <= start) {
            return false;
        }
        i = i + 1;
    }
    true
}

/// The size and alignment with which a block of the given layout is cut
/// from the heap, so that the block can hold a header once it is free: the
/// alignment is at least that of a header, the size is rounded up to the
/// alignment and is at least that of a header.
pub open spec fn spec_size_align(layout: Layout) -> (u64, u64) {
    let align = if layout.spec_align() < LIST_NODE_ALIGN {
        LIST_NODE_ALIGN
    } else {
        layout.spec_align()
    };
    let padded = ceil_to(layout.spec_size(), align);
    (
        if padded < LIST_NODE_SIZE {
            LIST_NODE_SIZE
        } else {
            padded
        },
        align,
    )
}

/// What cutting a block of the given layout leaves of a free list, and
/// where the block starts: the first node that fits is removed, and what is
/// left of it behind the block is put at the head of the list.
pub open spec fn spec_alloc(nodes: Seq<ListNode>, layout: Layout) -> (Seq<ListNode>, Option<u64>) {
    let (size, align) = spec_size_align(layout);
    match first_fit(nodes, size, align, 0) {
        Some(i) => {
            let start = fit(nodes[i], size, align).unwrap();
            (with_remainder(nodes.remove(i), nodes[i], start, size), Some(start))
        },
        None => (nodes, None),
    }
}

/// The end of a block that starts aligned to at least a header's alignment
/// and whose size is a multiple of that alignment, or 16, is aligned for a
/// header.
pub proof fn lemma_block_end_aligned(start: u64, size: u64, align: u64)
    requires
        is_power_of_two(align),
        align >= LIST_NODE_ALIGN,
        is_aligned_to(start, align),
        is_aligned_to(size, align) || size == LIST_NODE_SIZE,
        start + size <= u64::MAX,
    ensures
        is_aligned_to((start + size) as u64, LIST_NODE_ALIGN),
        is_aligned_to(start, LIST_NODE_ALIGN),
{
    let mask = (align - 1) as u64;
    let end = (start + size) as u64;
    assert(align != 0 && align & mask == 0 && mask == (align - 1) as u64 && align >= 8 && start
        & mask == 0 && (size & mask == 0 || size == 16) && end == start + size && end >= start
        ==> end & 7 == 0 && start & 7 == 0) by (bit_vector);
}

/// A heap over one or more regions of virtual memory, kept as a free list.
pub struct LinkedListAllocator {
    nodes: Vec<ListNode>,
}

impl LinkedListAllocator {
    /// The free list, head first.
    pub closed spec fn view(&self) -> Seq<ListNode> {
        self.nodes@
    }

    /// The free list is well formed.
    pub open spec fn wf(&self) -> bool {
        list_wf(self@)
    }

    /// A heap without memory.
    pub fn new() -> (r: Self)
        ensures
            r.wf(),
            r@ == Seq::<ListNode>::empty(),
    {
        Self { nodes: Vec::new() }
    }

    /// Adds the region of `heap_size` bytes at `heap_start` to the heap, at
    /// the head of the free list. The region must be able to hold a header
    /// and must overlap no free region.
    pub fn add_heap_region(&mut self, heap_start: u64, heap_size: u64)
        requires
            old(self).wf(),
            (ListNode { start: heap_start, size: heap_size }).wf(),
            disjoint_from_list(old(self)@, ListNode { start: heap_start, size: heap_size }),
        ensures
            final(self).wf(),
            final(self)@ == old(self)@.insert(0, ListNode { start: heap_start, size: heap_size }),
            free_bytes(final(self)@) == free_bytes(old(self)@) + heap_size,
    {
        self.add_free_region(heap_start, heap_size);
    }

    /// Puts the region of `size` bytes at `addr` at the head of the free
    /// list.
    pub fn add_free_region(&mut self, addr: u64, size: u64)
        requires
            old(self).wf(),
            (ListNode { start: addr, size }).wf(),
            disjoint_from_list(old(self)@, ListNode { start: addr, size }),
        ensures
            final(self).wf(),
            final(self)@ == old(self)@.insert(0, ListNode { start: addr, size }),
            free_bytes(final(self)@) == free_bytes(old(self)@) + size,
    {
        let node = ListNode::new(addr, size);
        proof {
            lemma_insert_wf(self@, node);
            lemma_free_bytes_insert(self@, node);
        }
        self.nodes.insert(0, node);
    }

    /// Whether the region of `size` bytes at `start` could be added: it can
    /// hold a header and overlaps no free region.
    pub fn can_add(&self, start: u64, size: u64) -> (r: bool)
        requires
            self.wf(),
        ensures
            r == ((ListNode { start, size }).wf() && disjoint_from_list(
                self@,
                ListNode { start, size },
            )),
    {
        start & (LIST_NODE_ALIGN - 1) == 0 && size >= LIST_NODE_SIZE && size <= u64::MAX - start
            && region_is_free(&self.nodes, start, size)
    }

    /// Removes the first free region from which a block of `size` bytes
    /// aligned to `align` can be cut, and returns where the block starts.
    /// Nothing of the region goes back to the list.
    pub fn allocate(&mut self, size: u64, align: u64) -> (r: Option<u64>)
        requires
            old(self).wf(),
            is_power_of_two(align),
        ensures
            final(self).wf(),
            match first_fit(old(self)@, size, align, 0) {
                Some(i) => r == fit(old(self)@[i], size, align) && final(self)@ == old(
                    self,
                )@.remove(i) && is_aligned_to(r.unwrap(), align),
                None => r is None && final(self)@ == old(self)@,
            },
    {
        proof {
            lemma_first_fit(self@, size, align, 0);
            if first_fit(self@, size, align, 0) is Some {
                let i = first_fit(self@, size, align, 0).unwrap();
                lemma_ceil_to(self@[i].start, align);
            }
        }
        match self.find_region(size, align) {
            Some((_, alloc_start)) => Some(alloc_start),
            None => None,
        }
    }

    /// Removes the first free region from which a block of `size` bytes
    /// aligned to `align` can be cut, and returns the region and where the
    /// block starts.
    pub fn find_region(&mut self, size: u64, align: u64) -> (r: Option<(ListNode, u64)>)
        requires
            old(self).wf(),
            is_power_of_two(align),
        ensures
            final(self).wf(),
            match first_fit(old(self)@, size, align, 0) {
                Some(i) => r == Some((old(self)@[i], fit(old(self)@[i], size, align).unwrap()))
                    && final(self)@ == old(self)@.remove(i) && disjoint_from_list(
                    final(self)@,
                    old(self)@[i],
                ) && old(self)@[i].wf(),
                None => r is None && final(self)@ == old(self)@,
            },
    {
        take_first_fit(&mut self.nodes, size, align)
    }

    /// Tries to cut a block of `size` bytes aligned to `align` from
    /// `region`, and returns where the block starts.
    pub fn alloc_from_region(region: &ListNode, size: u64, align: u64) -> (r: Result<u64, ()>)
        requires
            is_power_of_two(align),
            region.start + region.size <= u64::MAX,
        ensures
            r.is_ok() == fit(*region, size, align).is_some(),
            r.is_ok() ==> r.unwrap() == fit(*region, size, align).unwrap(),
    {
        alloc_from_region(region, size, align)
    }

    /// The size and alignment with which a block of the given layout is
    /// cut, so that it can hold a header once it is free. The size of the
    /// layout, rounded up for a header, must fit a layout.
    pub fn size_align(layout: Layout) -> (r: (u64, u64))
        requires
            layout.wf(),
            layout.spec_size() <= 0x7fff_ffff_ffff_fff8,
        ensures
            r == spec_size_align(layout),
            is_power_of_two(r.1),
            r.1 >= LIST_NODE_ALIGN,
            r.0 >= LIST_NODE_SIZE,
            is_aligned_to(r.0, r.1) || r.0 == LIST_NODE_SIZE,
    {
        let align = if layout.align() < LIST_NODE_ALIGN {
            LIST_NODE_ALIGN
        } else {
            layout.align()
        };
        assert(is_power_of_two(8)) by (bit_vector);
        let padded = align_up(layout.size(), align);
        let size = if padded < LIST_NODE_SIZE {
            LIST_NODE_SIZE
        } else {
            padded
        };
        (size, align)
    }

    /// Cuts a block of the given layout from the heap and returns where it
    /// starts, or `None` if no free region fits. What is left of the region
    /// behind the block goes back to the head of the free list.
    pub fn alloc_block(&mut self, layout: Layout) -> (r: Option<u64>)
        requires
            old(self).wf(),
            layout.wf(),
            layout.spec_size() <= 0x7fff_ffff_ffff_fff8,
        ensures
            final(self).wf(),
            (final(self)@, r) == spec_alloc(old(self)@, layout),
            r is Some ==> is_aligned_to(r.unwrap(), layout.spec_align()),
    {
        let (size, align) = Self::size_align(layout);
        proof {
            lemma_first_fit(self@, size, align, 0);
        }
        match self.find_region(size, align) {
            Some((region, alloc_start)) => {
                proof {
                    lemma_ceil_to(region.start, align);
                    lemma_block_end_aligned(alloc_start, size, align);
                    lemma_aligned_to_smaller(alloc_start, align, layout.spec_align());
                }
                let alloc_end = alloc_start + size;
                let excess_size = region.end_addr() - alloc_end;
                if excess_size > 0 {
                    assert forall|i: int| 0 <= i < self@.len() implies (ListNode {
                        start: alloc_end,
                        size: excess_size,
                    }).disjoint(#[trigger] self@[i]) by {
                        assert(region.disjoint(self@[i]));
                    }
                    self.add_free_region(alloc_end, excess_size);
                }
                Some(alloc_start)
            },
            None => None,
        }
    }

    /// Gives the block of the given layout at `ptr` back to the heap, at
    /// the head of the free list. The block must have been cut with this
    /// layout and must overlap no free region.
    pub fn dealloc(&mut self, ptr: u64, layout: Layout)
        requires
            old(self).wf(),
            layout.wf(),
            layout.spec_size() <= 0x7fff_ffff_ffff_fff8,
            (ListNode { start: ptr, size: spec_size_align(layout).0 }).wf(),
            disjoint_from_list(old(self)@, ListNode { start: ptr, size: spec_size_align(layout).0 }),
        ensures
            final(self).wf(),
            final(self)@ == old(self)@.insert(
                0,
                ListNode { start: ptr, size: spec_size_align(layout).0 },
            ),
    {
        let (size, _) = Self::size_align(layout);
        self.add_free_region(ptr, size);
    }
}

/// What is aligned to a power of two is aligned to every smaller one.
pub proof fn lemma_aligned_to_smaller(value: u64, align: u64, smaller: u64)
    requires
        is_power_of_two(align),
        is_power_of_two(smaller),
        smaller <= align,
        is_aligned_to(value, align),
    ensures
        is_aligned_to(value, smaller),
{
    let mask = (align - 1) as u64;
    let low = (smaller - 1) as u64;
    assert(align != 0 && align & mask == 0 && mask == (align - 1) as u64 && smaller != 0 && smaller
        & low == 0 && low == (smaller - 1) as u64 && smaller <= align && value & mask == 0
        ==> value & low == 0) by (bit_vector);
}

} // verus!
