//! The physical page allocator: a free list of physical memory whose
//! regions are named by their addresses in the direct map.

use vstd::prelude::*;

use crate::mem::allocator::linked_list::{
    alloc_from_region, first_fit, fit, free_bytes, lemma_first_fit, lemma_free_bytes_insert,
    lemma_free_bytes_remove, lemma_insert_wf, list_wf, take_first_fit, with_remainder,
    disjoint_from_list, ListNode, LIST_NODE_SIZE,
};
use crate::mem::allocator::{is_aligned_to, lemma_ceil_to, Layout};
use crate::mem::allocator::linked_list::LinkedListAllocator;
use crate::mem::vm::paging::{PhysicalAddress, VirtualAddress, PAGE_SIZE};

verus! {

/// Every node of the list starts on a page boundary.
pub open spec fn page_aligned_list(nodes: Seq<ListNode>) -> bool {
    forall|i: int| 0 <= i < nodes.len() ==> is_aligned_to((#[trigger] nodes[i]).start, PAGE_SIZE)
}

/// What allocating `size` bytes leaves of a free list of pages, and where
/// the allocation starts in the direct map: the first node that holds a
/// page-aligned block of that size is carved, and what is left of it behind
/// the block is put at the head of the list.
pub open spec fn spec_allocate_pages(nodes: Seq<ListNode>, size: u64) -> (
    Seq<ListNode>,
    Option<u64>,
) {
    match first_fit(nodes, size, PAGE_SIZE, 0) {
        Some(i) => {
            let start = fit(nodes[i], size, PAGE_SIZE).unwrap();
            (with_remainder(nodes.remove(i), nodes[i], start, size), Some(start))
        },
        None => (nodes, None),
    }
}

/// Sums of page-aligned values are page aligned, and so are their
/// differences.
pub proof fn lemma_page_aligned_sum(a: u64, b: u64)
    requires
        is_aligned_to(a, PAGE_SIZE),
        is_aligned_to(b, PAGE_SIZE),
    ensures
        a + b <= u64::MAX ==> is_aligned_to((a + b) as u64, PAGE_SIZE),
        b <= a ==> is_aligned_to((a - b) as u64, PAGE_SIZE),
{
    let sum = (a + b) as u64;
    let difference = (a - b) as u64;
    assert(a & 0xfff == 0 && b & 0xfff == 0 && sum == a + b && sum >= a ==> sum & 0xfff == 0)
        by (bit_vector);
    assert(a & 0xfff == 0 && b & 0xfff == 0 && difference == a - b && b <= a ==> difference
        & 0xfff == 0) by (bit_vector);
}

/// What starts on a page boundary is aligned for a header.
pub proof fn lemma_page_aligned_holds_header(a: u64)
    requires
        is_aligned_to(a, PAGE_SIZE),
    ensures
        is_aligned_to(a, 8),
{
    assert(a & 0xfff == 0 ==> a & 7 == 0) by (bit_vector);
}

/// In a page-aligned list, a block of whole pages is carved from the very
/// start of the node that it fits in, so the free bytes shrink by exactly
/// the size of the block, and the list stays page aligned.
pub proof fn lemma_allocate_pages(nodes: Seq<ListNode>, size: u64)
    requires
        list_wf(nodes),
        page_aligned_list(nodes),
        is_aligned_to(size, PAGE_SIZE),
    ensures
        page_aligned_list(spec_allocate_pages(nodes, size).0),
        list_wf(spec_allocate_pages(nodes, size).0),
        match first_fit(nodes, size, PAGE_SIZE, 0) {
            Some(i) => spec_allocate_pages(nodes, size).1 == Some(nodes[i].start) && free_bytes(
                spec_allocate_pages(nodes, size).0,
            ) + size == free_bytes(nodes),
            None => spec_allocate_pages(nodes, size) == (nodes, None::<u64>),
        },
{
    lemma_first_fit(nodes, size, PAGE_SIZE, 0);
    match first_fit(nodes, size, PAGE_SIZE, 0) {
        Some(i) => {
            let node = nodes[i];
            let rest = nodes.remove(i);
            crate::mem::allocator::lemma_page_size_is_power_of_two();
            lemma_ceil_to(node.start, PAGE_SIZE);
            let start = fit(node, size, PAGE_SIZE).unwrap();
            assert(start == node.start);
            crate::mem::allocator::linked_list::lemma_remove_wf(nodes, i);
            lemma_free_bytes_remove(nodes, i);
            assert forall|j: int| 0 <= j < rest.len() implies is_aligned_to(
                (#[trigger] rest[j]).start,
                PAGE_SIZE,
            ) by {
                if j < i {
                    assert(rest[j] == nodes[j]);
                } else {
                    assert(rest[j] == nodes[j + 1]);
                }
            }
            let excess = node.spec_end() - (start + size);
            if excess > 0 {
                let remainder = ListNode { start: (start + size) as u64, size: excess as u64 };
                lemma_page_aligned_sum(start, size);
                lemma_page_aligned_holds_header(remainder.start);
                assert forall|j: int| 0 <= j < rest.len() implies remainder.disjoint(
                    #[trigger] rest[j],
                ) by {
                    assert(node.disjoint(rest[j]));
                }
                lemma_insert_wf(rest, remainder);
                lemma_free_bytes_insert(rest, remainder);
                let grown = rest.insert(0, remainder);
                assert forall|j: int| 0 <= j < grown.len() implies is_aligned_to(
                    (#[trigger] grown[j]).start,
                    PAGE_SIZE,
                ) by {
                    if j > 0 {
                        assert(grown[j] == rest[j - 1]);
                    }
                }
            }
        },
        None => {},
    }
}

/// The allocator of physical pages. Its free regions are named by their
/// virtual addresses in the direct map: physical address plus the
/// direct-map offset.
pub struct PhysicalPageAllocator {
    direct_map_offset: u64,
    nodes: Vec<ListNode>,
}

impl PhysicalPageAllocator {
    /// The free list, head first, in direct-map addresses.
    pub closed spec fn view(&self) -> Seq<ListNode> {
        self.nodes@
    }

    /// The offset of the direct map.
    pub closed spec fn spec_direct_map_offset(&self) -> u64 {
        self.direct_map_offset
    }

    /// The free bytes of the allocator.
    pub open spec fn spec_free_bytes(&self) -> nat {
        free_bytes(self@)
    }

    /// The free list is well formed, and each of its regions starts on a
    /// page boundary of the direct map.
    pub open spec fn wf(&self) -> bool {
        &&& list_wf(self@)
        &&& page_aligned_list(self@)
        &&& is_aligned_to(self.spec_direct_map_offset(), PAGE_SIZE)
        &&& forall|i: int|
            0 <= i < self@.len() ==> (#[trigger] self@[i]).start >= self.spec_direct_map_offset()
    }

    /// An allocator without memory, for the direct map at the page-aligned
    /// offset `direct_map_offset`.
    pub fn new(direct_map_offset: u64) -> (r: Self)
        requires
            is_aligned_to(direct_map_offset, PAGE_SIZE),
        ensures
            r.wf(),
            r@ == Seq::<ListNode>::empty(),
            r.spec_direct_map_offset() == direct_map_offset,
    {
        Self { direct_map_offset, nodes: Vec::new() }
    }

    /// The offset of the direct map.
    pub fn direct_map_offset(&self) -> (r: u64)
        ensures
            r == self.spec_direct_map_offset(),
    {
        self.direct_map_offset
    }

    /// The node that describes the physical region of `size` bytes at
    /// `start`.
    pub open spec fn region_node(&self, start: PhysicalAddress, size: u64) -> ListNode {
        ListNode { start: (start.0 + self.spec_direct_map_offset()) as u64, size }
    }

    /// Whether the physical region of `heap_size` bytes at `heap_start`
    /// could be added: it starts on a page boundary, can hold a header,
    /// lies within the direct map, and overlaps no free region.
    pub open spec fn spec_can_add(&self, heap_start: PhysicalAddress, heap_size: u64) -> bool {
        &&& is_aligned_to(heap_start.0, PAGE_SIZE)
        &&& heap_size >= LIST_NODE_SIZE
        &&& heap_start.0 + self.spec_direct_map_offset() + heap_size <= u64::MAX
        &&& disjoint_from_list(self@, self.region_node(heap_start, heap_size))
    }

    /// Whether the physical region of `heap_size` bytes at `heap_start`
    /// could be added.
    pub fn can_add(&self, heap_start: PhysicalAddress, heap_size: u64) -> (r: bool)
        requires
            self.wf(),
        ensures
            r == self.spec_can_add(heap_start, heap_size),
    {
        if heap_start.0 & (PAGE_SIZE - 1) != 0 || heap_size < LIST_NODE_SIZE {
            return false;
        }
        if heap_start.0 > u64::MAX - self.direct_map_offset {
            return false;
        }
        let start = heap_start.0 + self.direct_map_offset;
        if heap_size > u64::MAX - start {
            return false;
        }
        crate::mem::allocator::linked_list::region_is_free(&self.nodes, start, heap_size)
    }

    /// Adds the physical region of `heap_size` bytes at `heap_start` to the
    /// allocator, at the head of the free list.
    pub fn add_heap_region(&mut self, heap_start: PhysicalAddress, heap_size: u64)
        requires
            old(self).wf(),
            old(self).spec_can_add(heap_start, heap_size),
        ensures
            final(self).wf(),
            final(self).spec_direct_map_offset() == old(self).spec_direct_map_offset(),
            final(self)@ == old(self)@.insert(0, old(self).region_node(heap_start, heap_size)),
            final(self).spec_free_bytes() == old(self).spec_free_bytes() + heap_size,
    {
        proof {
            lemma_page_aligned_sum(heap_start.0, self.direct_map_offset);
        }
        self.add_free_region(VirtualAddress(heap_start.0 + self.direct_map_offset), heap_size);
    }

    /// Puts the region of `size` bytes at the direct-map address `addr` at
    /// the head of the free list.
    pub fn add_free_region(&mut self, addr: VirtualAddress, size: u64)
        requires
            old(self).wf(),
            is_aligned_to(addr.0, PAGE_SIZE),
            addr.0 >= old(self).spec_direct_map_offset(),
            size >= LIST_NODE_SIZE,
            addr.0 + size <= u64::MAX,
            disjoint_from_list(old(self)@, ListNode { start: addr.0, size }),
        ensures
            final(self).wf(),
            final(self).spec_direct_map_offset() == old(self).spec_direct_map_offset(),
            final(self)@ == old(self)@.insert(0, ListNode { start: addr.0, size }),
            final(self).spec_free_bytes() == old(self).spec_free_bytes() + size,
    {
        let node = ListNode::new(addr.0, size);
        proof {
            lemma_page_aligned_holds_header(addr.0);
            lemma_insert_wf(self@, node);
            lemma_free_bytes_insert(self@, node);
            let grown = self@.insert(0, node);
            assert forall|j: int| 0 <= j < grown.len() implies is_aligned_to(
                (#[trigger] grown[j]).start,
                PAGE_SIZE,
            ) && grown[j].start >= self.spec_direct_map_offset() by {
                if j > 0 {
                    assert(grown[j] == self@[j - 1]);
                }
            }
        }
        self.nodes.insert(0, node);
    }

    /// Allocates `size` bytes, a whole number of pages, from the first free
    /// region that holds them, and returns the physical address where they
    /// start. What is left of the region stays free.
    pub fn allocate(&mut self, size: u64) -> (r: Option<PhysicalAddress>)
        requires
            old(self).wf(),
            is_aligned_to(size, PAGE_SIZE),
        ensures
            final(self).wf(),
            final(self).spec_direct_map_offset() == old(self).spec_direct_map_offset(),
            final(self)@ == spec_allocate_pages(old(self)@, size).0,
            r.is_some() == spec_allocate_pages(old(self)@, size).1.is_some(),
            r.is_some() ==> r.unwrap().0 == spec_allocate_pages(old(self)@, size).1.unwrap()
                - old(self).spec_direct_map_offset() && is_aligned_to(r.unwrap().0, PAGE_SIZE)
                && final(self).spec_free_bytes() + size == old(self).spec_free_bytes(),
            r.is_none() ==> final(self)@ == old(self)@,
    {
        proof {
            lemma_allocate_pages(self@, size);
            lemma_first_fit(self@, size, PAGE_SIZE, 0);
        }
        match self.find_region(size) {
            Some(alloc_start) => {
                proof {
                    lemma_page_aligned_sum(alloc_start.0, self.direct_map_offset);
                }
                Some(self.direct_map_virt_to_phys(alloc_start))
            },
            None => None,
        }
    }

    /// Carves `size` bytes from the first free region that holds them and
    /// returns the direct-map address where they start.
    pub fn find_region(&mut self, size: u64) -> (r: Option<VirtualAddress>)
        requires
            old(self).wf(),
            is_aligned_to(size, PAGE_SIZE),
        ensures
            final(self).wf(),
            final(self).spec_direct_map_offset() == old(self).spec_direct_map_offset(),
            final(self)@ == spec_allocate_pages(old(self)@, size).0,
            r.is_some() == spec_allocate_pages(old(self)@, size).1.is_some(),
            r.is_some() ==> r.unwrap().0 == spec_allocate_pages(old(self)@, size).1.unwrap()
                && r.unwrap().0 >= old(self).spec_direct_map_offset() && is_aligned_to(
                r.unwrap().0,
                PAGE_SIZE,
            ),
    {
        proof {
            crate::mem::allocator::lemma_page_size_is_power_of_two();
        }
        proof {
            lemma_allocate_pages(self@, size);
            lemma_first_fit(self@, size, PAGE_SIZE, 0);
        }
        let ghost before = self@;
        match take_first_fit(&mut self.nodes, size, PAGE_SIZE) {
            Some((region, alloc_start)) => {
                let ghost i = first_fit(before, size, PAGE_SIZE, 0).unwrap();
                assert(before[i] == region);
                assert(alloc_start == region.start);
                let alloc_end = alloc_start + size;
                let excess_size = region.end_addr() - alloc_end;
                if excess_size > 0 {
                    self.nodes.insert(0, ListNode::new(alloc_end, excess_size));
                }
                assert(self@ == spec_allocate_pages(before, size).0);
                assert forall|j: int| 0 <= j < self@.len() implies (#[trigger] self@[j]).start
                    >= self.spec_direct_map_offset() by {
                    if excess_size > 0 {
                        if j > 0 {
                            assert(self@[j] == before.remove(i)[j - 1]);
                        }
                    }
                    if j >= 0 {
                        let k = if excess_size > 0 { j - 1 } else { j };
                        if k >= 0 {
                            assert(before.remove(i)[k] == before[if k < i { k } else { k + 1 }]);
                        }
                    }
                }
                Some(VirtualAddress(alloc_start))
            },
            None => None,
        }
    }

    /// Tries to carve `size` bytes, on a page boundary, from `region`, and
    /// returns where they start.
    pub fn alloc_from_region(region: &ListNode, size: u64) -> (r: Result<u64, ()>)
        requires
            region.start + region.size <= u64::MAX,
        ensures
            r.is_ok() == fit(*region, size, PAGE_SIZE).is_some(),
            r.is_ok() ==> r.unwrap() == fit(*region, size, PAGE_SIZE).unwrap(),
    {
        proof {
            crate::mem::allocator::lemma_page_size_is_power_of_two();
        }
        alloc_from_region(region, size, PAGE_SIZE)
    }

    /// The physical address that the direct map shows at `virt_addr`.
    pub fn direct_map_virt_to_phys(&self, virt_addr: VirtualAddress) -> (r: PhysicalAddress)
        requires
            virt_addr.0 >= self.spec_direct_map_offset(),
        ensures
            r.0 == virt_addr.0 - self.spec_direct_map_offset(),
    {
        PhysicalAddress(virt_addr.0 - self.direct_map_offset)
    }

    /// The size and alignment with which a block of the given layout is
    /// cut, so that it can hold a header once it is free.
    pub fn size_align(layout: Layout) -> (r: (u64, u64))
        requires
            layout.wf(),
            layout.spec_size() <= 0x7fff_ffff_ffff_fff8,
        ensures
            r == crate::mem::allocator::linked_list::spec_size_align(layout),
    {
        LinkedListAllocator::size_align(layout)
    }
}

/// A request to the physical page allocator.
pub enum PageRequest {
    /// Add the region of `size` bytes at the direct-map address `start`.
    Add { start: u64, size: u64 },
    /// Allocate `size` bytes.
    Allocate { size: u64 },
}

/// The books of the physical page allocator: its free list, the bytes that
/// were added to it, and the bytes that it has handed out.
pub struct PageLedger {
    pub free: Seq<ListNode>,
    pub added: nat,
    pub allocated: nat,
}

/// Whether the request may be made of an allocator with the given free
/// list: a region to add starts on a page boundary, can hold a header and
/// overlaps no free region; a size to allocate is a whole number of pages.
pub open spec fn request_valid(free: Seq<ListNode>, request: PageRequest) -> bool {
    match request {
        PageRequest::Add { start, size } => {
            &&& is_aligned_to(start, PAGE_SIZE)
            &&& size >= LIST_NODE_SIZE
            &&& start + size <= u64::MAX
            &&& disjoint_from_list(free, ListNode { start, size })
        },
        PageRequest::Allocate { size } => is_aligned_to(size, PAGE_SIZE),
    }
}

/// The books after the request has been served.
pub open spec fn spec_serve(ledger: PageLedger, request: PageRequest) -> PageLedger {
    match request {
        PageRequest::Add { start, size } => PageLedger {
            free: ledger.free.insert(0, ListNode { start, size }),
            added: ledger.added + size as nat,
            allocated: ledger.allocated,
        },
        PageRequest::Allocate { size } => {
            let carved = spec_allocate_pages(ledger.free, size);
            PageLedger {
                free: carved.0,
                added: ledger.added,
                allocated: if carved.1 is Some {
                    ledger.allocated + size as nat
                } else {
                    ledger.allocated
                },
            }
        },
    }
}

/// The books of a new allocator after the requests have been served in
/// order.
pub open spec fn spec_replay(requests: Seq<PageRequest>) -> PageLedger
    decreases requests.len(),
{
    if requests.len() == 0 {
        PageLedger { free: Seq::empty(), added: 0, allocated: 0 }
    } else {
        spec_serve(spec_replay(requests.drop_last()), requests.last())
    }
}

/// Whether each request may be made when its turn comes.
pub open spec fn requests_valid(requests: Seq<PageRequest>) -> bool
    decreases requests.len(),
{
    requests.len() == 0 || (requests_valid(requests.drop_last()) && request_valid(
        spec_replay(requests.drop_last()).free,
        requests.last(),
    ))
}

/// Conservation of pages: after any sequence of valid requests to a new
/// allocator, the free bytes and the allocated bytes together are the
/// bytes that were added. The free regions overlap nowhere, and each
/// starts on a page boundary.
pub proof fn lemma_pages_conserved(requests: Seq<PageRequest>)
    requires
        requests_valid(requests),
    ensures
        free_bytes(spec_replay(requests).free) + spec_replay(requests).allocated == spec_replay(
            requests,
        ).added,
        list_wf(spec_replay(requests).free),
        page_aligned_list(spec_replay(requests).free),
    decreases requests.len(),
{
    if requests.len() > 0 {
        let before = spec_replay(requests.drop_last());
        lemma_pages_conserved(requests.drop_last());
        match requests.last() {
            PageRequest::Add { start, size } => {
                let node = ListNode { start, size };
                lemma_page_aligned_holds_header(start);
                lemma_insert_wf(before.free, node);
                lemma_free_bytes_insert(before.free, node);
                let grown = before.free.insert(0, node);
                assert forall|j: int| 0 <= j < grown.len() implies is_aligned_to(
                    (#[trigger] grown[j]).start,
                    PAGE_SIZE,
                ) by {
                    if j > 0 {
                        assert(grown[j] == before.free[j - 1]);
                    }
                }
            },
            PageRequest::Allocate { size } => {
                lemma_allocate_pages(before.free, size);
            },
        }
    }
}

} // verus!
