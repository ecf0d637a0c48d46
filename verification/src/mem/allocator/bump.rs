//! The bump allocator that serves the heap before the real heap exists.

use vstd::prelude::*;

use crate::mem::allocator::{align_up, ceil_to, is_aligned_to, Layout};
use crate::mem::vm::paging::VirtualAddress;

verus! {

/// What the bump allocator holds: its range, its watermark and the number
/// of blocks that are handed out.
pub struct BumpState {
    pub start: u64,
    pub end: u64,
    pub next: u64,
    pub allocations: u64,
}

/// Where a block of `size` bytes aligned to `align` starts if it is cut at
/// the watermark: at the watermark rounded up to `align`, provided that the
/// block ends before the end of the range and that the count of blocks can
/// grow.
pub open spec fn spec_bump(state: BumpState, size: u64, align: u64) -> Option<u64> {
    if state.next + align - 1 > u64::MAX {
        None
    } else {
        let start = ceil_to(state.next, align);
        if start + size >= state.end || state.allocations == u64::MAX {
            None
        } else {
            Some(start)
        }
    }
}

/// A linear allocator over one range of virtual addresses.
pub struct BumpAllocator {
    start: VirtualAddress,
    end: VirtualAddress,
    next: VirtualAddress,
    allocations: u64,
}

impl BumpAllocator {
    /// What the allocator holds.
    pub closed spec fn view(&self) -> BumpState {
        BumpState {
            start: self.start.0,
            end: self.end.0,
            next: self.next.0,
            allocations: self.allocations,
        }
    }

    /// The watermark lies at or after the start of the range.
    pub open spec fn wf(&self) -> bool {
        self@.start <= self@.next
    }

    /// Whether the allocator has been given its range.
    pub open spec fn spec_initialised(&self) -> bool {
        self@.start != 0
    }

    /// An allocator without a range.
    pub fn new() -> (r: Self)
        ensures
            r@ == (BumpState { start: 0, end: 0, next: 0, allocations: 0 }),
            r.wf(),
    {
        Self {
            start: VirtualAddress(0),
            end: VirtualAddress(0),
            next: VirtualAddress(0),
            allocations: 0,
        }
    }

    /// Whether the allocator has been given its range.
    pub fn is_initialised(&self) -> (r: bool)
        ensures
            r == self.spec_initialised(),
    {
        self.start.0 != 0
    }

    /// The number of blocks that are handed out.
    pub fn allocations(&self) -> (r: u64)
        ensures
            r == self@.allocations,
    {
        self.allocations
    }

    /// Gives the allocator its range `[start, end)`. It must not have one
    /// yet.
    pub fn init(&mut self, start: VirtualAddress, end: VirtualAddress)
        requires
            !old(self).spec_initialised(),
        ensures
            final(self)@ == (BumpState {
                start: start.0,
                end: end.0,
                next: start.0,
                allocations: old(self)@.allocations,
            }),
            final(self).wf(),
    {
        self.start = start;
        self.end = end;
        self.next = start;
    }

    /// The bytes between the start of the range and the watermark.
    pub fn get_size(&self) -> (r: u64)
        requires
            self.wf(),
        ensures
            r == self@.next - self@.start,
    {
        self.next.0 - self.start.0
    }

    /// The bytes between the start of the range and the watermark.
    pub fn used(&self) -> (r: u64)
        requires
            self.wf(),
        ensures
            r == self@.next - self@.start,
    {
        self.get_size()
    }

    /// Cuts a block of the given layout at the watermark, rounded up to the
    /// alignment of the layout, and returns where it starts; `None` when
    /// the range is exhausted.
    pub fn alloc_block(&mut self, layout: Layout) -> (r: Option<u64>)
        requires
            old(self).spec_initialised(),
            old(self).wf(),
            layout.wf(),
        ensures
            final(self).wf(),
            r == spec_bump(old(self)@, layout.spec_size(), layout.spec_align()),
            r is None ==> final(self)@ == old(self)@,
            r is Some ==> final(self)@ == (BumpState {
                next: (r.unwrap() + layout.spec_size()) as u64,
                allocations: (old(self)@.allocations + 1) as u64,
                ..old(self)@
            }) && is_aligned_to(r.unwrap(), layout.spec_align()) && r.unwrap() >= old(self)@.next,
    {
        if self.next.0 > u64::MAX - (layout.align() - 1) {
            return None;
        }
        let alloc_start = align_up(self.next.0, layout.align());
        let alloc_end = match alloc_start.checked_add(layout.size()) {
            Some(end) => end,
            None => {
                return None;
            },
        };
        if alloc_end >= self.end.0 || self.allocations == u64::MAX {
            None
        } else {
            self.next = VirtualAddress(alloc_end);
            self.allocations = self.allocations + 1;
            Some(alloc_start)
        }
    }

    /// Takes back one block: the count of blocks goes down by one, and when
    /// it reaches zero the watermark goes back to the start of the range.
    /// At least one block must be handed out.
    pub fn dealloc(&mut self)
        requires
            old(self).spec_initialised(),
            old(self).wf(),
            old(self)@.allocations > 0,
        ensures
            final(self).wf(),
            final(self)@ == (BumpState {
                allocations: (old(self)@.allocations - 1) as u64,
                next: if old(self)@.allocations == 1 {
                    old(self)@.start
                } else {
                    old(self)@.next
                },
                ..old(self)@
            }),
    {
        self.allocations = self.allocations - 1;
        if self.allocations == 0 {
            self.next = self.start;
        }
    }
}

} // verus!
