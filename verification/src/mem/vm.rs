//! Virtual memory: translation tables and the errors of mapping into them.

use vstd::prelude::*;

use crate::mem::vm::paging::{VirtualAddress, VirtualMemoryRegion};

pub mod laws;
pub mod paging;

verus! {

/// Why a range could not be mapped into a translation table.
#[derive(Clone, Copy, Debug, PartialEq, Eq, Structural)]
pub enum MapError {
    /// The address lies outside the half of the address space that the table
    /// serves.
    AddressRange(VirtualAddress),
    /// The end of the region lies before its start.
    RegionBackwards(VirtualMemoryRegion),
    /// The pool of table pages ran dry while the range was being mapped.
    OutOfTables,
}

} // verus!
