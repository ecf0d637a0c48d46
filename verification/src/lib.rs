//! Early memory management of a small AArch64 kernel: a physical page
//! allocator, a two-stage kernel heap, and a four-level stage-1 page-table
//! engine, together with the steps that take the kernel from the boot
//! loader's translation tables to its own.
//!
//! Memory is modelled by owned values: free lists are sequences of regions,
//! translation tables are trees of owned table pages. Every address and size
//! is a 64-bit machine word. What touches the hardware is returned as a
//! value for the caller to perform: a write to a base register, a setting of
//! the translation control register.
//!
//! - [`mem`]: the memory manager and its memory map.
//! - [`mem::allocator`]: the physical page allocator, the boot and the main
//!   heap allocator, and the facade in front of them.
//! - [`mem::vm::paging`]: translation tables, and [`mem::vm::laws`]: what
//!   mapping guarantees.
//! - [`sync`], [`exception`], [`time`], [`driver`], [`util`]: the holders of
//!   shared state, the masking of interrupts, the conversions of the timer,
//!   and small helpers.

pub mod driver;
pub mod exception;
pub mod mem;
pub mod sync;
pub mod time;
pub mod util;
