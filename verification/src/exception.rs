//! Masking of interrupts on the local core, as transformations of the
//! interrupt mask register. Reading and writing the register is the
//! caller's part.
//!
//! A critical section saves the register, masks IRQs, runs, and restores
//! what it saved.

use vstd::prelude::*;

verus! {

/// The bit of the interrupt mask register that masks IRQs.
pub const DAIF_IRQ: u64 = 0x80;

/// Whether IRQs are masked when the register holds `daif`.
pub fn is_local_irq_masked(daif: u64) -> (r: bool)
    ensures
        r == (daif & DAIF_IRQ != 0),
{
    daif & DAIF_IRQ != 0
}

/// The register with IRQs masked.
pub fn local_irq_mask(daif: u64) -> (r: u64)
    ensures
        r == daif | DAIF_IRQ,
        r & DAIF_IRQ != 0,
{
    assert((daif | 0x80) & 0x80 != 0) by (bit_vector);
    daif | DAIF_IRQ
}

/// The register with IRQs unmasked.
pub fn local_irq_unmask(daif: u64) -> (r: u64)
    ensures
        r == daif & !DAIF_IRQ,
        r & DAIF_IRQ == 0,
{
    assert((daif & !0x80u64) & 0x80 == 0) by (bit_vector);
    daif & !DAIF_IRQ
}

/// Enters a critical section: returns the register as it was, to be
/// restored at the end, and the register with IRQs masked, to be written
/// now.
pub fn local_irq_mask_save(daif: u64) -> (r: (u64, u64))
    ensures
        r.0 == daif,
        r.1 == daif | DAIF_IRQ,
        r.1 & DAIF_IRQ != 0,
{
    (daif, local_irq_mask(daif))
}

/// Leaves a critical section: the register to be written is what was saved
/// on entry.
pub fn local_irq_restore(flags: u64) -> (r: u64)
    ensures
        r == flags,
{
    flags
}

} // verus!
