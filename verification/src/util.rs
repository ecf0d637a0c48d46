//! General purpose helpers.

use vstd::prelude::*;

verus! {

/// Bytes in a KiB.
pub const KIB: u64 = 0x400;

/// Bytes in a MiB.
pub const MIB: u64 = 0x10_0000;

/// Bytes in a GiB.
pub const GIB: u64 = 0x4000_0000;

/// Bytes in a TiB.
pub const TIB: u64 = 0x100_0000_0000;

/// The unit in which a size is shown: the largest of which the size holds
/// at least one.
pub open spec fn spec_unit(size: u64) -> u64 {
    if size >= TIB {
        TIB
    } else if size >= GIB {
        GIB
    } else if size >= MIB {
        MIB
    } else if size >= KIB {
        KIB
    } else {
        1
    }
}

/// `size` divided by `unit`, rounded up.
pub open spec fn spec_div_ceil(size: u64, unit: u64) -> int {
    if size % unit == 0 {
        size as int / unit as int
    } else {
        size as int / unit as int + 1
    }
}

/// `size` divided by `unit`, rounded up.
pub fn div_ceil(size: u64, unit: u64) -> (r: u64)
    requires
        unit > 1,
    ensures
        r == spec_div_ceil(size, unit),
{
    let quotient = size / unit;
    if size % unit == 0 {
        quotient
    } else {
        assert(quotient < u64::MAX) by (nonlinear_arith)
            requires
                quotient == size / unit,
                unit > 1,
        ;
        quotient + 1
    }
}

/// A size as a number and a unit for people to read: the number of the
/// largest unit of which the size holds at least one, rounded up.
pub fn size_human_readable_ceil(size: u64) -> (r: (u64, &'static str))
    ensures
        r.0 == (if size >= KIB {
            spec_div_ceil(size, spec_unit(size))
        } else {
            size as int
        }),
        r.1@ == (if size >= TIB {
            "TiB"@
        } else if size >= GIB {
            "GiB"@
        } else if size >= MIB {
            "MiB"@
        } else if size >= KIB {
            "KiB"@
        } else {
            "Byte"@
        }),
{
    if (size / TIB) > 0 {
        (div_ceil(size, TIB), "TiB")
    } else if (size / GIB) > 0 {
        (div_ceil(size, GIB), "GiB")
    } else if (size / MIB) > 0 {
        (div_ceil(size, MIB), "MiB")
    } else if (size / KIB) > 0 {
        (div_ceil(size, KIB), "KiB")
    } else {
        (size, "Byte")
    }
}

} // verus!
