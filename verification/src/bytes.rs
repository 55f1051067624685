//! Byte totals and the unit ladder used when pretty-printing them.
//!
//! Picking the display unit is integer logic and is verified here.  The final
//! division of the total by the unit produces a fraction, so the rendering of
//! the scaled number is left to the (unverified) presentation layer.

use vstd::prelude::*;

verus! {

/// One decimal kilobyte.
pub const KB: u64 = 1000;

/// One binary kilobyte.
pub const KIB: u64 = 1024;

/// One decimal megabyte.
pub const MB: u64 = 1000000;

/// One binary megabyte.
pub const MIB: u64 = 1024 * 1024;

/// One decimal gigabyte.
pub const GB: u64 = 1000000000;

/// One binary gigabyte.
pub const GIB: u64 = 1024 * 1024 * 1024;

/// One decimal terabyte.
pub const TB: u64 = 1000000000000;

/// One binary terabyte.
pub const TIB: u64 = 1024 * 1024 * 1024 * 1024;

/// Holds exactly when `n` is one of the eight named units.
pub open spec fn spec_is_unit(n: u64) -> bool {
    n == KB || n == KIB || n == MB || n == MIB || n == GB || n == GIB || n == TB || n == TIB
}

/// The display suffix for a unit value.
pub fn unit_str(n: u64) -> (r: &'static str)
    requires
        spec_is_unit(n),
    ensures
        n == KB ==> r@ == "KB"@,
        n == KIB ==> r@ == "KiB"@,
        n == MB ==> r@ == "MB"@,
        n == MIB ==> r@ == "MiB"@,
        n == GB ==> r@ == "GB"@,
        n == GIB ==> r@ == "GiB"@,
        n == TB ==> r@ == "TB"@,
        n == TIB ==> r@ == "TiB"@,
{
    if n == KB {
        "KB"
    } else if n == KIB {
        "KiB"
    } else if n == MB {
        "MB"
    } else if n == MIB {
        "MiB"
    } else if n == GB {
        "GB"
    } else if n == GIB {
        "GiB"
    } else if n == TB {
        "TB"
    } else {
        "TiB"
    }
}

/// The largest unit of the chosen ladder that is no larger than `n`, or
/// `None` when `n` is below the smallest unit and is displayed as a plain
/// byte count.
pub open spec fn spec_unit_of(n: u64, decimal: bool) -> Option<u64> {
    if decimal {
        if n >= TB {
            Some(TB)
        } else if n >= GB {
            Some(GB)
        } else if n >= MB {
            Some(MB)
        } else if n >= KB {
            Some(KB)
        } else {
            None
        }
    } else {
        if n >= TIB {
            Some(TIB)
        } else if n >= GIB {
            Some(GIB)
        } else if n >= MIB {
            Some(MIB)
        } else if n >= KIB {
            Some(KIB)
        } else {
            None
        }
    }
}

/// A total byte count.
#[derive(Copy, Clone, Debug, PartialEq, Eq, Structural, Hash)]
pub struct Bytes(pub u64);

impl Bytes {
    /// Picks the unit a pretty-printer should scale this count by: the
    /// largest unit of the decimal or binary ladder that fits.  `None`
    /// means the count is shown as plain bytes.
    pub fn unit(&self, decimal: bool) -> (r: Option<u64>)
        ensures
            r == spec_unit_of(self.0, decimal),
            r matches Some(u) ==> spec_is_unit(u) && u <= self.0,
            r is None <==> self.0 < (if decimal {
                KB
            } else {
                KIB
            }),
    {
        let n = self.0;
        if decimal {
            if n >= TB {
                Some(TB)
            } else if n >= GB {
                Some(GB)
            } else if n >= MB {
                Some(MB)
            } else if n >= KB {
                Some(KB)
            } else {
                None
            }
        } else {
            if n >= TIB {
                Some(TIB)
            } else if n >= GIB {
                Some(GIB)
            } else if n >= MIB {
                Some(MIB)
            } else if n >= KIB {
                Some(KIB)
            } else {
                None
            }
        }
    }
}

} // verus!
