//! A 64-bit code address with wrapping arithmetic and numerical ordering.

use vstd::prelude::*;

verus! {

/// A semantic 64-bit address.  Addition and subtraction wrap modulo 2^64,
/// so both are total; ordering and equality are numerical.
#[derive(Clone, Copy, Debug, PartialEq, Eq, PartialOrd, Ord, Hash, Structural)]
pub struct Addr(pub u64);

impl Addr {
    /// Wrapping addition of two addresses.
    pub fn add(self, other: Addr) -> (r: Addr)
        ensures
            r.0 == (self.0 + other.0) % 0x1_0000_0000_0000_0000,
    {
        Addr(self.0.wrapping_add(other.0))
    }

    /// Wrapping subtraction of two addresses.
    pub fn sub(self, other: Addr) -> (r: Addr)
        ensures
            other.0 <= self.0 ==> r.0 == self.0 - other.0,
            other.0 > self.0 ==> r.0 == self.0 - other.0 + 0x1_0000_0000_0000_0000,
    {
        Addr(self.0.wrapping_sub(other.0))
    }
}

} // verus!
