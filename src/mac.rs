//! Hardware (MAC) addresses.

use vstd::prelude::*;

verus! {

/// A six-byte Ethernet hardware address.
#[derive(Clone, Copy, Debug, PartialEq, Eq, Structural, Hash)]
pub struct MacAddr(pub u8, pub u8, pub u8, pub u8, pub u8, pub u8);

impl MacAddr {
    /// The six bytes of the address, most significant first.
    pub open spec fn octets(self) -> Seq<u8> {
        seq![self.0, self.1, self.2, self.3, self.4, self.5]
    }

    pub fn new(a: u8, b: u8, c: u8, d: u8, e: u8, f: u8) -> (r: MacAddr)
        ensures
            r == MacAddr(a, b, c, d, e, f),
    {
        MacAddr(a, b, c, d, e, f)
    }
}

} // verus!
