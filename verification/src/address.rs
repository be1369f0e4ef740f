//! Candidate addresses and their families.

use vstd::prelude::*;

verus! {

/// A network endpoint, told apart by its address family.
#[derive(Clone, Copy, Debug, PartialEq, Eq, Structural)]
pub enum Address {
    /// A 32-bit address, as its bits in network order.
    V4(u32),
    /// A 128-bit address, as its bits in network order.
    V6(u128),
}

impl Address {
    /// The family as the interleaver tracks it: `true` for the 128-bit family.
    pub open spec fn family(self) -> bool {
        self is V6
    }

    /// Tells whether this address belongs to the 128-bit family.
    pub fn is_ipv6(&self) -> (b: bool)
        ensures
            b == self.family(),
    {
        match self {
            Address::V4(_) => false,
            Address::V6(_) => true,
        }
    }

    /// Tells whether this address belongs to the 32-bit family.
    pub fn is_ipv4(&self) -> (b: bool)
        ensures
            b == !self.family(),
    {
        match self {
            Address::V4(_) => true,
            Address::V6(_) => false,
        }
    }
}

} // verus!
