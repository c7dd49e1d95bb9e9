use vstd::prelude::*;

verus! {

/// A resolved scan target: a single IP address, IPv4 or IPv6, held as its
/// numeric value (the big-endian integer formed by the address bytes).
#[derive(Clone, Copy, Debug, PartialEq, Eq, Structural)]
pub enum IpAddress {
    V4(u32),
    V6(u128),
}

impl IpAddress {
    /// Sort rank of the address family: IPv4 sorts before IPv6.
    pub open spec fn family_rank(self) -> int {
        match self {
            IpAddress::V4(_) => 0,
            IpAddress::V6(_) => 1,
        }
    }

    /// The numeric value of the address within its family.
    pub open spec fn numeric_value(self) -> int {
        match self {
            IpAddress::V4(v) => v as int,
            IpAddress::V6(v) => v as int,
        }
    }

    /// Total order on addresses: by family first, then numerically.
    pub open spec fn spec_le(self, other: IpAddress) -> bool {
        ||| self.family_rank() < other.family_rank()
        ||| (self.family_rank() == other.family_rank()
            && self.numeric_value() <= other.numeric_value())
    }

    pub fn is_v4(&self) -> (r: bool)
        ensures
            r == (self is V4),
    {
        matches!(self, IpAddress::V4(_))
    }

    pub fn le(&self, other: &IpAddress) -> (r: bool)
        ensures
            r == self.spec_le(*other),
    {
        match (self, other) {
            (IpAddress::V4(a), IpAddress::V4(b)) => a <= b,
            (IpAddress::V4(_), IpAddress::V6(_)) => true,
            (IpAddress::V6(_), IpAddress::V4(_)) => false,
            (IpAddress::V6(a), IpAddress::V6(b)) => a <= b,
        }
    }
}

} // verus!
