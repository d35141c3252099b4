//! IPv4 addresses as plain values: four octets and a port, with the
//! multicast-range predicate and the scenario's group derivation
//! (group index `i` stands for the address `239.0.0.i`).

use vstd::prelude::*;

verus! {

/// An IPv4 address held as its four dotted-decimal octets.
#[derive(Clone, Copy, Debug, PartialEq, Eq, Structural)]
pub struct Ipv4Address {
    pub octet0: u8,
    pub octet1: u8,
    pub octet2: u8,
    pub octet3: u8,
}

/// An IPv4 socket address: an address and a UDP port.
#[derive(Clone, Copy, Debug, PartialEq, Eq, Structural)]
pub struct SocketAddress {
    pub ip: Ipv4Address,
    pub port: u16,
}

impl Ipv4Address {
    /// An address is in the IPv4 multicast block when its first octet
    /// lies in 224..=239.
    pub open spec fn is_multicast(self) -> bool {
        224 <= self.octet0 <= 239
    }
}

/// The multicast group that a group index stands for: `239.0.0.index`.
pub open spec fn group_address_spec(index: u8) -> Ipv4Address {
    Ipv4Address { octet0: 239, octet1: 0, octet2: 0, octet3: index }
}

/// Derives the multicast group address for a group index.
pub fn group_address(index: u8) -> (r: Ipv4Address)
    ensures
        r == group_address_spec(index),
        r.is_multicast(),
{
    Ipv4Address { octet0: 239, octet1: 0, octet2: 0, octet3: index }
}

} // verus!
