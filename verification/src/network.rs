//! Network addresses as plain values.

use vstd::prelude::*;

verus! {

/// An IP address as the number that its bits denote.
#[derive(Debug, Clone, Copy, PartialEq, Eq, Structural)]
pub enum IpAddress {
    V4(u32),
    V6(u128),
}

/// An IP address and a port.
#[derive(Debug, Clone, Copy, PartialEq, Eq, Structural)]
pub struct SocketAddress {
    pub ip: IpAddress,
    pub port: u16,
}

impl IpAddress {
    /// Whether the address denotes a group of receivers: 224.0.0.0/4 and ff00::/8.
    pub open spec fn multicast(self) -> bool {
        match self {
            IpAddress::V4(bits) => 0xe000_0000 <= bits < 0xf000_0000,
            IpAddress::V6(bits) => bits >= 0xff00_0000_0000_0000_0000_0000_0000_0000,
        }
    }

    /// Whether the address denotes the machine itself: 127.0.0.0/8 and ::1.
    pub open spec fn loopback(self) -> bool {
        match self {
            IpAddress::V4(bits) => 0x7f00_0000 <= bits < 0x8000_0000,
            IpAddress::V6(bits) => bits == 1,
        }
    }

    pub fn is_multicast(&self) -> (multicast: bool)
        ensures
            multicast == self.multicast(),
    {
        match *self {
            IpAddress::V4(bits) => 0xe000_0000 <= bits && bits < 0xf000_0000,
            IpAddress::V6(bits) => bits >= 0xff00_0000_0000_0000_0000_0000_0000_0000,
        }
    }

    pub fn is_loopback(&self) -> (loopback: bool)
        ensures
            loopback == self.loopback(),
    {
        match *self {
            IpAddress::V4(bits) => 0x7f00_0000 <= bits && bits < 0x8000_0000,
            IpAddress::V6(bits) => bits == 1,
        }
    }
}

/// The groups are the IPv4 addresses whose first four bits are 1110 and the IPv6
/// addresses whose first eight bits are set. The machine itself has the IPv4
/// addresses that begin with 127 and the IPv6 address 1. No address is both.
pub proof fn lemma_kinds_of_addresses(v4: u32, v6: u128)
    ensures
        IpAddress::V4(v4).multicast() <==> v4 / 0x1000_0000 == 14,
        IpAddress::V4(v4).loopback() <==> v4 / 0x100_0000 == 127,
        IpAddress::V6(v6).multicast() <==> v6 / 0x100_0000_0000_0000_0000_0000_0000_0000 == 255,
        IpAddress::V6(v6).loopback() <==> v6 == 1,
        !(IpAddress::V4(v4).multicast() && IpAddress::V4(v4).loopback()),
        !(IpAddress::V6(v6).multicast() && IpAddress::V6(v6).loopback()),
{
}

} // verus!
