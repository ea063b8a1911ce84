//! Client addresses.

use vstd::prelude::*;

verus! {

/// An IP address by its numeric value.
#[derive(Debug, Clone, Copy, PartialEq, Eq, Hash, Structural)]
pub enum IpAddress {
    V4(u32),
    V6(u128),
}

impl IpAddress {
    /// Whether the address lies in `127.0.0.0/8` or is `::1`.
    pub open spec fn spec_is_loopback(self) -> bool {
        match self {
            IpAddress::V4(bits) => 0x7f00_0000 <= bits <= 0x7fff_ffff,
            IpAddress::V6(bits) => bits == 1,
        }
    }

    /// Whether the address is the wildcard `0.0.0.0` or `::`.
    pub open spec fn spec_is_unspecified(self) -> bool {
        match self {
            IpAddress::V4(bits) => bits == 0,
            IpAddress::V6(bits) => bits == 0,
        }
    }

    /// Whether the address lies in `127.0.0.0/8` or is `::1`.
    pub fn is_loopback(&self) -> (result: bool)
        ensures
            result == self.spec_is_loopback(),
    {
        match *self {
            IpAddress::V4(bits) => 0x7f00_0000 <= bits && bits <= 0x7fff_ffff,
            IpAddress::V6(bits) => bits == 1,
        }
    }

    /// Whether the address is the wildcard `0.0.0.0` or `::`.
    pub fn is_unspecified(&self) -> (result: bool)
        ensures
            result == self.spec_is_unspecified(),
    {
        match *self {
            IpAddress::V4(bits) => bits == 0,
            IpAddress::V6(bits) => bits == 0,
        }
    }
}

/// An address and a port to listen on.
#[derive(Debug, Clone, Copy, PartialEq, Eq, Structural)]
pub struct SocketAddress {
    pub ip: IpAddress,
    pub port: u16,
}

/// A local address is one of `127.0.0.0/8`, whose first byte is 127, or `::1`, and every
/// such address is local.
pub proof fn law_local_addresses(ip: IpAddress, local: bool)
    requires
        call_ensures(IpAddress::is_loopback, (&ip,), local),
    ensures
        ip matches IpAddress::V4(bits) ==> (local <==> bits / 0x100_0000 == 127),
        ip matches IpAddress::V6(bits) ==> (local <==> bits == 1),
{
}

/// The address of all interfaces is zero.
pub proof fn law_unspecified_addresses(ip: IpAddress, any: bool)
    requires
        call_ensures(IpAddress::is_unspecified, (&ip,), any),
    ensures
        any <==> ip == IpAddress::V4(0) || ip == IpAddress::V6(0),
{
}

} // verus!
