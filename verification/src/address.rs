//! The network address that a peer is announced with.

use vstd::prelude::*;

verus! {

/// An IP address, as its octets.
#[derive(Debug, Clone, Copy, PartialEq, Eq)]
pub enum IpOctets {
    V4([u8; 4]),
    V6([u8; 16]),
}

/// An address at which a peer can be reached.
#[allow(inconsistent_fields)]
#[derive(Debug, Clone, Copy, PartialEq, Eq)]
pub enum NetAddress {
    IPv4 { addr: [u8; 4], port: u16 },
    IPv6 { addr: [u8; 16], port: u16 },
}

impl NetAddress {
    /// The network address of a socket address: of the same family, with the same octets and
    /// the same port.
    pub fn from_socket(ip: IpOctets, port: u16) -> (address: NetAddress)
        ensures
            address == match ip {
                IpOctets::V4(addr) => NetAddress::IPv4 { addr, port },
                IpOctets::V6(addr) => NetAddress::IPv6 { addr, port },
            },
    {
        match ip {
            IpOctets::V4(addr) => NetAddress::IPv4 { addr, port },
            IpOctets::V6(addr) => NetAddress::IPv6 { addr, port },
        }
    }
}

/// The network address of a socket address tells that address: its family, all of its octets and
/// its port can be read off it, so different socket addresses have different network addresses.
pub proof fn law_address_tells_the_socket(ip: IpOctets, port: u16, address: NetAddress)
    requires
        call_ensures(NetAddress::from_socket, (ip, port), address),
    ensures
        ip is V4 <==> address is IPv4,
        match address {
            NetAddress::IPv4 { addr, port: announced } => ip == IpOctets::V4(addr) && port
                == announced,
            NetAddress::IPv6 { addr, port: announced } => ip == IpOctets::V6(addr) && port
                == announced,
        },
{
}

} // verus!
