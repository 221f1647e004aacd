//! Plain socket addresses: four IPv4 octets and a port. The wire transport
//! itself is an external collaborator; the library only carries addresses as
//! values.

use vstd::prelude::*;
use crate::rng::random_u8;

verus! {

/// The fixed listening port of every node.
pub const LISTEN_PORT: u16 = 44034;

/// An IPv4 socket address as plain values.
#[derive(Clone, Copy, PartialEq, Eq, Structural, Debug)]
pub struct Addr {
    pub ip0: u8,
    pub ip1: u8,
    pub ip2: u8,
    pub ip3: u8,
    pub port: u16,
}

impl Addr {
    /// The all-zero address used by blocks that carry no reachable listener.
    pub fn unspecified() -> (r: Addr)
        ensures
            r == (Addr { ip0: 0, ip1: 0, ip2: 0, ip3: 0, port: 0 }),
    {
        Addr { ip0: 0, ip1: 0, ip2: 0, ip3: 0, port: 0 }
    }
}

/// A random IPv4 address on the fixed listening port.
pub fn random_socket_addr() -> (r: Addr)
    ensures
        r.port == LISTEN_PORT,
{
    Addr {
        ip0: random_u8(),
        ip1: random_u8(),
        ip2: random_u8(),
        ip3: random_u8(),
        port: LISTEN_PORT,
    }
}

} // verus!
