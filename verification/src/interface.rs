//! The abstract network layer a node runs against: connecting, banning,
//! sending and the packet dispatch hook. The transport itself (sockets,
//! framing on the wire, encryption) lives outside the library; an
//! implementation hands packets in and takes packets out as plain bytes.

use vstd::prelude::*;
use crate::addr::Addr;
use crate::peer::Peer;
use crate::protocol::NetworkErr;

verus! {

/// Generic network layer interface.
pub trait NetworkInterface {
    /// Attempts to connect to the peer with the given address.
    fn connect(&mut self, address: &Addr) -> Result<(), NetworkErr>;

    /// Returns true if the network has the given address in its peer list.
    fn is_connected_to(&self, address: &Addr) -> bool;

    /// Disconnects from the peer with the given node id.
    fn disconnect(&mut self, peer: &Vec<u8>) -> Result<(), NetworkErr>;

    /// Disconnects from the peer with the given address.
    fn disconnect_from_ip(&mut self, ip: &Addr) -> Result<(), NetworkErr>;

    /// Sends a packet to a specific peer.
    fn send_to_peer(&mut self, peer: &Addr, packet: &Vec<u8>) -> Result<(), NetworkErr>;

    /// Sends a packet to all peers.
    fn send_to_all(&mut self, packet: &Vec<u8>) -> Result<(), NetworkErr>;

    /// Callback that processes each packet received from any peer.
    fn process_packet(&mut self, peer: &Addr, packet: &Vec<u8>) -> Result<(), NetworkErr>;

    /// Bans the peer with the given node id.
    fn ban_peer(&mut self, peer: &Vec<u8>) -> Result<(), NetworkErr>;

    /// Bans any further connections from the given address.
    fn ban_ip(&mut self, peer: &Addr) -> Result<(), NetworkErr>;

    /// The number of listed peers.
    fn peer_count(&self) -> usize;

    /// The peer entry at the given position of the peer list.
    fn fetch_peer(&self, index: usize) -> Option<Peer>;

    /// Our own node id.
    fn our_node_id(&self) -> Vec<u8>;
}

} // verus!
