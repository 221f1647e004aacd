//! Peers and the listener's admission control: per-peer scoring with
//! demerits and bans, and the accept/refuse decisions the connection
//! listener takes as peers come and go.

use vstd::prelude::*;
use crate::addr::Addr;

verus! {

/// A demerit for misbehaviour (a malformed reply, a broken sequence).
pub const DEMERIT: i64 = 10;

/// The score at or below which a peer is banned.
pub const BAN_THRESHOLD: i64 = -50;

/// A connected peer: its address, its node id once the handshake completed,
/// and its behaviour score.
pub struct Peer {
    pub addr: Addr,
    pub node_id: Option<Vec<u8>>,
    pub score: i64,
    pub banned: bool,
}

impl Peer {
    /// A freshly connected peer with no identity yet and a clean score.
    pub fn new(node_id: Option<Vec<u8>>, addr: Addr) -> (r: Peer)
        ensures
            r.addr == addr,
            r.node_id == node_id,
            r.score == 0,
            !r.banned,
    {
        Peer { addr, node_id, score: 0, banned: false }
    }

    /// Scores one misbehaviour down; crossing the threshold bans the peer.
    pub fn demerit(&mut self)
        requires
            old(self).score > i64::MIN + DEMERIT,
        ensures
            final(self).score == old(self).score - DEMERIT,
            final(self).banned == (old(self).banned || old(self).score - DEMERIT <= BAN_THRESHOLD),
            final(self).addr == old(self).addr,
            final(self).node_id == old(self).node_id,
    {
        self.score = self.score - DEMERIT;
        if self.score <= BAN_THRESHOLD {
            self.banned = true;
        }
    }
}

/// The listener's admission state: how many peers are connected and whether
/// new connections are accepted.
pub struct Listener {
    pub max_peers: usize,
    pub peers: usize,
    pub accepting: bool,
}

impl Listener {
    /// Admission discipline: accepting exactly while below the cap.
    pub open spec fn wf(self) -> bool {
        self.peers <= self.max_peers && self.accepting == (self.peers < self.max_peers)
    }

    /// A listener with no peers yet.
    pub fn new(max_peers: usize) -> (r: Listener)
        requires
            max_peers >= 1,
        ensures
            r.wf(),
            r.max_peers == max_peers,
            r.peers == 0,
            r.accepting,
    {
        Listener { max_peers, peers: 0, accepting: true }
    }

    /// A connection arrived: admitted only while accepting; the cap closes
    /// the door behind the last admitted peer.
    pub fn on_connection(&mut self) -> (r: bool)
        requires
            old(self).wf(),
        ensures
            final(self).wf(),
            final(self).max_peers == old(self).max_peers,
            r == old(self).accepting,
            r ==> final(self).peers == old(self).peers + 1,
            !r ==> final(self).peers == old(self).peers,
    {
        if !self.accepting {
            return false;
        }
        self.peers = self.peers + 1;
        self.accepting = self.peers < self.max_peers;
        true
    }

    /// A peer left: connections are accepted again when below the cap.
    pub fn on_disconnect(&mut self)
        requires
            old(self).wf(),
            old(self).peers > 0,
        ensures
            final(self).wf(),
            final(self).max_peers == old(self).max_peers,
            final(self).peers == old(self).peers - 1,
            final(self).accepting,
    {
        self.peers = self.peers - 1;
        self.accepting = true;
        proof {
            assert(self.peers < self.max_peers);
        }
    }
}

} // verus!
