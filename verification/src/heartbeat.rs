//! The heartbeat event record. Of the two signature slots older schemas
//! carried, this record keeps a single optional signature set after signing:
//! one canonical schema, chosen deliberately rather than merged silently.

use vstd::prelude::*;
use crate::digest::Digest;

verus! {

/// A signed liveness event: the emitting node, its causal stamp, the state
/// root it has seen, and the transactions it vouches for.
pub struct Heartbeat {
    pub node_id: Vec<u8>,
    pub stamp: Vec<u8>,
    pub root_hash: Option<Digest>,
    pub hash: Option<Digest>,
    pub signature: Option<Vec<u8>>,
    pub transactions: Vec<Vec<u8>>,
}

impl Heartbeat {
    /// Field sizes of a well-formed heartbeat.
    pub open spec fn wf(&self) -> bool {
        &&& self.node_id@.len() == 32
        &&& (self.root_hash matches Option::Some(d) ==> d@.len() == 32)
        &&& (self.hash matches Option::Some(d) ==> d@.len() == 32)
        &&& (self.signature matches Option::Some(s) ==> s@.len() == 64)
    }

    /// An unsigned heartbeat.
    pub fn new(node_id: Vec<u8>, stamp: Vec<u8>, transactions: Vec<Vec<u8>>) -> (r: Heartbeat)
        ensures
            r.node_id == node_id,
            r.stamp == stamp,
            r.transactions == transactions,
            r.root_hash is None,
            r.hash is None,
            r.signature is None,
    {
        Heartbeat {
            node_id,
            stamp,
            root_hash: Option::None,
            hash: Option::None,
            signature: Option::None,
            transactions,
        }
    }
}

} // verus!
