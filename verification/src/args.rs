//! Resolution of the node's command-line surface: the network name, the
//! mempool size in megabytes, and the peer cap, each with its default.
//! Parsing the raw strings is the application shell's concern; the defaults
//! and the assembled configuration are decided here.

use vstd::prelude::*;

verus! {

/// The default network name, as ASCII bytes: "purple".
pub open spec fn default_network_name() -> Seq<u8> {
    seq![112u8, 117u8, 114u8, 112u8, 108u8, 101u8]
}

/// The default mempool size in megabytes.
pub const DEFAULT_MEMPOOL_SIZE: u16 = 150;

/// The default peer cap.
pub const DEFAULT_MAX_PEERS: usize = 8;

/// The resolved node configuration.
pub struct Argv {
    pub network_name: Vec<u8>,
    pub mempool_size: u16,
    pub max_peers: usize,
}

/// Applies the defaults to whatever the command line supplied.
pub fn resolve_args(
    network_name: Option<Vec<u8>>,
    mempool_size: Option<u16>,
    max_peers: Option<usize>,
) -> (r: Argv)
    ensures
        match network_name {
            Option::Some(n) => r.network_name == n,
            Option::None => r.network_name@ == default_network_name(),
        },
        match mempool_size {
            Option::Some(m) => r.mempool_size == m,
            Option::None => r.mempool_size == DEFAULT_MEMPOOL_SIZE,
        },
        match max_peers {
            Option::Some(p) => r.max_peers == p,
            Option::None => r.max_peers == DEFAULT_MAX_PEERS,
        },
{
    let name: Vec<u8> = match network_name {
        Option::Some(n) => n,
        Option::None => {
            let d: Vec<u8> = vec![112u8, 117u8, 114u8, 112u8, 108u8, 101u8];
            proof {
                assert(d@ =~= default_network_name());
            }
            d
        }
    };
    let mem: u16 = match mempool_size {
        Option::Some(m) => m,
        Option::None => DEFAULT_MEMPOOL_SIZE,
    };
    let peers: usize = match max_peers {
        Option::Some(p) => p,
        Option::None => DEFAULT_MAX_PEERS,
    };
    Argv { network_name: name, mempool_size: mem, max_peers: peers }
}

} // verus!
