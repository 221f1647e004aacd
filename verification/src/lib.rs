//! Core of a peer-to-peer blockchain node that maintains two linked,
//! forkable chains of blocks: a proof-of-work (PoW) chain anchoring time and
//! miner identity, and a state chain whose blocks reference PoW blocks.
//!
//! The heart of the library is the dual-chain fork-choice and reorganization
//! engine: a block DAG per chain, a tip-selection rule, an acceptance
//! pipeline validating candidate blocks against a rolling consensus state,
//! and the request-blocks protocol flow used during catch-up.

pub mod addr;
pub mod args;
pub mod block;
pub mod byteops;
pub mod chain;
pub mod consensus;
pub mod dag;
pub mod digest;
pub mod heartbeat;
pub mod interface;
pub mod keys;
pub mod packets;
pub mod peer;
pub mod protocol;
pub mod queue;
pub mod rng;
pub mod store;
pub mod testset;
