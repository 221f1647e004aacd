//! Utilities for exercising the chain cores: a generated set of signed PoW
//! blocks arranged in a chain, with optional forks governed by a fork rate.
//!
//! A fork rate of 10 means the probability of a fork at each step is 50%;
//! 0 means forks never occur.

use vstd::prelude::*;
use crate::addr::random_socket_addr;
use crate::block::{
    blk_eq, blk_is_pow, is_genesis_view, lemma_pow_eq_same_ser, pow_eq, pow_hash_ok, pow_sig_ok,
    pow_wf, st_hash_ok, st_wf, Block, PowBlock, StateBlock,
};
use crate::chain::{Chain, ChainKind};
use crate::dag::{is_canonical, wf_nodes, Dag};
use crate::digest::Digest;
use crate::keys::derive_public_key;
use crate::rng::{random_bytes_32, random_u8};

verus! {

/// Why a test-set request was rejected.
#[derive(Clone, Copy, PartialEq, Eq, Structural, Debug)]
pub enum TestSetErr {
    DepthTooSmall,
    ForkRateOutOfRange,
}

/// The smallest depth a test set may have.
pub const MIN_TEST_SET_DEPTH: usize = 5;

/// A generated set of blocks around a pair of chains.
pub struct BlockTestSet {
    pub pow_graph: Dag,
    pub state_graph: Dag,
    pub pow_blocks: Vec<PowBlock>,
    pub state_blocks: Vec<StateBlock>,
    pub pow_canonical: PowBlock,
    pub state_canonical: StateBlock,
}

impl BlockTestSet {
    /// An empty test set around the two genesis blocks: both graphs hold
    /// exactly their genesis vertex and both canonicals are those blocks.
    pub fn new() -> (r: BlockTestSet)
        ensures
            r.pow_blocks@.len() == 0,
            r.state_blocks@.len() == 0,
            wf_nodes(r.pow_graph@),
            wf_nodes(r.state_graph@),
            r.pow_graph@.len() == 1,
            r.state_graph@.len() == 1,
            is_genesis_view(r.pow_graph@[0].block),
            is_genesis_view(r.state_graph@[0].block),
            r.pow_graph@[0].block is Pow,
            r.state_graph@[0].block is State,
            pow_wf(r.pow_canonical) && pow_hash_ok(r.pow_canonical)
                && is_genesis_view(Block::Pow(r.pow_canonical)),
            st_wf(r.state_canonical) && st_hash_ok(r.state_canonical)
                && is_genesis_view(Block::State(r.state_canonical)),
    {
        BlockTestSet {
            pow_graph: Dag::new_dag(Block::Pow(PowBlock::genesis())),
            state_graph: Dag::new_dag(Block::State(StateBlock::genesis())),
            pow_blocks: Vec::new(),
            state_blocks: Vec::new(),
            pow_canonical: PowBlock::genesis(),
            state_canonical: StateBlock::genesis(),
        }
    }
}

/// A freshly initialized pair of chain cores, each holding exactly its
/// genesis block.
pub fn init_test_chains() -> (r: (Chain, Chain))
    ensures
        r.0.wf(),
        r.0.kind is Pow,
        r.0.dag@.len() == 1,
        r.0.tip == 0,
        crate::block::is_genesis_view(r.0.dag@[0].block),
        r.1.wf(),
        r.1.kind is State,
        r.1.dag@.len() == 1,
        r.1.tip == 0,
        crate::block::is_genesis_view(r.1.dag@[0].block),
{
    (Chain::new(ChainKind::Pow, 5), Chain::new(ChainKind::State, 5))
}

/// A fresh signed candidate block on the given parent.
fn make_signed_block(parent: &Digest, height: u64) -> (r: PowBlock)
    requires
        parent@.len() == 32,
    ensures
        pow_wf(r),
        crate::block::pow_hash_ok(r),
        crate::block::pow_sig_ok(r),
        crate::block::opt_digest_view(r.parent_hash) == Option::Some(parent@),
        r.height == height,
{
    let sk = random_bytes_32();
    let pk = derive_public_key(&sk);
    let mut b = PowBlock::new(
        Option::Some(parent.duplicate()),
        random_bytes_32(),
        random_socket_addr(),
        height,
        Vec::new(),
        pk,
    );
    b.sign_miner(&sk);
    b.compute_hash();
    b
}

/// Generates a test set of blocks with the given depth and fork rate, built
/// through the real acceptance pipeline. Byzantine and state-block
/// generation are not produced by this generator. Depths below the minimum
/// and fork rates outside 0 to 10 are rejected, exactly.
pub fn chain_test_set(
    depth: usize,
    fork_rate: u64,
    generate_byzantine: bool,
    generate_state: bool,
) -> (r: Result<BlockTestSet, TestSetErr>)
    requires
        !generate_byzantine,
        !generate_state,
    ensures
        r is Err <==> (depth < MIN_TEST_SET_DEPTH || fork_rate > 10),
        (r == Result::Err::<BlockTestSet, TestSetErr>(TestSetErr::DepthTooSmall))
            <==> depth < MIN_TEST_SET_DEPTH,
        (r == Result::Err::<BlockTestSet, TestSetErr>(TestSetErr::ForkRateOutOfRange))
            <==> (depth >= MIN_TEST_SET_DEPTH && fork_rate > 10),
        r matches Result::Ok(ts) ==> {
            // the PoW graph is a genesis-rooted, well-formed DAG of PoW blocks
            &&& wf_nodes(ts.pow_graph@)
            &&& is_genesis_view(ts.pow_graph@[0].block)
            &&& (forall|i: int| 0 <= i < ts.pow_graph@.len()
                ==> blk_is_pow(#[trigger] ts.pow_graph@[i].block))
            // the returned blocks are exactly the non-genesis vertices, in
            // insertion order
            &&& ts.pow_blocks@.len() + 1 == ts.pow_graph@.len()
            &&& (forall|k: int| 0 <= k < ts.pow_blocks@.len()
                ==> blk_eq(Block::Pow(#[trigger] ts.pow_blocks@[k]),
                    ts.pow_graph@[k + 1].block))
            // every generated block is signed, digested and parented
            &&& (forall|k: int| 0 <= k < ts.pow_blocks@.len()
                ==> pow_wf(#[trigger] ts.pow_blocks@[k]) && pow_hash_ok(ts.pow_blocks@[k])
                    && pow_sig_ok(ts.pow_blocks@[k]) && ts.pow_blocks@[k].parent_hash is Some)
            // the reported canonical block is the fork-choice winner
            &&& (exists|c: int|
                0 <= c < ts.pow_graph@.len() && is_canonical(ts.pow_graph@, c)
                    && (ts.pow_graph@[c].block is Pow
                        && pow_eq(ts.pow_canonical, #[trigger] ts.pow_graph@[c].block->Pow_0)))
            // the state side is untouched: the genesis vertex alone
            &&& ts.state_blocks@.len() == 0
            &&& wf_nodes(ts.state_graph@)
            &&& ts.state_graph@.len() == 1
            &&& is_genesis_view(ts.state_graph@[0].block)
            &&& st_wf(ts.state_canonical) && st_hash_ok(ts.state_canonical)
                && is_genesis_view(Block::State(ts.state_canonical))
        },
    {
    if depth < MIN_TEST_SET_DEPTH {
        return Result::Err(TestSetErr::DepthTooSmall);
    }
    if fork_rate > 10 {
        return Result::Err(TestSetErr::ForkRateOutOfRange);
    }
    let mut chain = Chain::new(ChainKind::Pow, 5);
    let mut blocks: Vec<PowBlock> = Vec::new();
    let mut prev_parent: Digest = chain.canonical_tip_hash();
    let mut i: usize = 0;
    while i < depth
        invariant
            chain.wf(),
            chain.kind is Pow,
            0 <= i <= depth,
            fork_rate <= 10,
            prev_parent@.len() == 32,
            blocks@.len() + 1 == chain.dag@.len(),
            forall|k: int| 0 <= k < blocks@.len()
                ==> blk_eq(Block::Pow(#[trigger] blocks@[k]), chain.dag@[k + 1].block),
            forall|k: int| 0 <= k < blocks@.len()
                ==> pow_wf(#[trigger] blocks@[k]) && pow_hash_ok(blocks@[k])
                    && pow_sig_ok(blocks@[k]) && blocks@[k].parent_hash is Some,
        decreases depth - i,
    {
        let h: u64 = (i as u64) + 1;
        let parent = chain.canonical_tip_hash();
        let b = make_signed_block(&parent, h);
        let keep = b.duplicate();
        proof {
            lemma_pow_eq_same_ser(keep, b);
        }
        let ghost dpre = chain.dag@;
        match chain.append_pow(b) {
            Result::Ok(_) => {
                proof {
                    assert(chain.dag@[dpre.len() as int].block == Block::Pow(b));
                    assert(forall|k: int| 0 <= k < blocks@.len()
                        ==> #[trigger] chain.dag@[k + 1] == dpre[k + 1]);
                }
                blocks.push(keep);
            }
            Result::Err(_) => {
                // a digest collision: stop extending
            }
        }
        // a fork of the previous vertex, with probability fork_rate / 20
        let coin = random_u8() as u64;
        if h >= 2 && fork_rate > 0 && coin % 100 < fork_rate * 5 {
            let fb = make_signed_block(&prev_parent, h);
            let fkeep = fb.duplicate();
            proof {
                lemma_pow_eq_same_ser(fkeep, fb);
            }
            let ghost fpre = chain.dag@;
            match chain.append_pow(fb) {
                Result::Ok(_) => {
                    proof {
                        assert(chain.dag@[fpre.len() as int].block == Block::Pow(fb));
                        assert(forall|k: int| 0 <= k < blocks@.len()
                            ==> #[trigger] chain.dag@[k + 1] == fpre[k + 1]);
                    }
                    blocks.push(fkeep);
                }
                Result::Err(_) => {}
            }
        }
        prev_parent = parent;
        i = i + 1;
    }
    let pow_canonical = match chain.dag.fetch(chain.tip) {
        Block::Pow(p) => p.duplicate(),
        Block::State(_) => {
            proof {
                assert(blk_is_pow(chain.dag@[chain.tip as int].block)
                    == (chain.kind is Pow));
                assert(false);
            }
            vstd::pervasive::unreached()
        }
    };
    proof {
        assert(is_canonical(chain.dag@, chain.tip as int));
        assert(forall|i: int| 0 <= i < chain.dag@.len()
            ==> blk_is_pow(#[trigger] chain.dag@[i].block));
    }
    let ts = BlockTestSet {
        pow_graph: chain.dag,
        state_graph: Dag::new_dag(Block::State(StateBlock::genesis())),
        pow_blocks: blocks,
        state_blocks: Vec::new(),
        pow_canonical,
        state_canonical: StateBlock::genesis(),
    };
    Result::Ok(ts)
}

} // verus!
