//! The per-chain consensus state: the snapshot a chain uses to validate the
//! next block. The state is content-addressed and persistent: applying the
//! same block sequence from genesis always yields the same root commitment.

use vstd::prelude::*;
use crate::block::{
    blk_height, blk_wf, opt_digest_view, txs_enc, Block, encode_txs,
};
use crate::byteops::{copy_bytes, push_bytes, zeros};
use crate::digest::{digest_of, BlakeDbHasher, Digest};

verus! {

/// Why a state transition rejects a block.
#[derive(Clone, Copy, PartialEq, Eq, Structural, Debug)]
pub enum RejectReason {
    BadTransaction,
    AnchorOrphaned,
    RootMismatch,
}

/// The root commitment of the initial consensus state.
pub open spec fn genesis_root() -> Seq<u8> {
    digest_of(Seq::<u8>::empty())
}

/// The bytes a block contributes to the rolling state commitment: a PoW
/// block contributes its digest, a state block its transaction region.
pub open spec fn blk_state_payload(b: Block) -> Seq<u8> {
    match b {
        Block::Pow(p) => match opt_digest_view(p.hash) {
            Option::None => zeros(32),
            Option::Some(h) => h,
        },
        Block::State(s) => txs_enc(s.transactions@),
    }
}

/// The root commitment after applying one block to a state with root `root`.
pub open spec fn apply_root(root: Seq<u8>, b: Block) -> Seq<u8> {
    digest_of(root + blk_state_payload(b))
}

/// The outcome of validating and applying one block: the new root, or the
/// typed rejection. A state block is rejected when it carries an empty
/// transaction or when its committed root does not match the transition;
/// anchor checks are the chain's, not the state's.
pub open spec fn apply_spec(root: Seq<u8>, b: Block) -> Result<Seq<u8>, RejectReason> {
    match b {
        Block::Pow(_) => Result::Ok(apply_root(root, b)),
        Block::State(s) => {
            if exists|k: int| 0 <= k < s.transactions@.len() && #[trigger] s.transactions@[k]@.len() == 0 {
                Result::Err(RejectReason::BadTransaction)
            } else if s.root_hash@ != apply_root(root, b) {
                Result::Err(RejectReason::RootMismatch)
            } else {
                Result::Ok(apply_root(root, b))
            }
        }
    }
}

/// View-equal blocks contribute the same state-transition payload and meet
/// the same transition outcome.
pub proof fn lemma_payload_congr(a: Block, b: Block)
    requires
        crate::block::blk_eq(a, b),
    ensures
        blk_state_payload(a) == blk_state_payload(b),
        forall|root: Seq<u8>| #[trigger] apply_spec(root, a) == apply_spec(root, b),
{
    match (a, b) {
        (Block::Pow(x), Block::Pow(y)) => {
        }
        (Block::State(x), Block::State(y)) => {
            crate::block::lemma_txs_enc_congr(x.transactions@, y.transactions@);
            assert forall|root: Seq<u8>| #[trigger] apply_spec(root, a) == apply_spec(root, b) by {
                assert((exists|k: int| 0 <= k < x.transactions@.len()
                        && #[trigger] x.transactions@[k]@.len() == 0)
                    == (exists|k: int| 0 <= k < y.transactions@.len()
                        && #[trigger] y.transactions@[k]@.len() == 0)) by {
                    if exists|k: int| 0 <= k < x.transactions@.len()
                        && #[trigger] x.transactions@[k]@.len() == 0 {
                        let k = choose|k: int| 0 <= k < x.transactions@.len()
                            && #[trigger] x.transactions@[k]@.len() == 0;
                        assert(y.transactions@[k]@.len() == 0);
                    }
                    if exists|k: int| 0 <= k < y.transactions@.len()
                        && #[trigger] y.transactions@[k]@.len() == 0 {
                        let k = choose|k: int| 0 <= k < y.transactions@.len()
                            && #[trigger] y.transactions@[k]@.len() == 0;
                        assert(x.transactions@[k]@.len() == 0);
                    }
                }
            }
        }
        _ => {}
    }
}

/// Whether some transaction in the list is empty.
fn has_empty_tx(ts: &Vec<Vec<u8>>) -> (r: bool)
    ensures
        r == exists|k: int| 0 <= k < ts@.len() && #[trigger] ts@[k]@.len() == 0,
{
    let count: usize = ts.len();
    let mut k: usize = 0;
    while k < count
        invariant
            0 <= k <= count,
            count == ts@.len(),
            forall|j: int| 0 <= j < k ==> #[trigger] ts@[j]@.len() > 0,
        decreases count - k,
    {
        if ts[k].len() == 0 {
            proof {
                assert(ts@[k as int]@.len() == 0);
            }
            return true;
        }
        k = k + 1;
    }
    false
}

/// A consensus-state snapshot: the root commitment of everything applied so
/// far.
pub struct ConsensusState {
    pub root: Digest,
}

impl ConsensusState {
    /// Well-formedness: the root is a digest.
    pub open spec fn wf(self) -> bool {
        self.root@.len() == 32
    }

    /// The initial state; deterministic.
    pub fn genesis() -> (r: ConsensusState)
        ensures
            r.root@ == genesis_root(),
            r.wf(),
    {
        let empty: Vec<u8> = Vec::new();
        ConsensusState { root: BlakeDbHasher::hash(empty.as_slice()) }
    }

    /// The commitment to the current state.
    pub fn root_hash(&self) -> (r: Digest)
        ensures
            r@ == self.root@,
    {
        self.root.duplicate()
    }

    /// A fresh snapshot with the same commitment.
    pub fn duplicate(&self) -> (r: ConsensusState)
        ensures
            r.root@ == self.root@,
    {
        ConsensusState { root: self.root.duplicate() }
    }

    /// Validates and applies one block, producing the next state without
    /// mutating this one. Succeeds and fails exactly as the transition
    /// function says.
    pub fn apply(&self, b: &Block) -> (r: Result<ConsensusState, RejectReason>)
        requires
            self.wf(),
            blk_wf(*b),
        ensures
            match r {
                Result::Ok(st) => apply_spec(self.root@, *b) == Result::Ok::<Seq<u8>, RejectReason>(st.root@)
                    && st.wf(),
                Result::Err(e) => apply_spec(self.root@, *b) == Result::Err::<Seq<u8>, RejectReason>(e),
            },
    {
        let mut payload: Vec<u8> = copy_bytes(&self.root.bytes);
        match b {
            Block::Pow(p) => {
                match &p.hash {
                    Option::None => {
                        let z = crate::byteops::zero_bytes(32);
                        push_bytes(&mut payload, &z);
                    }
                    Option::Some(h) => {
                        push_bytes(&mut payload, &h.bytes);
                    }
                }
                let root = BlakeDbHasher::hash(payload.as_slice());
                Result::Ok(ConsensusState { root })
            }
            Block::State(s) => {
                if has_empty_tx(&s.transactions) {
                    return Result::Err(RejectReason::BadTransaction);
                }
                let region = encode_txs(&s.transactions);
                push_bytes(&mut payload, &region);
                let root = BlakeDbHasher::hash(payload.as_slice());
                if !root.equals(&s.root_hash) {
                    return Result::Err(RejectReason::RootMismatch);
                }
                Result::Ok(ConsensusState { root })
            }
        }
    }
}

} // verus!
