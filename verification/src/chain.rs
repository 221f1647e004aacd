//! The chain core: owns a block DAG, the consensus state of the canonical
//! tip, a bounded cache of per-tip states and a storage column. Exposes the
//! append pipeline (structural checks, parent lookup, height check, state
//! validation, graph insertion, fork choice, persistence), lookups and the
//! canonical-tip accessor.
//!
//! A failed append is an atomic no-op. After a successful append the DAG
//! contains the block and the canonical tip is the fork-choice winner over
//! all tips; when the canonical branch changes, the returned reorganization
//! lists the orphaned and adopted branch segments above the lowest common
//! ancestor, ordered by increasing height.

use vstd::prelude::*;
use crate::block::{
    blk_eq, blk_hash_ok, blk_hash_view, blk_height, blk_is_pow, blk_parent_view, blk_wf,
    encode_pow, encode_pow_with, encode_state, opt_digest_view, pow_hash_ok,
    pow_sig_ok, pow_wf, ser_pow, ser_state, st_hash_ok, st_wf, Block, PowBlock, StateBlock,
};
use crate::byteops::{push_bytes, push_u64_be, u64_be};
use crate::consensus::{apply_root, apply_spec, genesis_root, ConsensusState, RejectReason};
use crate::dag::{
    ancestor_at, beats, is_canonical, is_child, is_tip, lemma_anc_basic,
    lemma_canonical_unique, lemma_push_effects, node_hash, node_height,
    opt_hash_seq, wf_at, wf_nodes, Dag, Node,
};
use crate::digest::{BlakeDbHasher, Digest};

verus! {

/// Which chain a core drives.
#[derive(Clone, Copy, PartialEq, Eq, Structural, Debug)]
pub enum ChainKind {
    Pow,
    State,
}

/// Why an append was rejected. Failed appends change nothing.
#[derive(Debug)]
pub enum ChainErr {
    MalformedBlock,
    MissingHash,
    HashMismatch,
    MissingSignature,
    BadSignature,
    DuplicateBlock,
    MissingParent,
    OrphanBlock(Digest),
    InvalidHeight,
    StateRejected(RejectReason),
}

/// A canonical-branch change: the segment that fell out of the canonical
/// branch and the segment that replaced it, both above the lowest common
/// ancestor and ordered by increasing height.
pub struct Reorg {
    pub orphaned: Vec<Digest>,
    pub adopted: Vec<Digest>,
}

/// A cached per-tip consensus state.
pub struct TipEntry {
    pub hash: Digest,
    pub height: u64,
    pub state: ConsensusState,
}

/// The serialized storage form of a block.
pub open spec fn blk_ser(b: Block) -> Seq<u8> {
    match b {
        Block::Pow(p) => ser_pow(p),
        Block::State(s) => ser_state(s),
    }
}

/// Whether a PoW block's signature obligation holds (state blocks carry
/// none).
pub open spec fn blk_sig_ok(b: Block) -> bool {
    match b {
        Block::Pow(p) => pow_sig_ok(p),
        Block::State(_) => true,
    }
}

/// The consensus root after replaying the root path of vertex `i`.
pub open spec fn replay_to(s: Seq<Node>, i: int) -> Seq<u8>
    decreases i,
        when wf_nodes(s) && 0 <= i < s.len()
        via replay_to_dec
{
    if i == 0 {
        genesis_root()
    } else {
        match s[i].parent {
            Option::Some(p) => apply_root(replay_to(s, p as int), s[i].block),
            Option::None => genesis_root(),
        }
    }
}

#[via_fn]
proof fn replay_to_dec(s: Seq<Node>, i: int) {
    if i != 0 {
        assert(wf_at(s, i));
    }
}

/// Pushing a vertex does not change the replayed state of any existing
/// vertex.
pub proof fn lemma_replay_push(s: Seq<Node>, nd: Node, i: int)
    requires
        wf_nodes(s),
        wf_nodes(s.push(nd)),
        0 <= i < s.len(),
    ensures
        replay_to(s.push(nd), i) == replay_to(s, i),
    decreases i,
{
    assert(wf_at(s, i));
    assert(s.push(nd)[i] == s[i]);
    if i != 0 {
        let p = s[i].parent->Some_0;
        lemma_replay_push(s, nd, p as int);
    }
}

/// Determinism: replaying a vertex depends only on the block views and the
/// parent edges along its path.
pub proof fn lemma_replay_congr(s1: Seq<Node>, s2: Seq<Node>, i: int)
    requires
        wf_nodes(s1),
        wf_nodes(s2),
        s1.len() == s2.len(),
        forall|j: int| 0 <= j < s1.len()
            ==> blk_eq(#[trigger] s1[j].block, s2[j].block) && s1[j].parent == s2[j].parent,
        0 <= i < s1.len(),
    ensures
        replay_to(s1, i) == replay_to(s2, i),
    decreases i,
{
    assert(wf_at(s1, i));
    crate::consensus::lemma_payload_congr(s1[i].block, s2[i].block);
    if i != 0 {
        let p = s1[i].parent->Some_0;
        lemma_replay_congr(s1, s2, p as int);
    }
}

/// Every non-root vertex was accepted by the state-transition function.
pub open spec fn applied_ok_at(s: Seq<Node>, i: int) -> bool {
    s[i].parent matches Option::Some(p)
        && apply_spec(replay_to(s, p as int), s[i].block)
            == Result::Ok::<Seq<u8>, RejectReason>(replay_to(s, i))
}

/// All vertices beyond the root were accepted by the state transition.
pub open spec fn applies_ok(s: Seq<Node>) -> bool {
    forall|i: int| 1 <= i < s.len() ==> #[trigger] applied_ok_at(s, i)
}

/// All blocks belong to the chain's kind.
pub open spec fn kind_ok(s: Seq<Node>, kind: ChainKind) -> bool {
    forall|i: int| 0 <= i < s.len() ==> blk_is_pow(#[trigger] s[i].block) == (kind is Pow)
}

/// All non-genesis PoW blocks carry a verifying miner signature.
pub open spec fn sigs_ok(s: Seq<Node>) -> bool {
    forall|i: int| 1 <= i < s.len() ==> blk_sig_ok(#[trigger] s[i].block)
}

/// A cached tip entry describes some vertex exactly.
pub open spec fn tip_entry_ok(s: Seq<Node>, e: TipEntry) -> bool {
    exists|i: int|
        0 <= i < s.len() && node_hash(s, i) == e.hash@ && node_height(s, i) == e.height
            && replay_to(s, i) == e.state.root@
}

/// The storage key of a block record.
pub open spec fn block_key(h: Seq<u8>) -> Seq<u8> {
    seq![98u8, 58u8] + h
}

/// The storage key of the canonical-tip pointer.
pub open spec fn tip_key() -> Seq<u8> {
    seq![116u8, 105u8, 112u8]
}

/// The storage key of the canonical block at a height.
pub open spec fn height_key(h: u64) -> Seq<u8> {
    seq![104u8, 58u8] + u64_be(h)
}

/// Distinct digests give distinct block keys.
pub proof fn lemma_block_key_inj(a: Seq<u8>, b: Seq<u8>)
    requires
        block_key(a) == block_key(b),
    ensures
        a == b,
{
    assert(block_key(a).len() == 2 + a.len());
    assert(block_key(b).len() == 2 + b.len());
    assert(a =~= b) by {
        assert(forall|i: int| 0 <= i < a.len() ==> a[i] == block_key(a)[i + 2]);
        assert(forall|i: int| 0 <= i < b.len() ==> b[i] == block_key(b)[i + 2]);
    }
}

/// Every stored block record is in the column under its key.
pub open spec fn store_blocks_ok(s: Seq<Node>, m: Map<Seq<u8>, Seq<u8>>) -> bool {
    forall|i: int| 0 <= i < s.len()
        ==> m.contains_key(#[trigger] block_key(node_hash(s, i)))
            && m[block_key(node_hash(s, i))] == blk_ser(s[i].block)
}

/// The canonical-tip pointer is stored.
pub open spec fn store_tip_ok(s: Seq<Node>, tip: int, m: Map<Seq<u8>, Seq<u8>>) -> bool {
    m.contains_key(tip_key()) && m[tip_key()] == node_hash(s, tip)
}

/// The chain core.
pub struct Chain {
    pub kind: ChainKind,
    pub dag: Dag,
    pub tip: usize,
    pub state: ConsensusState,
    pub tip_index: Vec<TipEntry>,
    pub store: crate::store::Store,
    pub horizon: u64,
}

impl Chain {
    /// The chain invariant: a well-formed DAG of this chain's kind whose
    /// blocks were all accepted by the state transition, the canonical tip
    /// selected by fork choice, the consensus state equal to the canonical
    /// replay, a sound tip cache, and the storage column holding every block
    /// record and the tip pointer.
    pub open spec fn wf(self) -> bool {
        &&& wf_nodes(self.dag@)
        &&& self.tip < self.dag@.len()
        &&& is_canonical(self.dag@, self.tip as int)
        &&& kind_ok(self.dag@, self.kind)
        &&& sigs_ok(self.dag@)
        &&& applies_ok(self.dag@)
        &&& self.state.wf()
        &&& self.state.root@ == replay_to(self.dag@, self.tip as int)
        &&& forall|k: int| 0 <= k < self.tip_index@.len()
            ==> tip_entry_ok(self.dag@, #[trigger] self.tip_index@[k])
                && self.tip_index@[k].state.wf()
        &&& store_blocks_ok(self.dag@, self.store@)
        &&& store_tip_ok(self.dag@, self.tip as int, self.store@)
        &&& crate::block::is_genesis_view(self.dag@[0].block)
        &&& self.horizon >= 5
    }

    /// The genesis height of the canonical tip.
    pub fn canonical_height(&self) -> (r: u64)
        requires
            self.wf(),
        ensures
            r == node_height(self.dag@, self.tip as int),
    {
        self.dag.label(self.tip)
    }

    /// The digest of the canonical tip.
    pub fn canonical_tip_hash(&self) -> (r: Digest)
        requires
            self.wf(),
        ensures
            r@ == node_hash(self.dag@, self.tip as int),
            r@.len() == 32,
    {
        self.dag.node_digest(self.tip)
    }

    /// The commitment of the canonical consensus state.
    pub fn canonical_root(&self) -> (r: Digest)
        requires
            self.wf(),
        ensures
            r@ == replay_to(self.dag@, self.tip as int),
    {
        self.state.root_hash()
    }

    /// The vertex with the given digest, if any.
    pub fn fetch_by_hash(&self, d: &Digest) -> (r: Option<usize>)
        requires
            self.wf(),
        ensures
            match r {
                Option::Some(i) => i < self.dag@.len() && node_hash(self.dag@, i as int) == d@,
                Option::None => forall|i: int|
                    0 <= i < self.dag@.len() ==> node_hash(self.dag@, i) != d@,
            },
    {
        self.dag.fetch_by_hash(d)
    }

    /// The consensus state of an arbitrary vertex: from the tip cache when
    /// present, else recomputed by replaying the root path.
    pub fn state_at(&self, i: usize) -> (r: ConsensusState)
        requires
            self.wf(),
            i < self.dag@.len(),
        ensures
            r.root@ == replay_to(self.dag@, i as int),
            r.wf(),
    {
        let d = self.dag.node_digest(i);
        let n: usize = self.tip_index.len();
        let mut k: usize = 0;
        while k < n
            invariant
                self.wf(),
                i < self.dag@.len(),
                0 <= k <= n,
                n == self.tip_index@.len(),
                d@ == node_hash(self.dag@, i as int),
            decreases n - k,
        {
            let e = &self.tip_index[k];
            if e.hash.equals(&d) {
                proof {
                    let j = choose|j: int|
                        0 <= j < self.dag@.len() && node_hash(self.dag@, j) == e.hash@
                            && node_height(self.dag@, j) == e.height
                            && replay_to(self.dag@, j) == e.state.root@;
                    assert(j == i as int);
                }
                return e.state.duplicate();
            }
            k = k + 1;
        }
        self.replay_exec(i)
    }

    /// Replays the root path of vertex `i` from genesis.
    fn replay_exec(&self, i: usize) -> (r: ConsensusState)
        requires
            self.wf(),
            i < self.dag@.len(),
        ensures
            r.root@ == replay_to(self.dag@, i as int),
            r.wf(),
        decreases i,
    {
        if i == 0 {
            ConsensusState::genesis()
        } else {
            proof {
                assert(wf_at(self.dag@, i as int));
                assert(applied_ok_at(self.dag@, i as int));
            }
            let p = match &self.dag.nodes[i].parent {
                Option::Some(p) => *p,
                Option::None => vstd::pervasive::unreached(),
            };
            let ps = self.replay_exec(p);
            match ps.apply(self.dag.fetch(i)) {
                Result::Ok(st) => st,
                Result::Err(_) => {
                    proof {
                        assert(false);
                    }
                    vstd::pervasive::unreached()
                }
            }
        }
    }
}

/// The bytes of a block-record storage key.
fn block_key_bytes(d: &Digest) -> (r: Vec<u8>)
    ensures
        r@ == block_key(d@),
{
    let mut out: Vec<u8> = vec![98u8, 58u8];
    proof {
        assert(out@ =~= seq![98u8, 58u8]);
    }
    push_bytes(&mut out, &d.bytes);
    out
}

/// The bytes of a height-index storage key.
fn height_key_bytes(h: u64) -> (r: Vec<u8>)
    ensures
        r@ == height_key(h),
{
    let mut out: Vec<u8> = vec![104u8, 58u8];
    proof {
        assert(out@ =~= seq![104u8, 58u8]);
    }
    push_u64_be(&mut out, h);
    out
}

/// The bytes of the canonical-tip pointer key.
fn tip_key_bytes() -> (r: Vec<u8>)
    ensures
        r@ == tip_key(),
{
    let out: Vec<u8> = vec![116u8, 105u8, 112u8];
    proof {
        assert(out@ =~= tip_key());
    }
    out
}

/// The stored hash of a block, as a sequence.
pub open spec fn blk_hash_seq(b: Block) -> Seq<u8> {
    opt_hash_seq(blk_hash_view(b))
}

impl Chain {
    /// A fresh chain of the given kind holding only its genesis block, with
    /// the given finality horizon.
    pub fn new(kind: ChainKind, horizon: u64) -> (r: Chain)
        requires
            horizon >= 5,
        ensures
            r.wf(),
            r.kind == kind,
            r.horizon == horizon,
            r.dag@.len() == 1,
            r.tip == 0,
            node_height(r.dag@, 0) == 0,
            crate::block::is_genesis_view(r.dag@[0].block),
            r.state.root@ == genesis_root(),
    {
        let genesis: Block = match kind {
            ChainKind::Pow => Block::Pow(PowBlock::genesis()),
            ChainKind::State => Block::State(StateBlock::genesis()),
        };
        let ser: Vec<u8> = match &genesis {
            Block::Pow(p) => encode_pow(p),
            Block::State(s) => encode_state(s),
        };
        let dag = Dag::new_dag(genesis);
        let state = ConsensusState::genesis();
        let gh = dag.node_digest(0);
        let entry = TipEntry { hash: gh.duplicate(), height: 0, state: state.duplicate() };
        let mut tip_index: Vec<TipEntry> = Vec::new();
        tip_index.push(entry);
        let mut store = crate::store::Store::new();
        let mut batch: Vec<(Vec<u8>, Vec<u8>)> = Vec::new();
        batch.push((block_key_bytes(&gh), ser));
        batch.push((height_key_bytes(0), crate::byteops::copy_bytes(&gh.bytes)));
        batch.push((tip_key_bytes(), gh.bytes));
        let ghost gb = batch@;
        let ghost m0 = store@;
        store.put_batch(batch);
        proof {
            assert(gb.len() == 3);
            let gb2 = gb.drop_first();
            let gb3 = gb2.drop_first();
            assert(gb2.len() == 2 && gb2[0] == gb[1] && gb2[1] == gb[2]);
            assert(gb3.len() == 1 && gb3[0] == gb[2]);
            assert(gb3.drop_first().len() == 0);
            let m1 = m0.insert(gb[0].0@, gb[0].1@);
            assert(crate::store::apply_batch(m0, gb) == crate::store::apply_batch(m1, gb2));
            let m2 = m1.insert(gb2[0].0@, gb2[0].1@);
            assert(crate::store::apply_batch(m1, gb2) == crate::store::apply_batch(m2, gb3));
            let m3 = m2.insert(gb3[0].0@, gb3[0].1@);
            assert(crate::store::apply_batch(m2, gb3)
                == crate::store::apply_batch(m3, gb3.drop_first()));
            assert(crate::store::apply_batch(m3, gb3.drop_first()) == m3);
            assert(store@ == m3);
            assert(block_key(gh@).len() == 34);
            assert(height_key(0).len() == 10);
            assert(tip_key().len() == 3);
        }
        let c = Chain { kind, dag, tip: 0, state, tip_index, store, horizon };
        proof {
            let s = c.dag@;
            assert forall|j: int| 0 <= j < s.len() implies !#[trigger] is_child(s, j, 0) by {
                assert(wf_at(s, j));
            }
            assert(is_canonical(s, 0));
            assert(tip_entry_ok(s, c.tip_index@[0]));
            assert(block_key(node_hash(s, 0)).len() == 34);
            assert(tip_key().len() == 3);
            assert(store_blocks_ok(s, c.store@));
            assert(store_tip_ok(s, 0, c.store@));
        }
        c
    }

    /// Inserts a validated block, recomputes the canonical tip, reloads the
    /// consensus state, updates the tip cache and persists the block record
    /// and tip pointer in one atomic batch. Returns the reorganization when
    /// the canonical branch suffix changed.
    fn integrate(&mut self, blk: Block, parent: usize, ns: ConsensusState) -> (r: Option<Reorg>)
        requires
            old(self).wf(),
            parent < old(self).dag@.len(),
            blk_wf(blk),
            blk_hash_ok(blk),
            blk_hash_view(blk) is Some,
            blk_is_pow(blk) == (old(self).kind is Pow),
            blk_sig_ok(blk),
            blk_height(blk) as int == node_height(old(self).dag@, parent as int) as int + 1,
            blk_parent_view(blk) == Option::Some(node_hash(old(self).dag@, parent as int)),
            forall|i: int| 0 <= i < old(self).dag@.len()
                ==> node_hash(old(self).dag@, i) != blk_hash_seq(blk),
            apply_spec(replay_to(old(self).dag@, parent as int), blk)
                == Result::Ok::<Seq<u8>, RejectReason>(ns.root@),
            ns.wf(),
        ensures
            final(self).wf(),
            final(self).kind == old(self).kind,
            final(self).horizon == old(self).horizon,
            final(self).dag@ == old(self).dag@.push(Node { block: blk, parent: Option::Some(parent) }),
            final(self).tip as int == old(self).dag@.len() || final(self).tip == old(self).tip,
            parent == old(self).tip ==> (final(self).tip as int == old(self).dag@.len() && r is None),
            final(self).tip as int == old(self).dag@.len() ==> final(self).state.root@ == ns.root@,
            final(self).tip == old(self).tip ==> final(self).state.root@ == old(self).state.root@,
            (r is Some) == (final(self).tip as int == old(self).dag@.len() && parent != old(self).tip),
            r matches Option::Some(rg) ==> exists|hl: int|
                reorg_desc(final(self).dag@, old(self).tip as int, final(self).tip as int, hl, rg),
    {
        let ghost s0 = self.dag@;
        let ghost nd = Node { block: blk, parent: Option::Some(parent) };
        let old_tip = self.tip;
        let bh = match blk.block_hash() {
            Option::Some(d) => d,
            Option::None => vstd::pervasive::unreached(),
        };
        let ser: Vec<u8> = match &blk {
            Block::Pow(p) => encode_pow(p),
            Block::State(s) => encode_state(s),
        };
        let bheight = blk.height();
        let idx = self.dag.add_child(blk, parent);
        let ghost s2 = self.dag@;
        proof {
            lemma_push_effects(s0, nd);
            assert forall|i: int| 0 <= i < s0.len()
                implies replay_to(s2, i) == replay_to(s0, i) by {
                lemma_replay_push(s0, nd, i);
            }
            assert(node_hash(s2, idx as int) == bh@);
            assert(s2[0] == s0[0]);
            assert(replay_to(s2, idx as int) == ns.root@) by {
                assert(wf_at(s2, idx as int));
                assert(apply_spec(replay_to(s2, parent as int), nd.block)
                    == Result::Ok::<Seq<u8>, RejectReason>(ns.root@));
            }
            assert forall|i: int| 0 <= i < s2.len() - 1
                implies self.store@.contains_key(#[trigger] block_key(node_hash(s2, i)))
                    && self.store@[block_key(node_hash(s2, i))] == blk_ser(s2[i].block) by {
                assert(node_hash(s2, i) == node_hash(s0, i));
                assert(s2[i] == s0[i]);
                assert(self.store@.contains_key(block_key(node_hash(s0, i))));
            }
            assert forall|i: int| 1 <= i < s2.len() implies #[trigger] applied_ok_at(s2, i) by {
                if i < s0.len() {
                    assert(applied_ok_at(s0, i));
                    assert(s2[i] == s0[i]);
                    assert(wf_at(s0, i));
                    let p = s0[i].parent->Some_0;
                    assert(replay_to(s2, p as int) == replay_to(s0, p as int));
                    assert(replay_to(s2, i) == replay_to(s0, i));
                    assert(apply_spec(replay_to(s2, p as int), s2[i].block)
                        == Result::Ok::<Seq<u8>, RejectReason>(replay_to(s2, i)));
                } else {
                    assert(s2[i] == nd);
                    assert(apply_spec(replay_to(s2, parent as int), nd.block)
                        == Result::Ok::<Seq<u8>, RejectReason>(ns.root@));
                }
            }
            assert forall|i: int| 0 <= i < s2.len()
                implies blk_is_pow(#[trigger] s2[i].block) == (self.kind is Pow) by {
                if i < s0.len() {
                    assert(s2[i] == s0[i]);
                    assert(blk_is_pow(s0[i].block) == (self.kind is Pow));
                }
            }
            assert forall|i: int| 1 <= i < s2.len() implies blk_sig_ok(#[trigger] s2[i].block) by {
                if i < s0.len() {
                    assert(s2[i] == s0[i]);
                    assert(blk_sig_ok(s0[i].block));
                }
            }
            assert forall|k: int| 0 <= k < self.tip_index@.len()
                implies tip_entry_ok(s2, #[trigger] self.tip_index@[k]) by {
                let e = self.tip_index@[k];
                assert(tip_entry_ok(s0, e));
                let i = choose|i: int|
                    0 <= i < s0.len() && node_hash(s0, i) == e.hash@
                        && node_height(s0, i) == e.height && replay_to(s0, i) == e.state.root@;
                assert(node_hash(s2, i) == e.hash@ && node_height(s2, i) == e.height
                    && replay_to(s2, i) == e.state.root@);
            }
        }
        let c = self.dag.best_tip();
        let mut out: Option<Reorg> = Option::None;
        proof {
            lemma_new_canonical(s0, nd, old_tip as int, c as int);
            if parent == old_tip {
                lemma_extension_canonical(s0, nd, old_tip as int);
                lemma_canonical_unique(s2, c as int, idx as int);
            }
        }
        if c != old_tip {
            self.tip = c;
            let entry_state = ns.duplicate();
            self.state = ns;
            if parent != old_tip {
                let hl = self.dag.lca_height(old_tip, c);
                let orphaned = self.dag.segment(old_tip, hl);
                let adopted = self.dag.segment(c, hl);
                proof {
                    assert(seg_desc(s2, old_tip as int, hl as int, orphaned@));
                    assert(seg_desc(s2, c as int, hl as int, adopted@));
                }
                out = Option::Some(Reorg { orphaned, adopted });
            }
            self.finish(bh, ser, bheight, entry_state);
        } else {
            let entry_state = ns;
            self.finish(bh, ser, bheight, entry_state);
        }
        proof {
            if let Option::Some(rg) = &out {
                let hl = choose|hl: int| 0 <= hl <= node_height(s2, old_tip as int)
                    && hl <= node_height(s2, c as int)
                    && ancestor_at(s2, old_tip as int, hl) == ancestor_at(s2, c as int, hl)
                    && (forall|g: int|
                        hl < g <= node_height(s2, old_tip as int)
                            && g <= node_height(s2, c as int)
                            ==> ancestor_at(s2, old_tip as int, g) != ancestor_at(s2, c as int, g))
                    && seg_desc(s2, old_tip as int, hl, rg.orphaned@)
                    && seg_desc(s2, c as int, hl, rg.adopted@);
                assert(reorg_desc(s2, old_tip as int, c as int, hl, *rg));
            }
        }
        out
    }

    /// Persists the block record and the tip pointer atomically, then
    /// refreshes the tip cache: the new vertex's state is inserted and
    /// entries deeper than the finality horizon below the canonical tip are
    /// evicted.
    fn finish(&mut self, bh: Digest, ser: Vec<u8>, bheight: u64, entry_state: ConsensusState)
        requires
            wf_nodes(old(self).dag@),
            old(self).tip < old(self).dag@.len(),
            is_canonical(old(self).dag@, old(self).tip as int),
            kind_ok(old(self).dag@, old(self).kind),
            sigs_ok(old(self).dag@),
            applies_ok(old(self).dag@),
            old(self).state.wf(),
            old(self).state.root@ == replay_to(old(self).dag@, old(self).tip as int),
            forall|k: int| 0 <= k < old(self).tip_index@.len()
                ==> tip_entry_ok(old(self).dag@, #[trigger] old(self).tip_index@[k])
                    && old(self).tip_index@[k].state.wf(),
            crate::block::is_genesis_view(old(self).dag@[0].block),
            old(self).horizon >= 5,
            // the newest vertex is the one being persisted
            old(self).dag@.len() >= 1,
            node_hash(old(self).dag@, old(self).dag@.len() - 1) == bh@,
            node_height(old(self).dag@, old(self).dag@.len() - 1) == bheight,
            ser@ == blk_ser(old(self).dag@[old(self).dag@.len() - 1].block),
            replay_to(old(self).dag@, old(self).dag@.len() - 1) == entry_state.root@,
            entry_state.wf(),
            // every older record is already stored
            forall|i: int| 0 <= i < old(self).dag@.len() - 1
                ==> old(self).store@.contains_key(#[trigger] block_key(node_hash(old(self).dag@, i)))
                    && old(self).store@[block_key(node_hash(old(self).dag@, i))]
                        == blk_ser(old(self).dag@[i].block),
            forall|i: int, j: int|
                0 <= i < old(self).dag@.len() && 0 <= j < old(self).dag@.len() && i != j
                    ==> node_hash(old(self).dag@, i) != node_hash(old(self).dag@, j),
        ensures
            final(self).wf(),
            final(self).kind == old(self).kind,
            final(self).horizon == old(self).horizon,
            final(self).dag@ == old(self).dag@,
            final(self).tip == old(self).tip,
            final(self).state == old(self).state,
    {
        let ghost s = self.dag@;
        let ghost idx = s.len() - 1;
        let mut batch: Vec<(Vec<u8>, Vec<u8>)> = Vec::new();
        batch.push((block_key_bytes(&bh), ser));
        let tip_digest = self.dag.node_digest(self.tip);
        let tip_h_now = self.dag.label(self.tip);
        batch.push((height_key_bytes(tip_h_now), crate::byteops::copy_bytes(&tip_digest.bytes)));
        batch.push((tip_key_bytes(), tip_digest.bytes));
        let ghost gb = batch@;
        let ghost m0 = self.store@;
        self.store.put_batch(batch);
        proof {
            assert(gb.len() == 3);
            let gb2 = gb.drop_first();
            let gb3 = gb2.drop_first();
            assert(gb2.len() == 2 && gb2[0] == gb[1] && gb2[1] == gb[2]);
            assert(gb3.len() == 1 && gb3[0] == gb[2]);
            assert(gb3.drop_first().len() == 0);
            let m1 = m0.insert(gb[0].0@, gb[0].1@);
            assert(crate::store::apply_batch(m0, gb)
                == crate::store::apply_batch(m1, gb2));
            let m2 = m1.insert(gb2[0].0@, gb2[0].1@);
            assert(crate::store::apply_batch(m1, gb2)
                == crate::store::apply_batch(m2, gb3));
            let m3 = m2.insert(gb3[0].0@, gb3[0].1@);
            assert(crate::store::apply_batch(m2, gb3)
                == crate::store::apply_batch(m3, gb3.drop_first()));
            assert(crate::store::apply_batch(m3, gb3.drop_first()) == m3);
            assert(self.store@ == m3);
            assert(block_key(bh@).len() == 2 + bh@.len());
            assert(height_key(tip_h_now).len() == 10);
            assert(tip_key().len() == 3);
            assert forall|i: int| 0 <= i < s.len()
                implies m3.contains_key(#[trigger] block_key(node_hash(s, i)))
                    && m3[block_key(node_hash(s, i))] == blk_ser(s[i].block) by {
                assert(block_key(node_hash(s, i)).len() == 2 + node_hash(s, i).len());
                if i < idx {
                    if block_key(node_hash(s, i)) == block_key(bh@) {
                        lemma_block_key_inj(node_hash(s, i), bh@);
                    }
                }
            }
            assert(store_tip_ok(s, self.tip as int, m3));
        }
        // refresh the tip cache
        let new_entry = TipEntry { hash: bh, height: bheight, state: entry_state };
        let tip_h = self.dag.label(self.tip);
        let cutoff: u64 = if tip_h > self.horizon { tip_h - self.horizon } else { 0 };
        let mut kept: Vec<TipEntry> = Vec::new();
        if new_entry.height >= cutoff {
            kept.push(new_entry);
        }
        let n: usize = self.tip_index.len();
        let mut k: usize = 0;
        while k < n
            invariant
                0 <= k <= n,
                n == self.tip_index@.len(),
                forall|j: int| 0 <= j < self.tip_index@.len()
                    ==> tip_entry_ok(s, #[trigger] self.tip_index@[j])
                        && self.tip_index@[j].state.wf(),
                forall|j: int| 0 <= j < kept@.len()
                    ==> tip_entry_ok(s, #[trigger] kept@[j]) && kept@[j].state.wf(),
                s == self.dag@,
            decreases n - k,
        {
            let e = &self.tip_index[k];
            if e.height >= cutoff {
                let copy = TipEntry {
                    hash: e.hash.duplicate(),
                    height: e.height,
                    state: e.state.duplicate(),
                };
                proof {
                    assert(tip_entry_ok(s, self.tip_index@[k as int]));
                    let i = choose|i: int|
                        0 <= i < s.len() && node_hash(s, i) == self.tip_index@[k as int].hash@
                            && node_height(s, i) == self.tip_index@[k as int].height
                            && replay_to(s, i) == self.tip_index@[k as int].state.root@;
                    assert(node_hash(s, i) == copy.hash@ && node_height(s, i) == copy.height
                        && replay_to(s, i) == copy.state.root@);
                }
                kept.push(copy);
            }
            k = k + 1;
        }
        self.tip_index = kept;
    }
}

/// Whether the DAG holds a vertex with this digest.
pub open spec fn has_hash(s: Seq<Node>, h: Seq<u8>) -> bool {
    exists|i: int| 0 <= i < s.len() && node_hash(s, i) == h
}

/// The checks a candidate PoW block passes before insertion, in pipeline
/// order; `None` means it is accepted. `InvalidHeight` also covers a claimed
/// height of zero, which no appended block can have.
pub open spec fn pow_err_of(s: Seq<Node>, b: PowBlock) -> Option<ChainErr> {
    if !pow_wf(b) {
        Option::Some(ChainErr::MalformedBlock)
    } else if b.hash is None {
        Option::Some(ChainErr::MissingHash)
    } else if !pow_hash_ok(b) {
        Option::Some(ChainErr::HashMismatch)
    } else if b.signature is None {
        Option::Some(ChainErr::MissingSignature)
    } else if !pow_sig_ok(b) {
        Option::Some(ChainErr::BadSignature)
    } else if has_hash(s, opt_hash_seq(opt_digest_view(b.hash))) {
        Option::Some(ChainErr::DuplicateBlock)
    } else if b.parent_hash is None {
        Option::Some(ChainErr::MissingParent)
    } else if !has_hash(s, opt_hash_seq(opt_digest_view(b.parent_hash))) {
        Option::Some(ChainErr::OrphanBlock(b.parent_hash->Some_0))
    } else if exists|i: int|
        0 <= i < s.len() && node_hash(s, i) == opt_hash_seq(opt_digest_view(b.parent_hash))
            && b.height as int != node_height(s, i) as int + 1 {
        Option::Some(ChainErr::InvalidHeight)
    } else {
        Option::None
    }
}

/// Which errors count as the same rejection (payloads compared by view).
pub open spec fn err_eq(a: ChainErr, b: ChainErr) -> bool {
    match (a, b) {
        (ChainErr::MalformedBlock, ChainErr::MalformedBlock) => true,
        (ChainErr::MissingHash, ChainErr::MissingHash) => true,
        (ChainErr::HashMismatch, ChainErr::HashMismatch) => true,
        (ChainErr::MissingSignature, ChainErr::MissingSignature) => true,
        (ChainErr::BadSignature, ChainErr::BadSignature) => true,
        (ChainErr::DuplicateBlock, ChainErr::DuplicateBlock) => true,
        (ChainErr::MissingParent, ChainErr::MissingParent) => true,
        (ChainErr::OrphanBlock(x), ChainErr::OrphanBlock(y)) => x@ == y@,
        (ChainErr::InvalidHeight, ChainErr::InvalidHeight) => true,
        (ChainErr::StateRejected(x), ChainErr::StateRejected(y)) => x == y,
        _ => false,
    }
}

impl Chain {
    /// Appends a candidate PoW block: the full pipeline of structural
    /// checks, duplicate and parent lookup, height check, state validation,
    /// insertion, fork choice and persistence. A rejected block changes
    /// nothing, and the error is exactly what the pipeline prescribes; an
    /// accepted block extends the DAG and the canonical tip is recomputed.
    pub fn append_pow(&mut self, b: PowBlock) -> (r: Result<Option<Reorg>, ChainErr>)
        requires
            old(self).wf(),
            old(self).kind is Pow,
        ensures
            final(self).wf(),
            final(self).kind == old(self).kind,
            final(self).horizon == old(self).horizon,
            match r {
                Result::Err(e) => *final(self) == *old(self)
                    && (pow_err_of(old(self).dag@, b) matches Option::Some(e2) && err_eq(e, e2)),
                Result::Ok(ro) => {
                    &&& pow_err_of(old(self).dag@, b) is None
                    &&& final(self).dag@.len() == old(self).dag@.len() + 1
                    &&& (forall|i: int| 0 <= i < old(self).dag@.len()
                        ==> final(self).dag@[i] == old(self).dag@[i])
                    &&& final(self).dag@[old(self).dag@.len() as int].block == Block::Pow(b)
                    &&& node_hash(final(self).dag@, old(self).dag@.len() as int)
                        == opt_hash_seq(opt_digest_view(b.hash))
                    &&& (blk_parent_view(Block::Pow(b))
                            == Option::Some(node_hash(old(self).dag@, old(self).tip as int))
                        ==> (final(self).tip as int == old(self).dag@.len() && ro is None
                            && node_height(final(self).dag@, final(self).tip as int) as int
                                == node_height(old(self).dag@, old(self).tip as int) as int + 1))
                    &&& (final(self).tip as int == old(self).dag@.len()
                        || final(self).tip == old(self).tip)
                    &&& (ro matches Option::Some(rg) ==> exists|hl: int|
                        reorg_desc(final(self).dag@, old(self).tip as int,
                            final(self).tip as int, hl, rg))
                }
            },
    {
        // structural checks
        let wf_ok = (match &b.parent_hash {
            Option::Some(d) => d.bytes.len() == 32,
            Option::None => true,
        }) && b.miner_address.len() == 32 && b.miner_node_id.len() == 32
            && (match &b.signature {
            Option::Some(s) => s.len() == 64,
            Option::None => true,
        }) && (match &b.hash {
            Option::Some(h) => h.bytes.len() == 32,
            Option::None => true,
        }) && b.proof.len() <= 0xFFFF;
        if !wf_ok {
            return Result::Err(ChainErr::MalformedBlock);
        }
        let bh: Digest = match &b.hash {
            Option::None => {
                return Result::Err(ChainErr::MissingHash);
            }
            Option::Some(h) => h.duplicate(),
        };
        let payload = encode_pow_with(&b, true, false);
        let expect = BlakeDbHasher::hash(payload.as_slice());
        if !expect.equals(&bh) {
            return Result::Err(ChainErr::HashMismatch);
        }
        if b.signature.is_none() {
            return Result::Err(ChainErr::MissingSignature);
        }
        if !b.verify_signature() {
            return Result::Err(ChainErr::BadSignature);
        }
        // duplicate and parent lookup
        if self.dag.fetch_by_hash(&bh).is_some() {
            return Result::Err(ChainErr::DuplicateBlock);
        }
        let ph: Digest = match &b.parent_hash {
            Option::None => {
                return Result::Err(ChainErr::MissingParent);
            }
            Option::Some(d) => d.duplicate(),
        };
        let pidx: usize = match self.dag.fetch_by_hash(&ph) {
            Option::None => {
                return Result::Err(ChainErr::OrphanBlock(ph));
            }
            Option::Some(i) => i,
        };
        // height check
        let parent_height = self.dag.label(pidx);
        if !(b.height >= 1 && b.height - 1 == parent_height) {
            return Result::Err(ChainErr::InvalidHeight);
        }
        proof {
            assert forall|i: int|
                0 <= i < self.dag@.len()
                    && node_hash(self.dag@, i) == opt_hash_seq(opt_digest_view(b.parent_hash))
                implies !(b.height as int != node_height(self.dag@, i) as int + 1) by {
                if i != pidx as int {
                    assert(node_hash(self.dag@, i) != node_hash(self.dag@, pidx as int));
                }
            }
        }
        // state validation
        let ps = self.state_at(pidx);
        let blk = Block::Pow(b);
        let ns = match ps.apply(&blk) {
            Result::Ok(st) => st,
            Result::Err(_) => {
                proof {
                    assert(false);
                }
                vstd::pervasive::unreached()
            }
        };
        // insertion, fork choice, persistence
        let r = self.integrate(blk, pidx, ns);
        Result::Ok(r)
    }
}

/// Whether every transaction fits a 16-bit length prefix.
fn txs_small(ts: &Vec<Vec<u8>>) -> (r: bool)
    ensures
        r == forall|k: int| 0 <= k < ts@.len() ==> #[trigger] ts@[k]@.len() <= 0xFFFF,
{
    let count: usize = ts.len();
    let mut k: usize = 0;
    while k < count
        invariant
            0 <= k <= count,
            count == ts@.len(),
            forall|j: int| 0 <= j < k ==> #[trigger] ts@[j]@.len() <= 0xFFFF,
        decreases count - k,
    {
        if ts[k].len() > 0xFFFF {
            proof {
                assert(ts@[k as int]@.len() > 0xFFFF);
            }
            return false;
        }
        k = k + 1;
    }
    true
}

/// Whether a digest lies on the canonical branch of a PoW DAG: some vertex
/// carries it and is the canonical tip's ancestor at its own height.
pub open spec fn anchor_on_canonical(pow: Seq<Node>, pow_tip: int, anchor: Seq<u8>) -> bool {
    exists|j: int|
        0 <= j < pow.len() && node_hash(pow, j) == anchor
            && node_height(pow, j) <= node_height(pow, pow_tip)
            && ancestor_at(pow, pow_tip, node_height(pow, j) as int) == j
}

/// The checks a candidate state block passes before insertion, in pipeline
/// order; `None` means it is accepted. The anchor must lie on the canonical
/// PoW branch, and the state transition must accept the block against its
/// parent's replayed state.
pub open spec fn st_err_of(s: Seq<Node>, pow: Seq<Node>, pow_tip: int, b: StateBlock) -> Option<ChainErr> {
    if !st_wf(b) {
        Option::Some(ChainErr::MalformedBlock)
    } else if b.hash is None {
        Option::Some(ChainErr::MissingHash)
    } else if !st_hash_ok(b) {
        Option::Some(ChainErr::HashMismatch)
    } else if has_hash(s, opt_hash_seq(opt_digest_view(b.hash))) {
        Option::Some(ChainErr::DuplicateBlock)
    } else if b.parent_hash is None {
        Option::Some(ChainErr::MissingParent)
    } else if !has_hash(s, opt_hash_seq(opt_digest_view(b.parent_hash))) {
        Option::Some(ChainErr::OrphanBlock(b.parent_hash->Some_0))
    } else if exists|i: int|
        0 <= i < s.len() && node_hash(s, i) == opt_hash_seq(opt_digest_view(b.parent_hash))
            && b.height as int != node_height(s, i) as int + 1 {
        Option::Some(ChainErr::InvalidHeight)
    } else if !anchor_on_canonical(pow, pow_tip, b.pow_anchor_hash@) {
        Option::Some(ChainErr::StateRejected(RejectReason::AnchorOrphaned))
    } else {
        let i = choose|i: int|
            0 <= i < s.len() && node_hash(s, i) == opt_hash_seq(opt_digest_view(b.parent_hash));
        match apply_spec(replay_to(s, i), Block::State(b)) {
            Result::Ok(_) => Option::None,
            Result::Err(e) => Option::Some(ChainErr::StateRejected(e)),
        }
    }
}

impl Chain {
    /// Appends a candidate state block: the PoW-chain pipeline plus the
    /// cross-chain anchor check against the given PoW chain's canonical
    /// branch. A rejected block changes nothing; an accepted block extends
    /// the DAG and the canonical tip is recomputed.
    pub fn append_state(&mut self, b: StateBlock, pow: &Chain) -> (r: Result<Option<Reorg>, ChainErr>)
        requires
            old(self).wf(),
            old(self).kind is State,
            pow.wf(),
            pow.kind is Pow,
        ensures
            final(self).wf(),
            final(self).kind == old(self).kind,
            final(self).horizon == old(self).horizon,
            match r {
                Result::Err(e) => *final(self) == *old(self)
                    && (st_err_of(old(self).dag@, pow.dag@, pow.tip as int, b)
                        matches Option::Some(e2) && err_eq(e, e2)),
                Result::Ok(ro) => {
                    &&& st_err_of(old(self).dag@, pow.dag@, pow.tip as int, b) is None
                    &&& final(self).dag@.len() == old(self).dag@.len() + 1
                    &&& (forall|i: int| 0 <= i < old(self).dag@.len()
                        ==> final(self).dag@[i] == old(self).dag@[i])
                    &&& final(self).dag@[old(self).dag@.len() as int].block == Block::State(b)
                    &&& (opt_digest_view(b.parent_hash)
                            == Option::Some(node_hash(old(self).dag@, old(self).tip as int))
                        ==> (final(self).tip as int == old(self).dag@.len() && ro is None))
                    &&& (final(self).tip as int == old(self).dag@.len()
                        || final(self).tip == old(self).tip)
                    &&& (ro is Some) == (final(self).tip as int == old(self).dag@.len()
                        && opt_digest_view(b.parent_hash)
                            != Option::Some(node_hash(old(self).dag@, old(self).tip as int)))
                    &&& (ro matches Option::Some(rg) ==> exists|hl: int|
                        reorg_desc(final(self).dag@, old(self).tip as int,
                            final(self).tip as int, hl, rg))
                }
            },
    {
        // structural checks
        let wf_ok = (match &b.parent_hash {
            Option::Some(d) => d.bytes.len() == 32,
            Option::None => true,
        }) && b.pow_anchor_hash.bytes.len() == 32 && b.root_hash.bytes.len() == 32
            && (match &b.hash {
            Option::Some(h) => h.bytes.len() == 32,
            Option::None => true,
        }) && b.transactions.len() <= 0xFFFF && txs_small(&b.transactions);
        if !wf_ok {
            return Result::Err(ChainErr::MalformedBlock);
        }
        let bh: Digest = match &b.hash {
            Option::None => {
                return Result::Err(ChainErr::MissingHash);
            }
            Option::Some(h) => h.duplicate(),
        };
        let payload = crate::block::encode_state_with(&b, false);
        let expect = BlakeDbHasher::hash(payload.as_slice());
        if !expect.equals(&bh) {
            return Result::Err(ChainErr::HashMismatch);
        }
        // duplicate and parent lookup
        if self.dag.fetch_by_hash(&bh).is_some() {
            return Result::Err(ChainErr::DuplicateBlock);
        }
        let ph: Digest = match &b.parent_hash {
            Option::None => {
                return Result::Err(ChainErr::MissingParent);
            }
            Option::Some(d) => d.duplicate(),
        };
        let pidx: usize = match self.dag.fetch_by_hash(&ph) {
            Option::None => {
                return Result::Err(ChainErr::OrphanBlock(ph));
            }
            Option::Some(i) => i,
        };
        // height check
        let parent_height = self.dag.label(pidx);
        if !(b.height >= 1 && b.height - 1 == parent_height) {
            return Result::Err(ChainErr::InvalidHeight);
        }
        proof {
            assert forall|i: int|
                0 <= i < self.dag@.len()
                    && node_hash(self.dag@, i) == opt_hash_seq(opt_digest_view(b.parent_hash))
                implies !(b.height as int != node_height(self.dag@, i) as int + 1) by {
                if i != pidx as int {
                    assert(node_hash(self.dag@, i) != node_hash(self.dag@, pidx as int));
                }
            }
        }
        // cross-chain anchor check
        let mut anchored: bool = false;
        match pow.dag.fetch_by_hash(&b.pow_anchor_hash) {
            Option::None => {}
            Option::Some(j) => {
                let hj = pow.dag.label(j);
                let pow_tip_h = pow.dag.label(pow.tip);
                if hj <= pow_tip_h {
                    let anc = pow.dag.ancestor_exec(pow.tip, hj);
                    if anc == j {
                        anchored = true;
                        proof {
                            assert(anchor_on_canonical(pow.dag@, pow.tip as int, b.pow_anchor_hash@));
                        }
                    }
                }
            }
        }
        if !anchored {
            proof {
                if anchor_on_canonical(pow.dag@, pow.tip as int, b.pow_anchor_hash@) {
                    let j0 = choose|j: int|
                        0 <= j < pow.dag@.len() && node_hash(pow.dag@, j) == b.pow_anchor_hash@
                            && node_height(pow.dag@, j) <= node_height(pow.dag@, pow.tip as int)
                            && ancestor_at(pow.dag@, pow.tip as int,
                                node_height(pow.dag@, j) as int) == j;
                    assert(false);
                }
            }
            return Result::Err(ChainErr::StateRejected(RejectReason::AnchorOrphaned));
        }
        // state validation
        let ps = self.state_at(pidx);
        let blk = Block::State(b);
        proof {
            let i0 = choose|i: int|
                0 <= i < self.dag@.len()
                    && node_hash(self.dag@, i)
                        == opt_hash_seq(opt_digest_view(blk->State_0.parent_hash));
            assert(node_hash(self.dag@, i0) == node_hash(self.dag@, pidx as int));
            assert(i0 == pidx as int);
        }
        let ns = match ps.apply(&blk) {
            Result::Ok(st) => st,
            Result::Err(e) => {
                return Result::Err(ChainErr::StateRejected(e));
            }
        };
        // insertion, fork choice, persistence
        let r = self.integrate(blk, pidx, ns);
        Result::Ok(r)
    }
}

/// A well-formed contiguous extension of the canonical branch: signed,
/// correctly digested blocks at consecutive heights, each linking to its
/// predecessor, the first linking to the canonical tip, with fresh, pairwise
/// distinct digests.
pub open spec fn pow_ext_valid(s: Seq<Node>, tip: int, bs: Seq<PowBlock>) -> bool {
    &&& forall|k: int| 0 <= k < bs.len()
        ==> pow_wf(#[trigger] bs[k]) && pow_hash_ok(bs[k]) && pow_sig_ok(bs[k])
    &&& forall|k: int| 0 <= k < bs.len()
        ==> (#[trigger] bs[k].height) as int == node_height(s, tip) as int + 1 + k
    &&& (bs.len() > 0 ==> opt_digest_view(bs[0].parent_hash) == Option::Some(node_hash(s, tip)))
    &&& forall|k: int| 1 <= k < bs.len()
        ==> opt_digest_view(#[trigger] bs[k].parent_hash)
            == Option::Some(opt_hash_seq(opt_digest_view(bs[k - 1].hash)))
    &&& forall|k: int, i: int| #![trigger bs[k].hash, node_hash(s, i)]
        0 <= k < bs.len() && 0 <= i < s.len()
            ==> opt_hash_seq(opt_digest_view(bs[k].hash)) != node_hash(s, i)
    &&& forall|k1: int, k2: int| 0 <= k1 < k2 < bs.len()
        ==> opt_hash_seq(opt_digest_view(bs[k1].hash))
            != opt_hash_seq(opt_digest_view(bs[k2].hash))
}

impl Chain {
    /// Appends a batch of PoW blocks in order, stopping at the first
    /// rejection. A well-formed contiguous extension of the canonical branch
    /// is always accepted whole and advances the canonical tip by exactly
    /// the number of blocks: the liveness a catching-up node relies on.
    pub fn append_pow_blocks(&mut self, blocks: Vec<PowBlock>) -> (r: Result<(), ChainErr>)
        requires
            old(self).wf(),
            old(self).kind is Pow,
        ensures
            final(self).wf(),
            final(self).kind == old(self).kind,
            final(self).horizon == old(self).horizon,
            // whatever was accepted before a rejection stays: no roll-back
            final(self).dag@.len() >= old(self).dag@.len(),
            forall|i: int| 0 <= i < old(self).dag@.len()
                ==> final(self).dag@[i] == old(self).dag@[i],
            pow_ext_valid(old(self).dag@, old(self).tip as int, blocks@) ==> (
                r is Ok
                && node_height(final(self).dag@, final(self).tip as int) as int
                    == node_height(old(self).dag@, old(self).tip as int) as int + blocks@.len()
            ),
    {
        let ghost s0 = self.dag@;
        let ghost t0 = self.tip as int;
        let ghost bs0 = blocks@;
        let ghost h0 = node_height(s0, t0) as int;
        let mut rest = blocks;
        while rest.len() > 0
            invariant
                self.wf(),
                self.kind == old(self).kind,
                self.kind is Pow,
                self.horizon == old(self).horizon,
                s0 == old(self).dag@,
                t0 == old(self).tip as int,
                bs0 == blocks@,
                h0 == node_height(s0, t0) as int,
                wf_nodes(s0),
                0 <= t0 < s0.len(),
                rest@.len() <= bs0.len(),
                rest@ == bs0.skip(bs0.len() - rest@.len()),
                self.dag@.len() >= s0.len(),
                forall|i: int| 0 <= i < s0.len() ==> #[trigger] self.dag@[i] == s0[i],
                pow_ext_valid(s0, t0, bs0) ==> {
                    let done = bs0.len() - rest@.len();
                    &&& self.dag@.len() == s0.len() + done
                    &&& (forall|i: int| 0 <= i < s0.len() ==> self.dag@[i] == s0[i])
                    &&& (forall|j: int| 0 <= j < done
                        ==> (#[trigger] self.dag@[s0.len() + j]).block == Block::Pow(bs0[j]))
                    &&& self.tip as int == (if done == 0 { t0 } else { s0.len() + done - 1 })
                    &&& node_height(self.dag@, self.tip as int) as int == h0 + done
                },
            decreases rest@.len(),
        {
            let ghost rpre = rest@;
            let ghost done = bs0.len() - rpre.len();
            let ghost spre = self.dag@;
            let ghost tpre = self.tip as int;
            let b = rest.remove(0);
            proof {
                assert(rpre[0] == b);
                assert(rest@ =~= rpre.drop_first());
                assert(rest@ =~= bs0.skip(bs0.len() - rest@.len()));
                assert(b == bs0[done]);
                if pow_ext_valid(s0, t0, bs0) {
                    // the candidate is accepted: fresh digest, parent is the
                    // current canonical tip, height follows it
                    assert(pow_wf(b) && pow_hash_ok(b) && pow_sig_ok(b));
                    assert(b.hash is Some && b.signature is Some);
                    assert forall|i: int| 0 <= i < spre.len()
                        implies node_hash(spre, i) != opt_hash_seq(opt_digest_view(b.hash)) by {
                        if i < s0.len() {
                            assert(spre[i] == s0[i]);
                            assert(node_hash(s0, i) != opt_hash_seq(opt_digest_view(bs0[done].hash)));
                        } else {
                            let j = i - s0.len();
                            assert(spre[s0.len() + j].block == Block::Pow(bs0[j]));
                            assert(spre[i].block == Block::Pow(bs0[j]));
                            assert(opt_hash_seq(opt_digest_view(bs0[j].hash))
                                != opt_hash_seq(opt_digest_view(bs0[done].hash)));
                        }
                    }
                    assert(!has_hash(spre, opt_hash_seq(opt_digest_view(b.hash))));
                    if done == 0 {
                        assert(node_hash(spre, tpre) == node_hash(s0, t0));
                        assert(opt_digest_view(b.parent_hash) == Option::Some(node_hash(spre, tpre)));
                    } else {
                        assert(spre[s0.len() + (done - 1)].block == Block::Pow(bs0[done - 1]));
                        assert(tpre == s0.len() + (done - 1));
                        assert(node_hash(spre, tpre)
                            == opt_hash_seq(opt_digest_view(bs0[done - 1].hash)));
                        assert(opt_digest_view(b.parent_hash) == Option::Some(node_hash(spre, tpre)));
                    }
                    assert(b.parent_hash is Some);
                    assert(has_hash(spre, opt_hash_seq(opt_digest_view(b.parent_hash))));
                    assert(node_height(spre, tpre) as int == h0 + done);
                    assert(b.height as int == node_height(spre, tpre) as int + 1);
                    assert forall|i: int|
                        0 <= i < spre.len()
                            && node_hash(spre, i) == opt_hash_seq(opt_digest_view(b.parent_hash))
                        implies !(b.height as int != node_height(spre, i) as int + 1) by {
                        if i != tpre {
                            assert(node_hash(spre, i) != node_hash(spre, tpre));
                        }
                    }
                    assert(pow_err_of(spre, b) is None);
                }
            }
            let res = self.append_pow(b);
            match res {
                Result::Ok(_) => {
                    proof {
                        if pow_ext_valid(s0, t0, bs0) {
                            assert(opt_digest_view(b.parent_hash)
                                == Option::Some(node_hash(spre, tpre)));
                            assert(self.tip as int == spre.len());
                            assert(self.dag@[spre.len() as int].block == Block::Pow(b));
                            assert forall|j: int| 0 <= j < done + 1
                                implies (#[trigger] self.dag@[s0.len() + j]).block
                                    == Block::Pow(bs0[j]) by {
                                if j < done {
                                    assert(self.dag@[s0.len() + j] == spre[s0.len() + j]);
                                }
                            }
                            assert(node_height(self.dag@, self.tip as int) as int == h0 + done + 1);
                        }
                    }
                }
                Result::Err(e) => {
                    proof {
                        if pow_ext_valid(s0, t0, bs0) {
                            assert(pow_err_of(spre, b) is None);
                            assert(false);
                        }
                    }
                    return Result::Err(e);
                }
            }
        }
        Result::Ok(())
    }

    /// Re-evaluates every non-genesis block of this state chain against the
    /// given PoW chain, as after a PoW reorganization: the blocks are fed
    /// back through the acceptance pipeline in order. Every survivor's
    /// anchor lies on the given chain's canonical branch, and every block
    /// whose whole lineage kept its anchors survives; the rest are dropped.
    #[verifier::rlimit(100)]
    pub fn revalidate(&mut self, pow: &Chain)
        requires
            old(self).wf(),
            old(self).kind is State,
            pow.wf(),
            pow.kind is Pow,
        ensures
            final(self).wf(),
            final(self).kind is State,
            final(self).horizon == old(self).horizon,
            forall|i: int| #![trigger final(self).dag@[i]]
                1 <= i < final(self).dag@.len() ==> exists|j: int|
                    1 <= j < old(self).dag@.len()
                        && blk_eq(final(self).dag@[i].block, #[trigger] old(self).dag@[j].block),
            forall|i: int| 1 <= i < final(self).dag@.len()
                ==> (#[trigger] final(self).dag@[i]).block is State
                    && anchor_on_canonical(pow.dag@, pow.tip as int,
                        final(self).dag@[i].block->State_0.pow_anchor_hash@),
            forall|j: int|
                1 <= j < old(self).dag@.len()
                    && anchored_path_ok(old(self).dag@, pow.dag@, pow.tip as int, j)
                    ==> has_hash(final(self).dag@, #[trigger] node_hash(old(self).dag@, j)),
    {
        let mut fresh = Chain::new(ChainKind::State, self.horizon);
        proof {
            crate::block::lemma_genesis_blk_eq(fresh.dag@[0].block, self.dag@[0].block);
            crate::block::lemma_blk_eq_same(fresh.dag@[0].block, self.dag@[0].block);
        }
        let n = self.dag.len();
        let mut i: usize = 1;
        while i < n
            invariant
                self.wf(),
                self.kind is State,
                pow.wf(),
                pow.kind is Pow,
                fresh.wf(),
                fresh.kind is State,
                fresh.horizon == self.horizon,
                1 <= i <= n,
                n == self.dag@.len(),
                forall|x: int| #![trigger fresh.dag@[x]]
                    1 <= x < fresh.dag@.len() ==> exists|j: int|
                        1 <= j < i as int
                            && blk_eq(fresh.dag@[x].block, #[trigger] self.dag@[j].block),
                forall|x: int| 1 <= x < fresh.dag@.len()
                    ==> (#[trigger] fresh.dag@[x]).block is State
                        && anchor_on_canonical(pow.dag@, pow.tip as int,
                            fresh.dag@[x].block->State_0.pow_anchor_hash@),
                forall|j: int| #![trigger node_hash(self.dag@, j)]
                    0 <= j < i as int
                        && (j == 0 || anchored_path_ok(self.dag@, pow.dag@, pow.tip as int, j))
                        ==> exists|x: int| #![trigger node_hash(fresh.dag@, x)]
                            0 <= x < fresh.dag@.len()
                                && node_hash(fresh.dag@, x) == node_hash(self.dag@, j)
                                && blk_eq(fresh.dag@[x].block, self.dag@[j].block)
                                && replay_to(fresh.dag@, x) == replay_to(self.dag@, j),
            decreases n - i,
        {
            let ghost s_old = self.dag@;
            let ghost fpre = fresh.dag@;
            let ghost ptip = pow.tip as int;
            match self.dag.fetch(i) {
                Block::State(sb) => {
                    let dup = sb.duplicate();
                    proof {
                        crate::block::lemma_st_eq_same_ser(dup, *sb);
                        crate::block::lemma_blk_eq_same(Block::State(dup), s_old[i as int].block);
                        if anchored_path_ok(s_old, pow.dag@, ptip, i as int) {
                            // the whole acceptance pipeline passes
                            assert(wf_at(s_old, i as int));
                            let p = s_old[i as int].parent->Some_0 as int;
                            assert(node_hash(s_old, p) == node_hash(s_old, p));
                            let xp = choose|x: int| #![trigger node_hash(fpre, x)]
                                0 <= x < fpre.len()
                                    && node_hash(fpre, x) == node_hash(s_old, p)
                                    && blk_eq(fpre[x].block, s_old[p].block)
                                    && replay_to(fpre, x) == replay_to(s_old, p);
                            crate::block::lemma_blk_eq_same(fpre[xp].block, s_old[p].block);
                            assert(opt_hash_seq(opt_digest_view(dup.hash))
                                == node_hash(s_old, i as int));
                            assert forall|x: int| 0 <= x < fpre.len()
                                implies node_hash(fpre, x) != node_hash(s_old, i as int) by {
                                assert(fresh.dag@[x] == fpre[x]);
                                assert(self.dag@[i as int] == s_old[i as int]);
                                if x == 0 {
                                    assert(blk_hash_ok(fresh.dag@[0].block));
                                    assert(blk_hash_ok(self.dag@[0].block));
                                    assert(blk_is_pow(fresh.dag@[0].block) == (fresh.kind is Pow));
                                    assert(blk_is_pow(self.dag@[0].block) == (self.kind is Pow));
                                    crate::block::lemma_genesis_blk_eq(fpre[0].block,
                                        s_old[0].block);
                                    crate::block::lemma_blk_eq_same(fpre[0].block, s_old[0].block);
                                    assert(node_hash(fpre, 0) == node_hash(s_old, 0));
                                    assert(node_hash(s_old, 0) != node_hash(s_old, i as int));
                                } else {
                                    assert(1 <= x < fresh.dag@.len());
                                    let j = choose|j: int|
                                        1 <= j < i as int
                                            && blk_eq(fresh.dag@[x].block, #[trigger] s_old[j].block);
                                    crate::block::lemma_blk_eq_same(fpre[x].block, s_old[j].block);
                                    assert(node_hash(s_old, j) != node_hash(s_old, i as int));
                                }
                            }
                            assert(!has_hash(fpre, opt_hash_seq(opt_digest_view(dup.hash))));
                            assert(opt_digest_view(dup.parent_hash)
                                == Option::Some(node_hash(s_old, p)));
                            assert(has_hash(fpre, opt_hash_seq(opt_digest_view(dup.parent_hash))));
                            assert forall|x: int|
                                0 <= x < fpre.len()
                                    && node_hash(fpre, x)
                                        == opt_hash_seq(opt_digest_view(dup.parent_hash))
                                implies !(dup.height as int != node_height(fpre, x) as int + 1) by {
                                if x != xp {
                                    assert(node_hash(fpre, x) != node_hash(fpre, xp));
                                }
                            }
                            let i0 = choose|i0: int|
                                0 <= i0 < fpre.len()
                                    && node_hash(fpre, i0)
                                        == opt_hash_seq(opt_digest_view(dup.parent_hash));
                            if i0 != xp {
                                assert(node_hash(fpre, i0) == node_hash(fpre, xp));
                                assert(false);
                            }
                            crate::consensus::lemma_payload_congr(Block::State(dup),
                                s_old[i as int].block);
                            assert(applied_ok_at(s_old, i as int));
                            assert(apply_spec(replay_to(fpre, xp), Block::State(dup))
                                == Result::Ok::<Seq<u8>, RejectReason>(replay_to(s_old, i as int)));
                            assert(st_err_of(fpre, pow.dag@, ptip, dup) is None);
                        }
                    }
                    let res = fresh.append_state(dup, pow);
                    proof {
                        match res {
                            Result::Ok(_) => {
                                let f1 = fresh.dag@;
                                let nd = f1[fpre.len() as int];
                                assert(f1 =~= fpre.push(nd));
                                assert forall|x: int| 0 <= x < fpre.len()
                                    implies replay_to(f1, x) == replay_to(fpre, x)
                                        && node_hash(f1, x) == node_hash(fpre, x) by {
                                    lemma_replay_push(fpre, nd, x);
                                }
                                assert forall|x: int| #![trigger fresh.dag@[x]]
                                    1 <= x < f1.len() implies exists|j: int|
                                        1 <= j < i as int + 1
                                            && blk_eq(f1[x].block, #[trigger] s_old[j].block) by {
                                    if x < fpre.len() {
                                        assert(f1[x] == fpre[x]);
                                        let j = choose|j: int|
                                            1 <= j < i as int
                                                && blk_eq(fpre[x].block, #[trigger] s_old[j].block);
                                        assert(blk_eq(f1[x].block, s_old[j].block));
                                    } else {
                                        assert(f1[x].block == Block::State(dup));
                                        assert(blk_eq(f1[x].block, s_old[i as int].block));
                                    }
                                }
                                assert forall|x: int| 1 <= x < f1.len()
                                    implies (#[trigger] f1[x]).block is State
                                        && anchor_on_canonical(pow.dag@, ptip,
                                            f1[x].block->State_0.pow_anchor_hash@) by {
                                    if x < fpre.len() {
                                        assert(f1[x] == fpre[x]);
                                    } else {
                                        assert(f1[x].block == Block::State(dup));
                                        assert(st_err_of(fpre, pow.dag@, ptip, dup) is None);
                                        assert(dup.pow_anchor_hash@
                                            == s_old[i as int].block->State_0.pow_anchor_hash@);
                                    }
                                }
                                assert forall|j: int| #![trigger node_hash(s_old, j)]
                                    0 <= j < i as int + 1
                                        && (j == 0 || anchored_path_ok(s_old, pow.dag@, ptip, j))
                                        implies exists|x: int| #![trigger node_hash(f1, x)]
                                            0 <= x < f1.len()
                                                && node_hash(f1, x) == node_hash(s_old, j)
                                                && blk_eq(f1[x].block, s_old[j].block)
                                                && replay_to(f1, x) == replay_to(s_old, j) by {
                                    if j < i as int {
                                        let x = choose|x: int| #![trigger node_hash(fpre, x)]
                                            0 <= x < fpre.len()
                                                && node_hash(fpre, x) == node_hash(s_old, j)
                                                && blk_eq(fpre[x].block, s_old[j].block)
                                                && replay_to(fpre, x) == replay_to(s_old, j);
                                        assert(f1[x] == fpre[x]);
                                        assert(node_hash(f1, x) == node_hash(s_old, j));
                                    } else {
                                        // the vertex just appended stands for s_old[j]
                                        let newx = fpre.len() as int;
                                        assert(f1[newx].block == Block::State(dup));
                                        assert(node_hash(f1, newx) == node_hash(s_old, i as int));
                                        assert(wf_at(f1, newx));
                                        let pp = f1[newx].parent->Some_0 as int;
                                        assert(wf_at(s_old, i as int));
                                        let p = s_old[i as int].parent->Some_0 as int;
                                        let xp = choose|x: int| #![trigger node_hash(fpre, x)]
                                            0 <= x < fpre.len()
                                                && node_hash(fpre, x) == node_hash(s_old, p)
                                                && blk_eq(fpre[x].block, s_old[p].block)
                                                && replay_to(fpre, x) == replay_to(s_old, p);
                                        assert(node_hash(f1, pp)
                                            == opt_hash_seq(blk_parent_view(f1[newx].block)));
                                        assert(blk_parent_view(f1[newx].block)
                                            == Option::Some(node_hash(s_old, p)));
                                        if pp != xp {
                                            assert(node_hash(f1, pp) == node_hash(f1, xp));
                                            assert(false);
                                        }
                                        assert(applied_ok_at(f1, newx));
                                        crate::consensus::lemma_payload_congr(Block::State(dup),
                                            s_old[i as int].block);
                                        assert(applied_ok_at(s_old, i as int));
                                        assert(apply_spec(replay_to(f1, pp), f1[newx].block)
                                            == Result::Ok::<Seq<u8>, RejectReason>(
                                                replay_to(s_old, i as int)));
                                        assert(replay_to(f1, newx) == replay_to(s_old, i as int));
                                        assert(blk_eq(f1[newx].block, s_old[i as int].block));
                                    }
                                }
                            }
                            Result::Err(e) => {
                                if anchored_path_ok(s_old, pow.dag@, ptip, i as int) {
                                    assert(st_err_of(fpre, pow.dag@, ptip, dup) is None);
                                    assert(false);
                                }
                            }
                        }
                    }
                    let _ = res;
                }
                Block::Pow(_) => {
                    proof {
                        assert(blk_is_pow(self.dag@[i as int].block) == (self.kind is Pow));
                        assert(false);
                    }
                }
            }
            i = i + 1;
        }
        proof {
            assert forall|j: int|
                1 <= j < self.dag@.len()
                    && anchored_path_ok(self.dag@, pow.dag@, pow.tip as int, j)
                    implies has_hash(fresh.dag@, #[trigger] node_hash(self.dag@, j)) by {
                assert(node_hash(self.dag@, j) == node_hash(self.dag@, j));
                let x = choose|x: int| #![trigger node_hash(fresh.dag@, x)]
                    0 <= x < fresh.dag@.len()
                        && node_hash(fresh.dag@, x) == node_hash(self.dag@, j)
                        && blk_eq(fresh.dag@[x].block, self.dag@[j].block)
                        && replay_to(fresh.dag@, x) == replay_to(self.dag@, j);
                assert(0 <= x < fresh.dag@.len() && node_hash(fresh.dag@, x)
                    == node_hash(self.dag@, j));
            }
        }
        *self = fresh;
    }
}

/// Whether every vertex on the root path of `j`, the root excluded and `j`
/// itself included, is a state block whose anchor lies on the canonical
/// branch of the given PoW DAG: the condition under which revalidation keeps
/// a block.
pub open spec fn anchored_path_ok(s: Seq<Node>, pow: Seq<Node>, ptip: int, j: int) -> bool
    decreases j,
        when wf_nodes(s) && 0 <= j < s.len()
        via anchored_path_ok_dec
{
    if j == 0 {
        true
    } else {
        match s[j].parent {
            Option::Some(p) => (s[j].block is State
                && anchor_on_canonical(pow, ptip, s[j].block->State_0.pow_anchor_hash@))
                && anchored_path_ok(s, pow, ptip, p as int),
            Option::None => false,
        }
    }
}

#[via_fn]
proof fn anchored_path_ok_dec(s: Seq<Node>, pow: Seq<Node>, ptip: int, j: int) {
    if j != 0 {
        assert(wf_at(s, j));
    }
}

/// Determinism at the start: two freshly initialized chains of one kind are
/// indistinguishable at the view level — same genesis block views, same
/// genesis digest, same consensus-state commitment. Together with the replay
/// congruence this makes whole runs over the same block views agree.
pub proof fn lemma_fresh_chains_agree(a: Chain, b: Chain)
    requires
        a.wf(),
        b.wf(),
        a.kind == b.kind,
        a.dag@.len() == 1,
        b.dag@.len() == 1,
    ensures
        blk_eq(a.dag@[0].block, b.dag@[0].block),
        node_hash(a.dag@, 0) == node_hash(b.dag@, 0),
        a.tip == 0 && b.tip == 0,
        a.state.root@ == b.state.root@,
{
    crate::block::lemma_genesis_blk_eq(a.dag@[0].block, b.dag@[0].block);
    crate::block::lemma_blk_eq_same(a.dag@[0].block, b.dag@[0].block);
}

/// Fork choice: in every well-formed chain the canonical tip is the tip of
/// greatest height, ties broken by smallest digest, over all tips of the
/// DAG.
pub proof fn lemma_fork_choice(c: Chain)
    requires
        c.wf(),
    ensures
        is_canonical(c.dag@, c.tip as int),
{
}

/// Reorg completeness, the state half: applying an adopted segment's blocks
/// in order on top of the common ancestor's state reproduces the new tip's
/// state, one height step at a time.
pub proof fn lemma_adopted_replays(s: Seq<Node>, t: int, h: int)
    requires
        wf_nodes(s),
        applies_ok(s),
        0 <= t < s.len(),
        0 <= h < node_height(s, t),
    ensures
        apply_spec(replay_to(s, ancestor_at(s, t, h)), s[ancestor_at(s, t, h + 1)].block)
            == Result::Ok::<Seq<u8>, RejectReason>(replay_to(s, ancestor_at(s, t, h + 1))),
{
    crate::dag::lemma_anc_step(s, t, h);
    lemma_anc_basic(s, t, h + 1);
    let a1 = ancestor_at(s, t, h + 1);
    assert(wf_at(s, 0));
    assert(a1 != 0);
    assert(applied_ok_at(s, a1));
}

/// The digests of the branch segment of `t` strictly above height `hl`,
/// ordered by increasing height.
pub open spec fn seg_desc(s: Seq<Node>, t: int, hl: int, ds: Seq<Digest>) -> bool {
    &&& ds.len() == node_height(s, t) - hl
    &&& forall|k: int| 0 <= k < ds.len()
        ==> (#[trigger] ds[k])@ == node_hash(s, ancestor_at(s, t, hl + 1 + k))
}

/// What an emitted reorganization means: `hl` is the height of the lowest
/// common ancestor of the old and new canonical tips; the two segments are
/// the disjoint branch suffixes above it.
pub open spec fn reorg_desc(s: Seq<Node>, old_t: int, new_t: int, hl: int, rg: Reorg) -> bool {
    &&& 0 <= hl <= node_height(s, old_t)
    &&& hl <= node_height(s, new_t)
    &&& ancestor_at(s, old_t, hl) == ancestor_at(s, new_t, hl)
    &&& forall|g: int|
        hl < g <= node_height(s, old_t) && g <= node_height(s, new_t)
            ==> ancestor_at(s, old_t, g) != ancestor_at(s, new_t, g)
    &&& seg_desc(s, old_t, hl, rg.orphaned@)
    &&& seg_desc(s, new_t, hl, rg.adopted@)
}

/// If the new vertex extends a vertex other than the old canonical tip and
/// the canonical tip changes, the new vertex is the new canonical tip.
proof fn lemma_new_canonical(s: Seq<Node>, nd: Node, old_tip: int, c: int)
    requires
        wf_nodes(s),
        wf_nodes(s.push(nd)),
        (nd.parent matches Option::Some(p) && (p as int) < s.len()),
        is_canonical(s, old_tip),
        is_canonical(s.push(nd), c),
        node_height(s.push(nd), s.len() as int) as int
            == node_height(s, nd.parent->Some_0 as int) as int + 1,
    ensures
        c == old_tip || c == s.len(),
{
    let s2 = s.push(nd);
    let p = nd.parent->Some_0 as int;
    let idx = s.len() as int;
    lemma_push_effects(s, nd);
    if c != old_tip && c != idx {
        // c is an old tip other than the old canonical tip and p
        assert(is_tip(s, c) && c != p);
        assert(beats(s, old_tip, c));
        if p != old_tip {
            // the old canonical tip is still a tip: c must beat it and lose
            assert(is_tip(s2, old_tip));
            assert(beats(s2, c, old_tip));
            assert(node_hash(s2, c) == node_hash(s, c));
            assert(node_hash(s2, old_tip) == node_hash(s, old_tip));
            assert(beats(s, c, old_tip));
            crate::byteops::lemma_lex_trans(node_hash(s, c), node_hash(s, old_tip), node_hash(s, c));
            crate::byteops::lemma_lex_irrefl(node_hash(s, c));
            assert(false);
        } else {
            // the new vertex is a tip above the old canonical tip
            assert(is_tip(s2, idx));
            assert(beats(s2, c, idx));
            assert(node_height(s, old_tip) >= node_height(s, c));
            assert(node_height(s2, idx) as int == node_height(s, old_tip) as int + 1);
            assert(false);
        }
    }
}

/// A vertex appended on top of the canonical tip becomes the canonical tip.
proof fn lemma_extension_canonical(s: Seq<Node>, nd: Node, old_tip: int)
    requires
        wf_nodes(s),
        wf_nodes(s.push(nd)),
        (nd.parent matches Option::Some(p) && p as int == old_tip),
        old_tip < s.len(),
        is_canonical(s, old_tip),
        node_height(s.push(nd), s.len() as int) as int == node_height(s, old_tip) as int + 1,
    ensures
        is_canonical(s.push(nd), s.len() as int),
{
    let s2 = s.push(nd);
    let idx = s.len() as int;
    lemma_push_effects(s, nd);
    assert(is_tip(s2, idx));
    assert forall|t: int| 0 <= t < s2.len() && #[trigger] is_tip(s2, t) && t != idx
        implies beats(s2, idx, t) by {
        assert(is_tip(s, t) && t != old_tip);
        assert(beats(s, old_tip, t));
        assert(node_height(s2, t) == node_height(s, t));
        assert(node_height(s, t) <= node_height(s, old_tip));
    }
}

} // verus!
