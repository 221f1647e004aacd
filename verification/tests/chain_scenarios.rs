use purple_core::addr::Addr;
use purple_core::block::{encode_txs, PowBlock, StateBlock};
use purple_core::chain::{Chain, ChainErr, ChainKind};
use purple_core::consensus::RejectReason;
use purple_core::digest::{BlakeDbHasher, Digest};
use purple_core::keys::derive_public_key;

fn signed_block(parent: &Digest, height: u64, seed: u8) -> PowBlock {
    let sk = vec![seed; 32];
    let pk = derive_public_key(&sk);
    let mut b = PowBlock::new(
        Some(parent.duplicate()),
        vec![seed; 32],
        Addr { ip0: 10, ip1: 0, ip2: 0, ip3: seed, port: 44034 },
        height,
        vec![seed],
        pk,
    );
    b.sign_miner(&sk);
    b.compute_hash();
    b
}

fn block_digest(b: &PowBlock) -> Digest {
    b.block_hash().expect("hash computed")
}

/// A competing block at `height` whose digest orders as asked against `other`.
fn signed_block_ordered(parent: &Digest, height: u64, other: &Digest, smaller: bool) -> PowBlock {
    let mut seed: u8 = 100;
    loop {
        let b = signed_block(parent, height, seed);
        let d = block_digest(&b);
        if d.lex_before(other) == smaller && !d.equals(other) {
            return b;
        }
        seed = seed.wrapping_add(1);
    }
}

fn valid_state_block(parent_state_root: &Digest, parent: &Digest, anchor: &Digest, height: u64, txs: Vec<Vec<u8>>) -> StateBlock {
    let mut payload = parent_state_root.bytes.clone();
    payload.extend_from_slice(&encode_txs(&txs));
    let root = BlakeDbHasher::hash(payload.as_slice());
    let mut b = StateBlock::new(Some(parent.duplicate()), anchor.duplicate(), height, txs, root);
    b.compute_hash();
    b
}

#[test]
fn linear_growth_reaches_height_ten_without_reorgs() {
    let mut chain = Chain::new(ChainKind::Pow, 5);
    let mut parent = chain.canonical_tip_hash();
    let mut last = parent.duplicate();
    for h in 1u64..=10 {
        let b = signed_block(&parent, h, h as u8);
        last = block_digest(&b);
        let r = chain.append_pow(b).expect("valid extension accepted");
        assert!(r.is_none(), "no reorg events in linear growth");
        parent = last.duplicate();
        assert_eq!(chain.canonical_height(), h);
    }
    assert_eq!(chain.canonical_tip_hash().bytes, last.bytes);
    assert_eq!(chain.dag.label(chain.tip), 10);
}

#[test]
fn simple_fork_switches_to_smaller_digest() {
    let mut chain = Chain::new(ChainKind::Pow, 5);
    let g = chain.canonical_tip_hash();
    let a1 = signed_block(&g, 1, 1);
    let a1h = block_digest(&a1);
    chain.append_pow(a1).expect("a1 accepted");
    let a2 = signed_block(&a1h, 2, 2);
    let a2h = block_digest(&a2);
    chain.append_pow(a2).expect("a2 accepted");
    // a competitor at the same height with a lexicographically smaller digest
    let b2 = signed_block_ordered(&a1h, 2, &a2h, true);
    let b2h = block_digest(&b2);
    let reorg = chain.append_pow(b2).expect("b2 accepted").expect("tie-break reorganizes");
    assert_eq!(chain.canonical_tip_hash().bytes, b2h.bytes);
    assert_eq!(reorg.orphaned.len(), 1);
    assert_eq!(reorg.orphaned[0].bytes, a2h.bytes);
    assert_eq!(reorg.adopted.len(), 1);
    assert_eq!(reorg.adopted[0].bytes, b2h.bytes);
}

#[test]
fn deeper_branch_wins_with_full_segments() {
    let mut chain = Chain::new(ChainKind::Pow, 5);
    let g = chain.canonical_tip_hash();
    let a1 = signed_block(&g, 1, 1);
    let a1h = block_digest(&a1);
    chain.append_pow(a1).expect("a1 accepted");
    // A branch up to height 5
    let mut a_hashes: Vec<Digest> = Vec::new();
    let mut parent = a1h.duplicate();
    for h in 2u64..=5 {
        let b = signed_block(&parent, h, 10 + h as u8);
        parent = block_digest(&b);
        a_hashes.push(parent.duplicate());
        chain.append_pow(b).expect("a branch accepted");
    }
    assert_eq!(chain.canonical_height(), 5);
    let a5 = chain.canonical_tip_hash();
    // B branch from a1: keep it losing ties until it overtakes at height 6
    let mut b_hashes: Vec<Digest> = Vec::new();
    let mut parent = a1h.duplicate();
    for h in 2u64..=5 {
        let b = signed_block_ordered(&parent, h, &a5, false);
        parent = block_digest(&b);
        b_hashes.push(parent.duplicate());
        chain.append_pow(b).expect("b branch accepted");
        assert_eq!(chain.canonical_tip_hash().bytes, a5.bytes, "A stays canonical up to a tie");
    }
    let b6 = signed_block(&parent, 6, 99);
    let b6h = block_digest(&b6);
    b_hashes.push(b6h.duplicate());
    let reorg = chain.append_pow(b6).expect("b6 accepted").expect("deeper branch reorganizes");
    assert_eq!(chain.canonical_tip_hash().bytes, b6h.bytes);
    assert_eq!(chain.canonical_height(), 6);
    let orphaned: Vec<Vec<u8>> = reorg.orphaned.iter().map(|d| d.bytes.clone()).collect();
    let expected_orphaned: Vec<Vec<u8>> = a_hashes.iter().map(|d| d.bytes.clone()).collect();
    assert_eq!(orphaned, expected_orphaned, "orphaned = A2..A5 by increasing height");
    let adopted: Vec<Vec<u8>> = reorg.adopted.iter().map(|d| d.bytes.clone()).collect();
    let expected_adopted: Vec<Vec<u8>> = b_hashes.iter().map(|d| d.bytes.clone()).collect();
    assert_eq!(adopted, expected_adopted, "adopted = B2..B6 by increasing height");
}

#[test]
fn orphan_block_is_rejected_with_its_parent() {
    let mut chain = Chain::new(ChainKind::Pow, 5);
    let unknown = Digest::from_bytes(vec![0xAA; 32]);
    let b = signed_block(&unknown, 3, 7);
    match chain.append_pow(b) {
        Err(ChainErr::OrphanBlock(d)) => assert_eq!(d.bytes, vec![0xAA; 32]),
        _ => panic!("expected an orphan rejection"),
    }
    assert_eq!(chain.canonical_height(), 0, "failed appends are no-ops");
    // the orphan triggers a block-range request above the genesis digest
    let mut sender = purple_core::protocol::RequestBlocksSender::new();
    let packet = sender
        .send(chain.canonical_tip_hash(), 512)
        .expect("idle sender sends");
    assert_eq!(packet.from_hash.bytes, chain.canonical_tip_hash().bytes);
    assert_eq!(packet.max_count, 512);
}

#[test]
fn append_pipeline_rejections() {
    let mut chain = Chain::new(ChainKind::Pow, 5);
    let g = chain.canonical_tip_hash();
    // missing digest
    let sk = vec![1u8; 32];
    let pk = derive_public_key(&sk);
    let mut b = PowBlock::new(
        Some(g.duplicate()),
        vec![1u8; 32],
        Addr { ip0: 0, ip1: 0, ip2: 0, ip3: 0, port: 0 },
        1,
        vec![],
        pk,
    );
    b.sign_miner(&sk);
    assert!(matches!(chain.append_pow(b.duplicate()), Err(ChainErr::MissingHash)));
    // tampered digest
    let mut tampered = b.duplicate();
    tampered.hash = Some(Digest::from_bytes(vec![0u8; 32]));
    assert!(matches!(chain.append_pow(tampered), Err(ChainErr::HashMismatch)));
    // missing signature
    let mut unsigned = b.duplicate();
    unsigned.signature = None;
    unsigned.compute_hash();
    assert!(matches!(chain.append_pow(unsigned), Err(ChainErr::MissingSignature)));
    // forged signature
    let mut forged = b.duplicate();
    forged.miner_node_id = vec![0u8; 32];
    forged.compute_hash();
    assert!(matches!(chain.append_pow(forged), Err(ChainErr::BadSignature)));
    // malformed field sizes
    let mut malformed = b.duplicate();
    malformed.miner_address = vec![1u8; 3];
    assert!(matches!(chain.append_pow(malformed), Err(ChainErr::MalformedBlock)));
    // a genuine block, twice
    b.compute_hash();
    chain.append_pow(b.duplicate()).expect("valid block accepted");
    assert!(matches!(chain.append_pow(b.duplicate()), Err(ChainErr::DuplicateBlock)));
    // wrong height on a known parent
    let wrong = signed_block(&g, 5, 9);
    assert!(matches!(chain.append_pow(wrong), Err(ChainErr::InvalidHeight)));
    // a non-genesis block with no parent digest at all
    let sk2 = vec![4u8; 32];
    let pk2 = derive_public_key(&sk2);
    let mut parentless = PowBlock::new(
        None,
        vec![4u8; 32],
        Addr { ip0: 10, ip1: 0, ip2: 0, ip3: 4, port: 44034 },
        2,
        vec![4u8],
        pk2,
    );
    parentless.sign_miner(&sk2);
    parentless.compute_hash();
    assert!(matches!(chain.append_pow(parentless), Err(ChainErr::MissingParent)));
}

#[test]
fn state_chain_applies_and_rejects() {
    let (mut pow, mut state) = purple_core::testset::init_test_chains();
    // anchor the state block to a real PoW block on the canonical branch
    let g = pow.canonical_tip_hash();
    let a1 = signed_block(&g, 1, 1);
    let a1h = block_digest(&a1);
    pow.append_pow(a1).expect("pow block accepted");
    let sg = state.canonical_tip_hash();
    let root0 = state.canonical_root();
    let s1 = valid_state_block(&root0, &sg, &a1h, 1, vec![vec![1u8, 2u8]]);
    let s1h = s1.block_hash().unwrap();
    state.append_state(s1, &pow).expect("anchored state block accepted");
    assert_eq!(state.canonical_height(), 1);
    assert_eq!(state.canonical_tip_hash().bytes, s1h.bytes);
    // an empty transaction is rejected
    let root1 = state.canonical_root();
    let bad_tx = valid_state_block(&root1, &s1h, &a1h, 2, vec![vec![]]);
    assert!(matches!(
        state.append_state(bad_tx, &pow),
        Err(ChainErr::StateRejected(RejectReason::BadTransaction))
    ));
    // a wrong root commitment is rejected
    let mut bad_root = valid_state_block(&root1, &s1h, &a1h, 2, vec![vec![9u8]]);
    bad_root.root_hash = Digest::from_bytes(vec![0u8; 32]);
    bad_root.compute_hash();
    assert!(matches!(
        state.append_state(bad_root, &pow),
        Err(ChainErr::StateRejected(RejectReason::RootMismatch))
    ));
    // an anchor that is not on the canonical PoW branch is rejected
    let stray = Digest::from_bytes(vec![0x55; 32]);
    let bad_anchor = valid_state_block(&root1, &s1h, &stray, 2, vec![vec![9u8]]);
    assert!(matches!(
        state.append_state(bad_anchor, &pow),
        Err(ChainErr::StateRejected(RejectReason::AnchorOrphaned))
    ));
}

#[test]
fn anchor_loss_drops_state_block_on_revalidation() {
    let (mut pow, mut state) = purple_core::testset::init_test_chains();
    let g = pow.canonical_tip_hash();
    let a1 = signed_block(&g, 1, 1);
    let a1h = block_digest(&a1);
    pow.append_pow(a1).expect("a1 accepted");
    // a state block anchored to A1
    let sg = state.canonical_tip_hash();
    let root0 = state.canonical_root();
    let s1 = valid_state_block(&root0, &sg, &a1h, 1, vec![vec![1u8]]);
    let s1h = s1.block_hash().unwrap();
    state.append_state(s1, &pow).expect("anchored state block accepted");
    // a PoW reorg orphans A1
    let b1 = signed_block_ordered(&g, 1, &a1h, true);
    pow.append_pow(b1).expect("b1 accepted").expect("tie-break reorganizes");
    // revalidation drops the block whose anchor left the canonical branch
    state.revalidate(&pow);
    assert_eq!(state.canonical_height(), 0);
    assert!(state.fetch_by_hash(&s1h).is_none());
}

#[test]
fn revalidation_keeps_blocks_whose_anchors_survive() {
    let (mut pow, mut state) = purple_core::testset::init_test_chains();
    let pg = pow.canonical_tip_hash();
    let a1 = signed_block(&pg, 1, 1);
    let a1h = block_digest(&a1);
    pow.append_pow(a1).expect("a1 accepted");
    // S1 anchors to the PoW genesis (on every canonical branch), S2 to A1
    let sg = state.canonical_tip_hash();
    let root0 = state.canonical_root();
    let s1 = valid_state_block(&root0, &sg, &pg, 1, vec![vec![1u8]]);
    let s1h = s1.block_hash().unwrap();
    state.append_state(s1, &pow).expect("genesis-anchored block accepted");
    let root1 = state.canonical_root();
    let s2 = valid_state_block(&root1, &s1h, &a1h, 2, vec![vec![2u8]]);
    let s2h = s2.block_hash().unwrap();
    state.append_state(s2, &pow).expect("a1-anchored block accepted");
    assert_eq!(state.canonical_height(), 2);
    // a PoW reorg orphans A1; the genesis stays canonical
    let b1 = signed_block_ordered(&pg, 1, &a1h, true);
    pow.append_pow(b1).expect("b1 accepted").expect("tie-break reorganizes");
    state.revalidate(&pow);
    assert!(state.fetch_by_hash(&s1h).is_some(), "surviving anchor keeps its block");
    assert!(state.fetch_by_hash(&s2h).is_none(), "orphaned anchor drops its block");
    assert_eq!(state.canonical_height(), 1);
}

#[test]
fn two_chains_replaying_the_same_blocks_agree() {
    let mut c1 = Chain::new(ChainKind::Pow, 5);
    let mut c2 = Chain::new(ChainKind::Pow, 5);
    let mut parent = c1.canonical_tip_hash();
    for h in 1u64..=6 {
        let b = signed_block(&parent, h, 20 + h as u8);
        parent = block_digest(&b);
        let copy = b.duplicate();
        c1.append_pow(b).expect("accepted by the first chain");
        c2.append_pow(copy).expect("accepted by the second chain");
    }
    assert_eq!(c1.canonical_root().bytes, c2.canonical_root().bytes);
    assert_eq!(c1.canonical_tip_hash().bytes, c2.canonical_tip_hash().bytes);
}
