use purple_core::addr::Addr;
use purple_core::args::resolve_args;
use purple_core::block::{Block, PowBlock};
use purple_core::chain::{Chain, ChainKind};
use purple_core::digest::Digest;
use purple_core::keys::derive_public_key;
use purple_core::packets::{RequestBlocks, SendBlocks, SendStatus};
use purple_core::peer::{Listener, Peer};
use purple_core::protocol::{
    backoff_ms, validate_contiguous, NetworkErr, RequestBlocksReceiver, RequestBlocksSender,
    SenderState,
};
use purple_core::queue::{IngressQueue, PushOutcome};
use purple_core::store::{fetch_node_id, Store};
use purple_core::testset::{chain_test_set, TestSetErr};

fn mined_block(parent: &Digest, height: u64, seed: u8) -> PowBlock {
    let sk = vec![seed; 32];
    let pk = derive_public_key(&sk);
    let mut b = PowBlock::new(
        Some(parent.duplicate()),
        vec![seed; 32],
        Addr { ip0: 10, ip1: 1, ip2: 0, ip3: seed, port: 44034 },
        height,
        vec![seed],
        pk,
    );
    b.sign_miner(&sk);
    b.compute_hash();
    b
}

#[test]
fn ingress_queue_is_fifo_and_bounded() {
    let mut q = IngressQueue::new(2, false);
    let b1 = Block::Pow(mined_block(&Digest::from_bytes(vec![0u8; 32]), 1, 1));
    let b2 = Block::Pow(mined_block(&Digest::from_bytes(vec![0u8; 32]), 2, 2));
    let b3 = Block::Pow(mined_block(&Digest::from_bytes(vec![0u8; 32]), 3, 3));
    assert!(matches!(q.push(b1), PushOutcome::Enqueued));
    assert!(matches!(q.push(b2), PushOutcome::Enqueued));
    assert!(matches!(q.push(b3), PushOutcome::Full));
    let first = q.pop().expect("queue nonempty");
    match first {
        Block::Pow(p) => assert_eq!(p.height, 1),
        _ => panic!("expected the first pushed block"),
    }
    let second = q.pop().expect("queue nonempty");
    match second {
        Block::Pow(p) => assert_eq!(p.height, 2),
        _ => panic!("expected the second pushed block"),
    }
    assert!(q.pop().is_none());
}

#[test]
fn ingress_queue_drops_when_configured() {
    let mut q = IngressQueue::new(1, true);
    let b1 = Block::Pow(mined_block(&Digest::from_bytes(vec![0u8; 32]), 1, 1));
    let b2 = Block::Pow(mined_block(&Digest::from_bytes(vec![0u8; 32]), 2, 2));
    assert!(matches!(q.push(b1), PushOutcome::Enqueued));
    assert!(matches!(q.push(b2), PushOutcome::Dropped));
    assert_eq!(q.dropped, 1);
    assert_eq!(q.len(), 1);
}

#[test]
fn backoff_doubles_from_one_second_and_caps() {
    assert_eq!(backoff_ms(0), 1000);
    assert_eq!(backoff_ms(1), 2000);
    assert_eq!(backoff_ms(2), 4000);
    assert_eq!(backoff_ms(3), 8000);
    assert_eq!(backoff_ms(4), 16000);
    assert_eq!(backoff_ms(5), 30000);
    assert_eq!(backoff_ms(200), 30000);
}

#[test]
fn sender_retry_budget_is_five() {
    let mut s = RequestBlocksSender::new();
    for _ in 0..5 {
        s.on_timeout();
        assert!(s.retry().is_some());
    }
    s.on_timeout();
    assert!(s.retry().is_none());
}

#[test]
fn sender_rejects_noncontiguous_reply_and_peer_is_demerited() {
    let g = Digest::from_bytes(vec![0u8; 32]);
    let b0 = mined_block(&g, 1, 1);
    let mut b1 = mined_block(&b0.block_hash().unwrap(), 2, 2);
    // break the linkage
    b1.parent_hash = Some(Digest::from_bytes(vec![0x77; 32]));
    b1.compute_hash();
    let mut sender = RequestBlocksSender::new();
    sender.send(g.duplicate(), 16).expect("idle sender sends");
    let reply = SendBlocks { status: SendStatus::Granted, blocks: vec![b0, b1] };
    let r = sender.on_response(reply);
    assert!(matches!(r, Err(NetworkErr::MalformedPacket)));
    assert!(matches!(sender.state, SenderState::Rejected));
    let mut peer = Peer::new(None, Addr { ip0: 9, ip1: 9, ip2: 9, ip3: 9, port: 44034 });
    peer.demerit();
    assert_eq!(peer.score, -10);
    assert!(!peer.banned);
}

#[test]
fn peer_is_banned_at_minus_fifty() {
    let mut peer = Peer::new(None, Addr { ip0: 1, ip1: 2, ip2: 3, ip3: 4, port: 44034 });
    for _ in 0..4 {
        peer.demerit();
        assert!(!peer.banned);
    }
    peer.demerit();
    assert_eq!(peer.score, -50);
    assert!(peer.banned);
}

#[test]
fn receiver_serves_the_canonical_branch() {
    let mut chain = Chain::new(ChainKind::Pow, 5);
    let g = chain.canonical_tip_hash();
    let mut parent = g.duplicate();
    for h in 1u64..=5 {
        let b = mined_block(&parent, h, 30 + h as u8);
        parent = b.block_hash().unwrap();
        chain.append_pow(b).expect("extension accepted");
    }
    let mut rx = RequestBlocksReceiver::new();
    assert!(rx.can_receive());
    let packet = RequestBlocks { from_hash: g.duplicate(), max_count: 3 };
    let reply = rx.receive(&chain, &packet).expect("request in range");
    assert!(matches!(reply.status, SendStatus::Granted));
    assert_eq!(reply.blocks.len(), 3);
    assert!(validate_contiguous(&g, &reply.blocks));
    assert_eq!(reply.blocks[0].height, 1);
    assert_eq!(reply.blocks[2].height, 3);
    assert!(rx.done());
    // a second request in the same session is answered busy
    let again = rx.receive(&chain, &packet).expect("busy reply");
    assert!(matches!(again.status, SendStatus::Busy));
    rx.reset();
    assert!(rx.can_receive());
    // an unknown anchor is refused in place
    let unknown = RequestBlocks { from_hash: Digest::from_bytes(vec![0x42; 32]), max_count: 3 };
    let refused = rx.receive(&chain, &unknown).expect("well-formed request");
    assert!(matches!(refused.status, SendStatus::UnknownAnchor));
    // an oversized request is malformed
    let oversized = RequestBlocks { from_hash: g.duplicate(), max_count: 513 };
    assert!(matches!(rx.receive(&chain, &oversized), Err(NetworkErr::MalformedPacket)));
}

#[test]
fn catching_up_advances_the_tip_by_the_reply_length() {
    // the serving node is five blocks ahead
    let mut server = Chain::new(ChainKind::Pow, 5);
    let g = server.canonical_tip_hash();
    let mut parent = g.duplicate();
    for h in 1u64..=5 {
        let b = mined_block(&parent, h, 40 + h as u8);
        parent = b.block_hash().unwrap();
        server.append_pow(b).expect("extension accepted");
    }
    // the catching-up node requests everything above genesis
    let mut client = Chain::new(ChainKind::Pow, 5);
    let mut sender = RequestBlocksSender::new();
    let packet = sender.send(client.canonical_tip_hash(), 512).expect("idle sender sends");
    let mut rx = RequestBlocksReceiver::new();
    let reply = rx.receive(&server, &packet).expect("request served");
    assert!(matches!(reply.status, SendStatus::Granted));
    let n = reply.blocks.len();
    assert_eq!(n, 5);
    let blocks = sender.on_response(reply).expect("contiguous reply accepted");
    assert!(matches!(sender.state, SenderState::Done));
    client.append_pow_blocks(blocks).expect("contiguous extension accepted whole");
    assert_eq!(client.canonical_height(), n as u64);
    assert_eq!(client.canonical_tip_hash().bytes, server.canonical_tip_hash().bytes);
}

#[test]
fn listener_admission_follows_the_cap() {
    let mut l = Listener::new(2);
    assert!(l.on_connection());
    assert!(l.on_connection());
    assert!(!l.on_connection());
    l.on_disconnect();
    assert!(l.accepting);
    assert!(l.on_connection());
}

#[test]
fn argv_defaults_and_overrides() {
    let d = resolve_args(None, None, None);
    assert_eq!(d.network_name, b"purple".to_vec());
    assert_eq!(d.mempool_size, 150);
    assert_eq!(d.max_peers, 8);
    let c = resolve_args(Some(b"testnet".to_vec()), Some(42), Some(3));
    assert_eq!(c.network_name, b"testnet".to_vec());
    assert_eq!(c.mempool_size, 42);
    assert_eq!(c.max_peers, 3);
}

#[test]
fn node_identity_is_created_once_and_reread() {
    let mut db = Store::new();
    let id1 = fetch_node_id(&mut db);
    assert_eq!(id1.len(), 32);
    let id2 = fetch_node_id(&mut db);
    assert_eq!(id1, id2);
}

#[test]
fn store_batches_override_in_order() {
    let mut db = Store::new();
    db.put_batch(vec![(vec![1u8], vec![10u8]), (vec![2u8], vec![20u8])]);
    db.put_batch(vec![(vec![1u8], vec![11u8])]);
    assert_eq!(db.get(&vec![1u8]).unwrap(), vec![11u8]);
    assert_eq!(db.get(&vec![2u8]).unwrap(), vec![20u8]);
    assert!(db.get(&vec![3u8]).is_none());
}

#[test]
fn test_set_depth_below_five_is_rejected() {
    assert!(matches!(chain_test_set(4, 0, false, false), Err(TestSetErr::DepthTooSmall)));
    assert!(matches!(chain_test_set(0, 0, false, false), Err(TestSetErr::DepthTooSmall)));
}

#[test]
fn test_set_fork_rate_above_ten_is_rejected() {
    assert!(matches!(chain_test_set(5, 11, false, false), Err(TestSetErr::ForkRateOutOfRange)));
}

#[test]
fn test_set_generates_a_linear_chain() {
    let ts = chain_test_set(5, 0, false, false).expect("valid parameters accepted");
    assert_eq!(ts.pow_blocks.len(), 5);
    assert_eq!(ts.pow_canonical.height, 5);
    assert!(ts
        .pow_blocks
        .iter()
        .any(|b| b.parent_hash.as_ref().unwrap().bytes
            == PowBlock::genesis().block_hash().unwrap().bytes));
}

#[test]
fn heartbeat_starts_unsigned() {
    let hb = purple_core::heartbeat::Heartbeat::new(vec![1u8; 32], vec![2u8; 4], vec![vec![3u8]]);
    assert!(hb.signature.is_none());
    assert!(hb.hash.is_none());
    assert_eq!(hb.node_id.len(), 32);
}
