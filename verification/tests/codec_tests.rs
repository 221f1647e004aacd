use purple_core::addr::Addr;
use purple_core::block::{
    decode_pow, decode_state, encode_pow, encode_pow_with, encode_state, encode_state_with,
    encode_txs, PowBlock, StateBlock,
};
use purple_core::digest::{BlakeDbHasher, Digest};
use purple_core::keys::{derive_public_key, sign_message, verify_signature_bytes};
use purple_core::packets::{
    decode_connect, decode_frame, decode_request, decode_send_blocks, encode_connect,
    encode_frame, encode_request, encode_send_blocks, Connect, RequestBlocks, SendBlocks,
    SendStatus,
};

fn sample_pow_block() -> PowBlock {
    let sk = vec![7u8; 32];
    let pk = derive_public_key(&sk);
    let mut b = PowBlock::new(
        Some(Digest::from_bytes(vec![1u8; 32])),
        vec![2u8; 32],
        Addr { ip0: 127, ip1: 0, ip2: 0, ip3: 1, port: 44034 },
        9,
        vec![42u8, 43u8, 44u8],
        pk,
    );
    b.sign_miner(&sk);
    b.compute_hash();
    b
}

fn sample_state_block() -> StateBlock {
    let mut b = StateBlock::new(
        Some(Digest::from_bytes(vec![3u8; 32])),
        Digest::from_bytes(vec![4u8; 32]),
        5,
        vec![vec![1u8, 2u8], vec![3u8]],
        Digest::from_bytes(vec![5u8; 32]),
    );
    b.compute_hash();
    b
}

#[test]
fn pow_block_round_trip() {
    let b = sample_pow_block();
    let bytes = encode_pow(&b);
    let d = decode_pow(&bytes).expect("canonical encoding decodes");
    assert_eq!(d.parent_hash.as_ref().unwrap().bytes, b.parent_hash.as_ref().unwrap().bytes);
    assert_eq!(d.miner_address, b.miner_address);
    assert_eq!(d.miner_node_id, b.miner_node_id);
    assert_eq!(d.listen_address, b.listen_address);
    assert_eq!(d.height, b.height);
    assert_eq!(d.proof, b.proof);
    assert_eq!(d.signature.as_ref().unwrap(), b.signature.as_ref().unwrap());
    assert_eq!(d.hash.as_ref().unwrap().bytes, b.hash.as_ref().unwrap().bytes);
}

#[test]
fn pow_block_round_trip_without_options() {
    let b = PowBlock::new(
        None,
        vec![2u8; 32],
        Addr { ip0: 0, ip1: 0, ip2: 0, ip3: 0, port: 0 },
        0,
        Vec::new(),
        vec![9u8; 32],
    );
    let bytes = encode_pow(&b);
    let d = decode_pow(&bytes).expect("canonical encoding decodes");
    assert!(d.parent_hash.is_none());
    assert!(d.signature.is_none());
    assert!(d.hash.is_none());
    assert_eq!(d.height, 0);
}

#[test]
fn pow_decode_rejects_noncanonical() {
    let b = sample_pow_block();
    let mut bytes = encode_pow(&b);
    // truncated
    let mut cut = bytes.clone();
    cut.pop();
    assert!(decode_pow(&cut).is_none());
    // a parentless flag over a nonzero parent region
    bytes[0] = 6;
    assert!(decode_pow(&bytes).is_none());
}

#[test]
fn state_block_round_trip() {
    let b = sample_state_block();
    let bytes = encode_state(&b);
    let d = decode_state(&bytes).expect("canonical encoding decodes");
    assert_eq!(d.parent_hash.as_ref().unwrap().bytes, b.parent_hash.as_ref().unwrap().bytes);
    assert_eq!(d.pow_anchor_hash.bytes, b.pow_anchor_hash.bytes);
    assert_eq!(d.height, b.height);
    assert_eq!(d.root_hash.bytes, b.root_hash.bytes);
    assert_eq!(d.hash.as_ref().unwrap().bytes, b.hash.as_ref().unwrap().bytes);
    assert_eq!(d.transactions, b.transactions);
}

#[test]
fn state_block_round_trip_empty_txs() {
    let b = StateBlock::genesis();
    let bytes = encode_state(&b);
    let d = decode_state(&bytes).expect("canonical encoding decodes");
    assert_eq!(d.transactions.len(), 0);
    assert_eq!(d.height, 0);
    assert!(d.parent_hash.is_none());
}

#[test]
fn block_digest_commits_to_serialization() {
    // hash(serialize_without_hash(b)) == b.hash
    let b = sample_pow_block();
    let payload = encode_pow_with(&b, true, false);
    let expect = BlakeDbHasher::hash(payload.as_slice());
    assert_eq!(expect.bytes, b.hash.as_ref().unwrap().bytes);

    let s = sample_state_block();
    let payload = encode_state_with(&s, false);
    let expect = BlakeDbHasher::hash(payload.as_slice());
    assert_eq!(expect.bytes, s.hash.as_ref().unwrap().bytes);
}

#[test]
fn hasher_digests_are_not_the_input() {
    let input = vec![1u8, 2u8, 3u8];
    let d = BlakeDbHasher::hash(input.as_slice());
    assert_eq!(d.bytes.len(), 32);
    assert_ne!(d.bytes, input);
    let d2 = BlakeDbHasher::hash(&[1u8, 2u8, 4u8]);
    assert_ne!(d.bytes, d2.bytes);
    // deterministic
    let d3 = BlakeDbHasher::hash(input.as_slice());
    assert_eq!(d.bytes, d3.bytes);
}

#[test]
fn signatures_verify_and_reject_tampering() {
    let sk = vec![11u8; 32];
    let pk = derive_public_key(&sk);
    assert_eq!(pk.len(), 32);
    assert_ne!(pk, sk);
    let msg = vec![5u8, 6u8, 7u8];
    let sig = sign_message(&sk, &msg);
    assert_eq!(sig.len(), 64);
    assert!(verify_signature_bytes(&pk, &msg, &sig));
    let tampered = vec![5u8, 6u8, 8u8];
    assert!(!verify_signature_bytes(&pk, &tampered, &sig));
}

#[test]
fn pow_block_signature_methods() {
    let b = sample_pow_block();
    assert!(b.verify_signature());
    let mut forged = b.duplicate();
    forged.miner_node_id = vec![0u8; 32];
    assert!(!forged.verify_signature());
}

#[test]
fn frame_round_trip() {
    let payload = vec![9u8, 8u8, 7u8];
    let framed = encode_frame(0x20, &payload);
    let (tag, body) = decode_frame(&framed).expect("framed packet decodes");
    assert_eq!(tag, 0x20);
    assert_eq!(body, payload);
    let mut bad = framed.clone();
    bad.push(0);
    assert!(decode_frame(&bad).is_none());
}

#[test]
fn connect_packet_round_trip() {
    let c = Connect {
        node_id: vec![1u8; 32],
        network_name: b"purple".to_vec(),
        signature: vec![2u8; 64],
    };
    let bytes = encode_connect(&c);
    let d = decode_connect(&bytes).expect("connect payload decodes");
    assert_eq!(d.node_id, c.node_id);
    assert_eq!(d.network_name, c.network_name);
    assert_eq!(d.signature, c.signature);
    assert!(decode_connect(&vec![0u8; 10]).is_none());
}

#[test]
fn request_blocks_round_trip() {
    let p = RequestBlocks { from_hash: Digest::from_bytes(vec![7u8; 32]), max_count: 512 };
    let bytes = encode_request(&p);
    let d = decode_request(&bytes).expect("request payload decodes");
    assert_eq!(d.from_hash.bytes, p.from_hash.bytes);
    assert_eq!(d.max_count, 512);
}

#[test]
fn send_blocks_round_trip() {
    let b = sample_pow_block();
    let p = SendBlocks { status: SendStatus::Granted, blocks: vec![b.duplicate()] };
    let bytes = encode_send_blocks(&p).expect("reply encodes");
    let d = decode_send_blocks(&bytes).expect("reply decodes");
    assert!(matches!(d.status, SendStatus::Granted));
    assert_eq!(d.blocks.len(), 1);
    assert_eq!(d.blocks[0].hash.as_ref().unwrap().bytes, b.hash.as_ref().unwrap().bytes);
    assert_eq!(d.blocks[0].height, b.height);
}

#[test]
fn transaction_region_is_length_prefixed() {
    let txs = vec![vec![1u8, 2u8], vec![3u8]];
    let enc = encode_txs(&txs);
    assert_eq!(enc, vec![0u8, 2u8, 1u8, 2u8, 0u8, 1u8, 3u8]);
}
