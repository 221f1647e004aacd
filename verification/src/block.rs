//! Block types of the two chains and their canonical wire/storage form.
//!
//! A block's digest is computed from the serialization of all fields but the
//! cached digest itself; a PoW block's miner signature covers the
//! serialization without signature and digest. The decoder accepts exactly
//! the canonical encodings: decoding a serialized block yields the block
//! back, field for field.

use vstd::prelude::*;
use crate::addr::Addr;
use crate::byteops::{
    lemma_u16_be_round_trip, lemma_u64_be_round_trip, eq_bytes, copy_bytes, is_zero_range,
    push_bytes, push_u16_be, push_u64_be, read_u16_be, read_u64_be, sub_bytes, u16_be, u16_from_be,
    u64_be, u64_from_be, zero_bytes, zeros,
};
use crate::digest::{digest_of, BlakeDbHasher, Digest, DIGEST_LEN};
use crate::keys::{sig_of, sig_valid, pk_of, sign_message, verify_signature_bytes};

verus! {

/// A proof-of-work chain block: parent linkage, miner identity, height,
/// proof, miner signature and cached digest.
pub struct PowBlock {
    pub parent_hash: Option<Digest>,
    pub miner_address: Vec<u8>,
    pub miner_node_id: Vec<u8>,
    pub listen_address: Addr,
    pub height: u64,
    pub proof: Vec<u8>,
    pub signature: Option<Vec<u8>>,
    pub hash: Option<Digest>,
}

/// View of an optional digest.
pub open spec fn opt_digest_view(o: Option<Digest>) -> Option<Seq<u8>> {
    match o {
        Option::None => Option::None,
        Option::Some(d) => Option::Some(d@),
    }
}

/// View of an optional byte vector.
pub open spec fn opt_bytes_view(o: Option<Vec<u8>>) -> Option<Seq<u8>> {
    match o {
        Option::None => Option::None,
        Option::Some(v) => Option::Some(v@),
    }
}

/// An optional field's fixed-size region: its bytes when present, zeros when
/// absent.
pub open spec fn opt_or_zeros(o: Option<Seq<u8>>, n: nat) -> Seq<u8> {
    match o {
        Option::None => zeros(n),
        Option::Some(s) => s,
    }
}

/// The presence-flags byte of a PoW block encoding.
pub open spec fn flag3(p: bool, s: bool, h: bool) -> u8 {
    ((if p { 1int } else { 0int }) + (if s { 2int } else { 0int }) + (if h { 4int } else { 0int })) as u8
}

/// How the flag bits are read back.
pub proof fn lemma_flag3_bits(p: bool, s: bool, h: bool)
    ensures
        flag3(p, s, h) < 8,
        (flag3(p, s, h) % 2 == 1) == p,
        ((flag3(p, s, h) / 2) % 2 == 1) == s,
        (flag3(p, s, h) / 4 == 1) == h,
{
}

/// Field sizes of a well-formed PoW block.
pub open spec fn pow_wf(b: PowBlock) -> bool {
    &&& (b.parent_hash matches Option::Some(d) ==> d@.len() == 32)
    &&& b.miner_address@.len() == 32
    &&& b.miner_node_id@.len() == 32
    &&& (b.signature matches Option::Some(s) ==> s@.len() == 64)
    &&& (b.hash matches Option::Some(h) ==> h@.len() == 32)
    &&& b.proof@.len() <= 0xFFFF
}

/// Length of the fixed part of a PoW block encoding.
pub const POW_FIXED: usize = 209;

/// Canonical encoding of a PoW block, with the signature and digest regions
/// taken from the given options (so the same definition yields the storage
/// form, the digest payload and the signature payload).
pub open spec fn ser_pow_with(b: PowBlock, sig: Option<Seq<u8>>, hash: Option<Seq<u8>>) -> Seq<u8> {
    seq![flag3(b.parent_hash is Some, sig is Some, hash is Some)]
        + opt_or_zeros(opt_digest_view(b.parent_hash), 32)
        + b.miner_address@
        + b.miner_node_id@
        + seq![b.listen_address.ip0, b.listen_address.ip1, b.listen_address.ip2, b.listen_address.ip3]
        + u16_be(b.listen_address.port)
        + u64_be(b.height)
        + opt_or_zeros(sig, 64)
        + opt_or_zeros(hash, 32)
        + u16_be(b.proof@.len() as u16)
        + b.proof@
}

/// The full storage/wire form.
pub open spec fn ser_pow(b: PowBlock) -> Seq<u8> {
    ser_pow_with(b, opt_bytes_view(b.signature), opt_digest_view(b.hash))
}

/// The bytes the block digest commits to: everything but the digest itself.
pub open spec fn pow_hash_payload(b: PowBlock) -> Seq<u8> {
    ser_pow_with(b, opt_bytes_view(b.signature), Option::None)
}

/// The bytes the miner signature covers: everything but signature and digest.
pub open spec fn pow_sig_payload(b: PowBlock) -> Seq<u8> {
    ser_pow_with(b, Option::None, Option::None)
}

/// Whether the cached digest is present and correct.
pub open spec fn pow_hash_ok(b: PowBlock) -> bool {
    opt_digest_view(b.hash) == Option::Some(digest_of(pow_hash_payload(b)))
}

/// Whether the miner signature is present and verifies under the block's
/// miner node id.
pub open spec fn pow_sig_ok(b: PowBlock) -> bool {
    b.signature matches Option::Some(s) && sig_valid(b.miner_node_id@, pow_sig_payload(b), s@)
}

/// View-level equality of PoW blocks.
pub open spec fn pow_eq(a: PowBlock, b: PowBlock) -> bool {
    &&& opt_digest_view(a.parent_hash) == opt_digest_view(b.parent_hash)
    &&& a.miner_address@ == b.miner_address@
    &&& a.miner_node_id@ == b.miner_node_id@
    &&& a.listen_address == b.listen_address
    &&& a.height == b.height
    &&& a.proof@ == b.proof@
    &&& opt_bytes_view(a.signature) == opt_bytes_view(b.signature)
    &&& opt_digest_view(a.hash) == opt_digest_view(b.hash)
}

/// The layout of the encoding: total length and the byte region of each
/// field.
pub proof fn lemma_ser_pow_layout(b: PowBlock, sig: Option<Seq<u8>>, hash: Option<Seq<u8>>)
    requires
        pow_wf(b),
        sig matches Option::Some(s) ==> s.len() == 64,
        hash matches Option::Some(h) ==> h.len() == 32,
    ensures
        ser_pow_with(b, sig, hash).len() == POW_FIXED + b.proof@.len(),
        ser_pow_with(b, sig, hash)[0] == flag3(b.parent_hash is Some, sig is Some, hash is Some),
        ser_pow_with(b, sig, hash).subrange(1, 33) == opt_or_zeros(opt_digest_view(b.parent_hash), 32),
        ser_pow_with(b, sig, hash).subrange(33, 65) == b.miner_address@,
        ser_pow_with(b, sig, hash).subrange(65, 97) == b.miner_node_id@,
        ser_pow_with(b, sig, hash)[97] == b.listen_address.ip0,
        ser_pow_with(b, sig, hash)[98] == b.listen_address.ip1,
        ser_pow_with(b, sig, hash)[99] == b.listen_address.ip2,
        ser_pow_with(b, sig, hash)[100] == b.listen_address.ip3,
        ser_pow_with(b, sig, hash).subrange(101, 103) == u16_be(b.listen_address.port),
        ser_pow_with(b, sig, hash).subrange(103, 111) == u64_be(b.height),
        ser_pow_with(b, sig, hash).subrange(111, 175) == opt_or_zeros(sig, 64),
        ser_pow_with(b, sig, hash).subrange(175, 207) == opt_or_zeros(hash, 32),
        ser_pow_with(b, sig, hash).subrange(207, 209) == u16_be(b.proof@.len() as u16),
        ser_pow_with(b, sig, hash).subrange(209, POW_FIXED + b.proof@.len()) == b.proof@,
{
    let s = ser_pow_with(b, sig, hash);
    assert(opt_or_zeros(opt_digest_view(b.parent_hash), 32).len() == 32);
    assert(opt_or_zeros(sig, 64).len() == 64);
    assert(opt_or_zeros(hash, 32).len() == 32);
    assert(s.len() == POW_FIXED + b.proof@.len());
    assert(s.subrange(1, 33) =~= opt_or_zeros(opt_digest_view(b.parent_hash), 32));
    assert(s.subrange(33, 65) =~= b.miner_address@);
    assert(s.subrange(65, 97) =~= b.miner_node_id@);
    assert(s.subrange(101, 103) =~= u16_be(b.listen_address.port));
    assert(s.subrange(103, 111) =~= u64_be(b.height));
    assert(s.subrange(111, 175) =~= opt_or_zeros(sig, 64));
    assert(s.subrange(175, 207) =~= opt_or_zeros(hash, 32));
    assert(s.subrange(207, 209) =~= u16_be(b.proof@.len() as u16));
    assert(s.subrange(209, POW_FIXED + b.proof@.len()) =~= b.proof@);
}

/// Encodes a PoW block, optionally leaving out the signature and digest
/// regions (the digest and signature payloads).
pub fn encode_pow_with(b: &PowBlock, include_sig: bool, include_hash: bool) -> (r: Vec<u8>)
    requires
        pow_wf(*b),
    ensures
        r@ == ser_pow_with(
            *b,
            if include_sig { opt_bytes_view(b.signature) } else { Option::None },
            if include_hash { opt_digest_view(b.hash) } else { Option::None },
        ),
{
    let ghost gsig: Option<Seq<u8>> = if include_sig { opt_bytes_view(b.signature) } else { Option::None };
    let ghost ghash: Option<Seq<u8>> = if include_hash { opt_digest_view(b.hash) } else { Option::None };
    let mut out: Vec<u8> = Vec::new();
    let mut f: u8 = 0;
    if b.parent_hash.is_some() {
        f = f + 1;
    }
    if include_sig && b.signature.is_some() {
        f = f + 2;
    }
    if include_hash && b.hash.is_some() {
        f = f + 4;
    }
    assert(f == flag3(b.parent_hash is Some, gsig is Some, ghash is Some));
    out.push(f);
    match &b.parent_hash {
        Option::Some(d) => push_bytes(&mut out, &d.bytes),
        Option::None => {
            let z = zero_bytes(32);
            push_bytes(&mut out, &z);
        }
    }
    push_bytes(&mut out, &b.miner_address);
    push_bytes(&mut out, &b.miner_node_id);
    out.push(b.listen_address.ip0);
    out.push(b.listen_address.ip1);
    out.push(b.listen_address.ip2);
    out.push(b.listen_address.ip3);
    push_u16_be(&mut out, b.listen_address.port);
    push_u64_be(&mut out, b.height);
    let mut sig_done: bool = false;
    if include_sig {
        match &b.signature {
            Option::Some(s) => {
                push_bytes(&mut out, s);
                sig_done = true;
            }
            Option::None => {}
        }
    }
    if !sig_done {
        let z = zero_bytes(64);
        push_bytes(&mut out, &z);
    }
    let mut hash_done: bool = false;
    if include_hash {
        match &b.hash {
            Option::Some(h) => {
                push_bytes(&mut out, &h.bytes);
                hash_done = true;
            }
            Option::None => {}
        }
    }
    if !hash_done {
        let z = zero_bytes(32);
        push_bytes(&mut out, &z);
    }
    push_u16_be(&mut out, b.proof.len() as u16);
    push_bytes(&mut out, &b.proof);
    proof {
        assert(out@ =~= ser_pow_with(*b, gsig, ghash));
    }
    out
}

/// The full storage/wire encoding of a PoW block.
pub fn encode_pow(b: &PowBlock) -> (r: Vec<u8>)
    requires
        pow_wf(*b),
    ensures
        r@ == ser_pow(*b),
{
    encode_pow_with(b, true, true)
}

/// Decodes a PoW block from its canonical encoding. Exactly the canonical
/// encodings of well-formed blocks are accepted, and decoding recovers the
/// encoded block field for field.
pub fn decode_pow(bytes: &Vec<u8>) -> (r: Option<PowBlock>)
    ensures
        r matches Option::Some(b) ==> pow_wf(b) && bytes@ == ser_pow(b),
        forall|b0: PowBlock|
            pow_wf(b0) && bytes@ == ser_pow(b0) ==> (r matches Option::Some(b) && pow_eq(b, b0)),
{
    let n: usize = bytes.len();
    if n < POW_FIXED {
        proof {
            assert forall|b0: PowBlock| pow_wf(b0) && bytes@ == ser_pow(b0) implies false by {
                lemma_ser_pow_layout(b0, opt_bytes_view(b0.signature), opt_digest_view(b0.hash));
            }
        }
        return Option::None;
    }
    let flags = bytes[0];
    if flags >= 8 {
        proof {
            assert forall|b0: PowBlock| pow_wf(b0) && bytes@ == ser_pow(b0) implies false by {
                lemma_ser_pow_layout(b0, opt_bytes_view(b0.signature), opt_digest_view(b0.hash));
                lemma_flag3_bits(b0.parent_hash is Some, b0.signature is Some, b0.hash is Some);
            }
        }
        return Option::None;
    }
    let pbit = flags % 2 == 1;
    let sbit = (flags / 2) % 2 == 1;
    let hbit = flags / 4 == 1;
    let plen = read_u16_be(bytes, POW_FIXED - 2) as usize;
    proof {
        assert forall|b0: PowBlock| pow_wf(b0) && bytes@ == ser_pow(b0) implies (
            n == POW_FIXED + b0.proof@.len()
            && pbit == (b0.parent_hash is Some)
            && sbit == (b0.signature is Some)
            && hbit == (b0.hash is Some)
            && plen == b0.proof@.len()
        ) by {
            lemma_ser_pow_layout(b0, opt_bytes_view(b0.signature), opt_digest_view(b0.hash));
            lemma_flag3_bits(b0.parent_hash is Some, b0.signature is Some, b0.hash is Some);
            lemma_u16_be_round_trip(b0.proof@.len() as u16);
        }
    }
    if n != POW_FIXED + plen {
        proof {
            assert forall|b0: PowBlock| pow_wf(b0) && bytes@ == ser_pow(b0) implies false by {
                lemma_ser_pow_layout(b0, opt_bytes_view(b0.signature), opt_digest_view(b0.hash));
                lemma_u16_be_round_trip(b0.proof@.len() as u16);
            }
        }
        return Option::None;
    }
    let parent: Option<Digest>;
    if pbit {
        parent = Option::Some(Digest::from_bytes(sub_bytes(bytes, 1, 33)));
    } else {
        if !is_zero_range(bytes, 1, 33) {
            proof {
                assert forall|b0: PowBlock| pow_wf(b0) && bytes@ == ser_pow(b0) implies false by {
                    lemma_ser_pow_layout(b0, opt_bytes_view(b0.signature), opt_digest_view(b0.hash));
                    lemma_flag3_bits(b0.parent_hash is Some, b0.signature is Some, b0.hash is Some);
                }
            }
            return Option::None;
        }
        parent = Option::None;
    }
    let miner_address = sub_bytes(bytes, 33, 65);
    let miner_node_id = sub_bytes(bytes, 65, 97);
    let listen_address = Addr {
        ip0: bytes[97],
        ip1: bytes[98],
        ip2: bytes[99],
        ip3: bytes[100],
        port: read_u16_be(bytes, 101),
    };
    let height = read_u64_be(bytes, 103);
    let signature: Option<Vec<u8>>;
    if sbit {
        signature = Option::Some(sub_bytes(bytes, 111, 175));
    } else {
        if !is_zero_range(bytes, 111, 175) {
            proof {
                assert forall|b0: PowBlock| pow_wf(b0) && bytes@ == ser_pow(b0) implies false by {
                    lemma_ser_pow_layout(b0, opt_bytes_view(b0.signature), opt_digest_view(b0.hash));
                    lemma_flag3_bits(b0.parent_hash is Some, b0.signature is Some, b0.hash is Some);
                }
            }
            return Option::None;
        }
        signature = Option::None;
    }
    let hash: Option<Digest>;
    if hbit {
        hash = Option::Some(Digest::from_bytes(sub_bytes(bytes, 175, 207)));
    } else {
        if !is_zero_range(bytes, 175, 207) {
            proof {
                assert forall|b0: PowBlock| pow_wf(b0) && bytes@ == ser_pow(b0) implies false by {
                    lemma_ser_pow_layout(b0, opt_bytes_view(b0.signature), opt_digest_view(b0.hash));
                    lemma_flag3_bits(b0.parent_hash is Some, b0.signature is Some, b0.hash is Some);
                }
            }
            return Option::None;
        }
        hash = Option::None;
    }
    let proof_field = sub_bytes(bytes, POW_FIXED, POW_FIXED + plen);
    let b = PowBlock {
        parent_hash: parent,
        miner_address,
        miner_node_id,
        listen_address,
        height,
        proof: proof_field,
        signature,
        hash,
    };
    proof {
        assert forall|b0: PowBlock| pow_wf(b0) && bytes@ == ser_pow(b0) implies pow_eq(b, b0) by {
            lemma_ser_pow_layout(b0, opt_bytes_view(b0.signature), opt_digest_view(b0.hash));
            lemma_flag3_bits(b0.parent_hash is Some, b0.signature is Some, b0.hash is Some);
            lemma_u16_be_round_trip(b0.listen_address.port);
            lemma_u64_be_round_trip(b0.height);
            assert(bytes@[97] == b0.listen_address.ip0);
            assert(bytes@[98] == b0.listen_address.ip1);
            assert(bytes@[99] == b0.listen_address.ip2);
            assert(bytes@[100] == b0.listen_address.ip3);
        }
    }
    let enc = encode_pow(&b);
    if !eq_bytes(&enc, bytes) {
        proof {
            assert forall|b0: PowBlock| pow_wf(b0) && bytes@ == ser_pow(b0) implies false by {
                assert(pow_eq(b, b0));
                assert(ser_pow(b) =~= ser_pow(b0));
            }
        }
        return Option::None;
    }
    Option::Some(b)
}

impl PowBlock {
    /// A candidate block as a miner assembles it: no signature, no digest yet.
    pub fn new(
        parent_hash: Option<Digest>,
        miner_address: Vec<u8>,
        listen_address: Addr,
        height: u64,
        proof: Vec<u8>,
        miner_node_id: Vec<u8>,
    ) -> (r: PowBlock)
        ensures
            r == (PowBlock {
                parent_hash,
                miner_address,
                miner_node_id,
                listen_address,
                height,
                proof,
                signature: Option::None,
                hash: Option::None,
            }),
    {
        PowBlock {
            parent_hash,
            miner_address,
            miner_node_id,
            listen_address,
            height,
            proof,
            signature: Option::None,
            hash: Option::None,
        }
    }

    /// The genesis block: parentless, height zero, all-zero identity, with
    /// its fixed digest computed from the canonical serialization.
    pub fn genesis() -> (r: PowBlock)
        ensures
            pow_wf(r),
            r.parent_hash is None,
            r.height == 0,
            r.miner_address@ == zeros(32),
            r.miner_node_id@ == zeros(32),
            r.listen_address == (Addr { ip0: 0, ip1: 0, ip2: 0, ip3: 0, port: 0 }),
            r.proof@.len() == 0,
            r.signature is None,
            pow_hash_ok(r),
    {
        let mut b = PowBlock {
            parent_hash: Option::None,
            miner_address: zero_bytes(32),
            miner_node_id: zero_bytes(32),
            listen_address: Addr { ip0: 0, ip1: 0, ip2: 0, ip3: 0, port: 0 },
            height: 0,
            proof: Vec::new(),
            signature: Option::None,
            hash: Option::None,
        };
        b.compute_hash();
        b
    }

    /// Computes and caches the block digest over the digest payload.
    pub fn compute_hash(&mut self)
        requires
            pow_wf(*old(self)),
        ensures
            pow_wf(*final(self)),
            pow_hash_ok(*final(self)),
            final(self).parent_hash == old(self).parent_hash,
            final(self).miner_address == old(self).miner_address,
            final(self).miner_node_id == old(self).miner_node_id,
            final(self).listen_address == old(self).listen_address,
            final(self).height == old(self).height,
            final(self).proof == old(self).proof,
            final(self).signature == old(self).signature,
            pow_hash_payload(*final(self)) == pow_hash_payload(*old(self)),
    {
        let payload = encode_pow_with(self, true, false);
        let d = BlakeDbHasher::hash(payload.as_slice());
        self.hash = Option::Some(d);
        proof {
            assert(pow_hash_payload(*self) =~= pow_hash_payload(*old(self)));
        }
    }

    /// Signs the signature payload with the miner's secret key.
    pub fn sign_miner(&mut self, sk: &Vec<u8>)
        requires
            pow_wf(*old(self)),
            sk@.len() == 32,
        ensures
            pow_wf(*final(self)),
            opt_bytes_view(final(self).signature)
                == Option::Some(sig_of(sk@, pow_sig_payload(*old(self)))),
            sig_valid(pk_of(sk@), pow_sig_payload(*final(self)), sig_of(sk@, pow_sig_payload(*old(self)))),
            final(self).parent_hash == old(self).parent_hash,
            final(self).miner_address == old(self).miner_address,
            final(self).miner_node_id == old(self).miner_node_id,
            final(self).listen_address == old(self).listen_address,
            final(self).height == old(self).height,
            final(self).proof == old(self).proof,
            final(self).hash == old(self).hash,
            pow_sig_payload(*final(self)) == pow_sig_payload(*old(self)),
    {
        let payload = encode_pow_with(self, false, false);
        let sig = sign_message(sk, &payload);
        self.signature = Option::Some(sig);
        proof {
            assert(pow_sig_payload(*self) =~= pow_sig_payload(*old(self)));
        }
    }

    /// Whether the cached signature verifies under the block's miner node id.
    pub fn verify_signature(&self) -> (r: bool)
        requires
            pow_wf(*self),
        ensures
            r == pow_sig_ok(*self),
    {
        match &self.signature {
            Option::None => false,
            Option::Some(s) => {
                let payload = encode_pow_with(self, false, false);
                verify_signature_bytes(&self.miner_node_id, &payload, s)
            }
        }
    }

    /// The cached block digest, if computed.
    pub fn block_hash(&self) -> (r: Option<Digest>)
        ensures
            opt_digest_view(r) == opt_digest_view(self.hash),
    {
        match &self.hash {
            Option::None => Option::None,
            Option::Some(d) => Option::Some(d.duplicate()),
        }
    }

    /// The parent digest, if any.
    pub fn parent_hash(&self) -> (r: Option<Digest>)
        ensures
            opt_digest_view(r) == opt_digest_view(self.parent_hash),
    {
        match &self.parent_hash {
            Option::None => Option::None,
            Option::Some(d) => Option::Some(d.duplicate()),
        }
    }

    /// The block height.
    pub fn height(&self) -> (r: u64)
        ensures
            r == self.height,
    {
        self.height
    }

    /// A fresh block with the same field views.
    pub fn duplicate(&self) -> (r: PowBlock)
        ensures
            pow_eq(r, *self),
            pow_wf(*self) ==> pow_wf(r),
    {
        PowBlock {
            parent_hash: match &self.parent_hash {
                Option::None => Option::None,
                Option::Some(d) => Option::Some(d.duplicate()),
            },
            miner_address: copy_bytes(&self.miner_address),
            miner_node_id: copy_bytes(&self.miner_node_id),
            listen_address: self.listen_address,
            height: self.height,
            proof: copy_bytes(&self.proof),
            signature: match &self.signature {
                Option::None => Option::None,
                Option::Some(s) => Option::Some(copy_bytes(s)),
            },
            hash: match &self.hash {
                Option::None => Option::None,
                Option::Some(d) => Option::Some(d.duplicate()),
            },
        }
    }
}

/// A state-chain block: parent linkage, the PoW block it anchors to, height,
/// an ordered sequence of opaque transactions, the committed post-state root
/// and the cached digest.
pub struct StateBlock {
    pub parent_hash: Option<Digest>,
    pub pow_anchor_hash: Digest,
    pub height: u64,
    pub transactions: Vec<Vec<u8>>,
    pub root_hash: Digest,
    pub hash: Option<Digest>,
}

/// The presence-flags byte of a state block encoding.
pub open spec fn flag2(p: bool, h: bool) -> u8 {
    ((if p { 1int } else { 0int }) + (if h { 2int } else { 0int })) as u8
}

/// How the flag bits are read back.
pub proof fn lemma_flag2_bits(p: bool, h: bool)
    ensures
        flag2(p, h) < 4,
        (flag2(p, h) % 2 == 1) == p,
        (flag2(p, h) / 2 == 1) == h,
{
}

/// Field sizes of a well-formed state block.
pub open spec fn st_wf(b: StateBlock) -> bool {
    &&& (b.parent_hash matches Option::Some(d) ==> d@.len() == 32)
    &&& b.pow_anchor_hash@.len() == 32
    &&& b.root_hash@.len() == 32
    &&& (b.hash matches Option::Some(h) ==> h@.len() == 32)
    &&& b.transactions@.len() <= 0xFFFF
    &&& forall|k: int| 0 <= k < b.transactions@.len() ==> #[trigger] b.transactions@[k]@.len() <= 0xFFFF
}

/// Length of the fixed part of a state block encoding.
pub const ST_FIXED: usize = 139;

/// Length-prefixed concatenation of the transactions.
pub open spec fn txs_enc(ts: Seq<Vec<u8>>) -> Seq<u8>
    decreases ts.len(),
{
    if ts.len() == 0 {
        Seq::empty()
    } else {
        u16_be(ts[0]@.len() as u16) + ts[0]@ + txs_enc(ts.drop_first())
    }
}

/// The transaction region splits at any index.
pub proof fn lemma_txs_enc_split(ts: Seq<Vec<u8>>, k: int)
    requires
        0 <= k <= ts.len(),
    ensures
        txs_enc(ts) == txs_enc(ts.take(k)) + txs_enc(ts.skip(k)),
    decreases k,
{
    if k == 0 {
        assert(ts.take(0).len() == 0);
        assert(ts.skip(0) =~= ts);
        assert(txs_enc(ts.take(0)) + txs_enc(ts.skip(0)) =~= txs_enc(ts));
    } else {
        lemma_txs_enc_split(ts.drop_first(), k - 1);
        assert(ts.take(k).len() == k);
        assert(ts.take(k)[0] == ts[0]);
        assert(ts.take(k).drop_first() =~= ts.drop_first().take(k - 1));
        assert(ts.skip(k) =~= ts.drop_first().skip(k - 1));
        assert(txs_enc(ts) =~= txs_enc(ts.take(k)) + txs_enc(ts.skip(k)));
    }
}

/// Appending one transaction appends its length prefix and bytes.
pub proof fn lemma_txs_enc_snoc(ts: Seq<Vec<u8>>, t: Vec<u8>)
    ensures
        txs_enc(ts.push(t)) == txs_enc(ts) + u16_be(t@.len() as u16) + t@,
    decreases ts.len(),
{
    let p = ts.push(t);
    if ts.len() == 0 {
        assert(p[0] == t);
        assert(p.drop_first() =~= Seq::<Vec<u8>>::empty());
        assert(txs_enc(p.drop_first()) == Seq::<u8>::empty());
        assert(txs_enc(p) == u16_be(t@.len() as u16) + t@ + Seq::<u8>::empty());
        assert(txs_enc(ts) == Seq::<u8>::empty());
        assert(txs_enc(p) =~= txs_enc(ts) + u16_be(t@.len() as u16) + t@);
    } else {
        lemma_txs_enc_snoc(ts.drop_first(), t);
        assert(p[0] == ts[0]);
        assert(p.len() == ts.len() + 1);
        assert(p.drop_first() =~= ts.drop_first().push(t));
        assert(txs_enc(p) == u16_be(ts[0]@.len() as u16) + ts[0]@ + txs_enc(p.drop_first()));
        assert(txs_enc(p.drop_first()) == txs_enc(ts.drop_first()) + u16_be(t@.len() as u16) + t@);
        assert(txs_enc(ts) == u16_be(ts[0]@.len() as u16) + ts[0]@ + txs_enc(ts.drop_first()));
        assert(txs_enc(p) =~= txs_enc(ts) + u16_be(t@.len() as u16) + t@);
    }
}

/// The transaction encoding depends on the item views alone.
pub proof fn lemma_txs_enc_congr(a: Seq<Vec<u8>>, b: Seq<Vec<u8>>)
    requires
        a.len() == b.len(),
        forall|k: int| 0 <= k < a.len() ==> #[trigger] a[k]@ == b[k]@,
    ensures
        txs_enc(a) == txs_enc(b),
    decreases a.len(),
{
    if a.len() > 0 {
        assert(forall|k: int| 0 <= k < a.drop_first().len()
            ==> #[trigger] a.drop_first()[k]@ == b.drop_first()[k]@);
        lemma_txs_enc_congr(a.drop_first(), b.drop_first());
    }
}

/// Canonical encoding of a state block, with the digest region taken from
/// the given option (storage form or digest payload).
pub open spec fn ser_state_with(b: StateBlock, hash: Option<Seq<u8>>) -> Seq<u8> {
    seq![flag2(b.parent_hash is Some, hash is Some)]
        + opt_or_zeros(opt_digest_view(b.parent_hash), 32)
        + b.pow_anchor_hash@
        + u64_be(b.height)
        + b.root_hash@
        + opt_or_zeros(hash, 32)
        + u16_be(b.transactions@.len() as u16)
        + txs_enc(b.transactions@)
}

/// The full storage/wire form of a state block.
pub open spec fn ser_state(b: StateBlock) -> Seq<u8> {
    ser_state_with(b, opt_digest_view(b.hash))
}

/// The bytes the state block digest commits to.
pub open spec fn st_hash_payload(b: StateBlock) -> Seq<u8> {
    ser_state_with(b, Option::None)
}

/// Whether the cached digest is present and correct.
pub open spec fn st_hash_ok(b: StateBlock) -> bool {
    opt_digest_view(b.hash) == Option::Some(digest_of(st_hash_payload(b)))
}

/// View-level equality of state blocks.
pub open spec fn st_eq(a: StateBlock, b: StateBlock) -> bool {
    &&& opt_digest_view(a.parent_hash) == opt_digest_view(b.parent_hash)
    &&& a.pow_anchor_hash@ == b.pow_anchor_hash@
    &&& a.height == b.height
    &&& a.root_hash@ == b.root_hash@
    &&& opt_digest_view(a.hash) == opt_digest_view(b.hash)
    &&& a.transactions@.len() == b.transactions@.len()
    &&& forall|k: int| 0 <= k < a.transactions@.len()
        ==> #[trigger] a.transactions@[k]@ == b.transactions@[k]@
}

/// The layout of the state block encoding.
pub proof fn lemma_ser_state_layout(b: StateBlock, hash: Option<Seq<u8>>)
    requires
        st_wf(b),
        hash matches Option::Some(h) ==> h.len() == 32,
    ensures
        ser_state_with(b, hash).len() == ST_FIXED + txs_enc(b.transactions@).len(),
        ser_state_with(b, hash)[0] == flag2(b.parent_hash is Some, hash is Some),
        ser_state_with(b, hash).subrange(1, 33) == opt_or_zeros(opt_digest_view(b.parent_hash), 32),
        ser_state_with(b, hash).subrange(33, 65) == b.pow_anchor_hash@,
        ser_state_with(b, hash).subrange(65, 73) == u64_be(b.height),
        ser_state_with(b, hash).subrange(73, 105) == b.root_hash@,
        ser_state_with(b, hash).subrange(105, 137) == opt_or_zeros(hash, 32),
        ser_state_with(b, hash).subrange(137, 139) == u16_be(b.transactions@.len() as u16),
        ser_state_with(b, hash).skip(139) == txs_enc(b.transactions@),
{
    let s = ser_state_with(b, hash);
    assert(opt_or_zeros(opt_digest_view(b.parent_hash), 32).len() == 32);
    assert(opt_or_zeros(hash, 32).len() == 32);
    assert(s.len() == ST_FIXED + txs_enc(b.transactions@).len());
    assert(s.subrange(1, 33) =~= opt_or_zeros(opt_digest_view(b.parent_hash), 32));
    assert(s.subrange(33, 65) =~= b.pow_anchor_hash@);
    assert(s.subrange(65, 73) =~= u64_be(b.height));
    assert(s.subrange(73, 105) =~= b.root_hash@);
    assert(s.subrange(105, 137) =~= opt_or_zeros(hash, 32));
    assert(s.subrange(137, 139) =~= u16_be(b.transactions@.len() as u16));
    assert(s.skip(139) =~= txs_enc(b.transactions@));
}

/// Encodes a state block, optionally leaving out the digest region.
pub fn encode_state_with(b: &StateBlock, include_hash: bool) -> (r: Vec<u8>)
    requires
        st_wf(*b),
    ensures
        r@ == ser_state_with(*b, if include_hash { opt_digest_view(b.hash) } else { Option::None }),
{
    let ghost ghash: Option<Seq<u8>> = if include_hash { opt_digest_view(b.hash) } else { Option::None };
    let mut out: Vec<u8> = Vec::new();
    let mut f: u8 = 0;
    if b.parent_hash.is_some() {
        f = f + 1;
    }
    if include_hash && b.hash.is_some() {
        f = f + 2;
    }
    assert(f == flag2(b.parent_hash is Some, ghash is Some));
    out.push(f);
    match &b.parent_hash {
        Option::Some(d) => push_bytes(&mut out, &d.bytes),
        Option::None => {
            let z = zero_bytes(32);
            push_bytes(&mut out, &z);
        }
    }
    push_bytes(&mut out, &b.pow_anchor_hash.bytes);
    push_u64_be(&mut out, b.height);
    push_bytes(&mut out, &b.root_hash.bytes);
    let mut hash_done: bool = false;
    if include_hash {
        match &b.hash {
            Option::Some(h) => {
                push_bytes(&mut out, &h.bytes);
                hash_done = true;
            }
            Option::None => {}
        }
    }
    if !hash_done {
        let z = zero_bytes(32);
        push_bytes(&mut out, &z);
    }
    push_u16_be(&mut out, b.transactions.len() as u16);
    let ghost prefix = out@;
    let count: usize = b.transactions.len();
    let mut k: usize = 0;
    while k < count
        invariant
            st_wf(*b),
            0 <= k <= count,
            count == b.transactions@.len(),
            out@ == prefix + txs_enc(b.transactions@.take(k as int)),
        decreases count - k,
    {
        let tx = &b.transactions[k];
        push_u16_be(&mut out, tx.len() as u16);
        push_bytes(&mut out, tx);
        proof {
            lemma_txs_enc_snoc(b.transactions@.take(k as int), b.transactions@[k as int]);
            assert(b.transactions@.take(k as int).push(b.transactions@[k as int])
                =~= b.transactions@.take(k as int + 1));
            assert(out@ =~= prefix + txs_enc(b.transactions@.take(k as int + 1)));
        }
        k = k + 1;
    }
    proof {
        assert(b.transactions@.take(count as int) =~= b.transactions@);
        assert(out@ =~= ser_state_with(*b, ghash));
    }
    out
}

/// Encodes the transaction region alone: each transaction length-prefixed.
pub fn encode_txs(ts: &Vec<Vec<u8>>) -> (r: Vec<u8>)
    requires
        forall|k: int| 0 <= k < ts@.len() ==> #[trigger] ts@[k]@.len() <= 0xFFFF,
    ensures
        r@ == txs_enc(ts@),
{
    let mut out: Vec<u8> = Vec::new();
    let count: usize = ts.len();
    let mut k: usize = 0;
    while k < count
        invariant
            0 <= k <= count,
            count == ts@.len(),
            forall|j: int| 0 <= j < ts@.len() ==> #[trigger] ts@[j]@.len() <= 0xFFFF,
            out@ == txs_enc(ts@.take(k as int)),
        decreases count - k,
    {
        let tx = &ts[k];
        push_u16_be(&mut out, tx.len() as u16);
        push_bytes(&mut out, tx);
        proof {
            lemma_txs_enc_snoc(ts@.take(k as int), ts@[k as int]);
            assert(ts@.take(k as int).push(ts@[k as int]) =~= ts@.take(k as int + 1));
            assert(out@ =~= txs_enc(ts@.take(k as int + 1)));
        }
        k = k + 1;
    }
    proof {
        assert(ts@.take(count as int) =~= ts@);
    }
    out
}

/// The full storage/wire encoding of a state block.
pub fn encode_state(b: &StateBlock) -> (r: Vec<u8>)
    requires
        st_wf(*b),
    ensures
        r@ == ser_state(*b),
{
    encode_state_with(b, true)
}

/// Decodes a state block from its canonical encoding. Exactly the canonical
/// encodings of well-formed blocks are accepted, and decoding recovers the
/// encoded block field for field.
pub fn decode_state(bytes: &Vec<u8>) -> (r: Option<StateBlock>)
    ensures
        r matches Option::Some(b) ==> st_wf(b) && bytes@ == ser_state(b),
        forall|b0: StateBlock|
            st_wf(b0) && bytes@ == ser_state(b0) ==> (r matches Option::Some(b) && st_eq(b, b0)),
{
    let n: usize = bytes.len();
    if n < ST_FIXED {
        proof {
            assert forall|b0: StateBlock| st_wf(b0) && bytes@ == ser_state(b0) implies false by {
                lemma_ser_state_layout(b0, opt_digest_view(b0.hash));
            }
        }
        return Option::None;
    }
    let flags = bytes[0];
    if flags >= 4 {
        proof {
            assert forall|b0: StateBlock| st_wf(b0) && bytes@ == ser_state(b0) implies false by {
                lemma_ser_state_layout(b0, opt_digest_view(b0.hash));
                lemma_flag2_bits(b0.parent_hash is Some, b0.hash is Some);
            }
        }
        return Option::None;
    }
    let pbit = flags % 2 == 1;
    let hbit = flags / 2 == 1;
    let count = read_u16_be(bytes, 137) as usize;
    proof {
        assert forall|b0: StateBlock| st_wf(b0) && bytes@ == ser_state(b0) implies (
            count == b0.transactions@.len()
            && pbit == (b0.parent_hash is Some)
            && hbit == (b0.hash is Some)
        ) by {
            lemma_ser_state_layout(b0, opt_digest_view(b0.hash));
            lemma_flag2_bits(b0.parent_hash is Some, b0.hash is Some);
            lemma_u16_be_round_trip(b0.transactions@.len() as u16);
        }
    }
    let mut txs: Vec<Vec<u8>> = Vec::new();
    let mut pos: usize = ST_FIXED;
    let mut k: usize = 0;
    while k < count
        invariant
            n == bytes@.len(),
            ST_FIXED <= pos <= n,
            0 <= k <= count,
            count <= 0xFFFF,
            txs@.len() == k,
            forall|j: int| 0 <= j < k ==> #[trigger] txs@[j]@.len() <= 0xFFFF,
            forall|b0: StateBlock| st_wf(b0) && bytes@ == ser_state(b0) ==> (
                count == b0.transactions@.len()
                && pos == ST_FIXED + txs_enc(b0.transactions@.take(k as int)).len()
                && (forall|j: int| 0 <= j < k ==> #[trigger] txs@[j]@ == b0.transactions@[j]@)
            ),
        decreases count - k,
    {
        if n - pos < 2 {
            proof {
                assert forall|b0: StateBlock| st_wf(b0) && bytes@ == ser_state(b0) implies false by {
                    lemma_ser_state_layout(b0, opt_digest_view(b0.hash));
                    lemma_txs_enc_split(b0.transactions@, k as int);
                    assert(b0.transactions@.skip(k as int).len() > 0);
                }
            }
            return Option::None;
        }
        let l = read_u16_be(bytes, pos) as usize;
        proof {
            assert forall|b0: StateBlock| st_wf(b0) && bytes@ == ser_state(b0) implies (
                l == b0.transactions@[k as int]@.len()
                && n - pos - 2 >= l
                && bytes@.subrange(pos as int + 2, pos as int + 2 + l) == b0.transactions@[k as int]@
            ) by {
                lemma_ser_state_layout(b0, opt_digest_view(b0.hash));
                let ts = b0.transactions@;
                lemma_txs_enc_split(ts, k as int);
                let rest = ts.skip(k as int);
                assert(rest.len() > 0);
                assert(rest[0] == ts[k as int]);
                assert(bytes@.skip(139) == txs_enc(ts));
                assert(txs_enc(ts) == txs_enc(ts.take(k as int)) + txs_enc(rest));
                assert(bytes@.subrange(pos as int, n as int) =~= txs_enc(rest));
                lemma_u16_be_round_trip(ts[k as int]@.len() as u16);
                assert(bytes@.subrange(pos as int, pos as int + 2)
                    =~= u16_be(ts[k as int]@.len() as u16));
                assert(bytes@.subrange(pos as int + 2, pos as int + 2 + ts[k as int]@.len() as int)
                    =~= ts[k as int]@);
            }
        }
        if n - pos - 2 < l {
            return Option::None;
        }
        let tx = sub_bytes(bytes, pos + 2, pos + 2 + l);
        txs.push(tx);
        proof {
            assert forall|b0: StateBlock| st_wf(b0) && bytes@ == ser_state(b0) implies (
                pos + 2 + l == ST_FIXED + txs_enc(b0.transactions@.take(k as int + 1)).len()
            ) by {
                lemma_txs_enc_snoc(b0.transactions@.take(k as int), b0.transactions@[k as int]);
                assert(b0.transactions@.take(k as int).push(b0.transactions@[k as int])
                    =~= b0.transactions@.take(k as int + 1));
                lemma_u16_be_round_trip(b0.transactions@[k as int]@.len() as u16);
            }
        }
        pos = pos + 2 + l;
        k = k + 1;
    }
    if pos != n {
        proof {
            assert forall|b0: StateBlock| st_wf(b0) && bytes@ == ser_state(b0) implies false by {
                lemma_ser_state_layout(b0, opt_digest_view(b0.hash));
                lemma_txs_enc_split(b0.transactions@, count as int);
                assert(b0.transactions@.take(count as int) =~= b0.transactions@);
            }
        }
        return Option::None;
    }
    let parent: Option<Digest>;
    if pbit {
        parent = Option::Some(Digest::from_bytes(sub_bytes(bytes, 1, 33)));
    } else {
        if !is_zero_range(bytes, 1, 33) {
            proof {
                assert forall|b0: StateBlock| st_wf(b0) && bytes@ == ser_state(b0) implies false by {
                    lemma_ser_state_layout(b0, opt_digest_view(b0.hash));
                    lemma_flag2_bits(b0.parent_hash is Some, b0.hash is Some);
                }
            }
            return Option::None;
        }
        parent = Option::None;
    }
    let pow_anchor_hash = Digest::from_bytes(sub_bytes(bytes, 33, 65));
    let height = read_u64_be(bytes, 65);
    let root_hash = Digest::from_bytes(sub_bytes(bytes, 73, 105));
    let hash: Option<Digest>;
    if hbit {
        hash = Option::Some(Digest::from_bytes(sub_bytes(bytes, 105, 137)));
    } else {
        if !is_zero_range(bytes, 105, 137) {
            proof {
                assert forall|b0: StateBlock| st_wf(b0) && bytes@ == ser_state(b0) implies false by {
                    lemma_ser_state_layout(b0, opt_digest_view(b0.hash));
                    lemma_flag2_bits(b0.parent_hash is Some, b0.hash is Some);
                }
            }
            return Option::None;
        }
        hash = Option::None;
    }
    let b = StateBlock {
        parent_hash: parent,
        pow_anchor_hash,
        height,
        transactions: txs,
        root_hash,
        hash,
    };
    proof {
        assert forall|b0: StateBlock| st_wf(b0) && bytes@ == ser_state(b0) implies st_eq(b, b0) by {
            lemma_ser_state_layout(b0, opt_digest_view(b0.hash));
            lemma_flag2_bits(b0.parent_hash is Some, b0.hash is Some);
            lemma_u64_be_round_trip(b0.height);
        }
    }
    let enc = encode_state(&b);
    if !eq_bytes(&enc, bytes) {
        proof {
            assert forall|b0: StateBlock| st_wf(b0) && bytes@ == ser_state(b0) implies false by {
                assert(st_eq(b, b0));
                lemma_txs_enc_congr(b.transactions@, b0.transactions@);
                assert(ser_state(b) =~= ser_state(b0));
            }
        }
        return Option::None;
    }
    Option::Some(b)
}

impl StateBlock {
    /// A candidate state block with no digest cached yet.
    pub fn new(
        parent_hash: Option<Digest>,
        pow_anchor_hash: Digest,
        height: u64,
        transactions: Vec<Vec<u8>>,
        root_hash: Digest,
    ) -> (r: StateBlock)
        ensures
            r == (StateBlock {
                parent_hash,
                pow_anchor_hash,
                height,
                transactions,
                root_hash,
                hash: Option::None,
            }),
    {
        StateBlock { parent_hash, pow_anchor_hash, height, transactions, root_hash, hash: Option::None }
    }

    /// The genesis state block: parentless, height zero, anchored to zeros,
    /// empty transaction list, with its fixed digest computed.
    pub fn genesis() -> (r: StateBlock)
        ensures
            st_wf(r),
            r.parent_hash is None,
            r.height == 0,
            r.pow_anchor_hash@ == zeros(32),
            r.root_hash@ == zeros(32),
            r.transactions@.len() == 0,
            st_hash_ok(r),
    {
        let mut b = StateBlock {
            parent_hash: Option::None,
            pow_anchor_hash: Digest::from_bytes(zero_bytes(32)),
            height: 0,
            transactions: Vec::new(),
            root_hash: Digest::from_bytes(zero_bytes(32)),
            hash: Option::None,
        };
        b.compute_hash();
        b
    }

    /// Computes and caches the block digest over the digest payload.
    pub fn compute_hash(&mut self)
        requires
            st_wf(*old(self)),
        ensures
            st_wf(*final(self)),
            st_hash_ok(*final(self)),
            final(self).parent_hash == old(self).parent_hash,
            final(self).pow_anchor_hash == old(self).pow_anchor_hash,
            final(self).height == old(self).height,
            final(self).transactions == old(self).transactions,
            final(self).root_hash == old(self).root_hash,
            st_hash_payload(*final(self)) == st_hash_payload(*old(self)),
    {
        let payload = encode_state_with(self, false);
        let d = BlakeDbHasher::hash(payload.as_slice());
        self.hash = Option::Some(d);
        proof {
            assert(st_hash_payload(*self) =~= st_hash_payload(*old(self)));
        }
    }

    /// The cached block digest, if computed.
    pub fn block_hash(&self) -> (r: Option<Digest>)
        ensures
            opt_digest_view(r) == opt_digest_view(self.hash),
    {
        match &self.hash {
            Option::None => Option::None,
            Option::Some(d) => Option::Some(d.duplicate()),
        }
    }

    /// The parent digest, if any.
    pub fn parent_hash(&self) -> (r: Option<Digest>)
        ensures
            opt_digest_view(r) == opt_digest_view(self.parent_hash),
    {
        match &self.parent_hash {
            Option::None => Option::None,
            Option::Some(d) => Option::Some(d.duplicate()),
        }
    }

    /// The block height.
    pub fn height(&self) -> (r: u64)
        ensures
            r == self.height,
    {
        self.height
    }

    /// A fresh block with the same field views.
    pub fn duplicate(&self) -> (r: StateBlock)
        ensures
            st_eq(r, *self),
            st_wf(*self) ==> st_wf(r),
    {
        let n: usize = self.transactions.len();
        let mut txs: Vec<Vec<u8>> = Vec::new();
        let mut i: usize = 0;
        while i < n
            invariant
                0 <= i <= n,
                n == self.transactions@.len(),
                txs@.len() == i,
                forall|j: int| 0 <= j < i ==> #[trigger] txs@[j]@ == self.transactions@[j]@,
            decreases n - i,
        {
            txs.push(copy_bytes(&self.transactions[i]));
            i = i + 1;
        }
        StateBlock {
            parent_hash: match &self.parent_hash {
                Option::None => Option::None,
                Option::Some(d) => Option::Some(d.duplicate()),
            },
            pow_anchor_hash: self.pow_anchor_hash.duplicate(),
            height: self.height,
            transactions: txs,
            root_hash: self.root_hash.duplicate(),
            hash: match &self.hash {
                Option::None => Option::None,
                Option::Some(d) => Option::Some(d.duplicate()),
            },
        }
    }
}

/// State blocks of equal views have equal encodings and payloads.
pub proof fn lemma_st_eq_same_ser(a: StateBlock, b: StateBlock)
    requires
        st_eq(a, b),
    ensures
        ser_state(a) == ser_state(b),
        st_hash_payload(a) == st_hash_payload(b),
{
    lemma_txs_enc_congr(a.transactions@, b.transactions@);
    assert(ser_state(a) =~= ser_state(b));
    assert(st_hash_payload(a) =~= st_hash_payload(b));
}

/// Blocks of equal views have equal encodings, payloads and validity: the
/// serialization depends on the field views alone.
pub proof fn lemma_pow_eq_same_ser(a: PowBlock, b: PowBlock)
    requires
        pow_eq(a, b),
    ensures
        ser_pow(a) == ser_pow(b),
        pow_hash_payload(a) == pow_hash_payload(b),
        pow_sig_payload(a) == pow_sig_payload(b),
{
    assert(ser_pow(a) =~= ser_pow(b));
    assert(pow_hash_payload(a) =~= pow_hash_payload(b));
    assert(pow_sig_payload(a) =~= pow_sig_payload(b));
}

/// A block of either chain, as the DAG stores it.
pub enum Block {
    Pow(PowBlock),
    State(StateBlock),
}

/// Whether the block belongs to the PoW chain.
pub open spec fn blk_is_pow(b: Block) -> bool {
    b is Pow
}

/// Field sizes of the underlying block.
pub open spec fn blk_wf(b: Block) -> bool {
    match b {
        Block::Pow(p) => pow_wf(p),
        Block::State(s) => st_wf(s),
    }
}

/// The cached digest of the underlying block.
pub open spec fn blk_hash_view(b: Block) -> Option<Seq<u8>> {
    match b {
        Block::Pow(p) => opt_digest_view(p.hash),
        Block::State(s) => opt_digest_view(s.hash),
    }
}

/// The parent digest of the underlying block.
pub open spec fn blk_parent_view(b: Block) -> Option<Seq<u8>> {
    match b {
        Block::Pow(p) => opt_digest_view(p.parent_hash),
        Block::State(s) => opt_digest_view(s.parent_hash),
    }
}

/// The height of the underlying block.
pub open spec fn blk_height(b: Block) -> u64 {
    match b {
        Block::Pow(p) => p.height,
        Block::State(s) => s.height,
    }
}

/// Whether the cached digest is present and correct.
pub open spec fn blk_hash_ok(b: Block) -> bool {
    match b {
        Block::Pow(p) => pow_hash_ok(p),
        Block::State(s) => st_hash_ok(s),
    }
}

/// View-level equality of blocks.
pub open spec fn blk_eq(a: Block, b: Block) -> bool {
    match (a, b) {
        (Block::Pow(x), Block::Pow(y)) => pow_eq(x, y),
        (Block::State(x), Block::State(y)) => st_eq(x, y),
        _ => false,
    }
}

/// Whether a block carries exactly the genesis views of its chain:
/// parentless, height zero, all identity and commitment fields zero, no
/// signature, no transactions, no proof.
pub open spec fn is_genesis_view(b: Block) -> bool {
    match b {
        Block::Pow(p) => {
            &&& p.parent_hash is None
            &&& p.height == 0
            &&& p.miner_address@ == zeros(32)
            &&& p.miner_node_id@ == zeros(32)
            &&& p.listen_address == (crate::addr::Addr { ip0: 0, ip1: 0, ip2: 0, ip3: 0, port: 0 })
            &&& p.proof@.len() == 0
            &&& p.signature is None
        }
        Block::State(s) => {
            &&& s.parent_hash is None
            &&& s.height == 0
            &&& s.pow_anchor_hash@ == zeros(32)
            &&& s.root_hash@ == zeros(32)
            &&& s.transactions@.len() == 0
        }
    }
}

/// Two genesis blocks of the same chain kind, each with its digest computed
/// correctly, are indistinguishable at the view level: the genesis digest is
/// fixed by the canonical serialization.
pub proof fn lemma_genesis_blk_eq(a: Block, b: Block)
    requires
        is_genesis_view(a),
        is_genesis_view(b),
        blk_hash_ok(a),
        blk_hash_ok(b),
        blk_is_pow(a) == blk_is_pow(b),
    ensures
        blk_eq(a, b),
{
    match (a, b) {
        (Block::Pow(x), Block::Pow(y)) => {
            assert(x.proof@ =~= y.proof@);
            assert(pow_hash_payload(x) =~= pow_hash_payload(y));
        }
        (Block::State(x), Block::State(y)) => {
            assert(x.transactions@ =~= y.transactions@);
            assert(st_hash_payload(x) =~= st_hash_payload(y));
            assert(forall|k: int| 0 <= k < x.transactions@.len()
                ==> #[trigger] x.transactions@[k]@ == y.transactions@[k]@);
        }
        _ => {}
    }
}

/// View-equal blocks agree on every derived notion.
pub proof fn lemma_blk_eq_same(a: Block, b: Block)
    requires
        blk_eq(a, b),
    ensures
        blk_is_pow(a) == blk_is_pow(b),
        blk_wf(a) == blk_wf(b),
        blk_hash_view(a) == blk_hash_view(b),
        blk_parent_view(a) == blk_parent_view(b),
        blk_height(a) == blk_height(b),
        blk_hash_ok(a) == blk_hash_ok(b),
{
    match (a, b) {
        (Block::Pow(x), Block::Pow(y)) => {
            lemma_pow_eq_same_ser(x, y);
        }
        (Block::State(x), Block::State(y)) => {
            lemma_st_eq_same_ser(x, y);
            assert(forall|k: int| 0 <= k < x.transactions@.len()
                ==> #[trigger] x.transactions@[k]@.len() == y.transactions@[k]@.len());
            if st_wf(x) {
                assert forall|k: int| 0 <= k < y.transactions@.len()
                    implies #[trigger] y.transactions@[k]@.len() <= 0xFFFF by {
                    assert(x.transactions@[k]@ == y.transactions@[k]@);
                    assert(x.transactions@[k]@.len() <= 0xFFFF);
                }
                assert(st_wf(y));
            }
            if st_wf(y) {
                assert forall|k: int| 0 <= k < x.transactions@.len()
                    implies #[trigger] x.transactions@[k]@.len() <= 0xFFFF by {
                    assert(x.transactions@[k]@ == y.transactions@[k]@);
                    assert(y.transactions@[k]@.len() <= 0xFFFF);
                }
                assert(st_wf(x));
            }
        }
        _ => {}
    }
}

impl Block {
    /// The block height.
    pub fn height(&self) -> (r: u64)
        ensures
            r == blk_height(*self),
    {
        match self {
            Block::Pow(p) => p.height,
            Block::State(s) => s.height,
        }
    }

    /// Whether the cached digest equals `d`.
    pub fn hash_matches(&self, d: &Digest) -> (r: bool)
        ensures
            r == (blk_hash_view(*self) == Option::Some(d@)),
    {
        match self {
            Block::Pow(p) => match &p.hash {
                Option::None => false,
                Option::Some(h) => h.equals(d),
            },
            Block::State(s) => match &s.hash {
                Option::None => false,
                Option::Some(h) => h.equals(d),
            },
        }
    }

    /// The cached digest, if computed.
    pub fn block_hash(&self) -> (r: Option<Digest>)
        ensures
            opt_digest_view(r) == blk_hash_view(*self),
    {
        match self {
            Block::Pow(p) => p.block_hash(),
            Block::State(s) => s.block_hash(),
        }
    }

    /// A fresh block with the same field views.
    pub fn duplicate(&self) -> (r: Block)
        ensures
            blk_eq(r, *self),
    {
        match self {
            Block::Pow(p) => Block::Pow(p.duplicate()),
            Block::State(s) => Block::State(s.duplicate()),
        }
    }
}

} // verus!
