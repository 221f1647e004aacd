//! Wire packets: a 1-byte type tag, a 4-byte big-endian payload length, and
//! the payload. The packet types this core speaks: connect handshakes,
//! block-range requests and their replies, and gossiped blocks.

use vstd::prelude::*;
use crate::block::{decode_pow, encode_pow, pow_eq, pow_wf, ser_pow, PowBlock};
use crate::byteops::{
    lemma_u16_be_inverse, push_bytes, push_u16_be, push_u32_be, read_u16_be, sub_bytes, u16_be,
    u32_be,
};
use crate::digest::Digest;

verus! {

/// The packet type tags.
pub const TAG_CONNECT: u8 = 0x01;
pub const TAG_POW_BLOCK: u8 = 0x10;
pub const TAG_STATE_BLOCK: u8 = 0x11;
pub const TAG_REQUEST_BLOCKS: u8 = 0x20;
pub const TAG_SEND_BLOCKS: u8 = 0x21;

/// The framing of one packet.
pub open spec fn frame(tag: u8, payload: Seq<u8>) -> Seq<u8> {
    seq![tag] + u32_be(payload.len() as u32) + payload
}

/// Frames a payload under a tag.
pub fn encode_frame(tag: u8, payload: &Vec<u8>) -> (r: Vec<u8>)
    requires
        payload@.len() <= 0xFFFF_FFFF,
    ensures
        r@ == frame(tag, payload@),
{
    let mut out: Vec<u8> = Vec::new();
    out.push(tag);
    push_u32_be(&mut out, payload.len() as u32);
    push_bytes(&mut out, payload);
    proof {
        assert(out@ =~= frame(tag, payload@));
    }
    out
}

/// Splits a framed packet into its tag and payload; the length field must
/// account for the rest of the packet exactly.
pub fn decode_frame(bytes: &Vec<u8>) -> (r: Option<(u8, Vec<u8>)>)
    ensures
        r matches Option::Some(tp) ==> bytes@ == frame(tp.0, tp.1@),
        forall|tag: u8, pl: Seq<u8>|
            pl.len() <= 0xFFFF_FFFF && bytes@ == frame(tag, pl)
                ==> (r matches Option::Some(tp) && tp.0 == tag && tp.1@ == pl),
{
    let n: usize = bytes.len();
    if n < 5 {
        proof {
            assert forall|tag: u8, pl: Seq<u8>|
                pl.len() <= 0xFFFF_FFFF && bytes@ == frame(tag, pl) implies false by {
                assert(frame(tag, pl).len() == 5 + pl.len());
            }
        }
        return Option::None;
    }
    let tag = bytes[0];
    let l0 = bytes[1];
    let l1 = bytes[2];
    let l2 = bytes[3];
    let l3 = bytes[4];
    let len: u64 = ((l0 as u64) << 24) | ((l1 as u64) << 16) | ((l2 as u64) << 8) | (l3 as u64);
    proof {
        assert forall|tag: u8, pl: Seq<u8>|
            pl.len() <= 0xFFFF_FFFF && bytes@ == frame(tag, pl)
            implies (n as u64) - 5 == len && bytes@[0] == tag
                && bytes@.subrange(5, n as int) == pl by {
            let m = pl.len() as u32;
            assert(frame(tag, pl).len() == 5 + pl.len());
            assert(bytes@[1] == (m >> 24) as u8);
            assert(bytes@[2] == (m >> 16) as u8);
            assert(bytes@[3] == (m >> 8) as u8);
            assert(bytes@[4] == m as u8);
            assert((((((m >> 24) as u8) as u64) << 24) | ((((m >> 16) as u8) as u64) << 16)
                | ((((m >> 8) as u8) as u64) << 8) | ((m as u8) as u64)) == m as u64)
                by (bit_vector);
            assert(bytes@.subrange(5, n as int) =~= pl);
        }
    }
    if (n as u64) - 5 != len {
        return Option::None;
    }
    let payload = sub_bytes(bytes, 5, n);
    proof {
        let p0 = (payload@.len() as u32 >> 24) as u8;
        let p1 = (payload@.len() as u32 >> 16) as u8;
        let p2 = (payload@.len() as u32 >> 8) as u8;
        let p3 = (payload@.len() as u32) as u8;
        let m = payload@.len() as u32;
        assert(m == len) by {
            assert((((l0 as u64) << 24) | ((l1 as u64) << 16) | ((l2 as u64) << 8) | (l3 as u64))
                <= 0xFFFF_FFFF) by (bit_vector);
        }
        assert(l0 == (m >> 24) as u8 && l1 == (m >> 16) as u8 && l2 == (m >> 8) as u8
            && l3 == m as u8) by (bit_vector)
            requires
                m as u64 == (((l0 as u64) << 24) | ((l1 as u64) << 16) | ((l2 as u64) << 8)
                    | (l3 as u64)),
        ;
        assert(bytes@ =~= frame(tag, payload@));
    }
    Option::Some((tag, payload))
}

/// The connect handshake: node id, network name, signature.
pub struct Connect {
    pub node_id: Vec<u8>,
    pub network_name: Vec<u8>,
    pub signature: Vec<u8>,
}

/// Field sizes of a well-formed connect packet.
pub open spec fn connect_wf(c: Connect) -> bool {
    c.node_id@.len() == 32 && c.network_name@.len() <= 0xFF && c.signature@.len() == 64
}

/// The payload of a connect packet.
pub open spec fn ser_connect(c: Connect) -> Seq<u8> {
    c.node_id@ + seq![c.network_name@.len() as u8] + c.network_name@ + c.signature@
}

/// Encodes a connect payload.
pub fn encode_connect(c: &Connect) -> (r: Vec<u8>)
    requires
        connect_wf(*c),
    ensures
        r@ == ser_connect(*c),
{
    let mut out: Vec<u8> = Vec::new();
    push_bytes(&mut out, &c.node_id);
    out.push(c.network_name.len() as u8);
    push_bytes(&mut out, &c.network_name);
    push_bytes(&mut out, &c.signature);
    proof {
        assert(out@ =~= ser_connect(*c));
    }
    out
}

/// Decodes a connect payload; re-encoding what is returned gives the input
/// back.
pub fn decode_connect(bytes: &Vec<u8>) -> (r: Option<Connect>)
    ensures
        r matches Option::Some(c) ==> connect_wf(c) && bytes@ == ser_connect(c),
        forall|c0: Connect|
            connect_wf(c0) && bytes@ == ser_connect(c0)
                ==> (r matches Option::Some(c) && c.node_id@ == c0.node_id@
                    && c.network_name@ == c0.network_name@ && c.signature@ == c0.signature@),
{
    let n: usize = bytes.len();
    if n < 33 {
        proof {
            assert forall|c0: Connect| connect_wf(c0) && bytes@ == ser_connect(c0)
                implies false by {
                assert(ser_connect(c0).len() == 97 + c0.network_name@.len());
            }
        }
        return Option::None;
    }
    let name_len = bytes[32] as usize;
    proof {
        assert forall|c0: Connect| connect_wf(c0) && bytes@ == ser_connect(c0)
            implies n == 33 + name_len + 64 && bytes@.subrange(0, 32) == c0.node_id@
                && bytes@.subrange(33, 33 + name_len as int) == c0.network_name@
                && bytes@.subrange(33 + name_len as int, n as int) == c0.signature@ by {
            assert(ser_connect(c0).len() == 97 + c0.network_name@.len());
            assert(bytes@[32] == c0.network_name@.len() as u8);
            assert(name_len == c0.network_name@.len());
            assert(bytes@.subrange(0, 32) =~= c0.node_id@);
            assert(bytes@.subrange(33, 33 + name_len as int) =~= c0.network_name@);
            assert(bytes@.subrange(33 + name_len as int, n as int) =~= c0.signature@);
        }
    }
    if n != 33 + name_len + 64 {
        return Option::None;
    }
    let node_id = sub_bytes(bytes, 0, 32);
    let network_name = sub_bytes(bytes, 33, 33 + name_len);
    let signature = sub_bytes(bytes, 33 + name_len, n);
    let c = Connect { node_id, network_name, signature };
    proof {
        assert(bytes@ =~= ser_connect(c));
    }
    Option::Some(c)
}

/// A request for up to `max_count` blocks above `from_hash` on the
/// responder's canonical branch.
pub struct RequestBlocks {
    pub from_hash: Digest,
    pub max_count: u16,
}

/// The payload of a block-range request.
pub open spec fn ser_request(p: RequestBlocks) -> Seq<u8> {
    p.from_hash@ + u16_be(p.max_count)
}

/// Encodes a block-range request.
pub fn encode_request(p: &RequestBlocks) -> (r: Vec<u8>)
    requires
        p.from_hash.wf(),
    ensures
        r@ == ser_request(*p),
{
    let mut out: Vec<u8> = Vec::new();
    push_bytes(&mut out, &p.from_hash.bytes);
    push_u16_be(&mut out, p.max_count);
    proof {
        assert(out@ =~= ser_request(*p));
    }
    out
}

/// Decodes a block-range request.
pub fn decode_request(bytes: &Vec<u8>) -> (r: Option<RequestBlocks>)
    ensures
        r matches Option::Some(p) ==> p.from_hash.wf() && bytes@ == ser_request(p),
        forall|p0: RequestBlocks|
            p0.from_hash@.len() == 32 && bytes@ == ser_request(p0)
                ==> (r matches Option::Some(p) && p.from_hash@ == p0.from_hash@
                    && p.max_count == p0.max_count),
{
    let n: usize = bytes.len();
    if n != 34 {
        proof {
            assert forall|p0: RequestBlocks|
                p0.from_hash@.len() == 32 && bytes@ == ser_request(p0) implies false by {
                assert(ser_request(p0).len() == 34);
            }
        }
        return Option::None;
    }
    let from_hash = Digest::from_bytes(sub_bytes(bytes, 0, 32));
    let max_count = read_u16_be(bytes, 32);
    let p = RequestBlocks { from_hash, max_count };
    proof {
        lemma_u16_be_inverse(bytes@.subrange(32, 34));
        assert(bytes@ =~= ser_request(p));
        assert forall|p0: RequestBlocks|
            p0.from_hash@.len() == 32 && bytes@ == ser_request(p0)
            implies p.from_hash@ == p0.from_hash@ && p.max_count == p0.max_count by {
            crate::byteops::lemma_u16_be_round_trip(p0.max_count);
            assert(bytes@.subrange(0, 32) =~= p0.from_hash@);
            assert(bytes@.subrange(32, 34) =~= u16_be(p0.max_count));
        }
    }
    Option::Some(p)
}

/// The reply's status byte.
#[derive(Clone, Copy, PartialEq, Eq, Structural, Debug)]
pub enum SendStatus {
    Granted,
    UnknownAnchor,
    Busy,
}

/// The reply to a block-range request: a status and, when granted, the
/// blocks in increasing height order.
pub struct SendBlocks {
    pub status: SendStatus,
    pub blocks: Vec<PowBlock>,
}

/// The payload of a reply: status, count, then each block framed by a
/// 16-bit length.
pub open spec fn ser_send_status(s: SendStatus) -> u8 {
    match s {
        SendStatus::Granted => 0u8,
        SendStatus::UnknownAnchor => 1u8,
        SendStatus::Busy => 2u8,
    }
}

/// The block region of a reply: each block's storage form, length-prefixed.
pub open spec fn pow_list_enc(bs: Seq<PowBlock>) -> Seq<u8>
    decreases bs.len(),
{
    if bs.len() == 0 {
        Seq::empty()
    } else {
        u16_be(ser_pow(bs[0]).len() as u16) + ser_pow(bs[0]) + pow_list_enc(bs.drop_first())
    }
}

/// Appending one block appends its length prefix and encoding.
pub proof fn lemma_pow_list_enc_snoc(bs: Seq<PowBlock>, b: PowBlock)
    ensures
        pow_list_enc(bs.push(b))
            == pow_list_enc(bs) + u16_be(ser_pow(b).len() as u16) + ser_pow(b),
    decreases bs.len(),
{
    let p = bs.push(b);
    if bs.len() == 0 {
        assert(p[0] == b);
        assert(p.drop_first() =~= Seq::<PowBlock>::empty());
        assert(pow_list_enc(p.drop_first()) == Seq::<u8>::empty());
        assert(pow_list_enc(bs) == Seq::<u8>::empty());
        assert(pow_list_enc(p) =~= pow_list_enc(bs) + u16_be(ser_pow(b).len() as u16) + ser_pow(b));
    } else {
        lemma_pow_list_enc_snoc(bs.drop_first(), b);
        assert(p[0] == bs[0]);
        assert(p.len() == bs.len() + 1);
        assert(p.drop_first() =~= bs.drop_first().push(b));
        assert(pow_list_enc(p)
            == u16_be(ser_pow(bs[0]).len() as u16) + ser_pow(bs[0]) + pow_list_enc(p.drop_first()));
        assert(pow_list_enc(bs)
            == u16_be(ser_pow(bs[0]).len() as u16) + ser_pow(bs[0]) + pow_list_enc(bs.drop_first()));
        assert(pow_list_enc(p) =~= pow_list_enc(bs) + u16_be(ser_pow(b).len() as u16) + ser_pow(b));
    }
}

/// The block region splits at any index.
pub proof fn lemma_pow_list_enc_split(bs: Seq<PowBlock>, k: int)
    requires
        0 <= k <= bs.len(),
    ensures
        pow_list_enc(bs) == pow_list_enc(bs.take(k)) + pow_list_enc(bs.skip(k)),
    decreases k,
{
    if k == 0 {
        assert(bs.take(0).len() == 0);
        assert(bs.skip(0) =~= bs);
        assert(pow_list_enc(bs.take(0)) + pow_list_enc(bs.skip(0)) =~= pow_list_enc(bs));
    } else {
        lemma_pow_list_enc_split(bs.drop_first(), k - 1);
        assert(bs.take(k).len() == k);
        assert(bs.take(k)[0] == bs[0]);
        assert(bs.take(k).drop_first() =~= bs.drop_first().take(k - 1));
        assert(bs.skip(k) =~= bs.drop_first().skip(k - 1));
        assert(pow_list_enc(bs) =~= pow_list_enc(bs.take(k)) + pow_list_enc(bs.skip(k)));
    }
}

/// The full payload of a reply.
pub open spec fn ser_send(p: SendBlocks) -> Seq<u8> {
    seq![ser_send_status(p.status)] + u16_be(p.blocks@.len() as u16) + pow_list_enc(p.blocks@)
}

/// A reply whose blocks the wire form can carry: at most a 16-bit count, and
/// every block well-formed with an encoding that fits its 16-bit prefix.
pub open spec fn send_src_ok(p: SendBlocks) -> bool {
    &&& p.blocks@.len() <= 0xFFFF
    &&& forall|k: int| 0 <= k < p.blocks@.len()
        ==> pow_wf(#[trigger] p.blocks@[k]) && ser_pow(p.blocks@[k]).len() <= 0xFFFF
}

/// Encodes a reply. Each block's encoding must fit a 16-bit length prefix,
/// and every carriable reply encodes.
pub fn encode_send_blocks(p: &SendBlocks) -> (r: Option<Vec<u8>>)
    ensures
        r matches Option::Some(v) ==> v@ == ser_send(*p),
        send_src_ok(*p) ==> r is Some,
{
    if p.blocks.len() > 0xFFFF {
        return Option::None;
    }
    let mut out: Vec<u8> = Vec::new();
    out.push(match p.status {
        SendStatus::Granted => 0u8,
        SendStatus::UnknownAnchor => 1u8,
        SendStatus::Busy => 2u8,
    });
    push_u16_be(&mut out, p.blocks.len() as u16);
    let ghost prefix = out@;
    let count: usize = p.blocks.len();
    let mut k: usize = 0;
    while k < count
        invariant
            0 <= k <= count,
            count == p.blocks@.len(),
            out@ == prefix + pow_list_enc(p.blocks@.take(k as int)),
        decreases count - k,
    {
        let bl = &p.blocks[k];
        let wf_ok = (match &bl.parent_hash {
            Option::Some(d) => d.bytes.len() == 32,
            Option::None => true,
        }) && bl.miner_address.len() == 32 && bl.miner_node_id.len() == 32
            && (match &bl.signature {
            Option::Some(s) => s.len() == 64,
            Option::None => true,
        }) && (match &bl.hash {
            Option::Some(h) => h.bytes.len() == 32,
            Option::None => true,
        }) && bl.proof.len() <= 0xFFFF;
        proof {
            assert(wf_ok == pow_wf(p.blocks@[k as int]));
        }
        if !wf_ok {
            return Option::None;
        }
        let enc = encode_pow(bl);
        proof {
            assert(enc@ == ser_pow(p.blocks@[k as int]));
        }
        if enc.len() > 0xFFFF {
            return Option::None;
        }
        push_u16_be(&mut out, enc.len() as u16);
        push_bytes(&mut out, &enc);
        proof {
            lemma_pow_list_enc_snoc(p.blocks@.take(k as int), p.blocks@[k as int]);
            assert(p.blocks@.take(k as int).push(p.blocks@[k as int])
                =~= p.blocks@.take(k as int + 1));
            assert(out@ =~= prefix + pow_list_enc(p.blocks@.take(k as int + 1)));
        }
        k = k + 1;
    }
    proof {
        assert(p.blocks@.take(count as int) =~= p.blocks@);
        assert(prefix + pow_list_enc(p.blocks@) =~= ser_send(*p));
    }
    Option::Some(out)
}

/// Decodes a reply: each returned block re-encodes to the bytes it was read
/// from.
#[verifier::rlimit(60)]
pub fn decode_send_blocks(bytes: &Vec<u8>) -> (r: Option<SendBlocks>)
    ensures
        r matches Option::Some(p) ==> (
            bytes@ == ser_send(p)
            && forall|k: int| 0 <= k < p.blocks@.len() ==> pow_wf(#[trigger] p.blocks@[k])
        ),
        forall|p0: SendBlocks|
            send_src_ok(p0) && bytes@ == ser_send(p0)
                ==> (r matches Option::Some(p) && p.status == p0.status
                    && p.blocks@.len() == p0.blocks@.len()
                    && (forall|k: int| 0 <= k < p.blocks@.len()
                        ==> pow_eq(#[trigger] p.blocks@[k], p0.blocks@[k]))),
{
    let n: usize = bytes.len();
    if n < 3 {
        proof {
            assert forall|p0: SendBlocks| send_src_ok(p0) && bytes@ == ser_send(p0)
                implies false by {
                assert(ser_send(p0).len() == 3 + pow_list_enc(p0.blocks@).len());
            }
        }
        return Option::None;
    }
    proof {
        assert forall|p0: SendBlocks| send_src_ok(p0) && bytes@ == ser_send(p0)
            implies bytes@[0] == ser_send_status(p0.status) && bytes@[0] < 3
                && bytes@.subrange(1, 3) == u16_be(p0.blocks@.len() as u16)
                && bytes@.subrange(3, n as int) == pow_list_enc(p0.blocks@) by {
            assert(bytes@.subrange(1, 3) =~= u16_be(p0.blocks@.len() as u16));
            assert(bytes@.subrange(3, n as int) =~= pow_list_enc(p0.blocks@));
        }
    }
    let status = match bytes[0] {
        0u8 => SendStatus::Granted,
        1u8 => SendStatus::UnknownAnchor,
        2u8 => SendStatus::Busy,
        _ => {
            return Option::None;
        }
    };
    let count = read_u16_be(bytes, 1) as usize;
    proof {
        assert forall|p0: SendBlocks| send_src_ok(p0) && bytes@ == ser_send(p0)
            implies count == p0.blocks@.len() && status == p0.status by {
            crate::byteops::lemma_u16_be_round_trip(p0.blocks@.len() as u16);
        }
    }
    let mut blocks: Vec<PowBlock> = Vec::new();
    let mut pos: usize = 3;
    let mut k: usize = 0;
    while k < count
        invariant
            0 <= k <= count,
            3 <= pos <= n,
            n == bytes@.len(),
            blocks@.len() == k,
            forall|j: int| 0 <= j < k ==> pow_wf(#[trigger] blocks@[j]),
            bytes@.subrange(3, pos as int) == pow_list_enc(blocks@),
            forall|p0: SendBlocks| send_src_ok(p0) && bytes@ == ser_send(p0) ==> (
                count == p0.blocks@.len()
                && pos == 3 + pow_list_enc(p0.blocks@.take(k as int)).len()
                && (forall|j: int| 0 <= j < k ==> pow_eq(#[trigger] blocks@[j], p0.blocks@[j]))
            ),
        decreases count - k,
    {
        proof {
            assert forall|p0: SendBlocks| send_src_ok(p0) && bytes@ == ser_send(p0)
                implies n - pos >= 2
                    && bytes@.subrange(pos as int, pos as int + 2)
                        == u16_be(ser_pow(p0.blocks@[k as int]).len() as u16) by {
                assert(bytes@.subrange(3, n as int) =~= pow_list_enc(p0.blocks@));
                lemma_pow_list_enc_split(p0.blocks@, k as int);
                let rest = p0.blocks@.skip(k as int);
                assert(rest.len() > 0);
                assert(rest[0] == p0.blocks@[k as int]);
                assert(bytes@.subrange(pos as int, n as int) =~= pow_list_enc(rest));
                assert(bytes@.subrange(pos as int, pos as int + 2)
                    =~= u16_be(ser_pow(p0.blocks@[k as int]).len() as u16));
            }
        }
        if n - pos < 2 {
            return Option::None;
        }
        let l = read_u16_be(bytes, pos) as usize;
        proof {
            assert forall|p0: SendBlocks| send_src_ok(p0) && bytes@ == ser_send(p0)
                implies l == ser_pow(p0.blocks@[k as int]).len()
                    && n - pos - 2 >= l
                    && bytes@.subrange(pos as int + 2, pos as int + 2 + l as int)
                        == ser_pow(p0.blocks@[k as int]) by {
                lemma_pow_list_enc_split(p0.blocks@, k as int);
                let rest = p0.blocks@.skip(k as int);
                assert(rest[0] == p0.blocks@[k as int]);
                crate::byteops::lemma_u16_be_round_trip(
                    ser_pow(p0.blocks@[k as int]).len() as u16);
                assert(bytes@.subrange(pos as int, n as int) =~= pow_list_enc(rest));
                assert(bytes@.subrange(pos as int + 2,
                    pos as int + 2 + ser_pow(p0.blocks@[k as int]).len() as int)
                    =~= ser_pow(p0.blocks@[k as int]));
            }
        }
        if n - pos - 2 < l {
            return Option::None;
        }
        let chunk = sub_bytes(bytes, pos + 2, pos + 2 + l);
        match decode_pow(&chunk) {
            Option::None => {
                return Option::None;
            }
            Option::Some(b) => {
                proof {
                    lemma_pow_list_enc_snoc(blocks@, b);
                    lemma_u16_be_inverse(bytes@.subrange(pos as int, pos as int + 2));
                    assert(bytes@.subrange(pos as int, pos as int + 2)
                        =~= u16_be(l as u16));
                    assert(ser_pow(b).len() == l);
                    assert(u16_be(ser_pow(b).len() as u16) =~= u16_be(l as u16));
                    assert(bytes@.subrange(3, pos as int + 2 + l as int)
                        =~= pow_list_enc(blocks@) + u16_be(ser_pow(b).len() as u16) + ser_pow(b));
                    assert forall|p0: SendBlocks| send_src_ok(p0) && bytes@ == ser_send(p0)
                        implies pos + 2 + l
                            == 3 + pow_list_enc(p0.blocks@.take(k as int + 1)).len()
                            && pow_eq(b, p0.blocks@[k as int]) by {
                        lemma_pow_list_enc_snoc(p0.blocks@.take(k as int),
                            p0.blocks@[k as int]);
                        assert(p0.blocks@.take(k as int).push(p0.blocks@[k as int])
                            =~= p0.blocks@.take(k as int + 1));
                    }
                }
                blocks.push(b);
                proof {
                    assert(bytes@.subrange(3, pos as int + 2 + l as int) == pow_list_enc(blocks@));
                }
            }
        }
        pos = pos + 2 + l;
        k = k + 1;
    }
    proof {
        assert forall|p0: SendBlocks| send_src_ok(p0) && bytes@ == ser_send(p0)
            implies pos == n by {
            lemma_pow_list_enc_split(p0.blocks@, count as int);
            assert(p0.blocks@.take(count as int) =~= p0.blocks@);
        }
    }
    if pos != n {
        return Option::None;
    }
    let p = SendBlocks { status, blocks };
    proof {
        lemma_u16_be_inverse(bytes@.subrange(1, 3));
        assert(bytes@.subrange(1, 3) =~= u16_be(count as u16));
        assert(bytes@ =~= ser_send(p));
    }
    Option::Some(p)
}

} // verus!
