//! The request-blocks protocol flow: the responder walks its canonical
//! branch above the requested digest and replies with up to `max_count`
//! blocks in increasing height order; the requester validates contiguous
//! linkage before feeding the blocks to its chain. One request is in flight
//! per session; a malformed reply ends the session.

use vstd::prelude::*;
use crate::block::{blk_parent_view, opt_digest_view, pow_eq, pow_wf, Block, PowBlock};
use crate::chain::{anchor_on_canonical, Chain};
use crate::dag::{ancestor_at, node_hash, node_height, opt_hash_seq, wf_at, lemma_anc_step, lemma_anc_basic};
use crate::digest::Digest;
use crate::packets::{RequestBlocks, SendBlocks, SendStatus};

verus! {

/// Protocol-level failures of a flow session.
#[derive(Clone, Copy, PartialEq, Eq, Structural, Debug)]
pub enum NetworkErr {
    MalformedPacket,
    Busy,
    SelfNotReady,
    ProtocolTimeout,
    PeerDisconnected,
}

/// The most blocks one reply may carry.
pub const MAX_BLOCKS_PER_REPLY: u16 = 512;

/// The responder's session state: one request per session.
#[derive(Clone, Copy, PartialEq, Eq, Structural, Debug)]
pub enum RequestBlocksReceiverState {
    Ready,
    Done,
}

/// The responder side of the flow.
pub struct RequestBlocksReceiver {
    pub state: RequestBlocksReceiverState,
}

/// Whether `bs` links contiguously upward from the digest `from`: the first
/// block's parent is `from`, every later block's parent is its predecessor's
/// digest.
pub open spec fn contiguous_from(from: Seq<u8>, bs: Seq<PowBlock>) -> bool {
    &&& (bs.len() > 0 ==> opt_digest_view(bs[0].parent_hash) == Option::Some(from))
    &&& forall|k: int| 1 <= k < bs.len()
        ==> opt_digest_view(#[trigger] bs[k].parent_hash)
            == Option::Some(opt_hash_seq(opt_digest_view(bs[k - 1].hash)))
}

impl RequestBlocksReceiver {
    /// A fresh responder, ready for one request.
    pub fn new() -> (r: RequestBlocksReceiver)
        ensures
            r.state == RequestBlocksReceiverState::Ready,
    {
        RequestBlocksReceiver { state: RequestBlocksReceiverState::Ready }
    }

    /// Whether the session has served its request.
    pub fn done(&self) -> (r: bool)
        ensures
            r == (self.state == RequestBlocksReceiverState::Done),
    {
        match self.state {
            RequestBlocksReceiverState::Done => true,
            RequestBlocksReceiverState::Ready => false,
        }
    }

    /// Whether the responder can take a request.
    pub fn can_receive(&self) -> (r: bool)
        ensures
            r == (self.state == RequestBlocksReceiverState::Ready),
    {
        match self.state {
            RequestBlocksReceiverState::Ready => true,
            RequestBlocksReceiverState::Done => false,
        }
    }

    /// Returns the session to its initial state.
    pub fn reset(&mut self)
        ensures
            final(self).state == RequestBlocksReceiverState::Ready,
    {
        self.state = RequestBlocksReceiverState::Ready;
    }

    /// Serves one block-range request against the local PoW chain. A busy
    /// session or an anchor off the canonical branch is answered in place;
    /// a granted request returns the canonical blocks strictly above the
    /// anchor, contiguous from it and at most `max_count` (capped) many,
    /// and the session becomes `Done`.
    pub fn receive(&mut self, chain: &Chain, packet: &RequestBlocks) -> (r: Result<
        SendBlocks,
        NetworkErr,
    >)
        requires
            chain.wf(),
            chain.kind is Pow,
        ensures
            match r {
                Result::Err(e) => e == NetworkErr::MalformedPacket
                    && packet.max_count > MAX_BLOCKS_PER_REPLY && *final(self) == *old(self),
                Result::Ok(sb) => {
                    &&& packet.max_count <= MAX_BLOCKS_PER_REPLY
                    &&& (old(self).state == RequestBlocksReceiverState::Done ==> (
                        sb.status == SendStatus::Busy && sb.blocks@.len() == 0
                            && *final(self) == *old(self)
                    ))
                    &&& (old(self).state == RequestBlocksReceiverState::Ready
                        && !anchor_on_canonical(chain.dag@, chain.tip as int, packet.from_hash@)
                        ==> (
                        sb.status == SendStatus::UnknownAnchor && sb.blocks@.len() == 0
                            && *final(self) == *old(self)
                    ))
                    &&& (old(self).state == RequestBlocksReceiverState::Ready
                        && anchor_on_canonical(chain.dag@, chain.tip as int, packet.from_hash@)
                        ==> (
                        sb.status == SendStatus::Granted
                            && final(self).state == RequestBlocksReceiverState::Done
                            && contiguous_from(packet.from_hash@, sb.blocks@)
                            && sb.blocks@.len() <= packet.max_count
                            && (exists|j: int| #![trigger node_hash(chain.dag@, j)]
                                0 <= j < chain.dag@.len()
                                    && node_hash(chain.dag@, j) == packet.from_hash@
                                    && sb.blocks@.len() == crate::byteops::min_int(
                                        node_height(chain.dag@, chain.tip as int) as int
                                            - node_height(chain.dag@, j) as int,
                                        packet.max_count as int)
                                    && (forall|k: int| 0 <= k < sb.blocks@.len()
                                        ==> pow_eq(#[trigger] sb.blocks@[k],
                                            chain.dag@[ancestor_at(chain.dag@, chain.tip as int,
                                                node_height(chain.dag@, j) as int + 1 + k)]
                                                .block->Pow_0)))
                    ))
                }
            },
    {
        if packet.max_count > MAX_BLOCKS_PER_REPLY {
            return Result::Err(NetworkErr::MalformedPacket);
        }
        match self.state {
            RequestBlocksReceiverState::Done => {
                return Result::Ok(SendBlocks { status: SendStatus::Busy, blocks: Vec::new() });
            }
            RequestBlocksReceiverState::Ready => {}
        }
        // locate the anchor on the canonical branch
        let mut anchor_idx: Option<usize> = Option::None;
        match chain.dag.fetch_by_hash(&packet.from_hash) {
            Option::None => {}
            Option::Some(j) => {
                let hj = chain.dag.label(j);
                let tip_h = chain.dag.label(chain.tip);
                if hj <= tip_h {
                    let anc = chain.dag.ancestor_exec(chain.tip, hj);
                    if anc == j {
                        anchor_idx = Option::Some(j);
                        proof {
                            assert(anchor_on_canonical(chain.dag@, chain.tip as int,
                                packet.from_hash@));
                        }
                    }
                }
            }
        }
        let j: usize = match anchor_idx {
            Option::None => {
                proof {
                    if anchor_on_canonical(chain.dag@, chain.tip as int, packet.from_hash@) {
                        let j0 = choose|j0: int|
                            0 <= j0 < chain.dag@.len()
                                && node_hash(chain.dag@, j0) == packet.from_hash@
                                && node_height(chain.dag@, j0)
                                    <= node_height(chain.dag@, chain.tip as int)
                                && ancestor_at(chain.dag@, chain.tip as int,
                                    node_height(chain.dag@, j0) as int) == j0;
                        assert(false);
                    }
                }
                return Result::Ok(SendBlocks {
                    status: SendStatus::UnknownAnchor,
                    blocks: Vec::new(),
                });
            }
            Option::Some(j) => j,
        };
        // walk the canonical branch upward from the anchor
        let ha = chain.dag.label(j);
        let tip_h = chain.dag.label(chain.tip);
        let avail = tip_h - ha;
        let take: u64 = if avail < packet.max_count as u64 { avail } else { packet.max_count as u64 };
        let mut blocks: Vec<PowBlock> = Vec::new();
        let mut k: u64 = 0;
        while k < take
            invariant
                chain.wf(),
                chain.kind is Pow,
                j < chain.dag@.len(),
                node_hash(chain.dag@, j as int) == packet.from_hash@,
                ha == node_height(chain.dag@, j as int),
                tip_h == node_height(chain.dag@, chain.tip as int),
                ancestor_at(chain.dag@, chain.tip as int, ha as int) == j as int,
                ha + take <= tip_h,
                0 <= k <= take,
                blocks@.len() == k,
                forall|x: int| 0 <= x < k ==> pow_eq(#[trigger] blocks@[x],
                    chain.dag@[ancestor_at(chain.dag@, chain.tip as int,
                        ha as int + 1 + x)].block->Pow_0),
                contiguous_from(packet.from_hash@, blocks@),
            decreases take - k,
        {
            let idx = chain.dag.ancestor_exec(chain.tip, ha + 1 + k);
            proof {
                lemma_anc_step(chain.dag@, chain.tip as int, ha as int + k as int);
                lemma_anc_basic(chain.dag@, chain.tip as int, ha as int + 1 + k as int);
                assert(wf_at(chain.dag@, idx as int));
            }
            let bl = match chain.dag.fetch(idx) {
                Block::Pow(p) => p.duplicate(),
                Block::State(_) => {
                    proof {
                        assert(crate::block::blk_is_pow(chain.dag@[idx as int].block)
                            == (chain.kind is Pow));
                        assert(false);
                    }
                    vstd::pervasive::unreached()
                }
            };
            let ghost bpre = blocks@;
            blocks.push(bl);
            proof {
                let s = chain.dag@;
                let prev = ancestor_at(s, chain.tip as int, ha as int + k as int);
                assert(blocks@[k as int] == bl);
                assert(forall|x: int| 0 <= x < k ==> blocks@[x] == bpre[x]);
                assert(blk_parent_view(s[idx as int].block)
                    == Option::Some(node_hash(s, prev)));
                assert(opt_digest_view(bl.parent_hash)
                    == opt_digest_view(s[idx as int].block->Pow_0.parent_hash));
                if k == 0 {
                    assert(prev == j as int);
                    assert(node_hash(s, prev) == packet.from_hash@);
                } else {
                    let pidx = ancestor_at(s, chain.tip as int, ha as int + k as int);
                    assert(pow_eq(blocks@[k as int - 1], s[pidx].block->Pow_0));
                    assert(node_hash(s, prev)
                        == opt_hash_seq(opt_digest_view(blocks@[k as int - 1].hash)));
                }
                assert(contiguous_from(packet.from_hash@, blocks@));
            }
            k = k + 1;
        }
        self.state = RequestBlocksReceiverState::Done;
        proof {
            assert(node_hash(chain.dag@, j as int) == packet.from_hash@);
        }
        Result::Ok(SendBlocks { status: SendStatus::Granted, blocks })
    }
}

/// The requester's session state.
#[derive(Clone, Copy, PartialEq, Eq, Structural, Debug)]
pub enum SenderState {
    Idle,
    AwaitingResponse,
    Done,
    TimedOut,
    Rejected,
}

/// The requester side of the flow: at most one request in flight, a bounded
/// retry budget with exponential backoff.
pub struct RequestBlocksSender {
    pub state: SenderState,
    pub from_hash: Option<Digest>,
    pub retries: u8,
}

/// The retry budget of one session.
pub const MAX_RETRIES: u8 = 5;

/// The backoff before retry `n`: exponential from one second, capped at
/// thirty seconds.
pub open spec fn backoff_spec(n: u8) -> u64 {
    if n >= 5 {
        30000u64
    } else if n == 0 {
        1000u64
    } else if n == 1 {
        2000u64
    } else if n == 2 {
        4000u64
    } else if n == 3 {
        8000u64
    } else {
        16000u64
    }
}

/// Milliseconds to wait before retry `n`.
pub fn backoff_ms(n: u8) -> (r: u64)
    ensures
        r == backoff_spec(n),
        1000 <= r <= 30000,
{
    if n >= 5 {
        30000
    } else {
        let v: u64 = 1000u64 << (n as u64);
        proof {
            assert(n < 5 ==> (1000u64 << (n as u64)) == backoff_spec(n)) by (bit_vector);
        }
        v
    }
}

impl RequestBlocksSender {
    /// A fresh requester.
    pub fn new() -> (r: RequestBlocksSender)
        ensures
            r.state == SenderState::Idle,
            r.retries == 0,
    {
        RequestBlocksSender { state: SenderState::Idle, from_hash: Option::None, retries: 0 }
    }

    /// Starts a session: emits the request packet and awaits the response.
    /// Only an idle session may send, and never more than the reply cap.
    pub fn send(&mut self, from_hash: Digest, max_count: u16) -> (r: Result<
        RequestBlocks,
        NetworkErr,
    >)
        requires
            from_hash.wf(),
        ensures
            old(self).state == SenderState::Idle && max_count <= MAX_BLOCKS_PER_REPLY
                ==> r is Ok,
            match r {
                Result::Err(e) => *final(self) == *old(self)
                    && (e == NetworkErr::Busy <==> old(self).state != SenderState::Idle)
                    && (e == NetworkErr::MalformedPacket ==> max_count > MAX_BLOCKS_PER_REPLY),
                Result::Ok(p) => old(self).state == SenderState::Idle
                    && max_count <= MAX_BLOCKS_PER_REPLY
                    && p.from_hash@ == from_hash@ && p.max_count == max_count
                    && final(self).state == SenderState::AwaitingResponse
                    && (final(self).from_hash matches Option::Some(d) && d@ == from_hash@)
                    && final(self).retries == old(self).retries,
            },
    {
        match self.state {
            SenderState::Idle => {}
            _ => {
                return Result::Err(NetworkErr::Busy);
            }
        }
        if max_count > MAX_BLOCKS_PER_REPLY {
            return Result::Err(NetworkErr::MalformedPacket);
        }
        let packet = RequestBlocks { from_hash: from_hash.duplicate(), max_count };
        self.from_hash = Option::Some(from_hash);
        self.state = SenderState::AwaitingResponse;
        Result::Ok(packet)
    }

    /// Handles the response. A granted reply with contiguous linkage from
    /// the requested digest completes the session and hands the blocks out
    /// for the ingress queue; anything else rejects the session.
    pub fn on_response(&mut self, sb: SendBlocks) -> (r: Result<Vec<PowBlock>, NetworkErr>)
        ensures
            old(self).state != SenderState::AwaitingResponse ==> (
                r == Result::Err::<Vec<PowBlock>, NetworkErr>(NetworkErr::SelfNotReady)
                    && *final(self) == *old(self)
            ),
            (old(self).state == SenderState::AwaitingResponse && sb.status == SendStatus::Granted
                && (old(self).from_hash matches Option::Some(d) && contiguous_from(d@, sb.blocks@)))
                ==> r is Ok,
            old(self).state == SenderState::AwaitingResponse ==> match r {
                Result::Ok(bs) => {
                    &&& sb.status == SendStatus::Granted
                    &&& (old(self).from_hash matches Option::Some(d)
                        && contiguous_from(d@, bs@))
                    &&& bs == sb.blocks
                    &&& final(self).state == SenderState::Done
                },
                Result::Err(e) => e == NetworkErr::MalformedPacket
                    && final(self).state == SenderState::Rejected,
            },
    {
        match self.state {
            SenderState::AwaitingResponse => {}
            _ => {
                return Result::Err(NetworkErr::SelfNotReady);
            }
        }
        let granted = match sb.status {
            SendStatus::Granted => true,
            _ => false,
        };
        if !granted {
            self.state = SenderState::Rejected;
            return Result::Err(NetworkErr::MalformedPacket);
        }
        let from = match &self.from_hash {
            Option::Some(d) => d.duplicate(),
            Option::None => {
                self.state = SenderState::Rejected;
                return Result::Err(NetworkErr::MalformedPacket);
            }
        };
        if !validate_contiguous(&from, &sb.blocks) {
            self.state = SenderState::Rejected;
            return Result::Err(NetworkErr::MalformedPacket);
        }
        self.state = SenderState::Done;
        Result::Ok(sb.blocks)
    }

    /// The request timer expired: the session ends.
    pub fn on_timeout(&mut self)
        ensures
            final(self).state == SenderState::TimedOut,
            final(self).retries == old(self).retries,
            final(self).from_hash == old(self).from_hash,
    {
        self.state = SenderState::TimedOut;
    }

    /// The peer disconnected while a request was pending: the session ends
    /// at once.
    pub fn on_disconnect(&mut self)
        ensures
            final(self).state == SenderState::TimedOut,
            final(self).retries == old(self).retries,
            final(self).from_hash == old(self).from_hash,
    {
        self.state = SenderState::TimedOut;
    }

    /// Arms one retry: the session becomes idle again with the next backoff,
    /// until the retry budget runs out.
    pub fn retry(&mut self) -> (r: Option<u64>)
        ensures
            old(self).retries >= MAX_RETRIES ==> (r is None && *final(self) == *old(self)),
            old(self).retries < MAX_RETRIES ==> (
                r == Option::Some(backoff_spec(old(self).retries))
                    && final(self).retries == old(self).retries + 1
                    && final(self).state == SenderState::Idle
            ),
    {
        if self.retries >= MAX_RETRIES {
            return Option::None;
        }
        let wait = backoff_ms(self.retries);
        self.retries = self.retries + 1;
        self.state = SenderState::Idle;
        Option::Some(wait)
    }
}

/// Checks contiguous linkage of a reply against the requested digest.
pub fn validate_contiguous(from: &Digest, bs: &Vec<PowBlock>) -> (r: bool)
    ensures
        r == contiguous_from(from@, bs@),
{
    let n: usize = bs.len();
    if n == 0 {
        return true;
    }
    let first_ok = match &bs[0].parent_hash {
        Option::Some(d) => d.equals(from),
        Option::None => false,
    };
    if !first_ok {
        return false;
    }
    let mut k: usize = 1;
    while k < n
        invariant
            1 <= k <= n,
            n == bs@.len(),
            opt_digest_view(bs@[0].parent_hash) == Option::Some(from@),
            forall|x: int| 1 <= x < k
                ==> opt_digest_view(#[trigger] bs@[x].parent_hash)
                    == Option::Some(opt_hash_seq(opt_digest_view(bs@[x - 1].hash))),
        decreases n - k,
    {
        let prev_hash: Digest = match &bs[k - 1].hash {
            Option::Some(d) => d.duplicate(),
            Option::None => Digest { bytes: Vec::new() },
        };
        let link_ok = match &bs[k].parent_hash {
            Option::Some(d) => d.equals(&prev_hash),
            Option::None => false,
        };
        if !link_ok {
            return false;
        }
        k = k + 1;
    }
    true
}

} // verus!
