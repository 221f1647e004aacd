//! The block DAG of one chain: vertices are blocks keyed by digest, edges go
//! from parent to child and are materialized as a parent index per vertex.
//!
//! Invariants: the single root is genesis; every other vertex's parent index
//! points strictly backwards, heights increase by exactly one along every
//! edge (so the graph is acyclic), the stored parent digest is the parent's
//! digest, and digests are unique. Tips are vertices with no children; the
//! canonical tip is the tip of greatest height, ties broken by smallest
//! digest in lexicographic byte order.

use vstd::prelude::*;
use crate::block::{
    blk_hash_ok, blk_hash_view, blk_height, blk_parent_view, blk_wf, Block,
};
use crate::byteops::{lex_lt, lemma_lex_irrefl, lemma_lex_total, lemma_lex_trans};
use crate::digest::Digest;

verus! {

/// One vertex: the block and its parent edge.
pub struct Node {
    pub block: Block,
    pub parent: Option<usize>,
}

/// The DAG: vertices in insertion order.
pub struct Dag {
    pub nodes: Vec<Node>,
}

impl View for Dag {
    type V = Seq<Node>;

    open spec fn view(&self) -> Seq<Node> {
        self.nodes@
    }
}

/// The byte sequence an optional digest view denotes (empty when absent).
pub open spec fn opt_hash_seq(o: Option<Seq<u8>>) -> Seq<u8> {
    match o {
        Option::None => Seq::empty(),
        Option::Some(h) => h,
    }
}

/// The digest of a vertex's block (empty only for a malformed block, which
/// well-formed DAGs exclude).
pub open spec fn node_hash(s: Seq<Node>, i: int) -> Seq<u8> {
    opt_hash_seq(blk_hash_view(s[i].block))
}

/// The height of a vertex's block.
pub open spec fn node_height(s: Seq<Node>, i: int) -> u64 {
    blk_height(s[i].block)
}

/// Linkage invariant of one vertex: the root is parentless at height zero;
/// every other vertex points strictly backwards, one height step up, and
/// stores its parent's digest.
pub open spec fn wf_at(s: Seq<Node>, i: int) -> bool {
    if i == 0 {
        &&& s[0].parent is None
        &&& node_height(s, 0) == 0
        &&& blk_parent_view(s[0].block) is None
    } else {
        s[i].parent matches Option::Some(p)
            && 0 <= (p as int) < i
            && node_height(s, i) as int == node_height(s, p as int) as int + 1
            && blk_parent_view(s[i].block) == Option::Some(node_hash(s, p as int))
    }
}

/// Well-formedness of the whole DAG.
pub open spec fn wf_nodes(s: Seq<Node>) -> bool {
    &&& 1 <= s.len()
    &&& forall|i: int| 0 <= i < s.len() ==> #[trigger] wf_at(s, i)
    &&& forall|i: int| 0 <= i < s.len()
        ==> blk_wf(#[trigger] s[i].block) && blk_hash_ok(s[i].block)
            && blk_hash_view(s[i].block) is Some
    &&& forall|i: int, j: int| 0 <= i < s.len() && 0 <= j < s.len() && i != j
        ==> node_hash(s, i) != node_hash(s, j)
}

/// Whether vertex `j` is a child of vertex `i`.
pub open spec fn is_child(s: Seq<Node>, j: int, i: int) -> bool {
    0 <= j < s.len() && (s[j].parent matches Option::Some(p) && p as int == i)
}

/// A tip: a vertex with no children.
pub open spec fn is_tip(s: Seq<Node>, i: int) -> bool {
    0 <= i < s.len() && forall|j: int| 0 <= j < s.len() ==> !#[trigger] is_child(s, j, i)
}

/// The fork-choice order: greater height wins; equal heights fall to the
/// lexicographically smaller digest.
pub open spec fn beats(s: Seq<Node>, a: int, b: int) -> bool {
    ||| node_height(s, a) > node_height(s, b)
    ||| (node_height(s, a) == node_height(s, b) && lex_lt(node_hash(s, a), node_hash(s, b)))
}

/// The canonical tip: the tip that beats every other tip.
pub open spec fn is_canonical(s: Seq<Node>, c: int) -> bool {
    &&& is_tip(s, c)
    &&& forall|t: int| 0 <= t < s.len() && #[trigger] is_tip(s, t) && t != c ==> beats(s, c, t)
}

/// The ancestor of vertex `i` at height `h` (vertex `i` itself if its height
/// is already at most `h`).
pub open spec fn ancestor_at(s: Seq<Node>, i: int, h: int) -> int
    decreases i,
        when wf_nodes(s) && 0 <= i < s.len() && 0 <= h
        via ancestor_at_dec
{
    if node_height(s, i) <= h {
        i
    } else {
        match s[i].parent {
            Option::Some(p) => ancestor_at(s, p as int, h),
            Option::None => 0,
        }
    }
}

#[via_fn]
proof fn ancestor_at_dec(s: Seq<Node>, i: int, h: int) {
    if node_height(s, i) > h {
        assert(wf_at(s, i));
    }
}

/// Heights never exceed indices: the root is the only vertex at height zero.
pub proof fn lemma_height_le_index(s: Seq<Node>, i: int)
    requires
        wf_nodes(s),
        0 <= i < s.len(),
    ensures
        node_height(s, i) <= i,
    decreases i,
{
    assert(wf_at(s, i));
    if i > 0 {
        let p = s[i].parent->Some_0;
        lemma_height_le_index(s, p as int);
    }
}

/// Height monotonicity: along every parent edge the child sits exactly one
/// height above its parent.
pub proof fn lemma_height_monotone(s: Seq<Node>, i: int)
    requires
        wf_nodes(s),
        1 <= i < s.len(),
    ensures
        (s[i].parent matches Option::Some(p) && 0 <= (p as int) < i
            && node_height(s, i) as int == node_height(s, p as int) as int + 1),
{
    assert(wf_at(s, i));
}

/// Range and height of an ancestor.
pub proof fn lemma_anc_basic(s: Seq<Node>, i: int, h: int)
    requires
        wf_nodes(s),
        0 <= i < s.len(),
        0 <= h,
    ensures
        0 <= ancestor_at(s, i, h) <= i,
        h >= node_height(s, i) ==> ancestor_at(s, i, h) == i,
        h <= node_height(s, i) ==> node_height(s, ancestor_at(s, i, h)) == h,
    decreases i,
{
    assert(wf_at(s, i));
    if node_height(s, i) > h {
        let p = s[i].parent->Some_0;
        lemma_anc_basic(s, p as int, h);
    }
}

/// Taking an ancestor twice composes: the ancestor at `g` of the ancestor at
/// `h` is the ancestor at `g`.
pub proof fn lemma_anc_compose(s: Seq<Node>, i: int, g: int, h: int)
    requires
        wf_nodes(s),
        0 <= i < s.len(),
        0 <= g <= h,
    ensures
        ancestor_at(s, ancestor_at(s, i, h), g) == ancestor_at(s, i, g),
    decreases i,
{
    assert(wf_at(s, i));
    if node_height(s, i) > h {
        let p = s[i].parent->Some_0;
        lemma_anc_compose(s, p as int, g, h);
    }
}

/// Every vertex's ancestor at height zero is the root.
pub proof fn lemma_anc_zero(s: Seq<Node>, i: int)
    requires
        wf_nodes(s),
        0 <= i < s.len(),
    ensures
        ancestor_at(s, i, 0) == 0,
    decreases i,
{
    assert(wf_at(s, i));
    if node_height(s, i) > 0 {
        let p = s[i].parent->Some_0;
        lemma_anc_zero(s, p as int);
    } else {
        if i > 0 {
            let p = s[i].parent->Some_0;
            assert(node_height(s, i) as int == node_height(s, p as int) as int + 1);
        }
    }
}

/// One step along the canonical path: the ancestor at `h` is the parent of
/// the ancestor at `h + 1`.
pub proof fn lemma_anc_step(s: Seq<Node>, i: int, h: int)
    requires
        wf_nodes(s),
        0 <= i < s.len(),
        0 <= h < node_height(s, i),
    ensures
        (s[ancestor_at(s, i, h + 1)].parent matches Option::Some(p)
            && p as int == ancestor_at(s, i, h)),
        node_height(s, ancestor_at(s, i, h + 1)) == h + 1,
        0 <= ancestor_at(s, i, h + 1) < s.len(),
{
    lemma_anc_basic(s, i, h + 1);
    let a1 = ancestor_at(s, i, h + 1);
    assert(wf_at(s, a1));
    let p = s[a1].parent->Some_0;
    lemma_anc_compose(s, i, h, h + 1);
    assert(ancestor_at(s, a1, h) == ancestor_at(s, p as int, h));
    lemma_anc_basic(s, p as int, h);
}

/// The fork-choice order is transitive.
pub proof fn lemma_beats_trans(s: Seq<Node>, a: int, b: int, c: int)
    requires
        beats(s, a, b),
        beats(s, b, c),
    ensures
        beats(s, a, c),
{
    if node_height(s, a) == node_height(s, b) && node_height(s, b) == node_height(s, c) {
        lemma_lex_trans(node_hash(s, a), node_hash(s, b), node_hash(s, c));
    }
}

/// The fork-choice order picks a single canonical tip.
pub proof fn lemma_canonical_unique(s: Seq<Node>, a: int, b: int)
    requires
        wf_nodes(s),
        is_canonical(s, a),
        is_canonical(s, b),
    ensures
        a == b,
{
    if a != b {
        assert(beats(s, a, b));
        assert(beats(s, b, a));
        lemma_lex_trans(node_hash(s, a), node_hash(s, b), node_hash(s, a));
        lemma_lex_irrefl(node_hash(s, a));
    }
}

impl Dag {
    /// A DAG holding just the genesis vertex.
    pub fn new_dag(genesis: Block) -> (r: Dag)
        requires
            blk_wf(genesis),
            blk_hash_ok(genesis),
            blk_hash_view(genesis) is Some,
            blk_height(genesis) == 0,
            blk_parent_view(genesis) is None,
        ensures
            r@.len() == 1,
            r@[0].block == genesis,
            r@[0].parent is None,
            wf_nodes(r@),
    {
        let mut nodes: Vec<Node> = Vec::new();
        nodes.push(Node { block: genesis, parent: Option::None });
        let d = Dag { nodes };
        proof {
            assert(wf_at(d@, 0));
        }
        d
    }

    /// Number of vertices.
    pub fn len(&self) -> (r: usize)
        ensures
            r == self@.len(),
    {
        self.nodes.len()
    }

    /// The block of a vertex.
    pub fn fetch(&self, i: usize) -> (r: &Block)
        requires
            i < self@.len(),
        ensures
            *r == self@[i as int].block,
    {
        &self.nodes[i].block
    }

    /// The vertex with the given digest, if any.
    pub fn fetch_by_hash(&self, d: &Digest) -> (r: Option<usize>)
        requires
            wf_nodes(self@),
        ensures
            match r {
                Option::Some(i) => i < self@.len() && node_hash(self@, i as int) == d@,
                Option::None => forall|i: int| 0 <= i < self@.len() ==> node_hash(self@, i) != d@,
            },
    {
        let n: usize = self.nodes.len();
        let mut i: usize = 0;
        while i < n
            invariant
                0 <= i <= n,
                n == self@.len(),
                wf_nodes(self@),
                forall|j: int| 0 <= j < i ==> node_hash(self@, j) != d@,
            decreases n - i,
        {
            if self.nodes[i].block.hash_matches(d) {
                return Option::Some(i);
            }
            i = i + 1;
        }
        Option::None
    }

    /// The depth label of a vertex: the length of the root path, which the
    /// linkage invariant makes equal to the block height.
    pub fn label(&self, i: usize) -> (r: u64)
        requires
            wf_nodes(self@),
            i < self@.len(),
        ensures
            r == node_height(self@, i as int),
    {
        self.nodes[i].block.height()
    }

    /// A fresh digest of the vertex's block.
    pub fn node_digest(&self, i: usize) -> (r: Digest)
        requires
            wf_nodes(self@),
            i < self@.len(),
        ensures
            r@ == node_hash(self@, i as int),
            r@.len() == 32,
    {
        let b = self.nodes[i].block.block_hash();
        match b {
            Option::Some(d) => d,
            Option::None => {
                proof {
                    assert(blk_hash_view(self@[i as int].block) is Some);
                }
                vstd::pervasive::unreached()
            }
        }
    }

    /// Whether vertex `i` has no children.
    pub fn is_tip_exec(&self, i: usize) -> (r: bool)
        requires
            wf_nodes(self@),
            i < self@.len(),
        ensures
            r == is_tip(self@, i as int),
    {
        let n: usize = self.nodes.len();
        let mut j: usize = 0;
        while j < n
            invariant
                0 <= j <= n,
                n == self@.len(),
                i < self@.len(),
                forall|j2: int| 0 <= j2 < j ==> !#[trigger] is_child(self@, j2, i as int),
            decreases n - j,
        {
            let child = match &self.nodes[j].parent {
                Option::Some(p) => *p == i,
                Option::None => false,
            };
            proof {
                assert(child == is_child(self@, j as int, i as int));
            }
            if child {
                return false;
            }
            j = j + 1;
        }
        true
    }

    /// The fork-choice comparison of two vertices.
    pub fn beats_exec(&self, a: usize, b: usize) -> (r: bool)
        requires
            wf_nodes(self@),
            a < self@.len(),
            b < self@.len(),
        ensures
            r == beats(self@, a as int, b as int),
    {
        let ha = self.nodes[a].block.height();
        let hb = self.nodes[b].block.height();
        if ha > hb {
            true
        } else if ha < hb {
            false
        } else {
            let da = self.node_digest(a);
            let db = self.node_digest(b);
            da.lex_before(&db)
        }
    }

    /// The canonical tip under the fork-choice rule.
    pub fn best_tip(&self) -> (r: usize)
        requires
            wf_nodes(self@),
        ensures
            r < self@.len(),
            is_canonical(self@, r as int),
    {
        let n: usize = self.nodes.len();
        let last: usize = n - 1;
        proof {
            assert forall|j: int| 0 <= j < self@.len() implies !#[trigger] is_child(self@, j, last as int) by {
                assert(wf_at(self@, j));
            }
        }
        let mut best: usize = last;
        let mut i: usize = 0;
        while i < n
            invariant
                0 <= i <= n,
                n == self@.len(),
                wf_nodes(self@),
                best < n,
                is_tip(self@, best as int),
                forall|t: int| 0 <= t < i && #[trigger] is_tip(self@, t) && t != best
                    ==> beats(self@, best as int, t),
            decreases n - i,
        {
            if self.is_tip_exec(i) && i != best {
                if self.beats_exec(i, best) {
                    proof {
                        assert forall|t: int| 0 <= t < i && #[trigger] is_tip(self@, t) && t != i
                            implies beats(self@, i as int, t) by {
                            if t != best {
                                lemma_beats_trans(self@, i as int, best as int, t);
                            }
                        }
                    }
                    best = i;
                } else {
                    proof {
                        lemma_lex_total(node_hash(self@, best as int), node_hash(self@, i as int));
                        assert(node_hash(self@, best as int) != node_hash(self@, i as int));
                        assert(beats(self@, best as int, i as int));
                    }
                }
            }
            i = i + 1;
        }
        best
    }

    /// The ancestor of vertex `i` at height `h`.
    pub fn ancestor_exec(&self, i: usize, h: u64) -> (r: usize)
        requires
            wf_nodes(self@),
            i < self@.len(),
        ensures
            r < self@.len(),
            r as int == ancestor_at(self@, i as int, h as int),
    {
        let mut cur: usize = i;
        while self.nodes[cur].block.height() > h
            invariant
                wf_nodes(self@),
                cur < self@.len(),
                ancestor_at(self@, i as int, h as int) == ancestor_at(self@, cur as int, h as int),
            decreases node_height(self@, cur as int),
        {
            proof {
                assert(wf_at(self@, cur as int));
            }
            let p = match &self.nodes[cur].parent {
                Option::Some(p) => *p,
                Option::None => vstd::pervasive::unreached(),
            };
            cur = p;
        }
        cur
    }

    /// The greatest height at which two vertices share their ancestor: the
    /// height of their lowest common ancestor.
    pub fn lca_height(&self, a: usize, b: usize) -> (r: u64)
        requires
            wf_nodes(self@),
            a < self@.len(),
            b < self@.len(),
        ensures
            r <= node_height(self@, a as int),
            r <= node_height(self@, b as int),
            ancestor_at(self@, a as int, r as int) == ancestor_at(self@, b as int, r as int),
            forall|g: int|
                r < g <= node_height(self@, a as int) && g <= node_height(self@, b as int)
                    ==> ancestor_at(self@, a as int, g) != ancestor_at(self@, b as int, g),
    {
        let ha = self.nodes[a].block.height();
        let hb = self.nodes[b].block.height();
        let mut h: u64 = if ha < hb { ha } else { hb };
        let mut ea = self.ancestor_exec(a, h);
        let mut eb = self.ancestor_exec(b, h);
        while ea != eb
            invariant
                wf_nodes(self@),
                a < self@.len(),
                b < self@.len(),
                h <= node_height(self@, a as int),
                h <= node_height(self@, b as int),
                ea as int == ancestor_at(self@, a as int, h as int),
                eb as int == ancestor_at(self@, b as int, h as int),
                forall|g: int|
                    h < g <= node_height(self@, a as int) && g <= node_height(self@, b as int)
                        ==> ancestor_at(self@, a as int, g) != ancestor_at(self@, b as int, g),
            decreases h,
        {
            proof {
                lemma_anc_zero(self@, a as int);
                lemma_anc_zero(self@, b as int);
                assert(h > 0);
            }
            h = h - 1;
            ea = self.ancestor_exec(a, h);
            eb = self.ancestor_exec(b, h);
        }
        h
    }

    /// The digests of the branch segment strictly above height `hlo` up to
    /// vertex `t`, ordered by increasing height.
    pub fn segment(&self, t: usize, hlo: u64) -> (r: Vec<Digest>)
        requires
            wf_nodes(self@),
            t < self@.len(),
            hlo <= node_height(self@, t as int),
        ensures
            r@.len() == node_height(self@, t as int) - hlo,
            forall|k: int| 0 <= k < r@.len()
                ==> (#[trigger] r@[k])@
                    == node_hash(self@, ancestor_at(self@, t as int, hlo as int + 1 + k)),
    {
        let ht = self.nodes[t].block.height();
        proof {
            lemma_height_le_index(self@, t as int);
        }
        let count: usize = (ht - hlo) as usize;
        proof {
            assert(count == node_height(self@, t as int) - hlo);
        }
        let mut out: Vec<Digest> = Vec::new();
        let mut k: usize = 0;
        while k < count
            invariant
                wf_nodes(self@),
                t < self@.len(),
                0 <= k <= count,
                hlo + count == node_height(self@, t as int),
                out@.len() == k,
                forall|j: int| 0 <= j < k
                    ==> (#[trigger] out@[j])@
                        == node_hash(self@, ancestor_at(self@, t as int, hlo as int + 1 + j)),
            decreases count - k,
        {
            let anc = self.ancestor_exec(t, hlo + 1 + (k as u64));
            let d = self.node_digest(anc);
            out.push(d);
            k = k + 1;
        }
        out
    }

    /// Appends a block as a child of vertex `parent`, preserving every DAG
    /// invariant.
    pub fn add_child(&mut self, block: Block, parent: usize) -> (r: usize)
        requires
            wf_nodes(old(self)@),
            parent < old(self)@.len(),
            blk_wf(block),
            blk_hash_ok(block),
            blk_hash_view(block) is Some,
            blk_height(block) as int == node_height(old(self)@, parent as int) as int + 1,
            blk_parent_view(block) == Option::Some(node_hash(old(self)@, parent as int)),
            forall|i: int| 0 <= i < old(self)@.len()
                ==> node_hash(old(self)@, i) != match blk_hash_view(block) {
                    Option::None => Seq::<u8>::empty(),
                    Option::Some(h) => h,
                },
        ensures
            final(self)@ == old(self)@.push(Node { block, parent: Option::Some(parent) }),
            wf_nodes(final(self)@),
            r == old(self)@.len(),
            final(self)@.len() == old(self)@.len() + 1,
    {
        let idx = self.nodes.len();
        let ghost s0 = self@;
        self.nodes.push(Node { block, parent: Option::Some(parent) });
        proof {
            let s2 = self@;
            assert(s2 == s0.push(Node { block, parent: Option::Some(parent) }));
            assert forall|i: int| 0 <= i < s2.len() implies #[trigger] wf_at(s2, i) by {
                if i < s0.len() {
                    assert(wf_at(s0, i));
                    assert(s2[i] == s0[i]);
                    if i > 0 {
                        let p = s0[i].parent->Some_0;
                        assert(s2[p as int] == s0[p as int]);
                    }
                } else {
                    assert(s2[i] == (Node { block, parent: Option::Some(parent) }));
                    assert(s2[parent as int] == s0[parent as int]);
                }
            }
            assert forall|i: int, j: int|
                0 <= i < s2.len() && 0 <= j < s2.len() && i != j
                implies node_hash(s2, i) != node_hash(s2, j) by {
                if i < s0.len() && j < s0.len() {
                    assert(node_hash(s2, i) == node_hash(s0, i));
                    assert(node_hash(s2, j) == node_hash(s0, j));
                } else if i < s0.len() {
                    assert(node_hash(s2, i) == node_hash(s0, i));
                } else {
                    assert(node_hash(s2, j) == node_hash(s0, j));
                }
            }
        }
        idx
    }
}

/// Pushing a vertex changes no existing vertex, digest, height or ancestor,
/// and shifts the tip set by exactly the new vertex's parent edge.
pub proof fn lemma_push_effects(s: Seq<Node>, nd: Node)
    requires
        wf_nodes(s),
        (nd.parent matches Option::Some(p) && (p as int) < s.len()),
    ensures
        forall|i: int| 0 <= i < s.len() ==> node_hash(s.push(nd), i) == node_hash(s, i),
        forall|i: int| 0 <= i < s.len() ==> node_height(s.push(nd), i) == node_height(s, i),
        forall|i: int| 0 <= i < s.len()
            ==> (#[trigger] is_tip(s.push(nd), i)
                == (is_tip(s, i) && i != nd.parent->Some_0 as int)),
        is_tip(s.push(nd), s.len() as int),
{
    let s2 = s.push(nd);
    let pp = nd.parent->Some_0 as int;
    assert forall|i: int| 0 <= i < s.len()
        implies (#[trigger] is_tip(s2, i) == (is_tip(s, i) && i != pp)) by {
        if is_tip(s, i) && i != pp {
            assert forall|j: int| 0 <= j < s2.len() implies !#[trigger] is_child(s2, j, i) by {
                if j < s.len() {
                    assert(!is_child(s, j, i));
                    assert(s2[j] == s[j]);
                }
            }
        }
        if is_tip(s2, i) {
            assert forall|j: int| 0 <= j < s.len() implies !#[trigger] is_child(s, j, i) by {
                assert(!is_child(s2, j, i));
                assert(s2[j] == s[j]);
            }
            assert(!is_child(s2, s.len() as int, i));
        }
    }
    assert forall|j: int| 0 <= j < s2.len() implies !#[trigger] is_child(s2, j, s.len() as int) by {
        if j < s.len() {
            assert(wf_at(s, j));
            assert(s2[j] == s[j]);
        }
    }
}

} // verus!
