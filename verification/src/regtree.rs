//! One regression tree: a flat node array decoded from the stream, and
//! traversal from a chosen root to a leaf.
//!
//! Wire layout (little-endian), as written by the training tool:
//! a 148-byte tree parameter block (six 32-bit fields, then 31 reserved
//! 32-bit words), then `num_nodes` nodes of 20 bytes each (parent, left
//! child, right child, split index word, value word), then one 16-byte
//! per-node statistics record, consumed but not interpreted.
//!
//! A node's split index word packs the split feature index in the low 31
//! bits and the default direction for missing values in the highest bit
//! (set: go left).  A node is a leaf when its left child index is -1; its
//! value word is then the leaf value, otherwise the split threshold.

use vstd::prelude::*;

use crate::errors::PredictError;
use crate::float_bits::{spec_is_nan_bits, spec_lt_bits, is_nan_bits, lt_bits};
use crate::model_reader::{ModelReader, spec_le_i32, spec_le_u32};

verus! {

/// Decoded tree parameter block.
#[derive(Debug)]
pub struct TreeParam {
    pub num_roots: i32,
    pub num_nodes: i32,
    pub num_deleted: i32,
    pub max_depth: i32,
    pub num_feature: i32,
    pub size_leaf_vector: i32,
}

/// One tree node.  `info` is the bit pattern of the leaf value (for a
/// leaf) or of the split threshold (for an inner node).
#[derive(Clone, Copy, PartialEq, Eq, Structural, Debug)]
pub struct Node {
    pub parent: i32,
    pub cleft: i32,
    pub cright: i32,
    pub sindex: u32,
    pub info: u32,
}

impl Node {
    /// A leaf is marked by a left child index of -1.
    pub open spec fn spec_is_leaf(self) -> bool {
        self.cleft == -1
    }

    /// Split feature index: the low 31 bits of the split index word.
    pub open spec fn spec_split_index(self) -> int {
        (self.sindex & 0x7fff_ffff) as int
    }

    /// Default direction for a missing feature value: highest bit set
    /// means the left child.
    pub open spec fn spec_default_left(self) -> bool {
        self.sindex & 0x8000_0000 != 0
    }

    /// The child traversal steps to for feature vector `feat`: the stored
    /// default child when the value is missing (NaN), else left iff the
    /// value is strictly below the threshold.
    pub open spec fn spec_next(self, feat: Seq<u32>) -> int
        recommends
            0 <= self.spec_split_index() < feat.len(),
    {
        let v = feat[self.spec_split_index()];
        if spec_is_nan_bits(v) {
            if self.spec_default_left() {
                self.cleft as int
            } else {
                self.cright as int
            }
        } else if spec_lt_bits(v, self.info) {
            self.cleft as int
        } else {
            self.cright as int
        }
    }
}

/// A non-leaf node's children lie strictly beyond it and inside the
/// array: trees are written with children after parents, so this both
/// rules out cycles and gives traversal its termination measure.
pub open spec fn spec_node_wf(n: Node, i: int, len: int) -> bool {
    !n.spec_is_leaf() ==> i < n.cleft < len && i < n.cright < len
}

pub open spec fn spec_nodes_wf(nodes: Seq<Node>) -> bool {
    forall|i: int| 0 <= i < nodes.len() ==> spec_node_wf(#[trigger] nodes[i], i, nodes.len() as int)
}

/// A decoded regression tree.
#[derive(Debug)]
pub struct RegTree {
    pub param: TreeParam,
    pub nodes: Vec<Node>,
}

/// The mathematical content of a decoded tree.
pub struct TreeShape {
    pub param: TreeParam,
    pub nodes: Seq<Node>,
}

/// The shape of the tree encoded at `p`.
pub open spec fn spec_tree_shape(b: Seq<u8>, p: int) -> TreeShape {
    TreeShape { param: spec_tree_param(b, p), nodes: spec_tree_nodes(b, p) }
}

/// The tree parameter block encoded at `p` (first 24 of 148 bytes).
pub open spec fn spec_tree_param(b: Seq<u8>, p: int) -> TreeParam {
    TreeParam {
        num_roots: spec_le_i32(b.subrange(p, p + 4)) as i32,
        num_nodes: spec_le_i32(b.subrange(p + 4, p + 8)) as i32,
        num_deleted: spec_le_i32(b.subrange(p + 8, p + 12)) as i32,
        max_depth: spec_le_i32(b.subrange(p + 12, p + 16)) as i32,
        num_feature: spec_le_i32(b.subrange(p + 16, p + 20)) as i32,
        size_leaf_vector: spec_le_i32(b.subrange(p + 20, p + 24)) as i32,
    }
}

/// The node encoded at `p` (20 bytes).
pub open spec fn spec_node_at(b: Seq<u8>, p: int) -> Node {
    Node {
        parent: spec_le_i32(b.subrange(p, p + 4)) as i32,
        cleft: spec_le_i32(b.subrange(p + 4, p + 8)) as i32,
        cright: spec_le_i32(b.subrange(p + 8, p + 12)) as i32,
        sindex: spec_le_u32(b.subrange(p + 12, p + 16)) as u32,
        info: spec_le_u32(b.subrange(p + 16, p + 20)) as u32,
    }
}

/// Node count field of the tree at `p`.
pub open spec fn spec_tree_num_nodes(b: Seq<u8>, p: int) -> int {
    spec_le_i32(b.subrange(p + 4, p + 8))
}

/// The node array of the tree at `p`.
pub open spec fn spec_tree_nodes(b: Seq<u8>, p: int) -> Seq<Node> {
    Seq::new(spec_tree_num_nodes(b, p) as nat, |i: int| spec_node_at(b, p + 148 + 20 * i))
}

/// Position just past the tree at `p` (parameters, nodes, statistics).
pub open spec fn spec_tree_end(b: Seq<u8>, p: int) -> int {
    p + 148 + 36 * spec_tree_num_nodes(b, p)
}

/// Whether a whole, well-formed tree is encoded at `p`.
pub open spec fn spec_tree_ok(b: Seq<u8>, p: int) -> bool {
    &&& p + 148 <= b.len()
    &&& spec_tree_num_nodes(b, p) >= 0
    &&& p + 148 + 20 * spec_tree_num_nodes(b, p) <= b.len()
    &&& spec_nodes_wf(spec_tree_nodes(b, p))
    &&& spec_tree_end(b, p) <= b.len()
}

/// The error decoding the tree at `p` fails with, when it fails: checks
/// happen in stream order, so a malformed node count or child index is
/// only reported once the bytes holding it were available.
pub open spec fn spec_tree_err(b: Seq<u8>, p: int) -> PredictError {
    if p + 148 > b.len() {
        PredictError::TruncatedInput
    } else if spec_tree_num_nodes(b, p) < 0 {
        PredictError::MalformedTree
    } else if p + 148 + 20 * spec_tree_num_nodes(b, p) > b.len() {
        PredictError::TruncatedInput
    } else if !spec_nodes_wf(spec_tree_nodes(b, p)) {
        PredictError::MalformedTree
    } else {
        PredictError::TruncatedInput
    }
}

/// Result of traversing `nodes` from node `i` for feature vector `feat`.
pub enum Traversal {
    /// Ended at this leaf node index.
    Leaf(int),
    /// A node on the path splits on a feature index beyond `feat`.
    BadFeature,
    /// The walk left the node array (bad root or malformed structure).
    BadNode,
}

/// Pure traversal: repeatedly step to the child selected by the current
/// node's split until a leaf is reached.
pub open spec fn spec_traverse(nodes: Seq<Node>, feat: Seq<u32>, i: int) -> Traversal
    decreases nodes.len() - i,
{
    if i < 0 || i >= nodes.len() {
        Traversal::BadNode
    } else if nodes[i].spec_is_leaf() {
        Traversal::Leaf(i)
    } else if nodes[i].spec_split_index() >= feat.len() {
        Traversal::BadFeature
    } else {
        let c = nodes[i].spec_next(feat);
        if c <= i || c >= nodes.len() {
            Traversal::BadNode
        } else {
            spec_traverse(nodes, feat, c)
        }
    }
}

/// The index of the leaf traversal from `i` ends at, when it ends at a
/// leaf.
pub open spec fn spec_leaf_index(nodes: Seq<Node>, feat: Seq<u32>, i: int) -> int {
    match spec_traverse(nodes, feat, i) {
        Traversal::Leaf(l) => l,
        Traversal::BadFeature => 0,
        Traversal::BadNode => 0,
    }
}

/// The leaf value traversal from `i` ends at, when it ends at a leaf.
pub open spec fn spec_leaf_value(nodes: Seq<Node>, feat: Seq<u32>, i: int) -> u32 {
    match spec_traverse(nodes, feat, i) {
        Traversal::Leaf(l) => nodes[l].info,
        Traversal::BadFeature => 0,
        Traversal::BadNode => 0,
    }
}

impl RegTree {
    /// The mathematical content of this tree.
    pub open spec fn shape(&self) -> TreeShape {
        TreeShape { param: self.param, nodes: self.nodes@ }
    }

    /// Children of every non-leaf node lie strictly beyond it.
    pub open spec fn wf(&self) -> bool {
        spec_nodes_wf(self.nodes@)
    }

    /// Decodes one tree from the stream: parameter block, node array,
    /// per-node statistics.  Fails with `TruncatedInput` on a short read
    /// and with `MalformedTree` on a negative node count or on a child
    /// index that does not lie strictly beyond its parent inside the
    /// array.
    #[verifier::loop_isolation(false)]
    pub fn read_from(reader: &mut ModelReader) -> (r: Result<RegTree, PredictError>)
        requires
            old(reader).wf(),
        ensures
            final(reader).wf(),
            final(reader).bytes() == old(reader).bytes(),
            match r {
                Ok(t) => spec_tree_ok(old(reader).bytes(), old(reader).pos()) && t.param
                    == spec_tree_param(old(reader).bytes(), old(reader).pos()) && t.nodes@
                    == spec_tree_nodes(old(reader).bytes(), old(reader).pos())
                    && final(reader).pos() == spec_tree_end(old(reader).bytes(), old(reader).pos())
                    && t.wf(),
                Err(e) => !spec_tree_ok(old(reader).bytes(), old(reader).pos()) && e
                    == spec_tree_err(old(reader).bytes(), old(reader).pos()),
            },
    {
        let ghost b = old(reader).bytes();
        let ghost p = old(reader).pos();
        let num_roots = reader.read_i32_le()?;
        let num_nodes = reader.read_i32_le()?;
        let num_deleted = reader.read_i32_le()?;
        let max_depth = reader.read_i32_le()?;
        let num_feature = reader.read_i32_le()?;
        let size_leaf_vector = reader.read_i32_le()?;
        reader.read_to_i32_buffer(31)?;
        let param = TreeParam { num_roots, num_nodes, num_deleted, max_depth, num_feature,
            size_leaf_vector };
        proof {
            assert(param == spec_tree_param(b, p));
            assert(num_nodes == spec_tree_num_nodes(b, p));
        }
        if num_nodes < 0 {
            return Err(PredictError::MalformedTree);
        }
        let nn = num_nodes as usize;
        let mut nodes: Vec<Node> = Vec::new();
        let mut i: usize = 0;
        while i < nn
            invariant
                reader.wf(),
                reader.bytes() == b,
                reader.pos() == p + 148 + 20 * i,
                i <= nn,
                nn == spec_tree_num_nodes(b, p),
                nodes@.len() == i,
                forall|j: int| 0 <= j < i ==> nodes@[j] == spec_node_at(b, p + 148 + 20 * j),
            decreases nn - i,
        {
            let parent = reader.read_i32_le()?;
            let cleft = reader.read_i32_le()?;
            let cright = reader.read_i32_le()?;
            let sindex = reader.read_u32_le()?;
            let info = reader.read_f32_bits()?;
            let n = Node { parent, cleft, cright, sindex, info };
            proof {
                assert(n == spec_node_at(b, p + 148 + 20 * i));
            }
            nodes.push(n);
            i = i + 1;
        }
        proof {
            assert(nodes@ =~= spec_tree_nodes(b, p));
        }
        let mut k: usize = 0;
        while k < nn
            invariant
                nodes@ == spec_tree_nodes(b, p),
                nodes@.len() == nn,
                k <= nn,
                nn == spec_tree_num_nodes(b, p),
                nn <= 0x7fff_ffff,
                forall|j: int| 0 <= j < k ==> spec_node_wf(#[trigger] nodes@[j], j, nn as int),
            decreases nn - k,
        {
            let n = nodes[k];
            if n.cleft != -1 {
                let ki = k as i32;
                if !(n.cleft > ki && n.cright > ki && n.cleft < num_nodes && n.cright < num_nodes) {
                    proof {
                        assert(!spec_node_wf(nodes@[k as int], k as int, nn as int));
                        assert(!spec_nodes_wf(spec_tree_nodes(b, p)));
                    }
                    return Err(PredictError::MalformedTree);
                }
            }
            k = k + 1;
        }
        proof {
            assert(spec_nodes_wf(spec_tree_nodes(b, p)));
        }
        proof {
            assert(16 * nn <= usize::MAX);
        }
        reader.skip(16 * nn)?;
        Ok(RegTree { param, nodes })
    }

    /// Index of the leaf that `feat` reaches from root node `root_index`.
    /// Fails with `FeatureIndexOutOfRange` when a node on the path splits
    /// on a feature beyond `feat`, and with `MalformedTree` when
    /// `root_index` is no valid node.
    #[verifier::loop_isolation(false)]
    pub fn get_leaf_index(&self, feat: &[u32], root_index: usize) -> (r: Result<
        usize,
        PredictError,
    >)
        requires
            self.wf(),
        ensures
            match spec_traverse(self.nodes@, feat@, root_index as int) {
                Traversal::Leaf(l) => 0 <= l <= usize::MAX && r == Ok::<usize, PredictError>(
                    l as usize,
                ),
                Traversal::BadFeature => r == Err::<usize, PredictError>(
                    PredictError::FeatureIndexOutOfRange,
                ),
                Traversal::BadNode => r == Err::<usize, PredictError>(PredictError::MalformedTree),
            },
    {
        let mut cur: usize = root_index;
        loop
            invariant
                self.wf(),
                spec_traverse(self.nodes@, feat@, cur as int) == spec_traverse(
                    self.nodes@,
                    feat@,
                    root_index as int,
                ),
            decreases self.nodes@.len() - cur,
        {
            if cur >= self.nodes.len() {
                return Err(PredictError::MalformedTree);
            }
            let n = self.nodes[cur];
            if n.cleft == -1 {
                return Ok(cur);
            }
            let sidx = (n.sindex & 0x7fff_ffff) as usize;
            if sidx >= feat.len() {
                return Err(PredictError::FeatureIndexOutOfRange);
            }
            let v = feat[sidx];
            let next: i32 = if is_nan_bits(v) {
                if n.sindex & 0x8000_0000 != 0 {
                    n.cleft
                } else {
                    n.cright
                }
            } else if lt_bits(v, n.info) {
                n.cleft
            } else {
                n.cright
            };
            proof {
                assert(next == self.nodes@[cur as int].spec_next(feat@));
                assert(spec_node_wf(self.nodes@[cur as int], cur as int, self.nodes@.len() as int));
            }
            cur = next as usize;
        }
    }

    /// Traversal only ever ends `Leaf` on a leaf node inside the array.
    pub proof fn lemma_traverse_leaf_range(nodes: Seq<Node>, feat: Seq<u32>, i: int)
        ensures
            match spec_traverse(nodes, feat, i) {
                Traversal::Leaf(l) => 0 <= l < nodes.len() && nodes[l].spec_is_leaf(),
                Traversal::BadFeature => true,
                Traversal::BadNode => true,
            },
        decreases nodes.len() - i,
    {
        if 0 <= i < nodes.len() && !nodes[i].spec_is_leaf() && nodes[i].spec_split_index()
            < feat.len() {
            let c = nodes[i].spec_next(feat);
            if i < c < nodes.len() {
                Self::lemma_traverse_leaf_range(nodes, feat, c);
            }
        }
    }

    /// Value of the leaf that `feat` reaches from root node `root_index`.
    pub fn get_leaf_value(&self, feat: &[u32], root_index: usize) -> (r: Result<u32, PredictError>)
        requires
            self.wf(),
        ensures
            match spec_traverse(self.nodes@, feat@, root_index as int) {
                Traversal::Leaf(l) => r == Ok::<u32, PredictError>(
                    spec_leaf_value(self.nodes@, feat@, root_index as int),
                ),
                Traversal::BadFeature => r == Err::<u32, PredictError>(
                    PredictError::FeatureIndexOutOfRange,
                ),
                Traversal::BadNode => r == Err::<u32, PredictError>(PredictError::MalformedTree),
            },
    {
        proof {
            Self::lemma_traverse_leaf_range(self.nodes@, feat@, root_index as int);
        }
        let nlen = self.nodes.len();
        let l = self.get_leaf_index(feat, root_index)?;
        proof {
            match spec_traverse(self.nodes@, feat@, root_index as int) {
                Traversal::Leaf(lg) => {
                    assert(0 <= lg < nlen);
                    assert(l == lg as usize);
                },
                Traversal::BadFeature => {
                    assert(false);
                },
                Traversal::BadNode => {
                    assert(false);
                },
            }
        }
        Ok(self.nodes[l].info)
    }
}

/// The 4-byte little-endian encoding of an unsigned 32-bit value.
pub open spec fn spec_le4(x: u32) -> Seq<u8> {
    seq![
        (x & 0xff) as u8,
        ((x >> 8) & 0xff) as u8,
        ((x >> 16) & 0xff) as u8,
        ((x >> 24) & 0xff) as u8,
    ]
}

/// The 4-byte little-endian encoding of a signed 32-bit value.
pub open spec fn spec_le4_i32(x: i32) -> Seq<u8> {
    spec_le4(
        if x >= 0 {
            x as u32
        } else {
            (x + 0x1_0000_0000) as u32
        },
    )
}

/// Decoding the 4-byte encoding gives the value back.
pub proof fn lemma_le4_round_trip(x: u32)
    ensures
        spec_le_u32(spec_le4(x)) == x,
{
    assert(x & 0xff < 256 && (x >> 8) & 0xff < 256 && (x >> 16) & 0xff < 256 && (x >> 24) & 0xff
        < 256 && (x & 0xff) + ((x >> 8) & 0xff) * 0x100 + ((x >> 16) & 0xff) * 0x1_0000 + ((x
        >> 24) & 0xff) * 0x100_0000 == x) by (bit_vector);
    let b = spec_le4(x);
    assert(b[0] == (x & 0xff) as u8 && b[1] == ((x >> 8) & 0xff) as u8 && b[2] == ((x >> 16)
        & 0xff) as u8 && b[3] == ((x >> 24) & 0xff) as u8);
}

/// Decoding the 4-byte signed encoding gives the value back.
pub proof fn lemma_le4_i32_round_trip(x: i32)
    ensures
        spec_le_i32(spec_le4_i32(x)) == x,
{
    if x >= 0 {
        lemma_le4_round_trip(x as u32);
        assert((x as u32) < 0x8000_0000u32) by (bit_vector)
            requires
                x >= 0,
        ;
    } else {
        let u = (x + 0x1_0000_0000) as u32;
        lemma_le4_round_trip(u);
        assert(u >= 0x8000_0000) by (bit_vector)
            requires
                u == x + 0x1_0000_0000 && x < 0,
        ;
    }
}

/// The 20-byte encoding of one node.
pub open spec fn spec_encode_node(n: Node) -> Seq<u8> {
    spec_le4_i32(n.parent) + spec_le4_i32(n.cleft) + spec_le4_i32(n.cright) + spec_le4(n.sindex)
        + spec_le4(n.info)
}

/// The concatenated encodings of a node array.
pub open spec fn spec_encode_nodes(nodes: Seq<Node>) -> Seq<u8>
    decreases nodes.len(),
{
    if nodes.len() == 0 {
        Seq::empty()
    } else {
        spec_encode_node(nodes[0]) + spec_encode_nodes(nodes.drop_first())
    }
}

/// Each node's encoding sits 20 bytes after the previous one.
pub proof fn lemma_encode_nodes_at(nodes: Seq<Node>, i: int)
    requires
        0 <= i < nodes.len(),
    ensures
        spec_encode_nodes(nodes).len() == 20 * nodes.len(),
        spec_encode_nodes(nodes).subrange(20 * i, 20 * i + 20) == spec_encode_node(nodes[i]),
    decreases nodes.len(),
{
    lemma_encode_nodes_len(nodes);
    if i == 0 {
        assert(spec_encode_nodes(nodes).subrange(0, 20) =~= spec_encode_node(nodes[0]));
    } else {
        lemma_encode_nodes_at(nodes.drop_first(), i - 1);
        assert(spec_encode_nodes(nodes).subrange(20 * i, 20 * i + 20) =~= spec_encode_nodes(
            nodes.drop_first(),
        ).subrange(20 * (i - 1), 20 * (i - 1) + 20));
    }
}

pub proof fn lemma_encode_nodes_len(nodes: Seq<Node>)
    ensures
        spec_encode_nodes(nodes).len() == 20 * nodes.len(),
    decreases nodes.len(),
{
    if nodes.len() > 0 {
        lemma_encode_nodes_len(nodes.drop_first());
    }
}

/// The whole encoding of a tree: parameter block with zeroed reserved
/// words, the node array, and zeroed statistics records.
pub open spec fn spec_encode_tree(t: TreeShape) -> Seq<u8> {
    spec_le4_i32(t.param.num_roots) + spec_le4_i32(t.param.num_nodes) + spec_le4_i32(
        t.param.num_deleted,
    ) + spec_le4_i32(t.param.max_depth) + spec_le4_i32(t.param.num_feature) + spec_le4_i32(
        t.param.size_leaf_vector,
    ) + Seq::new(124, |i: int| 0u8) + spec_encode_nodes(t.nodes) + Seq::new(
        (16 * t.nodes.len()) as nat,
        |i: int| 0u8,
    )
}

/// Round trip: decoding the encoding of a well-formed tree shape
/// reproduces its parameters and every node field exactly, consuming
/// the whole encoding.
#[verifier::rlimit(100)]
pub proof fn lemma_tree_round_trip(t: TreeShape)
    requires
        t.param.num_nodes == t.nodes.len(),
        spec_nodes_wf(t.nodes),
    ensures
        spec_tree_ok(spec_encode_tree(t), 0),
        spec_tree_param(spec_encode_tree(t), 0) == t.param,
        spec_tree_nodes(spec_encode_tree(t), 0) == t.nodes,
        spec_tree_end(spec_encode_tree(t), 0) == spec_encode_tree(t).len(),
{
    let enc = spec_encode_tree(t);
    lemma_encode_nodes_len(t.nodes);
    assert(enc.len() == 148 + 36 * t.nodes.len());
    let fields = seq![
        t.param.num_roots,
        t.param.num_nodes,
        t.param.num_deleted,
        t.param.max_depth,
        t.param.num_feature,
        t.param.size_leaf_vector,
    ];
    assert forall|k: int| 0 <= k < 6 implies spec_le_i32(enc.subrange(4 * k, 4 * k + 4))
        == fields[k] by {
        assert(enc.subrange(4 * k, 4 * k + 4) =~= spec_le4_i32(fields[k]));
        lemma_le4_i32_round_trip(fields[k]);
    }
    assert(spec_tree_param(enc, 0) == t.param);
    assert(spec_tree_num_nodes(enc, 0) == t.nodes.len());
    assert forall|i: int| 0 <= i < t.nodes.len() implies spec_node_at(enc, 148 + 20 * i)
        == t.nodes[i] by {
        lemma_encode_nodes_at(t.nodes, i);
        let ne = spec_encode_node(t.nodes[i]);
        assert(enc.subrange(148 + 20 * i, 148 + 20 * i + 20) =~= ne);
        assert(ne.subrange(0, 4) =~= spec_le4_i32(t.nodes[i].parent));
        assert(ne.subrange(4, 8) =~= spec_le4_i32(t.nodes[i].cleft));
        assert(ne.subrange(8, 12) =~= spec_le4_i32(t.nodes[i].cright));
        assert(ne.subrange(12, 16) =~= spec_le4(t.nodes[i].sindex));
        assert(ne.subrange(16, 20) =~= spec_le4(t.nodes[i].info));
        lemma_le4_i32_round_trip(t.nodes[i].parent);
        lemma_le4_i32_round_trip(t.nodes[i].cleft);
        lemma_le4_i32_round_trip(t.nodes[i].cright);
        lemma_le4_round_trip(t.nodes[i].sindex);
        lemma_le4_round_trip(t.nodes[i].info);
        assert(enc.subrange(148 + 20 * i, 148 + 20 * i + 4) =~= ne.subrange(0, 4));
        assert(enc.subrange(148 + 20 * i + 4, 148 + 20 * i + 8) =~= ne.subrange(4, 8));
        assert(enc.subrange(148 + 20 * i + 8, 148 + 20 * i + 12) =~= ne.subrange(8, 12));
        assert(enc.subrange(148 + 20 * i + 12, 148 + 20 * i + 16) =~= ne.subrange(12, 16));
        assert(enc.subrange(148 + 20 * i + 16, 148 + 20 * i + 20) =~= ne.subrange(16, 20));
    }
    assert(spec_tree_nodes(enc, 0) =~= t.nodes);
}

/// A missing (NaN) feature value follows the node's stored default
/// direction: traversal from a node whose split feature is missing
/// continues exactly as traversal from that node's default child.
pub proof fn lemma_missing_follows_default(nodes: Seq<Node>, feat: Seq<u32>, i: int)
    requires
        spec_nodes_wf(nodes),
        0 <= i < nodes.len(),
        !nodes[i].spec_is_leaf(),
        0 <= nodes[i].spec_split_index() < feat.len(),
        spec_is_nan_bits(feat[nodes[i].spec_split_index()]),
    ensures
        spec_traverse(nodes, feat, i) == spec_traverse(
            nodes,
            feat,
            if nodes[i].spec_default_left() {
                nodes[i].cleft as int
            } else {
                nodes[i].cright as int
            },
        ),
{
    assert(spec_node_wf(nodes[i], i, nodes.len() as int));
}

} // verus!
