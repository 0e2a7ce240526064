//! Tree-ensemble booster, including the dropout ("DART") variant.
//!
//! Wire layout: a 160-byte parameter block (tree count, root count,
//! feature count, one padding word, a 64-bit prediction-buffer size,
//! output group count, leaf vector size, 31 reserved words, one closing
//! padding word), then `num_trees` trees, then the `tree_info` group-tag
//! vector (one 32-bit tag per tree), then — when the model was saved
//! with a prediction buffer — that buffer's bytes, skipped without being
//! interpreted, and finally, for the dropout variant only, a 64-bit
//! count followed by that many dropout weights.

use vstd::prelude::*;

use crate::errors::PredictError;
use crate::float_bits::F32_ONE_BITS;
use crate::margin::{Term, spec_row};
use crate::model_reader::{ModelReader, spec_le_i32, spec_le_i64, spec_le_u32, spec_le_u64};
use crate::regtree::{
    Node,
    RegTree,
    TreeShape,
    Traversal,
    spec_leaf_index,
    spec_leaf_value,
    spec_traverse,
    spec_tree_end,
    spec_tree_err,
    spec_tree_ok,
    spec_tree_shape,
};

verus! {

/// Decoded ensemble parameters.
#[derive(Debug)]
pub struct ModelParam {
    /// number of trees
    pub num_trees: i32,
    /// number of roots per tree
    pub num_roots: i32,
    /// number of features used by the trees
    pub num_feature: i32,
    /// size of the prediction buffer the model was saved with
    pub num_pbuffer: u64,
    /// how many output groups a single instance produces
    pub num_output_group: u32,
    /// size of the leaf vector needed in a tree
    pub size_leaf_vector: u32,
}

/// Tree count field of the ensemble encoded at `p`.
pub open spec fn spec_gbt_num_trees(b: Seq<u8>, p: int) -> int {
    spec_le_i32(b.subrange(p, p + 4))
}

/// The ensemble parameter block encoded at `p` (160 bytes).
pub open spec fn spec_gbt_param(b: Seq<u8>, p: int) -> ModelParam {
    ModelParam {
        num_trees: spec_le_i32(b.subrange(p, p + 4)) as i32,
        num_roots: spec_le_i32(b.subrange(p + 4, p + 8)) as i32,
        num_feature: spec_le_i32(b.subrange(p + 8, p + 12)) as i32,
        num_pbuffer: spec_le_u64(b.subrange(p + 16, p + 24)) as u64,
        num_output_group: spec_le_u32(b.subrange(p + 24, p + 28)) as u32,
        size_leaf_vector: spec_le_u32(b.subrange(p + 28, p + 32)) as u32,
    }
}

/// Whether `k` consecutive well-formed trees are encoded at `p`.
pub open spec fn spec_trees_ok(b: Seq<u8>, p: int, k: int) -> bool
    decreases k,
{
    k <= 0 || (spec_tree_ok(b, p) && spec_trees_ok(b, spec_tree_end(b, p), k - 1))
}

/// Position just past `k` consecutive trees encoded at `p`.
pub open spec fn spec_trees_end(b: Seq<u8>, p: int, k: int) -> int
    decreases k,
{
    if k <= 0 {
        p
    } else {
        spec_trees_end(b, spec_tree_end(b, p), k - 1)
    }
}

/// The shapes of `k` consecutive trees encoded at `p`.
pub open spec fn spec_trees_shapes(b: Seq<u8>, p: int, k: int) -> Seq<TreeShape>
    decreases k,
{
    if k <= 0 {
        Seq::empty()
    } else {
        seq![spec_tree_shape(b, p)] + spec_trees_shapes(b, spec_tree_end(b, p), k - 1)
    }
}

/// The error decoding `k` consecutive trees fails with: that of the
/// first tree that fails.
pub open spec fn spec_trees_err(b: Seq<u8>, p: int, k: int) -> PredictError
    decreases k,
{
    if k <= 0 {
        PredictError::TruncatedInput
    } else if !spec_tree_ok(b, p) {
        spec_tree_err(b, p)
    } else {
        spec_trees_err(b, spec_tree_end(b, p), k - 1)
    }
}

/// The shapes of a vector of decoded trees.
pub open spec fn spec_shapes_of(ts: Seq<RegTree>) -> Seq<TreeShape> {
    ts.map_values(|t: RegTree| t.shape())
}

/// Prediction-buffer bytes to skip for a model saved with one.
pub open spec fn spec_pbuffer_bytes(m: ModelParam) -> int {
    8 * (m.num_pbuffer * m.num_output_group * (m.size_leaf_vector + 1))
}

/// Whether `t` is exactly the ensemble booster encoded at `p`, with the
/// group partition induced by its tags, decoding having ended at
/// `endpos`.
pub open spec fn spec_gbt_matches(
    t: &GBTree,
    b: Seq<u8>,
    p: int,
    with_pbuffer: bool,
    is_dart: bool,
    endpos: int,
) -> bool {
    &&& spec_gbt_ok(b, p, with_pbuffer, is_dart)
    &&& t.mparam == spec_gbt_param(b, p)
    &&& t.trees@.len() == spec_gbt_num_trees(b, p)
    &&& spec_shapes_of(t.trees@) == spec_trees_shapes(b, p + 160, spec_gbt_num_trees(b, p))
    &&& t.tree_info@ == spec_gbt_tree_info(b, p)
    &&& match t.weight_drop {
        Some(w) => is_dart && Some(w@) == spec_gbt_weight_drop(b, p, with_pbuffer, is_dart),
        None => !is_dart,
    }
    &&& t.wf()
    &&& endpos == spec_gbt_end(b, p, with_pbuffer, is_dart)
}

/// A decoded tree-ensemble booster.
#[derive(Debug)]
pub struct GBTree {
    pub mparam: ModelParam,
    /// All trees, in load order.
    pub trees: Vec<RegTree>,
    /// Output-group tag of each tree, in load order.
    pub tree_info: Vec<i32>,
    /// For each output group, the indices into `trees` of its member
    /// trees, preserving load order.
    pub group_trees: Vec<Vec<usize>>,
    /// Dropout weights, one per tree in load order; present only in the
    /// dropout variant.
    pub weight_drop: Option<Vec<u32>>,
}

impl GBTree {
    /// Every tree is well formed, the group partition is exactly the one
    /// induced by `tree_info` (members tagged with their group, in
    /// strictly increasing load order, and complete), and dropout
    /// weights, when present, cover every tree.
    pub open spec fn wf(&self) -> bool {
        &&& forall|t: int| 0 <= t < self.trees@.len() ==> (#[trigger] self.trees@[t]).wf()
        &&& self.tree_info@.len() == self.trees@.len()
        &&& self.group_trees@.len() == self.mparam.num_output_group as int
        &&& forall|g: int|
            0 <= g < self.group_trees@.len() ==> (#[trigger] self.group_trees@[g])@.len()
                <= self.trees@.len()
        &&& forall|g: int, k: int|
            0 <= g < self.group_trees@.len() && 0 <= k < self.group_trees@[g]@.len() ==> (
            #[trigger] self.group_trees@[g]@[k]) < self.trees@.len()
                && self.tree_info@[self.group_trees@[g]@[k] as int] as int == g
        &&& forall|g: int, k1: int, k2: int|
            0 <= g < self.group_trees@.len() && 0 <= k1 < k2 < self.group_trees@[g]@.len()
                ==> #[trigger] self.group_trees@[g]@[k1] < #[trigger] self.group_trees@[g]@[k2]
        &&& forall|j: int|
            0 <= j < self.tree_info@.len() && 0 <= #[trigger] self.tree_info@[j]
                < self.group_trees@.len() ==> exists|k: int|
                0 <= k < self.group_trees@[self.tree_info@[j] as int]@.len()
                    && self.group_trees@[self.tree_info@[j] as int]@[k] == j
        &&& match self.weight_drop {
            Some(w) => w@.len() == self.trees@.len(),
            None => true,
        }
    }
}

impl ModelParam {
    /// Decodes the ensemble parameter block.
    pub fn new(reader: &mut ModelReader) -> (r: Result<ModelParam, PredictError>)
        requires
            old(reader).wf(),
        ensures
            final(reader).wf(),
            final(reader).bytes() == old(reader).bytes(),
            match r {
                Ok(m) => old(reader).remaining() >= 160 && m == spec_gbt_param(
                    old(reader).bytes(),
                    old(reader).pos(),
                ) && final(reader).pos() == old(reader).pos() + 160,
                Err(e) => old(reader).remaining() < 160 && e == PredictError::TruncatedInput,
            },
    {
        let num_trees = reader.read_i32_le()?;
        let num_roots = reader.read_i32_le()?;
        let num_feature = reader.read_i32_le()?;
        reader.read_i32_le()?;
        let num_pbuffer = reader.read_u64_le()?;
        let num_output_group = reader.read_u32_le()?;
        let size_leaf_vector = reader.read_u32_le()?;
        reader.read_to_i32_buffer(31)?;
        reader.read_i32_le()?;
        Ok(
            ModelParam {
                num_trees,
                num_roots,
                num_feature,
                num_pbuffer,
                num_output_group,
                size_leaf_vector,
            },
        )
    }

    /// Entries of the prediction buffer the model was saved with.
    pub fn pred_buffer_size(&self) -> (r: u128)
        ensures
            r == self.num_pbuffer * self.num_output_group * (self.size_leaf_vector + 1),
    {
        proof {
            assert((self.num_pbuffer as int) * (self.num_output_group as int) < 0x1_0000_0000_0000_0000_0000_0000
                && (self.num_pbuffer as int) * (self.num_output_group as int) * (
            self.size_leaf_vector + 1) < 0x1_0000_0000_0000_0000_0000_0000_0000_0000) by (
            nonlinear_arith)
                requires
                    self.num_pbuffer <= 0xffff_ffff_ffff_ffffu64,
                    self.num_output_group <= 0xffff_ffffu32,
                    self.size_leaf_vector <= 0xffff_ffffu32,
            ;
        }
        (self.num_pbuffer as u128) * (self.num_output_group as u128) * (self.size_leaf_vector
            as u128 + 1)
    }
}

/// Whether a whole ensemble booster is encoded at `p`.
pub open spec fn spec_gbt_ok(b: Seq<u8>, p: int, with_pbuffer: bool, is_dart: bool) -> bool {
    let m = spec_gbt_param(b, p);
    let n = spec_gbt_num_trees(b, p);
    let te = spec_trees_end(b, p + 160, n);
    let skip_pb = m.num_pbuffer != 0 && with_pbuffer;
    let q = te + 4 * n + if skip_pb {
        spec_pbuffer_bytes(m)
    } else {
        0
    };
    &&& p + 160 <= b.len()
    &&& n >= 0
    &&& spec_trees_ok(b, p + 160, n)
    &&& te + 4 * n <= b.len()
    &&& (skip_pb ==> q <= b.len())
    &&& (is_dart ==> q + 8 <= b.len() && spec_le_i64(b.subrange(q, q + 8)) == n && q + 8 + 4 * n
        <= b.len())
}

/// The error decoding the ensemble at `p` fails with, when it fails,
/// following stream order.
pub open spec fn spec_gbt_err(b: Seq<u8>, p: int, with_pbuffer: bool, is_dart: bool) -> PredictError {
    let m = spec_gbt_param(b, p);
    let n = spec_gbt_num_trees(b, p);
    let te = spec_trees_end(b, p + 160, n);
    let skip_pb = m.num_pbuffer != 0 && with_pbuffer;
    let q = te + 4 * n + if skip_pb {
        spec_pbuffer_bytes(m)
    } else {
        0
    };
    let sz = spec_le_i64(b.subrange(q, q + 8));
    if p + 160 > b.len() {
        PredictError::TruncatedInput
    } else if n < 0 {
        // a negative tree count asks for more trees than any finite
        // stream holds
        PredictError::TruncatedInput
    } else if !spec_trees_ok(b, p + 160, n) {
        spec_trees_err(b, p + 160, n)
    } else if te + 4 * n > b.len() {
        PredictError::TruncatedInput
    } else if skip_pb && q > b.len() {
        PredictError::TruncatedInput
    } else if is_dart && (q + 8 > b.len() || sz < 0 || q + 8 + 4 * sz > b.len()) {
        PredictError::TruncatedInput
    } else {
        // the dropout weight vector does not cover every tree
        PredictError::MalformedTree
    }
}

/// The group-tag vector of the ensemble encoded at `p`.
pub open spec fn spec_gbt_tree_info(b: Seq<u8>, p: int) -> Seq<i32> {
    let n = spec_gbt_num_trees(b, p);
    let te = spec_trees_end(b, p + 160, n);
    Seq::new(n as nat, |j: int| spec_le_i32(b.subrange(te + 4 * j, te + 4 * j + 4)) as i32)
}

/// The dropout weight vector of the ensemble encoded at `p`, when the
/// booster is the dropout variant.
pub open spec fn spec_gbt_weight_drop(
    b: Seq<u8>,
    p: int,
    with_pbuffer: bool,
    is_dart: bool,
) -> Option<Seq<u32>> {
    let m = spec_gbt_param(b, p);
    let n = spec_gbt_num_trees(b, p);
    let te = spec_trees_end(b, p + 160, n);
    let skip_pb = m.num_pbuffer != 0 && with_pbuffer;
    let q = te + 4 * n + if skip_pb {
        spec_pbuffer_bytes(m)
    } else {
        0
    };
    if is_dart {
        Some(
            Seq::new(
                n as nat,
                |i: int| spec_le_u32(b.subrange(q + 8 + 4 * i, q + 8 + 4 * i + 4)) as u32,
            ),
        )
    } else {
        None
    }
}

/// Position just past the ensemble encoded at `p`.
pub open spec fn spec_gbt_end(b: Seq<u8>, p: int, with_pbuffer: bool, is_dart: bool) -> int {
    let m = spec_gbt_param(b, p);
    let n = spec_gbt_num_trees(b, p);
    let te = spec_trees_end(b, p + 160, n);
    let skip_pb = m.num_pbuffer != 0 && with_pbuffer;
    let q = te + 4 * n + if skip_pb {
        spec_pbuffer_bytes(m)
    } else {
        0
    };
    if is_dart {
        q + 8 + 4 * n
    } else {
        q
    }
}

/// Builds, for each output group, the list of indices of the trees
/// tagged with that group, preserving load order.
#[verifier::loop_isolation(false)]
pub fn parse_group_trees(num_output_group: usize, tree_info: &Vec<i32>) -> (r: Vec<Vec<usize>>)
    ensures
        r@.len() == num_output_group,
        forall|g: int|
            0 <= g < num_output_group ==> (#[trigger] r@[g])@.len() <= tree_info@.len(),
        forall|g: int, k: int|
            0 <= g < num_output_group && 0 <= k < r@[g]@.len() ==> (#[trigger] r@[g]@[k])
                < tree_info@.len() && tree_info@[r@[g]@[k] as int] as int == g,
        forall|g: int, k1: int, k2: int|
            0 <= g < num_output_group && 0 <= k1 < k2 < r@[g]@.len() ==> #[trigger] r@[g]@[k1]
                < #[trigger] r@[g]@[k2],
        forall|j: int|
            0 <= j < tree_info@.len() && 0 <= #[trigger] tree_info@[j] < num_output_group
                ==> exists|k: int|
                0 <= k < r@[tree_info@[j] as int]@.len() && r@[tree_info@[j] as int]@[k] == j,
{
    let n = tree_info.len();
    let mut r: Vec<Vec<usize>> = Vec::new();
    let mut g: usize = 0;
    while g < num_output_group
        invariant
            g <= num_output_group,
            r@.len() == g,
            forall|h: int| 0 <= h < g ==> (#[trigger] r@[h])@.len() <= tree_info@.len(),
            forall|h: int, k: int|
                0 <= h < g && 0 <= k < r@[h]@.len() ==> (#[trigger] r@[h]@[k]) < tree_info@.len()
                    && tree_info@[r@[h]@[k] as int] as int == h,
            forall|h: int, k1: int, k2: int|
                0 <= h < g && 0 <= k1 < k2 < r@[h]@.len() ==> #[trigger] r@[h]@[k1]
                    < #[trigger] r@[h]@[k2],
            forall|j: int|
                0 <= j < tree_info@.len() && 0 <= #[trigger] tree_info@[j] < g ==> exists|k: int|
                    0 <= k < r@[tree_info@[j] as int]@.len() && r@[tree_info@[j] as int]@[k] == j,
        decreases num_output_group - g,
    {
        let mut bucket: Vec<usize> = Vec::new();
        let mut j: usize = 0;
        while j < n
            invariant
                j <= n,
                n == tree_info@.len(),
                bucket@.len() <= j,
                forall|k: int|
                    0 <= k < bucket@.len() ==> (#[trigger] bucket@[k]) < j && tree_info@[bucket@[k]
                        as int] as int == g,
                forall|k1: int, k2: int|
                    0 <= k1 < k2 < bucket@.len() ==> #[trigger] bucket@[k1]
                        < #[trigger] bucket@[k2],
                forall|jj: int|
                    0 <= jj < j && tree_info@[jj] as int == g ==> exists|k: int|
                        0 <= k < bucket@.len() && #[trigger] bucket@[k] == jj,
            decreases n - j,
        {
            let tag = tree_info[j];
            let ghost prev = bucket@;
            if tag >= 0 && tag as usize == g {
                bucket.push(j);
            }
            proof {
                assert forall|jj: int| 0 <= jj < j + 1 && tree_info@[jj] as int == g implies exists|
                    k: int,
                |
                    0 <= k < bucket@.len() && #[trigger] bucket@[k] == jj by {
                    if jj == j {
                        assert(bucket@[bucket@.len() - 1] == j);
                    } else {
                        let k0 = choose|k: int| 0 <= k < prev.len() && #[trigger] prev[k] == jj;
                        assert(bucket@[k0] == jj);
                    }
                }
            }
            j = j + 1;
        }
        let ghost prev_r = r@;
        r.push(bucket);
        proof {
            assert forall|j: int|
                0 <= j < tree_info@.len() && 0 <= #[trigger] tree_info@[j] < g + 1 implies exists|
                k: int,
            |
                0 <= k < r@[tree_info@[j] as int]@.len() && r@[tree_info@[j] as int]@[k] == j by {
                let t = tree_info@[j] as int;
                if t == g {
                    let k0 = choose|k: int|
                        0 <= k < bucket@.len() && #[trigger] bucket@[k] == j;
                    assert(r@[t]@[k0] == j);
                } else {
                    let k0 = choose|k: int|
                        0 <= k < prev_r[t]@.len() && #[trigger] prev_r[t]@[k] == j;
                    assert(r@[t]@[k0] == j);
                }
            }
        }
        g = g + 1;
    }
    r
}

impl GBTree {
    /// Decodes a whole ensemble booster: parameters, trees, group tags,
    /// an optional skipped prediction buffer, and, for the dropout
    /// variant, the dropout weights, which must cover every tree.
    #[verifier::loop_isolation(false)]
    pub fn read_from(with_pbuffer: bool, reader: &mut ModelReader, is_dart: bool) -> (r: Result<
        GBTree,
        PredictError,
    >)
        requires
            old(reader).wf(),
        ensures
            final(reader).wf(),
            final(reader).bytes() == old(reader).bytes(),
            match r {
                Ok(t) => spec_gbt_matches(
                    &t,
                    old(reader).bytes(),
                    old(reader).pos(),
                    with_pbuffer,
                    is_dart,
                    final(reader).pos(),
                ),
                Err(e) => !spec_gbt_ok(old(reader).bytes(), old(reader).pos(), with_pbuffer, is_dart)
                    && e == spec_gbt_err(old(reader).bytes(), old(reader).pos(), with_pbuffer, is_dart),
            },
    {
        let ghost b = old(reader).bytes();
        let ghost p = old(reader).pos();
        let mparam = ModelParam::new(reader)?;
        if mparam.num_trees < 0 {
            return Err(PredictError::TruncatedInput);
        }
        let n = mparam.num_trees as usize;
        let ghost p1 = p + 160;
        let mut trees: Vec<RegTree> = Vec::new();
        let mut i: usize = 0;
        while i < n
            invariant
                reader.wf(),
                reader.bytes() == b,
                i <= n,
                trees@.len() == i,
                forall|j: int| 0 <= j < i ==> (#[trigger] trees@[j]).wf(),
                spec_trees_ok(b, p1, n as int) == spec_trees_ok(b, reader.pos(), n - i),
                spec_trees_end(b, p1, n as int) == spec_trees_end(b, reader.pos(), n - i),
                spec_trees_shapes(b, p1, n as int) == spec_shapes_of(trees@) + spec_trees_shapes(
                    b,
                    reader.pos(),
                    n - i,
                ),
                !spec_trees_ok(b, p1, n as int) ==> spec_trees_err(b, p1, n as int)
                    == spec_trees_err(b, reader.pos(), n - i),
            decreases n - i,
        {
            let ghost cur = reader.pos();
            let t = match RegTree::read_from(reader) {
                Ok(t) => t,
                Err(e) => {
                    proof {
                        assert(!spec_trees_ok(b, cur, n - i));
                        assert(spec_trees_err(b, cur, n - i) == spec_tree_err(b, cur));
                        assert(!spec_gbt_ok(b, p, with_pbuffer, is_dart));
                        assert(e == spec_gbt_err(b, p, with_pbuffer, is_dart));
                    }
                    return Err(e);
                },
            };
            let ghost prev_shapes = spec_shapes_of(trees@);
            trees.push(t);
            proof {
                assert(t.shape() == spec_tree_shape(b, cur));
                assert(spec_shapes_of(trees@) =~= prev_shapes + seq![spec_tree_shape(b, cur)]);
                assert(spec_trees_shapes(b, cur, n - i) == seq![spec_tree_shape(b, cur)]
                    + spec_trees_shapes(b, reader.pos(), n - i - 1));
                assert(spec_shapes_of(trees@) + spec_trees_shapes(b, reader.pos(), n - i - 1)
                    =~= prev_shapes + spec_trees_shapes(b, cur, n - i));
            }
            i = i + 1;
        }
        proof {
            assert(spec_trees_ok(b, p1, n as int));
            assert(spec_trees_shapes(b, reader.pos(), 0) =~= Seq::<TreeShape>::empty());
            assert(spec_shapes_of(trees@) =~= spec_shapes_of(trees@) + Seq::<
                TreeShape,
            >::empty());
            assert(spec_trees_end(b, p1, n as int) == reader.pos());
        }
        let ghost te = reader.pos();
        let tree_info = match reader.read_int_vec(n) {
            Ok(v) => v,
            Err(e) => {
                proof {
                    assert(!spec_gbt_ok(b, p, with_pbuffer, is_dart));
                    assert(e == spec_gbt_err(b, p, with_pbuffer, is_dart));
                }
                return Err(e);
            },
        };
        proof {
            assert(tree_info@ =~= spec_gbt_tree_info(b, p));
        }
        if mparam.num_pbuffer != 0 && with_pbuffer {
            let pbs = mparam.pred_buffer_size();
            let rem = reader.remaining_len();
            if pbs > (rem as u128) / 8 {
                return Err(PredictError::TruncatedInput);
            }
            let skip_n = (pbs as usize) * 8;
            match reader.skip(skip_n) {
                Ok(()) => (),
                Err(e) => {
                    proof {
                        assert(false);
                    }
                    return Err(e);
                },
            }
        }
        let ghost q = reader.pos();
        let weight_drop: Option<Vec<u32>> = if is_dart {
            let size = reader.read_i64_le()?;
            if size < 0 {
                return Err(PredictError::TruncatedInput);
            }
            let rem = reader.remaining_len();
            if (size as u64) > (rem as u64) / 4 {
                return Err(PredictError::TruncatedInput);
            }
            let w = match reader.read_float_vec(size as usize) {
                Ok(w) => w,
                Err(e) => {
                    proof {
                        assert(false);
                    }
                    return Err(e);
                },
            };
            if w.len() != n {
                return Err(PredictError::MalformedTree);
            }
            proof {
                assert(w@ =~= spec_gbt_weight_drop(b, p, with_pbuffer, is_dart).unwrap());
            }
            Some(w)
        } else {
            None
        };
        let group_trees = parse_group_trees(mparam.num_output_group as usize, &tree_info);
        Ok(GBTree { mparam, trees, tree_info, group_trees, weight_drop })
    }

    /// How many trees a request for `limit` evaluates out of `len`: all
    /// of them for `limit == 0` or a limit at or beyond `len`, else
    /// `limit`.
    pub open spec fn spec_treeleft(limit: int, len: int) -> int {
        if limit == 0 || limit > len {
            len
        } else {
            limit
        }
    }

    /// Dropout weight of the tree at group-local position `i`: the
    /// stored weight in the dropout variant, 1.0 otherwise.  Note the
    /// index is the position within the group's sublist, not the global
    /// tree id, mirroring the stream producer's evaluation.
    pub open spec fn spec_factor(&self, i: int) -> u32 {
        match self.weight_drop {
            Some(w) => w@[i],
            None => F32_ONE_BITS,
        }
    }

    /// Node array of the tree at group-local position `i` of group `g`.
    pub open spec fn spec_group_tree_nodes(&self, g: int, i: int) -> Seq<Node> {
        self.trees@[self.group_trees@[g]@[i] as int].nodes@
    }

    /// Traversal of that tree from `root`.
    pub open spec fn spec_group_trav(&self, feat: Seq<u32>, g: int, i: int, root: int) -> Traversal {
        spec_traverse(self.spec_group_tree_nodes(g, i), feat, root)
    }

    /// How many trees of group `g` a request for `limit` evaluates.
    pub open spec fn spec_group_count(&self, g: int, limit: int) -> int {
        Self::spec_treeleft(limit, self.group_trees@[g]@.len() as int)
    }

    /// Whether every evaluated tree of group `g` reaches a leaf.
    pub open spec fn spec_group_ok(&self, feat: Seq<u32>, g: int, root: int, limit: int) -> bool {
        forall|i: int|
            0 <= i < self.spec_group_count(g, limit) ==> self.spec_group_trav(
                feat,
                g,
                i,
                root,
            ) is Leaf
    }

    /// The terms of group `g`'s prediction: one per evaluated tree, in
    /// group order, the tree's leaf value weighted by its dropout
    /// factor.
    pub open spec fn spec_group_terms(
        &self,
        feat: Seq<u32>,
        g: int,
        root: int,
        limit: int,
    ) -> Seq<Term> {
        Seq::new(
            self.spec_group_count(g, limit) as nat,
            |i: int|
                Term {
                    factor: self.spec_factor(i),
                    value: spec_leaf_value(self.spec_group_tree_nodes(g, i), feat, root),
                },
        )
    }

    /// Whether `e` is the error evaluating group `g` fails with: a
    /// feature index beyond the row, or a malformed walk.
    pub open spec fn spec_group_err_matches(
        &self,
        feat: Seq<u32>,
        g: int,
        root: int,
        limit: int,
        e: PredictError,
    ) -> bool {
        ||| e == PredictError::FeatureIndexOutOfRange && (exists|i: int|
            0 <= i < self.spec_group_count(g, limit) && self.spec_group_trav(
                feat,
                g,
                i,
                root,
            ) is BadFeature)
        ||| e == PredictError::MalformedTree && (exists|i: int|
            0 <= i < self.spec_group_count(g, limit) && self.spec_group_trav(
                feat,
                g,
                i,
                root,
            ) is BadNode)
    }

    /// Terms of group `bst_group`'s prediction for one feature row,
    /// evaluating at most `ntree_limit` of the group's trees (all of
    /// them when 0) from root `root_index`.
    #[verifier::loop_isolation(false)]
    pub fn pred(
        &self,
        feat: &[u32],
        bst_group: usize,
        root_index: usize,
        ntree_limit: usize,
    ) -> (r: Result<Vec<Term>, PredictError>)
        requires
            self.wf(),
            bst_group < self.group_trees@.len(),
        ensures
            match r {
                Ok(t) => self.spec_group_ok(
                    feat@,
                    bst_group as int,
                    root_index as int,
                    ntree_limit as int,
                ) && t@ == self.spec_group_terms(
                    feat@,
                    bst_group as int,
                    root_index as int,
                    ntree_limit as int,
                ),
                Err(e) => !self.spec_group_ok(
                    feat@,
                    bst_group as int,
                    root_index as int,
                    ntree_limit as int,
                ) && self.spec_group_err_matches(
                    feat@,
                    bst_group as int,
                    root_index as int,
                    ntree_limit as int,
                    e,
                ),
            },
    {
        let gl_len = self.group_trees[bst_group].len();
        let treeleft = if ntree_limit == 0 {
            gl_len
        } else if ntree_limit < gl_len {
            ntree_limit
        } else {
            gl_len
        };
        let mut t: Vec<Term> = Vec::new();
        let mut i: usize = 0;
        while i < treeleft
            invariant
                treeleft == self.spec_group_count(bst_group as int, ntree_limit as int),
                treeleft <= gl_len == self.group_trees@[bst_group as int]@.len(),
                i <= treeleft,
                t@.len() == i,
                forall|j: int|
                    0 <= j < i ==> self.spec_group_trav(
                        feat@,
                        bst_group as int,
                        j,
                        root_index as int,
                    ) is Leaf,
                forall|j: int|
                    0 <= j < i ==> t@[j] == self.spec_group_terms(
                        feat@,
                        bst_group as int,
                        root_index as int,
                        ntree_limit as int,
                    )[j],
            decreases treeleft - i,
        {
            let tidx = self.group_trees[bst_group][i];
            let value = match self.trees[tidx].get_leaf_value(feat, root_index) {
                Ok(v) => v,
                Err(e) => {
                    proof {
                        let gi = i as int;
                        assert(self.spec_group_tree_nodes(bst_group as int, gi)
                            == self.trees@[tidx as int].nodes@);
                        match spec_traverse(self.trees@[tidx as int].nodes@, feat@,
                            root_index as int) {
                            Traversal::Leaf(_) => {
                                assert(false);
                            },
                            Traversal::BadFeature => {
                                assert(self.spec_group_trav(feat@, bst_group as int, gi,
                                    root_index as int) is BadFeature);
                            },
                            Traversal::BadNode => {
                                assert(self.spec_group_trav(feat@, bst_group as int, gi,
                                    root_index as int) is BadNode);
                            },
                        }
                    }
                    return Err(e);
                },
            };
            let factor = match &self.weight_drop {
                Some(w) => w[i],
                None => F32_ONE_BITS,
            };
            t.push(Term { factor, value });
            i = i + 1;
        }
        proof {
            assert(t@ =~= self.spec_group_terms(
                feat@,
                bst_group as int,
                root_index as int,
                ntree_limit as int,
            ));
        }
        Ok(t)
    }

    /// Per-row terms of group `bst_group`'s predictions for a flat
    /// row-major batch of feature rows.
    #[verifier::loop_isolation(false)]
    pub fn pred_many(
        &self,
        feats: &[u32],
        row_length: usize,
        bst_group: usize,
        root_index: usize,
        ntree_limit: usize,
    ) -> (r: Result<Vec<Vec<Term>>, PredictError>)
        requires
            self.wf(),
            bst_group < self.group_trees@.len(),
            row_length > 0,
            (feats@.len() as int) % (row_length as int) == 0,
        ensures
            match r {
                Ok(v) => v@.len() == (feats@.len() as int) / (row_length as int) && forall|rr: int|
                    #![trigger v@[rr]]
                    #![trigger spec_row(feats@, row_length as int, rr)]
                    0 <= rr < v@.len() ==> self.spec_group_ok(
                        spec_row(feats@, row_length as int, rr),
                        bst_group as int,
                        root_index as int,
                        ntree_limit as int,
                    ) && v@[rr]@ == self.spec_group_terms(
                        spec_row(feats@, row_length as int, rr),
                        bst_group as int,
                        root_index as int,
                        ntree_limit as int,
                    ),
                Err(e) => exists|rr: int|
                    0 <= rr < (feats@.len() as int) / (row_length as int) && !self.spec_group_ok(
                        spec_row(feats@, row_length as int, rr),
                        bst_group as int,
                        root_index as int,
                        ntree_limit as int,
                    ) && self.spec_group_err_matches(
                        #[trigger] spec_row(feats@, row_length as int, rr),
                        bst_group as int,
                        root_index as int,
                        ntree_limit as int,
                        e,
                    ),
            },
    {
        let nrows = feats.len() / row_length;
        proof {
            vstd::arithmetic::div_mod::lemma_fundamental_div_mod(
                feats@.len() as int,
                row_length as int,
            );
            assert(feats@.len() as int == (row_length as int) * (nrows as int));
        }
        let mut v: Vec<Vec<Term>> = Vec::new();
        let mut rr: usize = 0;
        while rr < nrows
            invariant
                rr <= nrows,
                v@.len() == rr,
                forall|j: int|
                    #![trigger v@[j]]
                    #![trigger spec_row(feats@, row_length as int, j)]
                    0 <= j < rr ==> self.spec_group_ok(
                        spec_row(feats@, row_length as int, j),
                        bst_group as int,
                        root_index as int,
                        ntree_limit as int,
                    ) && v@[j]@ == self.spec_group_terms(
                        spec_row(feats@, row_length as int, j),
                        bst_group as int,
                        root_index as int,
                        ntree_limit as int,
                    ),
            decreases nrows - rr,
        {
            proof {
                assert((rr + 1) * row_length == rr * row_length + row_length && (rr + 1)
                    * row_length <= nrows * row_length && nrows * row_length == feats@.len()) by (
                nonlinear_arith)
                    requires
                        0 <= rr < nrows,
                        row_length > 0,
                        feats@.len() as int == (row_length as int) * (nrows as int),
                ;
            }
            let row = vstd::slice::slice_subrange(feats, rr * row_length, (rr + 1) * row_length);
            let terms = match self.pred(row, bst_group, root_index, ntree_limit) {
                Ok(t) => t,
                Err(e) => {
                    proof {
                        assert((rr as int) < (feats@.len() as int) / (row_length as int));
                        assert(row@ == spec_row(feats@, row_length as int, rr as int));
                    }
                    return Err(e);
                },
            };
            let ghost gterms = terms@;
            v.push(terms);
            proof {
                assert(row@ == spec_row(feats@, row_length as int, rr as int));
                assert forall|i: int|
                    0 <= i < self.spec_group_count(bst_group as int, ntree_limit as int)
                        implies self.spec_group_trav(
                    spec_row(feats@, row_length as int, rr as int),
                    bst_group as int,
                    i,
                    root_index as int,
                ) is Leaf by {
                    assert(self.spec_group_trav(row@, bst_group as int, i, root_index as int)
                        is Leaf);
                }
                assert(self.spec_group_ok(
                    spec_row(feats@, row_length as int, rr as int),
                    bst_group as int,
                    root_index as int,
                    ntree_limit as int,
                ));
                assert forall|j: int|
                    #![trigger v@[j]]
                    #![trigger spec_row(feats@, row_length as int, j)]
                    0 <= j < rr + 1 implies self.spec_group_ok(
                    spec_row(feats@, row_length as int, j),
                    bst_group as int,
                    root_index as int,
                    ntree_limit as int,
                ) && v@[j]@ == self.spec_group_terms(
                    spec_row(feats@, row_length as int, j),
                    bst_group as int,
                    root_index as int,
                    ntree_limit as int,
                ) by {
                    if j == rr {
                        assert(v@[j]@ == gterms);
                        assert(spec_row(feats@, row_length as int, j) == row@);
                    } else {
                        assert(v@[j] == v@.subrange(0, rr as int)[j]);
                    }
                }
            }
            rr = rr + 1;
        }
        proof {
            assert(v@.len() == (feats@.len() as int) / (row_length as int));
        }
        Ok(v)
    }

    /// Leaf indices of the trees of the unpartitioned global tree list,
    /// up to `ntree_limit` of them (all when 0), for one feature row.
    #[verifier::loop_isolation(false)]
    pub fn pred_path(&self, feat: &[u32], root_index: usize, ntree_limit: usize) -> (r: Result<
        Vec<usize>,
        PredictError,
    >)
        requires
            self.wf(),
        ensures
            match r {
                Ok(v) => {
                    let count = Self::spec_treeleft(ntree_limit as int, self.trees@.len() as int);
                    &&& v@.len() == count
                    &&& forall|i: int|
                        0 <= i < count ==> spec_traverse(
                            #[trigger] self.trees@[i].nodes@,
                            feat@,
                            root_index as int,
                        ) is Leaf && v@[i] == spec_leaf_index(
                            self.trees@[i].nodes@,
                            feat@,
                            root_index as int,
                        )
                },
                Err(e) => exists|i: int|
                    0 <= i < Self::spec_treeleft(ntree_limit as int, self.trees@.len() as int)
                        && !(spec_traverse(
                        #[trigger] self.trees@[i].nodes@,
                        feat@,
                        root_index as int,
                    ) is Leaf) && ((e == PredictError::FeatureIndexOutOfRange && spec_traverse(
                        self.trees@[i].nodes@,
                        feat@,
                        root_index as int,
                    ) is BadFeature) || (e == PredictError::MalformedTree && spec_traverse(
                        self.trees@[i].nodes@,
                        feat@,
                        root_index as int,
                    ) is BadNode)),
            },
    {
        let n = self.trees.len();
        let treeleft = if ntree_limit == 0 {
            n
        } else if ntree_limit < n {
            ntree_limit
        } else {
            n
        };
        let mut v: Vec<usize> = Vec::new();
        let mut i: usize = 0;
        while i < treeleft
            invariant
                treeleft == Self::spec_treeleft(ntree_limit as int, self.trees@.len() as int),
                treeleft <= n == self.trees@.len(),
                i <= treeleft,
                v@.len() == i,
                forall|j: int|
                    0 <= j < i ==> spec_traverse(
                        #[trigger] self.trees@[j].nodes@,
                        feat@,
                        root_index as int,
                    ) is Leaf && v@[j] == spec_leaf_index(
                        self.trees@[j].nodes@,
                        feat@,
                        root_index as int,
                    ),
            decreases treeleft - i,
        {
            let l = match self.trees[i].get_leaf_index(feat, root_index) {
                Ok(l) => l,
                Err(e) => {
                    return Err(e);
                },
            };
            proof {
                match spec_traverse(self.trees@[i as int].nodes@, feat@, root_index as int) {
                    Traversal::Leaf(lg) => {
                        assert(l == lg as usize && 0 <= lg <= usize::MAX);
                        assert(l as int == spec_leaf_index(self.trees@[i as int].nodes@, feat@,
                            root_index as int));
                    },
                    Traversal::BadFeature => {
                        assert(false);
                    },
                    Traversal::BadNode => {
                        assert(false);
                    },
                }
            }
            v.push(l);
            i = i + 1;
        }
        Ok(v)
    }
}

/// Requesting more trees than a group holds behaves exactly like
/// requesting all of them: the clamp, and with it the evaluated trees
/// and their terms, coincide for `ntree_limit == 0` and for any limit
/// at or beyond the group's tree count.
pub proof fn lemma_ntree_limit_clamp(t: &GBTree, feat: Seq<u32>, g: int, root: int, limit: int)
    requires
        t.wf(),
        0 <= g < t.group_trees@.len(),
        limit == 0 || limit >= t.group_trees@[g]@.len(),
    ensures
        t.spec_group_count(g, limit) == t.spec_group_count(g, 0),
        t.spec_group_terms(feat, g, root, limit) == t.spec_group_terms(feat, g, root, 0),
        t.spec_group_ok(feat, g, root, limit) == t.spec_group_ok(feat, g, root, 0),
{
    assert(t.spec_group_terms(feat, g, root, limit) =~= t.spec_group_terms(feat, g, root, 0));
}

/// Tree `j` appears somewhere in the sublist of the group its tag
/// names.
pub open spec fn spec_in_own_group(t: &GBTree, j: int) -> bool {
    exists|k: int|
        0 <= k < t.group_trees@[t.tree_info@[j] as int]@.len() && t.group_trees@[t.tree_info@[j]
            as int]@[k] == j
}

/// The group sublists partition the tree list: every tree whose tag
/// names a valid group appears in the sublist of exactly that group, at
/// exactly one position, and each sublist lists its members in global
/// load order.
pub proof fn lemma_group_partition(t: &GBTree)
    requires
        t.wf(),
        forall|j: int|
            0 <= j < t.tree_info@.len() ==> 0 <= #[trigger] t.tree_info@[j]
                < t.group_trees@.len(),
    ensures
        forall|j: int| 0 <= j < t.trees@.len() ==> spec_in_own_group(t, j),
        forall|g: int, k: int|
            0 <= g < t.group_trees@.len() && 0 <= k < t.group_trees@[g]@.len() ==> t.tree_info@[(
            #[trigger] t.group_trees@[g]@[k]) as int] as int == g,
        forall|g: int, k1: int, k2: int|
            0 <= g < t.group_trees@.len() && 0 <= k1 < t.group_trees@[g]@.len() && 0 <= k2
                < t.group_trees@[g]@.len() && #[trigger] t.group_trees@[g]@[k1]
                == #[trigger] t.group_trees@[g]@[k2] ==> k1 == k2,
        forall|g: int, k1: int, k2: int|
            0 <= g < t.group_trees@.len() && 0 <= k1 < k2 < t.group_trees@[g]@.len()
                ==> #[trigger] t.group_trees@[g]@[k1] < #[trigger] t.group_trees@[g]@[k2],
{
    assert forall|j: int| 0 <= j < t.trees@.len() implies spec_in_own_group(t, j) by {
        assert(0 <= t.tree_info@[j] < t.group_trees@.len());
    }
    assert forall|g: int, k1: int, k2: int|
        0 <= g < t.group_trees@.len() && 0 <= k1 < t.group_trees@[g]@.len() && 0 <= k2
            < t.group_trees@[g]@.len() && #[trigger] t.group_trees@[g]@[k1]
            == #[trigger] t.group_trees@[g]@[k2] implies k1 == k2 by {
        if k1 < k2 {
            assert(t.group_trees@[g]@[k1] < t.group_trees@[g]@[k2]);
        } else if k2 < k1 {
            assert(t.group_trees@[g]@[k2] < t.group_trees@[g]@[k1]);
        }
    }
}

} // verus!
