//! Linear booster: a per-(feature, group) weight matrix with a bias row.
//!
//! Wire layout: number of features, number of output groups (32-bit
//! each), 32 reserved 32-bit words, one padding word closing the
//! parameter block, one more padding word, then the full
//! `(num_feature + 1) * num_output_group` weight array in row-major
//! (feature, group) order, the extra row being the per-group bias.

use vstd::prelude::*;

use crate::errors::PredictError;
use crate::float_bits::F32_ONE_BITS;
use crate::margin::{Margin, Term, spec_row};
use crate::model_reader::{ModelReader, spec_le_u32};

verus! {

/// Decoded linear model parameters.
#[derive(Debug)]
pub struct ModelParam {
    /// number of features
    pub num_feature: usize,
    /// how many output groups a single instance produces
    pub num_output_group: usize,
}

/// A decoded linear booster.
#[derive(Debug)]
pub struct GBLinear {
    pub mparam: ModelParam,
    /// Weight bit patterns, indexed `feature * num_output_group + group`;
    /// the row at `feature == num_feature` holds the per-group bias.
    pub weights: Vec<u32>,
}

/// Feature count field of the linear booster encoded at `p`.
pub open spec fn spec_linear_nf(b: Seq<u8>, p: int) -> int {
    spec_le_u32(b.subrange(p, p + 4))
}

/// Output group count field of the linear booster encoded at `p`.
pub open spec fn spec_linear_ng(b: Seq<u8>, p: int) -> int {
    spec_le_u32(b.subrange(p + 4, p + 8))
}

/// Number of weights of the linear booster encoded at `p`.
pub open spec fn spec_linear_count(b: Seq<u8>, p: int) -> int {
    (spec_linear_nf(b, p) + 1) * spec_linear_ng(b, p)
}

/// The weight array of the linear booster encoded at `p`.
pub open spec fn spec_linear_weights(b: Seq<u8>, p: int) -> Seq<u32> {
    Seq::new(
        spec_linear_count(b, p) as nat,
        |k: int| spec_le_u32(b.subrange(p + 144 + 4 * k, p + 144 + 4 * k + 4)) as u32,
    )
}

/// Position just past the linear booster encoded at `p`.
pub open spec fn spec_linear_end(b: Seq<u8>, p: int) -> int {
    p + 144 + 4 * spec_linear_count(b, p)
}

/// Whether a whole linear booster is encoded at `p`.
pub open spec fn spec_linear_ok(b: Seq<u8>, p: int) -> bool {
    p + 144 <= b.len() && spec_linear_end(b, p) <= b.len()
}

/// Whether `g` is exactly the linear booster encoded at `p`, decoding
/// having ended at `endpos`.
pub open spec fn spec_linear_matches(g: &GBLinear, b: Seq<u8>, p: int, endpos: int) -> bool {
    &&& spec_linear_ok(b, p)
    &&& g.mparam.num_feature == spec_linear_nf(b, p)
    &&& g.mparam.num_output_group == spec_linear_ng(b, p)
    &&& g.weights@ == spec_linear_weights(b, p)
    &&& g.wf()
    &&& endpos == spec_linear_end(b, p)
}

impl GBLinear {
    /// The weight array has one row per feature plus the bias row.
    pub open spec fn wf(&self) -> bool {
        self.weights@.len() == (self.mparam.num_feature + 1) * self.mparam.num_output_group
    }

    /// Weight of `fid` for group `gid`; `fid == num_feature` is the bias.
    pub open spec fn spec_weight(&self, fid: int, gid: int) -> u32 {
        self.weights@[fid * self.mparam.num_output_group + gid]
    }

    /// Decodes a linear booster.  `with_pbuffer` is accepted for
    /// interface symmetry with the tree ensemble and has no effect.
    #[verifier::loop_isolation(false)]
    pub fn read_from(with_pbuffer: bool, reader: &mut ModelReader) -> (r: Result<
        GBLinear,
        PredictError,
    >)
        requires
            old(reader).wf(),
        ensures
            final(reader).wf(),
            final(reader).bytes() == old(reader).bytes(),
            match r {
                Ok(g) => spec_linear_matches(
                    &g,
                    old(reader).bytes(),
                    old(reader).pos(),
                    final(reader).pos(),
                ),
                Err(e) => !spec_linear_ok(old(reader).bytes(), old(reader).pos()) && e
                    == PredictError::TruncatedInput,
            },
    {
        let ghost b = old(reader).bytes();
        let ghost p = old(reader).pos();
        let num_feature = reader.read_u32_le()?;
        let num_output_group = reader.read_u32_le()?;
        reader.read_to_i32_buffer(32)?;
        reader.read_i32_le()?;
        reader.read_i32_le()?;
        proof {
            assert((num_feature + 1) * (num_output_group as int) < 0x1_0000_0000_0000_0000) by (
            nonlinear_arith)
                requires
                    num_feature <= 0xffff_ffffu32,
                    num_output_group <= 0xffff_ffffu32,
            ;
        }
        let count_wide: u64 = (num_feature as u64 + 1) * (num_output_group as u64);
        let rem = reader.remaining_len();
        if count_wide > (rem as u64) / 4 {
            return Err(PredictError::TruncatedInput);
        }
        let count = count_wide as usize;
        let weights = match reader.read_float_vec(count) {
            Ok(w) => w,
            Err(e) => {
                proof {
                    assert(false);
                }
                return Err(e);
            },
        };
        let mparam = ModelParam {
            num_feature: num_feature as usize,
            num_output_group: num_output_group as usize,
        };
        proof {
            assert(weights@ =~= spec_linear_weights(b, p));
        }
        Ok(GBLinear { mparam, weights })
    }

    /// Weight of feature `fid` for group `gid`; `fid == num_feature`
    /// selects the bias row.
    pub fn weight(&self, fid: usize, gid: usize) -> (r: u32)
        requires
            self.wf(),
            fid <= self.mparam.num_feature,
            gid < self.mparam.num_output_group,
        ensures
            r == self.spec_weight(fid as int, gid as int),
    {
        let wl = self.weights.len();
        proof {
            assert(fid * self.mparam.num_output_group + gid < (self.mparam.num_feature + 1)
                * self.mparam.num_output_group) by (nonlinear_arith)
                requires
                    fid <= self.mparam.num_feature,
                    gid < self.mparam.num_output_group,
            ;
            assert(fid * self.mparam.num_output_group + gid < wl);
        }
        self.weights[fid * self.mparam.num_output_group + gid]
    }

    /// Bias of group `gid`.
    pub fn bias(&self, gid: usize) -> (r: u32)
        requires
            self.wf(),
            gid < self.mparam.num_output_group,
        ensures
            r == self.spec_weight(self.mparam.num_feature as int, gid as int),
    {
        self.weight(self.mparam.num_feature, gid)
    }

    /// The terms of group `gid`'s prediction for one feature row: each
    /// feature value times its weight, then 1.0 times the group's bias.
    pub open spec fn spec_terms(&self, feat: Seq<u32>, gid: int) -> Seq<Term> {
        Seq::new(
            (self.mparam.num_feature + 1) as nat,
            |f: int|
                if f < self.mparam.num_feature {
                    Term { factor: feat[f], value: self.spec_weight(f, gid) }
                } else {
                    Term {
                        factor: F32_ONE_BITS,
                        value: self.spec_weight(self.mparam.num_feature as int, gid),
                    }
                },
        )
    }

    /// Terms of group `gid`'s prediction for the feature row `feat`.
    /// Fails with `FeatureIndexOutOfRange` when the row is shorter than
    /// the model's feature count.
    #[verifier::loop_isolation(false)]
    pub fn pred(&self, feat: &[u32], gid: usize) -> (r: Result<Vec<Term>, PredictError>)
        requires
            self.wf(),
            gid < self.mparam.num_output_group,
        ensures
            match r {
                Ok(t) => feat@.len() >= self.mparam.num_feature && t@ == self.spec_terms(
                    feat@,
                    gid as int,
                ),
                Err(e) => feat@.len() < self.mparam.num_feature && e
                    == PredictError::FeatureIndexOutOfRange,
            },
    {
        if feat.len() < self.mparam.num_feature {
            return Err(PredictError::FeatureIndexOutOfRange);
        }
        let mut t: Vec<Term> = Vec::new();
        let mut f: usize = 0;
        while f < self.mparam.num_feature
            invariant
                f <= self.mparam.num_feature,
                t@.len() == f,
                forall|j: int| 0 <= j < f ==> t@[j] == self.spec_terms(feat@, gid as int)[j],
            decreases self.mparam.num_feature - f,
        {
            let w = self.weight(f, gid);
            t.push(Term { factor: feat[f], value: w });
            f = f + 1;
        }
        let bias = self.bias(gid);
        t.push(Term { factor: F32_ONE_BITS, value: bias });
        proof {
            assert(t@ =~= self.spec_terms(feat@, gid as int));
        }
        Ok(t)
    }

    /// Margins of group `gid` for a flat row-major batch of feature
    /// rows, each carrying `base_score`.
    #[verifier::loop_isolation(false)]
    pub fn pred_many(
        &self,
        feats: &[u32],
        row_length: usize,
        base_score: u32,
        gid: usize,
    ) -> (r: Result<Vec<Margin>, PredictError>)
        requires
            self.wf(),
            gid < self.mparam.num_output_group,
            row_length > 0,
            (feats@.len() as int) % (row_length as int) == 0,
        ensures
            match r {
                Ok(v) => {
                    &&& row_length >= self.mparam.num_feature || v@.len() == 0
                    &&& v@.len() == (feats@.len() as int) / (row_length as int)
                    &&& forall|i: int|
                        0 <= i < v@.len() ==> (#[trigger] v@[i]).base_score == base_score
                            && v@[i].terms@ == self.spec_terms(
                            spec_row(feats@, row_length as int, i),
                            gid as int,
                        )
                },
                Err(e) => row_length < self.mparam.num_feature && feats@.len() > 0 && e
                    == PredictError::FeatureIndexOutOfRange,
            },
    {
        let nrows = feats.len() / row_length;
        proof {
            vstd::arithmetic::div_mod::lemma_fundamental_div_mod(
                feats@.len() as int,
                row_length as int,
            );
            assert(feats@.len() as int == (row_length as int) * (nrows as int));
        }
        let mut v: Vec<Margin> = Vec::new();
        let mut i: usize = 0;
        while i < nrows
            invariant
                i <= nrows,
                v@.len() == i,
                i > 0 ==> row_length >= self.mparam.num_feature,
                forall|j: int|
                    0 <= j < i ==> (#[trigger] v@[j]).base_score == base_score && v@[j].terms@
                        == self.spec_terms(spec_row(feats@, row_length as int, j), gid as int),
            decreases nrows - i,
        {
            proof {
                assert((i + 1) * row_length == i * row_length + row_length && (i + 1) * row_length
                    <= nrows * row_length && nrows * row_length == feats@.len() && nrows
                    * row_length >= row_length) by (nonlinear_arith)
                    requires
                        0 <= i < nrows,
                        row_length > 0,
                        feats@.len() as int == (row_length as int) * (nrows as int),
                ;
            }
            let row = vstd::slice::slice_subrange(feats, i * row_length, (i + 1) * row_length);
            let terms = self.pred(row, gid)?;
            v.push(Margin { base_score, terms });
            i = i + 1;
        }
        Ok(v)
    }
}

} // verus!
