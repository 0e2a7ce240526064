//! Top-level model decoding and prediction.
//!
//! The stream opens with one of two header encodings, auto-detected
//! from the first bytes: the marker "binf" followed by the base score
//! and the feature count, or the bare base score followed by the
//! feature count.  A third marker signals a model saved by a
//! distributed training integration, which is not supported.  The
//! header continues with the class count, the prediction-buffer flag
//! and 30 reserved words; then come the length-prefixed objective and
//! booster type names, and the booster body.

use vstd::prelude::*;

use crate::errors::PredictError;
use crate::functions::{ObjFunction, get_classify_func_type, spec_objective_of};
use crate::grad_booster::{
    GradBooster,
    load_grad_booster,
    spec_booster_matches,
    spec_load_booster_err_is,
    spec_load_booster_ok,
};
use crate::margin::{Margin, spec_row};
use crate::model_reader::{ModelReader, spec_le_i32, spec_le_u32};
use vstd::string::StringExecFns;

verus! {

/// Decoded model header.
#[derive(Debug)]
pub struct ModelParam {
    /// global additive bias, as 32-bit float bits
    pub base_score: u32,
    /// number of features
    pub num_feature: usize,
    /// number of classes, for multi-class classification
    pub num_class: i32,
    /// whether the model was saved with a prediction buffer
    pub saved_with_pbuffer: bool,
}

/// Whether the stream at `p` opens with the "binf" header marker.
pub open spec fn spec_is_binf(b: Seq<u8>, p: int) -> bool {
    b[p] == 98 && b[p + 1] == 105 && b[p + 2] == 110 && b[p + 3] == 102
}

/// Whether the stream at `p` opens with the marker of the unsupported
/// distributed-training header variant.
pub open spec fn spec_is_spark(b: Seq<u8>, p: int) -> bool {
    b[p] == 0 && b[p + 1] == 5 && b[p + 2] == 95
}

/// Position just past the base score and feature count.
pub open spec fn spec_hdr_end(b: Seq<u8>, p: int) -> int {
    if spec_is_binf(b, p) {
        p + 12
    } else {
        p + 8
    }
}

/// The base score bits of the header at `p`.
pub open spec fn spec_hdr_base(b: Seq<u8>, p: int) -> int {
    if spec_is_binf(b, p) {
        spec_le_u32(b.subrange(p + 4, p + 8))
    } else {
        spec_le_u32(b.subrange(p, p + 4))
    }
}

/// The feature count of the header at `p`.
pub open spec fn spec_hdr_nf(b: Seq<u8>, p: int) -> int {
    if spec_is_binf(b, p) {
        spec_le_u32(b.subrange(p + 8, p + 12))
    } else {
        spec_le_u32(b.subrange(p + 4, p + 8))
    }
}

/// Position just past the whole header (class count, buffer flag, 30
/// reserved words included).
pub open spec fn spec_params_end(b: Seq<u8>, p: int) -> int {
    spec_hdr_end(b, p) + 128
}

/// Whether a whole, supported header is encoded at `p`.
pub open spec fn spec_params_ok(b: Seq<u8>, p: int) -> bool {
    &&& p + 8 <= b.len()
    &&& (spec_is_binf(b, p) ==> p + 12 <= b.len())
    &&& (spec_is_binf(b, p) || !spec_is_spark(b, p))
    &&& spec_params_end(b, p) <= b.len()
}

/// Whether `e` is the error decoding the header at `p` fails with.
pub open spec fn spec_params_err_is(b: Seq<u8>, p: int, e: PredictError) -> bool {
    if p + 8 > b.len() {
        e == PredictError::TruncatedInput
    } else if !spec_is_binf(b, p) && spec_is_spark(b, p) {
        match e {
            PredictError::UnsupportedModelType(s) => s@ == "xgboost4j-spark"@,
            _ => false,
        }
    } else {
        e == PredictError::TruncatedInput
    }
}

/// A loaded model: header, objective, booster.
#[derive(Debug)]
pub struct Predictor {
    pub mparam: ModelParam,
    pub obj_func: ObjFunction,
    pub gbm: GradBooster,
}

impl ModelParam {
    /// Decodes class count, buffer flag and the reserved block, the
    /// base score and feature count having been detected already.
    pub fn read_from(base_score: u32, num_feature: usize, reader: &mut ModelReader) -> (r: Result<
        ModelParam,
        PredictError,
    >)
        requires
            old(reader).wf(),
        ensures
            final(reader).wf(),
            final(reader).bytes() == old(reader).bytes(),
            match r {
                Ok(m) => {
                    &&& old(reader).remaining() >= 128
                    &&& m.base_score == base_score
                    &&& m.num_feature == num_feature
                    &&& m.num_class == spec_le_i32(
                        old(reader).bytes().subrange(old(reader).pos(), old(reader).pos() + 4),
                    )
                    &&& m.saved_with_pbuffer == (spec_le_i32(
                        old(reader).bytes().subrange(old(reader).pos() + 4, old(reader).pos() + 8),
                    ) != 0)
                    &&& final(reader).pos() == old(reader).pos() + 128
                },
                Err(e) => old(reader).remaining() < 128 && e == PredictError::TruncatedInput,
            },
    {
        let num_class = reader.read_i32_le()?;
        let saved_with_pbuffer = reader.read_i32_le()?;
        reader.read_to_i32_buffer(30)?;
        Ok(
            ModelParam {
                base_score,
                num_feature,
                num_class,
                saved_with_pbuffer: saved_with_pbuffer != 0,
            },
        )
    }
}

impl Predictor {
    /// The loaded booster is well formed.
    pub open spec fn wf(&self) -> bool {
        self.gbm.wf()
    }

    /// Decodes the model header, detecting which of the two encodings
    /// opens the stream, and failing with `UnsupportedModelType` on the
    /// marker of the unimplemented distributed-training variant.
    pub fn read_model_params(reader: &mut ModelReader) -> (r: Result<ModelParam, PredictError>)
        requires
            old(reader).wf(),
        ensures
            final(reader).wf(),
            final(reader).bytes() == old(reader).bytes(),
            match r {
                Ok(m) => {
                    let b = old(reader).bytes();
                    let p = old(reader).pos();
                    &&& spec_params_ok(b, p)
                    &&& m.base_score == spec_hdr_base(b, p)
                    &&& m.num_feature == spec_hdr_nf(b, p)
                    &&& m.num_class == spec_le_i32(
                        b.subrange(spec_hdr_end(b, p), spec_hdr_end(b, p) + 4),
                    )
                    &&& m.saved_with_pbuffer == (spec_le_i32(
                        b.subrange(spec_hdr_end(b, p) + 4, spec_hdr_end(b, p) + 8),
                    ) != 0)
                    &&& final(reader).pos() == spec_params_end(b, p)
                },
                Err(e) => !spec_params_ok(old(reader).bytes(), old(reader).pos())
                    && spec_params_err_is(old(reader).bytes(), old(reader).pos(), e),
            },
    {
        let ghost b = old(reader).bytes();
        let ghost p = old(reader).pos();
        let first4 = reader.read_bytes(4)?;
        let next4 = match reader.read_bytes(4) {
            Ok(v) => v,
            Err(e) => {
                return Err(e);
            },
        };
        let is_binf = first4[0] == 98 && first4[1] == 105 && first4[2] == 110 && first4[3] == 102;
        proof {
            assert(is_binf == spec_is_binf(b, p));
        }
        let (base_score, num_feature) = if is_binf {
            let base = u32_from_le_4(&next4);
            let nf = match reader.read_u32_le() {
                Ok(v) => v,
                Err(e) => {
                    return Err(e);
                },
            };
            (base, nf as usize)
        } else if first4[0] == 0 && first4[1] == 5 && first4[2] == 95 {
            // model written by the distributed-training integration:
            // its header layout is not implemented
            return Err(
                PredictError::UnsupportedModelType(String::from_str("xgboost4j-spark")),
            );
        } else {
            let base = u32_from_le_4(&first4);
            let nf = u32_from_le_4(&next4);
            (base, nf as usize)
        };
        ModelParam::read_from(base_score, num_feature, reader)
    }

    /// Decodes a whole model: header, objective name, booster type
    /// name, booster body.
    pub fn read_from(reader: &mut ModelReader) -> (r: Result<Predictor, PredictError>)
        requires
            old(reader).wf(),
        ensures
            final(reader).wf(),
            final(reader).bytes() == old(reader).bytes(),
            ({
                let b = old(reader).bytes();
                let p = old(reader).pos();
                let pe = spec_params_end(b, p);
                let name_obj = ModelReader::spec_len_prefixed_bytes(b, pe);
                let q1 = pe + 8 + name_obj.len();
                let name_gbm = ModelReader::spec_len_prefixed_bytes(b, q1);
                let q2 = q1 + 8 + name_gbm.len();
                match r {
                    Ok(pr) => {
                        &&& spec_params_ok(b, p)
                        &&& pr.mparam.base_score == spec_hdr_base(b, p)
                        &&& pr.mparam.num_feature == spec_hdr_nf(b, p)
                        &&& pr.mparam.num_class == spec_le_i32(
                            b.subrange(spec_hdr_end(b, p), spec_hdr_end(b, p) + 4),
                        )
                        &&& pr.mparam.saved_with_pbuffer == (spec_le_i32(
                            b.subrange(spec_hdr_end(b, p) + 4, spec_hdr_end(b, p) + 8),
                        ) != 0)
                        &&& ModelReader::spec_len_prefixed_ok(b, pe)
                        &&& ModelReader::spec_len_prefixed_ok(b, q1)
                        &&& spec_objective_of(name_obj) == Some(pr.obj_func)
                        &&& spec_booster_matches(
                            &pr.gbm,
                            b,
                            q2,
                            name_gbm,
                            pr.mparam.saved_with_pbuffer,
                            final(reader).pos(),
                        )
                        &&& pr.wf()
                    },
                    Err(e) => {
                        if !spec_params_ok(b, p) {
                            spec_params_err_is(b, p, e)
                        } else if !ModelReader::spec_len_prefixed_ok(b, pe) {
                            e == PredictError::TruncatedInput
                        } else if !ModelReader::spec_len_prefixed_ok(b, q1) {
                            e == PredictError::TruncatedInput
                        } else if spec_objective_of(name_obj) is None {
                            match e {
                                PredictError::UnsupportedObjFunctionType(s) => {
                                    vstd::utf8::valid_utf8(name_obj) && s@
                                        == vstd::utf8::decode_utf8(name_obj)
                                },
                                PredictError::TextDecodeError => !vstd::utf8::valid_utf8(name_obj),
                                _ => false,
                            }
                        } else {
                            !spec_load_booster_ok(
                                b,
                                q2,
                                name_gbm,
                                spec_le_i32(
                                    b.subrange(spec_hdr_end(b, p) + 4, spec_hdr_end(b, p) + 8),
                                ) != 0,
                            ) && spec_load_booster_err_is(
                                b,
                                q2,
                                name_gbm,
                                spec_le_i32(
                                    b.subrange(spec_hdr_end(b, p) + 4, spec_hdr_end(b, p) + 8),
                                ) != 0,
                                e,
                            )
                        }
                    },
                }
            }),
    {
        let mparam = Predictor::read_model_params(reader)?;
        let name_obj = reader.read_u8_vec_len()?;
        let name_gbm = reader.read_u8_vec_len()?;
        let obj_func = get_classify_func_type(&name_obj)?;
        let gbm = load_grad_booster(reader, name_gbm, mparam.saved_with_pbuffer)?;
        Ok(Predictor { mparam, obj_func, gbm })
    }

    /// The model's feature count, for input-shape validation by the
    /// caller.
    pub fn model_num_feature(&self) -> (r: usize)
        ensures
            r == self.mparam.num_feature,
    {
        self.mparam.num_feature
    }

    /// Margins for a flat row-major batch of feature rows, one margin
    /// per row and output group: the booster's terms at root 0, each
    /// carrying the model's base score.  The objective transform is the
    /// caller's, applied to the folded sums unless raw margins are
    /// wanted.
    #[verifier::loop_isolation(false)]
    pub fn predict_many(&self, feats: &[u32], row_length: usize, ntree_limit: usize) -> (r: Result<
        Vec<Vec<Margin>>,
        PredictError,
    >)
        requires
            self.wf(),
            row_length > 0,
            (feats@.len() as int) % (row_length as int) == 0,
        ensures
            match r {
                Ok(v) => {
                    &&& v@.len() == (feats@.len() as int) / (row_length as int)
                    &&& forall|rr: int|
                        0 <= rr < v@.len() ==> (#[trigger] v@[rr])@.len()
                            == self.gbm.spec_num_groups()
                    &&& forall|g: int, rr: int|
                        #![trigger self.gbm.spec_booster_ok(spec_row(feats@, row_length as int, rr), g, ntree_limit as int)]
                        0 <= g < self.gbm.spec_num_groups() && 0 <= rr < v@.len()
                            ==> self.gbm.spec_booster_ok(
                            spec_row(feats@, row_length as int, rr),
                            g,
                            ntree_limit as int,
                        )
                    &&& forall|g: int, rr: int|
                        0 <= g < self.gbm.spec_num_groups() && 0 <= rr < v@.len()
                            ==> #[trigger] self.gbm.spec_margin_matches(
                            v@[rr]@[g],
                            spec_row(feats@, row_length as int, rr),
                            g,
                            self.mparam.base_score,
                            ntree_limit as int,
                        )
                },
                Err(e) => exists|g: int, rr: int|
                    0 <= g < self.gbm.spec_num_groups() && 0 <= rr < (feats@.len() as int) / (
                    row_length as int) && !(#[trigger] self.gbm.spec_booster_ok(
                        spec_row(feats@, row_length as int, rr),
                        g,
                        ntree_limit as int,
                    )) && self.gbm.spec_booster_err_matches(
                        spec_row(feats@, row_length as int, rr),
                        g,
                        ntree_limit as int,
                        e,
                    ),
            },
    {
        let ghost nrows_g = (feats@.len() as int) / (row_length as int);
        let gm = self.gbm.predict_many(feats, row_length, self.mparam.base_score, ntree_limit)?;
        let ngroups = gm.len();
        let nrows = feats.len() / row_length;
        let mut v: Vec<Vec<Margin>> = Vec::new();
        let mut rr: usize = 0;
        while rr < nrows
            invariant
                rr <= nrows,
                nrows == nrows_g,
                ngroups == gm@.len() == self.gbm.spec_num_groups(),
                forall|h: int| 0 <= h < ngroups ==> (#[trigger] gm@[h])@.len() == nrows_g,
                forall|h: int, r2: int|
                    0 <= h < ngroups && 0 <= r2 < nrows_g ==> #[trigger] self.gbm.spec_margin_matches(
                        gm@[h]@[r2],
                        spec_row(feats@, row_length as int, r2),
                        h,
                        self.mparam.base_score,
                        ntree_limit as int,
                    ),
                v@.len() == rr,
                forall|r2: int| 0 <= r2 < rr ==> (#[trigger] v@[r2])@.len() == ngroups,
                forall|g: int, r2: int|
                    0 <= g < ngroups && 0 <= r2 < rr ==> #[trigger] self.gbm.spec_margin_matches(
                        v@[r2]@[g],
                        spec_row(feats@, row_length as int, r2),
                        g,
                        self.mparam.base_score,
                        ntree_limit as int,
                    ),
            decreases nrows - rr,
        {
            let mut row: Vec<Margin> = Vec::new();
            let mut g: usize = 0;
            while g < ngroups
                invariant
                    0 <= rr < nrows,
                    g <= ngroups,
                    row@.len() == g,
                    forall|h: int|
                        0 <= h < g ==> #[trigger] self.gbm.spec_margin_matches(
                            row@[h],
                            spec_row(feats@, row_length as int, rr as int),
                            h,
                            self.mparam.base_score,
                            ntree_limit as int,
                        ),
                decreases ngroups - g,
            {
                let m = &gm[g];
                let margin = Margin { base_score: m[rr].base_score, terms: m[rr].terms.clone() };
                proof {
                    assert(margin.terms@ =~= gm@[g as int]@[rr as int].terms@);
                    assert(self.gbm.spec_margin_matches(
                        gm@[g as int]@[rr as int],
                        spec_row(feats@, row_length as int, rr as int),
                        g as int,
                        self.mparam.base_score,
                        ntree_limit as int,
                    ));
                }
                row.push(margin);
                g = g + 1;
            }
            let ghost grow = row@;
            let ghost prev_v = v@;
            v.push(row);
            proof {
                assert forall|g2: int, r2: int|
                    0 <= g2 < ngroups && 0 <= r2 < rr + 1 implies self.gbm.spec_margin_matches(
                    v@[r2]@[g2],
                    spec_row(feats@, row_length as int, r2),
                    g2,
                    self.mparam.base_score,
                    ntree_limit as int,
                ) by {
                    if r2 == rr {
                        assert(v@[r2]@ == grow);
                        assert(self.gbm.spec_margin_matches(
                            grow[g2],
                            spec_row(feats@, row_length as int, r2),
                            g2,
                            self.mparam.base_score,
                            ntree_limit as int,
                        ));
                    } else {
                        assert(v@[r2] == prev_v[r2]);
                        assert(self.gbm.spec_margin_matches(
                            prev_v[r2]@[g2],
                            spec_row(feats@, row_length as int, r2),
                            g2,
                            self.mparam.base_score,
                            ntree_limit as int,
                        ));
                    }
                }
            }
            rr = rr + 1;
        }
        Ok(v)
    }

    /// Margins of every output group for one feature row.
    #[verifier::loop_isolation(false)]
    pub fn predict(&self, feat: &[u32], ntree_limit: usize) -> (r: Result<
        Vec<Margin>,
        PredictError,
    >)
        requires
            self.wf(),
        ensures
            match r {
                Ok(v) => v@.len() == self.gbm.spec_num_groups() && (forall|g: int|
                    0 <= g < v@.len() ==> #[trigger] self.gbm.spec_booster_ok(
                        feat@,
                        g,
                        ntree_limit as int,
                    )) && forall|g: int|
                    0 <= g < v@.len() ==> #[trigger] self.gbm.spec_margin_matches(
                        v@[g],
                        feat@,
                        g,
                        self.mparam.base_score,
                        ntree_limit as int,
                    ),
                Err(e) => exists|g: int|
                    0 <= g < self.gbm.spec_num_groups() && !(#[trigger] self.gbm.spec_booster_ok(
                        feat@,
                        g,
                        ntree_limit as int,
                    )) && self.gbm.spec_booster_err_matches(feat@, g, ntree_limit as int, e),
            },
    {
        let ngroups: usize = match &self.gbm {
            GradBooster::Tree(t) => t.group_trees.len(),
            GradBooster::Linear(l) => l.mparam.num_output_group,
        };
        let mut v: Vec<Margin> = Vec::new();
        let mut g: usize = 0;
        while g < ngroups
            invariant
                g <= ngroups,
                ngroups == self.gbm.spec_num_groups(),
                v@.len() == g,
                forall|h: int|
                    0 <= h < g ==> #[trigger] self.gbm.spec_booster_ok(
                        feat@,
                        h,
                        ntree_limit as int,
                    ),
                forall|h: int|
                    0 <= h < g ==> #[trigger] self.gbm.spec_margin_matches(
                        v@[h],
                        feat@,
                        h,
                        self.mparam.base_score,
                        ntree_limit as int,
                    ),
            decreases ngroups - g,
        {
            let terms = match &self.gbm {
                GradBooster::Tree(t) => match t.pred(feat, g, 0, ntree_limit) {
                    Ok(t2) => t2,
                    Err(e) => {
                        proof {
                            assert(!self.gbm.spec_booster_ok(feat@, g as int, ntree_limit as int)
                                && self.gbm.spec_booster_err_matches(feat@, g as int,
                                ntree_limit as int, e));
                        }
                        return Err(e);
                    },
                },
                GradBooster::Linear(l) => match l.pred(feat, g) {
                    Ok(t2) => t2,
                    Err(e) => {
                        proof {
                            assert(!self.gbm.spec_booster_ok(feat@, g as int, ntree_limit as int)
                                && self.gbm.spec_booster_err_matches(feat@, g as int,
                                ntree_limit as int, e));
                        }
                        return Err(e);
                    },
                },
            };
            v.push(Margin { base_score: self.mparam.base_score, terms });
            proof {
                assert(self.gbm.spec_margin_matches(
                    v@[g as int],
                    feat@,
                    g as int,
                    self.mparam.base_score,
                    ntree_limit as int,
                ));
            }
            g = g + 1;
        }
        Ok(v)
    }

    /// The single group's margin for one feature row; only a model with
    /// exactly one output group can serve it.
    pub fn predict_single(&self, feat: &[u32], ntree_limit: usize) -> (r: Result<
        Margin,
        PredictError,
    >)
        requires
            self.wf(),
        ensures
            match r {
                Ok(m) => self.gbm.spec_num_groups() == 1 && self.gbm.spec_booster_ok(
                    feat@,
                    0,
                    ntree_limit as int,
                ) && self.gbm.spec_margin_matches(
                    m,
                    feat@,
                    0,
                    self.mparam.base_score,
                    ntree_limit as int,
                ),
                Err(e) => match e {
                    PredictError::UnsupportedPredictionMethod(method, _) => self.gbm.spec_num_groups()
                        != 1 && method@ == "predict_single"@,
                    _ => self.gbm.spec_num_groups() == 1 && !self.gbm.spec_booster_ok(
                        feat@,
                        0,
                        ntree_limit as int,
                    ) && self.gbm.spec_booster_err_matches(feat@, 0, ntree_limit as int, e),
                },
            },
    {
        let ngroups: usize = match &self.gbm {
            GradBooster::Tree(t) => t.group_trees.len(),
            GradBooster::Linear(l) => l.mparam.num_output_group,
        };
        if ngroups != 1 {
            return Err(
                PredictError::UnsupportedPredictionMethod(
                    String::from_str("predict_single"),
                    String::from_str("output group must be equal to 1"),
                ),
            );
        }
        let terms = match &self.gbm {
            GradBooster::Tree(t) => t.pred(feat, 0, 0, ntree_limit)?,
            GradBooster::Linear(l) => l.pred(feat, 0)?,
        };
        Ok(Margin { base_score: self.mparam.base_score, terms })
    }

    /// Leaf index of each tree of the global tree list for one feature
    /// row, up to `ntree_limit` trees (all when 0); only the tree
    /// ensemble serves it.
    pub fn predict_leaf(&self, feat: &[u32], ntree_limit: usize) -> (r: Result<
        Vec<usize>,
        PredictError,
    >)
        requires
            self.wf(),
        ensures
            match &self.gbm {
                GradBooster::Tree(t) => match r {
                    Ok(v) => {
                        let count = crate::gbtree::GBTree::spec_treeleft(
                            ntree_limit as int,
                            t.trees@.len() as int,
                        );
                        &&& v@.len() == count
                        &&& forall|i: int|
                            0 <= i < count ==> crate::regtree::spec_traverse(
                                #[trigger] t.trees@[i].nodes@,
                                feat@,
                                0,
                            ) is Leaf && v@[i] == crate::regtree::spec_leaf_index(
                                t.trees@[i].nodes@,
                                feat@,
                                0,
                            )
                    },
                    Err(e) => exists|i: int|
                        0 <= i < crate::gbtree::GBTree::spec_treeleft(
                            ntree_limit as int,
                            t.trees@.len() as int,
                        ) && !(crate::regtree::spec_traverse(
                            #[trigger] t.trees@[i].nodes@,
                            feat@,
                            0,
                        ) is Leaf),
                },
                GradBooster::Linear(_) => match r {
                    Ok(_) => false,
                    Err(e) => match e {
                        PredictError::UnsupportedPredictionMethod(method, _) => method@
                            == "predict_leaf"@,
                        _ => false,
                    },
                },
            },
    {
        match &self.gbm {
            GradBooster::Tree(t) => t.pred_path(feat, 0, ntree_limit),
            GradBooster::Linear(_) => Err(
                PredictError::UnsupportedPredictionMethod(
                    String::from_str("predict_leaf"),
                    String::from_str("gblinear model does not support predict leaf index"),
                ),
            ),
        }
    }
}

/// The unsigned little-endian 32-bit value of a 4-byte buffer.
fn u32_from_le_4(bs: &Vec<u8>) -> (r: u32)
    requires
        bs@.len() == 4,
    ensures
        r == spec_le_u32(bs@),
{
    proof {
        assert(bs@ =~= bs@.subrange(0, 4));
    }
    (bs[0] as u32) + (bs[1] as u32) * 0x100 + (bs[2] as u32) * 0x1_0000 + (bs[3] as u32)
        * 0x100_0000
}

} // verus!
