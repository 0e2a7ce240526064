//! The booster abstraction: exactly two variants, selected at load time
//! by the booster type tag read from the stream.

use vstd::prelude::*;

use crate::errors::PredictError;
use crate::gblinear::{GBLinear, spec_linear_matches, spec_linear_ok};
use crate::gbtree::{GBTree, spec_gbt_err, spec_gbt_matches, spec_gbt_ok};
use crate::margin::{Margin, Term, spec_row};
use crate::model_reader::ModelReader;
use crate::text::bytes_to_string;

verus! {

/// A loaded booster: a tree ensemble (plain or dropout) or a linear
/// model.
#[derive(Debug)]
pub enum GradBooster {
    Tree(GBTree),
    Linear(GBLinear),
}

/// The booster type tag naming the plain tree ensemble: "gbtree".
pub open spec fn spec_name_gbtree() -> Seq<u8> {
    seq![103u8, 98u8, 116u8, 114u8, 101u8, 101u8]
}

/// The booster type tag naming the linear booster: "gblinear".
pub open spec fn spec_name_gblinear() -> Seq<u8> {
    seq![103u8, 98u8, 108u8, 105u8, 110u8, 101u8, 97u8, 114u8]
}

/// The booster type tag naming the dropout tree ensemble: "dart".
pub open spec fn spec_name_dart() -> Seq<u8> {
    seq![100u8, 97u8, 114u8, 116u8]
}

impl GradBooster {
    /// Both variants carry their own well-formedness.
    pub open spec fn wf(&self) -> bool {
        match self {
            GradBooster::Tree(t) => t.wf(),
            GradBooster::Linear(l) => l.wf(),
        }
    }

    /// How many output groups the booster produces per row.
    pub open spec fn spec_num_groups(&self) -> int {
        match self {
            GradBooster::Tree(t) => t.mparam.num_output_group as int,
            GradBooster::Linear(l) => l.mparam.num_output_group as int,
        }
    }

    /// Whether evaluating group `g` on `feat` succeeds.
    pub open spec fn spec_booster_ok(&self, feat: Seq<u32>, g: int, limit: int) -> bool {
        match self {
            GradBooster::Tree(t) => t.spec_group_ok(feat, g, 0, limit),
            GradBooster::Linear(l) => feat.len() >= l.mparam.num_feature,
        }
    }

    /// The terms of group `g`'s raw prediction on `feat`: the weighted
    /// leaf values of the evaluated trees, or the feature-weight
    /// products plus the bias.  `limit` has no effect on a linear
    /// booster.
    pub open spec fn spec_booster_terms(&self, feat: Seq<u32>, g: int, limit: int) -> Seq<Term> {
        match self {
            GradBooster::Tree(t) => t.spec_group_terms(feat, g, 0, limit),
            GradBooster::Linear(l) => l.spec_terms(feat, g),
        }
    }

    /// Whether `e` is the error evaluating group `g` on `feat` fails
    /// with.
    pub open spec fn spec_booster_err_matches(
        &self,
        feat: Seq<u32>,
        g: int,
        limit: int,
        e: PredictError,
    ) -> bool {
        match self {
            GradBooster::Tree(t) => t.spec_group_err_matches(feat, g, 0, limit, e),
            GradBooster::Linear(l) => e == PredictError::FeatureIndexOutOfRange,
        }
    }

    /// Whether `m` is the margin of group `g`'s prediction on `feat`:
    /// it carries `base_score` and exactly the group's terms.
    pub open spec fn spec_margin_matches(
        &self,
        m: Margin,
        feat: Seq<u32>,
        g: int,
        base_score: u32,
        limit: int,
    ) -> bool {
        m.base_score == base_score && m.terms@ == self.spec_booster_terms(feat, g, limit)
    }

    /// Per-group, per-row margins for a flat row-major batch: the terms
    /// of every group's prediction on every row at root 0, each carrying
    /// `base_score`.
    #[verifier::loop_isolation(false)]
    pub fn predict_many(
        &self,
        feats: &[u32],
        row_length: usize,
        base_score: u32,
        ntree_limit: usize,
    ) -> (r: Result<Vec<Vec<Margin>>, PredictError>)
        requires
            self.wf(),
            row_length > 0,
            (feats@.len() as int) % (row_length as int) == 0,
        ensures
            match r {
                Ok(v) => {
                    &&& v@.len() == self.spec_num_groups()
                    &&& forall|g: int|
                        0 <= g < v@.len() ==> (#[trigger] v@[g])@.len() == (feats@.len() as int)
                            / (row_length as int)
                    &&& forall|g: int, rr: int|
                        #![trigger self.spec_booster_ok(spec_row(feats@, row_length as int, rr), g, ntree_limit as int)]
                        0 <= g < v@.len() && 0 <= rr < (feats@.len() as int) / (row_length as int)
                            ==> self.spec_booster_ok(
                            spec_row(feats@, row_length as int, rr),
                            g,
                            ntree_limit as int,
                        )
                    &&& forall|g: int, rr: int|
                        0 <= g < v@.len() && 0 <= rr < (feats@.len() as int) / (row_length as int)
                            ==> #[trigger] self.spec_margin_matches(
                            v@[g]@[rr],
                            spec_row(feats@, row_length as int, rr),
                            g,
                            base_score,
                            ntree_limit as int,
                        )
                },
                Err(e) => exists|g: int, rr: int|
                    0 <= g < self.spec_num_groups() && 0 <= rr < (feats@.len() as int) / (
                    row_length as int) && !(#[trigger] self.spec_booster_ok(
                        spec_row(feats@, row_length as int, rr),
                        g,
                        ntree_limit as int,
                    )) && self.spec_booster_err_matches(
                        spec_row(feats@, row_length as int, rr),
                        g,
                        ntree_limit as int,
                        e,
                    ),
            },
    {
        let ghost nrows = (feats@.len() as int) / (row_length as int);
        proof {
            vstd::arithmetic::div_mod::lemma_fundamental_div_mod(
                feats@.len() as int,
                row_length as int,
            );
        }
        let num_groups: usize = match self {
            GradBooster::Tree(t) => t.group_trees.len(),
            GradBooster::Linear(l) => l.mparam.num_output_group,
        };
        let mut v: Vec<Vec<Margin>> = Vec::new();
        let mut g: usize = 0;
        while g < num_groups
            invariant
                g <= num_groups,
                num_groups == self.spec_num_groups(),
                v@.len() == g,
                forall|h: int| 0 <= h < g ==> (#[trigger] v@[h])@.len() == nrows,
                forall|h: int, rr: int|
                    #![trigger self.spec_booster_ok(spec_row(feats@, row_length as int, rr), h, ntree_limit as int)]
                    0 <= h < g && 0 <= rr < nrows ==> self.spec_booster_ok(
                        spec_row(feats@, row_length as int, rr),
                        h,
                        ntree_limit as int,
                    ),
                forall|h: int, rr: int|
                    0 <= h < g && 0 <= rr < nrows ==> #[trigger] self.spec_margin_matches(
                        v@[h]@[rr],
                        spec_row(feats@, row_length as int, rr),
                        h,
                        base_score,
                        ntree_limit as int,
                    ),
            decreases num_groups - g,
        {
            let group_margins: Vec<Margin> = match self {
                GradBooster::Tree(t) => {
                    let rows = match t.pred_many(feats, row_length, g, 0, ntree_limit) {
                        Ok(rows) => rows,
                        Err(e) => {
                            proof {
                                let rr0 = choose|rr: int|
                                    0 <= rr < nrows && !t.spec_group_ok(
                                        spec_row(feats@, row_length as int, rr),
                                        g as int,
                                        0,
                                        ntree_limit as int,
                                    ) && t.spec_group_err_matches(
                                        #[trigger] spec_row(feats@, row_length as int, rr),
                                        g as int,
                                        0,
                                        ntree_limit as int,
                                        e,
                                    );
                                assert(!self.spec_booster_ok(
                                    spec_row(feats@, row_length as int, rr0),
                                    g as int,
                                    ntree_limit as int,
                                ) && self.spec_booster_err_matches(
                                    spec_row(feats@, row_length as int, rr0),
                                    g as int,
                                    ntree_limit as int,
                                    e,
                                ));
                            }
                            return Err(e);
                        },
                    };
                    proof {
                        assert forall|rr2: int| 0 <= rr2 < nrows implies self.spec_booster_ok(
                            spec_row(feats@, row_length as int, rr2),
                            g as int,
                            ntree_limit as int,
                        ) by {
                            assert(t.spec_group_ok(
                                spec_row(feats@, row_length as int, rr2),
                                g as int,
                                0,
                                ntree_limit as int,
                            ));
                        }
                    }
                    let mut ms: Vec<Margin> = Vec::new();
                    let mut rr: usize = 0;
                    let nr = rows.len();
                    while rr < nr
                        invariant
                            rr <= nr,
                            nr == rows@.len() == nrows,
                            ms@.len() == rr,
                            forall|j: int|
                                0 <= j < rr ==> (#[trigger] ms@[j]).base_score == base_score
                                    && ms@[j].terms@ == rows@[j]@,
                        decreases nr - rr,
                    {
                        let terms = rows[rr].clone();
                        proof {
                            assert(terms@ =~= rows@[rr as int]@);
                        }
                        ms.push(Margin { base_score, terms });
                        rr = rr + 1;
                    }
                    proof {
                        assert forall|j: int|
                            0 <= j < nrows implies (#[trigger] ms@[j]).base_score == base_score
                            && ms@[j].terms@ == self.spec_booster_terms(
                            spec_row(feats@, row_length as int, j),
                            g as int,
                            ntree_limit as int,
                        ) by {
                            assert(ms@[j].terms@ == rows@[j]@);
                            assert(rows@[j]@ == t.spec_group_terms(
                                spec_row(feats@, row_length as int, j),
                                g as int,
                                0,
                                ntree_limit as int,
                            ));
                        }
                    }
                    ms
                },
                GradBooster::Linear(l) => match l.pred_many(feats, row_length, base_score, g) {
                    Ok(ms) => {
                        proof {
                            vstd::arithmetic::div_mod::lemma_fundamental_div_mod(
                                feats@.len() as int,
                                row_length as int,
                            );
                            assert forall|rr2: int| 0 <= rr2 < nrows implies self.spec_booster_ok(
                                spec_row(feats@, row_length as int, rr2),
                                g as int,
                                ntree_limit as int,
                            ) by {
                                assert((rr2 + 1) * row_length <= nrows * row_length && nrows
                                    * row_length == feats@.len() && rr2 * row_length + row_length
                                    == (rr2 + 1) * row_length) by (nonlinear_arith)
                                    requires
                                        0 <= rr2 < nrows,
                                        row_length > 0,
                                        feats@.len() as int == (row_length as int) * nrows,
                                ;
                                assert(spec_row(feats@, row_length as int, rr2).len()
                                    == row_length);
                                assert(ms@.len() == nrows);
                            }
                            assert forall|j: int|
                                0 <= j < nrows implies (#[trigger] ms@[j]).base_score
                                == base_score && ms@[j].terms@ == self.spec_booster_terms(
                                spec_row(feats@, row_length as int, j),
                                g as int,
                                ntree_limit as int,
                            ) by {
                                assert(ms@[j].base_score == base_score && ms@[j].terms@
                                    == l.spec_terms(spec_row(feats@, row_length as int, j),
                                    g as int));
                            }
                        }
                        ms
                    },
                    Err(e) => {
                        proof {
                            vstd::arithmetic::div_mod::lemma_fundamental_div_mod(
                                feats@.len() as int,
                                row_length as int,
                            );
                            assert(nrows >= 1 && row_length <= feats@.len()) by (nonlinear_arith)
                                requires
                                    feats@.len() > 0,
                                    row_length > 0,
                                    nrows == (feats@.len() as int) / (row_length as int),
                                    feats@.len() as int == (row_length as int) * nrows,
                            ;
                            assert(spec_row(feats@, row_length as int, 0).len() == row_length);
                            assert(!self.spec_booster_ok(
                                spec_row(feats@, row_length as int, 0),
                                g as int,
                                ntree_limit as int,
                            ) && self.spec_booster_err_matches(
                                spec_row(feats@, row_length as int, 0),
                                g as int,
                                ntree_limit as int,
                                e,
                            ));
                        }
                        return Err(e);
                    },
                },
            };
            let ghost gm = group_margins@;
            let ghost prev_v = v@;
            v.push(group_margins);
            proof {
                assert forall|h: int, rr2: int|
                    0 <= h < g + 1 && 0 <= rr2 < nrows implies self.spec_margin_matches(
                    v@[h]@[rr2],
                    spec_row(feats@, row_length as int, rr2),
                    h,
                    base_score,
                    ntree_limit as int,
                ) by {
                    if h == g {
                        assert(v@[h]@ == gm);
                        assert(gm[rr2].base_score == base_score);
                        assert(gm[rr2].terms@ == self.spec_booster_terms(
                            spec_row(feats@, row_length as int, rr2),
                            h,
                            ntree_limit as int,
                        ));
                    } else {
                        assert(v@[h] == prev_v[h]);
                        assert(self.spec_margin_matches(
                            prev_v[h]@[rr2],
                            spec_row(feats@, row_length as int, rr2),
                            h,
                            base_score,
                            ntree_limit as int,
                        ));
                    }
                }
                assert forall|h: int| 0 <= h < g + 1 implies (#[trigger] v@[h])@.len() == nrows by {
                    if h == g {
                        assert(v@[h]@ == gm);
                        assert(gm.len() == nrows);
                    } else {
                        assert(v@[h] == prev_v[h]);
                    }
                }
            }
            g = g + 1;
        }
        Ok(v)
    }
}

/// Whether a whole booster of the variant `name` selects is encoded at
/// `p`; false for an unknown name.
pub open spec fn spec_load_booster_ok(b: Seq<u8>, p: int, name: Seq<u8>, with_pbuffer: bool) -> bool {
    if name == spec_name_gbtree() {
        spec_gbt_ok(b, p, with_pbuffer, false)
    } else if name == spec_name_dart() {
        spec_gbt_ok(b, p, with_pbuffer, true)
    } else if name == spec_name_gblinear() {
        spec_linear_ok(b, p)
    } else {
        false
    }
}

/// Whether `e` is the error loading the booster `name` selects at `p`
/// fails with: the variant's own decode error, or, for an unknown name,
/// `UnsupportedModelType` naming it (`TextDecodeError` when it is not
/// text).
pub open spec fn spec_load_booster_err_is(
    b: Seq<u8>,
    p: int,
    name: Seq<u8>,
    with_pbuffer: bool,
    e: PredictError,
) -> bool {
    if name == spec_name_gbtree() {
        e == spec_gbt_err(b, p, with_pbuffer, false)
    } else if name == spec_name_dart() {
        e == spec_gbt_err(b, p, with_pbuffer, true)
    } else if name == spec_name_gblinear() {
        e == PredictError::TruncatedInput
    } else {
        match e {
            PredictError::UnsupportedModelType(s) => vstd::utf8::valid_utf8(name) && s@
                == vstd::utf8::decode_utf8(name),
            PredictError::TextDecodeError => !vstd::utf8::valid_utf8(name),
            _ => false,
        }
    }
}

/// Whether `gbm` is exactly the booster `name` selects, decoded from
/// `p` up to `endpos`.
pub open spec fn spec_booster_matches(
    gbm: &GradBooster,
    b: Seq<u8>,
    p: int,
    name: Seq<u8>,
    with_pbuffer: bool,
    endpos: int,
) -> bool {
    match gbm {
        GradBooster::Tree(t) => (name == spec_name_gbtree() && spec_gbt_matches(
            t,
            b,
            p,
            with_pbuffer,
            false,
            endpos,
        )) || (name == spec_name_dart() && spec_gbt_matches(t, b, p, with_pbuffer, true, endpos)),
        GradBooster::Linear(l) => name == spec_name_gblinear() && spec_linear_matches(
            l,
            b,
            p,
            endpos,
        ),
    }
}

/// The tree count limit never changes a linear booster's prediction,
/// and a limit at or beyond a group's tree count behaves on a tree
/// ensemble exactly like no limit at all.
pub proof fn lemma_limit_has_no_effect(b: &GradBooster, feat: Seq<u32>, g: int, limit: int)
    requires
        b.wf(),
        0 <= g < b.spec_num_groups(),
        match b {
            GradBooster::Tree(t) => limit == 0 || limit >= t.group_trees@[g]@.len(),
            GradBooster::Linear(_) => true,
        },
    ensures
        b.spec_booster_terms(feat, g, limit) == b.spec_booster_terms(feat, g, 0),
        b.spec_booster_ok(feat, g, limit) == b.spec_booster_ok(feat, g, 0),
{
    match b {
        GradBooster::Tree(t) => {
            crate::gbtree::lemma_ntree_limit_clamp(t, feat, g, 0, limit);
        },
        GradBooster::Linear(_) => {},
    }
}

/// Loads the booster named by `type_name`: "gbtree" and "dart" select
/// the tree ensemble (the latter with dropout weights), "gblinear" the
/// linear booster.  Any other name fails with `UnsupportedModelType`
/// naming it — or `TextDecodeError` when it is not text — and consumes
/// no bytes from the stream.
pub fn load_grad_booster(
    reader: &mut ModelReader,
    name_gbm: Vec<u8>,
    with_pbuffer: bool,
) -> (r: Result<GradBooster, PredictError>)
    requires
        old(reader).wf(),
    ensures
        final(reader).wf(),
        final(reader).bytes() == old(reader).bytes(),
        match r {
            Ok(gbm) => spec_load_booster_ok(
                old(reader).bytes(),
                old(reader).pos(),
                name_gbm@,
                with_pbuffer,
            ) && spec_booster_matches(
                &gbm,
                old(reader).bytes(),
                old(reader).pos(),
                name_gbm@,
                with_pbuffer,
                final(reader).pos(),
            ) && gbm.wf(),
            Err(e) => !spec_load_booster_ok(
                old(reader).bytes(),
                old(reader).pos(),
                name_gbm@,
                with_pbuffer,
            ) && spec_load_booster_err_is(
                old(reader).bytes(),
                old(reader).pos(),
                name_gbm@,
                with_pbuffer,
                e,
            ),
        },
        (name_gbm@ != spec_name_gbtree() && name_gbm@ != spec_name_dart() && name_gbm@
            != spec_name_gblinear()) ==> *final(reader) == *old(reader),
{
    let is_gbtree = name_gbm.len() == 6 && name_gbm[0] == 103 && name_gbm[1] == 98 && name_gbm[2]
        == 116 && name_gbm[3] == 114 && name_gbm[4] == 101 && name_gbm[5] == 101;
    let is_dart = name_gbm.len() == 4 && name_gbm[0] == 100 && name_gbm[1] == 97 && name_gbm[2]
        == 114 && name_gbm[3] == 116;
    let is_gblinear = name_gbm.len() == 8 && name_gbm[0] == 103 && name_gbm[1] == 98 && name_gbm[2]
        == 108 && name_gbm[3] == 105 && name_gbm[4] == 110 && name_gbm[5] == 101 && name_gbm[6]
        == 97 && name_gbm[7] == 114;
    proof {
        if is_gbtree {
            assert(name_gbm@ =~= spec_name_gbtree());
        } else {
            assert(name_gbm@ != spec_name_gbtree());
        }
        if is_dart {
            assert(name_gbm@ =~= spec_name_dart());
        } else {
            assert(name_gbm@ != spec_name_dart());
        }
        if is_gblinear {
            assert(name_gbm@ =~= spec_name_gblinear());
        } else {
            assert(name_gbm@ != spec_name_gblinear());
        }
    }
    if is_gbtree {
        Ok(GradBooster::Tree(GBTree::read_from(with_pbuffer, reader, false)?))
    } else if is_gblinear {
        Ok(GradBooster::Linear(GBLinear::read_from(with_pbuffer, reader)?))
    } else if is_dart {
        Ok(GradBooster::Tree(GBTree::read_from(with_pbuffer, reader, true)?))
    } else {
        match bytes_to_string(name_gbm) {
            Some(s) => Err(PredictError::UnsupportedModelType(s)),
            None => Err(PredictError::TextDecodeError),
        }
    }
}

} // verus!
