//! Objective registry: maps the objective name read from the stream to
//! the transform the caller applies to raw predictions.

use vstd::prelude::*;

use crate::errors::PredictError;
use crate::text::bytes_to_string;

verus! {

/// The transform a named objective applies to raw summed predictions.
/// The floating-point transforms themselves (identity, logistic
/// sigmoid, row-wise softmax) are carried out by the caller on the
/// margins this crate produces.
#[derive(Clone, Copy, PartialEq, Eq, Structural, Debug)]
pub enum ObjFunction {
    /// Margins are returned unchanged.
    Identity,
    /// Logistic sigmoid applied to each value.
    Logistic,
    /// Index of the row-wise softmax maximum (class prediction).
    SoftmaxClassify,
    /// Row-wise softmax probabilities.
    SoftmaxProb,
}

/// The objective name "reg:linear".
pub open spec fn spec_name_reg_linear() -> Seq<u8> {
    seq![114u8, 101u8, 103u8, 58u8, 108u8, 105u8, 110u8, 101u8, 97u8, 114u8]
}
/// The objective name "reg:squarederror".
pub open spec fn spec_name_reg_squarederror() -> Seq<u8> {
    seq![114u8, 101u8, 103u8, 58u8, 115u8, 113u8, 117u8, 97u8, 114u8, 101u8, 100u8, 101u8, 114u8, 114u8, 111u8, 114u8]
}
/// The objective name "reg:logistic".
pub open spec fn spec_name_reg_logistic() -> Seq<u8> {
    seq![114u8, 101u8, 103u8, 58u8, 108u8, 111u8, 103u8, 105u8, 115u8, 116u8, 105u8, 99u8]
}
/// The objective name "reg:loglogistic".
pub open spec fn spec_name_reg_loglogistic() -> Seq<u8> {
    seq![114u8, 101u8, 103u8, 58u8, 108u8, 111u8, 103u8, 108u8, 111u8, 103u8, 105u8, 115u8, 116u8, 105u8, 99u8]
}
/// The objective name "binary:logistic".
pub open spec fn spec_name_binary_logistic() -> Seq<u8> {
    seq![98u8, 105u8, 110u8, 97u8, 114u8, 121u8, 58u8, 108u8, 111u8, 103u8, 105u8, 115u8, 116u8, 105u8, 99u8]
}
/// The objective name "binary:logitraw".
pub open spec fn spec_name_binary_logitraw() -> Seq<u8> {
    seq![98u8, 105u8, 110u8, 97u8, 114u8, 121u8, 58u8, 108u8, 111u8, 103u8, 105u8, 116u8, 114u8, 97u8, 119u8]
}
/// The objective name "rank:pairwise".
pub open spec fn spec_name_rank_pairwise() -> Seq<u8> {
    seq![114u8, 97u8, 110u8, 107u8, 58u8, 112u8, 97u8, 105u8, 114u8, 119u8, 105u8, 115u8, 101u8]
}
/// The objective name "multi:softmax".
pub open spec fn spec_name_multi_softmax() -> Seq<u8> {
    seq![109u8, 117u8, 108u8, 116u8, 105u8, 58u8, 115u8, 111u8, 102u8, 116u8, 109u8, 97u8, 120u8]
}
/// The objective name "multi:softprob".
pub open spec fn spec_name_multi_softprob() -> Seq<u8> {
    seq![109u8, 117u8, 108u8, 116u8, 105u8, 58u8, 115u8, 111u8, 102u8, 116u8, 112u8, 114u8, 111u8, 98u8]
}

/// The transform registered for objective name `n`, if any.
pub open spec fn spec_objective_of(n: Seq<u8>) -> Option<ObjFunction> {
    if n == spec_name_reg_linear() {
        Some(ObjFunction::Identity)
    } else     if n == spec_name_reg_squarederror() {
        Some(ObjFunction::Identity)
    } else     if n == spec_name_reg_logistic() {
        Some(ObjFunction::Logistic)
    } else     if n == spec_name_reg_loglogistic() {
        Some(ObjFunction::Logistic)
    } else     if n == spec_name_binary_logistic() {
        Some(ObjFunction::Logistic)
    } else     if n == spec_name_binary_logitraw() {
        Some(ObjFunction::Identity)
    } else     if n == spec_name_rank_pairwise() {
        Some(ObjFunction::Identity)
    } else     if n == spec_name_multi_softmax() {
        Some(ObjFunction::SoftmaxClassify)
    } else     if n == spec_name_multi_softprob() {
        Some(ObjFunction::SoftmaxProb)
    } else {
        None
    }
}

/// Resolves the objective name read from the stream.  Fails with
/// `UnsupportedObjFunctionType` naming an unknown objective, or with
/// `TextDecodeError` when the name is not text.
pub fn get_classify_func_type(name: &Vec<u8>) -> (r: Result<ObjFunction, PredictError>)
    ensures
        match spec_objective_of(name@) {
            Some(k) => r == Ok::<ObjFunction, PredictError>(k),
            None => match r {
                Ok(_) => false,
                Err(e) => match e {
                    PredictError::UnsupportedObjFunctionType(s) => vstd::utf8::valid_utf8(name@)
                        && s@ == vstd::utf8::decode_utf8(name@),
                    PredictError::TextDecodeError => !vstd::utf8::valid_utf8(name@),
                    _ => false,
                },
            },
        },
{
    let is_reg_linear = name.len() == 10 && name[0] == 114 && name[1] == 101 && name[2] == 103 && name[3] == 58 && name[4] == 108 && name[5] == 105 && name[6] == 110 && name[7] == 101 && name[8] == 97 && name[9] == 114;
    proof {
        if is_reg_linear {
            assert(name@ =~= spec_name_reg_linear());
        } else {
            assert(name@ != spec_name_reg_linear());
        }
    }
    let is_reg_squarederror = name.len() == 16 && name[0] == 114 && name[1] == 101 && name[2] == 103 && name[3] == 58 && name[4] == 115 && name[5] == 113 && name[6] == 117 && name[7] == 97 && name[8] == 114 && name[9] == 101 && name[10] == 100 && name[11] == 101 && name[12] == 114 && name[13] == 114 && name[14] == 111 && name[15] == 114;
    proof {
        if is_reg_squarederror {
            assert(name@ =~= spec_name_reg_squarederror());
        } else {
            assert(name@ != spec_name_reg_squarederror());
        }
    }
    let is_reg_logistic = name.len() == 12 && name[0] == 114 && name[1] == 101 && name[2] == 103 && name[3] == 58 && name[4] == 108 && name[5] == 111 && name[6] == 103 && name[7] == 105 && name[8] == 115 && name[9] == 116 && name[10] == 105 && name[11] == 99;
    proof {
        if is_reg_logistic {
            assert(name@ =~= spec_name_reg_logistic());
        } else {
            assert(name@ != spec_name_reg_logistic());
        }
    }
    let is_reg_loglogistic = name.len() == 15 && name[0] == 114 && name[1] == 101 && name[2] == 103 && name[3] == 58 && name[4] == 108 && name[5] == 111 && name[6] == 103 && name[7] == 108 && name[8] == 111 && name[9] == 103 && name[10] == 105 && name[11] == 115 && name[12] == 116 && name[13] == 105 && name[14] == 99;
    proof {
        if is_reg_loglogistic {
            assert(name@ =~= spec_name_reg_loglogistic());
        } else {
            assert(name@ != spec_name_reg_loglogistic());
        }
    }
    let is_binary_logistic = name.len() == 15 && name[0] == 98 && name[1] == 105 && name[2] == 110 && name[3] == 97 && name[4] == 114 && name[5] == 121 && name[6] == 58 && name[7] == 108 && name[8] == 111 && name[9] == 103 && name[10] == 105 && name[11] == 115 && name[12] == 116 && name[13] == 105 && name[14] == 99;
    proof {
        if is_binary_logistic {
            assert(name@ =~= spec_name_binary_logistic());
        } else {
            assert(name@ != spec_name_binary_logistic());
        }
    }
    let is_binary_logitraw = name.len() == 15 && name[0] == 98 && name[1] == 105 && name[2] == 110 && name[3] == 97 && name[4] == 114 && name[5] == 121 && name[6] == 58 && name[7] == 108 && name[8] == 111 && name[9] == 103 && name[10] == 105 && name[11] == 116 && name[12] == 114 && name[13] == 97 && name[14] == 119;
    proof {
        if is_binary_logitraw {
            assert(name@ =~= spec_name_binary_logitraw());
        } else {
            assert(name@ != spec_name_binary_logitraw());
        }
    }
    let is_rank_pairwise = name.len() == 13 && name[0] == 114 && name[1] == 97 && name[2] == 110 && name[3] == 107 && name[4] == 58 && name[5] == 112 && name[6] == 97 && name[7] == 105 && name[8] == 114 && name[9] == 119 && name[10] == 105 && name[11] == 115 && name[12] == 101;
    proof {
        if is_rank_pairwise {
            assert(name@ =~= spec_name_rank_pairwise());
        } else {
            assert(name@ != spec_name_rank_pairwise());
        }
    }
    let is_multi_softmax = name.len() == 13 && name[0] == 109 && name[1] == 117 && name[2] == 108 && name[3] == 116 && name[4] == 105 && name[5] == 58 && name[6] == 115 && name[7] == 111 && name[8] == 102 && name[9] == 116 && name[10] == 109 && name[11] == 97 && name[12] == 120;
    proof {
        if is_multi_softmax {
            assert(name@ =~= spec_name_multi_softmax());
        } else {
            assert(name@ != spec_name_multi_softmax());
        }
    }
    let is_multi_softprob = name.len() == 14 && name[0] == 109 && name[1] == 117 && name[2] == 108 && name[3] == 116 && name[4] == 105 && name[5] == 58 && name[6] == 115 && name[7] == 111 && name[8] == 102 && name[9] == 116 && name[10] == 112 && name[11] == 114 && name[12] == 111 && name[13] == 98;
    proof {
        if is_multi_softprob {
            assert(name@ =~= spec_name_multi_softprob());
        } else {
            assert(name@ != spec_name_multi_softprob());
        }
    }
    if is_reg_linear {
        return Ok(ObjFunction::Identity);
    }
    if is_reg_squarederror {
        return Ok(ObjFunction::Identity);
    }
    if is_reg_logistic {
        return Ok(ObjFunction::Logistic);
    }
    if is_reg_loglogistic {
        return Ok(ObjFunction::Logistic);
    }
    if is_binary_logistic {
        return Ok(ObjFunction::Logistic);
    }
    if is_binary_logitraw {
        return Ok(ObjFunction::Identity);
    }
    if is_rank_pairwise {
        return Ok(ObjFunction::Identity);
    }
    if is_multi_softmax {
        return Ok(ObjFunction::SoftmaxClassify);
    }
    if is_multi_softprob {
        return Ok(ObjFunction::SoftmaxProb);
    }
    match bytes_to_string(name.clone()) {
        Some(s) => Err(PredictError::UnsupportedObjFunctionType(s)),
        None => Err(PredictError::TextDecodeError),
    }
}

} // verus!
