//! Prediction: linear exactness, group partition, tree-count clamp,
//! dropout scaling, dispatch and top-level decoding.

use xgboost_predictor::errors::PredictError;
use xgboost_predictor::functions::ObjFunction;
use xgboost_predictor::gblinear::GBLinear;
use xgboost_predictor::gbtree::GBTree;
use xgboost_predictor::grad_booster::GradBooster;
use xgboost_predictor::margin::Margin;
use xgboost_predictor::model_reader::ModelReader;
use xgboost_predictor::predictor::Predictor;

fn le_i32(v: &mut Vec<u8>, x: i32) {
    v.extend_from_slice(&x.to_le_bytes());
}

fn le_u32(v: &mut Vec<u8>, x: u32) {
    v.extend_from_slice(&x.to_le_bytes());
}

fn le_i64(v: &mut Vec<u8>, x: i64) {
    v.extend_from_slice(&x.to_le_bytes());
}

fn le_f32(v: &mut Vec<u8>, x: f32) {
    v.extend_from_slice(&x.to_bits().to_le_bytes());
}

/// Folds a margin into its float value: base score plus the sum of the
/// term products.
fn fold(m: &Margin) -> f32 {
    let mut s = f32::from_bits(m.base_score);
    for t in &m.terms {
        s += f32::from_bits(t.factor) * f32::from_bits(t.value);
    }
    s
}

/// Linear booster body: feature count, group count, 32 reserved words,
/// two padding words, then the weights (bias row last).
fn linear_body(num_feature: i32, num_output_group: i32, weights: &[f32]) -> Vec<u8> {
    let mut v = Vec::new();
    le_i32(&mut v, num_feature);
    le_i32(&mut v, num_output_group);
    for _ in 0..32 {
        le_i32(&mut v, 0);
    }
    le_i32(&mut v, 0);
    le_i32(&mut v, 0);
    for &w in weights {
        le_f32(&mut v, w);
    }
    v
}

/// A single-leaf tree whose root immediately holds `leaf_value`.
fn leaf_tree(v: &mut Vec<u8>, leaf_value: f32) {
    le_i32(v, 1); // num_roots
    le_i32(v, 1); // num_nodes
    le_i32(v, 0);
    le_i32(v, 0);
    le_i32(v, 1); // num_feature
    le_i32(v, 0);
    for _ in 0..31 {
        le_i32(v, 0);
    }
    // the single node: a leaf
    le_i32(v, -1); // parent
    le_i32(v, -1); // cleft: leaf marker
    le_i32(v, -1); // cright
    le_u32(v, 0); // sindex
    le_f32(v, leaf_value);
    // its statistics record
    for _ in 0..4 {
        le_i32(v, 0);
    }
}

/// Ensemble body: parameter block, single-leaf trees with the given
/// values, group tags, and optionally a dropout weight vector.
fn gbtree_body(
    leaf_values: &[f32],
    tree_info: &[i32],
    num_output_group: i32,
    dart_weights: Option<&[f32]>,
) -> Vec<u8> {
    let mut v = Vec::new();
    le_i32(&mut v, leaf_values.len() as i32); // num_trees
    le_i32(&mut v, 1); // num_roots
    le_i32(&mut v, 1); // num_feature
    le_i32(&mut v, 0); // padding
    le_i64(&mut v, 0); // num_pbuffer
    le_i32(&mut v, num_output_group);
    le_i32(&mut v, 0); // size_leaf_vector
    for _ in 0..31 {
        le_i32(&mut v, 0);
    }
    le_i32(&mut v, 0); // padding
    for &lv in leaf_values {
        leaf_tree(&mut v, lv);
    }
    for &t in tree_info {
        le_i32(&mut v, t);
    }
    if let Some(ws) = dart_weights {
        le_i64(&mut v, ws.len() as i64);
        for &w in ws {
            le_f32(&mut v, w);
        }
    }
    v
}

/// A whole model stream with the bare (markerless) header.
fn model_stream(base_score: f32, num_feature: i32, obj: &[u8], gbm: &[u8], body: &[u8]) -> Vec<u8> {
    let mut v = Vec::new();
    le_f32(&mut v, base_score);
    le_i32(&mut v, num_feature);
    le_i32(&mut v, 0); // num_class
    le_i32(&mut v, 0); // saved_with_pbuffer
    for _ in 0..30 {
        le_i32(&mut v, 0);
    }
    le_i64(&mut v, obj.len() as i64);
    v.extend_from_slice(obj);
    le_i64(&mut v, gbm.len() as i64);
    v.extend_from_slice(gbm);
    v.extend_from_slice(body);
    v
}

#[test]
fn linear_prediction_is_exact() {
    // weights [w0, w1, bias] = [2.0, -1.0, 0.5], row [3.0, 4.0]:
    // 2*3 + (-1)*4 + 0.5 = 2.5
    let mut r = ModelReader::new(linear_body(2, 1, &[2.0, -1.0, 0.5]));
    let l = GBLinear::read_from(false, &mut r).expect("linear booster decodes");
    let row = [3.0f32.to_bits(), 4.0f32.to_bits()];
    let terms = l.pred(&row, 0).unwrap();
    let m = Margin { base_score: 0.0f32.to_bits(), terms };
    assert_eq!(fold(&m), 2.5);
}

#[test]
fn linear_prediction_adds_base_score() {
    let body = linear_body(2, 1, &[2.0, -1.0, 0.5]);
    let stream = model_stream(0.5, 2, b"reg:linear", b"gblinear", &body);
    let mut r = ModelReader::new(stream);
    let p = Predictor::read_from(&mut r).expect("model loads");
    let feats = [3.0f32.to_bits(), 4.0f32.to_bits()];
    let out = p.predict_many(&feats, 2, 0).unwrap();
    assert_eq!(out.len(), 1);
    assert_eq!(out[0].len(), 1);
    assert_eq!(fold(&out[0][0]), 3.0);
}

#[test]
fn linear_short_row_is_reported() {
    let mut r = ModelReader::new(linear_body(2, 1, &[2.0, -1.0, 0.5]));
    let l = GBLinear::read_from(false, &mut r).unwrap();
    let row = [3.0f32.to_bits()];
    assert_eq!(l.pred(&row, 0).err(), Some(PredictError::FeatureIndexOutOfRange));
}

#[test]
fn group_partition_preserves_order_and_covers_all_trees() {
    let body = gbtree_body(&[1.0, 2.0, 3.0, 4.0, 5.0], &[0, 1, 0, 1, 0], 2, None);
    let mut r = ModelReader::new(body);
    let t = GBTree::read_from(false, &mut r, false).expect("ensemble decodes");
    assert_eq!(t.group_trees.len(), 2);
    assert_eq!(t.group_trees[0], vec![0, 2, 4]);
    assert_eq!(t.group_trees[1], vec![1, 3]);
}

#[test]
fn ntree_limit_clamps_to_all_trees() {
    let body = gbtree_body(&[1.0, 2.0, 4.0], &[0, 0, 0], 1, None);
    let stream = model_stream(0.0, 1, b"reg:linear", b"gbtree", &body);
    let mut r = ModelReader::new(stream);
    let p = Predictor::read_from(&mut r).unwrap();
    let feats = [0.0f32.to_bits()];
    let all = p.predict_many(&feats, 1, 0).unwrap();
    let exact = p.predict_many(&feats, 1, 3).unwrap();
    let beyond = p.predict_many(&feats, 1, 10).unwrap();
    assert_eq!(fold(&all[0][0]), 7.0);
    assert_eq!(all, exact);
    assert_eq!(all, beyond);
    // a smaller limit really cuts the sum
    let two = p.predict_many(&feats, 1, 2).unwrap();
    assert_eq!(fold(&two[0][0]), 3.0);
}

#[test]
fn dart_weights_scale_each_tree() {
    // three trees each contributing 1.0, dropout weights [0.0, 1.0, 2.0]:
    // 0*1 + 1*1 + 2*1 = 3.0
    let body = gbtree_body(&[1.0, 1.0, 1.0], &[0, 0, 0], 1, Some(&[0.0, 1.0, 2.0]));
    let stream = model_stream(0.0, 1, b"reg:linear", b"dart", &body);
    let mut r = ModelReader::new(stream);
    let p = Predictor::read_from(&mut r).unwrap();
    let feats = [0.0f32.to_bits()];
    let out = p.predict_many(&feats, 1, 0).unwrap();
    assert_eq!(fold(&out[0][0]), 3.0);
}

#[test]
fn dart_weight_vector_must_cover_every_tree() {
    let body = gbtree_body(&[1.0, 1.0, 1.0], &[0, 0, 0], 1, Some(&[0.5]));
    let mut r = ModelReader::new(body);
    assert_eq!(GBTree::read_from(false, &mut r, true).err(), Some(PredictError::MalformedTree));
}

#[test]
fn unknown_booster_type_is_reported_by_name() {
    let body = gbtree_body(&[1.0], &[0], 1, None);
    let stream = model_stream(0.0, 1, b"reg:linear", b"unknowntype", &body);
    let mut r = ModelReader::new(stream);
    match Predictor::read_from(&mut r) {
        Err(PredictError::UnsupportedModelType(s)) => assert_eq!(s, "unknowntype"),
        other => panic!("expected UnsupportedModelType, got {other:?}"),
    }
}

#[test]
fn unknown_objective_is_reported_by_name() {
    let body = gbtree_body(&[1.0], &[0], 1, None);
    let stream = model_stream(0.0, 1, b"weird:objective", b"gbtree", &body);
    let mut r = ModelReader::new(stream);
    match Predictor::read_from(&mut r) {
        Err(PredictError::UnsupportedObjFunctionType(s)) => assert_eq!(s, "weird:objective"),
        other => panic!("expected UnsupportedObjFunctionType, got {other:?}"),
    }
}

#[test]
fn binf_header_variant_is_detected() {
    let body = linear_body(1, 1, &[2.0, 0.25]);
    let mut v = Vec::new();
    v.extend_from_slice(b"binf");
    le_f32(&mut v, 1.0); // base score
    le_i32(&mut v, 1); // num_feature
    le_i32(&mut v, 0); // num_class
    le_i32(&mut v, 0); // saved_with_pbuffer
    for _ in 0..30 {
        le_i32(&mut v, 0);
    }
    le_i64(&mut v, 10);
    v.extend_from_slice(b"reg:linear");
    le_i64(&mut v, 8);
    v.extend_from_slice(b"gblinear");
    v.extend_from_slice(&body);
    let mut r = ModelReader::new(v);
    let p = Predictor::read_from(&mut r).unwrap();
    assert_eq!(p.model_num_feature(), 1);
    let feats = [2.0f32.to_bits()];
    let out = p.predict_many(&feats, 1, 0).unwrap();
    // 2*2 + 0.25 + base 1.0
    assert_eq!(fold(&out[0][0]), 5.25);
}

#[test]
fn distributed_training_header_is_unsupported() {
    let mut v = vec![0x00u8, 0x05, 0x5f, 0x00];
    v.extend_from_slice(&[0u8; 200]);
    let mut r = ModelReader::new(v);
    match Predictor::read_from(&mut r) {
        Err(PredictError::UnsupportedModelType(s)) => assert_eq!(s, "xgboost4j-spark"),
        other => panic!("expected UnsupportedModelType, got {other:?}"),
    }
}

#[test]
fn objective_names_resolve_to_their_transforms() {
    let cases: Vec<(&[u8], ObjFunction)> = vec![
        (b"reg:linear", ObjFunction::Identity),
        (b"reg:squarederror", ObjFunction::Identity),
        (b"binary:logitraw", ObjFunction::Identity),
        (b"rank:pairwise", ObjFunction::Identity),
        (b"binary:logistic", ObjFunction::Logistic),
        (b"reg:logistic", ObjFunction::Logistic),
        (b"reg:loglogistic", ObjFunction::Logistic),
        (b"multi:softmax", ObjFunction::SoftmaxClassify),
        (b"multi:softprob", ObjFunction::SoftmaxProb),
    ];
    for (name, kind) in cases {
        let body = gbtree_body(&[1.0], &[0], 1, None);
        let stream = model_stream(0.0, 1, name, b"gbtree", &body);
        let mut r = ModelReader::new(stream);
        let p = Predictor::read_from(&mut r).unwrap();
        assert_eq!(p.obj_func, kind);
    }
}

#[test]
fn predict_single_requires_one_output_group() {
    let body = gbtree_body(&[1.0, 2.0], &[0, 1], 2, None);
    let stream = model_stream(0.0, 1, b"reg:linear", b"gbtree", &body);
    let mut r = ModelReader::new(stream);
    let p = Predictor::read_from(&mut r).unwrap();
    let feats = [0.0f32.to_bits()];
    match p.predict_single(&feats, 0) {
        Err(PredictError::UnsupportedPredictionMethod(m, _)) => assert_eq!(m, "predict_single"),
        other => panic!("expected UnsupportedPredictionMethod, got {other:?}"),
    }
}

#[test]
fn predict_single_folds_the_one_group() {
    let body = gbtree_body(&[1.5, 2.0], &[0, 0], 1, None);
    let stream = model_stream(0.25, 1, b"reg:linear", b"gbtree", &body);
    let mut r = ModelReader::new(stream);
    let p = Predictor::read_from(&mut r).unwrap();
    let feats = [0.0f32.to_bits()];
    let m = p.predict_single(&feats, 0).unwrap();
    assert_eq!(fold(&m), 3.75);
}

#[test]
fn predict_leaf_walks_every_tree() {
    let body = gbtree_body(&[1.0, 2.0, 3.0], &[0, 0, 0], 1, None);
    let stream = model_stream(0.0, 1, b"reg:linear", b"gbtree", &body);
    let mut r = ModelReader::new(stream);
    let p = Predictor::read_from(&mut r).unwrap();
    let feats = [0.0f32.to_bits()];
    assert_eq!(p.predict_leaf(&feats, 0), Ok(vec![0, 0, 0]));
    assert_eq!(p.predict_leaf(&feats, 2), Ok(vec![0, 0]));
}

#[test]
fn predict_leaf_is_unsupported_for_linear() {
    let body = linear_body(1, 1, &[2.0, 0.25]);
    let stream = model_stream(0.0, 1, b"reg:linear", b"gblinear", &body);
    let mut r = ModelReader::new(stream);
    let p = Predictor::read_from(&mut r).unwrap();
    let feats = [0.0f32.to_bits()];
    match p.predict_leaf(&feats, 0) {
        Err(PredictError::UnsupportedPredictionMethod(m, _)) => assert_eq!(m, "predict_leaf"),
        other => panic!("expected UnsupportedPredictionMethod, got {other:?}"),
    }
}

#[test]
fn truncated_model_stream_is_reported() {
    let body = gbtree_body(&[1.0], &[0], 1, None);
    let mut stream = model_stream(0.0, 1, b"reg:linear", b"gbtree", &body);
    stream.truncate(stream.len() - 10);
    let mut r = ModelReader::new(stream);
    assert_eq!(Predictor::read_from(&mut r).err(), Some(PredictError::TruncatedInput));
}

#[test]
fn multi_group_margins_come_out_row_major() {
    let body = gbtree_body(&[1.0, 10.0], &[0, 1], 2, None);
    let stream = model_stream(0.0, 1, b"multi:softprob", b"gbtree", &body);
    let mut r = ModelReader::new(stream);
    let p = Predictor::read_from(&mut r).unwrap();
    let feats = [0.0f32.to_bits(), 0.0f32.to_bits()]; // two rows of one feature
    let out = p.predict_many(&feats, 1, 0).unwrap();
    assert_eq!(out.len(), 2);
    for row in &out {
        assert_eq!(row.len(), 2);
        assert_eq!(fold(&row[0]), 1.0);
        assert_eq!(fold(&row[1]), 10.0);
    }
    match &p.gbm {
        GradBooster::Tree(t) => assert_eq!(t.group_trees, vec![vec![0], vec![1]]),
        GradBooster::Linear(_) => unreachable!(),
    }
}

#[test]
fn saved_prediction_buffer_is_skipped() {
    // num_pbuffer = 2, one group, no leaf vector: 2*1*1 entries of 8
    // bytes sit between the group tags and the end of the booster
    let mut v = Vec::new();
    le_i32(&mut v, 1); // num_trees
    le_i32(&mut v, 1); // num_roots
    le_i32(&mut v, 1); // num_feature
    le_i32(&mut v, 0); // padding
    le_i64(&mut v, 2); // num_pbuffer
    le_i32(&mut v, 1); // num_output_group
    le_i32(&mut v, 0); // size_leaf_vector
    for _ in 0..31 {
        le_i32(&mut v, 0);
    }
    le_i32(&mut v, 0); // padding
    leaf_tree(&mut v, 4.0);
    le_i32(&mut v, 0); // tree_info
    v.extend_from_slice(&[0u8; 16]); // the prediction buffer
    let mut r = ModelReader::new(v.clone());
    let t = GBTree::read_from(true, &mut r, false).expect("booster decodes past the buffer");
    assert_eq!(t.trees.len(), 1);
    // without the buffer bytes the same stream is truncated
    v.truncate(v.len() - 16);
    let mut r2 = ModelReader::new(v);
    assert_eq!(GBTree::read_from(true, &mut r2, false).err(), Some(PredictError::TruncatedInput));
}

#[test]
fn empty_batch_yields_no_rows() {
    let body = gbtree_body(&[1.0], &[0], 1, None);
    let stream = model_stream(0.0, 1, b"reg:linear", b"gbtree", &body);
    let mut r = ModelReader::new(stream);
    let p = Predictor::read_from(&mut r).unwrap();
    let feats: [u32; 0] = [];
    let out = p.predict_many(&feats, 1, 0).unwrap();
    assert_eq!(out.len(), 0);
}

#[test]
fn non_text_booster_name_is_a_text_decode_error() {
    let body = gbtree_body(&[1.0], &[0], 1, None);
    let stream = model_stream(0.0, 1, b"reg:linear", &[0xff, 0xfe, 0xfd], &body);
    let mut r = ModelReader::new(stream);
    assert_eq!(Predictor::read_from(&mut r).err(), Some(PredictError::TextDecodeError));
}

#[test]
fn non_text_objective_name_is_a_text_decode_error() {
    let body = gbtree_body(&[1.0], &[0], 1, None);
    let stream = model_stream(0.0, 1, &[0xc0, 0x20], b"gbtree", &body);
    let mut r = ModelReader::new(stream);
    assert_eq!(Predictor::read_from(&mut r).err(), Some(PredictError::TextDecodeError));
}
