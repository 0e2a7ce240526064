//! Decoding: reader primitives, tree round trip, missing-value paths,
//! and decode failures.

use xgboost_predictor::errors::PredictError;
use xgboost_predictor::model_reader::ModelReader;
use xgboost_predictor::regtree::RegTree;

fn le_i32(v: &mut Vec<u8>, x: i32) {
    v.extend_from_slice(&x.to_le_bytes());
}

fn le_u32(v: &mut Vec<u8>, x: u32) {
    v.extend_from_slice(&x.to_le_bytes());
}

fn le_i64(v: &mut Vec<u8>, x: i64) {
    v.extend_from_slice(&x.to_le_bytes());
}

fn le_f32(v: &mut Vec<u8>, x: f32) {
    v.extend_from_slice(&x.to_bits().to_le_bytes());
}

/// Tree parameter block: six fields then 31 reserved words.
fn push_tree_param(v: &mut Vec<u8>, num_nodes: i32, num_feature: i32) {
    le_i32(v, 1); // num_roots
    le_i32(v, num_nodes);
    le_i32(v, 0); // num_deleted
    le_i32(v, 2); // max_depth
    le_i32(v, num_feature);
    le_i32(v, 0); // size_leaf_vector
    for _ in 0..31 {
        le_i32(v, 0);
    }
}

/// One 20-byte node; `split_index` and `default_left` pack into the
/// split index word, `value` is the threshold or leaf value.
fn push_node(
    v: &mut Vec<u8>,
    parent: i32,
    cleft: i32,
    cright: i32,
    split_index: u32,
    default_left: bool,
    value: f32,
) {
    le_i32(v, parent);
    le_i32(v, cleft);
    le_i32(v, cright);
    let sindex = split_index | if default_left { 0x8000_0000 } else { 0 };
    le_u32(v, sindex);
    le_f32(v, value);
}

/// The skipped 16-byte per-node statistics records.
fn push_stats(v: &mut Vec<u8>, num_nodes: usize) {
    for _ in 0..num_nodes {
        for _ in 0..4 {
            le_i32(v, 0);
        }
    }
}

/// A three-node tree: the root splits on feature 0 at 0.5 (missing goes
/// left), leaves hold 1.25 and -2.5.
fn small_tree_bytes() -> Vec<u8> {
    let mut v = Vec::new();
    push_tree_param(&mut v, 3, 1);
    push_node(&mut v, -1, 1, 2, 0, true, 0.5);
    push_node(&mut v, 0, -1, -1, 0, false, 1.25);
    push_node(&mut v, 0, -1, -1, 0, false, -2.5);
    push_stats(&mut v, 3);
    v
}

#[test]
fn reader_reads_little_endian_primitives() {
    let mut bytes = Vec::new();
    le_i32(&mut bytes, -1);
    le_i32(&mut bytes, 0x0102_0304);
    le_i64(&mut bytes, -2);
    le_f32(&mut bytes, 1.5);
    let mut r = ModelReader::new(bytes);
    assert_eq!(r.read_i32_le(), Ok(-1));
    assert_eq!(r.read_i32_le(), Ok(0x0102_0304));
    assert_eq!(r.read_i64_le(), Ok(-2));
    assert_eq!(r.read_f32_bits(), Ok(1.5f32.to_bits()));
    assert_eq!(r.read_i32_le(), Err(PredictError::TruncatedInput));
}

#[test]
fn reader_reads_length_prefixed_strings() {
    let mut bytes = Vec::new();
    le_i64(&mut bytes, 6);
    bytes.extend_from_slice(b"gbtree");
    let mut r = ModelReader::new(bytes);
    assert_eq!(r.read_u8_vec_len(), Ok(b"gbtree".to_vec()));
}

#[test]
fn reader_rejects_short_length_prefixed_strings() {
    let mut bytes = Vec::new();
    le_i64(&mut bytes, 100);
    bytes.extend_from_slice(b"gbtree");
    let mut r = ModelReader::new(bytes);
    assert_eq!(r.read_u8_vec_len(), Err(PredictError::TruncatedInput));
}

#[test]
fn reader_skip_consumes_and_checks_bounds() {
    let mut r = ModelReader::new(vec![0u8; 10]);
    assert_eq!(r.skip(8), Ok(()));
    assert_eq!(r.skip(4), Err(PredictError::TruncatedInput));
    assert_eq!(r.skip(2), Ok(()));
}

#[test]
fn tree_round_trip_reproduces_node_fields() {
    let bytes = small_tree_bytes();
    let mut r = ModelReader::new(bytes);
    let t = RegTree::read_from(&mut r).expect("tree decodes");
    assert_eq!(t.param.num_roots, 1);
    assert_eq!(t.param.num_nodes, 3);
    assert_eq!(t.param.num_deleted, 0);
    assert_eq!(t.param.max_depth, 2);
    assert_eq!(t.param.num_feature, 1);
    assert_eq!(t.param.size_leaf_vector, 0);
    assert_eq!(t.nodes.len(), 3);
    assert_eq!(t.nodes[0].parent, -1);
    assert_eq!(t.nodes[0].cleft, 1);
    assert_eq!(t.nodes[0].cright, 2);
    assert_eq!(t.nodes[0].sindex, 0x8000_0000);
    assert_eq!(t.nodes[0].info, 0.5f32.to_bits());
    assert_eq!(t.nodes[1].cleft, -1);
    assert_eq!(t.nodes[1].info, 1.25f32.to_bits());
    assert_eq!(t.nodes[2].cleft, -1);
    assert_eq!(t.nodes[2].info, (-2.5f32).to_bits());
}

#[test]
fn traversal_branches_on_threshold() {
    let mut r = ModelReader::new(small_tree_bytes());
    let t = RegTree::read_from(&mut r).unwrap();
    let below = [0.25f32.to_bits()];
    let above = [0.75f32.to_bits()];
    assert_eq!(t.get_leaf_value(&below, 0), Ok(1.25f32.to_bits()));
    assert_eq!(t.get_leaf_value(&above, 0), Ok((-2.5f32).to_bits()));
    assert_eq!(t.get_leaf_index(&below, 0), Ok(1));
    assert_eq!(t.get_leaf_index(&above, 0), Ok(2));
}

#[test]
fn missing_value_follows_default_direction() {
    let mut r = ModelReader::new(small_tree_bytes());
    let t = RegTree::read_from(&mut r).unwrap();
    // the root's default direction is left: a missing (NaN) feature 0
    // must land where an explicit left-branching value lands
    let missing = [f32::NAN.to_bits()];
    let explicit_left = [0.0f32.to_bits()];
    assert_eq!(t.get_leaf_index(&missing, 0), t.get_leaf_index(&explicit_left, 0));
    assert_eq!(t.get_leaf_value(&missing, 0), Ok(1.25f32.to_bits()));
}

#[test]
fn split_feature_beyond_row_is_reported() {
    let mut v = Vec::new();
    push_tree_param(&mut v, 3, 5);
    push_node(&mut v, -1, 1, 2, 4, false, 0.5);
    push_node(&mut v, 0, -1, -1, 0, false, 1.0);
    push_node(&mut v, 0, -1, -1, 0, false, 2.0);
    push_stats(&mut v, 3);
    let mut r = ModelReader::new(v);
    let t = RegTree::read_from(&mut r).unwrap();
    let short_row = [0.0f32.to_bits()];
    assert_eq!(t.get_leaf_value(&short_row, 0), Err(PredictError::FeatureIndexOutOfRange));
}

#[test]
fn child_index_not_beyond_parent_is_malformed() {
    let mut v = Vec::new();
    push_tree_param(&mut v, 2, 1);
    push_node(&mut v, -1, 0, 1, 0, false, 0.5); // left child points back at the root
    push_node(&mut v, 0, -1, -1, 0, false, 1.0);
    push_stats(&mut v, 2);
    let mut r = ModelReader::new(v);
    assert_eq!(RegTree::read_from(&mut r).err(), Some(PredictError::MalformedTree));
}

#[test]
fn negative_node_count_is_malformed() {
    let mut v = Vec::new();
    push_tree_param(&mut v, -4, 1);
    let mut r = ModelReader::new(v);
    assert_eq!(RegTree::read_from(&mut r).err(), Some(PredictError::MalformedTree));
}

#[test]
fn truncated_tree_is_reported() {
    let mut v = small_tree_bytes();
    v.truncate(v.len() - 30);
    let mut r = ModelReader::new(v);
    assert_eq!(RegTree::read_from(&mut r).err(), Some(PredictError::TruncatedInput));
}
