use sn2_validator::planning::{
    bundle_dispatch_mismatch, expected_input_elements, group_dim_split, is_weight_bound_dim_split,
    preflight_inputs, preflight_work_items, BundleParams, DimSplitInfo, DispatchStrategy,
    ExpectedInputs, GroupPayloadPart, SliceWork, TilingInfo,
};

fn work(named: usize, ds: Option<DimSplitInfo>) -> SliceWork {
    SliceWork {
        slice_id: "slice_0".to_string(),
        input_len: 4,
        input_finite: true,
        named_input_shapes: (0..named).map(|_| vec![4]).collect(),
        tiling: None,
        dim_split: None,
        circuit_path: None,
        onnx_path: None,
        meta_input_shape: vec![],
        meta_dim_split: ds,
    }
}

fn group() -> DimSplitInfo {
    DimSplitInfo {
        weight_name: None,
        split_dim: 0,
        dim_size: 4,
        num_groups: 2,
        elements_per_group: 2,
        ..Default::default()
    }
}

#[test]
fn group_dim_split_requires_multi_input_and_covering_groups() {
    assert!(group_dim_split(&work(2, Some(group()))).is_some());
    assert!(group_dim_split(&work(1, Some(group()))).is_none());
    let weight_bound = DimSplitInfo { weight_name: Some("w".to_string()), ..group() };
    assert!(group_dim_split(&work(2, Some(weight_bound))).is_none());
    let uncovered = DimSplitInfo { num_groups: 3, ..group() };
    assert!(group_dim_split(&work(2, Some(uncovered))).is_none());
}

#[test]
fn weight_bound_dim_split_requires_full_matmul_metadata() {
    let matmul = DimSplitInfo {
        weight_name: Some("onnx::MatMul_4211".to_string()),
        k_dim: 384,
        n_dim: 1536,
        k_chunks: 2,
        ..Default::default()
    };
    assert!(is_weight_bound_dim_split(&matmul));
    let head_dim = DimSplitInfo { weight_name: None, ..Default::default() };
    assert!(!is_weight_bound_dim_split(&head_dim));
    let weightless =
        DimSplitInfo { weight_name: None, k_dim: 384, n_dim: 1536, ..Default::default() };
    assert!(!is_weight_bound_dim_split(&weightless));
    let zero_dims = DimSplitInfo {
        weight_name: Some("w".to_string()),
        k_dim: 0,
        n_dim: 0,
        ..Default::default()
    };
    assert!(!is_weight_bound_dim_split(&zero_dims));
}

#[test]
fn described_inputs_are_counted() {
    assert_eq!(expected_input_elements(&vec![]), ExpectedInputs::NoMetadata);
    assert_eq!(expected_input_elements(&vec![vec![2, 3], vec![4]]), ExpectedInputs::Count(10));
    assert_eq!(expected_input_elements(&vec![vec![2, -1]]), ExpectedInputs::Invalid);
}

#[test]
fn slices_with_other_inputs_than_described_fail() {
    let mut good = work(1, None);
    good.meta_input_shape = vec![vec![4]];
    let mut bad = work(1, None);
    bad.slice_id = "slice_1".to_string();
    bad.meta_input_shape = vec![vec![5]];
    assert!(preflight_inputs(&good));
    assert!(!preflight_inputs(&bad));
    let outcome = preflight_work_items(vec![good, bad], &vec![None, None]);
    assert_eq!(outcome.kept.len(), 1);
    assert_eq!(outcome.kept[0].slice_id, "slice_0");
    assert_eq!(outcome.failed, vec!["slice_1".to_string()]);
}

#[test]
fn bundles_are_held_against_what_is_sent() {
    let params = |n: usize| BundleParams {
        input_shapes: vec![vec![n]],
        weights_as_inputs: false,
        initializers: None,
    };
    assert!(bundle_dispatch_mismatch(&work(1, None), &params(4), &None, None).is_none());
    let mismatch = bundle_dispatch_mismatch(&work(1, None), &params(5), &None, None).unwrap();
    assert_eq!(mismatch.bundle_expected, 5);
    assert_eq!(mismatch.per_request_actual, 4);
    assert_eq!(mismatch.strategy, DispatchStrategy::Single);
}

fn tiled(named: usize, ndim: usize, segment_size: Option<usize>) -> SliceWork {
    let tiling = TilingInfo { num_tiles: 2, tiles_y: 2, tiles_x: 1, ndim, segment_size };
    SliceWork { tiling: Some(tiling), ..work(named, None) }
}

fn bundle(n: usize) -> BundleParams {
    BundleParams { input_shapes: vec![vec![n]], weights_as_inputs: false, initializers: None }
}

#[test]
fn slices_that_cannot_be_cut_are_not_compared() {
    assert!(bundle_dispatch_mismatch(&tiled(1, 2, None), &bundle(9), &None, None).is_none());
    assert!(bundle_dispatch_mismatch(&tiled(3, 2, None), &bundle(9), &None, None).is_none());
    assert!(bundle_dispatch_mismatch(&tiled(1, 1, None), &bundle(9), &None, Some(4)).is_none());
    let huge = tiled(2, 1, Some(usize::MAX));
    assert!(bundle_dispatch_mismatch(&huge, &bundle(9), &None, None).is_none());
}

#[test]
fn tiles_are_held_against_the_bundle() {
    assert!(bundle_dispatch_mismatch(&tiled(1, 2, None), &bundle(9), &None, Some(9)).is_none());
    let empty = bundle_dispatch_mismatch(&tiled(1, 2, None), &bundle(9), &None, Some(0)).unwrap();
    assert_eq!((empty.bundle_expected, empty.per_request_actual), (9, 0));
    assert_eq!(empty.strategy, DispatchStrategy::TiledSingleInput);
    let segments = bundle_dispatch_mismatch(&tiled(2, 1, Some(3)), &bundle(9), &None, None).unwrap();
    assert_eq!((segments.bundle_expected, segments.per_request_actual), (9, 6));
    assert_eq!(segments.strategy, DispatchStrategy::TiledMultiInput);
}

#[test]
fn groups_without_a_plan_are_not_compared() {
    let grouped = work(2, Some(group()));
    assert!(bundle_dispatch_mismatch(&grouped, &bundle(9), &None, None).is_none());
    let plan = Some(vec![GroupPayloadPart::Split(0), GroupPayloadPart::Whole(1)]);
    let mismatch = bundle_dispatch_mismatch(&grouped, &bundle(9), &plan, None).unwrap();
    assert_eq!((mismatch.bundle_expected, mismatch.per_request_actual), (9, 6));
    assert_eq!(mismatch.strategy, DispatchStrategy::DimSplitGroup);
}
