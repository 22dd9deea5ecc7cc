use studio_core::{CandidateParams, MatrixAxes, RunMode, StudioConfig, StudioError};

fn axes() -> MatrixAxes {
    MatrixAxes {
        gradient_step: vec![32, 8, 16],
        filter_speckle: vec![8, 2, 4],
        color_precision: vec![8, 4, 6],
    }
}

fn ids(v: &[CandidateParams]) -> Vec<String> {
    v.iter().map(|c| c.id.clone()).collect()
}

#[test]
fn normalized_sorts_and_dedups() {
    let a = MatrixAxes {
        gradient_step: vec![16, 8, 16],
        filter_speckle: vec![4],
        color_precision: vec![6, 6],
    }
    .normalized()
    .unwrap();
    assert_eq!(a.gradient_step, vec![8, 16]);
    assert_eq!(a.color_precision, vec![6]);
}

#[test]
fn normalized_rejects_bad_values() {
    assert!(MatrixAxes { gradient_step: vec![], ..axes() }.normalized().is_err());
    assert!(MatrixAxes { filter_speckle: vec![129], ..axes() }.normalized().is_err());
    assert!(MatrixAxes { color_precision: vec![0], ..axes() }.normalized().is_err());
    assert!(MatrixAxes { filter_speckle: vec![128], ..axes() }.normalized().is_ok());
}

#[test]
fn expand_full_product_deterministic_ids() {
    let a = axes().normalized().unwrap();
    let all = a.expand();
    assert_eq!(all.len(), 27);
    assert_eq!(all[0].id, "g8_f2_p4");
    assert_eq!(all[26].id, "g32_f8_p8");
    let ids: std::collections::HashSet<_> = all.iter().map(|c| &c.id).collect();
    assert_eq!(ids.len(), 27);
}

#[test]
fn sparse_is_corners_plus_center() {
    let a = axes().normalized().unwrap();
    let s = a.sparse_set();
    assert_eq!(s.len(), 9);
    assert!(s.iter().any(|c| c.id == "g8_f2_p4"));
    assert!(s.iter().any(|c| c.id == "g32_f8_p8"));
    assert_eq!(s[8].id, "g16_f4_p6", "中心点最后入列");
}

#[test]
fn sparse_dedups_single_value_axes() {
    let a = MatrixAxes {
        gradient_step: vec![16],
        filter_speckle: vec![2, 8],
        color_precision: vec![4, 8],
    }
    .normalized()
    .unwrap();
    let s = a.sparse_set();
    let ids: Vec<_> = s.iter().map(|c| c.id.as_str()).collect();
    assert_eq!(ids.len(), 4, "{ids:?}");

    let single = MatrixAxes {
        gradient_step: vec![16],
        filter_speckle: vec![4],
        color_precision: vec![6],
    }
    .normalized()
    .unwrap();
    assert_eq!(single.sparse_set().len(), 1);
}

#[test]
fn ordered_full_puts_sparse_first_and_covers_all() {
    let a = axes().normalized().unwrap();
    let ordered = a.ordered(RunMode::Full);
    assert_eq!(ordered.len(), 27);
    let sparse_ids: Vec<_> = a.sparse_set().iter().map(|c| c.id.clone()).collect();
    for (i, id) in sparse_ids.iter().enumerate() {
        assert_eq!(&ordered[i].id, id, "稀疏集必须排在最前");
    }
    assert_eq!(a.ordered(RunMode::Sparse).len(), 9);
}

#[test]
fn apply_to_overrides_only_axis_fields() {
    let base = StudioConfig { corner_threshold: 90, ..StudioConfig::default() };
    let c = CandidateParams::new(32, 8, 4).apply_to(&base);
    assert_eq!(c.gradient_step, 32);
    assert_eq!(c.filter_speckle, 8);
    assert_eq!(c.color_precision, 4);
    assert_eq!(c.corner_threshold, 90);
}

#[test]
fn candidate_ids_render_signs_and_digits() {
    let c = CandidateParams::new(-5, 0, 12);
    assert_eq!(c.id, "g-5_f0_p12");
    assert_eq!((c.gradient_step, c.filter_speckle, c.color_precision), (-5, 0, 12));
    let c = CandidateParams::new(i32::MIN, u32::MAX, i32::MAX);
    assert_eq!(c.id, "g-2147483648_f4294967295_p2147483647");
}

#[test]
fn expand_is_lexicographic_product() {
    let a = MatrixAxes { gradient_step: vec![1, 2], filter_speckle: vec![3], color_precision: vec![4, 5] };
    assert_eq!(ids(&a.expand()), vec!["g1_f3_p4", "g1_f3_p5", "g2_f3_p4", "g2_f3_p5"]);
    let empty = MatrixAxes { gradient_step: vec![], filter_speckle: vec![1], color_precision: vec![1] };
    assert!(empty.expand().is_empty());
}

#[test]
fn sparse_order_is_corners_then_center() {
    let a = axes().normalized().unwrap();
    assert_eq!(
        ids(&a.sparse_set()),
        vec![
            "g8_f2_p4", "g8_f2_p8", "g8_f8_p4", "g8_f8_p8", "g32_f2_p4", "g32_f2_p8", "g32_f8_p4",
            "g32_f8_p8", "g16_f4_p6"
        ]
    );
}

#[test]
fn full_order_lists_each_cell_once() {
    let a = MatrixAxes { gradient_step: vec![1, 2, 3], filter_speckle: vec![7], color_precision: vec![4] }
        .normalized()
        .unwrap();
    assert_eq!(ids(&a.ordered(RunMode::Full)), vec!["g1_f7_p4", "g3_f7_p4", "g2_f7_p4"]);
    assert_eq!(ids(&a.ordered(RunMode::Sparse)), vec!["g1_f7_p4", "g3_f7_p4", "g2_f7_p4"]);
}

#[test]
fn normalized_reports_first_problem() {
    let msg = |a: MatrixAxes| match a.normalized() {
        Err(StudioError::InvalidParam(m)) => m,
        other => panic!("unexpected {other:?}"),
    };
    assert_eq!(
        msg(MatrixAxes { filter_speckle: vec![], color_precision: vec![], ..axes() }),
        "斑点过滤 filter_speckle 至少要选一个值"
    );
    assert_eq!(
        msg(MatrixAxes { color_precision: vec![], ..axes() }),
        "颜色精度 color_precision 至少要选一个值"
    );
    assert_eq!(
        msg(MatrixAxes { gradient_step: vec![300, -7, 999, 3], ..axes() }),
        "渐变步长 gradient_step 必须在 [0,255] 内，当前含 -7"
    );
    assert_eq!(
        msg(MatrixAxes { filter_speckle: vec![500, 129, 3], ..axes() }),
        "斑点过滤 filter_speckle 必须在 [0,128] 内，当前含 129"
    );
    assert_eq!(
        msg(MatrixAxes { color_precision: vec![9, 2, 12], ..axes() }),
        "颜色精度 color_precision 必须在 [1,8] 内，当前含 9"
    );
}

#[test]
fn normalized_twice_is_normalized_once() {
    let once = MatrixAxes {
        gradient_step: vec![200, 0, 200, 16],
        filter_speckle: vec![9, 9, 1],
        color_precision: vec![8, 1],
    }
    .normalized()
    .unwrap();
    let twice = once.normalized().unwrap();
    assert_eq!(once, twice);
    assert_eq!(once.gradient_step, vec![0, 16, 200]);
    assert_eq!(once.filter_speckle, vec![1, 9]);
}

#[test]
fn full_order_is_sparse_then_rest_in_product_order() {
    let a = MatrixAxes { gradient_step: vec![3, 1, 2], filter_speckle: vec![5, 4], color_precision: vec![1, 2] }
        .normalized()
        .unwrap();
    let sparse = ids(&a.sparse_set());
    let rest: Vec<String> = ids(&a.expand()).into_iter().filter(|id| !sparse.contains(id)).collect();
    let mut expected = sparse.clone();
    expected.extend(rest);
    assert_eq!(ids(&a.ordered(RunMode::Full)), expected);
    assert_eq!(
        ids(&a.ordered(RunMode::Full)),
        vec![
            "g1_f4_p1", "g1_f4_p2", "g1_f5_p1", "g1_f5_p2", "g3_f4_p1", "g3_f4_p2", "g3_f5_p1",
            "g3_f5_p2", "g2_f5_p2", "g2_f4_p1", "g2_f4_p2", "g2_f5_p1",
        ]
    );
}
