use studio_core::{
    ColorMode, CurveMode, Hierarchical, StudioConfig, StudioError, SEGMENT_LENGTH_DEFAULT_BITS,
};

fn invalid_param(c: &StudioConfig) -> String {
    match c.validate() {
        Err(StudioError::InvalidParam(m)) => m,
        other => panic!("unexpected {other:?}"),
    }
}

#[test]
fn validation_ranges() {
    let mut c = StudioConfig::default();
    c.filter_speckle = 128;
    assert!(c.validate().is_ok(), "128 是合法上限（web UI 范围）");
    c.filter_speckle = 129;
    assert!(c.validate().is_err());
    c = StudioConfig::default();
    c.color_precision = 9;
    assert!(c.validate().is_err());
    c = StudioConfig::default();
    c.gradient_step = 0;
    assert!(c.validate().is_ok(), "0 合法（diagonal 模式）");
    c = StudioConfig::default();
    c.max_iterations = 0;
    assert!(c.validate().is_err(), "0 迭代会让 visioncortex panic");
    c = StudioConfig::default();
    c.path_precision = Some(9);
    assert!(c.validate().is_err());
}

#[test]
fn default_config_values() {
    let c = StudioConfig::default();
    assert_eq!(c.color_mode, ColorMode::Color);
    assert_eq!(c.hierarchical, Hierarchical::Stacked);
    assert_eq!(c.mode, CurveMode::Spline);
    assert_eq!((c.filter_speckle, c.color_precision, c.gradient_step), (4, 6, 16));
    assert_eq!((c.corner_threshold, c.max_iterations, c.splice_threshold), (60, 10, 45));
    assert_eq!(f64::from_bits(c.segment_length_bits), 4.0);
    assert_eq!(c.segment_length_bits, SEGMENT_LENGTH_DEFAULT_BITS);
    assert_eq!(c.path_precision, Some(2));
    assert!(c.validate().is_ok());
}

#[test]
fn presets_are_valid_and_distinct() {
    let bw = StudioConfig::from_preset("bw").unwrap();
    assert_eq!(bw, StudioConfig { color_mode: ColorMode::Binary, ..StudioConfig::default() });
    let poster = StudioConfig::from_preset("poster").unwrap();
    assert_eq!(poster, StudioConfig { color_precision: 8, ..StudioConfig::default() });
    let photo = StudioConfig::from_preset("photo").unwrap();
    assert_eq!(
        photo,
        StudioConfig {
            filter_speckle: 10,
            color_precision: 8,
            gradient_step: 48,
            corner_threshold: 180,
            ..StudioConfig::default()
        }
    );
    for p in [bw, poster, photo] {
        assert!(p.validate().is_ok());
    }
    assert!(StudioConfig::from_preset("Photo").is_none());
    assert!(StudioConfig::from_preset("").is_none());
}

#[test]
fn validation_messages_name_the_first_bad_field() {
    let mut c = StudioConfig::default();
    c.filter_speckle = 200;
    c.color_precision = 0;
    assert_eq!(invalid_param(&c), "斑点过滤 filter_speckle 必须在 [0,128] 内，当前 200");
    c = StudioConfig::default();
    c.color_precision = -3;
    assert_eq!(invalid_param(&c), "颜色精度 color_precision 必须在 [1,8] 内，当前 -3");
    c = StudioConfig::default();
    c.gradient_step = 256;
    assert_eq!(invalid_param(&c), "渐变步长 gradient_step 必须在 [0,255] 内，当前 256");
    c = StudioConfig::default();
    c.corner_threshold = 181;
    assert_eq!(invalid_param(&c), "拐角阈值 corner_threshold 必须在 [0,180] 内，当前 181");
    c = StudioConfig::default();
    c.splice_threshold = -1;
    assert_eq!(invalid_param(&c), "拼接阈值 splice_threshold 必须在 [0,180] 内，当前 -1");
    c = StudioConfig::default();
    c.max_iterations = 0;
    assert_eq!(invalid_param(&c), "最大迭代次数 max_iterations 至少为 1");
    c = StudioConfig::default();
    c.path_precision = Some(9);
    assert_eq!(invalid_param(&c), "路径小数位 path_precision 必须在 [0,8] 内，当前 9");
    c.path_precision = None;
    assert!(c.validate().is_ok());
}

#[test]
fn segment_length_range_is_inclusive() {
    let with = |v: f64| StudioConfig { segment_length_bits: v.to_bits(), ..StudioConfig::default() };
    assert!(with(3.5).validate().is_ok());
    assert!(with(10.0).validate().is_ok());
    assert!(with(5.5).validate().is_ok());
    for bad in [3.4999999, 10.000001, -4.0, f64::NAN, f64::INFINITY, 0.0, -0.0] {
        match with(bad).validate() {
            Err(StudioError::InvalidSegmentLength { value_bits }) => {
                assert_eq!(value_bits, bad.to_bits())
            }
            other => panic!("{bad}: unexpected {other:?}"),
        }
    }
    // The segment length is checked after the corner threshold and before the splice threshold.
    let mut c = with(20.0);
    c.corner_threshold = 999;
    assert!(matches!(c.validate(), Err(StudioError::InvalidParam(_))));
    let mut c = with(20.0);
    c.splice_threshold = 999;
    assert!(matches!(c.validate(), Err(StudioError::InvalidSegmentLength { .. })));
}

#[test]
fn preset_names_must_match_exactly() {
    assert!(StudioConfig::from_preset("bw ").is_none());
    assert!(StudioConfig::from_preset("b").is_none());
    assert!(StudioConfig::from_preset("posters").is_none());
    assert!(StudioConfig::from_preset("phot").is_none());
    assert!(StudioConfig::from_preset("黑白").is_none());
}
