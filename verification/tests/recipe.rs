use studio_core::{
    ExperimentSession, MatrixAxes, Recipe, Rect, SourceInfo, SpeckleScaling, StudioConfig,
    StudioError, Viewport, FILTER_SPECKLE_MAX, RECIPE_VERSION, SESSION_VERSION,
};

/// The `Scaled` policy's speckle size, as the float computation of the shell gives it.
fn scaled(speckle: u32, target: u32, reference: u32) -> u32 {
    let r = target as f64 / reference.max(1) as f64;
    (speckle as f64 * r).round() as u32
}

fn effective(r: &Recipe, target: u32) -> StudioConfig {
    r.effective_config(scaled(r.config.filter_speckle, target, r.scaling.reference_long_edge))
}

#[test]
fn recipe_roundtrip_and_version_gate() {
    let r = Recipe::new(StudioConfig::default(), "2026-07-11T00:00:00Z".into(), 4000);
    let back = Recipe::from_parsed(r.clone()).unwrap();
    assert_eq!(r, back);

    let mut bad = r.clone();
    bad.version = 2;
    let err = Recipe::from_parsed(bad).unwrap_err();
    assert!(err.message().contains("不支持的文件版本"));
}

#[test]
fn speckle_scaling_is_linear_not_squared() {
    let mut r = Recipe::new(StudioConfig::default(), "t".into(), 1000);
    r.config.filter_speckle = 4;
    r.scaling.filter_speckle_mode = SpeckleScaling::Scaled;

    // 2x long edge → 2x speckle (linear), NOT 4x (squared).
    assert_eq!(effective(&r, 2000).filter_speckle, 8);
    assert_eq!(effective(&r, 500).filter_speckle, 2);
    assert_eq!(effective(&r, 1000).filter_speckle, 4);

    // Clamped to the max.
    r.config.filter_speckle = 100;
    assert_eq!(effective(&r, 4000).filter_speckle, FILTER_SPECKLE_MAX);

    // Fixed mode ignores size.
    r.scaling.filter_speckle_mode = SpeckleScaling::Fixed;
    assert_eq!(effective(&r, 4000).filter_speckle, 100);
}

fn session() -> ExperimentSession {
    ExperimentSession {
        version: SESSION_VERSION,
        source: SourceInfo {
            file: "C:\\pics\\a.png".into(),
            width: 4000,
            height: 3000,
            blake3: "abc".into(),
        },
        base_config: StudioConfig::default(),
        roi: Rect { x: 10, y: 20, w: 300, h: 400 },
        axes: MatrixAxes {
            gradient_step: vec![8, 16, 32],
            filter_speckle: vec![2, 4, 8],
            color_precision: vec![4, 6, 8],
        },
        selected_candidate: Some("g16_f4_p6".into()),
        viewport: Some(Viewport {
            scale_bits: 2.0f64.to_bits(),
            x_bits: (-120.0f64).to_bits(),
            y_bits: (-80.0f64).to_bits(),
        }),
    }
}

#[test]
fn session_roundtrip() {
    let s = session();
    let back = ExperimentSession::from_parsed(s.clone()).unwrap();
    assert_eq!(s, back);

    // Hand-edited sessions with unusable content are rejected up front.
    let mut bad = s.clone();
    bad.roi = Rect { x: 3900, y: 0, w: 300, h: 300 };
    assert!(ExperimentSession::from_parsed(bad).is_err(), "ROI 越界");
    let mut bad = s.clone();
    bad.base_config.max_iterations = 0;
    assert!(ExperimentSession::from_parsed(bad).is_err(), "非法 config");
    let mut bad = s.clone();
    bad.axes.gradient_step = vec![999];
    assert!(ExperimentSession::from_parsed(bad).is_err(), "非法轴取值");
    let mut bad = s;
    bad.viewport = Some(Viewport { scale_bits: f64::NAN.to_bits(), x_bits: 0, y_bits: 0 });
    assert!(ExperimentSession::from_parsed(bad).is_err(), "非法视口");
}

#[test]
fn session_errors_in_check_order() {
    let param = |s: ExperimentSession| match ExperimentSession::from_parsed(s) {
        Err(StudioError::InvalidParam(m)) => m,
        other => panic!("unexpected {other:?}"),
    };
    let mut s = session();
    s.version = 7;
    s.roi.w = 0;
    match ExperimentSession::from_parsed(s) {
        Err(StudioError::UnsupportedVersion { found, supported }) => {
            assert_eq!((found, supported), (7, SESSION_VERSION))
        }
        other => panic!("unexpected {other:?}"),
    }
    let mut s = session();
    s.axes.color_precision = vec![];
    s.roi.w = 0;
    assert_eq!(param(s), "颜色精度 color_precision 至少要选一个值");
    let mut s = session();
    s.roi = Rect { x: u32::MAX, y: 0, w: 2, h: 2 };
    assert_eq!(param(s), "会话中的 ROI 超出图片范围或为空");
    let mut s = session();
    s.roi = Rect { x: 0, y: 0, w: 4000, h: 3000 };
    assert!(ExperimentSession::from_parsed(s).is_ok());
    for (scale, x, y) in [
        (0.0, 0.0, 0.0),
        (-1.0, 0.0, 0.0),
        (f64::INFINITY, 0.0, 0.0),
        (1.0, f64::NEG_INFINITY, 0.0),
        (1.0, 0.0, f64::NAN),
    ] {
        let mut s = session();
        s.viewport = Some(Viewport { scale_bits: scale.to_bits(), x_bits: x.to_bits(), y_bits: y.to_bits() });
        assert_eq!(param(s), "会话中的视口数值无效");
    }
    let mut s = session();
    s.viewport = Some(Viewport { scale_bits: 1e-300f64.to_bits(), x_bits: (-0.0f64).to_bits(), y_bits: 1e300f64.to_bits() });
    assert!(ExperimentSession::from_parsed(s).is_ok());
    let mut s = session();
    s.viewport = None;
    assert!(ExperimentSession::from_parsed(s).is_ok());
}

#[test]
fn recipe_new_and_invalid_config() {
    let r = Recipe::new(StudioConfig::default(), "now".into(), 1234);
    assert_eq!(r.version, RECIPE_VERSION);
    assert_eq!(r.app, "vtracer-studio");
    assert_eq!(r.scaling.filter_speckle_mode, SpeckleScaling::Fixed);
    assert_eq!(r.scaling.reference_long_edge, 1234);
    let mut bad = r.clone();
    bad.config.gradient_step = -1;
    match Recipe::from_parsed(bad) {
        Err(StudioError::InvalidParam(m)) => {
            assert_eq!(m, "渐变步长 gradient_step 必须在 [0,255] 内，当前 -1")
        }
        other => panic!("unexpected {other:?}"),
    }
    let mut bad = r;
    bad.config.segment_length_bits = 11.0f64.to_bits();
    assert!(matches!(Recipe::from_parsed(bad), Err(StudioError::InvalidSegmentLength { .. })));
}

#[test]
fn effective_config_changes_only_speckle() {
    let mut r = Recipe::new(StudioConfig::from_preset("photo").unwrap(), "t".into(), 0);
    r.scaling.filter_speckle_mode = SpeckleScaling::Scaled;
    let c = r.effective_config(77);
    assert_eq!(c, StudioConfig { filter_speckle: 77, ..r.config });
    assert_eq!(r.effective_config(129).filter_speckle, FILTER_SPECKLE_MAX);
    // Reference edge 0 is treated as 1.
    assert_eq!(effective(&r, 3).filter_speckle, 30);
}
