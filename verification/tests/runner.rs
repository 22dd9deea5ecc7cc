use studio_core::{
    candidate_config, worker_count_for, CandidateParams, RunProgress, StudioConfig, StudioError,
};

#[test]
fn progress_finishes_once_with_completed_count() {
    let mut p = RunProgress::new(3);
    assert_eq!(p.finished_at_start(), None);
    assert_eq!(p.record(true), None);
    assert!(!p.is_done());
    assert_eq!(p.record(false), None);
    assert_eq!(p.record(true), Some(2));
    assert!(p.is_done());
}

#[test]
fn empty_run_finishes_at_start() {
    let p = RunProgress::new(0);
    assert_eq!(p.finished_at_start(), Some(0));
    assert!(p.is_done());
}

#[test]
fn cancelled_run_finishes_with_zero() {
    let mut p = RunProgress::new(2);
    assert_eq!(p.record(false), None);
    assert_eq!(p.record(false), Some(0));
}

#[test]
fn worker_count_is_capped() {
    assert_eq!(worker_count_for(None), 2);
    assert_eq!(worker_count_for(Some(1)), 1);
    assert_eq!(worker_count_for(Some(4)), 4);
    assert_eq!(worker_count_for(Some(64)), 4);
}

#[test]
fn candidate_config_validates_before_tracing() {
    let base = StudioConfig::default();
    let ok = CandidateParams::new(32, 8, 4);
    assert_eq!(
        candidate_config(&base, &ok).unwrap(),
        StudioConfig { gradient_step: 32, filter_speckle: 8, color_precision: 4, ..base }
    );
    let bad = CandidateParams {
        id: "g16_f200_p6".into(),
        gradient_step: 16,
        filter_speckle: 200,
        color_precision: 6,
    };
    match candidate_config(&base, &bad) {
        Err(e @ StudioError::InvalidParam(_)) => assert_eq!(
            e.message(),
            "参数无效：斑点过滤 filter_speckle 必须在 [0,128] 内，当前 200"
        ),
        other => panic!("unexpected {other:?}"),
    }
}
