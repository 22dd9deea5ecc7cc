use studio_core::StudioError;

#[test]
fn messages_match_the_ui_text() {
    assert_eq!(StudioError::InvalidParam("x".into()).message(), "参数无效：x");
    assert_eq!(StudioError::Convert("boom".into()).message(), "转换失败：boom");
    assert_eq!(
        StudioError::UnsupportedVersion { found: 2, supported: 1 }.message(),
        "不支持的文件版本 2（本版本只支持 1），请用新版 VTracer Studio 打开"
    );
    assert_eq!(
        StudioError::InvalidRoi { width: 4000, height: 3000, x: 0, y: 10, w: 4294967295, h: 1 }.message(),
        "ROI 超出图片范围（图片 4000×3000，ROI x=0 y=10 w=4294967295 h=1）"
    );
    assert_eq!(
        StudioError::InvalidSegmentLength { value_bits: 0 }.message(),
        "参数无效：线段长度 segment_length 必须在 [3.5,10] 内，当前 "
    );
    let io = StudioError::Io(std::io::Error::new(std::io::ErrorKind::NotFound, "gone"));
    assert_eq!(io.message(), "无法读取文件：gone");
    let json = serde_json::from_str::<u32>("x").unwrap_err();
    let text = json.to_string();
    assert_eq!(StudioError::Json(json).message(), format!("JSON 解析失败：{text}"));
}
