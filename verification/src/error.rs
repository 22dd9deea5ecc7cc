//! Errors surfaced to the user, with their (zh-CN) messages.
use vstd::prelude::*;

use crate::text::{decimal, push_decimal, push_str};

verus! {

/// `std::io::Error`, carried opaquely.
#[verifier::external_type_specification]
#[verifier::external_body]
pub struct ExIoError(std::io::Error);

/// `image::ImageError`, carried opaquely.
#[verifier::external_type_specification]
#[verifier::external_body]
pub struct ExImageError(image::ImageError);

/// `serde_json::Error`, carried opaquely.
#[verifier::external_type_specification]
#[verifier::external_body]
pub struct ExJsonError(serde_json::Error);

/// Errors surfaced to the UI. Messages are zh-CN because they are shown to the
/// user verbatim.
#[derive(Debug)]
pub enum StudioError {
    Io(std::io::Error),
    Image(image::ImageError),
    /// A parameter outside its range; the text names the parameter, its range
    /// and the value given.
    InvalidParam(String),
    /// The `InvalidParam` report for `segment_length`, the one parameter whose
    /// value is a binary64 number: the value travels as its IEEE-754 bit
    /// pattern, because this library holds no floating-point value and so
    /// cannot render it. It stands one-for-one for
    /// `InvalidParam(segment_length_message() + <the value's Display text>)`;
    /// the desktop shell's error type renders it as exactly that.
    /// `is_invalid_param` counts both variants as one kind of error.
    InvalidSegmentLength { value_bits: u64 },
    InvalidRoi { width: u32, height: u32, x: u32, y: u32, w: u32, h: u32 },
    UnsupportedVersion { found: u32, supported: u32 },
    Convert(String),
    Json(serde_json::Error),
}

pub type StudioResult<T> = Result<T, StudioError>;

/// `e` reports a parameter outside its range: an `InvalidParam`, or its
/// binary64 counterpart `InvalidSegmentLength`.
pub open spec fn is_invalid_param(e: StudioError) -> bool {
    e is InvalidParam || e is InvalidSegmentLength
}

/// Display text of an I/O error (std's `Display for io::Error`).
#[verifier::external_body]
fn io_error_text(e: &std::io::Error) -> String {
    e.to_string()
}

/// Display text of an image error (`Display for image::ImageError`).
#[verifier::external_body]
fn image_error_text(e: &image::ImageError) -> String {
    e.to_string()
}

/// Display text of a JSON error (`Display for serde_json::Error`).
#[verifier::external_body]
fn json_error_text(e: &serde_json::Error) -> String {
    e.to_string()
}

pub open spec fn roi_message(width: u32, height: u32, x: u32, y: u32, w: u32, h: u32) -> Seq<
    char,
> {
    "ROI 超出图片范围（图片 "@ + decimal(width as nat) + "×"@ + decimal(height as nat) + "，ROI x="@
        + decimal(x as nat) + " y="@ + decimal(y as nat) + " w="@ + decimal(w as nat) + " h="@
        + decimal(h as nat) + "）"@
}

pub open spec fn version_message(found: u32, supported: u32) -> Seq<char> {
    "不支持的文件版本 "@ + decimal(found as nat) + "（本版本只支持 "@ + decimal(supported as nat)
        + "），请用新版 VTracer Studio 打开"@
}

/// The `InvalidParam` text for a `segment_length` outside its range, up to
/// the value, which is appended by whoever can render a binary64 number.
pub open spec fn segment_length_message() -> Seq<char> {
    "参数无效：线段长度 segment_length 必须在 [3.5,10] 内，当前 "@
}

impl StudioError {
    /// The user-facing message (what `Display` shows). For
    /// `InvalidSegmentLength` it is the `InvalidParam` text up to the value,
    /// which this library cannot render; for `Io`, `Image` and `Json` it is the
    /// prefix followed by the outside error's own text.
    pub fn message(&self) -> (m: String)
        ensures
            match self {
                StudioError::InvalidParam(p) => m@ == "参数无效："@ + p@,
                StudioError::InvalidSegmentLength { .. } => m@ == segment_length_message(),
                StudioError::InvalidRoi { width, height, x, y, w, h } => m@ == roi_message(
                    *width,
                    *height,
                    *x,
                    *y,
                    *w,
                    *h,
                ),
                StudioError::UnsupportedVersion { found, supported } => m@ == version_message(
                    *found,
                    *supported,
                ),
                StudioError::Convert(c) => m@ == "转换失败："@ + c@,
                StudioError::Io(_) => m@.len() >= "无法读取文件："@.len() && m@.subrange(
                    0,
                    "无法读取文件："@.len() as int,
                ) == "无法读取文件："@,
                StudioError::Image(_) => m@.len() >= "无法解码图片："@.len() && m@.subrange(
                    0,
                    "无法解码图片："@.len() as int,
                ) == "无法解码图片："@,
                StudioError::Json(_) => m@.len() >= "JSON 解析失败："@.len() && m@.subrange(
                    0,
                    "JSON 解析失败："@.len() as int,
                ) == "JSON 解析失败："@,
            },
    {
        let mut m = String::new();
        match self {
            StudioError::InvalidParam(p) => {
                push_str(&mut m, "参数无效：");
                push_str(&mut m, p.as_str());
            },
            StudioError::InvalidSegmentLength { .. } => {
                push_str(&mut m, "参数无效：线段长度 segment_length 必须在 [3.5,10] 内，当前 ");
            },
            StudioError::InvalidRoi { width, height, x, y, w, h } => {
                push_str(&mut m, "ROI 超出图片范围（图片 ");
                push_decimal(&mut m, *width as u64);
                push_str(&mut m, "×");
                push_decimal(&mut m, *height as u64);
                push_str(&mut m, "，ROI x=");
                push_decimal(&mut m, *x as u64);
                push_str(&mut m, " y=");
                push_decimal(&mut m, *y as u64);
                push_str(&mut m, " w=");
                push_decimal(&mut m, *w as u64);
                push_str(&mut m, " h=");
                push_decimal(&mut m, *h as u64);
                push_str(&mut m, "）");
            },
            StudioError::UnsupportedVersion { found, supported } => {
                push_str(&mut m, "不支持的文件版本 ");
                push_decimal(&mut m, *found as u64);
                push_str(&mut m, "（本版本只支持 ");
                push_decimal(&mut m, *supported as u64);
                push_str(&mut m, "），请用新版 VTracer Studio 打开");
            },
            StudioError::Convert(c) => {
                push_str(&mut m, "转换失败：");
                push_str(&mut m, c.as_str());
            },
            StudioError::Io(e) => {
                push_str(&mut m, "无法读取文件：");
                let t = io_error_text(e);
                push_str(&mut m, t.as_str());
            },
            StudioError::Image(e) => {
                push_str(&mut m, "无法解码图片：");
                let t = image_error_text(e);
                push_str(&mut m, t.as_str());
            },
            StudioError::Json(e) => {
                push_str(&mut m, "JSON 解析失败：");
                let t = json_error_text(e);
                push_str(&mut m, t.as_str());
            },
        }
        m
    }
}

} // verus!
