//! The tracer configuration under its user-facing parameter names, its
//! ranges and its presets.
use vstd::prelude::*;

use crate::error::{is_invalid_param, StudioError, StudioResult};
use crate::text::{decimal, push_decimal, push_signed_decimal, push_str, signed_decimal, str_equals};

verus! {

#[derive(Debug, Clone, Copy, PartialEq, Eq, Structural)]
pub enum ColorMode {
    Color,
    Binary,
}

#[derive(Debug, Clone, Copy, PartialEq, Eq, Structural)]
pub enum Hierarchical {
    Stacked,
    Cutout,
}

#[derive(Debug, Clone, Copy, PartialEq, Eq, Structural)]
pub enum CurveMode {
    Spline,
    Polygon,
    Pixel,
}

pub const FILTER_SPECKLE_MAX: u32 = 128;

/// Bit pattern of the binary64 value 3.5, the smallest accepted segment length.
pub const SEGMENT_LENGTH_MIN_BITS: u64 = 0x400c_0000_0000_0000;

/// Bit pattern of the binary64 value 10.0, the largest accepted segment length.
pub const SEGMENT_LENGTH_MAX_BITS: u64 = 0x4024_0000_0000_0000;

/// Bit pattern of the binary64 value 4.0, the default segment length.
pub const SEGMENT_LENGTH_DEFAULT_BITS: u64 = 0x4010_0000_0000_0000;

/// The converter configuration under its UI names (`gradient_step` is the
/// tracer's layer difference, `segment_length` its length threshold). The
/// segment length is a binary64 number held as its IEEE-754 bit pattern.
#[derive(Debug, Clone, Copy, PartialEq, Eq, Structural)]
pub struct StudioConfig {
    pub color_mode: ColorMode,
    pub hierarchical: Hierarchical,
    pub mode: CurveMode,
    /// Linear speckle size in px. Valid range [0,128].
    pub filter_speckle: u32,
    pub color_precision: i32,
    /// 0 switches the clustering into diagonal mode.
    pub gradient_step: i32,
    pub corner_threshold: i32,
    pub segment_length_bits: u64,
    pub max_iterations: usize,
    pub splice_threshold: i32,
    pub path_precision: Option<u32>,
}

/// Which range check of `validate` fails first, if any.
#[derive(Debug, Clone, Copy, PartialEq, Eq, Structural)]
pub enum ConfigFault {
    Valid,
    FilterSpeckle,
    ColorPrecision,
    GradientStep,
    CornerThreshold,
    SegmentLength,
    SpliceThreshold,
    MaxIterations,
    PathPrecision,
}

pub open spec fn default_config() -> StudioConfig {
    StudioConfig {
        color_mode: ColorMode::Color,
        hierarchical: Hierarchical::Stacked,
        mode: CurveMode::Spline,
        filter_speckle: 4,
        color_precision: 6,
        gradient_step: 16,
        corner_threshold: 60,
        segment_length_bits: SEGMENT_LENGTH_DEFAULT_BITS,
        max_iterations: 10,
        splice_threshold: 45,
        path_precision: Some(2),
    }
}

/// For binary64 bit patterns, `[3.5, 10]` membership: non-negative doubles
/// are ordered as their bit patterns, and NaNs and negatives lie outside.
pub open spec fn segment_length_in_range(bits: u64) -> bool {
    SEGMENT_LENGTH_MIN_BITS <= bits <= SEGMENT_LENGTH_MAX_BITS
}

/// The first range check, in `validate`'s order, that `c` fails.
pub open spec fn first_config_fault(c: StudioConfig) -> ConfigFault {
    if c.filter_speckle > FILTER_SPECKLE_MAX {
        ConfigFault::FilterSpeckle
    } else if !(1 <= c.color_precision <= 8) {
        ConfigFault::ColorPrecision
    } else if !(0 <= c.gradient_step <= 255) {
        ConfigFault::GradientStep
    } else if !(0 <= c.corner_threshold <= 180) {
        ConfigFault::CornerThreshold
    } else if !segment_length_in_range(c.segment_length_bits) {
        ConfigFault::SegmentLength
    } else if !(0 <= c.splice_threshold <= 180) {
        ConfigFault::SpliceThreshold
    } else if c.max_iterations == 0 {
        ConfigFault::MaxIterations
    } else if c.path_precision matches Some(p) && p > 8 {
        ConfigFault::PathPrecision
    } else {
        ConfigFault::Valid
    }
}

pub open spec fn config_is_valid(c: StudioConfig) -> bool {
    first_config_fault(c) == ConfigFault::Valid
}

/// The `InvalidParam` text for a failed check (segment length aside).
pub open spec fn config_fault_message(c: StudioConfig) -> Seq<char> {
    match first_config_fault(c) {
        ConfigFault::FilterSpeckle => "斑点过滤 filter_speckle 必须在 [0,128] 内，当前 "@ + decimal(
            c.filter_speckle as nat,
        ),
        ConfigFault::ColorPrecision => "颜色精度 color_precision 必须在 [1,8] 内，当前 "@
            + signed_decimal(c.color_precision as int),
        ConfigFault::GradientStep => "渐变步长 gradient_step 必须在 [0,255] 内，当前 "@
            + signed_decimal(c.gradient_step as int),
        ConfigFault::CornerThreshold => "拐角阈值 corner_threshold 必须在 [0,180] 内，当前 "@
            + signed_decimal(c.corner_threshold as int),
        ConfigFault::SpliceThreshold => "拼接阈值 splice_threshold 必须在 [0,180] 内，当前 "@
            + signed_decimal(c.splice_threshold as int),
        ConfigFault::MaxIterations => "最大迭代次数 max_iterations 至少为 1"@,
        ConfigFault::PathPrecision => "路径小数位 path_precision 必须在 [0,8] 内，当前 "@ + decimal(
            c.path_precision->0 as nat,
        ),
        _ => Seq::empty(),
    }
}

/// What `validate` answers for `c`: `Ok` when every check passes, else the
/// report of the first failed check. A `segment_length` outside its range is
/// reported as `InvalidSegmentLength`, the `InvalidParam` report whose binary64
/// value travels as its bit pattern.
pub open spec fn validation_outcome(c: StudioConfig, r: StudioResult<()>) -> bool {
    match first_config_fault(c) {
        ConfigFault::Valid => r is Ok,
        ConfigFault::SegmentLength => r == StudioResult::<()>::Err(
            StudioError::InvalidSegmentLength { value_bits: c.segment_length_bits },
        ),
        _ => r matches Err(StudioError::InvalidParam(m)) && m@ == config_fault_message(c),
    }
}

/// The named presets: `bw`, `poster`, `photo`.
pub open spec fn preset_config(name: Seq<char>) -> Option<StudioConfig> {
    let base = default_config();
    if name == "bw"@ {
        Some(StudioConfig { color_mode: ColorMode::Binary, ..base })
    } else if name == "poster"@ {
        Some(StudioConfig { color_precision: 8, ..base })
    } else if name == "photo"@ {
        Some(
            StudioConfig {
                filter_speckle: 10,
                color_precision: 8,
                gradient_step: 48,
                corner_threshold: 180,
                ..base
            },
        )
    } else {
        None
    }
}

impl Default for StudioConfig {
    fn default() -> (c: Self)
        ensures
            c == default_config(),
    {
        StudioConfig {
            color_mode: ColorMode::Color,
            hierarchical: Hierarchical::Stacked,
            mode: CurveMode::Spline,
            filter_speckle: 4,
            color_precision: 6,
            gradient_step: 16,
            corner_threshold: 60,
            segment_length_bits: SEGMENT_LENGTH_DEFAULT_BITS,
            max_iterations: 10,
            splice_threshold: 45,
            path_precision: Some(2),
        }
    }
}

fn invalid_signed(prefix: &str, value: i32) -> (e: StudioError)
    ensures
        e matches StudioError::InvalidParam(m) && m@ == prefix@ + signed_decimal(value as int),
{
    let mut m = String::new();
    push_str(&mut m, prefix);
    push_signed_decimal(&mut m, value);
    StudioError::InvalidParam(m)
}

fn invalid_unsigned(prefix: &str, value: u32) -> (e: StudioError)
    ensures
        e matches StudioError::InvalidParam(m) && m@ == prefix@ + decimal(value as nat),
{
    let mut m = String::new();
    push_str(&mut m, prefix);
    push_decimal(&mut m, value as u64);
    StudioError::InvalidParam(m)
}

impl StudioConfig {
    /// Checks every parameter range, in a fixed order, and reports the first
    /// one that fails; every failure is an invalid-parameter report.
    pub fn validate(&self) -> (r: StudioResult<()>)
        ensures
            validation_outcome(*self, r),
            r is Ok <==> config_is_valid(*self),
            r matches Err(e) ==> is_invalid_param(e),
    {
        if self.filter_speckle > FILTER_SPECKLE_MAX {
            return Err(
                invalid_unsigned("斑点过滤 filter_speckle 必须在 [0,128] 内，当前 ", self.filter_speckle),
            );
        }
        if !(1 <= self.color_precision && self.color_precision <= 8) {
            return Err(
                invalid_signed("颜色精度 color_precision 必须在 [1,8] 内，当前 ", self.color_precision),
            );
        }
        if !(0 <= self.gradient_step && self.gradient_step <= 255) {
            return Err(
                invalid_signed("渐变步长 gradient_step 必须在 [0,255] 内，当前 ", self.gradient_step),
            );
        }
        if !(0 <= self.corner_threshold && self.corner_threshold <= 180) {
            return Err(
                invalid_signed(
                    "拐角阈值 corner_threshold 必须在 [0,180] 内，当前 ",
                    self.corner_threshold,
                ),
            );
        }
        if !(SEGMENT_LENGTH_MIN_BITS <= self.segment_length_bits && self.segment_length_bits
            <= SEGMENT_LENGTH_MAX_BITS) {
            return Err(StudioError::InvalidSegmentLength { value_bits: self.segment_length_bits });
        }
        if !(0 <= self.splice_threshold && self.splice_threshold <= 180) {
            return Err(
                invalid_signed(
                    "拼接阈值 splice_threshold 必须在 [0,180] 内，当前 ",
                    self.splice_threshold,
                ),
            );
        }
        if self.max_iterations == 0 {
            let mut m = String::new();
            push_str(&mut m, "最大迭代次数 max_iterations 至少为 1");
            return Err(StudioError::InvalidParam(m));
        }
        if let Some(p) = self.path_precision {
            if p > 8 {
                return Err(invalid_unsigned("路径小数位 path_precision 必须在 [0,8] 内，当前 ", p));
            }
        }
        Ok(())
    }

    /// The configuration of a named preset, if the name is one.
    pub fn from_preset(preset: &str) -> (r: Option<StudioConfig>)
        ensures
            r == preset_config(preset@),
    {
        let base = StudioConfig::default();
        if str_equals(preset, "bw") {
            Some(StudioConfig { color_mode: ColorMode::Binary, ..base })
        } else if str_equals(preset, "poster") {
            Some(StudioConfig { color_precision: 8, ..base })
        } else if str_equals(preset, "photo") {
            Some(
                StudioConfig {
                    filter_speckle: 10,
                    color_precision: 8,
                    gradient_step: 48,
                    corner_threshold: 180,
                    ..base
                },
            )
        } else {
            None
        }
    }
}

/// A configuration validates exactly when every field lies in its documented
/// range: speckle in [0,128], color precision in [1,8], gradient step in
/// [0,255], corner and splice thresholds in [0,180], segment length in
/// [3.5,10] (as binary64 bit patterns), at least one iteration, and a path
/// precision, if any, of at most 8.
pub proof fn lemma_valid_iff_in_ranges(c: StudioConfig)
    ensures
        config_is_valid(c) <==> {
            &&& c.filter_speckle <= 128
            &&& 1 <= c.color_precision <= 8
            &&& 0 <= c.gradient_step <= 255
            &&& 0 <= c.corner_threshold <= 180
            &&& 0x400c_0000_0000_0000 <= c.segment_length_bits <= 0x4024_0000_0000_0000
            &&& 0 <= c.splice_threshold <= 180
            &&& c.max_iterations >= 1
            &&& (c.path_precision matches Some(p) ==> p <= 8)
        },
{
}

/// The default configuration and every preset pass validation.
pub proof fn lemma_defaults_are_valid(name: Seq<char>)
    ensures
        config_is_valid(default_config()),
        preset_config(name) matches Some(c) ==> config_is_valid(c),
{
}

} // verus!
