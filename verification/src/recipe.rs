//! Reusable recipes and saved experiment sessions: version gates and the
//! checks a loaded file must pass before it reaches a run.
use vstd::prelude::*;

use crate::config::{config_is_valid, validation_outcome, StudioConfig, FILTER_SPECKLE_MAX};
use crate::error::{StudioError, StudioResult};
use crate::image_io::{roi_fits, Rect};
use crate::matrix::{axes_problem, MatrixAxes};
use crate::text::push_str;

verus! {

pub const RECIPE_VERSION: u32 = 1;

pub const SESSION_VERSION: u32 = 1;

/// Bit pattern of binary64 +infinity; exponent bits all set.
pub const F64_INFINITY_BITS: u64 = 0x7ff0_0000_0000_0000;

/// Bit pattern of binary64 -0.0; the sign bit alone.
pub const F64_SIGN_BIT: u64 = 0x8000_0000_0000_0000;

/// A reusable conversion recipe, not tied to any particular image.
#[derive(Debug, Clone, PartialEq, Eq)]
pub struct Recipe {
    pub version: u32,
    pub app: String,
    pub created_at: String,
    pub config: StudioConfig,
    pub scaling: Scaling,
}

/// How `filter_speckle` adapts to images of another size than the one the
/// recipe was tuned on.
#[derive(Debug, Clone, Copy, PartialEq, Eq, Structural)]
pub struct Scaling {
    pub filter_speckle_mode: SpeckleScaling,
    /// Long edge (px) of the image the recipe was tuned on.
    pub reference_long_edge: u32,
}

#[derive(Debug, Clone, Copy, PartialEq, Eq, Structural)]
pub enum SpeckleScaling {
    /// Use `config.filter_speckle` as-is.
    Fixed,
    /// Scale linearly with the long-edge ratio (a linear px quantity, so the
    /// factor is `r`, not `r²`).
    Scaled,
}

/// Everything needed to restore an experiment.
#[derive(Debug, Clone, PartialEq, Eq)]
pub struct ExperimentSession {
    pub version: u32,
    pub source: SourceInfo,
    pub base_config: StudioConfig,
    pub roi: Rect,
    pub axes: MatrixAxes,
    pub selected_candidate: Option<String>,
    pub viewport: Option<Viewport>,
}

#[derive(Debug, Clone, PartialEq, Eq)]
pub struct SourceInfo {
    pub file: String,
    pub width: u32,
    pub height: u32,
    /// The decoded image's identity hash.
    pub blake3: String,
}

/// Where the user was looking; each number is a binary64 value held as its
/// IEEE-754 bit pattern.
#[derive(Debug, Clone, Copy, PartialEq, Eq, Structural)]
pub struct Viewport {
    pub scale_bits: u64,
    pub x_bits: u64,
    pub y_bits: u64,
}

/// The binary64 value with these bits is finite (its exponent is not all ones).
pub open spec fn finite_bits(bits: u64) -> bool {
    bits < F64_INFINITY_BITS || (F64_SIGN_BIT <= bits && bits < F64_SIGN_BIT + F64_INFINITY_BITS)
}

/// The scale is finite and above zero, the offsets are finite.
pub open spec fn viewport_ok(v: Viewport) -> bool {
    0 < v.scale_bits < F64_INFINITY_BITS && finite_bits(v.x_bits) && finite_bits(v.y_bits)
}

/// The speckle size a recipe yields, given the size the `Scaled` policy
/// computed for the target image.
pub open spec fn effective_speckle(r: Recipe, scaled_speckle: u32) -> u32 {
    match r.scaling.filter_speckle_mode {
        SpeckleScaling::Fixed => r.config.filter_speckle,
        SpeckleScaling::Scaled => if scaled_speckle <= FILTER_SPECKLE_MAX {
            scaled_speckle
        } else {
            FILTER_SPECKLE_MAX
        },
    }
}

/// What loading a parsed recipe answers.
pub open spec fn recipe_outcome(r: Recipe, out: StudioResult<Recipe>) -> bool {
    if r.version != RECIPE_VERSION {
        out == StudioResult::<Recipe>::Err(
            StudioError::UnsupportedVersion { found: r.version, supported: RECIPE_VERSION },
        )
    } else if !config_is_valid(r.config) {
        out matches Err(e) && validation_outcome(r.config, Err(e))
    } else {
        out == StudioResult::<Recipe>::Ok(r)
    }
}

fn version_error(found: u32, supported: u32) -> (e: StudioError)
    ensures
        e == (StudioError::UnsupportedVersion { found, supported }),
{
    StudioError::UnsupportedVersion { found, supported }
}

impl Recipe {
    pub fn new(config: StudioConfig, created_at: String, reference_long_edge: u32) -> (r: Recipe)
        ensures
            r.version == RECIPE_VERSION,
            r.app@ == "vtracer-studio"@,
            r.created_at == created_at,
            r.config == config,
            r.scaling == (Scaling {
                filter_speckle_mode: SpeckleScaling::Fixed,
                reference_long_edge,
            }),
    {
        let mut app = String::new();
        push_str(&mut app, "vtracer-studio");
        Recipe {
            version: RECIPE_VERSION,
            app,
            created_at,
            config,
            scaling: Scaling { filter_speckle_mode: SpeckleScaling::Fixed, reference_long_edge },
        }
    }

    /// Accepts a parsed recipe: its version must be the supported one and its
    /// config must validate.
    pub fn from_parsed(r: Recipe) -> (out: StudioResult<Recipe>)
        ensures
            recipe_outcome(r, out),
    {
        if r.version != RECIPE_VERSION {
            return Err(version_error(r.version, RECIPE_VERSION));
        }
        match r.config.validate() {
            Err(e) => Err(e),
            Ok(()) => Ok(r),
        }
    }

    /// The effective config for a target image. `scaled_speckle` is what the
    /// `Scaled` policy gives for that image: `filter_speckle` times the
    /// long-edge ratio, rounded (computed in binary64 by the caller). It is
    /// clamped to the maximum; in `Fixed` mode it is ignored.
    pub fn effective_config(&self, scaled_speckle: u32) -> (c: StudioConfig)
        ensures
            c == (StudioConfig {
                filter_speckle: effective_speckle(*self, scaled_speckle),
                ..self.config
            }),
    {
        let mut config = self.config;
        if let SpeckleScaling::Scaled = self.scaling.filter_speckle_mode {
            config.filter_speckle = if scaled_speckle <= FILTER_SPECKLE_MAX {
                scaled_speckle
            } else {
                FILTER_SPECKLE_MAX
            };
        }
        config
    }
}

/// What loading a parsed session answers; checks run in this order.
pub open spec fn session_outcome(s: ExperimentSession, out: StudioResult<ExperimentSession>) -> bool {
    if s.version != SESSION_VERSION {
        out == StudioResult::<ExperimentSession>::Err(
            StudioError::UnsupportedVersion { found: s.version, supported: SESSION_VERSION },
        )
    } else if !config_is_valid(s.base_config) {
        out matches Err(e) && validation_outcome(s.base_config, Err(e))
    } else if axes_problem(s.axes) is Some {
        out matches Err(StudioError::InvalidParam(m)) && Some(m@) == axes_problem(s.axes)
    } else if !roi_fits(s.roi, s.source.width, s.source.height) {
        out matches Err(StudioError::InvalidParam(m)) && m@ == "会话中的 ROI 超出图片范围或为空"@
    } else if s.viewport matches Some(v) && !viewport_ok(v) {
        out matches Err(StudioError::InvalidParam(m)) && m@ == "会话中的视口数值无效"@
    } else {
        out == StudioResult::<ExperimentSession>::Ok(s)
    }
}

impl ExperimentSession {
    /// Accepts a parsed session. A hand-edited session flows straight into
    /// runs, so everything is checked: version, base config, axes, ROI
    /// against the source size, and viewport numbers.
    pub fn from_parsed(s: ExperimentSession) -> (out: StudioResult<ExperimentSession>)
        ensures
            session_outcome(s, out),
    {
        if s.version != SESSION_VERSION {
            return Err(version_error(s.version, SESSION_VERSION));
        }
        if let Err(e) = s.base_config.validate() {
            return Err(e);
        }
        if let Err(e) = s.axes.normalized() {
            return Err(e);
        }
        let roi_ok = s.roi.w > 0 && s.roi.h > 0 && s.roi.x as u64 + s.roi.w as u64
            <= s.source.width as u64 && s.roi.y as u64 + s.roi.h as u64 <= s.source.height as u64;
        if !roi_ok {
            let mut m = String::new();
            push_str(&mut m, "会话中的 ROI 超出图片范围或为空");
            return Err(StudioError::InvalidParam(m));
        }
        if let Some(v) = s.viewport {
            let finite_x = v.x_bits < F64_INFINITY_BITS || (F64_SIGN_BIT <= v.x_bits && v.x_bits
                - F64_SIGN_BIT < F64_INFINITY_BITS);
            let finite_y = v.y_bits < F64_INFINITY_BITS || (F64_SIGN_BIT <= v.y_bits && v.y_bits
                - F64_SIGN_BIT < F64_INFINITY_BITS);
            if !(0 < v.scale_bits && v.scale_bits < F64_INFINITY_BITS && finite_x && finite_y) {
                let mut m = String::new();
                push_str(&mut m, "会话中的视口数值无效");
                return Err(StudioError::InvalidParam(m));
            }
        }
        Ok(s)
    }
}

/// A recipe made from a valid config is accepted unchanged when loaded back.
pub proof fn lemma_new_recipe_loads(r: Recipe)
    requires
        r.version == RECIPE_VERSION,
        config_is_valid(r.config),
    ensures
        forall|out: StudioResult<Recipe>| recipe_outcome(r, out) ==> out == StudioResult::<
            Recipe,
        >::Ok(r),
{
}

/// A recipe loads only when its version is the supported one and its config
/// validates, whatever its scaling mode, and then it loads unchanged; every
/// such recipe loads.
pub proof fn lemma_recipe_loads_only_valid(r: Recipe)
    ensures
        forall|out: StudioResult<Recipe>|
            #[trigger] recipe_outcome(r, out) ==> (out is Ok <==> (r.version == 1 && config_is_valid(
                r.config,
            ))) && (out is Ok ==> out == StudioResult::<Recipe>::Ok(r)),
{
}

/// A session loads exactly when its version is the supported one, its base
/// config validates, its axes are accepted, its ROI is non-empty and lies
/// inside the source image (horizontally within its width, vertically within
/// its height), and its viewport numbers, if any, are sound; it then loads
/// unchanged.
pub proof fn lemma_session_loads_iff_checks_pass(s: ExperimentSession)
    ensures
        forall|out: StudioResult<ExperimentSession>|
            #[trigger] session_outcome(s, out) ==> (out is Ok <==> {
                &&& s.version == 1
                &&& config_is_valid(s.base_config)
                &&& axes_problem(s.axes) is None
                &&& s.roi.w > 0 && s.roi.h > 0
                &&& s.roi.x + s.roi.w <= s.source.width
                &&& s.roi.y + s.roi.h <= s.source.height
                &&& (s.viewport matches Some(v) ==> viewport_ok(v))
            }) && (out is Ok ==> out == StudioResult::<ExperimentSession>::Ok(s)),
{
}

/// In `Fixed` mode the effective config is the recipe's config, whatever the
/// target; in `Scaled` mode the speckle size never exceeds the maximum.
/// Either way only `filter_speckle` can differ from the recipe's config.
pub proof fn lemma_effective_speckle(r: Recipe, s1: u32, s2: u32)
    ensures
        r.scaling.filter_speckle_mode == SpeckleScaling::Fixed ==> effective_speckle(r, s1)
            == effective_speckle(r, s2) && effective_speckle(r, s1) == r.config.filter_speckle,
        r.scaling.filter_speckle_mode == SpeckleScaling::Scaled ==> effective_speckle(r, s1)
            <= FILTER_SPECKLE_MAX,
        r.scaling.filter_speckle_mode == SpeckleScaling::Scaled && s1 <= FILTER_SPECKLE_MAX
            ==> effective_speckle(r, s1) == s1,
{
}

} // verus!
