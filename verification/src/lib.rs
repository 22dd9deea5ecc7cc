//! Headless core of a raster-to-vector tracing studio: parameter matrices,
//! configuration ranges and presets, recipes and sessions, cache identities,
//! image bookkeeping and the decisions of a matrix run. Everything builds
//! without a display; the tracer, the rasterizer and all I/O are driven from
//! outside.

pub mod cache;
pub mod config;
pub mod digest;
pub mod error;
pub mod image_io;
pub mod matrix;
pub mod matrix_laws;
pub mod metrics;
pub mod recipe;
pub mod runner;
pub mod seqs;
pub mod text;

pub use cache::CacheKey;
pub use config::{
    ColorMode, ConfigFault, CurveMode, Hierarchical, StudioConfig, FILTER_SPECKLE_MAX,
    SEGMENT_LENGTH_DEFAULT_BITS, SEGMENT_LENGTH_MAX_BITS, SEGMENT_LENGTH_MIN_BITS,
};
pub use error::{StudioError, StudioResult};
pub use image_io::{encode_png, ColorImage, ImageInfo, LoadedImage, Rect, PREVIEW_MAX_EDGE};
pub use matrix::{CandidateParams, MatrixAxes, RunMode};
pub use metrics::Metrics;
pub use recipe::{
    ExperimentSession, Recipe, Scaling, SourceInfo, SpeckleScaling, Viewport, RECIPE_VERSION,
    SESSION_VERSION,
};
pub use runner::{
    candidate_config, worker_count_for, CandidateResult, MatrixJob, RunProgress, THUMB_MAX_EDGE,
};
