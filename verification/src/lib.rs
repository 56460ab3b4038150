//! Camera frames in, proctoring signals and violations out.
//!
//! The decision half of an exam proctoring engine: everything that turns
//! per-frame measurements into temporal claims, and everything that decides
//! what the workers around it do next. Nothing is opened, sent or spawned here;
//! times, frames and model outputs arrive as values. A clock is read only
//! to stamp a frame with the moment it was captured, and nothing is decided by
//! that stamp.

pub mod canvas;
pub mod capture;
pub mod cli;
pub mod config;
pub mod config_store;
pub mod decimal;
pub mod error;
pub mod fusion;
pub mod models;
pub mod number;
pub mod pipeline;
pub mod text;
pub mod types;

use vstd::prelude::*;

pub use capture::{FrameSource, SourceSpec};
pub use config::{Config, SettingsPayload, UserThresholds};
pub use error::DetectError;
pub use fusion::FusionEngine;
pub use pipeline::workers::Detected;
pub use pipeline::{Detector, DetectorBuilder, FrameStats, SessionReport, SignalStatus};
pub use types::{
    BBox, Contribution, DegradeReason, DetectorState, Event, EyeAspect, FaceDetection, FaceKeypoints, Frame,
    GateReason, Gaze, HeadPose, ObjectDetection, Severity, SignalCoverage, SignalSource, Signals, SlotState, Violation,
    ViolationKind,
};

verus! {

/// Version of the recorded signals format. Bump it when a change would make an
/// old recording replay to different violations: recordings are the regression
/// corpus, and silently reinterpreting them would be worse than refusing to
/// read them.
pub const SIGNALS_FORMAT_VERSION: u32 = 2;

} // verus!
