//! The settings the application runs with.
use crate::common::CaptureArea;
use std::path::PathBuf;
use vstd::prelude::*;

verus! {

/// A file system path, carried through unchanged.
#[verifier::external_type_specification]
#[verifier::external_body]
pub struct ExPathBuf(PathBuf);

/// `PathBuf::clone`: a copy of the path; nothing is claimed of it here.
pub assume_specification[ <PathBuf as Clone>::clone ](path: &PathBuf) -> PathBuf;

/// `PathBuf::eq`: whether two paths are equal; nothing is claimed of the answer here.
pub assume_specification[ <PathBuf as PartialEq>::eq ](a: &PathBuf, b: &PathBuf) -> bool;

/// All settings.
#[derive(Debug, Clone, PartialEq)]
pub struct Config {
    pub video: VideoConfig,
    pub capture: CaptureConfig,
}

impl Config {
    /// Takes over every setting of `new_config`.
    pub fn update(&mut self, new_config: Config)
        ensures
            *final(self) == new_config,
    {
        self.video = new_config.video;
        self.capture = new_config.capture;
    }
}

/// Where and how recordings are written.
#[derive(Debug, Clone, PartialEq)]
pub struct VideoConfig {
    pub output_path: PathBuf,
    pub fps: u32,
    pub temp_dir: PathBuf,
}

/// Frames per second a recording is written with unless the user picks another rate.
pub const DEFAULT_FPS: u32 = 6;

/// Which monitor is captured, and which part of it.
#[derive(Debug, Clone, Default, PartialEq)]
pub struct CaptureConfig {
    pub selected_monitor: usize,
    pub capture_area: Option<CaptureArea>,
}

} // verus!
