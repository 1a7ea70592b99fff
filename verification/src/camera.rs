//! The camera track: a planned second recording source, not captured in
//! this version. Its file name inside a rehearsal directory is fixed so
//! that the data layout does not have to change when it arrives.
use vstd::prelude::*;

use crate::scalar::Real;

verus! {

/// The camera track (nothing is captured in this version).
#[derive(Clone, Copy, Debug)]
pub struct CameraTrack;

/// A camera as the review panel would name it: its name, picture size and
/// frame rate (frames per second).
#[derive(Clone, Debug)]
pub struct CameraDeviceInfo {
    pub name: String,
    pub width: u32,
    pub height: u32,
    pub fps: Real,
}

impl CameraTrack {
    /// The camera to record from: none in this version, which captures no
    /// video.
    pub fn probe() -> (r: Option<CameraDeviceInfo>)
        ensures
            r is None,
    {
        None
    }
}

/// The camera file inside `rehearsals/<id>/`.
pub const CAMERA_FILE_NAME: &'static str = "camera.mp4";

} // verus!
