//! Watching a session live.

use vstd::prelude::*;

use crate::config::ModelPaths;
use crate::error::{DetectError, ErrorView};
use crate::text::owned;

verus! {

broadcast use vstd::string::group_string_axioms;

/// Which detected frame the watcher saw last, and how many it has seen.
///
/// Frames are counted as they are *detected*: the detect worker only sees some
/// of the captured ones, so counting by sequence number would skip at random.
#[derive(Debug, Clone, Copy, PartialEq, Eq)]
pub struct Watched {
    pub seen: u64,
    pub last_seq: u64,
}

impl Watched {
    /// Nothing seen yet.
    pub fn new() -> (r: Self)
        ensures
            r == (Watched { seen: 0, last_seq: u64::MAX }),
    {
        Watched { seen: 0, last_seq: u64::MAX }
    }

    /// Look at the newest detected frame. Returns its number among those seen,
    /// unless it is the one that was seen last.
    pub fn look(&mut self, seq: u64) -> (r: Option<u64>)
        requires
            old(self).seen < u64::MAX,
        ensures
            if seq == old(self).last_seq {
                r is None && *final(self) == *old(self)
            } else {
                r == Some(old(self).seen) && *final(self) == (Watched {
                    seen: (old(self).seen + 1) as u64,
                    last_seq: seq,
                })
            },
    {
        if seq == self.last_seq {
            return None;
        }
        let nth: u64 = self.seen;
        self.seen = self.seen + 1;
        self.last_seq = seq;
        Some(nth)
    }
}

/// Whether the frame numbered `nth` is one to save: every so many, beginning
/// with the first, and none if asked for every zeroth.
pub fn saves(save_every: Option<u64>, nth: u64) -> (r: bool)
    ensures
        r == (save_every matches Some(n) && n > 0 && nth % n == 0),
{
    match save_every {
        Some(n) => n > 0 && nth % n == 0,
        None => false,
    }
}

/// Whether enough frames have gone by.
pub fn enough(max_frames: Option<u64>, frames: u64) -> (r: bool)
    ensures
        r == (max_frames matches Some(m) && frames >= m),
{
    match max_frames {
        Some(m) => frames >= m,
        None => false,
    }
}

/// Insist on a face model.
pub fn require_face(paths: &ModelPaths) -> (r: Result<String, DetectError>)
    ensures
        match (r, paths.face) {
            (Ok(path), Some(p)) => path@ == p@,
            (Err(e), None) => e@ == ErrorView::Config(
                "no face model: set models.face in config, or put face_detection_yunet_2023mar.onnx in models/"@,
            ),
            _ => false,
        },
{
    match &paths.face {
        Some(p) => Ok(p.clone()),
        None => Err(
            DetectError::Config(
                owned(
                    "no face model: set models.face in config, or put face_detection_yunet_2023mar.onnx in models/",
                ),
            ),
        ),
    }
}

/// What a watched session that captured nothing comes to: an error if there was
/// one.
pub fn nothing_captured(error: Option<String>) -> (r: Result<(), DetectError>)
    ensures
        match (r, error) {
            (Ok(_), None) => true,
            (Err(e), Some(why)) => e@ == ErrorView::Camera(why@),
            _ => false,
        },
{
    match error {
        Some(why) => Err(DetectError::Camera(why)),
        None => Ok(()),
    }
}

} // verus!
