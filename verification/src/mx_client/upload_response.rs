//! What ManiaExchange answers to a replay upload.
use vstd::prelude::*;

verus! {

/// The map a replay was uploaded for.
#[derive(Debug, Clone)]
pub struct UploadedMap {
    pub map_id: usize,
    pub name: String,
}

/// The uploaded replay as ranked on the map.
#[derive(Debug, Clone, Copy)]
pub struct Replay {
    pub replay_time: usize,
    pub replay_points: usize,
    /// Zero-based rank of the replay on the map.
    pub position: usize,
    pub score: usize,
}

/// The answer to a replay upload.
#[derive(Debug, Clone)]
pub struct UploadResponse {
    pub success: bool,
    pub error: Option<String>,
    pub map: UploadedMap,
    pub replay: Replay,
}

impl UploadResponse {
    /// The replay's rank on the map, counted from one.
    pub fn position(&self) -> (p: usize)
        requires
            self.replay.position < usize::MAX,
        ensures
            p == self.replay.position + 1,
    {
        self.replay.position + 1
    }
}

} // verus!
