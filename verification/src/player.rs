//! Playback-side data records consumed by the queue and player
//! collaborators: the visible queue, repeat modes, audio devices, and the
//! persisted queue snapshot.

use vstd::prelude::*;
use crate::entities::Track;

verus! {

#[derive(Debug, Clone)]
pub enum RepeatMode {
    Off,
    All,
    One,
}

impl Default for RepeatMode {
    fn default() -> (r: RepeatMode)
        ensures
            r is Off,
    {
        RepeatMode::Off
    }
}

#[derive(Debug, Clone)]
pub struct Queue {
    pub id: String,
    pub tracks: Vec<Track>,
    pub current_index: u32,
    pub shuffle: bool,
    pub repeat: RepeatMode,
}

#[derive(Debug, Clone)]
pub struct AudioDevice {
    pub id: String,
    pub name: String,
    pub is_default: bool,
    pub is_current: bool,
}

/// The queue state as persisted between runs: track ids plus the shuffle
/// and repeat settings.
#[derive(Debug, Clone)]
pub struct PersistedQueue {
    pub tracks: Vec<String>,
    pub current_index: Option<usize>,
    pub repeat_mode: RepeatMode,
    pub shuffle: bool,
    pub shuffled_indices: Vec<usize>,
}

impl Default for PersistedQueue {
    fn default() -> (r: PersistedQueue)
        ensures
            r.tracks@.len() == 0,
            r.current_index is None,
            r.repeat_mode is Off,
            r.shuffle == false,
            r.shuffled_indices@.len() == 0,
    {
        PersistedQueue {
            tracks: Vec::new(),
            current_index: None,
            repeat_mode: RepeatMode::Off,
            shuffle: false,
            shuffled_indices: Vec::new(),
        }
    }
}

} // verus!
