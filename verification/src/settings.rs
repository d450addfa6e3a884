//! User settings of the player.
use vstd::prelude::*;

verus! {

/// Settings that shape playback and the automatic thumbnails.
///
/// Durations are whole milliseconds.
#[derive(Debug, Clone, Copy)]
pub struct AppSettings {
    pub loop_playback: bool,
    pub remember_last_files: bool,
    pub thumbnail_interval_ms: u64,
    pub thumbnail_guard_ms: u64,
}

impl Default for AppSettings {
    fn default() -> (r: Self)
        ensures
            r.loop_playback == false,
            r.remember_last_files == true,
            r.thumbnail_interval_ms == 5000,
            r.thumbnail_guard_ms == 3000,
    {
        AppSettings {
            loop_playback: false,
            remember_last_files: true,
            thumbnail_interval_ms: 5000,
            thumbnail_guard_ms: 3000,
        }
    }
}

} // verus!
