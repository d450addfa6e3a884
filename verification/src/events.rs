//! Events a player reports.
use vstd::prelude::*;

verus! {

/// Something that happened to a player.
#[derive(Debug, Clone)]
pub enum PlayerEvent {
    Loaded,
    PlaybackEnded,
    Error(String),
}

} // verus!
