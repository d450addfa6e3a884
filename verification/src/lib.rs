//! The state, rules and text handling of a side-by-side video player:
//! playback state, video list bookkeeping, recent sessions, window layout,
//! path handling and the command strings sent to the playback engine.

pub mod events;
pub mod ipc;
pub mod launch;
pub mod layout;
pub mod mpv;
pub mod path;
pub mod playback;
pub mod playlist;
pub mod presence;
pub mod recent;
pub mod settings;
pub mod state;
pub mod sync;
pub mod text;
pub mod thumbnail;
pub mod tick;
pub mod video;
