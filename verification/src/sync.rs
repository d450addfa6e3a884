//! Keeping the positions of the loaded videos together in the application state.
use vstd::prelude::*;
use crate::state::{AppState, AppStateView};
use crate::tick::{far_apart, SYNC_TOLERANCE_MS};
use crate::video::{videos_view, with_position, VideoItem, VideoView};

verus! {

/// The position the others follow: the selected video's, else the shared position.
pub open spec fn sync_anchor(st: AppStateView) -> u64 {
    match st.selected_index {
        Some(i) => if i < st.videos.len() {
            st.videos[i as int].position_ms
        } else {
            st.shared_position_ms
        },
        None => st.shared_position_ms,
    }
}

/// Every video further than the tolerance from `a` moves to `a`.
pub open spec fn pulled_to(videos: Seq<VideoView>, a: u64) -> Seq<VideoView> {
    Seq::new(
        videos.len(),
        |i: int| if far_apart(videos[i].position_ms, a) { with_position(videos[i], a) } else { videos[i] },
    )
}

/// The state once positions are synced: with no video the shared position is 0; otherwise it
/// is the anchor's, and with sync on every video far from it moves to it.
pub open spec fn synced_positions(st: AppStateView) -> AppStateView {
    if st.videos.len() == 0 {
        AppStateView { shared_position_ms: 0, ..st }
    } else if st.sync_enabled {
        AppStateView {
            videos: pulled_to(st.videos, sync_anchor(st)),
            shared_position_ms: sync_anchor(st),
            ..st
        }
    } else {
        AppStateView { shared_position_ms: sync_anchor(st), ..st }
    }
}

/// Brings the shared position and, with sync on, the videos' positions together.
pub fn sync_positions(state: &mut AppState)
    ensures
        final(state)@ == synced_positions(old(state)@),
{
    if state.videos.len() == 0 {
        state.shared_position_ms = 0;
        return;
    }
    let anchor = match state.selected_index {
        Some(i) => if i < state.videos.len() {
            state.videos[i].position_ms
        } else {
            state.shared_position_ms
        },
        None => state.shared_position_ms,
    };
    assert(anchor == sync_anchor(state@));
    if state.sync_enabled {
        let ghost old_videos = videos_view(state.videos@);
        let mut out: Vec<VideoItem> = Vec::new();
        let mut i: usize = 0;
        while i < state.videos.len()
            invariant
                i <= state.videos.len(),
                old_videos == videos_view(state.videos@),
                out@.len() == i,
                forall|j: int| 0 <= j < i ==> #[trigger] out@[j]@ == pulled_to(old_videos, anchor)[j],
            decreases state.videos.len() - i,
        {
            let mut v = state.videos[i].duplicate();
            let p = v.position_ms;
            if p > anchor && p - anchor > SYNC_TOLERANCE_MS || anchor > p && anchor - p > SYNC_TOLERANCE_MS {
                v.position_ms = anchor;
            }
            out.push(v);
            i = i + 1;
        }
        assert(videos_view(out@) =~= pulled_to(old_videos, anchor));
        state.videos = out;
    }
    state.shared_position_ms = anchor;
}

/// After syncing with sync on, no video lies further than the tolerance from the shared position.
pub proof fn lemma_synced_within_tolerance(st: AppStateView)
    requires
        st.sync_enabled,
    ensures
        forall|i: int|
            0 <= i < synced_positions(st).videos.len() ==> !far_apart(
                #[trigger] synced_positions(st).videos[i].position_ms,
                synced_positions(st).shared_position_ms,
            ),
{
}

} // verus!
