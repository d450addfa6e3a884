//! A loaded video and what the player knows of it.
use vstd::prelude::*;
use crate::path::{file_name, file_name_of};

verus! {

/// A loaded video. `id` is its place in the list of loaded videos; times are whole milliseconds.
#[derive(Debug, Clone)]
pub struct VideoItem {
    pub id: usize,
    pub path: String,
    pub title: String,
    pub duration_ms: u64,
    pub position_ms: u64,
    pub muted: bool,
}

/// The mathematical value of a [`VideoItem`].
pub struct VideoView {
    pub id: usize,
    pub path: Seq<char>,
    pub title: Seq<char>,
    pub duration_ms: u64,
    pub position_ms: u64,
    pub muted: bool,
}

impl View for VideoItem {
    type V = VideoView;

    open spec fn view(&self) -> VideoView {
        VideoView {
            id: self.id,
            path: self.path@,
            title: self.title@,
            duration_ms: self.duration_ms,
            position_ms: self.position_ms,
            muted: self.muted,
        }
    }
}

/// The title of a video: the file name of its path, or `Untitled` where the path has none.
pub open spec fn title_for(path: Seq<char>) -> Seq<char> {
    match file_name(path) {
        Some(n) => n,
        None => "Untitled"@,
    }
}

impl VideoItem {
    /// A freshly loaded video: titled by its file name, at the start, length unknown, muted.
    pub fn new(id: usize, path: String) -> (r: Self)
        ensures
            r.id == id,
            r.path@ == path@,
            r.title@ == title_for(path@),
            r.duration_ms == 0,
            r.position_ms == 0,
            r.muted,
    {
        let title = match file_name_of(path.as_str()) {
            Some(n) => n,
            None => String::from_str("Untitled"),
        };
        VideoItem { id, path, title, duration_ms: 0, position_ms: 0, muted: true }
    }

    /// A copy of the video.
    pub fn duplicate(&self) -> (r: Self)
        ensures
            r@ == self@,
    {
        VideoItem {
            id: self.id,
            path: self.path.clone(),
            title: self.title.clone(),
            duration_ms: self.duration_ms,
            position_ms: self.position_ms,
            muted: self.muted,
        }
    }
}

/// The views of a list of videos.
pub open spec fn videos_view(v: Seq<VideoItem>) -> Seq<VideoView> {
    v.map_values(|x: VideoItem| x@)
}

pub proof fn lemma_videos_view_push(s: Seq<VideoItem>, x: VideoItem)
    ensures
        videos_view(s.push(x)) == videos_view(s).push(x@),
{
    assert(videos_view(s.push(x)) =~= videos_view(s).push(x@));
}

pub proof fn lemma_videos_view_update(s: Seq<VideoItem>, i: int, x: VideoItem)
    requires
        0 <= i < s.len(),
    ensures
        videos_view(s.update(i, x)) == videos_view(s).update(i, x@),
{
    assert(videos_view(s.update(i, x)) =~= videos_view(s).update(i, x@));
}

/// The video with its position set to `p`.
pub open spec fn with_position(v: VideoView, p: u64) -> VideoView {
    VideoView { position_ms: p, ..v }
}

/// The video with its duration set to `d`.
pub open spec fn with_duration(v: VideoView, d: u64) -> VideoView {
    VideoView { duration_ms: d, ..v }
}

/// The video with its id set to `id`.
pub open spec fn with_id(v: VideoView, id: usize) -> VideoView {
    VideoView { id, ..v }
}

/// The video with its mute flag set to `m`.
pub open spec fn with_muted(v: VideoView, m: bool) -> VideoView {
    VideoView { muted: m, ..v }
}

/// Sets the position of `videos[i]` to `p`.
pub fn set_position(videos: &mut Vec<VideoItem>, i: usize, p: u64)
    requires
        i < old(videos).len(),
    ensures
        final(videos)@.len() == old(videos)@.len(),
        videos_view(final(videos)@) == videos_view(old(videos)@).update(
            i as int,
            with_position(old(videos)@[i as int]@, p),
        ),
{
    let mut v = videos[i].duplicate();
    v.position_ms = p;
    proof {
        lemma_videos_view_update(videos@, i as int, v);
    }
    videos.set(i, v);
}

/// Sets the duration of `videos[i]` to `d`.
pub fn set_duration(videos: &mut Vec<VideoItem>, i: usize, d: u64)
    requires
        i < old(videos).len(),
    ensures
        final(videos)@.len() == old(videos)@.len(),
        videos_view(final(videos)@) == videos_view(old(videos)@).update(
            i as int,
            with_duration(old(videos)@[i as int]@, d),
        ),
{
    let mut v = videos[i].duplicate();
    v.duration_ms = d;
    proof {
        lemma_videos_view_update(videos@, i as int, v);
    }
    videos.set(i, v);
}

impl VideoItem {
    /// The engine loaded the video: its length where the engine knows it, at the start,
    /// heard only where it is the master audio.
    pub fn mark_loaded(&mut self, duration_ms: Option<u64>, master_audio_index: Option<usize>)
        ensures
            final(self).id == old(self).id,
            final(self).path@ == old(self).path@,
            final(self).title@ == old(self).title@,
            final(self).duration_ms == match duration_ms {
                Some(d) => d,
                None => old(self).duration_ms,
            },
            final(self).position_ms == 0,
            final(self).muted == (master_audio_index != Some(old(self).id)),
    {
        if let Some(d) = duration_ms {
            self.duration_ms = d;
        }
        self.position_ms = 0;
        self.muted = match master_audio_index {
            Some(m) => m != self.id,
            None => true,
        };
    }
}

} // verus!
