//! The application state and the rules that change it: loading videos,
//! recording what the playback engine did, removing closed players, seeking,
//! the automatic thumbnails and the recent sessions.
use vstd::prelude::*;
use crate::playback::{MultiLayout, PlaybackState, ViewMode};
use crate::recent::{clone_strings, sessions_view, strings_view, RecentSession, SessionView};
use crate::settings::AppSettings;
use crate::text::{concat_str, decimal, decimal_string, zero_padded, zero_padded_string};
use crate::thumbnail::{thumbnail_dir, thumbnail_dir_of, thumbnail_file_name, thumbnail_output_path};
use crate::path::{join, parent};
use crate::tick::BackendTick;
use crate::video::{
    lemma_videos_view_push, title_for, videos_view, with_id, with_muted, with_position, VideoItem,
    VideoView,
};

verus! {

/// The most videos that are loaded at once in the single view.
pub const MAX_LOADED_VIDEOS: usize = 4;

/// The most videos that are loaded at once in the multi view, which compares them side by side.
pub const MAX_MULTI_VIDEOS: usize = 2;

/// The most videos that loading keeps in a view mode.
pub open spec fn load_limit(mode: ViewMode) -> nat {
    match mode {
        ViewMode::Single => MAX_LOADED_VIDEOS as nat,
        ViewMode::Multi => MAX_MULTI_VIDEOS as nat,
    }
}

/// Everything the player shows and decides on. Times are whole milliseconds; the speed is a
/// percentage (100 is normal speed); the volume is the engine's volume, rounded.
#[derive(Debug)]
pub struct AppState {
    pub view_mode: ViewMode,
    pub layout: MultiLayout,
    pub videos: Vec<VideoItem>,
    pub selected_index: Option<usize>,
    pub playback_state: PlaybackState,
    pub sync_enabled: bool,
    pub speed_percent: u32,
    pub master_audio_index: Option<usize>,
    pub shared_position_ms: u64,
    pub selected_volume: u64,
    pub selected_fullscreen: bool,
    pub auto_thumbnail_enabled: bool,
    pub last_thumbnail_capture_ms: Option<u64>,
    pub status_message: String,
    pub recent_sessions: Vec<RecentSession>,
    pub settings: AppSettings,
}

/// The mathematical value of an [`AppState`].
pub struct AppStateView {
    pub view_mode: ViewMode,
    pub layout: MultiLayout,
    pub videos: Seq<VideoView>,
    pub selected_index: Option<usize>,
    pub playback_state: PlaybackState,
    pub sync_enabled: bool,
    pub speed_percent: u32,
    pub master_audio_index: Option<usize>,
    pub shared_position_ms: u64,
    pub selected_volume: u64,
    pub selected_fullscreen: bool,
    pub auto_thumbnail_enabled: bool,
    pub last_thumbnail_capture_ms: Option<u64>,
    pub status_message: Seq<char>,
    pub recent_sessions: Seq<SessionView>,
    pub settings: AppSettings,
}

impl View for AppState {
    type V = AppStateView;

    open spec fn view(&self) -> AppStateView {
        AppStateView {
            view_mode: self.view_mode,
            layout: self.layout,
            videos: videos_view(self.videos@),
            selected_index: self.selected_index,
            playback_state: self.playback_state,
            sync_enabled: self.sync_enabled,
            speed_percent: self.speed_percent,
            master_audio_index: self.master_audio_index,
            shared_position_ms: self.shared_position_ms,
            selected_volume: self.selected_volume,
            selected_fullscreen: self.selected_fullscreen,
            auto_thumbnail_enabled: self.auto_thumbnail_enabled,
            last_thumbnail_capture_ms: self.last_thumbnail_capture_ms,
            status_message: self.status_message@,
            recent_sessions: sessions_view(self.recent_sessions@),
            settings: self.settings,
        }
    }
}

// ---------------------------------------------------------------------------
// Specifications
// ---------------------------------------------------------------------------

/// Each video's id is its place in the list.
pub open spec fn ids_consistent(videos: Seq<VideoView>) -> bool {
    forall|i: int| 0 <= i < videos.len() ==> #[trigger] videos[i].id == i
}

/// The longest duration among the videos (0 for none).
pub open spec fn max_duration(videos: Seq<VideoView>) -> u64
    decreases videos.len(),
{
    if videos.len() == 0 {
        0
    } else {
        let m = max_duration(videos.drop_last());
        if videos.last().duration_ms > m {
            videos.last().duration_ms
        } else {
            m
        }
    }
}

/// How many videos are on screen: the selected one in the single view; in the multi view as
/// many as are loaded, up to what the layout holds.
pub open spec fn visible_count(st: AppStateView) -> nat {
    match st.view_mode {
        ViewMode::Single => if st.selected_index is Some { 1 } else { 0 },
        ViewMode::Multi => if st.videos.len() < st.layout.spec_capacity() {
            st.videos.len()
        } else {
            st.layout.spec_capacity()
        },
    }
}

/// The thumbnail folder of the selected video.
pub open spec fn selected_thumbnail_dir(st: AppStateView) -> Option<Seq<char>> {
    match st.selected_index {
        Some(i) => if i < st.videos.len() {
            thumbnail_dir(st.videos[i as int].path)
        } else {
            None
        },
        None => None,
    }
}

/// A freshly loaded video at place `i`.
pub open spec fn fresh_video(i: int, path: Seq<char>) -> VideoView {
    VideoView {
        id: i as usize,
        path,
        title: title_for(path),
        duration_ms: 0,
        position_ms: 0,
        muted: true,
    }
}

/// The state once `paths` are loaded: the first four (two in the multi view) become the
/// videos, the first is selected and heard, everything starts from the beginning.
pub open spec fn loaded(st: AppStateView, paths: Seq<Seq<char>>) -> AppStateView {
    let limit = load_limit(st.view_mode);
    let n = if paths.len() < limit { paths.len() } else { limit };
    let videos = Seq::new(n, |i: int| fresh_video(i, paths[i]));
    let selected = if n > 0 { Some(0usize) } else { None };
    AppStateView {
        videos,
        selected_index: selected,
        master_audio_index: selected,
        shared_position_ms: 0,
        selected_volume: 100,
        selected_fullscreen: false,
        last_thumbnail_capture_ms: None,
        ..st
    }
}

/// The message shown after an engine call: `success`, or `Playback error: ` and the error.
pub open spec fn result_message(result: Result<(), Seq<char>>, success: Seq<char>) -> Seq<char> {
    match result {
        Ok(()) => success,
        Err(e) => "Playback error: "@ + e,
    }
}

pub open spec fn result_view(result: Result<(), String>) -> Result<(), Seq<char>> {
    match result {
        Ok(()) => Ok(()),
        Err(e) => Err(e@),
    }
}

/// The videos of `s` whose id is not among `ids`, in order.
pub open spec fn kept_videos(s: Seq<VideoView>, ids: Seq<usize>) -> Seq<VideoView>
    decreases s.len(),
{
    if s.len() == 0 {
        Seq::empty()
    } else {
        let r = kept_videos(s.drop_last(), ids);
        if ids.contains(s.last().id) {
            r
        } else {
            r.push(s.last())
        }
    }
}

/// The videos numbered again by their place.
pub open spec fn renumbered(s: Seq<VideoView>) -> Seq<VideoView> {
    Seq::new(s.len(), |i: int| with_id(s[i], i as usize))
}

/// Where the master audio goes once the players with `ids` are gone: where the video at its
/// place stays, to that video's new place; where that video went (or no video stood there),
/// to the first video.
pub open spec fn master_after_removal(videos: Seq<VideoView>, master: Option<usize>, ids: Seq<usize>) -> Option<usize> {
    match master {
        Some(a) => if a < videos.len() && !ids.contains(videos[a as int].id) {
            Some(kept_videos(videos.take(a as int), ids).len() as usize)
        } else {
            Some(0usize)
        },
        None => None,
    }
}

/// The state once the players with the given ids are gone: the rest are numbered again, the
/// first is selected, the master audio follows its video to its new place (or moves to the
/// first video where its own went), the mute flags follow the master audio, and with no video
/// left playback stops at the start.
pub open spec fn after_removal(st: AppStateView, ids: Seq<usize>) -> AppStateView {
    let kept = renumbered(kept_videos(st.videos, ids));
    if kept.len() == 0 {
        AppStateView {
            videos: kept,
            selected_index: None,
            master_audio_index: None,
            playback_state: PlaybackState::Stopped,
            shared_position_ms: 0,
            ..st
        }
    } else {
        let master = master_after_removal(st.videos, st.master_audio_index, ids);
        AppStateView {
            videos: with_master_mutes(kept, master),
            selected_index: Some(0usize),
            master_audio_index: master,
            ..st
        }
    }
}

/// The state once an engine frame is taken in.
pub open spec fn after_tick(
    st: AppStateView,
    closed: Seq<usize>,
    anchor: Option<u64>,
    playback: Option<PlaybackState>,
    volume: Option<u64>,
    fullscreen: Option<bool>,
    status: Option<Seq<char>>,
) -> AppStateView {
    let s1 = if closed.len() > 0 { after_removal(st, closed) } else { st };
    AppStateView {
        shared_position_ms: match anchor { Some(a) => a, None => s1.shared_position_ms },
        playback_state: match playback { Some(p) => p, None => s1.playback_state },
        selected_volume: match volume { Some(v) => v, None => s1.selected_volume },
        selected_fullscreen: match fullscreen { Some(f) => f, None => s1.selected_fullscreen },
        status_message: match status { Some(m) => m, None => s1.status_message },
        ..s1
    }
}

/// Every video is heard exactly where it is the master audio.
pub open spec fn with_master_mutes(videos: Seq<VideoView>, master: Option<usize>) -> Seq<VideoView> {
    Seq::new(videos.len(), |i: int| with_muted(videos[i], master != Some(videos[i].id)))
}

/// Every video moved to `p`.
pub open spec fn all_at(videos: Seq<VideoView>, p: u64) -> Seq<VideoView> {
    Seq::new(videos.len(), |i: int| with_position(videos[i], p))
}

/// A speed percentage as a factor with two decimals: `1.25`.
pub open spec fn speed_text(percent: nat) -> Seq<char> {
    decimal(percent / 100) + "."@ + zero_padded(percent % 100, 2)
}

/// The least interval between automatic thumbnails.
pub open spec fn capture_interval(settings: AppSettings) -> u64 {
    if settings.thumbnail_interval_ms > 1000 { settings.thumbnail_interval_ms } else { 1000 }
}

/// How close to its end a video gets no more automatic thumbnails.
pub open spec fn capture_guard(settings: AppSettings) -> u64 {
    if settings.thumbnail_guard_ms > 500 { settings.thumbnail_guard_ms } else { 500 }
}

/// An automatic thumbnail is due: enabled, single view, playing, a selected video that is
/// loaded, not within the guard of its end, the interval passed since the last capture, and a
/// folder to save to.
pub open spec fn thumbnail_due(st: AppStateView) -> bool {
    &&& st.auto_thumbnail_enabled
    &&& st.view_mode == ViewMode::Single
    &&& st.playback_state == PlaybackState::Playing
    &&& st.selected_index is Some
    &&& st.selected_index->0 < st.videos.len()
    &&& {
        let v = st.videos[st.selected_index->0 as int];
        &&& !(v.duration_ms > 0 && v.duration_ms <= v.position_ms + capture_guard(st.settings))
        &&& match st.last_thumbnail_capture_ms {
            Some(l) => v.position_ms >= l + capture_interval(st.settings),
            None => true,
        }
        &&& thumbnail_dir(v.path) is Some
    }
}

/// A frame to capture: which player, at what position, into which folder and file.
pub struct ThumbnailRequest {
    pub index: usize,
    pub position_ms: u64,
    pub dir: String,
    pub path: String,
}

/// How opening the thumbnail folder went.
pub enum FolderOpenOutcome {
    CreateFailed(String),
    Opened(String),
    OpenFailed(String),
}

// ---------------------------------------------------------------------------
// Messages
// ---------------------------------------------------------------------------

/// `Loaded n video(s) via backend`.
pub fn loaded_message(count: usize, backend: &str) -> (s: String)
    ensures
        s@ == "Loaded "@ + decimal(count as nat) + " video(s) via "@ + backend@,
{
    let mut s = String::from_str("Loaded ");
    let n = decimal_string(count as u64);
    s.append(n.as_str());
    s.append(" video(s) via ");
    s.append(backend);
    s
}

/// `Closing player n`.
pub fn closing_message(index: usize) -> (s: String)
    ensures
        s@ == "Closing player "@ + decimal(index as nat),
{
    let n = decimal_string(index as u64);
    concat_str("Closing player ", n.as_str())
}

fn two_decimals(whole: u64, hundredths: u64) -> (s: String)
    requires
        hundredths < 100,
    ensures
        s@ == decimal(whole as nat) + "."@ + zero_padded(hundredths as nat, 2),
{
    let mut s = decimal_string(whole);
    s.append(".");
    let f = zero_padded_string(hundredths, 2);
    s.append(f.as_str());
    s
}

/// `Speed 1.25x`.
pub fn speed_message(percent: u32) -> (s: String)
    ensures
        s@ == "Speed "@ + speed_text(percent as nat) + "x"@,
{
    let t = two_decimals((percent / 100) as u64, (percent % 100) as u64);
    let mut s = concat_str("Speed ", t.as_str());
    s.append("x");
    s
}

/// The speeds offered, as percentages.
pub const SPEED_CHOICES: [u32; 5] = [50, 75, 100, 125, 150];

/// A speed as shown in the speed selector: `1.25x`.
pub fn speed_label(percent: u32) -> (s: String)
    ensures
        s@ == speed_text(percent as nat) + "x"@,
{
    let mut s = two_decimals((percent / 100) as u64, (percent % 100) as u64);
    s.append("x");
    s
}

/// A position as shown beside the seek bar: minutes (at least two digits), `:`, two-digit seconds.
pub open spec fn clock_text(ms: nat) -> Seq<char> {
    zero_padded(ms / 60000, 2) + ":"@ + zero_padded((ms % 60000) / 1000, 2)
}

/// A position as shown beside the seek bar, such as `03:07`.
pub fn clock_label(ms: u64) -> (s: String)
    ensures
        s@ == clock_text(ms as nat),
{
    let mut s = zero_padded_string(ms / 60000, 2);
    s.append(":");
    let sec = zero_padded_string((ms % 60000) / 1000, 2);
    s.append(sec.as_str());
    s
}

/// `Backend: name | config | external mpv window mode`.
pub fn startup_status(backend: &str, config_note: &str) -> (s: String)
    ensures
        s@ == "Backend: "@ + backend@ + " | "@ + config_note@ + " | external mpv window mode"@,
{
    let mut s = concat_str("Backend: ", backend);
    s.append(" | ");
    s.append(config_note);
    s.append(" | external mpv window mode");
    s
}

// ---------------------------------------------------------------------------
// The state and its rules
// ---------------------------------------------------------------------------

impl Default for AppState {
    fn default() -> (r: Self)
        ensures
            r.view_mode == ViewMode::Single,
            r.layout == MultiLayout::Horizontal,
            r.videos@.len() == 0,
            r.selected_index is None,
            r.playback_state == PlaybackState::Stopped,
            r.sync_enabled,
            r.speed_percent == 100,
            r.master_audio_index is None,
            r.shared_position_ms == 0,
            r.selected_volume == 100,
            !r.selected_fullscreen,
            !r.auto_thumbnail_enabled,
            r.last_thumbnail_capture_ms is None,
            r.status_message@ == "Ready"@,
            r.recent_sessions@.len() == 0,
            r.settings.loop_playback == false,
            r.settings.remember_last_files,
            r.settings.thumbnail_interval_ms == 5000,
            r.settings.thumbnail_guard_ms == 3000,
    {
        AppState {
            view_mode: ViewMode::Single,
            layout: MultiLayout::Horizontal,
            videos: Vec::new(),
            selected_index: None,
            playback_state: PlaybackState::Stopped,
            sync_enabled: true,
            speed_percent: 100,
            master_audio_index: None,
            shared_position_ms: 0,
            selected_volume: 100,
            selected_fullscreen: false,
            auto_thumbnail_enabled: false,
            last_thumbnail_capture_ms: None,
            status_message: String::from_str("Ready"),
            recent_sessions: Vec::new(),
            settings: AppSettings::default(),
        }
    }
}

fn id_listed(ids: &Vec<usize>, x: usize) -> (r: bool)
    ensures
        r == ids@.contains(x),
{
    let mut i: usize = 0;
    while i < ids.len()
        invariant
            i <= ids.len(),
            forall|j: int| 0 <= j < i ==> ids@[j] != x,
        decreases ids.len() - i,
    {
        if ids[i] == x {
            assert(ids@[i as int] == x);
            return true;
        }
        i = i + 1;
    }
    false
}

impl AppState {
    /// How many videos are on screen.
    pub fn visible_video_count(&self) -> (r: usize)
        ensures
            r == visible_count(self@),
    {
        match self.view_mode {
            ViewMode::Single => if self.selected_index.is_some() {
                1
            } else {
                0
            },
            ViewMode::Multi => {
                let limit = self.layout.capacity();
                if self.videos.len() < limit {
                    self.videos.len()
                } else {
                    limit
                }
            },
        }
    }

    /// The longest duration among the loaded videos (0 for none).
    pub fn max_duration_ms(&self) -> (r: u64)
        ensures
            r == max_duration(self@.videos),
            forall|i: int| 0 <= i < self@.videos.len() ==> r >= #[trigger] self@.videos[i].duration_ms,
            (self@.videos.len() == 0 && r == 0) || exists|i: int|
                0 <= i < self@.videos.len() && r == #[trigger] self@.videos[i].duration_ms,
    {
        proof {
            lemma_max_duration_is_longest(self@.videos);
        }
        let mut m: u64 = 0;
        let mut i: usize = 0;
        while i < self.videos.len()
            invariant
                i <= self.videos.len(),
                m == max_duration(videos_view(self.videos@).take(i as int)),
            decreases self.videos.len() - i,
        {
            assert(videos_view(self.videos@).take(i + 1).drop_last() =~= videos_view(
                self.videos@,
            ).take(i as int));
            if self.videos[i].duration_ms > m {
                m = self.videos[i].duration_ms;
            }
            i = i + 1;
        }
        assert(videos_view(self.videos@).take(self.videos.len() as int) =~= videos_view(
            self.videos@,
        ));
        m
    }

    /// The folder where thumbnails of the selected video go.
    pub fn current_thumbnail_dir_path(&self) -> (r: Option<String>)
        ensures
            match r {
                Some(d) => selected_thumbnail_dir(self@) == Some(d@),
                None => selected_thumbnail_dir(self@) is None,
            },
    {
        match self.selected_index {
            Some(i) => if i < self.videos.len() {
                thumbnail_dir_of(self.videos[i].path.as_str())
            } else {
                None
            },
            None => None,
        }
    }

    /// The folder where thumbnails of the selected video go, as shown to the user.
    pub fn current_thumbnail_dir(&self) -> (r: Option<String>)
        ensures
            match r {
                Some(d) => selected_thumbnail_dir(self@) == Some(d@),
                None => selected_thumbnail_dir(self@) is None,
            },
    {
        self.current_thumbnail_dir_path()
    }

    /// Loads `paths` (at most the first four, or two in the multi view) as the videos, selects
    /// and hears the first, and starts everything from the beginning.
    pub fn load_files(&mut self, paths: Vec<String>)
        ensures
            final(self)@ == loaded(old(self)@, strings_view(paths@)),
    {
        let limit: usize = match self.view_mode {
            ViewMode::Single => MAX_LOADED_VIDEOS,
            ViewMode::Multi => MAX_MULTI_VIDEOS,
        };
        let n = if paths.len() < limit {
            paths.len()
        } else {
            limit
        };
        let ghost pv = strings_view(paths@);
        let mut videos: Vec<VideoItem> = Vec::new();
        let mut i: usize = 0;
        while i < n
            invariant
                i <= n <= paths.len(),
                pv == strings_view(paths@),
                videos@.len() == i,
                forall|j: int| 0 <= j < i ==> #[trigger] videos@[j]@ == fresh_video(j, pv[j]),
            decreases n - i,
        {
            let v = VideoItem::new(i, paths[i].clone());
            assert(v@ == fresh_video(i as int, pv[i as int]));
            videos.push(v);
            i = i + 1;
        }
        let ghost target = loaded(self@, pv);
        assert(videos_view(videos@) =~= target.videos);
        self.videos = videos;
        self.selected_index = if n > 0 {
            Some(0)
        } else {
            None
        };
        self.master_audio_index = self.selected_index;
        self.shared_position_ms = 0;
        self.selected_volume = 100;
        self.selected_fullscreen = false;
        self.last_thumbnail_capture_ms = None;
    }

    /// Shows `success`, or the error of an engine call.
    pub fn apply_result(&mut self, result: Result<(), String>, success: String)
        ensures
            final(self)@ == (AppStateView {
                status_message: result_message(result_view(result), success@),
                ..old(self)@
            }),
    {
        match result {
            Ok(()) => self.status_message = success,
            Err(e) => self.status_message = concat_str("Playback error: ", e.as_str()),
        }
    }

    /// The engine was asked to play: where it did, playback is on.
    pub fn record_play(&mut self, result: Result<(), String>)
        ensures
            final(self)@ == (AppStateView {
                status_message: result_message(result_view(result), "Playing"@),
                playback_state: if result is Ok {
                    PlaybackState::Playing
                } else {
                    old(self)@.playback_state
                },
                ..old(self)@
            }),
    {
        let ok = result.is_ok();
        self.apply_result(result, String::from_str("Playing"));
        if ok {
            self.playback_state = PlaybackState::Playing;
        }
    }

    /// The engine was asked to pause: where it did, playback is paused.
    pub fn record_pause(&mut self, result: Result<(), String>)
        ensures
            final(self)@ == (AppStateView {
                status_message: result_message(result_view(result), "Paused"@),
                playback_state: if result is Ok {
                    PlaybackState::Paused
                } else {
                    old(self)@.playback_state
                },
                ..old(self)@
            }),
    {
        let ok = result.is_ok();
        self.apply_result(result, String::from_str("Paused"));
        if ok {
            self.playback_state = PlaybackState::Paused;
        }
    }

    /// The engine was asked to stop: every video goes back to the start; where the engine
    /// stopped, playback is stopped.
    pub fn record_stop(&mut self, result: Result<(), String>)
        ensures
            final(self)@ == (AppStateView {
                videos: all_at(old(self)@.videos, 0),
                shared_position_ms: 0,
                status_message: result_message(result_view(result), "Stopped"@),
                playback_state: if result is Ok {
                    PlaybackState::Stopped
                } else {
                    old(self)@.playback_state
                },
                ..old(self)@
            }),
    {
        let ok = result.is_ok();
        self.move_all_to(0);
        self.shared_position_ms = 0;
        self.apply_result(result, String::from_str("Stopped"));
        if ok {
            self.playback_state = PlaybackState::Stopped;
        }
    }

    /// Moves every video to `p`.
    fn move_all_to(&mut self, p: u64)
        ensures
            final(self)@ == (AppStateView { videos: all_at(old(self)@.videos, p), ..old(self)@ }),
    {
        let ghost old_videos = videos_view(self.videos@);
        let mut moved: Vec<VideoItem> = Vec::new();
        let mut i: usize = 0;
        while i < self.videos.len()
            invariant
                i <= self.videos.len(),
                old_videos == videos_view(self.videos@),
                moved@.len() == i,
                forall|j: int| 0 <= j < i ==> #[trigger] moved@[j]@ == with_position(old_videos[j], p),
            decreases self.videos.len() - i,
        {
            let mut v = self.videos[i].duplicate();
            v.position_ms = p;
            moved.push(v);
            i = i + 1;
        }
        assert(videos_view(moved@) =~= all_at(old_videos, p));
        self.videos = moved;
    }

    /// Every video takes the shared position, ready for the engine to seek there.
    pub fn align_positions_to_shared(&mut self)
        ensures
            final(self)@ == (AppStateView {
                videos: all_at(old(self)@.videos, old(self)@.shared_position_ms),
                ..old(self)@
            }),
    {
        let p = self.shared_position_ms;
        self.move_all_to(p);
    }

    /// The engine was asked to seek to the shared position; `success` is the text shown
    /// where it did (`Seeked to 12.34s`, the position in seconds as the caller formats it).
    pub fn record_seek(&mut self, result: Result<(), String>, success: String)
        ensures
            final(self)@ == (AppStateView {
                status_message: result_message(result_view(result), success@),
                ..old(self)@
            }),
    {
        self.apply_result(result, success);
    }

    /// The speed is set to `percent` and the engine was asked to play at it.
    pub fn record_speed(&mut self, percent: u32, result: Result<(), String>)
        ensures
            final(self)@ == (AppStateView {
                speed_percent: percent,
                status_message: result_message(
                    result_view(result),
                    "Speed "@ + speed_text(percent as nat) + "x"@,
                ),
                ..old(self)@
            }),
    {
        self.speed_percent = percent;
        let m = speed_message(percent);
        self.apply_result(result, m);
    }

    /// Every video is heard exactly where it is the master audio.
    pub fn apply_master_mutes(&mut self)
        ensures
            final(self)@ == (AppStateView {
                videos: with_master_mutes(old(self)@.videos, old(self)@.master_audio_index),
                ..old(self)@
            }),
    {
        let ghost old_videos = videos_view(self.videos@);
        let master = self.master_audio_index;
        let mut out: Vec<VideoItem> = Vec::new();
        let mut i: usize = 0;
        while i < self.videos.len()
            invariant
                i <= self.videos.len(),
                old_videos == videos_view(self.videos@),
                master == self.master_audio_index,
                out@.len() == i,
                forall|j: int|
                    0 <= j < i ==> #[trigger] out@[j]@ == with_muted(
                        old_videos[j],
                        master != Some(old_videos[j].id),
                    ),
            decreases self.videos.len() - i,
        {
            let mut v = self.videos[i].duplicate();
            v.muted = match master {
                Some(m) => m != v.id,
                None => true,
            };
            out.push(v);
            i = i + 1;
        }
        assert(videos_view(out@) =~= with_master_mutes(old_videos, master));
        self.videos = out;
    }

    /// Removes the videos whose players are gone, numbers the rest again, lets the master
    /// audio follow its video and the mute flags follow the master audio.
    pub fn remove_players(&mut self, ids: &Vec<usize>)
        ensures
            final(self)@ == after_removal(old(self)@, ids@),
    {
        let ghost old_videos = videos_view(self.videos@);
        let master = self.master_audio_index;
        let mut found: Option<usize> = None;
        let mut kept: Vec<VideoItem> = Vec::new();
        let mut i: usize = 0;
        while i < self.videos.len()
            invariant
                i <= self.videos.len(),
                old_videos == videos_view(self.videos@),
                master == self.master_audio_index,
                videos_view(kept@) == renumbered(kept_videos(old_videos.take(i as int), ids@)),
                found == (match master {
                    Some(a) => if a < i && !ids@.contains(old_videos[a as int].id) {
                        Some(kept_videos(old_videos.take(a as int), ids@).len() as usize)
                    } else {
                        None
                    },
                    None => None,
                }),
            decreases self.videos.len() - i,
        {
            assert(old_videos.take(i + 1).drop_last() =~= old_videos.take(i as int));
            assert(old_videos.take(i + 1).last() == old_videos[i as int]);
            if !id_listed(ids, self.videos[i].id) {
                if master == Some(i) {
                    found = Some(kept.len());
                }
                let mut v = self.videos[i].duplicate();
                v.id = kept.len();
                proof {
                    lemma_videos_view_push(kept@, v);
                    let k = kept_videos(old_videos.take(i as int), ids@);
                    assert(renumbered(k.push(old_videos[i as int])) =~= renumbered(k).push(
                        with_id(old_videos[i as int], k.len() as usize),
                    ));
                }
                kept.push(v);
            }
            i = i + 1;
        }
        assert(old_videos.take(self.videos.len() as int) =~= old_videos);
        let n = kept.len();
        self.videos = kept;
        if n == 0 {
            self.selected_index = None;
            self.master_audio_index = None;
            self.playback_state = PlaybackState::Stopped;
            self.shared_position_ms = 0;
        } else {
            self.selected_index = Some(0);
            self.master_audio_index = match master {
                Some(_) => match found {
                    Some(k) => Some(k),
                    None => Some(0),
                },
                None => None,
            };
            self.apply_master_mutes();
        }
    }

    /// Takes in a frame of the engine: closed players go, and the shared position, playback
    /// state, volume, fullscreen flag and status follow what the engine reported.
    pub fn apply_tick(&mut self, tick: BackendTick)
        ensures
            final(self)@ == after_tick(
                old(self)@,
                tick.closed_player_ids@,
                tick.anchor_position_ms,
                tick.playback_state,
                tick.selected_volume,
                tick.selected_fullscreen,
                match tick.selected_render_status {
                    Some(m) => Some(m@),
                    None => None,
                },
            ),
    {
        if tick.closed_player_ids.len() > 0 {
            self.remove_players(&tick.closed_player_ids);
        }
        if let Some(a) = tick.anchor_position_ms {
            self.shared_position_ms = a;
        }
        if let Some(p) = tick.playback_state {
            self.playback_state = p;
        }
        if let Some(v) = tick.selected_volume {
            self.selected_volume = v;
        }
        if let Some(f) = tick.selected_fullscreen {
            self.selected_fullscreen = f;
        }
        if let Some(m) = tick.selected_render_status {
            self.status_message = m;
        }
    }

    /// The frame to capture as an automatic thumbnail, where one is due.
    pub fn thumbnail_request(&self) -> (r: Option<ThumbnailRequest>)
        ensures
            r is Some <==> thumbnail_due(self@),
            r is Some ==> self.auto_thumbnail_enabled && self.view_mode == ViewMode::Single
                && self.playback_state == PlaybackState::Playing,
            match r {
                Some(q) => {
                    &&& Some(q.index) == self.selected_index
                    &&& q.position_ms == self@.videos[q.index as int].position_ms
                    &&& thumbnail_dir(self@.videos[q.index as int].path) == Some(q.dir@)
                    &&& q.path@ == join(
                        q.dir@,
                        thumbnail_file_name(self@.videos[q.index as int].path, q.position_ms as nat),
                    )
                },
                None => true,
            },
    {
        if !self.auto_thumbnail_enabled || self.view_mode != ViewMode::Single {
            return None;
        }
        if self.playback_state != PlaybackState::Playing {
            return None;
        }
        let index = match self.selected_index {
            Some(i) => i,
            None => return None,
        };
        if index >= self.videos.len() {
            return None;
        }
        let ghost v = self@.videos[index as int];
        assert(v == self.videos@[index as int]@);
        let position = self.videos[index].position_ms;
        let duration = self.videos[index].duration_ms;
        let interval = if self.settings.thumbnail_interval_ms > 1000 {
            self.settings.thumbnail_interval_ms
        } else {
            1000
        };
        let guard = if self.settings.thumbnail_guard_ms > 500 {
            self.settings.thumbnail_guard_ms
        } else {
            500
        };
        if duration > 0 && (duration <= position || duration - position <= guard) {
            return None;
        }
        if let Some(last) = self.last_thumbnail_capture_ms {
            if position < last || position - last < interval {
                return None;
            }
        }
        match thumbnail_output_path(self.videos[index].path.as_str(), position) {
            Some(t) => Some(ThumbnailRequest { index, position_ms: position, dir: t.dir, path: t.path }),
            None => None,
        }
    }

    /// A thumbnail was captured at `position_ms` into `path` (or failed: automatic capture turns off).
    pub fn record_thumbnail(&mut self, position_ms: u64, path: &str, result: Result<(), String>)
        ensures
            final(self)@ == match result {
                Ok(()) => AppStateView {
                    last_thumbnail_capture_ms: Some(position_ms),
                    status_message: "Saved thumbnail: "@ + path@,
                    ..old(self)@
                },
                Err(e) => AppStateView {
                    status_message: "Thumbnail error: "@ + e@,
                    auto_thumbnail_enabled: false,
                    ..old(self)@
                },
            },
    {
        match result {
            Ok(()) => {
                self.last_thumbnail_capture_ms = Some(position_ms);
                self.status_message = concat_str("Saved thumbnail: ", path);
            },
            Err(e) => {
                self.status_message = concat_str("Thumbnail error: ", e.as_str());
                self.auto_thumbnail_enabled = false;
            },
        }
    }

    /// Switches between the single and multi views.
    pub fn set_view_mode(&mut self, mode: ViewMode)
        ensures
            final(self)@ == (AppStateView { view_mode: mode, ..old(self)@ }),
    {
        self.view_mode = mode;
    }

    /// Chooses how the multi view arranges the videos.
    pub fn set_layout(&mut self, layout: MultiLayout)
        ensures
            final(self)@ == (AppStateView { layout, ..old(self)@ }),
    {
        self.layout = layout;
    }

    /// Turns keeping the players together on or off.
    pub fn toggle_sync(&mut self)
        ensures
            final(self)@ == (AppStateView { sync_enabled: !old(self)@.sync_enabled, ..old(self)@ }),
    {
        self.sync_enabled = !self.sync_enabled;
    }

    /// Selects a video; in the single view it also becomes the one heard.
    pub fn select_video(&mut self, index: usize)
        ensures
            final(self)@ == (AppStateView {
                selected_index: Some(index),
                master_audio_index: if old(self)@.view_mode == ViewMode::Single {
                    Some(index)
                } else {
                    old(self)@.master_audio_index
                },
                ..old(self)@
            }),
    {
        self.selected_index = Some(index);
        if self.view_mode == ViewMode::Single {
            self.master_audio_index = Some(index);
        }
    }

    /// Turns automatic thumbnails on or off; the interval starts afresh.
    pub fn toggle_auto_thumbnail(&mut self)
        ensures
            final(self)@ == (AppStateView {
                auto_thumbnail_enabled: !old(self)@.auto_thumbnail_enabled,
                last_thumbnail_capture_ms: None,
                ..old(self)@
            }),
    {
        self.auto_thumbnail_enabled = !self.auto_thumbnail_enabled;
        self.last_thumbnail_capture_ms = None;
    }

    /// Sets the shared position, kept within the longest video.
    pub fn seek_to(&mut self, position_ms: u64)
        ensures
            final(self)@ == (AppStateView {
                shared_position_ms: if position_ms > max_duration(old(self)@.videos) {
                    max_duration(old(self)@.videos)
                } else {
                    position_ms
                },
                ..old(self)@
            }),
            final(self).shared_position_ms <= position_ms,
            forall|k: int|
                0 <= k < old(self)@.videos.len() && position_ms <= #[trigger] old(self)@.videos[k].duration_ms
                    ==> final(self).shared_position_ms == position_ms,
            final(self).shared_position_ms < position_ms ==> (forall|i: int|
                0 <= i < old(self)@.videos.len() ==> final(self).shared_position_ms
                    >= #[trigger] old(self)@.videos[i].duration_ms),
            final(self).shared_position_ms < position_ms ==> ((old(self)@.videos.len() == 0
                && final(self).shared_position_ms == 0) || exists|i: int|
                0 <= i < old(self)@.videos.len() && final(self).shared_position_ms
                    == #[trigger] old(self)@.videos[i].duration_ms),
    {
        proof {
            lemma_max_duration_is_longest(self@.videos);
        }
        let m = self.max_duration_ms();
        self.shared_position_ms = if position_ms > m {
            m
        } else {
            position_ms
        };
    }

    /// Makes the video at `index` the one heard.
    pub fn set_master_audio(&mut self, index: usize)
        ensures
            final(self)@ == (AppStateView {
                master_audio_index: Some(index),
                videos: with_master_mutes(old(self)@.videos, Some(index)),
                ..old(self)@
            }),
    {
        self.master_audio_index = Some(index);
        self.apply_master_mutes();
    }

    /// The files of the recent session at `index`, taking on its view mode; `None` where there is no such session.
    pub fn take_recent_session(&mut self, index: usize) -> (r: Option<Vec<String>>)
        ensures
            index < old(self)@.recent_sessions.len() ==> r is Some && strings_view(r->0@)
                == old(self)@.recent_sessions[index as int].paths && final(self)@ == (AppStateView {
                view_mode: old(self)@.recent_sessions[index as int].view_mode,
                ..old(self)@
            }),
            index >= old(self)@.recent_sessions.len() ==> r is None && final(self)@ == old(self)@,
    {
        if index >= self.recent_sessions.len() {
            return None;
        }
        assert(self@.recent_sessions[index as int] == self.recent_sessions@[index as int]@);
        self.view_mode = self.recent_sessions[index].view_mode;
        Some(clone_strings(&self.recent_sessions[index].paths))
    }

    /// Takes in the recent list after recording a session, or shows why saving it failed.
    pub fn apply_recent_record(&mut self, result: Result<Vec<RecentSession>, String>)
        ensures
            final(self)@ == match result {
                Ok(s) => AppStateView { recent_sessions: sessions_view(s@), ..old(self)@ },
                Err(e) => AppStateView {
                    status_message: "Recent files save error: "@ + e@,
                    ..old(self)@
                },
            },
    {
        match result {
            Ok(s) => self.recent_sessions = s,
            Err(e) => self.status_message = concat_str("Recent files save error: ", e.as_str()),
        }
    }

    /// The thumbnail folder to open; where there is none, says so.
    pub fn thumbnail_folder_to_open(&mut self) -> (r: Option<String>)
        ensures
            match r {
                Some(d) => selected_thumbnail_dir(old(self)@) == Some(d@) && final(self)@ == old(self)@,
                None => selected_thumbnail_dir(old(self)@) is None && final(self)@ == (AppStateView {
                    status_message: "Thumbnail folder unavailable"@,
                    ..old(self)@
                }),
            },
    {
        let d = self.current_thumbnail_dir_path();
        if d.is_none() {
            self.status_message = String::from_str("Thumbnail folder unavailable");
        }
        d
    }

    /// Shows how opening the thumbnail folder went.
    pub fn record_folder_open(&mut self, outcome: FolderOpenOutcome)
        ensures
            final(self)@ == (AppStateView {
                status_message: match outcome {
                    FolderOpenOutcome::CreateFailed(e) => "Failed to create thumbnail folder: "@ + e@,
                    FolderOpenOutcome::Opened(d) => "Opened thumbnail folder: "@ + d@,
                    FolderOpenOutcome::OpenFailed(e) => "Failed to open thumbnail folder: "@ + e@,
                },
                ..old(self)@
            }),
    {
        self.status_message = match outcome {
            FolderOpenOutcome::CreateFailed(e) => concat_str("Failed to create thumbnail folder: ", e.as_str()),
            FolderOpenOutcome::Opened(d) => concat_str("Opened thumbnail folder: ", d.as_str()),
            FolderOpenOutcome::OpenFailed(e) => concat_str("Failed to open thumbnail folder: ", e.as_str()),
        };
    }
}

// ---------------------------------------------------------------------------
// Laws
// ---------------------------------------------------------------------------

proof fn lemma_kept_videos_len(s: Seq<VideoView>, ids: Seq<usize>)
    ensures
        kept_videos(s, ids).len() <= s.len(),
    decreases s.len(),
{
    if s.len() > 0 {
        lemma_kept_videos_len(s.drop_last(), ids);
    }
}

/// The longest duration is at least the duration of every video, and is the duration of one
/// of them (0 where there is none).
pub proof fn lemma_max_duration_is_longest(videos: Seq<VideoView>)
    ensures
        forall|i: int| 0 <= i < videos.len() ==> max_duration(videos) >= #[trigger] videos[i].duration_ms,
        (videos.len() == 0 && max_duration(videos) == 0) || exists|i: int|
            0 <= i < videos.len() && max_duration(videos) == #[trigger] videos[i].duration_ms,
    decreases videos.len(),
{
    if videos.len() > 0 {
        let prev = videos.drop_last();
        lemma_max_duration_is_longest(prev);
        assert forall|i: int| 0 <= i < videos.len() implies max_duration(videos) >= #[trigger] videos[i].duration_ms by {
            if i < videos.len() - 1 {
                assert(videos[i] == prev[i]);
            }
        }
        if videos.last().duration_ms > max_duration(prev) || prev.len() == 0 {
            assert(max_duration(videos) == videos[videos.len() - 1].duration_ms);
        } else {
            let j = choose|j: int| 0 <= j < prev.len() && max_duration(prev) == #[trigger] prev[j].duration_ms;
            assert(max_duration(videos) == videos[j].duration_ms);
        }
    }
}

/// Seeking clamps to the longest video: a position within some video's length is kept as it
/// is, and a position beyond every video's length becomes the longest length.
pub proof fn lemma_seek_clamps_to_longest(videos: Seq<VideoView>, p: u64, k: int)
    requires
        0 <= k < videos.len(),
    ensures
        p <= videos[k].duration_ms ==> (if p > max_duration(videos) { max_duration(videos) } else { p }) == p,
        (forall|i: int| 0 <= i < videos.len() ==> p > #[trigger] videos[i].duration_ms) ==> (if p
            > max_duration(videos) {
            max_duration(videos)
        } else {
            p
        }) == max_duration(videos),
{
    lemma_max_duration_is_longest(videos);
}

/// Automatic thumbnails are taken only in the single view, with the option on, while playing.
pub proof fn lemma_thumbnail_only_while_playing(st: AppStateView)
    ensures
        thumbnail_due(st) ==> st.auto_thumbnail_enabled && st.view_mode == ViewMode::Single
            && st.playback_state == PlaybackState::Playing,
{
}

/// For a selected, loaded video, a thumbnail is due exactly when the option is on, the view
/// is single and playback runs; the video is not within the guard (at least 500 ms) of its
/// known end; at least the interval (at least 1000 ms) passed since the last capture; and the
/// video's path has a parent folder.
pub proof fn lemma_thumbnail_due_exactly(st: AppStateView, i: usize)
    requires
        st.selected_index == Some(i),
        i < st.videos.len(),
    ensures
        thumbnail_due(st) <==> ({
            let v = st.videos[i as int];
            let guard: int = if st.settings.thumbnail_guard_ms > 500 {
                st.settings.thumbnail_guard_ms as int
            } else {
                500
            };
            let interval: int = if st.settings.thumbnail_interval_ms > 1000 {
                st.settings.thumbnail_interval_ms as int
            } else {
                1000
            };
            &&& st.auto_thumbnail_enabled
            &&& st.view_mode == ViewMode::Single
            &&& st.playback_state == PlaybackState::Playing
            &&& (v.duration_ms == 0 || v.duration_ms - v.position_ms > guard)
            &&& (st.last_thumbnail_capture_ms is None || v.position_ms - st.last_thumbnail_capture_ms->0
                >= interval)
            &&& parent(v.path) is Some
        }),
{
}

/// Loading files numbers the videos by their place, and never holds more than four, nor
/// more than two in the multi view.
pub proof fn lemma_loaded_consistent(st: AppStateView, paths: Seq<Seq<char>>)
    ensures
        ids_consistent(loaded(st, paths).videos),
        loaded(st, paths).videos.len() <= MAX_LOADED_VIDEOS,
        st.view_mode == ViewMode::Multi ==> loaded(st, paths).videos.len() <= MAX_MULTI_VIDEOS,
        loaded(st, paths).selected_index is Some ==> loaded(st, paths).selected_index->0 < loaded(st, paths).videos.len(),
{
}

/// The videos kept from a prefix of `s` are a prefix of the videos kept from `s`.
proof fn lemma_kept_prefix(s: Seq<VideoView>, ids: Seq<usize>, j: int)
    requires
        0 <= j <= s.len(),
    ensures
        kept_videos(s.take(j), ids).len() <= kept_videos(s, ids).len(),
        forall|k: int|
            0 <= k < kept_videos(s.take(j), ids).len() ==> kept_videos(s, ids)[k]
                == #[trigger] kept_videos(s.take(j), ids)[k],
    decreases s.len(),
{
    if j == s.len() {
        assert(s.take(j) =~= s);
    } else {
        assert(s.take(j) =~= s.drop_last().take(j));
        lemma_kept_prefix(s.drop_last(), ids, j);
    }
}

/// A kept video stands, among the kept ones, after those kept before it.
proof fn lemma_kept_at(s: Seq<VideoView>, ids: Seq<usize>, a: int)
    requires
        0 <= a < s.len(),
        !ids.contains(s[a].id),
    ensures
        kept_videos(s.take(a), ids).len() < kept_videos(s, ids).len(),
        kept_videos(s, ids)[kept_videos(s.take(a), ids).len() as int] == s[a],
{
    let t = s.take(a + 1);
    assert(t.drop_last() =~= s.take(a));
    assert(t.last() == s[a]);
    assert(kept_videos(t, ids) == kept_videos(s.take(a), ids).push(s[a]));
    lemma_kept_prefix(s, ids, a + 1);
    assert(kept_videos(t, ids)[kept_videos(s.take(a), ids).len() as int] == s[a]);
}

/// After players are removed, the videos are numbered by their place, the selection and the
/// master audio name a loaded video (or nothing where none is left), and with no video left
/// playback is stopped.
pub proof fn lemma_removal_consistent(st: AppStateView, ids: Seq<usize>)
    requires
        st.videos.len() <= usize::MAX,
    ensures
        ids_consistent(after_removal(st, ids).videos),
        after_removal(st, ids).videos.len() <= st.videos.len(),
        after_removal(st, ids).selected_index is Some ==> after_removal(st, ids).selected_index->0
            < after_removal(st, ids).videos.len(),
        after_removal(st, ids).master_audio_index is Some ==> after_removal(st, ids).master_audio_index->0
            < after_removal(st, ids).videos.len(),
        after_removal(st, ids).videos.len() == 0 ==> after_removal(st, ids).playback_state
            == PlaybackState::Stopped,
{
    lemma_kept_videos_len(st.videos, ids);
    let k = kept_videos(st.videos, ids);
    let v = after_removal(st, ids).videos;
    assert forall|i: int| 0 <= i < v.len() implies #[trigger] v[i].id == i by {
        assert(renumbered(k)[i] == with_id(k[i], i as usize));
    }
    if let Some(a) = st.master_audio_index {
        if a < st.videos.len() && !ids.contains(st.videos[a as int].id) {
            lemma_kept_at(st.videos, ids, a as int);
        }
    }
}

/// When players are removed, a master audio whose own video stays still names that video,
/// at its new place; and after every removal exactly the master audio's video is heard.
pub proof fn lemma_removal_follows_master(st: AppStateView, ids: Seq<usize>)
    requires
        ids_consistent(st.videos),
        st.videos.len() <= usize::MAX,
    ensures
        forall|a: usize|
            st.master_audio_index == Some(a) && a < st.videos.len() && !ids.contains(a) ==> {
                let m = after_removal(st, ids).master_audio_index;
                &&& m is Some
                &&& m->0 < after_removal(st, ids).videos.len()
                &&& after_removal(st, ids).videos[m->0 as int] == with_muted(
                    with_id(#[trigger] st.videos[a as int], m->0),
                    false,
                )
            },
        forall|i: int|
            0 <= i < after_removal(st, ids).videos.len() ==> ((
            #[trigger] after_removal(st, ids).videos[i]).muted <==> after_removal(st, ids).master_audio_index
                != Some(i as usize)),
{
    lemma_removal_consistent(st, ids);
    let after = after_removal(st, ids);
    let k = kept_videos(st.videos, ids);
    assert forall|a: usize|
        st.master_audio_index == Some(a) && a < st.videos.len() && !ids.contains(a) implies {
            let m = after.master_audio_index;
            &&& m is Some
            &&& m->0 < after.videos.len()
            &&& after.videos[m->0 as int] == with_muted(with_id(#[trigger] st.videos[a as int], m->0), false)
        } by {
        assert(st.videos[a as int].id == a);
        lemma_kept_at(st.videos, ids, a as int);
        let j = kept_videos(st.videos.take(a as int), ids).len();
        assert(renumbered(k)[j as int] == with_id(k[j as int], j as usize));
    }
    assert forall|i: int| 0 <= i < after.videos.len() implies ((#[trigger] after.videos[i]).muted
        <==> after.master_audio_index != Some(i as usize)) by {
        if k.len() > 0 {
            assert(renumbered(k)[i] == with_id(k[i], i as usize));
        }
    }
}

/// With the videos numbered by their place, at most one video is heard once the mute flags
/// follow the master audio: the master, where it is loaded.
pub proof fn lemma_single_master_audio(videos: Seq<VideoView>, master: Option<usize>)
    requires
        ids_consistent(videos),
    ensures
        forall|i: int, j: int|
            0 <= i < j < videos.len() ==> with_master_mutes(videos, master)[i].muted
                || with_master_mutes(videos, master)[j].muted,
        forall|i: int|
            0 <= i < videos.len() ==> (!with_master_mutes(videos, master)[i].muted <==> master
                == Some(i as usize)),
{
    assert forall|i: int, j: int|
        0 <= i < j < videos.len() implies with_master_mutes(videos, master)[i].muted
            || with_master_mutes(videos, master)[j].muted by {
        assert(videos[i].id == i);
        assert(videos[j].id == j);
    }
    assert forall|i: int| 0 <= i < videos.len() implies (!with_master_mutes(videos, master)[i].muted
        <==> master == Some(i as usize)) by {
        assert(videos[i].id == i);
    }
}

/// The videos shown never outnumber the videos loaded (in the multi view) nor four.
pub proof fn lemma_visible_bounded(st: AppStateView)
    ensures
        visible_count(st) <= 4,
        st.view_mode == ViewMode::Multi ==> visible_count(st) <= st.videos.len(),
{
}

} // verus!
