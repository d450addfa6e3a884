//! One frame of the playback engine: reading back what each player reports,
//! choosing the anchor player, following a pause or resume made in a player
//! window, and pulling the other players to the anchor's position.
use vstd::prelude::*;
use crate::playback::PlaybackState;
use crate::video::{lemma_videos_view_update, set_position, videos_view, with_duration, with_position, VideoItem, VideoView};

verus! {

/// Positions further apart than this many milliseconds are pulled together.
pub const SYNC_TOLERANCE_MS: u64 = 100;

/// What the engine reports of one player in a frame.
///
/// `duration_ms` and `position_ms` are given only where the engine reported a usable value
/// (a finite, positive length; a finite, non-negative position).
#[derive(Debug, Clone, Copy)]
pub struct PlayerReading {
    pub id: usize,
    pub closed: bool,
    pub window_appeared: bool,
    pub duration_ms: Option<u64>,
    pub position_ms: Option<u64>,
    pub volume: Option<u64>,
    pub paused: Option<bool>,
}

/// What a frame of the engine hands back to the application state.
#[derive(Debug)]
pub struct BackendTick {
    pub anchor_position_ms: Option<u64>,
    pub playback_state: Option<PlaybackState>,
    pub selected_volume: Option<u64>,
    pub selected_fullscreen: Option<bool>,
    pub selected_render_status: Option<String>,
    pub closed_player_ids: Vec<usize>,
}

/// What the engine is to do after reading its players, and what it reports.
#[derive(Debug)]
pub struct TickPlan {
    /// Lay the player windows out again (a window appeared).
    pub arrange_windows: bool,
    /// Pause (`Some(true)`) or resume (`Some(false)`) every player.
    pub set_paused: Option<bool>,
    /// Move the player with this id to this position.
    pub seeks: Vec<(usize, u64)>,
    pub tick: BackendTick,
}

/// The player the others follow: the selected one where it is among the players, else the first.
pub open spec fn anchor_id(readings: Seq<PlayerReading>, selected: Option<usize>) -> Option<usize> {
    if selected is Some && exists|i: int| 0 <= i < readings.len() && #[trigger] readings[i].id == selected->0 {
        selected
    } else if readings.len() > 0 {
        Some(readings[0].id)
    } else {
        None
    }
}

/// What is known after reading some players.
pub struct TickScan {
    pub videos: Seq<VideoView>,
    pub closed: Seq<usize>,
    pub anchor: Option<u64>,
    pub volume: Option<u64>,
    pub external: PlaybackState,
    pub arrange: bool,
}

/// The video updated with a reading: length and position where reported.
pub open spec fn read_back(v: VideoView, r: PlayerReading) -> VideoView {
    let v1 = match r.duration_ms {
        Some(d) => with_duration(v, d),
        None => v,
    };
    match r.position_ms {
        Some(p) => with_position(v1, p),
        None => v1,
    }
}

/// Reading one player: a closed one is noted once; an open one updates its video, and the
/// anchor also gives the shared position, the volume and whether playback is paused.
pub open spec fn scan_step(s: TickScan, r: PlayerReading, anchor: Option<usize>) -> TickScan {
    if r.closed {
        TickScan { closed: if s.closed.contains(r.id) { s.closed } else { s.closed.push(r.id) }, ..s }
    } else {
        let arrange = s.arrange || r.window_appeared;
        if r.id < s.videos.len() {
            let v1 = read_back(s.videos[r.id as int], r);
            let videos = s.videos.update(r.id as int, v1);
            if anchor == Some(r.id) {
                TickScan {
                    videos,
                    anchor: Some(v1.position_ms),
                    volume: r.volume,
                    external: match r.paused {
                        Some(true) => PlaybackState::Paused,
                        Some(false) => PlaybackState::Playing,
                        None => s.external,
                    },
                    arrange,
                    ..s
                }
            } else {
                TickScan { videos, arrange, ..s }
            }
        } else {
            TickScan { arrange, ..s }
        }
    }
}

/// Reading the players in order.
pub open spec fn scan(readings: Seq<PlayerReading>, init: TickScan, anchor: Option<usize>) -> TickScan
    decreases readings.len(),
{
    if readings.len() == 0 {
        init
    } else {
        scan_step(scan(readings.drop_last(), init, anchor), readings.last(), anchor)
    }
}

/// The two positions lie more than the tolerance apart.
pub open spec fn far_apart(p: u64, a: u64) -> bool {
    p > a + SYNC_TOLERANCE_MS || a > p + SYNC_TOLERANCE_MS
}

/// Pulling one player toward the anchor position `a`: a player other than the anchor whose
/// video lies too far away is moved there.
pub open spec fn pull_step(
    state: (Seq<VideoView>, Seq<(usize, u64)>),
    id: usize,
    anchor: Option<usize>,
    a: u64,
) -> (Seq<VideoView>, Seq<(usize, u64)>) {
    let (videos, seeks) = state;
    if anchor == Some(id) || id >= videos.len() || !far_apart(videos[id as int].position_ms, a) {
        state
    } else {
        (videos.update(id as int, with_position(videos[id as int], a)), seeks.push((id, a)))
    }
}

/// Pulling the players in order.
pub open spec fn pull_all(
    readings: Seq<PlayerReading>,
    videos: Seq<VideoView>,
    anchor: Option<usize>,
    a: u64,
) -> (Seq<VideoView>, Seq<(usize, u64)>)
    decreases readings.len(),
{
    if readings.len() == 0 {
        (videos, Seq::empty())
    } else {
        pull_step(pull_all(readings.drop_last(), videos, anchor, a), readings.last().id, anchor, a)
    }
}

/// Where reading the players starts: the videos as they are, the closed players reported
/// by their windows, nothing known yet of the anchor, and the playback state as the application has it.
pub open spec fn scan_start(videos: Seq<VideoView>, closed: Seq<usize>, playback_state: PlaybackState) -> TickScan {
    TickScan { videos, closed, anchor: None, volume: None, external: playback_state, arrange: false }
}

fn contains_id(v: &Vec<usize>, x: usize) -> (r: bool)
    ensures
        r == v@.contains(x),
{
    let mut i: usize = 0;
    while i < v.len()
        invariant
            i <= v.len(),
            forall|j: int| 0 <= j < i ==> v@[j] != x,
        decreases v.len() - i,
    {
        if v[i] == x {
            assert(v@[i as int] == x);
            return true;
        }
        i = i + 1;
    }
    false
}

/// The player the others follow: the selected one where it is among the players, else the first.
pub fn choose_anchor(readings: &Vec<PlayerReading>, selected: Option<usize>) -> (r: Option<usize>)
    ensures
        r == anchor_id(readings@, selected),
{
    if let Some(s) = selected {
        let mut i: usize = 0;
        while i < readings.len()
            invariant
                i <= readings.len(),
                selected == Some(s),
                forall|j: int| 0 <= j < i ==> readings@[j].id != s,
            decreases readings.len() - i,
        {
            if readings[i].id == s {
                assert(readings@[i as int].id == s);
                return Some(s);
            }
            i = i + 1;
        }
    }
    if readings.len() > 0 {
        Some(readings[0].id)
    } else {
        None
    }
}

/// Plans one frame of the engine from what its players report (`readings`, in player order),
/// the players whose windows reported a close (`closed_by_window`), and the application state.
/// The videos take the lengths and positions read back, and, where sync is on, the positions
/// the other players are pulled to.
pub fn plan_tick(
    videos: &mut Vec<VideoItem>,
    readings: &Vec<PlayerReading>,
    closed_by_window: Vec<usize>,
    playback_state: PlaybackState,
    selected_index: Option<usize>,
    sync_enabled: bool,
) -> (plan: TickPlan)
    ensures
        ({
            let aid = anchor_id(readings@, selected_index);
            let s = scan(
                readings@,
                scan_start(videos_view(old(videos)@), closed_by_window@, playback_state),
                aid,
            );
            &&& plan.arrange_windows == s.arrange
            &&& plan.set_paused == if s.external != playback_state {
                Some(s.external != PlaybackState::Playing)
            } else {
                None::<bool>
            }
            &&& if sync_enabled && s.anchor is Some {
                (videos_view(final(videos)@), plan.seeks@) == pull_all(
                    readings@,
                    s.videos,
                    aid,
                    s.anchor->0,
                )
            } else {
                videos_view(final(videos)@) == s.videos && plan.seeks@.len() == 0
            }
            &&& plan.tick.anchor_position_ms == s.anchor
            &&& plan.tick.playback_state == Some(s.external)
            &&& plan.tick.selected_volume == s.volume
            &&& plan.tick.selected_fullscreen == Some(false)
            &&& plan.tick.selected_render_status matches Some(m) && m@ == "External mpv window mode"@
            &&& plan.tick.closed_player_ids@ == s.closed
        }),
        plan.arrange_windows == exists|k: int|
            0 <= k < readings@.len() && !(#[trigger] readings@[k]).closed && readings@[k].window_appeared,
        final(videos)@.len() == old(videos)@.len(),
        forall|x: usize|
            #[trigger] plan.tick.closed_player_ids@.contains(x) <==> (closed_by_window@.contains(x)
                || exists|k: int| 0 <= k < readings@.len() && readings@[k].closed && readings@[k].id == x),
        forall|k: int|
            0 <= k < readings@.len() && !(#[trigger] readings@[k]).closed && anchor_id(readings@, selected_index)
                == Some(readings@[k].id) && readings@[k].id < old(videos)@.len() && (forall|j: int|
                k < j < readings@.len() && readings@[j].id == readings@[k].id ==> readings@[j].closed) ==> {
                &&& plan.tick.anchor_position_ms is Some
                &&& plan.tick.selected_volume == readings@[k].volume
                &&& (readings@[k].position_ms is Some ==> plan.tick.anchor_position_ms == readings@[k].position_ms)
                &&& (readings@[k].paused == Some(true) ==> plan.tick.playback_state == Some(PlaybackState::Paused))
                &&& (readings@[k].paused == Some(false) ==> plan.tick.playback_state == Some(PlaybackState::Playing))
            },
        forall|k: int|
            0 <= k < readings@.len() && !(#[trigger] readings@[k]).closed && readings@[k].id < old(videos)@.len()
                && readings@[k].duration_ms is Some && (forall|j: int|
                k < j < readings@.len() && readings@[j].id == readings@[k].id && !readings@[j].closed
                    ==> readings@[j].duration_ms is None) ==> final(videos)@[readings@[k].id as int].duration_ms
                == readings@[k].duration_ms->0,
{
    let aid = choose_anchor(readings, selected_index);
    let ghost init = scan_start(videos_view(videos@), closed_by_window@, playback_state);
    let mut closed = closed_by_window;
    let mut anchor: Option<u64> = None;
    let mut volume: Option<u64> = None;
    let mut external = playback_state;
    let mut arrange = false;
    let mut i: usize = 0;
    while i < readings.len()
        invariant
            i <= readings.len(),
            aid == anchor_id(readings@, selected_index),
            scan(readings@.take(i as int), init, aid) == (TickScan {
                videos: videos_view(videos@),
                closed: closed@,
                anchor,
                volume,
                external,
                arrange,
            }),
        decreases readings.len() - i,
    {
        assert(readings@.take(i + 1).drop_last() =~= readings@.take(i as int));
        let r = readings[i];
        if r.closed {
            if !contains_id(&closed, r.id) {
                closed.push(r.id);
            }
        } else {
            arrange = arrange || r.window_appeared;
            if r.id < videos.len() {
                let mut v1 = videos[r.id].duplicate();
                if let Some(d) = r.duration_ms {
                    v1.duration_ms = d;
                }
                if let Some(p) = r.position_ms {
                    v1.position_ms = p;
                }
                assert(v1@ == read_back(videos@[r.id as int]@, r));
                let pos = v1.position_ms;
                proof {
                    lemma_videos_view_update(videos@, r.id as int, v1);
                }
                videos.set(r.id, v1);
                if aid == Some(r.id) {
                    anchor = Some(pos);
                    volume = r.volume;
                    match r.paused {
                        Some(true) => external = PlaybackState::Paused,
                        Some(false) => external = PlaybackState::Playing,
                        None => {},
                    }
                }
            }
        }
        i = i + 1;
    }
    assert(readings@.take(readings.len() as int) =~= readings@);
    let ghost scanned = videos_view(videos@);
    let set_paused = if external != playback_state {
        Some(external != PlaybackState::Playing)
    } else {
        None
    };
    let mut seeks: Vec<(usize, u64)> = Vec::new();
    if sync_enabled {
        if let Some(a) = anchor {
            let mut j: usize = 0;
            while j < readings.len()
                invariant
                    j <= readings.len(),
                    pull_all(readings@.take(j as int), scanned, aid, a) == (videos_view(videos@), seeks@),
                decreases readings.len() - j,
            {
                assert(readings@.take(j + 1).drop_last() =~= readings@.take(j as int));
                let id = readings[j].id;
                if aid != Some(id) && id < videos.len() {
                    let p = videos[id].position_ms;
                    if p > a && p - a > SYNC_TOLERANCE_MS || a > p && a - p > SYNC_TOLERANCE_MS {
                        set_position(videos, id, a);
                        seeks.push((id, a));
                    }
                }
                j = j + 1;
            }
            assert(readings@.take(readings.len() as int) =~= readings@);
        }
    }
    proof {
        lemma_scan_arrange(readings@, init, aid);
        lemma_scan_len(readings@, init, aid);
        lemma_scan_durations(readings@, init, aid);
        assert forall|x: usize|
            #[trigger] closed@.contains(x) <==> (init.closed.contains(x) || exists|k: int|
                0 <= k < readings@.len() && readings@[k].closed && readings@[k].id == x) by {
            lemma_scan_closed(readings@, init, aid);
            assert(scan(readings@, init, aid).closed == closed@);
            assert(scan(readings@, init, aid).closed.contains(x) == closed@.contains(x));
        }
        assert(forall|k: int|
            0 <= k < readings@.len() && !(#[trigger] readings@[k]).closed && aid == Some(readings@[k].id)
                && readings@[k].id < init.videos.len() && (forall|j: int|
                k < j < readings@.len() && readings@[j].id == readings@[k].id ==> readings@[j].closed) ==> {
                &&& anchor is Some
                &&& volume == readings@[k].volume
                &&& (readings@[k].position_ms is Some ==> anchor == readings@[k].position_ms)
                &&& (readings@[k].paused == Some(true) ==> external == PlaybackState::Paused)
                &&& (readings@[k].paused == Some(false) ==> external == PlaybackState::Playing)
            }) by {
            lemma_scan_anchor(readings@, init, aid);
        }
        if sync_enabled && anchor is Some {
            lemma_pull_keeps_durations(readings@, scanned, aid, anchor->0);
        }
        assert(scanned == scan(readings@, init, aid).videos);
        assert(init.videos.len() == scanned.len());
        assert forall|i: int| 0 <= i < scanned.len() implies (#[trigger] videos@[i])@.duration_ms
            == scanned[i].duration_ms by {
            assert(videos_view(videos@)[i] == videos@[i]@);
        }
    }
    let status = String::from_str("External mpv window mode");
    TickPlan {
        arrange_windows: arrange,
        set_paused,
        seeks,
        tick: BackendTick {
            anchor_position_ms: anchor,
            playback_state: Some(external),
            selected_volume: volume,
            selected_fullscreen: Some(false),
            selected_render_status: Some(status),
            closed_player_ids: closed,
        },
    }
}

/// The windows are laid out again exactly when some open player's window appeared.
pub proof fn lemma_scan_arrange(readings: Seq<PlayerReading>, init: TickScan, anchor: Option<usize>)
    ensures
        scan(readings, init, anchor).arrange == (init.arrange || exists|k: int|
            0 <= k < readings.len() && !(#[trigger] readings[k]).closed && readings[k].window_appeared),
    decreases readings.len(),
{
    if readings.len() > 0 {
        let prev = readings.drop_last();
        lemma_scan_arrange(prev, init, anchor);
        let last = readings.len() - 1;
        if exists|k: int| 0 <= k < prev.len() && !(#[trigger] prev[k]).closed && prev[k].window_appeared {
            let k = choose|k: int| 0 <= k < prev.len() && !(#[trigger] prev[k]).closed && prev[k].window_appeared;
            assert(readings[k] == prev[k]);
        }
        if exists|k: int| 0 <= k < readings.len() && !(#[trigger] readings[k]).closed && readings[k].window_appeared {
            let k = choose|k: int|
                0 <= k < readings.len() && !(#[trigger] readings[k]).closed && readings[k].window_appeared;
            if k < last {
                assert(prev[k] == readings[k]);
            }
        }
    }
}

/// Reading the players changes no video's place: the list keeps its length.
pub proof fn lemma_scan_len(readings: Seq<PlayerReading>, init: TickScan, anchor: Option<usize>)
    ensures
        scan(readings, init, anchor).videos.len() == init.videos.len(),
    decreases readings.len(),
{
    if readings.len() > 0 {
        lemma_scan_len(readings.drop_last(), init, anchor);
    }
}

/// Every open player's reported length is stored on its video: after reading the players, a
/// video holds the length given by the last open reading of its player that gave one.
pub proof fn lemma_scan_durations(readings: Seq<PlayerReading>, init: TickScan, anchor: Option<usize>)
    ensures
        forall|k: int|
            0 <= k < readings.len() && !(#[trigger] readings[k]).closed && readings[k].id < init.videos.len()
                && readings[k].duration_ms is Some && (forall|j: int|
                k < j < readings.len() && readings[j].id == readings[k].id && !readings[j].closed
                    ==> readings[j].duration_ms is None) ==> scan(readings, init, anchor).videos[readings[k].id as int].duration_ms
                == readings[k].duration_ms->0,
    decreases readings.len(),
{
    if readings.len() > 0 {
        let prev = readings.drop_last();
        lemma_scan_durations(prev, init, anchor);
        lemma_scan_len(prev, init, anchor);
        let before = scan(prev, init, anchor);
        let after = scan(readings, init, anchor);
        let r = readings.last();
        assert forall|k: int|
            0 <= k < readings.len() && !(#[trigger] readings[k]).closed && readings[k].id < init.videos.len()
                && readings[k].duration_ms is Some && (forall|j: int|
                k < j < readings.len() && readings[j].id == readings[k].id && !readings[j].closed
                    ==> readings[j].duration_ms is None) implies after.videos[readings[k].id as int].duration_ms
            == readings[k].duration_ms->0 by {
            if k < readings.len() - 1 {
                assert(prev[k] == readings[k]);
                assert forall|j: int|
                    k < j < prev.len() && prev[j].id == prev[k].id && !prev[j].closed implies prev[j].duration_ms is None by {
                    assert(prev[j] == readings[j]);
                }
                let lj = readings.len() - 1;
                if r.id == readings[k].id && !r.closed {
                    assert(readings[lj] == r);
                }
            }
        }
    }
}

/// The closed players reported are those the windows reported, and every player read as closed.
pub proof fn lemma_scan_closed(readings: Seq<PlayerReading>, init: TickScan, anchor: Option<usize>)
    ensures
        forall|x: usize|
            #[trigger] scan(readings, init, anchor).closed.contains(x) <==> (init.closed.contains(x)
                || exists|k: int| 0 <= k < readings.len() && readings[k].closed && readings[k].id == x),
    decreases readings.len(),
{
    if readings.len() > 0 {
        let prev = readings.drop_last();
        lemma_scan_closed(prev, init, anchor);
        let before = scan(prev, init, anchor);
        let after = scan(readings, init, anchor);
        let r = readings.last();
        assert forall|x: usize| #[trigger] after.closed.contains(x) <==> (init.closed.contains(x)
            || exists|k: int| 0 <= k < readings.len() && readings[k].closed && readings[k].id == x) by {
            if exists|k: int| 0 <= k < prev.len() && prev[k].closed && prev[k].id == x {
                let k = choose|k: int| 0 <= k < prev.len() && prev[k].closed && prev[k].id == x;
                assert(readings[k] == prev[k]);
            }
            if exists|k: int| 0 <= k < readings.len() && readings[k].closed && readings[k].id == x {
                let k = choose|k: int| 0 <= k < readings.len() && readings[k].closed && readings[k].id == x;
                if k < readings.len() - 1 {
                    assert(prev[k] == readings[k]);
                } else {
                    assert(readings[k] == r);
                }
            }
            if r.closed {
                if !before.closed.contains(r.id) {
                    assert(after.closed == before.closed.push(r.id));
                    if before.closed.contains(x) {
                        let i = choose|i: int| 0 <= i < before.closed.len() && before.closed[i] == x;
                        assert(after.closed[i] == x);
                    }
                    if x == r.id {
                        assert(after.closed[after.closed.len() - 1] == x);
                    }
                    if after.closed.contains(x) && x != r.id {
                        let i = choose|i: int| 0 <= i < after.closed.len() && after.closed[i] == x;
                        assert(before.closed[i] == x);
                    }
                }
            }
        }
    }
}

/// The anchor player decides what the frame reports: after its last open reading, the shared
/// position is the position it read (where it read one), the volume is the volume it read, and
/// playback is paused or playing as it read; where it has no open reading for a loaded video,
/// nothing of that is changed.
pub proof fn lemma_scan_anchor(readings: Seq<PlayerReading>, init: TickScan, anchor: Option<usize>)
    ensures
        (forall|k: int|
            0 <= k < readings.len() ==> !(!(#[trigger] readings[k]).closed && anchor == Some(readings[k].id)
                && readings[k].id < init.videos.len())) ==> {
            let s = scan(readings, init, anchor);
            s.anchor == init.anchor && s.volume == init.volume && s.external == init.external
        },
        forall|k: int|
            0 <= k < readings.len() && !(#[trigger] readings[k]).closed && anchor == Some(readings[k].id)
                && readings[k].id < init.videos.len() && (forall|j: int|
                k < j < readings.len() && readings[j].id == readings[k].id ==> readings[j].closed) ==> {
                let s = scan(readings, init, anchor);
                &&& s.anchor is Some
                &&& s.volume == readings[k].volume
                &&& (readings[k].position_ms is Some ==> s.anchor == readings[k].position_ms)
                &&& (readings[k].paused == Some(true) ==> s.external == PlaybackState::Paused)
                &&& (readings[k].paused == Some(false) ==> s.external == PlaybackState::Playing)
            },
    decreases readings.len(),
{
    if readings.len() > 0 {
        let prev = readings.drop_last();
        lemma_scan_anchor(prev, init, anchor);
        lemma_scan_len(prev, init, anchor);
        let r = readings.last();
        let lj = readings.len() - 1;
        assert(readings[lj] == r);
        if forall|k: int|
            0 <= k < readings.len() ==> !(!(#[trigger] readings[k]).closed && anchor == Some(readings[k].id)
                && readings[k].id < init.videos.len()) {
            assert forall|k: int|
                0 <= k < prev.len() implies !(!(#[trigger] prev[k]).closed && anchor == Some(prev[k].id)
                    && prev[k].id < init.videos.len()) by {
                assert(prev[k] == readings[k]);
            }
        }
        assert forall|k: int|
            0 <= k < readings.len() && !(#[trigger] readings[k]).closed && anchor == Some(readings[k].id)
                && readings[k].id < init.videos.len() && (forall|j: int|
                k < j < readings.len() && readings[j].id == readings[k].id ==> readings[j].closed) implies {
                let s = scan(readings, init, anchor);
                &&& s.anchor is Some
                &&& s.volume == readings[k].volume
                &&& (readings[k].position_ms is Some ==> s.anchor == readings[k].position_ms)
                &&& (readings[k].paused == Some(true) ==> s.external == PlaybackState::Paused)
                &&& (readings[k].paused == Some(false) ==> s.external == PlaybackState::Playing)
            } by {
            if k < lj {
                assert(prev[k] == readings[k]);
                assert forall|j: int| k < j < prev.len() && prev[j].id == prev[k].id implies prev[j].closed by {
                    assert(prev[j] == readings[j]);
                }
            }
        }
    }
}

/// Pulling players together moves positions only: every video keeps its length.
pub proof fn lemma_pull_keeps_durations(
    readings: Seq<PlayerReading>,
    videos: Seq<VideoView>,
    anchor: Option<usize>,
    a: u64,
)
    ensures
        pull_all(readings, videos, anchor, a).0.len() == videos.len(),
        forall|i: int|
            0 <= i < videos.len() ==> (#[trigger] pull_all(readings, videos, anchor, a).0[i]).duration_ms
                == videos[i].duration_ms,
    decreases readings.len(),
{
    if readings.len() > 0 {
        lemma_pull_keeps_durations(readings.drop_last(), videos, anchor, a);
    }
}

/// Once the players are pulled together, every player other than the anchor whose video is
/// known lies within the tolerance of the anchor position.
pub proof fn lemma_pulled_within_tolerance(
    readings: Seq<PlayerReading>,
    videos: Seq<VideoView>,
    anchor: Option<usize>,
    a: u64,
)
    ensures
        pull_all(readings, videos, anchor, a).0.len() == videos.len(),
        forall|k: int|
            0 <= k < readings.len() && anchor != Some(#[trigger] readings[k].id) && readings[k].id
                < videos.len() ==> !far_apart(
                pull_all(readings, videos, anchor, a).0[readings[k].id as int].position_ms,
                a,
            ),
    decreases readings.len(),
{
    if readings.len() > 0 {
        let prev = readings.drop_last();
        lemma_pulled_within_tolerance(prev, videos, anchor, a);
        let before = pull_all(prev, videos, anchor, a);
        let after = pull_all(readings, videos, anchor, a);
        assert forall|k: int|
            0 <= k < readings.len() && anchor != Some(#[trigger] readings[k].id) && readings[k].id
                < videos.len() implies !far_apart(after.0[readings[k].id as int].position_ms, a) by {
            if k < readings.len() - 1 {
                assert(prev[k] == readings[k]);
            }
        }
    }
}

} // verus!
