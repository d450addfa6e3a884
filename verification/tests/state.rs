use navplayer::playback::{MultiLayout, PlaybackState, ViewMode};
use navplayer::recent::RecentSession;
use navplayer::state::{
    clock_label, closing_message, loaded_message, speed_label, speed_message,
    startup_status, AppState, FolderOpenOutcome, SPEED_CHOICES,
};
use navplayer::sync::sync_positions;
use navplayer::tick::BackendTick;

fn s(x: &str) -> String {
    x.to_string()
}

fn loaded_state(n: usize) -> AppState {
    let mut st = AppState::default();
    let paths: Vec<String> = (0..n).map(|i| format!("C:\\videos\\clip{i}.mp4")).collect();
    st.load_files(paths);
    st
}

fn empty_tick() -> BackendTick {
    BackendTick {
        anchor_position_ms: None,
        playback_state: None,
        selected_volume: None,
        selected_fullscreen: None,
        selected_render_status: None,
        closed_player_ids: Vec::new(),
    }
}

#[test]
fn default_state() {
    let st = AppState::default();
    assert_eq!(st.view_mode, ViewMode::Single);
    assert_eq!(st.layout, MultiLayout::Horizontal);
    assert!(st.videos.is_empty());
    assert_eq!(st.selected_index, None);
    assert_eq!(st.playback_state, PlaybackState::Stopped);
    assert!(st.sync_enabled);
    assert_eq!(st.speed_percent, 100);
    assert_eq!(st.selected_volume, 100);
    assert_eq!(st.status_message, "Ready");
    assert!(st.recent_sessions.is_empty());
    assert!(st.settings.remember_last_files);
}

#[test]
fn loading_caps_at_four_and_selects_first() {
    let mut st = AppState::default();
    st.shared_position_ms = 9_000;
    st.last_thumbnail_capture_ms = Some(1);
    st.selected_volume = 30;
    st.load_files((0..5).map(|i| format!("v{i}.mp4")).collect());
    assert_eq!(st.videos.len(), 4);
    for (i, v) in st.videos.iter().enumerate() {
        assert_eq!(v.id, i);
        assert_eq!(v.title, format!("v{i}.mp4"));
    }
    assert_eq!(st.selected_index, Some(0));
    assert_eq!(st.master_audio_index, Some(0));
    assert_eq!(st.shared_position_ms, 0);
    assert_eq!(st.selected_volume, 100);
    assert_eq!(st.last_thumbnail_capture_ms, None);
    let mut none = AppState::default();
    none.load_files(Vec::new());
    assert_eq!(none.selected_index, None);
    assert_eq!(none.master_audio_index, None);
}

#[test]
fn visible_counts() {
    let mut st = loaded_state(3);
    assert_eq!(st.visible_video_count(), 1);
    st.set_view_mode(ViewMode::Multi);
    assert_eq!(st.visible_video_count(), 2);
    st.set_layout(MultiLayout::Grid4);
    assert_eq!(st.visible_video_count(), 3);
    let empty = AppState::default();
    assert_eq!(empty.visible_video_count(), 0);
}

#[test]
fn max_duration_and_seek_clamp() {
    let mut st = loaded_state(2);
    assert_eq!(st.max_duration_ms(), 0);
    st.videos[0].duration_ms = 30_000;
    st.videos[1].duration_ms = 45_000;
    assert_eq!(st.max_duration_ms(), 45_000);
    st.seek_to(50_000);
    assert_eq!(st.shared_position_ms, 45_000);
    st.seek_to(12_345);
    assert_eq!(st.shared_position_ms, 12_345);
    st.align_positions_to_shared();
    assert!(st.videos.iter().all(|v| v.position_ms == 12_345));
    st.record_seek(Ok(()), s("Seeked to 12.35s"));
    assert_eq!(st.status_message, "Seeked to 12.35s");
    st.record_seek(Err(s("engine gone")), s("Seeked to 12.35s"));
    assert_eq!(st.status_message, "Playback error: engine gone");
}

#[test]
fn thumbnail_dirs() {
    let st = loaded_state(1);
    assert_eq!(st.current_thumbnail_dir_path(), Some(s("C:\\videos\\thumbnails")));
    assert_eq!(st.current_thumbnail_dir(), Some(s("C:\\videos\\thumbnails")));
    assert_eq!(AppState::default().current_thumbnail_dir_path(), None);
}

#[test]
fn play_pause_stop_results() {
    let mut st = loaded_state(2);
    st.record_play(Ok(()));
    assert_eq!(st.playback_state, PlaybackState::Playing);
    assert_eq!(st.status_message, "Playing");
    st.record_pause(Err(s("boom")));
    assert_eq!(st.playback_state, PlaybackState::Playing);
    assert_eq!(st.status_message, "Playback error: boom");
    st.record_pause(Ok(()));
    assert_eq!(st.playback_state, PlaybackState::Paused);
    st.videos[0].position_ms = 7_000;
    st.shared_position_ms = 7_000;
    st.record_stop(Ok(()));
    assert_eq!(st.playback_state, PlaybackState::Stopped);
    assert_eq!(st.shared_position_ms, 0);
    assert!(st.videos.iter().all(|v| v.position_ms == 0));
    assert_eq!(st.status_message, "Stopped");
}

#[test]
fn removing_before_master_keeps_its_video() {
    let mut st = loaded_state(3);
    st.master_audio_index = Some(1);
    st.remove_players(&vec![0]);
    assert_eq!(st.master_audio_index, Some(0));
    assert_eq!(st.videos[0].title, "clip1.mp4");
    assert_eq!(st.videos.iter().map(|v| v.muted).collect::<Vec<_>>(), vec![false, true]);
}

#[test]
fn multi_view_loads_two() {
    let mut st = AppState::default();
    st.set_view_mode(ViewMode::Multi);
    st.load_files(vec![s("a.mp4"), s("b.mp4"), s("c.mp4")]);
    assert_eq!(st.videos.len(), 2);
    assert_eq!(st.videos[0].path, "a.mp4");
    assert_eq!(st.videos[1].path, "b.mp4");
    assert_eq!(st.videos.iter().map(|v| v.id).collect::<Vec<_>>(), vec![0, 1]);
    assert_eq!(st.selected_index, Some(0));
    assert_eq!(st.master_audio_index, Some(0));
    let mut one = AppState::default();
    one.set_view_mode(ViewMode::Multi);
    one.load_files(vec![s("a.mp4")]);
    assert_eq!(one.videos.len(), 1);
}

#[test]
fn removing_players_renumbers() {
    let mut st = loaded_state(4);
    st.master_audio_index = Some(3);
    st.remove_players(&vec![1]);
    assert_eq!(st.videos.len(), 3);
    assert_eq!(st.videos.iter().map(|v| v.id).collect::<Vec<_>>(), vec![0, 1, 2]);
    assert_eq!(
        st.videos.iter().map(|v| v.title.clone()).collect::<Vec<_>>(),
        vec![s("clip0.mp4"), s("clip2.mp4"), s("clip3.mp4")]
    );
    assert_eq!(st.selected_index, Some(0));
    // The master audio follows clip3 to its new place, and only it is heard.
    assert_eq!(st.master_audio_index, Some(2));
    assert_eq!(st.videos.iter().map(|v| v.muted).collect::<Vec<_>>(), vec![true, true, false]);
    let mut keep_master = loaded_state(3);
    keep_master.master_audio_index = Some(1);
    keep_master.remove_players(&vec![2]);
    assert_eq!(keep_master.master_audio_index, Some(1));
    assert_eq!(keep_master.videos[1].title, "clip1.mp4");
    assert_eq!(keep_master.videos.iter().map(|v| v.muted).collect::<Vec<_>>(), vec![true, false]);
    let mut lost_master = loaded_state(3);
    lost_master.master_audio_index = Some(1);
    lost_master.remove_players(&vec![1]);
    assert_eq!(lost_master.master_audio_index, Some(0));
    assert_eq!(lost_master.videos.iter().map(|v| v.muted).collect::<Vec<_>>(), vec![false, true]);
    let mut gone = loaded_state(2);
    gone.playback_state = PlaybackState::Playing;
    gone.shared_position_ms = 100;
    gone.remove_players(&vec![0, 1]);
    assert!(gone.videos.is_empty());
    assert_eq!(gone.selected_index, None);
    assert_eq!(gone.master_audio_index, None);
    assert_eq!(gone.playback_state, PlaybackState::Stopped);
    assert_eq!(gone.shared_position_ms, 0);
}

#[test]
fn ticks_update_state() {
    let mut st = loaded_state(2);
    let mut t = empty_tick();
    t.anchor_position_ms = Some(4_200);
    t.playback_state = Some(PlaybackState::Playing);
    t.selected_volume = Some(70);
    t.selected_fullscreen = Some(false);
    t.selected_render_status = Some(s("External mpv window mode"));
    t.closed_player_ids = vec![0];
    st.apply_tick(t);
    assert_eq!(st.videos.len(), 1);
    assert_eq!(st.videos[0].title, "clip1.mp4");
    assert_eq!(st.shared_position_ms, 4_200);
    assert_eq!(st.playback_state, PlaybackState::Playing);
    assert_eq!(st.selected_volume, 70);
    assert_eq!(st.status_message, "External mpv window mode");
    let before = st.status_message.clone();
    st.apply_tick(empty_tick());
    assert_eq!(st.status_message, before);
    assert_eq!(st.videos.len(), 1);
}

#[test]
fn automatic_thumbnails() {
    let mut st = loaded_state(1);
    assert!(st.thumbnail_request().is_none());
    st.toggle_auto_thumbnail();
    assert!(st.auto_thumbnail_enabled);
    assert!(st.thumbnail_request().is_none());
    st.playback_state = PlaybackState::Playing;
    st.videos[0].position_ms = 10_000;
    st.videos[0].duration_ms = 60_000;
    let q = st.thumbnail_request().expect("due");
    assert_eq!(q.index, 0);
    assert_eq!(q.position_ms, 10_000);
    assert_eq!(q.dir, "C:\\videos\\thumbnails");
    assert_eq!(q.path, "C:\\videos\\thumbnails\\clip0_00m10s000ms.jpg");
    st.record_thumbnail(10_000, &q.path, Ok(()));
    assert_eq!(st.last_thumbnail_capture_ms, Some(10_000));
    assert_eq!(st.status_message, "Saved thumbnail: C:\\videos\\thumbnails\\clip0_00m10s000ms.jpg");
    st.videos[0].position_ms = 14_999;
    assert!(st.thumbnail_request().is_none());
    st.videos[0].position_ms = 15_000;
    assert!(st.thumbnail_request().is_some());
    st.videos[0].position_ms = 57_000;
    assert!(st.thumbnail_request().is_none());
    st.videos[0].position_ms = 56_999;
    assert!(st.thumbnail_request().is_some());
    st.set_view_mode(ViewMode::Multi);
    assert!(st.thumbnail_request().is_none());
    st.set_view_mode(ViewMode::Single);
    st.record_thumbnail(56_999, "x.jpg", Err(s("disk full")));
    assert!(!st.auto_thumbnail_enabled);
    assert_eq!(st.status_message, "Thumbnail error: disk full");
}

#[test]
fn thumbnail_interval_and_guard_have_floors() {
    let mut st = loaded_state(1);
    st.settings.thumbnail_interval_ms = 0;
    st.settings.thumbnail_guard_ms = 0;
    st.auto_thumbnail_enabled = true;
    st.playback_state = PlaybackState::Playing;
    st.videos[0].duration_ms = 10_000;
    st.videos[0].position_ms = 9_500;
    assert!(st.thumbnail_request().is_none());
    st.videos[0].position_ms = 9_499;
    assert!(st.thumbnail_request().is_some());
    st.last_thumbnail_capture_ms = Some(9_000);
    assert!(st.thumbnail_request().is_none());
}

#[test]
fn selection_and_audio() {
    let mut st = loaded_state(3);
    st.select_video(2);
    assert_eq!(st.selected_index, Some(2));
    assert_eq!(st.master_audio_index, Some(2));
    st.set_view_mode(ViewMode::Multi);
    st.select_video(1);
    assert_eq!(st.selected_index, Some(1));
    assert_eq!(st.master_audio_index, Some(2));
    st.set_master_audio(0);
    assert_eq!(st.master_audio_index, Some(0));
    assert_eq!(st.videos.iter().map(|v| v.muted).collect::<Vec<_>>(), vec![false, true, true]);
    st.master_audio_index = None;
    st.apply_master_mutes();
    assert!(st.videos.iter().all(|v| v.muted));
    st.toggle_sync();
    assert!(!st.sync_enabled);
}

#[test]
fn speed_results() {
    let mut st = AppState::default();
    st.record_speed(125, Ok(()));
    assert_eq!(st.speed_percent, 125);
    assert_eq!(st.status_message, "Speed 1.25x");
    st.record_speed(50, Err(s("x")));
    assert_eq!(st.speed_percent, 50);
    assert_eq!(st.status_message, "Playback error: x");
    assert_eq!(SPEED_CHOICES, [50, 75, 100, 125, 150]);
}

#[test]
fn recent_sessions_in_state() {
    let mut st = AppState::default();
    st.recent_sessions = vec![RecentSession { view_mode: ViewMode::Multi, paths: vec![s("a.mp4"), s("b.mp4")] }];
    assert_eq!(st.take_recent_session(0), Some(vec![s("a.mp4"), s("b.mp4")]));
    assert_eq!(st.view_mode, ViewMode::Multi);
    assert_eq!(st.take_recent_session(1), None);
    st.apply_recent_record(Err(s("read-only")));
    assert_eq!(st.status_message, "Recent files save error: read-only");
    st.apply_recent_record(Ok(Vec::new()));
    assert!(st.recent_sessions.is_empty());
}

#[test]
fn thumbnail_folder_outcomes() {
    let mut st = AppState::default();
    assert_eq!(st.thumbnail_folder_to_open(), None);
    assert_eq!(st.status_message, "Thumbnail folder unavailable");
    let mut one = loaded_state(1);
    assert_eq!(one.thumbnail_folder_to_open(), Some(s("C:\\videos\\thumbnails")));
    one.record_folder_open(FolderOpenOutcome::Opened(s("C:\\videos\\thumbnails")));
    assert_eq!(one.status_message, "Opened thumbnail folder: C:\\videos\\thumbnails");
    one.record_folder_open(FolderOpenOutcome::CreateFailed(s("denied")));
    assert_eq!(one.status_message, "Failed to create thumbnail folder: denied");
    one.record_folder_open(FolderOpenOutcome::OpenFailed(s("no shell")));
    assert_eq!(one.status_message, "Failed to open thumbnail folder: no shell");
}

#[test]
fn messages() {
    assert_eq!(loaded_message(2, "libmpv-window"), "Loaded 2 video(s) via libmpv-window");
    assert_eq!(closing_message(3), "Closing player 3");
    assert_eq!(speed_message(75), "Speed 0.75x");
    assert_eq!(speed_label(150), "1.50x");
    assert_eq!(clock_label(187_000), "03:07");
    assert_eq!(clock_label(6_000_000), "100:00");
    assert_eq!(startup_status("libmpv-window", "config path unavailable"),
        "Backend: libmpv-window | config path unavailable | external mpv window mode");
}

#[test]
fn syncing_positions() {
    let mut st = loaded_state(3);
    st.videos[0].position_ms = 1_000;
    st.videos[1].position_ms = 1_080;
    st.videos[2].position_ms = 5_000;
    st.selected_index = Some(0);
    sync_positions(&mut st);
    assert_eq!(st.shared_position_ms, 1_000);
    assert_eq!(st.videos.iter().map(|v| v.position_ms).collect::<Vec<_>>(), vec![1_000, 1_080, 1_000]);
    st.toggle_sync();
    st.videos[2].position_ms = 9_000;
    st.selected_index = Some(2);
    sync_positions(&mut st);
    assert_eq!(st.shared_position_ms, 9_000);
    assert_eq!(st.videos[0].position_ms, 1_000);
    let mut empty = AppState::default();
    empty.shared_position_ms = 5;
    sync_positions(&mut empty);
    assert_eq!(empty.shared_position_ms, 0);
    let mut unselected = loaded_state(1);
    unselected.selected_index = None;
    unselected.shared_position_ms = 333;
    sync_positions(&mut unselected);
    assert_eq!(unselected.shared_position_ms, 333);
    assert_eq!(unselected.videos[0].position_ms, 333);
}
