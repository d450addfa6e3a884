use navplayer::path::parent_of;
use navplayer::layout::{tile_cell, tile_grid, window_placements, WindowPlacement};
use navplayer::mpv::{
    backend_name, drain_closed_player_ids, library_candidates, load_script_command,
    player_window_title, playlist_load_commands, quit_command, quote_for_mpv_command,
    render_handle, screenshot_command, sorted_unique_ids,
};
use navplayer::playback::{MultiLayout, PlaybackState};
use navplayer::thumbnail::{format_thumbnail_timestamp, sanitize_filename, thumbnail_dir_of, thumbnail_output_path};
use navplayer::tick::{plan_tick, PlayerReading};
use navplayer::video::VideoItem;

fn s(x: &str) -> String {
    x.to_string()
}

#[test]
fn quoting() {
    assert_eq!(quote_for_mpv_command("C:\\a \"b\""), "\"C:\\\\a \\\"b\\\"\"");
    assert_eq!(quote_for_mpv_command(""), "\"\"");
    assert_eq!(quote_for_mpv_command("plain"), "\"plain\"");
}

#[test]
fn engine_commands() {
    assert_eq!(load_script_command("C:\\t\\s.lua"), "load-script \"C:\\\\t\\\\s.lua\"");
    assert_eq!(screenshot_command("a.jpg"), "screenshot-to-file \"a.jpg\" video");
    assert_eq!(quit_command(), "quit 0");
    assert_eq!(player_window_title(3), "naVPlayer-mpv-3");
    assert_eq!(backend_name(), "libmpv-window");
    assert!(render_handle(0).is_none());
}

#[test]
fn playlist_commands_start_at_opened_file() {
    let playlist = vec![s("C:/v/a.mp4"), s("C:/v/b.mp4"), s("C:/v/c.mp4")];
    assert_eq!(
        playlist_load_commands(&playlist, "C:\\v\\b.mp4"),
        vec![
            s("loadfile \"C:/v/a.mp4\" replace"),
            s("loadfile \"C:/v/b.mp4\" append"),
            s("loadfile \"C:/v/c.mp4\" append"),
            s("playlist-play-index 1"),
        ]
    );
    assert_eq!(
        playlist_load_commands(&playlist, "C:/v/a.mp4"),
        vec![
            s("loadfile \"C:/v/a.mp4\" replace"),
            s("loadfile \"C:/v/b.mp4\" append"),
            s("loadfile \"C:/v/c.mp4\" append"),
        ]
    );
    assert_eq!(playlist_load_commands(&vec![s("x.mp4")], "y.mp4"), vec![s("loadfile \"x.mp4\" replace")]);
}

#[test]
fn closed_ids_drained_sorted_once() {
    let mut pending = vec![3, 1, 3, 2, 1];
    assert_eq!(drain_closed_player_ids(&mut pending), vec![1, 2, 3]);
    assert!(pending.is_empty());
    assert!(drain_closed_player_ids(&mut pending).is_empty());
    assert_eq!(sorted_unique_ids(&vec![5, 0, 5]), vec![0, 5]);
}

#[test]
fn library_candidate_order() {
    assert_eq!(
        library_candidates(Some(s("D:\\mpv\\custom.dll"))),
        vec![s("D:\\mpv\\custom.dll"), s("mpv-2.dll"), s("libmpv-2.dll"), s("mpv-1.dll"), s("mpv.dll")]
    );
    assert_eq!(library_candidates(None).len(), 4);
}

#[test]
fn timestamps() {
    assert_eq!(format_thumbnail_timestamp(65_250), "01m05s250ms");
    assert_eq!(format_thumbnail_timestamp(0), "00m00s000ms");
    assert_eq!(format_thumbnail_timestamp(3_723_004), "62m03s004ms");
    assert_eq!(format_thumbnail_timestamp(6_000_000), "100m00s000ms");
}

#[test]
fn sanitizing() {
    assert_eq!(sanitize_filename("a<b>c:d\"e/f\\g|h?i*j"), "a_b_c_d_e_f_g_h_i_j");
    assert_eq!(sanitize_filename("  ..name.. "), "name");
    assert_eq!(sanitize_filename(". a"), " a");
    assert_eq!(sanitize_filename("\u{3000}clip\t"), "clip");
    assert_eq!(sanitize_filename("..."), "");
    assert_eq!(sanitize_filename("plain"), "plain");
}

#[test]
fn thumbnail_paths() {
    let t = thumbnail_output_path("C:\\videos\\clip.mp4", 65_250).expect("has a folder");
    assert_eq!(t.dir, "C:\\videos\\thumbnails");
    assert_eq!(t.path, "C:\\videos\\thumbnails\\clip_01m05s250ms.jpg");
    let odd = thumbnail_output_path("C:/v/my:clip.final.mov", 0).expect("has a folder");
    assert_eq!(odd.path, "C:/v\\thumbnails\\my_clip.final_00m00s000ms.jpg");
    let bare = thumbnail_output_path("clip.mp4", 1000).expect("relative parent");
    assert_eq!(bare.dir, "thumbnails");
    assert_eq!(bare.path, "thumbnails\\clip_00m01s000ms.jpg");
    assert!(thumbnail_output_path("C:\\", 0).is_none());
    assert_eq!(thumbnail_dir_of("C:\\a.mp4"), Some(s("C:\\thumbnails")));
}

#[test]
fn thumbnails_land_in_their_folder() {
    for (video, at) in [("C:\\videos\\clip.mp4", 65_250u64), ("C:/v/my:clip.final.mov", 0), ("clip.mp4", 1000), ("D:\\x\\.hidden", 7)] {
        let t = thumbnail_output_path(video, at).expect("has a folder");
        assert_eq!(parent_of(&t.path), Some(t.dir.clone()));
        assert_eq!(thumbnail_dir_of(video), Some(t.dir));
    }
}

#[test]
fn tile_grids() {
    assert!(tile_grid(0, MultiLayout::Grid2).is_none());
    let g = tile_grid(3, MultiLayout::Grid2).unwrap();
    assert_eq!((g.rows, g.cols), (2, 2));
    assert_eq!(tile_cell(0, &g), (0, 0));
    assert_eq!(tile_cell(2, &g), (1, 0));
    let h = tile_grid(3, MultiLayout::Horizontal).unwrap();
    assert_eq!((h.rows, h.cols), (1, 3));
    assert_eq!(tile_cell(2, &h), (0, 2));
    let f = tile_grid(4, MultiLayout::Grid4).unwrap();
    assert_eq!((f.rows, f.cols), (2, 2));
    assert_eq!(tile_cell(3, &f), (1, 1));
}

#[test]
fn window_layouts() {
    assert_eq!(
        window_placements(1, 1920, 1080),
        vec![WindowPlacement { x: 269, y: 97, width: 1382, height: 885 }]
    );
    assert_eq!(
        window_placements(3, 1920, 1080),
        vec![
            WindowPlacement { x: 0, y: 97, width: 960, height: 885 },
            WindowPlacement { x: 960, y: 97, width: 960, height: 885 },
        ]
    );
    assert!(window_placements(0, 1920, 1080).is_empty());
    assert!(window_placements(2, 0, 1080).is_empty());
}

fn video(id: usize, pos: u64) -> VideoItem {
    let mut v = VideoItem::new(id, format!("{id}.mp4"));
    v.position_ms = pos;
    v
}

fn reading(id: usize) -> PlayerReading {
    PlayerReading { id, closed: false, window_appeared: false, duration_ms: None, position_ms: None, volume: None, paused: None }
}

#[test]
fn tick_pulls_players_to_anchor() {
    let mut videos = vec![video(0, 0), video(1, 0), video(2, 0)];
    let mut r0 = reading(0);
    r0.position_ms = Some(10_000);
    r0.duration_ms = Some(60_000);
    r0.volume = Some(80);
    r0.paused = Some(false);
    let mut r1 = reading(1);
    r1.position_ms = Some(10_050);
    let mut r2 = reading(2);
    r2.position_ms = Some(12_000);
    let plan = plan_tick(&mut videos, &vec![r0, r1, r2], Vec::new(), PlaybackState::Paused, Some(0), true);
    assert_eq!(plan.tick.anchor_position_ms, Some(10_000));
    assert_eq!(plan.tick.playback_state, Some(PlaybackState::Playing));
    assert_eq!(plan.set_paused, Some(false));
    assert_eq!(plan.tick.selected_volume, Some(80));
    assert_eq!(plan.tick.selected_fullscreen, Some(false));
    assert_eq!(plan.tick.selected_render_status.as_deref(), Some("External mpv window mode"));
    assert_eq!(plan.seeks, vec![(2, 10_000)]);
    assert_eq!(videos[0].duration_ms, 60_000);
    assert_eq!(videos[1].position_ms, 10_050);
    assert_eq!(videos[2].position_ms, 10_000);
    assert!(!plan.arrange_windows);
}

#[test]
fn tick_without_sync_leaves_positions() {
    let mut videos = vec![video(0, 0), video(1, 0)];
    let mut r0 = reading(0);
    r0.position_ms = Some(5_000);
    let mut r1 = reading(1);
    r1.position_ms = Some(9_000);
    r1.window_appeared = true;
    let plan = plan_tick(&mut videos, &vec![r0, r1], Vec::new(), PlaybackState::Playing, Some(1), false);
    assert_eq!(plan.tick.anchor_position_ms, Some(9_000));
    assert!(plan.seeks.is_empty());
    assert_eq!(plan.set_paused, None);
    assert!(plan.arrange_windows);
    assert_eq!(videos[0].position_ms, 5_000);
}

#[test]
fn tick_notes_closed_players_once() {
    let mut videos = vec![video(0, 0), video(1, 0)];
    let mut r0 = reading(0);
    r0.closed = true;
    let mut r1 = reading(1);
    r1.closed = true;
    let plan = plan_tick(&mut videos, &vec![r0, r1], vec![1], PlaybackState::Playing, Some(0), true);
    assert_eq!(plan.tick.closed_player_ids, vec![1, 0]);
    assert_eq!(plan.tick.anchor_position_ms, None);
    assert_eq!(plan.tick.playback_state, Some(PlaybackState::Playing));
}

#[test]
fn tick_anchor_falls_back_to_first_player() {
    let mut videos = vec![video(0, 0), video(1, 0)];
    let mut r0 = reading(0);
    r0.position_ms = Some(3_000);
    r0.paused = Some(true);
    let r1 = reading(1);
    let plan = plan_tick(&mut videos, &vec![r0, r1], Vec::new(), PlaybackState::Playing, Some(7), true);
    assert_eq!(plan.tick.anchor_position_ms, Some(3_000));
    assert_eq!(plan.tick.playback_state, Some(PlaybackState::Paused));
    assert_eq!(plan.set_paused, Some(true));
    assert_eq!(plan.seeks, vec![(1, 3_000)]);
}
