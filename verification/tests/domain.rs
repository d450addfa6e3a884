use navplayer::events::PlayerEvent;
use navplayer::ipc::{ipc_action, IpcAction, IpcMessage};
use navplayer::playback::{MultiLayout, PlaybackState, ViewMode};
use navplayer::presence::{ViewportRequest, WindowPresence};
use navplayer::settings::AppSettings;
use navplayer::text::{decimal_string, zero_padded_string};
use navplayer::video::VideoItem;

#[test]
fn layout_labels() {
    assert_eq!(MultiLayout::Horizontal.label(), "Horizontal");
    assert_eq!(MultiLayout::Grid2.label(), "1x2");
    assert_eq!(MultiLayout::Grid4.label(), "2x2");
    assert_eq!(MultiLayout::ALL.len(), 3);
    assert_eq!(MultiLayout::Grid4.capacity(), 4);
    assert_eq!(MultiLayout::Grid2.capacity(), 2);
}

#[test]
fn view_mode_labels() {
    assert_eq!(ViewMode::Single.label(), "Single");
    assert_eq!(ViewMode::Multi.label(), "Multi");
    assert_eq!(ViewMode::ALL, [ViewMode::Single, ViewMode::Multi]);
    assert_eq!(ViewMode::for_count(1), ViewMode::Single);
    assert_eq!(ViewMode::for_count(2), ViewMode::Multi);
    assert_eq!(ViewMode::for_count(0), ViewMode::Single);
}

#[test]
fn playback_states_differ() {
    assert_ne!(PlaybackState::Playing, PlaybackState::Paused);
    assert_eq!(PlaybackState::Stopped, PlaybackState::Stopped);
}

#[test]
fn settings_default_values() {
    let s = AppSettings::default();
    assert!(!s.loop_playback);
    assert!(s.remember_last_files);
    assert_eq!(s.thumbnail_interval_ms, 5000);
    assert_eq!(s.thumbnail_guard_ms, 3000);
}

#[test]
fn ipc_open_and_show_messages() {
    let open = IpcMessage::open(vec!["C:\\v\\a.mp4".to_string()]);
    assert_eq!(open.command, "open");
    assert_eq!(open.paths, vec!["C:\\v\\a.mp4".to_string()]);
    let show = IpcMessage::show();
    assert_eq!(show.command, "show");
    assert!(show.paths.is_empty());
}

#[test]
fn ipc_actions() {
    match ipc_action(IpcMessage::open(vec!["a.mp4".to_string(), "b.mp4".to_string()])) {
        IpcAction::Open { view_mode, paths } => {
            assert_eq!(view_mode, ViewMode::Multi);
            assert_eq!(paths, vec!["a.mp4".to_string(), "b.mp4".to_string()]);
        }
        _ => panic!("expected open"),
    }
    match ipc_action(IpcMessage::open(vec!["a.mp4".to_string()])) {
        IpcAction::Open { view_mode, .. } => assert_eq!(view_mode, ViewMode::Single),
        _ => panic!("expected open"),
    }
    assert!(matches!(ipc_action(IpcMessage::open(Vec::new())), IpcAction::Ignore));
    assert!(matches!(ipc_action(IpcMessage::show()), IpcAction::Show));
    let other = IpcMessage { command: "restart".to_string(), paths: vec!["a.mp4".to_string()] };
    assert!(matches!(ipc_action(other), IpcAction::Ignore));
}

#[test]
fn window_presence_after_launch_with_files() {
    let mut w = WindowPresence::new(true);
    assert_eq!(w.sync(), vec![ViewportRequest::Minimize]);
    assert!(w.main_window_minimized);
    assert!(w.sync().is_empty());
    assert_eq!(
        w.on_show_request(),
        vec![ViewportRequest::Restore, ViewportRequest::Show, ViewportRequest::Focus]
    );
    assert!(!w.main_window_minimized && !w.auto_minimize_single_launch);
    assert!(w.sync().is_empty());
}

#[test]
fn window_presence_restores_when_no_longer_kept_minimized() {
    let mut w = WindowPresence { main_window_minimized: true, auto_minimize_single_launch: false };
    assert_eq!(
        w.sync(),
        vec![ViewportRequest::Restore, ViewportRequest::Show, ViewportRequest::Focus]
    );
    assert!(!w.main_window_minimized);
    let mut fresh = WindowPresence::new(false);
    assert!(fresh.sync().is_empty());
    fresh.on_open_request();
    assert!(fresh.auto_minimize_single_launch);
    assert_eq!(fresh.sync(), vec![ViewportRequest::Minimize]);
}

#[test]
fn video_item_titles() {
    let v = VideoItem::new(2, "C:\\videos\\dance.MOV".to_string());
    assert_eq!(v.id, 2);
    assert_eq!(v.title, "dance.MOV");
    assert_eq!(v.duration_ms, 0);
    assert_eq!(v.position_ms, 0);
    assert!(v.muted);
    let root = VideoItem::new(0, "C:\\".to_string());
    assert_eq!(root.title, "Untitled");
}

#[test]
fn video_mark_loaded() {
    let mut v = VideoItem::new(1, "a.mp4".to_string());
    v.position_ms = 500;
    v.mark_loaded(Some(90_000), Some(1));
    assert_eq!(v.duration_ms, 90_000);
    assert_eq!(v.position_ms, 0);
    assert!(!v.muted);
    v.mark_loaded(None, Some(0));
    assert_eq!(v.duration_ms, 90_000);
    assert!(v.muted);
}

#[test]
fn player_event_holds_error() {
    let e = PlayerEvent::Error("bad".to_string());
    match e {
        PlayerEvent::Error(m) => assert_eq!(m, "bad"),
        _ => panic!("expected error"),
    }
    assert!(matches!(PlayerEvent::Loaded, PlayerEvent::Loaded));
    assert!(matches!(PlayerEvent::PlaybackEnded, PlayerEvent::PlaybackEnded));
}

#[test]
fn decimal_rendering() {
    assert_eq!(decimal_string(0), "0");
    assert_eq!(decimal_string(1234), "1234");
    assert_eq!(decimal_string(u64::MAX), u64::MAX.to_string());
    assert_eq!(zero_padded_string(5, 3), "005");
    assert_eq!(zero_padded_string(1234, 2), "1234");
}
