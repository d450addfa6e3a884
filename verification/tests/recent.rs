use navplayer::playback::ViewMode;
use navplayer::recent::{existing_paths, keep_nonempty_sessions, record_session, RecentSession, MAX_RECENT_SESSIONS};

fn s(x: &str) -> String {
    x.to_string()
}

fn session(mode: ViewMode, paths: &[&str]) -> RecentSession {
    RecentSession { view_mode: mode, paths: paths.iter().map(|p| p.to_string()).collect() }
}

fn same(a: &RecentSession, b: &RecentSession) -> bool {
    a.view_mode == b.view_mode && a.paths == b.paths
}

#[test]
fn summaries() {
    assert_eq!(session(ViewMode::Single, &["C:\\videos\\a.mp4"]).summary(), "Single | a.mp4");
    assert_eq!(
        session(ViewMode::Multi, &["C:\\videos\\a.mp4", "b.mp4", "c.mp4"]).summary(),
        "Multi | a.mp4 (+2)"
    );
    assert_eq!(session(ViewMode::Single, &[]).summary(), "Single | (missing)");
    assert_eq!(session(ViewMode::Multi, &["C:\\", "b.mp4"]).summary(), "Multi | (missing) (+1)");
}

#[test]
fn recording_moves_session_to_front() {
    let list = vec![
        session(ViewMode::Single, &["a.mp4"]),
        session(ViewMode::Multi, &["b.mp4", "c.mp4"]),
        session(ViewMode::Single, &["b.mp4"]),
    ];
    let r = record_session(&list, ViewMode::Multi, &vec![s("b.mp4"), s("c.mp4")]);
    assert_eq!(r.len(), 3);
    assert!(same(&r[0], &session(ViewMode::Multi, &["b.mp4", "c.mp4"])));
    assert!(same(&r[1], &session(ViewMode::Single, &["a.mp4"])));
    assert!(same(&r[2], &session(ViewMode::Single, &["b.mp4"])));
}

#[test]
fn recording_matches_paths_by_component() {
    let list = vec![session(ViewMode::Single, &["C:/v/a.mp4"])];
    let r = record_session(&list, ViewMode::Single, &vec![s("C:\\v\\a.mp4")]);
    assert_eq!(r.len(), 1);
    assert_eq!(r[0].paths, vec![s("C:\\v\\a.mp4")]);
    let other_mode = record_session(&list, ViewMode::Multi, &vec![s("C:\\v\\a.mp4")]);
    assert_eq!(other_mode.len(), 2);
}

#[test]
fn recording_keeps_thirty() {
    let list: Vec<RecentSession> =
        (0..40).map(|i| RecentSession { view_mode: ViewMode::Single, paths: vec![format!("{i}.mp4")] }).collect();
    let r = record_session(&list, ViewMode::Single, &vec![s("new.mp4")]);
    assert_eq!(r.len(), MAX_RECENT_SESSIONS);
    assert_eq!(r[0].paths, vec![s("new.mp4")]);
    assert_eq!(r[29].paths, vec![s("28.mp4")]);
}

#[test]
fn recording_nothing_keeps_list() {
    let list = vec![session(ViewMode::Single, &["a.mp4"])];
    let r = record_session(&list, ViewMode::Multi, &Vec::new());
    assert_eq!(r.len(), 1);
    assert!(same(&r[0], &list[0]));
}

#[test]
fn recording_twice_changes_nothing_more() {
    let list = vec![session(ViewMode::Single, &["a.mp4"]), session(ViewMode::Multi, &["x.mp4", "y.mp4"])];
    let once = record_session(&list, ViewMode::Single, &vec![s("y.mp4")]);
    let twice = record_session(&once, ViewMode::Single, &vec![s("y.mp4")]);
    assert_eq!(once.len(), twice.len());
    for (a, b) in once.iter().zip(twice.iter()) {
        assert!(same(a, b));
    }
}

#[test]
fn loading_drops_empty_sessions() {
    let list = vec![session(ViewMode::Single, &[]), session(ViewMode::Multi, &["a.mp4"]), session(ViewMode::Single, &[])];
    let r = keep_nonempty_sessions(list);
    assert_eq!(r.len(), 1);
    assert_eq!(r[0].view_mode, ViewMode::Multi);
}

#[test]
fn existing_paths_kept_in_order() {
    let paths = vec![s("a.mp4"), s("b.mp4"), s("c.mp4")];
    assert_eq!(existing_paths(&paths, &vec![true, false, true]), vec![s("a.mp4"), s("c.mp4")]);
    assert!(existing_paths(&paths, &vec![false, false, false]).is_empty());
}

#[test]
fn recording_nothing_keeps_thirty() {
    let list: Vec<RecentSession> =
        (0..35).map(|i| RecentSession { view_mode: ViewMode::Multi, paths: vec![format!("{i}.mp4")] }).collect();
    let r = record_session(&list, ViewMode::Single, &Vec::new());
    assert_eq!(r.len(), MAX_RECENT_SESSIONS);
    assert_eq!(r[0].paths, vec![s("0.mp4")]);
    assert_eq!(r[29].paths, vec![s("29.mp4")]);
}

#[test]
fn loading_keeps_thirty() {
    let mut list: Vec<RecentSession> = vec![session(ViewMode::Single, &[])];
    list.extend((0..33).map(|i| RecentSession { view_mode: ViewMode::Single, paths: vec![format!("{i}.mp4")] }));
    let r = keep_nonempty_sessions(list);
    assert_eq!(r.len(), MAX_RECENT_SESSIONS);
    assert_eq!(r[0].paths, vec![s("0.mp4")]);
    assert_eq!(r[29].paths, vec![s("29.mp4")]);
}

#[test]
fn recorded_list_reloads_unchanged() {
    let stored = vec![session(ViewMode::Single, &[]), session(ViewMode::Multi, &["a.mp4", "b.mp4"]), session(ViewMode::Single, &["c.mp4"])];
    let loaded = keep_nonempty_sessions(stored);
    let recorded = record_session(&loaded, ViewMode::Single, &vec![s("c.mp4")]);
    let copy: Vec<RecentSession> = recorded.iter().map(|x| x.duplicate()).collect();
    let reloaded = keep_nonempty_sessions(copy);
    assert_eq!(reloaded.len(), recorded.len());
    for (a, b) in reloaded.iter().zip(recorded.iter()) {
        assert!(same(a, b));
    }
    assert_eq!(recorded[0].paths, vec![s("c.mp4")]);
}
