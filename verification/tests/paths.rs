use navplayer::launch::select_launch_paths;
use navplayer::path::{file_name_of, file_stem_of, join_path, parent_of, same_path_str};
use navplayer::playlist::{compare_file_names, is_supported_video_file, sibling_playlist, sort_by_file_name};
use std::cmp::Ordering;

fn s(x: &str) -> String {
    x.to_string()
}

#[test]
fn file_names() {
    assert_eq!(file_name_of("C:\\videos\\clip.MP4"), Some(s("clip.MP4")));
    assert_eq!(file_name_of("C:/videos/clip.mp4"), Some(s("clip.mp4")));
    assert_eq!(file_name_of("a/b/"), Some(s("b")));
    assert_eq!(file_name_of("clip.mp4"), Some(s("clip.mp4")));
    assert_eq!(file_name_of(".."), None);
    assert_eq!(file_name_of("a/.."), None);
    assert_eq!(file_name_of("C:"), None);
    assert_eq!(file_name_of("C:\\"), None);
    assert_eq!(file_name_of(""), None);
    assert_eq!(file_name_of("/"), None);
}

#[test]
fn parents() {
    assert_eq!(parent_of("C:\\videos\\clip.mp4"), Some(s("C:\\videos")));
    assert_eq!(parent_of("C:\\videos\\\\clip.mp4"), Some(s("C:\\videos")));
    assert_eq!(parent_of("C:\\clip.mp4"), Some(s("C:\\")));
    assert_eq!(parent_of("clip.mp4"), Some(s("")));
    assert_eq!(parent_of("/clip.mp4"), Some(s("/")));
    assert_eq!(parent_of("C:\\"), None);
    assert_eq!(parent_of(""), None);
    assert_eq!(parent_of("a/b/"), Some(s("a")));
}

#[test]
fn stems_and_joins() {
    assert_eq!(file_stem_of("C:\\v\\clip.final.mp4"), Some(s("clip.final")));
    assert_eq!(file_stem_of(".hidden"), Some(s(".hidden")));
    assert_eq!(file_stem_of("noext"), Some(s("noext")));
    assert_eq!(file_stem_of("C:\\"), None);
    assert_eq!(join_path("C:\\v", "thumbnails"), "C:\\v\\thumbnails");
    assert_eq!(join_path("C:/v/", "thumbnails"), "C:/v/thumbnails");
    assert_eq!(join_path("", "thumbnails"), "thumbnails");
    assert_eq!(join_path("C:", "x"), "C:x");
}

#[test]
fn same_paths_by_component() {
    assert!(same_path_str("C:/v/a.mp4", "C:\\v\\a.mp4"));
    assert!(same_path_str("a/./b", "a/b"));
    assert!(same_path_str("a//b/", "a/b"));
    assert!(!same_path_str("a/b", "a/B"));
    assert!(!same_path_str("a/b", "a/b/c"));
    assert!(!same_path_str("/a/b", "a/b"));
    assert!(same_path_str("\\a\\b", "/a/b"));
}

#[test]
fn leading_dot_is_a_component() {
    assert!(!same_path_str(".\\a.mp4", "a.mp4"));
    assert!(same_path_str("./a.mp4", ".\\a.mp4"));
    assert!(same_path_str("./a.mp4", "././a.mp4"));
    assert!(!same_path_str(".", ""));
    assert!(same_path_str(".", "./"));
    assert!(!same_path_str(".hidden", "hidden"));
}

#[test]
fn drive_relative_paths() {
    assert_eq!(file_name_of("C:clip.mp4"), Some(s("clip.mp4")));
    assert_eq!(parent_of("C:clip.mp4"), Some(s("C:")));
    assert_eq!(parent_of("C:"), None);
    assert_eq!(file_name_of("C:.."), None);
    assert_eq!(file_stem_of("D:movie.mkv"), Some(s("movie")));
    assert_eq!(parent_of(&join_path("C:", "x.mp4")), Some(s("C:")));
    assert_eq!(file_name_of("1:clip"), Some(s("1:clip")));
}

#[test]
fn supported_videos() {
    assert!(is_supported_video_file("C:\\v\\A.MP4"));
    assert!(is_supported_video_file("clip.mov"));
    assert!(is_supported_video_file("clip.MoV"));
    assert!(!is_supported_video_file("clip.mkv"));
    assert!(!is_supported_video_file(".mp4"));
    assert!(!is_supported_video_file("mp4"));
    assert!(!is_supported_video_file("clip.mp4.txt"));
}

#[test]
fn file_name_order() {
    assert_eq!(compare_file_names("C:\\b\\Alpha.mp4", "C:\\a\\beta.mp4"), Ordering::Less);
    assert_eq!(compare_file_names("x/B.mp4", "y/a.mp4"), Ordering::Greater);
    assert_eq!(compare_file_names("x/A.mp4", "y/a.MP4"), Ordering::Equal);
    assert_eq!(compare_file_names("x/a", "x/ab"), Ordering::Less);
}

#[test]
fn sorting_by_file_name() {
    let files = vec![s("d/c.mp4"), s("d/A.mp4"), s("d/b.mov")];
    assert_eq!(sort_by_file_name(&files), vec![s("d/A.mp4"), s("d/b.mov"), s("d/c.mp4")]);
    let ties = vec![s("x/a.mp4"), s("y/A.mp4")];
    let sorted = sort_by_file_name(&ties);
    assert_eq!(sorted.len(), 2);
    assert!(sorted.contains(&s("x/a.mp4")) && sorted.contains(&s("y/A.mp4")));
    assert!(sort_by_file_name(&Vec::new()).is_empty());
}

#[test]
fn sibling_playlists() {
    let path = "C:/v/b.mp4";
    assert_eq!(sibling_playlist(path, None), vec![s(path)]);
    let files = vec![s("C:/v\\c.mov"), s("C:/v\\notes.txt"), s("C:/v\\b.mp4"), s("C:/v\\A.MP4")];
    assert_eq!(
        sibling_playlist(path, Some(files)),
        vec![s("C:/v\\A.MP4"), s("C:/v\\b.mp4"), s("C:/v\\c.mov")]
    );
    let others = vec![s("C:/v\\c.mov"), s("C:/v\\d.mp4")];
    assert_eq!(sibling_playlist(path, Some(others)), vec![s(path)]);
    assert_eq!(sibling_playlist(path, Some(Vec::new())), vec![s(path)]);
}

#[test]
fn launch_paths() {
    let args = vec![s("a.mp4"), s("b.txt"), s("c.MOV"), s("missing.mp4")];
    let exists = vec![true, true, true, false];
    assert_eq!(select_launch_paths(&args, &exists), vec![s("a.mp4"), s("c.MOV")]);
    assert!(select_launch_paths(&Vec::new(), &Vec::new()).is_empty());
}

#[test]
fn trailing_dot_segments_name_nothing() {
    assert_eq!(file_name_of("foo.txt/."), Some(s("foo.txt")));
    assert_eq!(file_name_of("C:\\v\\clip.mp4\\.\\"), Some(s("clip.mp4")));
    assert_eq!(parent_of("foo.txt/."), Some(s("")));
    assert_eq!(parent_of("a/./b"), Some(s("a")));
    assert_eq!(parent_of("a/b/."), Some(s("a")));
    assert_eq!(parent_of("/./a"), Some(s("/")));
    assert_eq!(parent_of("C:\\.\\a"), Some(s("C:\\")));
    assert_eq!(parent_of("./a"), Some(s(".")));
    assert_eq!(file_name_of("."), None);
    assert_eq!(file_name_of("./."), None);
    assert_eq!(file_name_of("a."), Some(s("a.")));
}

#[test]
fn drive_letters_ignore_case() {
    assert!(same_path_str("c:\\v\\a.mp4", "C:/v/a.mp4"));
    assert!(!same_path_str("C:\\a.mp4", "C:a.mp4"));
    assert!(!same_path_str("C:\\a.mp4", "D:\\a.mp4"));
    assert!(!same_path_str("C:\\V\\a.mp4", "C:\\v\\a.mp4"));
    assert!(same_path_str("d:", "D:"));
}
