# navplayer

A Windows video player for side-by-side review of dance and form videos. Playback
runs in external libmpv windows; the main window holds the toolbar, the video tiles
and the shared controls.

## Layout

- `src/` — the verified library (Verus). It holds the application state and every
  rule that changes it: loading videos, taking in what the playback engine reports
  each frame (anchor choice, pause/resume followed from a player window, pulling the
  other players to the anchor), removing closed players, seeking, master audio,
  automatic thumbnails, the recent-session list, the single-instance requests, the
  main-window visibility, tile and window layout, the Windows-style path model, file
  ordering and the playlist of sibling videos, and the command strings sent to libmpv.
  Times are whole milliseconds and the speed is a percentage, so no floating point
  enters the library.
- `tests/` — tests of the library on concrete values.
- `app/` — the program around the library: the egui window, the libmpv and Win32
  calls, the TCP channel between instances, the file dialog, logging, and reading and
  writing `recent_files.toml`.
