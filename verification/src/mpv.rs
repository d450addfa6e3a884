//! The command strings sent to the playback engine, and the bookkeeping of
//! player windows that were closed by the user.
use vstd::prelude::*;
use crate::path::same_path;
use crate::path::same_path_str;
use crate::recent::strings_view;
use crate::text::{chars_of, concat_str, decimal, decimal_string, string_of};

verus! {

/// A character as it stands inside a quoted engine argument: `\` and `"` get a leading `\`.
pub open spec fn escape_char(c: char) -> Seq<char> {
    if c == '\\' || c == '"' {
        seq!['\\', c]
    } else {
        seq![c]
    }
}

/// `s` with every `\` and `"` escaped by a leading `\`.
pub open spec fn escaped(s: Seq<char>) -> Seq<char>
    decreases s.len(),
{
    if s.len() == 0 {
        Seq::empty()
    } else {
        escape_char(s[0]) + escaped(s.drop_first())
    }
}

/// `s` as a quoted engine argument.
pub open spec fn quoted(s: Seq<char>) -> Seq<char> {
    seq!['"'] + escaped(s) + seq!['"']
}

/// How the engine reads the inside of a quoted argument: `\` takes the next character as it is.
pub open spec fn unescaped(s: Seq<char>) -> Seq<char>
    decreases s.len(),
{
    if s.len() == 0 {
        Seq::empty()
    } else if s[0] == '\\' && s.len() >= 2 {
        seq![s[1]] + unescaped(s.subrange(2, s.len() as int))
    } else {
        seq![s[0]] + unescaped(s.drop_first())
    }
}

pub proof fn lemma_escaped_append(a: Seq<char>, b: Seq<char>)
    ensures
        escaped(a + b) == escaped(a) + escaped(b),
    decreases a.len(),
{
    if a.len() == 0 {
        assert(a + b =~= b);
    } else {
        assert((a + b).drop_first() =~= a.drop_first() + b);
        assert((a + b)[0] == a[0]);
        lemma_escaped_append(a.drop_first(), b);
    }
}

/// Reading a quoted argument back gives the text that was quoted.
pub proof fn lemma_unescape_escaped(s: Seq<char>)
    ensures
        unescaped(escaped(s)) == s,
    decreases s.len(),
{
    if s.len() > 0 {
        lemma_unescape_escaped(s.drop_first());
        let e = escaped(s);
        let rest = escaped(s.drop_first());
        if s[0] == '\\' || s[0] == '"' {
            assert(e =~= seq!['\\', s[0]] + rest);
            assert(e.subrange(2, e.len() as int) =~= rest);
        } else {
            assert(e =~= seq![s[0]] + rest);
            assert(e.drop_first() =~= rest);
        }
        assert(s =~= seq![s[0]] + s.drop_first());
    }
}

/// `input` in double quotes, with `\` and `"` escaped, for an engine command.
pub fn quote_for_mpv_command(input: &str) -> (s: String)
    ensures
        s@ == quoted(input@),
{
    let v = chars_of(input);
    let mut out: Vec<char> = Vec::new();
    out.push('"');
    let mut i: usize = 0;
    while i < v.len()
        invariant
            i <= v.len(),
            out@ == seq!['"'] + escaped(v@.take(i as int)),
        decreases v.len() - i,
    {
        let c = v[i];
        proof {
            lemma_escaped_append(v@.take(i as int), seq![c]);
            assert(v@.take(i + 1) =~= v@.take(i as int) + seq![c]);
            assert(escaped(seq![c]) =~= escape_char(c)) by {
                assert(seq![c].drop_first() =~= Seq::<char>::empty());
                assert(seq![c][0] == c);
                assert(escaped(Seq::<char>::empty()) =~= Seq::<char>::empty());
            }
        }
        if c == '\\' || c == '"' {
            out.push('\\');
        }
        out.push(c);
        i = i + 1;
        assert(out@ =~= seq!['"'] + escaped(v@.take(i as int)));
    }
    out.push('"');
    assert(v@.take(v.len() as int) =~= v@);
    assert(out@ =~= quoted(input@));
    string_of(&out)
}

/// `text` followed by the quoted `argument` and `suffix`.
fn command_with_argument(text: &str, argument: &str, suffix: &str) -> (s: String)
    ensures
        s@ == text@ + quoted(argument@) + suffix@,
{
    let q = quote_for_mpv_command(argument);
    let mut s = concat_str(text, q.as_str());
    s.append(suffix);
    s
}

/// The command that loads the support script at `script_path`.
pub fn load_script_command(script_path: &str) -> (s: String)
    ensures
        s@ == "load-script "@ + quoted(script_path@),
{
    let s = command_with_argument("load-script ", script_path, "");
    proof {
        reveal_strlit("");
    }
    assert(s@ =~= "load-script "@ + quoted(script_path@));
    s
}

/// The command that saves the current video frame to `output_path`.
pub fn screenshot_command(output_path: &str) -> (s: String)
    ensures
        s@ == "screenshot-to-file "@ + quoted(output_path@) + " video"@,
{
    command_with_argument("screenshot-to-file ", output_path, " video")
}

/// The command that closes a player window.
pub fn quit_command() -> (s: String)
    ensures
        s@ == "quit 0"@,
{
    String::from_str("quit 0")
}

/// The title of the window of player `id`, by which the window is found again.
pub fn player_window_title(id: usize) -> (s: String)
    ensures
        s@ == "naVPlayer-mpv-"@ + decimal(id as nat),
{
    let n = decimal_string(id as u64);
    concat_str("naVPlayer-mpv-", n.as_str())
}

/// The command that puts `entry` into the playlist: the first one replaces it, the rest append.
pub open spec fn loadfile_command(entry: Seq<char>, first: bool) -> Seq<char> {
    "loadfile "@ + quoted(entry) + if first { " replace"@ } else { " append"@ }
}

/// The first place in `playlist` that names the same file as `path`, or 0.
pub open spec fn playlist_position(playlist: Seq<Seq<char>>, path: Seq<char>) -> nat
    decreases playlist.len(),
{
    if playlist.len() == 0 {
        0
    } else if same_path(playlist[0], path) {
        0
    } else if exists|i: int| 1 <= i < playlist.len() && same_path(#[trigger] playlist[i], path) {
        1 + playlist_position(playlist.drop_first(), path)
    } else {
        0
    }
}

/// The commands that load `playlist` and start at `path`: one `loadfile` per entry, then a
/// jump to the place of `path` where it is not the first.
pub open spec fn playlist_commands(playlist: Seq<Seq<char>>, path: Seq<char>) -> Seq<Seq<char>> {
    let loads = Seq::new(playlist.len(), |i: int| loadfile_command(playlist[i], i == 0));
    let p = playlist_position(playlist, path);
    if p > 0 {
        loads.push("playlist-play-index "@ + decimal(p))
    } else {
        loads
    }
}

proof fn lemma_playlist_position_found(playlist: Seq<Seq<char>>, path: Seq<char>, k: int)
    requires
        0 <= k < playlist.len(),
        same_path(playlist[k], path),
        forall|j: int| 0 <= j < k ==> !same_path(#[trigger] playlist[j], path),
    ensures
        playlist_position(playlist, path) == k,
    decreases k,
{
    if k > 0 {
        let d = playlist.drop_first();
        assert forall|j: int| 0 <= j < k - 1 implies !same_path(#[trigger] d[j], path) by {
            assert(d[j] == playlist[j + 1]);
        }
        assert(d[k - 1] == playlist[k]);
        lemma_playlist_position_found(d, path, k - 1);
    }
}

proof fn lemma_playlist_position_absent(playlist: Seq<Seq<char>>, path: Seq<char>)
    requires
        forall|j: int| 0 <= j < playlist.len() ==> !same_path(#[trigger] playlist[j], path),
    ensures
        playlist_position(playlist, path) == 0,
{
    if playlist.len() > 0 {
        assert(!same_path(playlist[0], path));
    }
}

/// The place in `playlist` where playback starts: the first entry naming the same file as `path`, or 0.
pub fn playlist_start(playlist: &Vec<String>, path: &str) -> (r: usize)
    ensures
        r == playlist_position(strings_view(playlist@), path@),
        playlist@.len() > 0 ==> r < playlist@.len(),
{
    let ghost pv = strings_view(playlist@);
    let mut i: usize = 0;
    while i < playlist.len()
        invariant
            i <= playlist.len(),
            pv == strings_view(playlist@),
            forall|j: int| 0 <= j < i ==> !same_path(#[trigger] pv[j], path@),
        decreases playlist.len() - i,
    {
        assert(pv[i as int] == playlist@[i as int]@);
        if same_path_str(playlist[i].as_str(), path) {
            proof {
                lemma_playlist_position_found(pv, path@, i as int);
            }
            return i;
        }
        i = i + 1;
    }
    proof {
        lemma_playlist_position_absent(pv, path@);
    }
    0
}

/// The commands that load `playlist` into a player and start at `path`.
pub fn playlist_load_commands(playlist: &Vec<String>, path: &str) -> (r: Vec<String>)
    ensures
        strings_view(r@) == playlist_commands(strings_view(playlist@), path@),
{
    let ghost pv = strings_view(playlist@);
    let mut r: Vec<String> = Vec::new();
    let mut current: usize = 0;
    let mut found = false;
    let mut i: usize = 0;
    while i < playlist.len()
        invariant
            i <= playlist.len(),
            pv == strings_view(playlist@),
            r@.len() == i,
            forall|j: int| 0 <= j < i ==> #[trigger] r@[j]@ == loadfile_command(pv[j], j == 0),
            found ==> current < i && same_path(pv[current as int], path@) && forall|j: int|
                0 <= j < current ==> !same_path(#[trigger] pv[j], path@),
            !found ==> current == 0 && forall|j: int| 0 <= j < i ==> !same_path(#[trigger] pv[j], path@),
        decreases playlist.len() - i,
    {
        let entry = playlist[i].as_str();
        assert(pv[i as int] == entry@);
        let cmd = if i == 0 {
            command_with_argument("loadfile ", entry, " replace")
        } else {
            command_with_argument("loadfile ", entry, " append")
        };
        r.push(cmd);
        if !found && same_path_str(entry, path) {
            found = true;
            current = i;
        }
        i = i + 1;
    }
    proof {
        assert(pv.len() == playlist.len());
        if found {
            lemma_playlist_position_found(pv, path@, current as int);
            assert(playlist_position(pv, path@) == current);
        } else {
            lemma_playlist_position_absent(pv, path@);
            assert(playlist_position(pv, path@) == current);
        }
    }
    if current > 0 {
        let n = decimal_string(current as u64);
        r.push(concat_str("playlist-play-index ", n.as_str()));
    }
    assert(playlist_position(pv, path@) == current);
    assert forall|j: int| 0 <= j < playlist.len() implies #[trigger] strings_view(r@)[j] == loadfile_command(pv[j], j == 0) by {
        assert(strings_view(r@)[j] == r@[j]@);
    }
    assert(strings_view(r@) =~= playlist_commands(pv, path@));
    r
}

/// `v` sorted and without repeats: strictly increasing.
pub open spec fn strictly_increasing(v: Seq<usize>) -> bool {
    forall|i: int, j: int| 0 <= i < j < v.len() ==> v[i] < v[j]
}

/// Takes the ids of players whose windows were closed: `pending` is left empty, and each id
/// comes back once, in increasing order.
pub fn drain_closed_player_ids(pending: &mut Vec<usize>) -> (r: Vec<usize>)
    ensures
        final(pending)@.len() == 0,
        strictly_increasing(r@),
        forall|x: usize| r@.contains(x) <==> old(pending)@.contains(x),
{
    let r = sorted_unique_ids(pending);
    pending.clear();
    r
}

/// The ids, each once, in increasing order.
pub fn sorted_unique_ids(ids: &Vec<usize>) -> (r: Vec<usize>)
    ensures
        strictly_increasing(r@),
        forall|x: usize| r@.contains(x) <==> ids@.contains(x),
{
    let mut r: Vec<usize> = Vec::new();
    let mut i: usize = 0;
    while i < ids.len()
        invariant
            i <= ids.len(),
            strictly_increasing(r@),
            forall|x: usize| r@.contains(x) <==> ids@.take(i as int).contains(x),
        decreases ids.len() - i,
    {
        let x = ids[i];
        let mut p: usize = 0;
        while p < r.len() && r[p] < x
            invariant
                p <= r.len(),
                forall|j: int| 0 <= j < p ==> r@[j] < x,
            decreases r.len() - p,
        {
            p = p + 1;
        }
        let ghost before = r@;
        let ghost t0 = ids@.take(i as int);
        let ghost t1 = ids@.take(i + 1);
        assert(t1 =~= t0.push(x));
        if p == r.len() || r[p] != x {
            r.insert(p, x);
            assert forall|a: int, b: int| 0 <= a < b < r@.len() implies r@[a] < r@[b] by {
                if b < p {
                    assert(r@[a] == before[a] && r@[b] == before[b]);
                } else if b == p {
                    assert(r@[a] == before[a]);
                } else if a < p {
                    assert(r@[b] == before[b - 1]);
                    assert(before[p as int] > x || p == before.len());
                    if b - 1 > p {
                        assert(before[p as int] < before[b - 1]);
                    }
                } else if a == p {
                    assert(r@[b] == before[b - 1]);
                    if b - 1 > p {
                        assert(before[p as int] < before[b - 1]);
                    }
                } else {
                    assert(r@[a] == before[a - 1] && r@[b] == before[b - 1]);
                }
            }
            assert forall|y: usize| r@.contains(y) <==> t1.contains(y) by {
                if r@.contains(y) {
                    let k = choose|k: int| 0 <= k < r@.len() && r@[k] == y;
                    if k < p {
                        assert(before[k] == y);
                    } else if k > p {
                        assert(before[k - 1] == y);
                    }
                }
                if before.contains(y) {
                    let k = choose|k: int| 0 <= k < before.len() && before[k] == y;
                    if k < p {
                        assert(r@[k] == y);
                    } else {
                        assert(r@[k + 1] == y);
                    }
                }
                if y == x {
                    assert(r@[p as int] == x);
                    assert(t1[i as int] == x);
                }
                if t1.contains(y) && y != x {
                    let k = choose|k: int| 0 <= k < t1.len() && t1[k] == y;
                    assert(t0[k] == y);
                }
                if t0.contains(y) {
                    let k = choose|k: int| 0 <= k < t0.len() && t0[k] == y;
                    assert(t1[k] == y);
                }
            }
        } else {
            assert forall|y: usize| r@.contains(y) <==> t1.contains(y) by {
                if y == x {
                    assert(r@[p as int] == x);
                    assert(t1[i as int] == x);
                }
                if t1.contains(y) && y != x {
                    let k = choose|k: int| 0 <= k < t1.len() && t1[k] == y;
                    assert(t0[k] == y);
                }
                if t0.contains(y) {
                    let k = choose|k: int| 0 <= k < t0.len() && t0[k] == y;
                    assert(t1[k] == y);
                }
            }
        }
        i = i + 1;
    }
    assert(ids@.take(ids.len() as int) =~= ids@);
    r
}

/// The name of the playback engine.
pub fn backend_name() -> (r: &'static str)
    ensures
        r@ == "libmpv-window"@,
{
    "libmpv-window"
}

/// A handle through which a player's picture could be drawn inside the main window; the
/// engine plays in windows of its own, so it hands none out.
#[derive(Debug, Clone, Copy)]
pub struct EmbeddedPlayerHandle;

/// The drawing handle of player `index`: none, as the players draw in windows of their own.
pub fn render_handle(index: usize) -> (r: Option<EmbeddedPlayerHandle>)
    ensures
        r is None,
{
    None
}

/// The engine libraries tried, in order: the one named by `MPV_DLL_PATH` where it is set, then
/// the usual names.
pub open spec fn library_candidate_names(env_path: Option<Seq<char>>) -> Seq<Seq<char>> {
    let usual = seq!["mpv-2.dll"@, "libmpv-2.dll"@, "mpv-1.dll"@, "mpv.dll"@];
    match env_path {
        Some(p) => seq![p] + usual,
        None => usual,
    }
}

/// The engine libraries to try, in order.
pub fn library_candidates(env_path: Option<String>) -> (r: Vec<String>)
    ensures
        strings_view(r@) == library_candidate_names(
            match env_path {
                Some(p) => Some(p@),
                None => None,
            },
        ),
{
    let mut r: Vec<String> = Vec::new();
    if let Some(p) = env_path {
        r.push(p);
    }
    r.push(String::from_str("mpv-2.dll"));
    r.push(String::from_str("libmpv-2.dll"));
    r.push(String::from_str("mpv-1.dll"));
    r.push(String::from_str("mpv.dll"));
    assert(strings_view(r@) =~= library_candidate_names(
        match env_path {
            Some(p) => Some(p@),
            None => None,
        },
    ));
    r
}

} // verus!
