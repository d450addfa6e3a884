//! Where a captured frame is saved: folder, safe file name and timestamp.
use vstd::prelude::*;
use crate::path::{file_name, file_stem, file_stem_of, is_drive, is_sep, join, join_path, lemma_join_file_name, lemma_join_parent, parent, parent_of};
use crate::text::{chars_of, decimal, string_of, sub_chars, zero_padded, zero_padded_string};

verus! {

/// `minutes` (at least two digits), `m`, two-digit seconds, `s`, three-digit milliseconds, `ms`.
pub open spec fn timestamp_text(millis: nat) -> Seq<char> {
    zero_padded(millis / 60000, 2) + "m"@ + zero_padded((millis % 60000) / 1000, 2) + "s"@
        + zero_padded(millis % 1000, 3) + "ms"@
}

/// The timestamp that names a thumbnail taken at `millis` milliseconds, such as `01m05s250ms`.
pub fn format_thumbnail_timestamp(millis: u64) -> (s: String)
    ensures
        s@ == timestamp_text(millis as nat),
{
    let minutes = millis / 60_000;
    let seconds = (millis % 60_000) / 1000;
    let ms = millis % 1000;
    let mut s = zero_padded_string(minutes, 2);
    s.append("m");
    let sec = zero_padded_string(seconds, 2);
    s.append(sec.as_str());
    s.append("s");
    let milli = zero_padded_string(ms, 3);
    s.append(milli.as_str());
    s.append("ms");
    s
}

/// Characters that a Windows file name cannot hold.
pub open spec fn is_forbidden(c: char) -> bool {
    c == '<' || c == '>' || c == ':' || c == '"' || c == '/' || c == '\\' || c == '|' || c == '?'
        || c == '*'
}

/// The Unicode `White_Space` characters, which `str::trim` removes.
pub open spec fn is_white_space(c: char) -> bool {
    let u = c as u32;
    (0x09 <= u && u <= 0x0d) || u == 0x20 || u == 0x85 || u == 0xa0 || u == 0x1680 || (0x2000 <= u
        && u <= 0x200a) || u == 0x2028 || u == 0x2029 || u == 0x202f || u == 0x205f || u == 0x3000
}

/// What is trimmed: dots where `dots` holds, white space otherwise.
pub open spec fn trimmed_char(c: char, dots: bool) -> bool {
    if dots {
        c == '.'
    } else {
        is_white_space(c)
    }
}

pub open spec fn trim_start_chars(s: Seq<char>, dots: bool) -> Seq<char>
    decreases s.len(),
{
    if s.len() > 0 && trimmed_char(s[0], dots) {
        trim_start_chars(s.drop_first(), dots)
    } else {
        s
    }
}

pub open spec fn trim_end_chars(s: Seq<char>, dots: bool) -> Seq<char>
    decreases s.len(),
{
    if s.len() > 0 && trimmed_char(s.last(), dots) {
        trim_end_chars(s.drop_last(), dots)
    } else {
        s
    }
}

/// `s` without the trimmed characters at both its ends.
pub open spec fn trim_both(s: Seq<char>, dots: bool) -> Seq<char> {
    trim_end_chars(trim_start_chars(s, dots), dots)
}

pub open spec fn replace_forbidden(s: Seq<char>) -> Seq<char> {
    s.map_values(|c: char| if is_forbidden(c) { '_' } else { c })
}

/// A file-name stem with every forbidden character made `_`, white space trimmed, then dots trimmed.
pub open spec fn sanitized(s: Seq<char>) -> Seq<char> {
    trim_both(trim_both(replace_forbidden(s), false), true)
}

fn is_white_space_char(c: char) -> (r: bool)
    ensures
        r == is_white_space(c),
{
    let u = c as u32;
    (0x09 <= u && u <= 0x0d) || u == 0x20 || u == 0x85 || u == 0xa0 || u == 0x1680 || (0x2000 <= u
        && u <= 0x200a) || u == 0x2028 || u == 0x2029 || u == 0x202f || u == 0x205f || u == 0x3000
}

fn is_trimmed(c: char, dots: bool) -> (r: bool)
    ensures
        r == trimmed_char(c, dots),
{
    if dots {
        c == '.'
    } else {
        is_white_space_char(c)
    }
}

proof fn lemma_trim_start_shape(s: Seq<char>, dots: bool)
    ensures
        trim_start_chars(s, dots).len() <= s.len(),
        trim_start_chars(s, dots) == s.subrange(
            s.len() - trim_start_chars(s, dots).len(),
            s.len() as int,
        ),
        trim_start_chars(s, dots).len() > 0 ==> !trimmed_char(trim_start_chars(s, dots)[0], dots),
    decreases s.len(),
{
    if s.len() > 0 && trimmed_char(s[0], dots) {
        lemma_trim_start_shape(s.drop_first(), dots);
        let t = trim_start_chars(s, dots);
        assert(s.drop_first().subrange(s.drop_first().len() - t.len(), s.drop_first().len() as int)
            =~= s.subrange(s.len() - t.len(), s.len() as int));
    } else {
        assert(s.subrange(0, s.len() as int) =~= s);
    }
}

proof fn lemma_trim_end_shape(s: Seq<char>, dots: bool)
    ensures
        trim_end_chars(s, dots).len() <= s.len(),
        trim_end_chars(s, dots) == s.subrange(0, trim_end_chars(s, dots).len() as int),
        trim_end_chars(s, dots).len() > 0 ==> !trimmed_char(trim_end_chars(s, dots).last(), dots),
    decreases s.len(),
{
    if s.len() > 0 && trimmed_char(s.last(), dots) {
        lemma_trim_end_shape(s.drop_last(), dots);
        let t = trim_end_chars(s, dots);
        assert(s.drop_last().subrange(0, t.len() as int) =~= s.subrange(0, t.len() as int));
    } else {
        assert(s.subrange(0, s.len() as int) =~= s);
    }
}

/// `v` without the trimmed characters at both ends.
fn trim_chars(v: &Vec<char>, dots: bool) -> (r: Vec<char>)
    ensures
        r@ == trim_both(v@, dots),
{
    let n = v.len();
    let mut i: usize = 0;
    assert(v@.subrange(0, n as int) =~= v@);
    while i < n && is_trimmed(v[i], dots)
        invariant
            i <= n == v.len(),
            trim_start_chars(v@, dots) == trim_start_chars(v@.subrange(i as int, n as int), dots),
        decreases n - i,
    {
        assert(v@.subrange(i as int, n as int).drop_first() =~= v@.subrange(i + 1, n as int));
        i = i + 1;
    }
    let ghost st = v@.subrange(i as int, n as int);
    assert(trim_start_chars(v@, dots) == st);
    let mut j: usize = n;
    assert(st.subrange(0, (j - i) as int) =~= st);
    while j > i && is_trimmed(v[j - 1], dots)
        invariant
            i <= j <= n == v.len(),
            st == v@.subrange(i as int, n as int),
            trim_end_chars(st, dots) == trim_end_chars(v@.subrange(i as int, j as int), dots),
        decreases j,
    {
        assert(v@.subrange(i as int, j as int).drop_last() =~= v@.subrange(i as int, j - 1));
        j = j - 1;
    }
    sub_chars(v, i, j)
}

fn replace_forbidden_chars(v: &Vec<char>) -> (r: Vec<char>)
    ensures
        r@ == replace_forbidden(v@),
{
    let mut r: Vec<char> = Vec::new();
    let mut i: usize = 0;
    while i < v.len()
        invariant
            i <= v.len(),
            r@ == replace_forbidden(v@.take(i as int)),
        decreases v.len() - i,
    {
        let c = v[i];
        let d = if c == '<' || c == '>' || c == ':' || c == '"' || c == '/' || c == '\\' || c == '|'
            || c == '?' || c == '*' {
            '_'
        } else {
            c
        };
        r.push(d);
        i = i + 1;
        assert(r@ =~= replace_forbidden(v@.take(i as int)));
    }
    assert(v@.take(v.len() as int) =~= v@);
    r
}

/// `input` made safe as a file name: forbidden characters become `_`, then white space and dots are trimmed from both ends.
pub fn sanitize_filename(input: &str) -> (s: String)
    ensures
        s@ == sanitized(input@),
        forall|i: int| 0 <= i < s@.len() ==> !is_forbidden(#[trigger] s@[i]),
        s@.len() > 0 ==> s@[0] != '.' && s@.last() != '.',
{
    let v = chars_of(input);
    let replaced = replace_forbidden_chars(&v);
    let spaced = trim_chars(&replaced, false);
    let dotted = trim_chars(&spaced, true);
    proof {
        lemma_sanitized_shape(input@);
    }
    string_of(&dotted)
}

/// What sanitizing leaves: no forbidden character, and no dot at either end.
pub proof fn lemma_sanitized_shape(s: Seq<char>)
    ensures
        forall|i: int| 0 <= i < sanitized(s).len() ==> !is_forbidden(#[trigger] sanitized(s)[i]),
        sanitized(s).len() > 0 ==> sanitized(s)[0] != '.' && sanitized(s).last() != '.',
{
    let r = replace_forbidden(s);
    let a = trim_start_chars(r, false);
    lemma_trim_start_shape(r, false);
    let b = trim_end_chars(a, false);
    lemma_trim_end_shape(a, false);
    let c = trim_start_chars(b, true);
    lemma_trim_start_shape(b, true);
    let d = trim_end_chars(c, true);
    lemma_trim_end_shape(c, true);
    assert forall|i: int| 0 <= i < d.len() implies !is_forbidden(#[trigger] d[i]) by {
        assert(d[i] == c[i]);
        assert(c[i] == b[b.len() - c.len() + i]);
        assert(b[b.len() - c.len() + i] == a[b.len() - c.len() + i]);
        assert(a[b.len() - c.len() + i] == r[r.len() - a.len() + b.len() - c.len() + i]);
    }
    if d.len() > 0 {
        assert(d[0] == c[0]);
    }
}

/// Where the frame of a video is saved: the folder, and the full path of the image.
pub struct ThumbnailTarget {
    pub dir: String,
    pub path: String,
}

/// The folder that holds the thumbnails of a video: `thumbnails` beside it.
pub open spec fn thumbnail_dir(video_path: Seq<char>) -> Option<Seq<char>> {
    match parent(video_path) {
        Some(p) => Some(join(p, "thumbnails"@)),
        None => None,
    }
}

/// The image name: the sanitized file stem (or `thumbnail`), `_`, the timestamp, `.jpg`.
pub open spec fn thumbnail_file_name(video_path: Seq<char>, millis: nat) -> Seq<char> {
    let stem = match file_stem(video_path) {
        Some(s) => s,
        None => "thumbnail"@,
    };
    sanitized(stem) + "_"@ + timestamp_text(millis) + ".jpg"@
}

/// The folder `thumbnails` beside the video.
pub fn thumbnail_dir_of(video_path: &str) -> (r: Option<String>)
    ensures
        match r {
            Some(d) => thumbnail_dir(video_path@) == Some(d@),
            None => thumbnail_dir(video_path@) is None,
        },
{
    match parent_of(video_path) {
        Some(p) => Some(join_path(p.as_str(), "thumbnails")),
        None => None,
    }
}

/// Where a frame of the video at `position_ms` is saved; `None` where the video path has no parent folder.
pub fn thumbnail_output_path(video_path: &str, position_ms: u64) -> (r: Option<ThumbnailTarget>)
    ensures
        match r {
            Some(t) => thumbnail_dir(video_path@) == Some(t.dir@) && t.path@ == join(
                t.dir@,
                thumbnail_file_name(video_path@, position_ms as nat),
            ) && parent(t.path@) == Some(t.dir@),
            None => thumbnail_dir(video_path@) is None,
        },
{
    let dir = match thumbnail_dir_of(video_path) {
        Some(d) => d,
        None => return None,
    };
    let stem = match file_stem_of(video_path) {
        Some(s) => s,
        None => String::from_str("thumbnail"),
    };
    let mut name = sanitize_filename(stem.as_str());
    name.append("_");
    let ts = format_thumbnail_timestamp(position_ms);
    name.append(ts.as_str());
    name.append(".jpg");
    let path = join_path(dir.as_str(), name.as_str());
    proof {
        lemma_thumbnail_named(video_path@, position_ms as nat, dir@);
    }
    Some(ThumbnailTarget { dir, path })
}

/// A captured frame is saved in the `thumbnails` folder under the name
/// `stem_timestamp.jpg`: the parent of the image path is exactly the thumbnail folder
/// of the video, and its file name is exactly that name.
pub proof fn lemma_thumbnail_named(video_path: Seq<char>, millis: nat, dir: Seq<char>)
    requires
        thumbnail_dir(video_path) == Some(dir),
    ensures
        parent(join(dir, thumbnail_file_name(video_path, millis))) == Some(dir),
        file_name(join(dir, thumbnail_file_name(video_path, millis))) == Some(
            thumbnail_file_name(video_path, millis),
        ),
{
    let p = parent(video_path)->0;
    let name = thumbnail_file_name(video_path, millis);
    let stem = match file_stem(video_path) {
        Some(s) => s,
        None => "thumbnail"@,
    };
    lemma_sanitized_shape(stem);
    reveal_strlit("thumbnails");
    reveal_strlit("_");
    reveal_strlit(".jpg");
    reveal_strlit("m");
    reveal_strlit("s");
    reveal_strlit("ms");
    let ts = timestamp_text(millis);
    lemma_timestamp_chars(millis);
    assert forall|i: int| 0 <= i < name.len() implies !is_sep(#[trigger] name[i]) by {
        let sn = sanitized(stem);
        if i < sn.len() {
            assert(name[i] == sn[i]);
            assert(!is_forbidden(sn[i]));
        } else if i == sn.len() {
            assert(name[i] == '_');
        } else if i < sn.len() + 1 + ts.len() {
            assert(name[i] == ts[i - sn.len() - 1]);
        } else {
            assert(name[i] == ".jpg"@[i - sn.len() - 1 - ts.len()]);
        }
    }
    assert(join(p, "thumbnails"@).len() > 0);
    assert(name.len() >= 4);
    assert(name.last() == 'g');
    lemma_join_file_name(dir, name);
    let t = "thumbnails"@;
    assert(dir == join(p, t));
    assert(dir.last() == 's') by {
        if p.len() == 0 || is_sep(p.last()) || is_drive(p) {
            assert(dir =~= p + t);
        } else {
            assert(dir =~= p + seq!['\\'] + t);
        }
        assert(dir.last() == t.last());
    }
    lemma_join_parent(dir, name);
}

/// The characters of a timestamp are digits and the letters `m` and `s`.
proof fn lemma_timestamp_chars(millis: nat)
    ensures
        forall|i: int| 0 <= i < timestamp_text(millis).len() ==> !is_sep(#[trigger] timestamp_text(millis)[i]),
{
    reveal_strlit("m");
    reveal_strlit("s");
    reveal_strlit("ms");
    let a = zero_padded(millis / 60000, 2);
    let b = zero_padded((millis % 60000) / 1000, 2);
    let c = zero_padded(millis % 1000, 3);
    lemma_padded_digits(millis / 60000, 2);
    lemma_padded_digits((millis % 60000) / 1000, 2);
    lemma_padded_digits(millis % 1000, 3);
    let t = timestamp_text(millis);
    assert(t =~= a + "m"@ + b + "s"@ + c + "ms"@);
    assert forall|i: int| 0 <= i < t.len() implies !is_sep(#[trigger] t[i]) by {
        if i < a.len() {
            assert(t[i] == a[i]);
        } else if i < a.len() + 1 {
            assert(t[i] == 'm');
        } else if i < a.len() + 1 + b.len() {
            assert(t[i] == b[i - a.len() - 1]);
        } else if i < a.len() + 2 + b.len() {
            assert(t[i] == 's');
        } else if i < a.len() + 2 + b.len() + c.len() {
            assert(t[i] == c[i - a.len() - 2 - b.len()]);
        } else {
            assert(t[i] == "ms"@[i - a.len() - 2 - b.len() - c.len()]);
        }
    }
}

proof fn lemma_decimal_digits(n: nat)
    ensures
        forall|i: int| 0 <= i < decimal(n).len() ==> !is_sep(#[trigger] decimal(n)[i]),
    decreases n,
{
    if n >= 10 {
        lemma_decimal_digits(n / 10);
        let d = decimal(n);
        assert forall|i: int| 0 <= i < d.len() implies !is_sep(#[trigger] d[i]) by {
            if i < d.len() - 1 {
                assert(d[i] == decimal(n / 10)[i]);
            }
        }
    }
}

proof fn lemma_padded_digits(n: nat, w: nat)
    ensures
        forall|i: int| 0 <= i < zero_padded(n, w).len() ==> !is_sep(#[trigger] zero_padded(n, w)[i]),
{
    lemma_decimal_digits(n);
    let d = decimal(n);
    let z = zero_padded(n, w);
    if d.len() < w {
        let pad = Seq::new((w - d.len()) as nat, |i: int| '0');
        assert forall|i: int| 0 <= i < z.len() implies !is_sep(#[trigger] z[i]) by {
            if i < pad.len() {
                assert(z[i] == '0');
            } else {
                assert(z[i] == d[i - pad.len()]);
            }
        }
    }
}

} // verus!
