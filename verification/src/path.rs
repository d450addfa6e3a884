//! Windows-style paths held as text.
//!
//! Both `/` and `\` separate components. A trailing separator does not start a
//! new component, a drive such as `C:` is a prefix rather than a name (also in
//! `C:clip.mp4`) and is the same drive whatever the case of its letter, a `.`
//! counts as a component only at the start of a relative path (a final `.` is
//! dropped before the name or the parent is taken), and a final `..` has no
//! file name.
use vstd::prelude::*;
use crate::text::{ascii_lower_char, chars_equal, chars_of, concat_str, lower_char, string_of, sub_chars};

verus! {

pub open spec fn is_sep(c: char) -> bool {
    c == '/' || c == '\\'
}

/// Whether `s` ends in something that names no component: a separator, or a `.` segment
/// that follows a separator.
pub open spec fn ends_in_nothing(s: Seq<char>) -> bool {
    s.len() > 0 && (is_sep(s.last()) || (s.last() == '.' && s.len() >= 2 && is_sep(s[s.len() - 2])))
}

/// `s` without the separators and `.` segments at its end (a `.` that starts the path stays).
pub open spec fn trim_tail(s: Seq<char>) -> Seq<char>
    decreases s.len(),
{
    if ends_in_nothing(s) {
        trim_tail(s.drop_last())
    } else {
        s
    }
}

/// The index of the last separator of `s`, or -1 where it has none.
pub open spec fn last_sep(s: Seq<char>) -> int
    decreases s.len(),
{
    if s.len() == 0 {
        -1
    } else if is_sep(s.last()) {
        s.len() - 1
    } else {
        last_sep(s.drop_last())
    }
}

/// The text after the last separator of `s`.
pub open spec fn last_segment(s: Seq<char>) -> Seq<char> {
    s.subrange(last_sep(s) + 1, s.len() as int)
}

pub open spec fn is_ascii_alpha(c: char) -> bool {
    ('a' <= c && c <= 'z') || ('A' <= c && c <= 'Z')
}

/// A drive prefix such as `C:`.
pub open spec fn is_drive(s: Seq<char>) -> bool {
    s.len() == 2 && s[1] == ':' && is_ascii_alpha(s[0])
}

/// A path without separators that starts with a drive prefix, such as `C:` or `C:clip.mp4`.
pub open spec fn drive_relative(t: Seq<char>) -> bool {
    last_sep(t) < 0 && t.len() >= 2 && is_drive(t.take(2))
}

/// The final component of the path, where it is a name; a drive prefix is no part of it.
pub open spec fn file_name(p: Seq<char>) -> Option<Seq<char>> {
    let t = trim_tail(p);
    let n = if drive_relative(t) {
        t.skip(2)
    } else {
        last_segment(t)
    };
    if n.len() == 0 || n == seq!['.'] || n == seq!['.', '.'] {
        None
    } else {
        Some(n)
    }
}

/// The path without its final component; `None` for an empty path, a root or a bare drive.
/// The parent of a name right after a drive prefix (`C:clip.mp4`) is the drive.
pub open spec fn parent(p: Seq<char>) -> Option<Seq<char>> {
    let t = trim_tail(p);
    if t.len() == 0 {
        None
    } else if last_sep(t) < 0 {
        if drive_relative(t) {
            if t.len() == 2 {
                None
            } else {
                Some(t.take(2))
            }
        } else {
            Some(Seq::<char>::empty())
        }
    } else {
        let h = trim_tail(t.subrange(0, last_sep(t)));
        if h.len() == 0 {
            Some(t.subrange(0, 1))
        } else if last_sep(h) < 0 && is_drive(h) {
            Some(t.subrange(0, 3))
        } else {
            Some(h)
        }
    }
}

/// `name` appended to `base`, with a `\` between them where `base` does not end a component already.
pub open spec fn join(base: Seq<char>, name: Seq<char>) -> Seq<char> {
    if base.len() == 0 || is_sep(base.last()) || is_drive(base) {
        base + name
    } else {
        base + seq!['\\'] + name
    }
}

/// The index of the last `.` of `s`, or -1 where it has none.
pub open spec fn last_dot(s: Seq<char>) -> int
    decreases s.len(),
{
    if s.len() == 0 {
        -1
    } else if s.last() == '.' {
        s.len() - 1
    } else {
        last_dot(s.drop_last())
    }
}

/// A file name without its extension; a name whose only dot leads keeps it.
pub open spec fn stem_of(n: Seq<char>) -> Seq<char> {
    if last_dot(n) <= 0 {
        n
    } else {
        n.subrange(0, last_dot(n))
    }
}

/// The text after the last dot of a file name, where that dot does not lead the name.
pub open spec fn extension_of(n: Seq<char>) -> Option<Seq<char>> {
    if last_dot(n) <= 0 {
        None
    } else {
        Some(n.subrange(last_dot(n) + 1, n.len() as int))
    }
}

pub open spec fn file_stem(p: Seq<char>) -> Option<Seq<char>> {
    match file_name(p) {
        Some(n) => Some(stem_of(n)),
        None => None,
    }
}

pub open spec fn extension(p: Seq<char>) -> Option<Seq<char>> {
    match file_name(p) {
        Some(n) => extension_of(n),
        None => None,
    }
}

/// Adds the segment `cur` to the finished components, unless it is empty or `.`.
pub open spec fn flush_segment(done: Seq<Seq<char>>, cur: Seq<char>) -> Seq<Seq<char>> {
    if cur.len() == 0 || cur == seq!['.'] {
        done
    } else {
        done.push(cur)
    }
}

/// Splits `p` at its separators: the finished components, and the segment still open at the end.
pub open spec fn split_segments(p: Seq<char>) -> (Seq<Seq<char>>, Seq<char>)
    decreases p.len(),
{
    if p.len() == 0 {
        (Seq::empty(), Seq::empty())
    } else {
        let (done, cur) = split_segments(p.drop_last());
        if is_sep(p.last()) {
            (flush_segment(done, cur), Seq::empty())
        } else {
            (done, cur.push(p.last()))
        }
    }
}

/// A relative path that starts with the segment `.`, such as `.` or `.\clip.mp4`.
pub open spec fn starts_with_cur_dir(p: Seq<char>) -> bool {
    p.len() > 0 && p[0] == '.' && (p.len() == 1 || is_sep(p[1]))
}

/// The components of a path after any drive prefix: a root (written `\`) where it starts with
/// a separator, or `.` where it starts with the segment `.`; then its segments between
/// separators, leaving out empty ones and `.`.
pub open spec fn body_components(p: Seq<char>) -> Seq<Seq<char>> {
    let segments = flush_segment(split_segments(p).0, split_segments(p).1);
    if p.len() > 0 && is_sep(p[0]) {
        seq![seq!['\\']] + segments
    } else if starts_with_cur_dir(p) {
        seq![seq!['.']] + segments
    } else {
        segments
    }
}

/// A path that starts with a drive prefix such as `C:`.
pub open spec fn has_drive(p: Seq<char>) -> bool {
    p.len() >= 2 && is_drive(p.take(2))
}

/// The components of a path: where it starts with a drive, the drive (its letter in lower
/// case, since a drive is the same whatever the case of its letter), then the components
/// of the rest.
pub open spec fn components(p: Seq<char>) -> Seq<Seq<char>> {
    if has_drive(p) {
        seq![seq![lower_char(p[0]), ':']] + body_components(p.skip(2))
    } else {
        body_components(p)
    }
}

/// Two paths name the same file when their components agree.
pub open spec fn same_path(a: Seq<char>, b: Seq<char>) -> bool {
    components(a) == components(b)
}

// ---------------------------------------------------------------------------
// Lemmas
// ---------------------------------------------------------------------------

/// Where `k` is a separator (or -1) and no character after it is one, the last separator stands at `k`.
pub proof fn lemma_last_sep_unique(s: Seq<char>, k: int)
    requires
        -1 <= k < s.len(),
        k >= 0 ==> is_sep(s[k]),
        forall|i: int| k < i < s.len() ==> !is_sep(s[i]),
    ensures
        last_sep(s) == k,
    decreases s.len(),
{
    if s.len() > 0 && k < s.len() - 1 {
        assert(!is_sep(s.last()));
        assert forall|i: int| k < i < s.drop_last().len() implies !is_sep(s.drop_last()[i]) by {
            assert(s.drop_last()[i] == s[i]);
        }
        if k >= 0 {
            assert(s.drop_last()[k] == s[k]);
        }
        lemma_last_sep_unique(s.drop_last(), k);
    }
}

/// Where `k` is a dot (or -1) and no character after it is one, the last dot stands at `k`.
pub proof fn lemma_last_dot_unique(s: Seq<char>, k: int)
    requires
        -1 <= k < s.len(),
        k >= 0 ==> s[k] == '.',
        forall|i: int| k < i < s.len() ==> s[i] != '.',
    ensures
        last_dot(s) == k,
    decreases s.len(),
{
    if s.len() > 0 && k < s.len() - 1 {
        assert(s.last() != '.');
        assert forall|i: int| k < i < s.drop_last().len() implies s.drop_last()[i] != '.' by {
            assert(s.drop_last()[i] == s[i]);
        }
        if k >= 0 {
            assert(s.drop_last()[k] == s[k]);
        }
        lemma_last_dot_unique(s.drop_last(), k);
    }
}

/// Where `s` ends in neither a separator nor a `.` segment, trimming leaves it whole.
pub proof fn lemma_trim_noop(s: Seq<char>)
    requires
        !ends_in_nothing(s),
    ensures
        trim_tail(s) == s,
{
}

/// A name without separators, appended to a folder (or a drive), is the file name of the result.
pub proof fn lemma_join_file_name(base: Seq<char>, name: Seq<char>)
    requires
        base.len() > 0,
        name.len() > 0,
        name.last() != '.',
        forall|i: int| 0 <= i < name.len() ==> !is_sep(#[trigger] name[i]),
    ensures
        file_name(join(base, name)) == Some(name),
{
    let j = join(base, name);
    assert(j.last() == name.last());
    lemma_trim_noop(j);
    assert(trim_tail(j) == j);
    assert(name != seq!['.']) by {
        if name == seq!['.'] {
            assert(name.last() == '.');
        }
    }
    assert(name != seq!['.', '.']) by {
        if name == seq!['.', '.'] {
            assert(name.last() == '.');
        }
    }
    if is_drive(base) && !is_sep(base.last()) {
        assert(j =~= base + name);
        assert forall|i: int| -1 < i < j.len() implies !is_sep(j[i]) by {
            if i >= 2 {
                assert(j[i] == name[i - 2]);
            }
        }
        lemma_last_sep_unique(j, -1);
        assert(j.take(2) =~= base);
        assert(j.skip(2) =~= name);
    } else {
        let k = j.len() - name.len() - 1;
        if is_sep(base.last()) {
            assert(j =~= base + name);
            assert(j[k] == base.last());
        } else {
            assert(j =~= base + seq!['\\'] + name);
            assert(j[k] == '\\');
        }
        assert forall|i: int| k < i < j.len() implies !is_sep(j[i]) by {
            assert(j[i] == name[i - k - 1]);
        }
        lemma_last_sep_unique(j, k);
        assert(last_segment(j) =~= name);
    }
}

/// A name without separators (and other than `.`), appended to a folder that ends in neither
/// a separator nor a `.` segment (or to a bare drive), has that folder (or drive) as its parent.
pub proof fn lemma_join_parent(base: Seq<char>, name: Seq<char>)
    requires
        base.len() > 0,
        !ends_in_nothing(base),
        name.len() > 0,
        name != seq!['.'],
        forall|i: int| 0 <= i < name.len() ==> !is_sep(#[trigger] name[i]),
    ensures
        parent(join(base, name)) == Some(base),
{
    let j = join(base, name);
    assert(j.last() == name.last());
    assert(!is_sep(name[name.len() - 1]));
    assert(!is_sep(base.last()));
    if is_drive(base) {
        assert(j =~= base + name);
    } else {
        assert(j =~= base + seq!['\\'] + name);
    }
    assert(!ends_in_nothing(j)) by {
        if name.len() >= 2 {
            assert(j[j.len() - 2] == name[name.len() - 2]);
        } else if name.last() == '.' {
            assert(name =~= seq!['.']);
        }
    }
    lemma_trim_noop(j);
    if is_drive(base) {
        assert(j =~= base + name);
        assert forall|i: int| -1 < i < j.len() implies !is_sep(j[i]) by {
            if i >= 2 {
                assert(j[i] == name[i - 2]);
            }
        }
        lemma_last_sep_unique(j, -1);
        assert(j.take(2) =~= base);
    } else {
        let k = base.len() as int;
        assert(j =~= base + seq!['\\'] + name);
        assert(j[k] == '\\');
        assert forall|i: int| k < i < j.len() implies !is_sep(j[i]) by {
            assert(j[i] == name[i - k - 1]);
        }
        lemma_last_sep_unique(j, k);
        assert(j.subrange(0, k) =~= base);
        lemma_trim_noop(base);
    }
}

// ---------------------------------------------------------------------------
// Executable counterparts
// ---------------------------------------------------------------------------

pub fn is_separator(c: char) -> (r: bool)
    ensures
        r == is_sep(c),
{
    c == '/' || c == '\\'
}

/// The length of the first `n` characters of `v` once the separators and `.` segments at
/// their end are removed.
fn trimmed_len(v: &Vec<char>, n: usize) -> (m: usize)
    requires
        n <= v.len(),
    ensures
        m <= n,
        trim_tail(v@.take(n as int)) == v@.take(m as int),
{
    let mut end = n;
    while end > 0 && (is_separator(v[end - 1]) || (end >= 2 && v[end - 1] == '.' && is_separator(
        v[end - 2],
    )))
        invariant
            end <= n <= v.len(),
            trim_tail(v@.take(n as int)) == trim_tail(v@.take(end as int)),
        decreases end,
    {
        assert(v@.take(end as int).drop_last() =~= v@.take(end - 1));
        assert(ends_in_nothing(v@.take(end as int)));
        end = end - 1;
    }
    assert(!ends_in_nothing(v@.take(end as int)));
    end
}

/// The index just after the last separator among the first `n` characters of `v` (0 where there is none).
fn segment_start(v: &Vec<char>, n: usize) -> (k: usize)
    requires
        n <= v.len(),
    ensures
        k <= n,
        k == last_sep(v@.take(n as int)) + 1,
{
    let mut i = n;
    while i > 0 && !is_separator(v[i - 1])
        invariant
            i <= n <= v.len(),
            forall|j: int| i <= j < n ==> !is_sep(v@[j]),
        decreases i,
    {
        i = i - 1;
    }
    proof {
        let t = v@.take(n as int);
        lemma_last_sep_unique(t, i - 1);
    }
    i
}

fn is_ascii_letter(c: char) -> (r: bool)
    ensures
        r == is_ascii_alpha(c),
{
    ('a' <= c && c <= 'z') || ('A' <= c && c <= 'Z')
}

fn is_drive_chars(v: &Vec<char>, from: usize, to: usize) -> (r: bool)
    requires
        from <= to <= v.len(),
    ensures
        r == is_drive(v@.subrange(from as int, to as int)),
{
    to - from == 2 && v[from + 1] == ':' && is_ascii_letter(v[from])
}

/// The final component of the path, where it is a name.
pub fn file_name_chars(v: &Vec<char>) -> (r: Option<Vec<char>>)
    ensures
        match r {
            Some(n) => file_name(v@) == Some(n@),
            None => file_name(v@) is None,
        },
{
    let n = trimmed_len(v, v.len());
    assert(v@.take(v.len() as int) =~= v@);
    let k = segment_start(v, n);
    let ghost t = v@.take(n as int);
    let start = if k == 0 && n >= 2 && is_drive_chars(v, 0, 2) {
        assert(t.take(2) =~= v@.subrange(0, 2));
        2
    } else {
        proof {
            if k == 0 && n >= 2 {
                assert(t.take(2) =~= v@.subrange(0, 2));
            }
        }
        k
    };
    let ghost nm = if drive_relative(t) { t.skip(2) } else { last_segment(t) };
    assert(v@.subrange(start as int, n as int) =~= nm);
    let len = n - start;
    if len == 0 {
        return None;
    }
    if len == 1 && v[start] == '.' {
        assert(nm =~= seq!['.']);
        return None;
    }
    if len == 2 && v[start] == '.' && v[start + 1] == '.' {
        assert(nm =~= seq!['.', '.']);
        return None;
    }
    proof {
        if len == 1 {
            assert(nm != seq!['.']) by {
                assert(nm[0] == v@[start as int]);
            }
        }
        if len == 2 {
            assert(nm != seq!['.', '.']) by {
                assert(nm[0] == v@[start as int]);
                assert(nm[1] == v@[start + 1]);
            }
        }
    }
    Some(sub_chars(v, start, n))
}

/// The final component of `path`, where it is a name (as `Path::file_name` gives it).
pub fn file_name_of(path: &str) -> (r: Option<String>)
    ensures
        match r {
            Some(n) => file_name(path@) == Some(n@),
            None => file_name(path@) is None,
        },
{
    let v = chars_of(path);
    match file_name_chars(&v) {
        Some(n) => Some(string_of(&n)),
        None => None,
    }
}

/// The index of the last dot in `v`, plus one (0 where there is none).
fn dot_end(v: &Vec<char>) -> (k: usize)
    ensures
        k <= v.len(),
        k == last_dot(v@) + 1,
{
    let mut i = v.len();
    while i > 0 && v[i - 1] != '.'
        invariant
            i <= v.len(),
            forall|j: int| i <= j < v.len() ==> v@[j] != '.',
        decreases i,
    {
        i = i - 1;
    }
    proof {
        lemma_last_dot_unique(v@, i - 1);
    }
    i
}

/// The file name of `path` without its extension (as `Path::file_stem` gives it).
pub fn file_stem_of(path: &str) -> (r: Option<String>)
    ensures
        match r {
            Some(n) => file_stem(path@) == Some(n@),
            None => file_stem(path@) is None,
        },
{
    let v = chars_of(path);
    match file_name_chars(&v) {
        Some(n) => {
            let d = dot_end(&n);
            if d <= 1 {
                Some(string_of(&n))
            } else {
                let s = sub_chars(&n, 0, d - 1);
                Some(string_of(&s))
            }
        },
        None => None,
    }
}

/// The extension of the file name of `v` (as `Path::extension` gives it).
pub fn extension_chars(v: &Vec<char>) -> (r: Option<Vec<char>>)
    ensures
        match r {
            Some(e) => extension(v@) == Some(e@),
            None => extension(v@) is None,
        },
{
    match file_name_chars(v) {
        Some(n) => {
            let d = dot_end(&n);
            if d <= 1 {
                None
            } else {
                Some(sub_chars(&n, d, n.len()))
            }
        },
        None => None,
    }
}

/// The parent of `path` (as `Path::parent` gives it).
pub fn parent_of(path: &str) -> (r: Option<String>)
    ensures
        match r {
            Some(q) => parent(path@) == Some(q@),
            None => parent(path@) is None,
        },
{
    let v = chars_of(path);
    let n = trimmed_len(&v, v.len());
    assert(v@.take(v.len() as int) =~= v@);
    let ghost t = v@.take(n as int);
    if n == 0 {
        return None;
    }
    let k = segment_start(&v, n);
    if k == 0 {
        if n >= 2 && is_drive_chars(&v, 0, 2) {
            assert(t.take(2) =~= v@.subrange(0, 2));
            if n == 2 {
                return None;
            }
            let r = sub_chars(&v, 0, 2);
            assert(r@ =~= t.take(2));
            return Some(string_of(&r));
        }
        proof {
            if n >= 2 {
                assert(t.take(2) =~= v@.subrange(0, 2));
            }
        }
        return Some(String::new());
    }
    // The head is the text before the last separator; trim what ends it and names nothing.
    proof {
        assert(t.subrange(0, last_sep(t)) =~= v@.take(k - 1));
    }
    let h = trimmed_len(&v, k - 1);
    proof {
        assert(t.subrange(0, h as int) =~= v@.take(h as int));
    }
    if h == 0 {
        let r = sub_chars(&v, 0, 1);
        assert(r@ =~= t.subrange(0, 1));
        return Some(string_of(&r));
    }
    let hk = segment_start(&v, h);
    proof {
        assert(v@.take(h as int) =~= t.subrange(0, h as int));
    }
    if hk == 0 && is_drive_chars(&v, 0, h) {
        assert(v@.subrange(0, h as int) =~= t.subrange(0, h as int));
        let r = sub_chars(&v, 0, 3);
        assert(r@ =~= t.subrange(0, 3));
        return Some(string_of(&r));
    }
    proof {
        if hk == 0 {
            assert(v@.subrange(0, h as int) =~= t.subrange(0, h as int));
        }
    }
    let r = sub_chars(&v, 0, h);
    assert(r@ =~= t.subrange(0, h as int));
    Some(string_of(&r))
}

/// `name` appended to `base` (as `Path::join` gives it for a relative name).
pub fn join_path(base: &str, name: &str) -> (r: String)
    ensures
        r@ == join(base@, name@),
{
    let b = chars_of(base);
    let n = b.len();
    if n == 0 || is_separator(b[n - 1]) || is_drive_chars(&b, 0, n) {
        proof {
            if n > 0 {
                assert(b@.subrange(0, n as int) =~= base@);
            }
        }
        concat_str(base, name)
    } else {
        assert(b@.subrange(0, n as int) =~= base@);
        let mut s = String::from_str(base);
        s.push('\\');
        s.append(name);
        s
    }
}

fn is_dot_segment(cur: &Vec<char>) -> (r: bool)
    ensures
        r == (cur@ == seq!['.']),
{
    if cur.len() == 1 && cur[0] == '.' {
        assert(cur@ =~= seq!['.']);
        true
    } else {
        proof {
            if cur@ == seq!['.'] {
                assert(seq!['.'][0] == '.');
                assert(cur@[0] == '.');
            }
        }
        false
    }
}

/// The components of the path held in `v`.
pub fn components_of(v: &Vec<char>) -> (r: Vec<Vec<char>>)
    ensures
        r@.map_values(|c: Vec<char>| c@) == components(v@),
{
    if v.len() >= 2 && is_drive_chars(v, 0, 2) {
        assert(v@.take(2) =~= v@.subrange(0, 2));
        let rest = sub_chars(v, 2, v.len());
        assert(rest@ =~= v@.skip(2));
        let body = body_components_of(&rest);
        let mut drive: Vec<char> = Vec::new();
        drive.push(ascii_lower_char(v[0]));
        drive.push(':');
        assert(drive@ =~= seq![lower_char(v@[0]), ':']);
        return prepend_component(drive, body);
    }
    proof {
        if v.len() >= 2 {
            assert(v@.take(2) =~= v@.subrange(0, 2));
        }
    }
    body_components_of(v)
}

/// The components of the path held in `v`, where it starts with no drive prefix.
fn body_components_of(v: &Vec<char>) -> (r: Vec<Vec<char>>)
    ensures
        r@.map_values(|c: Vec<char>| c@) == body_components(v@),
{
    let mut done: Vec<Vec<char>> = Vec::new();
    let mut cur: Vec<char> = Vec::new();
    let mut i: usize = 0;
    while i < v.len()
        invariant
            i <= v.len(),
            split_segments(v@.take(i as int)) == (done@.map_values(|c: Vec<char>| c@), cur@),
        decreases v.len() - i,
    {
        assert(v@.take(i + 1).drop_last() =~= v@.take(i as int));
        let c = v[i];
        if is_separator(c) {
            if cur.len() > 0 && !is_dot_segment(&cur) {
                let seg = cur;
                done.push(seg);
            }
            cur = Vec::new();
        } else {
            cur.push(c);
        }
        i = i + 1;
        assert(done@.map_values(|c: Vec<char>| c@) =~= split_segments(v@.take(i as int)).0);
        assert(cur@ =~= split_segments(v@.take(i as int)).1);
    }
    assert(v@.take(v.len() as int) =~= v@);
    if cur.len() > 0 && !is_dot_segment(&cur) {
        done.push(cur);
    }
    let ghost segments = done@.map_values(|c: Vec<char>| c@);
    assert(segments =~= flush_segment(split_segments(v@).0, split_segments(v@).1));
    if v.len() > 0 && is_separator(v[0]) {
        let mut root: Vec<char> = Vec::new();
        root.push('\\');
        assert(root@ =~= seq!['\\']);
        return prepend_component(root, done);
    }
    if v.len() > 0 && v[0] == '.' && (v.len() == 1 || is_separator(v[1])) {
        let mut dot: Vec<char> = Vec::new();
        dot.push('.');
        assert(dot@ =~= seq!['.']);
        assert(!is_sep(v@[0]));
        assert(starts_with_cur_dir(v@));
        let r = prepend_component(dot, done);
        assert(r@.map_values(|c: Vec<char>| c@) =~= body_components(v@));
        return r;
    }
    assert(done@.map_values(|c: Vec<char>| c@) =~= body_components(v@));
    done
}

/// `first` put before the components `rest`.
fn prepend_component(first: Vec<char>, rest: Vec<Vec<char>>) -> (r: Vec<Vec<char>>)
    ensures
        r@.map_values(|c: Vec<char>| c@) == seq![first@] + rest@.map_values(|c: Vec<char>| c@),
{
    let ghost f = first@;
    let ghost old_rest = rest@;
    let mut rest = rest;
    let mut out: Vec<Vec<char>> = Vec::new();
    out.push(first);
    out.append(&mut rest);
    let ghost mapped = out@.map_values(|c: Vec<char>| c@);
    let ghost want = seq![f] + old_rest.map_values(|c: Vec<char>| c@);
    assert forall|j: int| 0 <= j < mapped.len() implies #[trigger] mapped[j] == want[j] by {
        if j > 0 {
            assert(out@[j] == old_rest[j - 1]);
        }
    }
    assert(mapped =~= want);
    out
}

/// Whether the two paths name the same file, component by component.
pub fn same_path_str(a: &str, b: &str) -> (r: bool)
    ensures
        r == same_path(a@, b@),
{
    let ca = components_of(&chars_of(a));
    let cb = components_of(&chars_of(b));
    if ca.len() != cb.len() {
        assert(components(a@).len() == ca@.len());
        assert(components(b@).len() == cb@.len());
        return false;
    }
    let mut i: usize = 0;
    while i < ca.len()
        invariant
            ca.len() == cb.len(),
            i <= ca.len(),
            ca@.map_values(|c: Vec<char>| c@) == components(a@),
            cb@.map_values(|c: Vec<char>| c@) == components(b@),
            forall|j: int| 0 <= j < i ==> ca@[j]@ == cb@[j]@,
        decreases ca.len() - i,
    {
        if !chars_equal(&ca[i], &cb[i]) {
            assert(components(a@)[i as int] == ca@[i as int]@);
            assert(components(b@)[i as int] == cb@[i as int]@);
            return false;
        }
        i = i + 1;
    }
    assert(components(a@) =~= components(b@)) by {
        assert forall|j: int| 0 <= j < components(a@).len() implies components(a@)[j] == components(b@)[j] by {
            assert(components(a@)[j] == ca@[j]@);
            assert(components(b@)[j] == cb@[j]@);
        }
    }
    true
}

} // verus!
