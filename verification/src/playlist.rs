//! Which files are videos the player opens, how file names are ordered, and
//! the playlist of the videos that sit beside an opened one.
use std::cmp::Ordering;
use vstd::prelude::*;
use crate::path::{extension, extension_chars, file_name, file_name_chars, same_path, same_path_str};
use crate::recent::strings_view;
use crate::text::{
    ascii_lowercase, chars_equal, chars_of, lemma_lex_asymmetric, lemma_lex_irreflexive,
    lemma_lex_total, lemma_lex_transitive, lex_lt, lower_seq,
};

verus! {

/// `.mp4` and `.mov`, in any letter case.
pub open spec fn is_video_extension(e: Seq<char>) -> bool {
    lower_seq(e) == "mp4"@ || lower_seq(e) == "mov"@
}

/// A path whose extension names a video the player opens.
pub open spec fn is_supported_video(p: Seq<char>) -> bool {
    match extension(p) {
        Some(e) => is_video_extension(e),
        None => false,
    }
}

/// Whether `path` names an `.mp4` or `.mov` file (in any letter case).
pub fn is_supported_video_file(path: &str) -> (r: bool)
    ensures
        r == is_supported_video(path@),
{
    let v = chars_of(path);
    match extension_chars(&v) {
        Some(e) => {
            let low = ascii_lowercase(&e);
            let mp4 = chars_of("mp4");
            let mov = chars_of("mov");
            chars_equal(&low, &mp4) || chars_equal(&low, &mov)
        },
        None => false,
    }
}

/// What file names are ordered by: the file name in lower case (empty where there is none).
pub open spec fn name_key(p: Seq<char>) -> Seq<char> {
    lower_seq(
        match file_name(p) {
            Some(n) => n,
            None => Seq::empty(),
        },
    )
}

fn name_key_of(path: &str) -> (r: Vec<char>)
    ensures
        r@ == name_key(path@),
{
    let v = chars_of(path);
    match file_name_chars(&v) {
        Some(n) => ascii_lowercase(&n),
        None => {
            let e: Vec<char> = Vec::new();
            let r = ascii_lowercase(&e);
            assert(r@ =~= name_key(path@));
            r
        },
    }
}

/// Whether `a` comes strictly before `b` in lexicographic order.
pub fn lex_less(a: &Vec<char>, b: &Vec<char>) -> (r: bool)
    ensures
        r == lex_lt(a@, b@),
{
    let mut i: usize = 0;
    assert(a@.skip(0) =~= a@);
    assert(b@.skip(0) =~= b@);
    while i < a.len() && i < b.len() && a[i] == b[i]
        invariant
            i <= a.len(),
            i <= b.len(),
            lex_lt(a@, b@) == lex_lt(a@.skip(i as int), b@.skip(i as int)),
        decreases a.len() - i,
    {
        assert(a@.skip(i as int).drop_first() =~= a@.skip(i + 1));
        assert(b@.skip(i as int).drop_first() =~= b@.skip(i + 1));
        i = i + 1;
    }
    if i == a.len() {
        i < b.len()
    } else if i == b.len() {
        false
    } else {
        a[i] < b[i]
    }
}

/// The order of two paths by their file names, compared in lower case.
pub fn compare_file_names(left: &str, right: &str) -> (r: Ordering)
    ensures
        (r == Ordering::Less) == lex_lt(name_key(left@), name_key(right@)),
        (r == Ordering::Greater) == lex_lt(name_key(right@), name_key(left@)),
        (r == Ordering::Equal) == (name_key(left@) == name_key(right@)),
{
    let l = name_key_of(left);
    let r = name_key_of(right);
    proof {
        lemma_lex_total(l@, r@);
        lemma_lex_asymmetric(l@, r@);
        lemma_lex_irreflexive(l@);
    }
    if lex_less(&l, &r) {
        Ordering::Less
    } else if lex_less(&r, &l) {
        Ordering::Greater
    } else {
        Ordering::Equal
    }
}

/// The paths ordered by file name: no later one comes strictly before an earlier one.
pub open spec fn sorted_by_name(s: Seq<Seq<char>>) -> bool {
    forall|i: int, j: int| 0 <= i < j < s.len() ==> !lex_lt(name_key(s[j]), name_key(s[i]))
}

/// The supported videos among `files`, in order.
pub open spec fn supported_only(files: Seq<Seq<char>>) -> Seq<Seq<char>>
    decreases files.len(),
{
    if files.len() == 0 {
        Seq::empty()
    } else {
        let rest = supported_only(files.drop_last());
        if is_supported_video(files.last()) {
            rest.push(files.last())
        } else {
            rest
        }
    }
}

/// Where `x` goes among paths already in order: before the first one whose name comes strictly
/// after its own, so that paths with equal names keep the order they came in.
pub open spec fn insert_position(sorted: Seq<Seq<char>>, x: Seq<char>) -> nat
    decreases sorted.len(),
{
    if sorted.len() == 0 {
        0
    } else if lex_lt(name_key(x), name_key(sorted[0])) {
        0
    } else {
        1 + insert_position(sorted.drop_first(), x)
    }
}

/// The paths sorted by file name by inserting them one after another: a stable sort, so paths
/// with equal names keep the order they came in.
pub open spec fn stable_sorted(s: Seq<Seq<char>>) -> Seq<Seq<char>>
    decreases s.len(),
{
    if s.len() == 0 {
        Seq::empty()
    } else {
        let r = stable_sorted(s.drop_last());
        r.insert(insert_position(r, s.last()) as int, s.last())
    }
}

proof fn lemma_insert_position(sorted: Seq<Seq<char>>, x: Seq<char>, p: int)
    requires
        0 <= p <= sorted.len(),
        forall|j: int| 0 <= j < p ==> !lex_lt(name_key(x), #[trigger] name_key(sorted[j])),
        p < sorted.len() ==> lex_lt(name_key(x), name_key(sorted[p])),
    ensures
        insert_position(sorted, x) == p,
    decreases p,
{
    if p > 0 {
        let d = sorted.drop_first();
        assert(!lex_lt(name_key(x), name_key(sorted[0])));
        assert forall|j: int| 0 <= j < p - 1 implies !lex_lt(name_key(x), #[trigger] name_key(d[j])) by {
            assert(d[j] == sorted[j + 1]);
        }
        if p < sorted.len() {
            assert(d[p - 1] == sorted[p]);
        }
        lemma_insert_position(d, x, p - 1);
    }
}

proof fn lemma_insert_multiset(s: Seq<Seq<char>>, p: int, x: Seq<char>)
    requires
        0 <= p <= s.len(),
    ensures
        s.insert(p, x).to_multiset() == s.to_multiset().insert(x),
{
    broadcast use vstd::seq_lib::group_to_multiset_ensures;
    let t = s.insert(p, x);
    assert(t.remove(p) =~= s);
    assert(t[p] == x);
    assert(t.remove(p).to_multiset() =~= t.to_multiset().remove(x));
    assert(t.to_multiset().count(x) > 0) by {
        assert(t.contains(x));
    }
    assert(t.to_multiset() =~= s.to_multiset().insert(x));
}

/// `files` sorted by file name (files with equal names keep their order).
pub fn sort_by_file_name(files: &Vec<String>) -> (r: Vec<String>)
    ensures
        strings_view(r@) == stable_sorted(strings_view(files@)),
        sorted_by_name(strings_view(r@)),
        strings_view(r@).to_multiset() == strings_view(files@).to_multiset(),
{
    broadcast use vstd::seq_lib::group_to_multiset_ensures;
    let mut r: Vec<String> = Vec::new();
    let mut keys: Vec<Vec<char>> = Vec::new();
    let mut i: usize = 0;
    while i < files.len()
        invariant
            i <= files.len(),
            keys@.len() == r@.len(),
            forall|j: int| 0 <= j < r@.len() ==> #[trigger] keys@[j]@ == name_key(r@[j]@),
            sorted_by_name(strings_view(r@)),
            strings_view(r@).to_multiset() == strings_view(files@.take(i as int)).to_multiset(),
            strings_view(r@) == stable_sorted(strings_view(files@.take(i as int))),
        decreases files.len() - i,
    {
        let x = files[i].clone();
        let kx = name_key_of(x.as_str());
        let mut p: usize = 0;
        while p < r.len() && !lex_less(&kx, &keys[p])
            invariant
                p <= r.len() == keys.len(),
                forall|j: int| 0 <= j < p ==> !lex_lt(kx@, #[trigger] keys@[j]@),
            decreases r.len() - p,
        {
            p = p + 1;
        }
        let ghost before = strings_view(r@);
        let ghost before_keys = keys@;
        proof {
            assert forall|j: int| 0 <= j < p implies !lex_lt(name_key(files@[i as int]@), #[trigger] name_key(before[j])) by {
                assert(name_key(before[j]) == keys@[j]@);
            }
            if p < before.len() {
                assert(name_key(before[p as int]) == keys@[p as int]@);
            }
            lemma_insert_position(before, files@[i as int]@, p as int);
            let t = strings_view(files@.take(i + 1));
            assert(t.drop_last() =~= strings_view(files@.take(i as int)));
            assert(t.last() == files@[i as int]@);
        }
        r.insert(p, x);
        keys.insert(p, kx);
        proof {
            assert(strings_view(r@) =~= before.insert(p as int, files@[i as int]@));
            lemma_insert_multiset(before, p as int, files@[i as int]@);
            assert(strings_view(files@.take(i + 1)) =~= strings_view(files@.take(i as int)).push(
                files@[i as int]@,
            ));
            vstd::seq_lib::to_multiset_build(strings_view(files@.take(i as int)), files@[i as int]@);
            assert forall|j: int| 0 <= j < r@.len() implies #[trigger] keys@[j]@ == name_key(r@[j]@) by {
                if j < p {
                    assert(keys@[j] == before_keys[j]);
                } else if j > p {
                    assert(keys@[j] == before_keys[j - 1]);
                }
            }
            let sv = strings_view(r@);
            assert forall|a: int, b: int| 0 <= a < b < sv.len() implies !lex_lt(name_key(sv[b]), name_key(sv[a])) by {
                assert(name_key(sv[a]) == keys@[a]@);
                assert(name_key(sv[b]) == keys@[b]@);
                if b < p {
                    assert(name_key(before[a]) == before_keys[a]@);
                    assert(name_key(before[b]) == before_keys[b]@);
                } else if b == p {
                    assert(keys@[a] == before_keys[a]);
                } else if a < p {
                    // keys[a] <= kx < keys[p+1..] ordering, via the old order
                    assert(keys@[b] == before_keys[b - 1]);
                    assert(keys@[a] == before_keys[a]);
                    assert(name_key(before[a]) == before_keys[a]@);
                    assert(name_key(before[b - 1]) == before_keys[b - 1]@);
                } else if a == p {
                    assert(keys@[b] == before_keys[b - 1]);
                    assert(lex_lt(kx@, before_keys[p as int]@));
                    if b - 1 > p {
                        assert(name_key(before[p as int]) == before_keys[p as int]@);
                        assert(name_key(before[b - 1]) == before_keys[b - 1]@);
                        assert(!lex_lt(before_keys[b - 1]@, before_keys[p as int]@));
                        lemma_lex_total(before_keys[b - 1]@, before_keys[p as int]@);
                        lemma_lex_transitive(kx@, before_keys[p as int]@, before_keys[b - 1]@);
                    }
                    lemma_lex_asymmetric(kx@, before_keys[b - 1]@);
                } else {
                    assert(keys@[a] == before_keys[a - 1]);
                    assert(keys@[b] == before_keys[b - 1]);
                    assert(name_key(before[a - 1]) == before_keys[a - 1]@);
                    assert(name_key(before[b - 1]) == before_keys[b - 1]@);
                }
            }
        }
        i = i + 1;
    }
    assert(files@.take(files.len() as int) =~= files@);
    r
}

fn supported_files(files: &Vec<String>) -> (r: Vec<String>)
    ensures
        strings_view(r@) == supported_only(strings_view(files@)),
{
    let mut r: Vec<String> = Vec::new();
    let mut i: usize = 0;
    while i < files.len()
        invariant
            i <= files.len(),
            strings_view(r@) == supported_only(strings_view(files@.take(i as int))),
        decreases files.len() - i,
    {
        let ghost prev = strings_view(files@.take(i as int));
        let ghost next = strings_view(files@.take(i + 1));
        assert(next =~= prev.push(files@[i as int]@));
        assert(next.drop_last() =~= prev);
        assert(next.last() == files@[i as int]@);
        if is_supported_video_file(files[i].as_str()) {
            let c = files[i].clone();
            assert(strings_view(r@.push(c)) =~= strings_view(r@).push(c@));
            r.push(c);
        }
        i = i + 1;
    }
    assert(files@.take(files.len() as int) =~= files@);
    r
}

/// The playlist for an opened video. `dir_files` are the files in its folder, where the folder
/// could be read. The supported videos there, sorted by file name, form the playlist where the
/// opened video is among them; otherwise the playlist is the opened video alone.
pub fn sibling_playlist(path: &str, dir_files: Option<Vec<String>>) -> (r: Vec<String>)
    ensures
        match dir_files {
            None => strings_view(r@) == seq![path@],
            Some(files) => {
                let cands = supported_only(strings_view(files@));
                if exists|k: int| 0 <= k < cands.len() && same_path(#[trigger] cands[k], path@) {
                    &&& strings_view(r@) == stable_sorted(cands)
                    &&& sorted_by_name(strings_view(r@))
                    &&& strings_view(r@).to_multiset() == cands.to_multiset()
                } else {
                    strings_view(r@) == seq![path@]
                }
            },
        },
{
    let alone = |p: &str| -> (v: Vec<String>)
        ensures
            strings_view(v@) == seq![p@],
        {
            let mut v: Vec<String> = Vec::new();
            v.push(String::from_str(p));
            assert(strings_view(v@) =~= seq![p@]);
            v
        };
    match dir_files {
        None => alone(path),
        Some(files) => {
            let cands = supported_files(&files);
            let sorted = sort_by_file_name(&cands);
            let ghost cv = strings_view(cands@);
            let mut found = false;
            let mut i: usize = 0;
            while i < cands.len()
                invariant
                    i <= cands.len(),
                    cv == strings_view(cands@),
                    found ==> exists|k: int| 0 <= k < cv.len() && same_path(#[trigger] cv[k], path@),
                    !found ==> forall|k: int| 0 <= k < i ==> !same_path(#[trigger] cv[k], path@),
                decreases cands.len() - i,
            {
                if same_path_str(cands[i].as_str(), path) {
                    assert(cv[i as int] == cands@[i as int]@);
                    found = true;
                }
                assert(cv[i as int] == cands@[i as int]@);
                i = i + 1;
            }
            if found {
                sorted
            } else {
                alone(path)
            }
        },
    }
}

} // verus!
