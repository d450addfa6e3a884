//! The list of recently opened sessions: what a session records, how it is
//! summarized, and how the list is updated when a session is opened.
use vstd::prelude::*;
use crate::path::{file_name, file_name_of, same_path, same_path_str};
use crate::playback::ViewMode;
use crate::text::{decimal, decimal_string};

verus! {

/// The longest the list of recent sessions grows.
pub const MAX_RECENT_SESSIONS: usize = 30;

/// The view mode and files of a session that was opened.
#[derive(Debug, Clone)]
pub struct RecentSession {
    pub view_mode: ViewMode,
    pub paths: Vec<String>,
}

/// The mathematical value of a [`RecentSession`].
pub struct SessionView {
    pub view_mode: ViewMode,
    pub paths: Seq<Seq<char>>,
}

pub open spec fn strings_view(v: Seq<String>) -> Seq<Seq<char>> {
    v.map_values(|s: String| s@)
}

impl View for RecentSession {
    type V = SessionView;

    open spec fn view(&self) -> SessionView {
        SessionView { view_mode: self.view_mode, paths: strings_view(self.paths@) }
    }
}

pub open spec fn sessions_view(v: Seq<RecentSession>) -> Seq<SessionView> {
    v.map_values(|s: RecentSession| s@)
}

/// Copies of the strings of `v`.
pub fn clone_strings(v: &Vec<String>) -> (r: Vec<String>)
    ensures
        strings_view(r@) == strings_view(v@),
{
    let mut r: Vec<String> = Vec::new();
    let mut i: usize = 0;
    while i < v.len()
        invariant
            i <= v.len(),
            strings_view(r@) == strings_view(v@.take(i as int)),
        decreases v.len() - i,
    {
        let c = v[i].clone();
        proof {
            lemma_strings_view_push(r@, c);
            lemma_strings_view_push(v@.take(i as int), v@[i as int]);
            assert(v@.take(i + 1) =~= v@.take(i as int).push(v@[i as int]));
        }
        r.push(c);
        i = i + 1;
    }
    assert(v@.take(v.len() as int) =~= v@);
    r
}

/// The file name shown for a session: that of its first file, or `(missing)`.
pub open spec fn session_head(paths: Seq<Seq<char>>) -> Seq<char> {
    if paths.len() == 0 {
        "(missing)"@
    } else {
        match file_name(paths[0]) {
            Some(n) => n,
            None => "(missing)"@,
        }
    }
}

/// `Mode | first-file`, followed by ` (+n)` where the session holds `n` more files.
pub open spec fn session_summary(s: SessionView) -> Seq<char> {
    let head = s.view_mode.spec_label() + " | "@ + session_head(s.paths);
    if s.paths.len() <= 1 {
        head
    } else {
        head + " (+"@ + decimal((s.paths.len() - 1) as nat) + ")"@
    }
}

impl RecentSession {
    /// The line that lists the session in the recent-sessions selector.
    pub fn summary(&self) -> (r: String)
        ensures
            r@ == session_summary(self@),
    {
        let head = if self.paths.len() == 0 {
            String::from_str("(missing)")
        } else {
            match file_name_of(self.paths[0].as_str()) {
                Some(n) => n,
                None => String::from_str("(missing)"),
            }
        };
        let extra = if self.paths.len() == 0 {
            0
        } else {
            self.paths.len() - 1
        };
        let mut s = String::from_str(self.view_mode.label());
        s.append(" | ");
        s.append(head.as_str());
        if extra > 0 {
            s.append(" (+");
            let n = decimal_string(extra as u64);
            s.append(n.as_str());
            s.append(")");
        }
        s
    }

    /// A copy of the session.
    pub fn duplicate(&self) -> (r: Self)
        ensures
            r@ == self@,
    {
        RecentSession { view_mode: self.view_mode, paths: clone_strings(&self.paths) }
    }
}

/// Two path lists name the same files, in the same order.
pub open spec fn same_paths(a: Seq<Seq<char>>, b: Seq<Seq<char>>) -> bool {
    a.len() == b.len() && forall|i: int| 0 <= i < a.len() ==> same_path(#[trigger] a[i], b[i])
}

/// Whether the two path lists name the same files, in the same order.
pub fn same_path_list(a: &Vec<String>, b: &Vec<String>) -> (r: bool)
    ensures
        r == same_paths(strings_view(a@), strings_view(b@)),
{
    if a.len() != b.len() {
        return false;
    }
    let mut i: usize = 0;
    while i < a.len()
        invariant
            a.len() == b.len(),
            i <= a.len(),
            forall|j: int| 0 <= j < i ==> same_path(#[trigger] strings_view(a@)[j], strings_view(b@)[j]),
        decreases a.len() - i,
    {
        if !same_path_str(a[i].as_str(), b[i].as_str()) {
            assert(strings_view(a@)[i as int] == a@[i as int]@);
            return false;
        }
        assert(strings_view(a@)[i as int] == a@[i as int]@);
        assert(strings_view(b@)[i as int] == b@[i as int]@);
        i = i + 1;
    }
    true
}

/// Whether the session records the same view mode and files.
pub open spec fn is_same_session(s: SessionView, view_mode: ViewMode, paths: Seq<Seq<char>>) -> bool {
    s.view_mode == view_mode && same_paths(s.paths, paths)
}

/// The sessions of `s` other than the one with this view mode and these files, in order.
pub open spec fn without_session(s: Seq<SessionView>, view_mode: ViewMode, paths: Seq<Seq<char>>) -> Seq<SessionView>
    decreases s.len(),
{
    if s.len() == 0 {
        s
    } else {
        let rest = without_session(s.drop_last(), view_mode, paths);
        if is_same_session(s.last(), view_mode, paths) {
            rest
        } else {
            rest.push(s.last())
        }
    }
}

/// At most the first `n` elements of `s`.
pub open spec fn at_most<A>(s: Seq<A>, n: nat) -> Seq<A> {
    if s.len() > n {
        s.take(n as int)
    } else {
        s
    }
}

/// The recent list once a session with `view_mode` and the existing `paths` was opened:
/// the session moves to the front, and the list keeps at most 30 entries.
/// Where no path exists the list keeps its first 30 entries and gains none.
pub open spec fn recorded(s: Seq<SessionView>, view_mode: ViewMode, paths: Seq<Seq<char>>) -> Seq<SessionView> {
    if paths.len() == 0 {
        at_most(s, MAX_RECENT_SESSIONS as nat)
    } else {
        at_most(
            seq![SessionView { view_mode, paths }] + without_session(s, view_mode, paths),
            MAX_RECENT_SESSIONS as nat,
        )
    }
}

/// The sessions that hold at least one file, in order.
pub open spec fn nonempty_sessions(s: Seq<SessionView>) -> Seq<SessionView>
    decreases s.len(),
{
    if s.len() == 0 {
        s
    } else {
        let rest = nonempty_sessions(s.drop_last());
        if s.last().paths.len() == 0 {
            rest
        } else {
            rest.push(s.last())
        }
    }
}

/// What loading the stored list keeps of it: the sessions that hold at least one
/// file, in order, and of those the first 30.
pub open spec fn loaded_sessions(s: Seq<SessionView>) -> Seq<SessionView> {
    at_most(nonempty_sessions(s), MAX_RECENT_SESSIONS as nat)
}

/// The stored sessions that hold at least one file, at most 30 of them, as loading
/// the list keeps them.
pub fn keep_nonempty_sessions(sessions: Vec<RecentSession>) -> (r: Vec<RecentSession>)
    ensures
        sessions_view(r@) == loaded_sessions(sessions_view(sessions@)),
{
    let mut r: Vec<RecentSession> = Vec::new();
    let mut i: usize = 0;
    while i < sessions.len()
        invariant
            i <= sessions.len(),
            sessions_view(r@) == nonempty_sessions(sessions_view(sessions@.take(i as int))),
        decreases sessions.len() - i,
    {
        assert(sessions_view(sessions@.take(i + 1)).drop_last() =~= sessions_view(
            sessions@.take(i as int),
        ));
        proof {
            lemma_sessions_view_push(sessions@.take(i as int), sessions@[i as int]);
            assert(sessions@.take(i + 1) =~= sessions@.take(i as int).push(sessions@[i as int]));
        }
        if sessions[i].paths.len() > 0 {
            let c = sessions[i].duplicate();
            proof {
                lemma_sessions_view_push(r@, c);
            }
            r.push(c);
        }
        i = i + 1;
    }
    assert(sessions@.take(sessions.len() as int) =~= sessions@);
    r.truncate(MAX_RECENT_SESSIONS);
    assert(sessions_view(r@) =~= loaded_sessions(sessions_view(sessions@)));
    r
}

/// The paths whose `exists` flag holds, in order.
pub open spec fn existing(paths: Seq<Seq<char>>, exists: Seq<bool>) -> Seq<Seq<char>>
    decreases paths.len(),
{
    if paths.len() == 0 || exists.len() != paths.len() {
        Seq::empty()
    } else {
        let rest = existing(paths.drop_last(), exists.drop_last());
        if exists.last() {
            rest.push(paths.last())
        } else {
            rest
        }
    }
}

/// The paths that exist on disk (`exists[i]` tells of `paths[i]`), in order.
pub fn existing_paths(paths: &Vec<String>, exists: &Vec<bool>) -> (r: Vec<String>)
    requires
        paths.len() == exists.len(),
    ensures
        strings_view(r@) == existing(strings_view(paths@), exists@),
{
    let mut r: Vec<String> = Vec::new();
    let mut i: usize = 0;
    while i < paths.len()
        invariant
            i <= paths.len() == exists.len(),
            strings_view(r@) == existing(strings_view(paths@.take(i as int)), exists@.take(i as int)),
        decreases paths.len() - i,
    {
        assert(strings_view(paths@.take(i + 1)).drop_last() =~= strings_view(paths@.take(i as int)));
        assert(exists@.take(i + 1).drop_last() =~= exists@.take(i as int));
        proof {
            lemma_strings_view_push(paths@.take(i as int), paths@[i as int]);
            assert(paths@.take(i + 1) =~= paths@.take(i as int).push(paths@[i as int]));
        }
        if exists[i] {
            let c = paths[i].clone();
            proof {
                lemma_strings_view_push(r@, c);
            }
            r.push(c);
        }
        i = i + 1;
    }
    assert(paths@.take(paths.len() as int) =~= paths@);
    assert(exists@.take(exists.len() as int) =~= exists@);
    r
}

/// The recent list once a session with `view_mode` and the existing `paths` was opened
/// (the part of recording a session that does not touch the disk).
pub fn record_session(sessions: &Vec<RecentSession>, view_mode: ViewMode, paths: &Vec<String>) -> (r: Vec<RecentSession>)
    ensures
        sessions_view(r@) == recorded(sessions_view(sessions@), view_mode, strings_view(paths@)),
{
    let ghost pv = strings_view(paths@);
    if paths.len() == 0 {
        let mut copy: Vec<RecentSession> = Vec::new();
        let mut i: usize = 0;
        while i < sessions.len()
            invariant
                i <= sessions.len(),
                sessions_view(copy@) == sessions_view(sessions@.take(i as int)),
            decreases sessions.len() - i,
        {
            let c = sessions[i].duplicate();
            proof {
                lemma_sessions_view_push(copy@, c);
                lemma_sessions_view_push(sessions@.take(i as int), sessions@[i as int]);
                assert(sessions@.take(i + 1) =~= sessions@.take(i as int).push(sessions@[i as int]));
            }
            copy.push(c);
            i = i + 1;
        }
        assert(sessions@.take(sessions.len() as int) =~= sessions@);
        assert(pv.len() == 0);
        copy.truncate(MAX_RECENT_SESSIONS);
        assert(sessions_view(copy@) =~= recorded(sessions_view(sessions@), view_mode, pv));
        return copy;
    }
    let mut kept: Vec<RecentSession> = Vec::new();
    kept.push(RecentSession { view_mode, paths: clone_strings(paths) });
    let mut i: usize = 0;
    while i < sessions.len()
        invariant
            i <= sessions.len(),
            pv == strings_view(paths@),
            sessions_view(kept@) == seq![SessionView { view_mode, paths: pv }] + without_session(
                sessions_view(sessions@.take(i as int)),
                view_mode,
                pv,
            ),
        decreases sessions.len() - i,
    {
        assert(sessions_view(sessions@.take(i + 1)).drop_last() =~= sessions_view(
            sessions@.take(i as int),
        ));
        let same = sessions[i].view_mode == view_mode && same_path_list(&sessions[i].paths, paths);
        proof {
            lemma_sessions_view_push(sessions@.take(i as int), sessions@[i as int]);
            assert(sessions@.take(i + 1) =~= sessions@.take(i as int).push(sessions@[i as int]));
        }
        if !same {
            let c = sessions[i].duplicate();
            proof {
                lemma_sessions_view_push(kept@, c);
            }
            kept.push(c);
        }
        i = i + 1;
    }
    assert(sessions@.take(sessions.len() as int) =~= sessions@);
    kept.truncate(MAX_RECENT_SESSIONS);
    assert(sessions_view(kept@) =~= recorded(sessions_view(sessions@), view_mode, pv));
    kept
}

// ---------------------------------------------------------------------------
// Laws of the recent list
// ---------------------------------------------------------------------------

proof fn lemma_without_session_shape(s: Seq<SessionView>, view_mode: ViewMode, paths: Seq<Seq<char>>)
    ensures
        without_session(s, view_mode, paths).len() <= s.len(),
        forall|i: int| 0 <= i < without_session(s, view_mode, paths).len() ==> !is_same_session(
            #[trigger] without_session(s, view_mode, paths)[i],
            view_mode,
            paths,
        ),
        forall|i: int| 0 <= i < without_session(s, view_mode, paths).len() ==> s.contains(
            #[trigger] without_session(s, view_mode, paths)[i],
        ),
    decreases s.len(),
{
    if s.len() > 0 {
        lemma_without_session_shape(s.drop_last(), view_mode, paths);
        let rest = without_session(s.drop_last(), view_mode, paths);
        assert forall|i: int| 0 <= i < without_session(s, view_mode, paths).len() implies s.contains(
            #[trigger] without_session(s, view_mode, paths)[i],
        ) by {
            if i < rest.len() {
                let x = rest[i];
                assert(s.drop_last().contains(x));
                let k = choose|k: int| 0 <= k < s.drop_last().len() && s.drop_last()[k] == x;
                assert(s[k] == x);
            } else {
                assert(s[s.len() - 1] == s.last());
            }
        }
    }
}

proof fn lemma_without_session_noop(s: Seq<SessionView>, view_mode: ViewMode, paths: Seq<Seq<char>>)
    requires
        forall|i: int| 0 <= i < s.len() ==> !is_same_session(#[trigger] s[i], view_mode, paths),
    ensures
        without_session(s, view_mode, paths) == s,
    decreases s.len(),
{
    if s.len() > 0 {
        assert forall|i: int| 0 <= i < s.drop_last().len() implies !is_same_session(
            #[trigger] s.drop_last()[i],
            view_mode,
            paths,
        ) by {
            assert(s.drop_last()[i] == s[i]);
        }
        lemma_without_session_noop(s.drop_last(), view_mode, paths);
        assert(!is_same_session(s[s.len() - 1], view_mode, paths));
        assert(s.drop_last().push(s.last()) =~= s);
    }
}

/// Once a session is recorded, it stands first, no other entry records the same
/// view mode and files, and the list holds at most 30 entries.
pub proof fn lemma_recorded_front_unique(s: Seq<SessionView>, view_mode: ViewMode, paths: Seq<Seq<char>>)
    requires
        paths.len() > 0,
    ensures
        recorded(s, view_mode, paths).len() <= MAX_RECENT_SESSIONS,
        recorded(s, view_mode, paths)[0] == (SessionView { view_mode, paths }),
        forall|i: int|
            1 <= i < recorded(s, view_mode, paths).len() ==> !is_same_session(
                #[trigger] recorded(s, view_mode, paths)[i],
                view_mode,
                paths,
            ),
{
    lemma_without_session_shape(s, view_mode, paths);
    let w = without_session(s, view_mode, paths);
    let full = seq![SessionView { view_mode, paths }] + w;
    assert forall|i: int| 1 <= i < recorded(s, view_mode, paths).len() implies !is_same_session(
        #[trigger] recorded(s, view_mode, paths)[i],
        view_mode,
        paths,
    ) by {
        assert(recorded(s, view_mode, paths)[i] == full[i]);
        assert(full[i] == w[i - 1]);
    }
}

proof fn lemma_without_session_keeps(s: Seq<SessionView>, view_mode: ViewMode, paths: Seq<Seq<char>>)
    ensures
        forall|i: int|
            0 <= i < s.len() && !is_same_session(#[trigger] s[i], view_mode, paths) ==> without_session(
                s,
                view_mode,
                paths,
            ).contains(s[i]),
    decreases s.len(),
{
    if s.len() > 0 {
        let prev = s.drop_last();
        lemma_without_session_keeps(prev, view_mode, paths);
        let wp = without_session(prev, view_mode, paths);
        let w = without_session(s, view_mode, paths);
        assert forall|i: int|
            0 <= i < s.len() && !is_same_session(#[trigger] s[i], view_mode, paths) implies w.contains(s[i]) by {
            if i == s.len() - 1 {
                assert(w == wp.push(s.last()));
                assert(w[w.len() - 1] == s[i]);
            } else {
                assert(s[i] == prev[i]);
                assert(wp.contains(prev[i]));
                let k = choose|k: int| 0 <= k < wp.len() && wp[k] == prev[i];
                if !is_same_session(s.last(), view_mode, paths) {
                    assert(w[k] == wp[k]);
                }
            }
        }
    }
}

/// Recording a session puts it first, with exactly its view mode and files; it drops every
/// entry with the same view mode and a path list naming the same files in the same order;
/// and, while the list holds fewer than 30 entries, it keeps every other entry.
pub proof fn lemma_recorded_keeps_others(s: Seq<SessionView>, view_mode: ViewMode, paths: Seq<Seq<char>>)
    requires
        paths.len() > 0,
    ensures
        recorded(s, view_mode, paths)[0].view_mode == view_mode,
        recorded(s, view_mode, paths)[0].paths == paths,
        forall|i: int|
            1 <= i < recorded(s, view_mode, paths).len() ==> !({
                let x = #[trigger] recorded(s, view_mode, paths)[i];
                &&& x.view_mode == view_mode
                &&& x.paths.len() == paths.len()
                &&& forall|j: int| 0 <= j < paths.len() ==> same_path(x.paths[j], paths[j])
            }),
        forall|i: int|
            0 <= i < s.len() && s.len() < MAX_RECENT_SESSIONS && ((#[trigger] s[i]).view_mode != view_mode
                || s[i].paths.len() != paths.len() || exists|j: int|
                0 <= j < paths.len() && !same_path(s[i].paths[j], paths[j])) ==> recorded(
                s,
                view_mode,
                paths,
            ).contains(s[i]),
{
    lemma_recorded_front_unique(s, view_mode, paths);
    let r = recorded(s, view_mode, paths);
    assert forall|i: int| 1 <= i < r.len() implies !({
        let x = #[trigger] r[i];
        &&& x.view_mode == view_mode
        &&& x.paths.len() == paths.len()
        &&& forall|j: int| 0 <= j < paths.len() ==> same_path(x.paths[j], paths[j])
    }) by {
        assert(!is_same_session(r[i], view_mode, paths));
    }
    lemma_without_session_keeps(s, view_mode, paths);
    lemma_without_session_shape(s, view_mode, paths);
    let w = without_session(s, view_mode, paths);
    let full = seq![SessionView { view_mode, paths }] + w;
    assert forall|i: int|
        0 <= i < s.len() && s.len() < MAX_RECENT_SESSIONS && ((#[trigger] s[i]).view_mode != view_mode
            || s[i].paths.len() != paths.len() || exists|j: int|
            0 <= j < paths.len() && !same_path(s[i].paths[j], paths[j])) implies r.contains(s[i]) by {
        assert(!is_same_session(s[i], view_mode, paths));
        assert(w.contains(s[i]));
        let k = choose|k: int| 0 <= k < w.len() && w[k] == s[i];
        assert(r == full);
        assert(full[k + 1] == w[k]);
    }
}

/// Recording a session that no entry records yet (no entry has its view mode and a path list
/// naming the same files in the same order) puts it before the list, which keeps its order
/// and, of its entries, the first 29.
pub proof fn lemma_recorded_new_session(s: Seq<SessionView>, view_mode: ViewMode, paths: Seq<Seq<char>>)
    requires
        paths.len() > 0,
        forall|i: int|
            0 <= i < s.len() ==> !((#[trigger] s[i]).view_mode == view_mode && s[i].paths.len() == paths.len()
                && forall|j: int| 0 <= j < paths.len() ==> same_path(s[i].paths[j], paths[j])),
    ensures
        recorded(s, view_mode, paths) == seq![SessionView { view_mode, paths }] + at_most(
            s,
            (MAX_RECENT_SESSIONS - 1) as nat,
        ),
{
    assert forall|i: int| 0 <= i < s.len() implies !is_same_session(#[trigger] s[i], view_mode, paths) by {
        if is_same_session(s[i], view_mode, paths) {
            assert(forall|j: int| 0 <= j < paths.len() ==> same_path(s[i].paths[j], paths[j]));
        }
    }
    lemma_without_session_noop(s, view_mode, paths);
    let full = seq![SessionView { view_mode, paths }] + s;
    assert(recorded(s, view_mode, paths) =~= seq![SessionView { view_mode, paths }] + at_most(
        s,
        (MAX_RECENT_SESSIONS - 1) as nat,
    ));
}

/// Recording the same session twice in a row leaves the list as the first recording left it.
pub proof fn lemma_recorded_idempotent(s: Seq<SessionView>, view_mode: ViewMode, paths: Seq<Seq<char>>)
    ensures
        recorded(recorded(s, view_mode, paths), view_mode, paths) == recorded(s, view_mode, paths),
{
    if paths.len() == 0 {
        let once = recorded(s, view_mode, paths);
        assert(recorded(once, view_mode, paths) =~= once);
    } else {
        let once = recorded(s, view_mode, paths);
        lemma_recorded_front_unique(s, view_mode, paths);
        let tail = once.drop_first();
        assert forall|i: int| 0 <= i < tail.len() implies !is_same_session(#[trigger] tail[i], view_mode, paths) by {
            assert(tail[i] == once[i + 1]);
        }
        lemma_without_session_noop(tail, view_mode, paths);
        assert(once =~= seq![once[0]] + tail);
        let first = once[0];
        assert(is_same_session(first, view_mode, paths));
        assert(once.drop_last().len() == once.len() - 1);
        lemma_without_session_cons(first, tail, view_mode, paths);
        assert(without_session(once, view_mode, paths) == tail);
        assert(seq![SessionView { view_mode, paths }] + tail =~= once);
    }
}

/// An entry that records the session, put before a list, is dropped with the rest.
proof fn lemma_without_session_cons(x: SessionView, t: Seq<SessionView>, view_mode: ViewMode, paths: Seq<Seq<char>>)
    requires
        is_same_session(x, view_mode, paths),
    ensures
        without_session(seq![x] + t, view_mode, paths) == without_session(t, view_mode, paths),
    decreases t.len(),
{
    if t.len() == 0 {
        assert((seq![x] + t).drop_last() =~= Seq::<SessionView>::empty());
        assert((seq![x] + t).last() == x);
        assert(t =~= Seq::<SessionView>::empty());
    } else {
        assert((seq![x] + t).drop_last() =~= seq![x] + t.drop_last());
        assert((seq![x] + t).last() == t.last());
        lemma_without_session_cons(x, t.drop_last(), view_mode, paths);
    }
}

/// Every session holds at least one file.
pub open spec fn all_nonempty(s: Seq<SessionView>) -> bool {
    forall|i: int| 0 <= i < s.len() ==> (#[trigger] s[i]).paths.len() > 0
}

proof fn lemma_nonempty_sessions_shape(s: Seq<SessionView>)
    ensures
        all_nonempty(nonempty_sessions(s)),
        all_nonempty(s) ==> nonempty_sessions(s) == s,
    decreases s.len(),
{
    if s.len() > 0 {
        lemma_nonempty_sessions_shape(s.drop_last());
        if all_nonempty(s) {
            assert(all_nonempty(s.drop_last())) by {
                assert forall|i: int| 0 <= i < s.drop_last().len() implies (
                #[trigger] s.drop_last()[i]).paths.len() > 0 by {
                    assert(s.drop_last()[i] == s[i]);
                }
            }
            assert(s[s.len() - 1].paths.len() > 0);
            assert(s.drop_last().push(s.last()) =~= s);
        }
    }
}

/// The list that loading gives holds at most 30 sessions, each with at least one file.
proof fn lemma_loaded_shape(stored: Seq<SessionView>)
    ensures
        all_nonempty(loaded_sessions(stored)),
        loaded_sessions(stored).len() <= MAX_RECENT_SESSIONS,
{
    lemma_nonempty_sessions_shape(stored);
    let n = nonempty_sessions(stored);
    assert forall|i: int| 0 <= i < loaded_sessions(stored).len() implies (
    #[trigger] loaded_sessions(stored)[i]).paths.len() > 0 by {
        assert(loaded_sessions(stored)[i] == n[i]);
    }
}

/// Recording a session into the list that loading gave, then loading what was
/// recorded, gives back the recorded list: it holds at most 30 sessions, each with
/// at least one file, so loading drops none of them.
pub proof fn lemma_recorded_reloads(stored: Seq<SessionView>, view_mode: ViewMode, paths: Seq<Seq<char>>)
    ensures
        loaded_sessions(recorded(loaded_sessions(stored), view_mode, paths)) == recorded(
            loaded_sessions(stored),
            view_mode,
            paths,
        ),
{
    let s = loaded_sessions(stored);
    lemma_loaded_shape(stored);
    let r = recorded(s, view_mode, paths);
    assert(all_nonempty(r)) by {
        if paths.len() == 0 {
            assert forall|i: int| 0 <= i < r.len() implies (#[trigger] r[i]).paths.len() > 0 by {
                assert(r[i] == s[i]);
            }
        } else {
            lemma_without_session_shape(s, view_mode, paths);
            let w = without_session(s, view_mode, paths);
            let full = seq![SessionView { view_mode, paths }] + w;
            assert forall|i: int| 0 <= i < r.len() implies (#[trigger] r[i]).paths.len() > 0 by {
                assert(r[i] == full[i]);
                if i > 0 {
                    assert(full[i] == w[i - 1]);
                    assert(s.contains(w[i - 1]));
                    let k = choose|k: int| 0 <= k < s.len() && s[k] == w[i - 1];
                    assert(s[k].paths.len() > 0);
                }
            }
        }
    }
    lemma_nonempty_sessions_shape(r);
    assert(r.len() <= MAX_RECENT_SESSIONS);
}

pub proof fn lemma_strings_view_push(s: Seq<String>, x: String)
    ensures
        strings_view(s.push(x)) == strings_view(s).push(x@),
{
    assert(strings_view(s.push(x)) =~= strings_view(s).push(x@));
}

pub proof fn lemma_sessions_view_push(s: Seq<RecentSession>, x: RecentSession)
    ensures
        sessions_view(s.push(x)) == sessions_view(s).push(x@),
{
    assert(sessions_view(s.push(x)) =~= sessions_view(s).push(x@));
}

} // verus!
