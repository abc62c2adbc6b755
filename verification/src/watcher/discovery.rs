//! Which session logs are active, and a stable number for each session.

use crate::text::after_last;
use crate::text::ends_with;
use crate::text::has_suffix;
use crate::text::str_eq;
use crate::text::tail_after;
use vstd::prelude::*;
use vstd::string::StrSliceExecFns;

verus! {

/// A session whose log was not modified for longer than this many seconds
/// is no longer active.
pub const DORMANCY_TIMEOUT_SECS: u64 = 300;

/// A regular file found below the projects directory: its path, when it
/// was last modified (in seconds on the caller's clock, if that is known)
/// and what it holds.
#[derive(Debug, PartialEq, Eq)]
pub struct SessionFile {
    pub path: String,
    pub modified: Option<u64>,
    pub content: Vec<u8>,
}

/// The mathematical value of a [`SessionFile`].
pub struct SessionFileView {
    pub path: Seq<char>,
    pub modified: Option<u64>,
    pub content: Seq<u8>,
}

impl View for SessionFile {
    type V = SessionFileView;

    open spec fn view(&self) -> SessionFileView {
        SessionFileView { path: self.path@, modified: self.modified, content: self.content@ }
    }
}

impl DeepView for SessionFile {
    type V = SessionFileView;

    open spec fn deep_view(&self) -> SessionFileView {
        self@
    }
}

/// Whether a path names a session log: its last component is a name and
/// the extension `jsonl`.
pub open spec fn is_session_log(path: Seq<char>) -> bool {
    let name = after_last(path, '/');
    name.len() > 6 && has_suffix(name, ".jsonl"@)
}

/// Whether a file was modified within the dormancy timeout before `now`.
/// A file of unknown age, or from after `now`, was not.
pub open spec fn is_recent(modified: Option<u64>, now: u64) -> bool {
    modified matches Some(m) && m <= now && now - m <= DORMANCY_TIMEOUT_SECS
}

/// The path of a file, where the file is the log of an active session.
pub open spec fn active_session(file: SessionFileView, now: u64) -> Option<Seq<char>> {
    if is_session_log(file.path) && is_recent(file.modified, now) {
        Some(file.path)
    } else {
        None
    }
}

/// The logs of the active sessions among `files`, in order.
pub open spec fn active_sessions(files: Seq<SessionFileView>, now: u64) -> Seq<Seq<char>> {
    files.filter_map(|file: SessionFileView| active_session(file, now))
}

/// What the first of `files` with the path `path` holds; `None` where
/// there is no such file.
pub open spec fn file_content(files: Seq<SessionFileView>, path: Seq<char>) -> Option<Seq<u8>>
    decreases files.len(),
{
    if files.len() == 0 {
        None
    } else if files[0].path == path {
        Some(files[0].content)
    } else {
        file_content(files.drop_first(), path)
    }
}

/// The bytes of an optional slice.
pub open spec fn bytes_of(file: Option<&[u8]>) -> Option<Seq<u8>> {
    match file {
        Some(content) => Some(content@),
        None => None,
    }
}

/// What the file `path` holds, if it is among `files`.
pub fn find_file<'a>(files: &'a Vec<SessionFile>, path: &str) -> (file: Option<&'a [u8]>)
    ensures
        bytes_of(file) == file_content(files.deep_view(), path@),
{
    let ghost all = files.deep_view();
    let mut i: usize = 0;
    proof {
        assert(all.skip(0) =~= all);
    }
    while i < files.len()
        invariant
            i <= files.len(),
            all == files.deep_view(),
            file_content(all, path@) == file_content(all.skip(i as int), path@),
        decreases files.len() - i,
    {
        let ghost rest = all.skip(i as int);
        proof {
            assert(rest[0] == files[i as int]@);
            assert(rest.drop_first() =~= all.skip(i + 1));
        }
        if str_eq(files[i].path.as_str(), path) {
            return Some(files[i].content.as_slice());
        }
        i += 1;
    }
    None
}

/// Whether a path names a session log.
pub fn has_log_extension(path: &str) -> (log: bool)
    ensures
        log == is_session_log(path@),
{
    let name = tail_after(path, '/');
    name.unicode_len() > 6 && ends_with(name, ".jsonl")
}

/// The logs of the active sessions among the files found, with `now` the
/// one moment against which every file's age is held.
pub fn scan_sessions(files: &Vec<SessionFile>, now: u64) -> (sessions: Vec<String>)
    ensures
        sessions.deep_view() == active_sessions(files.deep_view(), now),
        sessions.len() <= files.len(),
{
    let ghost all = files.deep_view();
    let ghost pick = |file: SessionFileView| active_session(file, now);
    let mut sessions: Vec<String> = Vec::new();
    let mut i: usize = 0;
    proof {
        assert(all.take(0) =~= Seq::empty());
    }
    while i < files.len()
        invariant
            i <= files.len(),
            all == files.deep_view(),
            pick == |file: SessionFileView| active_session(file, now),
            sessions.deep_view() == all.take(i as int).filter_map(pick),
            sessions.len() <= i,
        decreases files.len() - i,
    {
        let ghost before = sessions.deep_view();
        proof {
            assert(all.take(i + 1).drop_last() =~= all.take(i as int));
            assert(all.take(i + 1).last() == files[i as int]@);
        }
        let file = &files[i];
        let recent = match file.modified {
            Some(m) => m <= now && now - m <= DORMANCY_TIMEOUT_SECS,
            None => false,
        };
        if recent && has_log_extension(file.path.as_str()) {
            sessions.push(file.path.clone());
            assert(sessions.deep_view() =~= before + seq![file.path@]);
        }
        i += 1;
    }
    proof {
        assert(all.take(i as int) =~= all);
    }
    sessions
}

/// The sessions that are tracked, each path with its id, in the order in
/// which they were first seen, and the id that the next new session gets.
pub struct SessionTracker {
    known: Vec<(String, u32)>,
    next_id: u32,
}

/// The mathematical value of a [`SessionTracker`].
pub struct TrackerView {
    pub known: Seq<(Seq<char>, u32)>,
    pub next_id: u32,
}

/// Whether `path` is among the sessions `known`.
pub open spec fn has_path(known: Seq<(Seq<char>, u32)>, path: Seq<char>) -> bool {
    exists|i: int| 0 <= i < known.len() && (#[trigger] known[i]).0 == path
}

/// The sessions of `known` whose path is still among `current`.
pub open spec fn still_known(known: Seq<(Seq<char>, u32)>, current: Seq<Seq<char>>) -> Seq<
    (Seq<char>, u32),
> {
    known.filter(|e: (Seq<char>, u32)| current.contains(e.0))
}

/// The ids of the sessions of `known` whose path is no longer among
/// `current`, in the order in which the sessions were first seen.
pub open spec fn removed_ids(known: Seq<(Seq<char>, u32)>, current: Seq<Seq<char>>) -> Seq<u32> {
    known.filter_map(
        |e: (Seq<char>, u32)|
            if current.contains(e.0) {
                None
            } else {
                Some(e.1)
            },
    )
}

impl TrackerView {
    /// Ids start at 1, each session's id is below the next id, the ids
    /// grow in the order in which the sessions were first seen, and no
    /// path is tracked twice.
    pub open spec fn wf(self) -> bool {
        &&& self.next_id >= 1
        &&& forall|i: int| 0 <= i < self.known.len() ==> 1 <= (#[trigger] self.known[i]).1 < self.next_id
        &&& forall|i: int, j: int|
            0 <= i < j < self.known.len() ==> (#[trigger] self.known[i]).1 < (
            #[trigger] self.known[j]).1
        &&& forall|i: int, j: int|
            0 <= i < j < self.known.len() ==> (#[trigger] self.known[i]).0 != (
            #[trigger] self.known[j]).0
    }

    /// The id of the session `path`.
    pub open spec fn id_of(self, path: Seq<char>) -> Option<u32> {
        if has_path(self.known, path) {
            Some(self.known[choose|i: int| 0 <= i < self.known.len() && (#[trigger] self.known[i]).0 == path].1)
        } else {
            None
        }
    }

    /// The tracker after each path of `paths` that it did not know was
    /// given the next id, in order.
    pub open spec fn admitted(self, paths: Seq<Seq<char>>) -> TrackerView
        decreases paths.len(),
    {
        if paths.len() == 0 {
            self
        } else {
            let before = self.admitted(paths.drop_last());
            if has_path(before.known, paths.last()) {
                before
            } else {
                TrackerView {
                    known: before.known.push((paths.last(), before.next_id)),
                    next_id: (before.next_id + 1) as u32,
                }
            }
        }
    }

    /// The tracker after the sessions whose path is not among `current`
    /// were forgotten.
    pub open spec fn pruned(self, current: Seq<Seq<char>>) -> TrackerView {
        TrackerView { known: still_known(self.known, current), next_id: self.next_id }
    }

    /// The tracker after an update with the paths `current`: the sessions
    /// that are gone are forgotten, then the new ones are admitted.
    pub open spec fn updated(self, current: Seq<Seq<char>>) -> TrackerView {
        self.pruned(current).admitted(current)
    }

    /// The sessions that an update with the paths `current` admits, each
    /// with its id, in the order of `current`.
    pub open spec fn new_sessions(self, current: Seq<Seq<char>>) -> Seq<(u32, Seq<char>)> {
        let kept = still_known(self.known, current).len();
        let after = self.updated(current).known;
        Seq::new((after.len() - kept) as nat, |i: int| (after[kept + i].1, after[kept + i].0))
    }
}

impl View for SessionTracker {
    type V = TrackerView;

    closed spec fn view(&self) -> TrackerView {
        TrackerView { known: self.known.deep_view(), next_id: self.next_id }
    }
}

/// Admitting paths keeps what was known at the front, adds one session
/// for each id from the next on, and keeps the tracker well-formed.
pub proof fn lemma_admitted(state: TrackerView, paths: Seq<Seq<char>>)
    requires
        state.wf(),
        state.next_id + paths.len() <= u32::MAX,
    ensures
        ({
            let after = state.admitted(paths);
            &&& after.wf()
            &&& after.known.len() >= state.known.len()
            &&& after.known.len() - state.known.len() <= paths.len()
            &&& after.next_id == state.next_id + (after.known.len() - state.known.len())
            &&& after.known.take(state.known.len() as int) == state.known
            &&& forall|i: int|
                state.known.len() <= i < after.known.len() ==> (#[trigger] after.known[i]).1
                    == state.next_id + (i - state.known.len())
            &&& forall|i: int|
                0 <= i < paths.len() ==> has_path(after.known, #[trigger] paths[i])
        }),
    decreases paths.len(),
{
    let after = state.admitted(paths);
    if paths.len() == 0 {
        assert(after.known.take(state.known.len() as int) =~= state.known);
    } else {
        let head = paths.drop_last();
        let before = state.admitted(head);
        lemma_admitted(state, head);
        let base = state.known.len() as int;
        if has_path(before.known, paths.last()) {
            assert forall|i: int| 0 <= i < paths.len() implies has_path(
                after.known,
                #[trigger] paths[i],
            ) by {
                if i < head.len() {
                    assert(head[i] == paths[i]);
                }
            }
        } else {
            let entry = (paths.last(), before.next_id);
            assert(after.known == before.known.push(entry));
            assert(after.known.take(base) =~= before.known.take(base));
            assert forall|i: int, j: int| 0 <= i < j < after.known.len() implies (
            #[trigger] after.known[i]).0 != (#[trigger] after.known[j]).0 by {
                if j == before.known.len() {
                    assert(before.known[i].0 != paths.last());
                } else {
                    assert(before.known[i].0 != before.known[j].0);
                }
            }
            assert forall|i: int, j: int| 0 <= i < j < after.known.len() implies (
            #[trigger] after.known[i]).1 < (#[trigger] after.known[j]).1 by {
                if j == before.known.len() {
                    assert(before.known[i].1 < before.next_id);
                } else {
                    assert(before.known[i].1 < before.known[j].1);
                }
            }
            assert forall|i: int| 0 <= i < paths.len() implies has_path(
                after.known,
                #[trigger] paths[i],
            ) by {
                if i < head.len() {
                    assert(head[i] == paths[i]);
                    let k = choose|k: int|
                        0 <= k < before.known.len() && (#[trigger] before.known[k]).0 == head[i];
                    assert(after.known[k].0 == paths[i]);
                } else {
                    assert(after.known[before.known.len() as int].0 == paths[i]);
                }
            }
        }
    }
}

/// The sessions that are still known keep their order, so what held of
/// the tracker before holds of them.
pub proof fn lemma_still_known(state: TrackerView, current: Seq<Seq<char>>)
    requires
        state.wf(),
    ensures
        state.pruned(current).wf(),
{
    let keep = |e: (Seq<char>, u32)| current.contains(e.0);
    let known = state.known;
    let left = known.filter(keep);
    crate::order::lemma_filter_keeps_order(known, keep);
    assert forall|i: int| 0 <= i < left.len() implies 1 <= (#[trigger] left[i]).1
        < state.next_id by {
        assert(known.contains(left[i]));
        let k = choose|k: int| 0 <= k < known.len() && known[k] == left[i];
        assert(1 <= known[k].1 < state.next_id);
    }
    assert forall|i: int, j: int| 0 <= i < j < left.len() implies (#[trigger] left[i]).1 < (
    #[trigger] left[j]).1 && left[i].0 != left[j].0 by {
        assert(crate::order::in_order(known, left[i], left[j]));
        let (a, b) = choose|a: int, b: int|
            #![trigger known[a], known[b]]
            0 <= a < b < known.len() && known[a] == left[i] && known[b] == left[j];
        assert(known[a].1 < known[b].1 && known[a].0 != known[b].0);
    }
}

/// In a well-formed tracker a path stands for one session.
pub proof fn lemma_id_by_path(state: TrackerView, i: int)
    requires
        state.wf(),
        0 <= i < state.known.len(),
    ensures
        state.id_of(state.known[i].0) == Some(state.known[i].1),
{
    let path = state.known[i].0;
    let k = choose|k: int| 0 <= k < state.known.len() && (#[trigger] state.known[k]).0 == path;
    if k < i {
        assert(state.known[k].0 != state.known[i].0);
    } else if i < k {
        assert(state.known[i].0 != state.known[k].0);
    }
}

/// What an update does to the ids: the new sessions get the next ids one
/// by one, in order, each greater than every id given before, and the
/// tracker stays well-formed.
pub proof fn lemma_updated(state: TrackerView, current: Seq<Seq<char>>)
    requires
        state.wf(),
        state.next_id + current.len() <= u32::MAX,
    ensures
        state.updated(current).wf(),
        state.new_sessions(current).len() <= current.len(),
        state.updated(current).next_id == state.next_id + state.new_sessions(current).len(),
        forall|i: int|
            0 <= i < state.new_sessions(current).len() ==> (#[trigger] state.new_sessions(
                current,
            )[i]).0 == state.next_id + i,
        forall|i: int|
            0 <= i < state.known.len() ==> (#[trigger] state.known[i]).1 < state.next_id,
{
    lemma_still_known(state, current);
    lemma_admitted(state.pruned(current), current);
}

/// Ids are never given twice: a session admitted by a later update has a
/// greater id than every session admitted by an earlier one, whether or
/// not its path was tracked before.
pub proof fn lemma_ids_never_reused(
    state: TrackerView,
    earlier: Seq<Seq<char>>,
    later: Seq<Seq<char>>,
)
    requires
        state.wf(),
        state.next_id + earlier.len() + later.len() <= u32::MAX,
    ensures
        forall|i: int, j: int|
            0 <= i < state.new_sessions(earlier).len() && 0 <= j < state.updated(
                earlier,
            ).new_sessions(later).len() ==> (#[trigger] state.new_sessions(earlier)[i]).0 < (
            #[trigger] state.updated(earlier).new_sessions(later)[j]).0,
{
    lemma_updated(state, earlier);
    lemma_updated(state.updated(earlier), later);
}

/// The paths of `current` that are not among `known`, each once, in the
/// order in which they first occur.
pub open spec fn fresh_paths(known: Seq<(Seq<char>, u32)>, current: Seq<Seq<char>>) -> Seq<
    Seq<char>,
>
    decreases current.len(),
{
    if current.len() == 0 {
        Seq::empty()
    } else {
        let before = fresh_paths(known, current.drop_last());
        if has_path(known, current.last()) || before.contains(current.last()) {
            before
        } else {
            before.push(current.last())
        }
    }
}

/// The sessions that `paths` make when they are given the ids from `from`
/// on, one after the other.
pub open spec fn numbered(paths: Seq<Seq<char>>, from: u32) -> Seq<(u32, Seq<char>)> {
    Seq::new(paths.len(), |i: int| ((from + i) as u32, paths[i]))
}

/// The number of paths in all of `updates`.
pub open spec fn total_len(updates: Seq<Seq<Seq<char>>>) -> nat
    decreases updates.len(),
{
    if updates.len() == 0 {
        0
    } else {
        total_len(updates.drop_last()) + updates.last().len()
    }
}

impl TrackerView {
    /// A tracker that has seen nothing yet.
    pub open spec fn initial() -> TrackerView {
        TrackerView { known: Seq::empty(), next_id: 1 }
    }

    /// The tracker after one update with each of `updates`, in order.
    pub open spec fn after_updates(self, updates: Seq<Seq<Seq<char>>>) -> TrackerView
        decreases updates.len(),
    {
        if updates.len() == 0 {
            self
        } else {
            self.after_updates(updates.drop_last()).updated(updates.last())
        }
    }

    /// The ids that the updates `updates` give to new sessions, in the
    /// order in which they are given.
    pub open spec fn ids_given(self, updates: Seq<Seq<Seq<char>>>) -> Seq<u32>
        decreases updates.len(),
    {
        if updates.len() == 0 {
            Seq::empty()
        } else {
            let new = self.after_updates(updates.drop_last()).new_sessions(updates.last());
            self.ids_given(updates.drop_last()) + Seq::new(new.len(), |i: int| new[i].0)
        }
    }
}

/// Admitting paths adds, after what was known, the paths that were not
/// known, each once and in the order of its first occurrence, with the
/// ids from the next id on.
pub proof fn lemma_admitted_fresh(state: TrackerView, paths: Seq<Seq<char>>)
    requires
        state.wf(),
        state.next_id + paths.len() <= u32::MAX,
    ensures
        ({
            let after = state.admitted(paths);
            let fresh = fresh_paths(state.known, paths);
            &&& fresh.len() <= paths.len()
            &&& after.known.len() == state.known.len() + fresh.len()
            &&& after.next_id == state.next_id + fresh.len()
            &&& after.known.take(state.known.len() as int) == state.known
            &&& forall|i: int|
                0 <= i < fresh.len() ==> #[trigger] after.known[state.known.len() + i] == (
                    fresh[i],
                    (state.next_id + i) as u32,
                )
            &&& forall|p: Seq<char>|
                has_path(after.known, p) <==> has_path(state.known, p) || fresh.contains(p)
        }),
    decreases paths.len(),
{
    let after = state.admitted(paths);
    let fresh = fresh_paths(state.known, paths);
    let base = state.known.len() as int;
    if paths.len() == 0 {
        assert(after.known.take(base) =~= state.known);
    } else {
        let head = paths.drop_last();
        let before = state.admitted(head);
        let head_fresh = fresh_paths(state.known, head);
        let last = paths.last();
        lemma_admitted_fresh(state, head);
        if has_path(before.known, last) {
            assert(after == before);
            assert(fresh == head_fresh);
        } else {
            assert(!has_path(state.known, last) && !head_fresh.contains(last));
            assert(fresh == head_fresh.push(last));
            assert(after.known == before.known.push((last, before.next_id)));
            assert(after.known.take(base) =~= before.known.take(base));
            assert forall|i: int| 0 <= i < fresh.len() implies #[trigger] after.known[base + i] == (
                fresh[i],
                (state.next_id + i) as u32,
            ) by {
                if i < head_fresh.len() {
                    assert(after.known[base + i] == before.known[base + i]);
                }
            }
            assert forall|p: Seq<char>|
                has_path(after.known, p) <==> has_path(state.known, p) || fresh.contains(p) by {
                if has_path(after.known, p) {
                    let k = choose|k: int| 0 <= k < after.known.len() && (#[trigger] after.known[k]).0 == p;
                    if k < before.known.len() {
                        assert(before.known[k].0 == p);
                        assert(has_path(before.known, p));
                        if head_fresh.contains(p) {
                            let m = choose|m: int| 0 <= m < head_fresh.len() && head_fresh[m] == p;
                            assert(fresh[m] == p);
                        }
                    } else {
                        assert(fresh[fresh.len() - 1] == p);
                    }
                }
                if has_path(state.known, p) || fresh.contains(p) {
                    if p == last {
                        assert(after.known[after.known.len() - 1].0 == p);
                    } else {
                        if fresh.contains(p) {
                            let m = choose|m: int| 0 <= m < fresh.len() && fresh[m] == p;
                            assert(m < head_fresh.len());
                            assert(head_fresh[m] == p);
                            assert(head_fresh.contains(p));
                        }
                        assert(has_path(before.known, p));
                        let k = choose|k: int|
                            0 <= k < before.known.len() && (#[trigger] before.known[k]).0 == p;
                        assert(after.known[k].0 == p);
                    }
                }
            }
        }
    }
}

/// Which paths are fresh depends only on which of them are known.
pub proof fn lemma_fresh_same(
    first: Seq<(Seq<char>, u32)>,
    second: Seq<(Seq<char>, u32)>,
    current: Seq<Seq<char>>,
)
    requires
        forall|i: int|
            0 <= i < current.len() ==> (has_path(first, #[trigger] current[i]) <==> has_path(
                second,
                current[i],
            )),
    ensures
        fresh_paths(first, current) == fresh_paths(second, current),
    decreases current.len(),
{
    if current.len() > 0 {
        let head = current.drop_last();
        assert forall|i: int| 0 <= i < head.len() implies (has_path(first, #[trigger] head[i])
            <==> has_path(second, head[i])) by {
            assert(head[i] == current[i]);
        }
        lemma_fresh_same(first, second, head);
        assert(current.last() == current[current.len() - 1]);
    }
}

/// Of paths that are pairwise distinct and not known, all are fresh.
pub proof fn lemma_fresh_of_distinct(current: Seq<Seq<char>>)
    requires
        forall|i: int, j: int| 0 <= i < j < current.len() ==> current[i] != current[j],
    ensures
        fresh_paths(Seq::empty(), current) == current,
    decreases current.len(),
{
    if current.len() > 0 {
        let head = current.drop_last();
        assert forall|i: int, j: int| 0 <= i < j < head.len() implies head[i] != head[j] by {
            assert(current[i] != current[j]);
        }
        lemma_fresh_of_distinct(head);
        if head.contains(current.last()) {
            let i = choose|i: int| 0 <= i < head.len() && head[i] == current.last();
            assert(current[i] != current[current.len() - 1]);
        }
        assert(head.push(current.last()) =~= current);
    } else {
        assert(current =~= Seq::empty());
    }
}

/// The sessions that an update admits are the paths that were not known,
/// each once and in the order of its first occurrence among the active
/// logs, numbered from the next id on.
pub proof fn lemma_new_sessions(state: TrackerView, current: Seq<Seq<char>>)
    requires
        state.wf(),
        state.next_id + current.len() <= u32::MAX,
    ensures
        state.new_sessions(current) == numbered(
            fresh_paths(state.known, current),
            state.next_id,
        ),
        state.updated(current).next_id == state.next_id + state.new_sessions(current).len(),
        state.updated(current).wf(),
{
    let keep = |e: (Seq<char>, u32)| current.contains(e.0);
    let kept = state.known.filter(keep);
    let pruned = state.pruned(current);
    lemma_still_known(state, current);
    lemma_admitted(pruned, current);
    lemma_admitted_fresh(pruned, current);
    crate::order::lemma_filter_keeps_order(state.known, keep);
    assert forall|i: int| 0 <= i < current.len() implies (has_path(kept, #[trigger] current[i])
        <==> has_path(state.known, current[i])) by {
        let p = current[i];
        if has_path(kept, p) {
            let k = choose|k: int| 0 <= k < kept.len() && (#[trigger] kept[k]).0 == p;
            assert(state.known.contains(kept[k]));
            let m = choose|m: int| 0 <= m < state.known.len() && state.known[m] == kept[k];
            assert(state.known[m].0 == p);
        }
        if has_path(state.known, p) {
            let m = choose|m: int| 0 <= m < state.known.len() && (#[trigger] state.known[m]).0 == p;
            assert(keep(state.known[m]));
            state.known.lemma_filter_contains(keep, m);
            let k = choose|k: int| 0 <= k < kept.len() && kept[k] == state.known[m];
            assert(kept[k].0 == p);
        }
    }
    lemma_fresh_same(kept, state.known, current);
    assert(state.new_sessions(current) =~= numbered(
        fresh_paths(state.known, current),
        state.next_id,
    ));
}

/// The first update of a new tracker with paths that are pairwise
/// distinct gives them the ids 1, 2, 3 and so on in their order, and
/// reports nothing as gone.
pub proof fn lemma_first_update(current: Seq<Seq<char>>)
    requires
        current.len() < u32::MAX,
        forall|i: int, j: int| 0 <= i < j < current.len() ==> current[i] != current[j],
    ensures
        TrackerView::initial().new_sessions(current) == numbered(current, 1),
        forall|i: int|
            0 <= i < current.len() ==> #[trigger] TrackerView::initial().new_sessions(current)[i]
                == ((i + 1) as u32, current[i]),
        removed_ids(TrackerView::initial().known, current).len() == 0,
{
    let state = TrackerView::initial();
    lemma_fresh_of_distinct(current);
    lemma_new_sessions(state, current);
    assert(state.known =~= Seq::empty());
}

/// Over any number of updates the ids are given out one after the other:
/// the first new session gets the tracker's next id and each further one
/// the id after it, whatever was removed in between and whether or not a
/// path was tracked before. So every id is greater than all that were
/// given before it, and none is given twice. From a new tracker the ids
/// are 1, 2, 3 and so on.
pub proof fn lemma_ids_in_sequence(state: TrackerView, updates: Seq<Seq<Seq<char>>>)
    requires
        state.wf(),
        state.next_id + total_len(updates) <= u32::MAX,
    ensures
        state.after_updates(updates).wf(),
        state.ids_given(updates).len() <= total_len(updates),
        state.after_updates(updates).next_id == state.next_id + state.ids_given(updates).len(),
        forall|k: int|
            0 <= k < state.ids_given(updates).len() ==> #[trigger] state.ids_given(updates)[k]
                == state.next_id + k,
        forall|i: int|
            0 <= i < state.known.len() ==> (#[trigger] state.known[i]).1 < state.next_id,
    decreases updates.len(),
{
    if updates.len() > 0 {
        let head = updates.drop_last();
        let before = state.after_updates(head);
        lemma_ids_in_sequence(state, head);
        lemma_new_sessions(before, updates.last());
        lemma_updated(before, updates.last());
    }
}

/// Whether `path` is among `paths`.
pub fn holds_path(paths: &[String], path: &str) -> (found: bool)
    ensures
        found == paths.deep_view().contains(path@),
{
    let ghost all = paths.deep_view();
    let mut i: usize = 0;
    while i < paths.len()
        invariant
            i <= paths.len(),
            all == paths.deep_view(),
            forall|k: int| 0 <= k < i ==> #[trigger] all[k] != path@,
        decreases paths.len() - i,
    {
        if str_eq(paths[i].as_str(), path) {
            assert(all[i as int] == path@);
            return true;
        }
        i += 1;
    }
    false
}

impl SessionTracker {
    /// The tracker's invariant.
    pub open spec fn wf(self) -> bool {
        self@.wf()
    }

    pub fn new() -> (tracker: SessionTracker)
        ensures
            tracker.wf(),
            tracker@ == TrackerView::initial(),
            tracker@.known.len() == 0,
            tracker@.next_id == 1,
    {
        let tracker = SessionTracker { known: Vec::new(), next_id: 1 };
        assert(tracker.known.deep_view() =~= Seq::empty());
        tracker
    }

    /// The id that the next new session gets.
    pub fn next_id(&self) -> (id: u32)
        ensures
            id == self@.next_id,
    {
        self.next_id
    }

    /// The place of `path` among the known sessions.
    fn find(&self, path: &str) -> (found: Option<usize>)
        ensures
            match found {
                Some(i) => i < self@.known.len() && self@.known[i as int].0 == path@,
                None => !has_path(self@.known, path@),
            },
    {
        let ghost known = self.known.deep_view();
        let mut i: usize = 0;
        while i < self.known.len()
            invariant
                i <= self.known.len(),
                known == self.known.deep_view(),
                forall|k: int| 0 <= k < i ==> (#[trigger] known[k]).0 != path@,
            decreases self.known.len() - i,
        {
            if str_eq(self.known[i].0.as_str(), path) {
                assert(known[i as int].0 == path@);
                return Some(i);
            }
            i += 1;
        }
        None
    }

    /// Brings the tracker up to date with the logs that are active now.
    /// Returns the sessions that are new, each with the id it was given,
    /// in the order of `current`, and the ids of the sessions that are
    /// gone, in the order in which those were first seen.
    pub fn update(&mut self, current: &[String]) -> (changes: (Vec<(u32, String)>, Vec<u32>))
        requires
            old(self).wf(),
            old(self)@.next_id + current@.len() <= u32::MAX,
        ensures
            final(self).wf(),
            final(self)@ == old(self)@.updated(current.deep_view()),
            changes.0.deep_view() == old(self)@.new_sessions(current.deep_view()),
            changes.0.deep_view() == numbered(
                fresh_paths(old(self)@.known, current.deep_view()),
                old(self)@.next_id,
            ),
            changes.1@ == removed_ids(old(self)@.known, current.deep_view()),
            final(self)@.next_id == old(self)@.next_id + changes.0.len(),
            changes.0.len() <= current@.len(),
            changes.1.len() <= old(self)@.known.len(),
            forall|i: int|
                0 <= i < changes.0.len() ==> (#[trigger] changes.0[i]).0 == old(self)@.next_id + i,
    {
        let ghost before = self@;
        let ghost paths = current.deep_view();
        let ghost keep = |e: (Seq<char>, u32)| paths.contains(e.0);
        let ghost gone = |e: (Seq<char>, u32)|
            if paths.contains(e.0) {
                None
            } else {
                Some(e.1)
            };
        let mut kept: Vec<(String, u32)> = Vec::new();
        let mut removed: Vec<u32> = Vec::new();
        let mut i: usize = 0;
        proof {
            reveal(Seq::filter);
            assert(before.known.take(0) =~= Seq::empty());
            assert(kept.deep_view() =~= Seq::empty());
        }
        while i < self.known.len()
            invariant
                i <= self.known.len(),
                self@ == before,
                paths == current.deep_view(),
                keep == |e: (Seq<char>, u32)| paths.contains(e.0),
                gone == |e: (Seq<char>, u32)|
                    if paths.contains(e.0) {
                        None
                    } else {
                        Some(e.1)
                    },
                kept.deep_view() == before.known.take(i as int).filter(keep),
                removed@ == before.known.take(i as int).filter_map(gone),
                removed.len() <= i,
            decreases self.known.len() - i,
        {
            let ghost kept_before = kept.deep_view();
            let ghost removed_before = removed@;
            proof {
                reveal(Seq::filter);
                assert(before.known.take(i + 1).drop_last() =~= before.known.take(i as int));
                assert(before.known.take(i + 1).last() == before.known[i as int]);
            }
            if holds_path(current, self.known[i].0.as_str()) {
                kept.push((self.known[i].0.clone(), self.known[i].1));
                assert(kept.deep_view() =~= kept_before.push(before.known[i as int]));
            } else {
                removed.push(self.known[i].1);
                assert(removed@ =~= removed_before + seq![before.known[i as int].1]);
            }
            i += 1;
        }
        proof {
            assert(before.known.take(i as int) =~= before.known);
            lemma_still_known(before, paths);
        }
        self.known = kept;
        let ghost base = self@;
        let ghost base_len = base.known.len();
        let mut new_sessions: Vec<(u32, String)> = Vec::new();
        let mut j: usize = 0;
        proof {
            assert(paths.take(0) =~= Seq::empty());
            lemma_admitted(base, paths.take(0));
        }
        while j < current.len()
            invariant
                j <= current.len(),
                paths == current.deep_view(),
                base.wf(),
                base.known.len() == base_len,
                base.next_id + paths.len() <= u32::MAX,
                self@ == base.admitted(paths.take(j as int)),
                self@.known.len() == base_len + new_sessions.len(),
                new_sessions.len() <= j,
                forall|k: int|
                    0 <= k < new_sessions.len() ==> (#[trigger] new_sessions[k]).deep_view() == (
                        self@.known[base_len + k].1,
                        self@.known[base_len + k].0,
                    ),
            decreases current.len() - j,
        {
            let ghost state = self@;
            proof {
                assert(paths.take(j + 1).drop_last() =~= paths.take(j as int));
                assert(paths.take(j + 1).last() == current[j as int]@);
                lemma_admitted(base, paths.take(j as int));
                lemma_admitted(base, paths.take(j + 1));
            }
            let path = &current[j];
            if self.find(path.as_str()).is_none() {
                let id = self.next_id;
                self.next_id = self.next_id + 1;
                self.known.push((path.clone(), id));
                new_sessions.push((id, path.clone()));
                assert(self@.known =~= state.known.push((path@, id)));
            }
            j += 1;
        }
        proof {
            assert(paths.take(j as int) =~= paths);
            lemma_admitted(base, paths);
            lemma_updated(before, paths);
            lemma_new_sessions(before, paths);
            assert(new_sessions.deep_view() =~= before.new_sessions(paths));
        }
        (new_sessions, removed)
    }

    /// The id of the session `path`.
    pub fn get_id(&self, path: &str) -> (id: Option<u32>)
        requires
            self.wf(),
        ensures
            id == self@.id_of(path@),
    {
        match self.find(path) {
            Some(i) => {
                proof {
                    lemma_id_by_path(self@, i as int);
                }
                Some(self.known[i].1)
            },
            None => None,
        }
    }
}

} // verus!
