//! The dashboard's state: the agents, the session tracker, the read
//! cursors and what the user has selected, and the tick that brings all of
//! it up to date.

use crate::state::agent::AgentState;
use crate::state::agent::AgentView;
use crate::ui::sprites::AnimState;
use crate::watcher::discovery::active_sessions;
use crate::watcher::discovery::bytes_of;
use crate::watcher::discovery::file_content;
use crate::watcher::discovery::find_file;
use crate::watcher::discovery::removed_ids;
use crate::watcher::discovery::scan_sessions;
use crate::watcher::discovery::SessionFile;
use crate::watcher::discovery::SessionFileView;
use crate::watcher::discovery::SessionTracker;
use crate::watcher::discovery::TrackerView;
use crate::watcher::discovery::DORMANCY_TIMEOUT_SECS;
use crate::watcher::file_watcher::consumed_len;
use crate::watcher::file_watcher::cursor_at;
use crate::watcher::file_watcher::effective_offset;
use crate::watcher::file_watcher::read_outcome;
use crate::watcher::file_watcher::records_in;
use crate::watcher::file_watcher::IncrementalReader;
use crate::watcher::parser::ToolUseView;
use crate::watcher::types::JsonlRecord;
use crate::watcher::types::RecordView;
use std::collections::HashMap;
use vstd::prelude::*;
use vstd::std_specs::iter::IteratorSpec;

verus! {

/// The number of ticks from one scan for sessions to the next.
pub const SESSION_SCAN_INTERVAL: u64 = 20;

/// The panel that takes the keys.
#[derive(Debug, Clone, Copy, PartialEq, Eq, Structural)]
pub enum PanelFocus {
    Office,
    Sidebar,
}

/// The state of the dashboard.
pub struct App {
    pub agents: HashMap<u32, AgentState>,
    pub selected_agent: Option<u32>,
    pub session_tracker: SessionTracker,
    pub reader: IncrementalReader,
    pub claude_dir: String,
    pub should_quit: bool,
    pub tick_count: u64,
    pub focus: PanelFocus,
    pub sidebar_scroll: u16,
}

/// The mathematical value of an [`App`].
pub struct AppView {
    pub agents: Map<u32, AgentView>,
    pub selected_agent: Option<u32>,
    pub tracker: TrackerView,
    pub cursors: Map<Seq<char>, u64>,
    pub claude_dir: Seq<char>,
    pub should_quit: bool,
    pub tick_count: u64,
    pub focus: PanelFocus,
    pub sidebar_scroll: u16,
}

/// The values of the agents of a map.
pub open spec fn agent_views(agents: Map<u32, AgentState>) -> Map<u32, AgentView> {
    agents.map_values(|agent: AgentState| agent@)
}

impl View for App {
    type V = AppView;

    open spec fn view(&self) -> AppView {
        AppView {
            agents: agent_views(self.agents@),
            selected_agent: self.selected_agent,
            tracker: self.session_tracker@,
            cursors: self.reader@,
            claude_dir: self.claude_dir@,
            should_quit: self.should_quit,
            tick_count: self.tick_count,
            focus: self.focus,
            sidebar_scroll: self.sidebar_scroll,
        }
    }
}

/// Whether each id of `ids` is smaller than the next.
pub open spec fn is_ascending(ids: Seq<u32>) -> bool {
    forall|i: int, j: int| 0 <= i < j < ids.len() ==> ids[i] < ids[j]
}

/// Whether `ids` holds the ids of `set`, each once, the smallest first.
pub open spec fn lists_ascending(ids: Seq<u32>, set: Set<u32>) -> bool {
    is_ascending(ids) && forall|id: u32| ids.contains(id) <==> set.contains(id)
}

/// The ids of `set`, the smallest first.
pub open spec fn ascending_ids(set: Set<u32>) -> Seq<u32> {
    choose|ids: Seq<u32>| lists_ascending(ids, set)
}

/// What the figure of an agent with these active tools is doing: nothing
/// where there are none, reading where one of them only reads, typing
/// otherwise.
pub open spec fn activity(tools: Seq<ToolUseView>) -> AnimState {
    if tools.len() == 0 {
        AnimState::Idle
    } else if exists|i: int| 0 <= i < tools.len() && (#[trigger] tools[i]).is_reading {
        AnimState::Reading
    } else {
        AnimState::Typing
    }
}

/// There is one ascending list of the ids of a set.
pub proof fn lemma_ascending_unique(a: Seq<u32>, b: Seq<u32>, set: Set<u32>)
    requires
        lists_ascending(a, set),
        lists_ascending(b, set),
    ensures
        a == b,
    decreases a.len(),
{
    if a.len() == 0 {
        if b.len() > 0 {
            assert(b.contains(b[0]));
            assert(a.contains(b[0]));
        }
        assert(a =~= b);
    } else {
        let top = a.last();
        assert(a.contains(top));
        assert(b.contains(top));
        let k = choose|k: int| 0 <= k < b.len() && b[k] == top;
        if k < b.len() - 1 {
            assert(b.contains(b.last()));
            assert(a.contains(b.last()));
            let m = choose|m: int| 0 <= m < a.len() && a[m] == b.last();
            assert(a[m] <= top);
            assert(b[k] < b[b.len() - 1]);
        }
        let rest = set.remove(top);
        assert forall|id: u32| a.drop_last().contains(id) <==> rest.contains(id) by {
            if a.drop_last().contains(id) {
                let m = choose|m: int| 0 <= m < a.drop_last().len() && a.drop_last()[m] == id;
                assert(a[m] == id && a[m] < a[a.len() - 1]);
                assert(a.contains(id));
            }
            if rest.contains(id) {
                assert(a.contains(id));
                let m = choose|m: int| 0 <= m < a.len() && a[m] == id;
                assert(a.drop_last()[m] == id);
            }
        }
        assert forall|id: u32| b.drop_last().contains(id) <==> rest.contains(id) by {
            if b.drop_last().contains(id) {
                let m = choose|m: int| 0 <= m < b.drop_last().len() && b.drop_last()[m] == id;
                assert(b[m] == id && b[m] < b[b.len() - 1]);
                assert(b.contains(id));
            }
            if rest.contains(id) {
                assert(b.contains(id));
                let m = choose|m: int| 0 <= m < b.len() && b[m] == id;
                assert(b.drop_last()[m] == id);
            }
        }
        lemma_ascending_unique(a.drop_last(), b.drop_last(), rest);
        assert(a =~= a.drop_last().push(top));
        assert(b =~= b.drop_last().push(top));
    }
}

impl AppView {
    /// The dashboard at its start, for the directory `claude_dir`.
    pub open spec fn initial(claude_dir: Seq<char>) -> AppView {
        AppView {
            agents: Map::empty(),
            selected_agent: None,
            tracker: TrackerView { known: Seq::empty(), next_id: 1 },
            cursors: Map::empty(),
            claude_dir,
            should_quit: false,
            tick_count: 0,
            focus: PanelFocus::Sidebar,
            sidebar_scroll: 0,
        }
    }

    /// The dashboard one tick later, nothing else changed.
    pub open spec fn ticked(self) -> AppView {
        AppView { tick_count: (self.tick_count + 1) as u64, ..self }
    }

    /// Whether a scan for sessions is due at this tick.
    pub open spec fn scan_due(self) -> bool {
        self.tick_count % SESSION_SCAN_INTERVAL == 0
    }

    /// The dashboard with the tracker in the state `tracker`.
    pub open spec fn with_tracker(self, tracker: TrackerView) -> AppView {
        AppView { tracker, ..self }
    }

    /// The dashboard with a fresh agent for each of the sessions `new`.
    pub open spec fn with_sessions(self, new: Seq<(u32, Seq<char>)>, now: u64) -> AppView
        decreases new.len(),
    {
        if new.len() == 0 {
            self
        } else {
            let before = self.with_sessions(new.drop_last(), now);
            AppView {
                agents: before.agents.insert(
                    new.last().0,
                    AgentView::fresh(new.last().0, new.last().1, now),
                ),
                ..before
            }
        }
    }

    /// The dashboard without the session `id`: its agent and the cursor of
    /// its log are gone, and it is no longer selected.
    pub open spec fn without_session(self, id: u32) -> AppView {
        AppView {
            agents: self.agents.remove(id),
            cursors: if self.agents.contains_key(id) {
                self.cursors.remove(self.agents[id].session_file)
            } else {
                self.cursors
            },
            selected_agent: if self.selected_agent == Some(id) {
                None
            } else {
                self.selected_agent
            },
            ..self
        }
    }

    /// The dashboard without each of the sessions `ids`.
    pub open spec fn without_sessions(self, ids: Seq<u32>) -> AppView
        decreases ids.len(),
    {
        if ids.len() == 0 {
            self
        } else {
            self.without_sessions(ids.drop_last()).without_session(ids.last())
        }
    }

    /// The dashboard after a scan found the logs `sessions` active: the
    /// tracker is brought up to date, each new session gets an agent, and
    /// each session that is gone loses its agent and its cursor.
    pub open spec fn after_scan(self, sessions: Seq<Seq<char>>, now: u64) -> AppView {
        self.with_tracker(self.tracker.updated(sessions)).with_sessions(
            self.tracker.new_sessions(sessions),
            now,
        ).without_sessions(removed_ids(self.tracker.known, sessions))
    }

    /// The dashboard after the records `records` were folded into the
    /// agent `id`.
    pub open spec fn after_records(self, id: u32, records: Seq<RecordView>, now: u64) -> AppView {
        if self.agents.contains_key(id) {
            AppView {
                agents: self.agents.insert(id, self.agents[id].after_records(records, now)),
                ..self
            }
        } else {
            self
        }
    }

    /// The dashboard after one poll of the log of the agent `id`, where
    /// the log holds `file`, or cannot be read: the records read since the
    /// last poll are folded into the agent, and the cursor moves on.
    pub open spec fn after_poll(self, id: u32, file: Option<Seq<u8>>, now: u64) -> AppView {
        if self.agents.contains_key(id) && file is Some {
            let path = self.agents[id].session_file;
            let outcome = read_outcome(cursor_at(self.cursors, path), file->0);
            AppView {
                cursors: self.cursors.insert(path, outcome.offset as u64),
                ..self.after_records(id, outcome.records, now)
            }
        } else {
            self
        }
    }

    /// The dashboard after one poll of the log of the agent `id` that read
    /// only `tail`, what the log holds from the byte `start` on: the
    /// records of the lines that the tail completes are folded into the
    /// agent, and the cursor moves past those lines.
    pub open spec fn after_tail(self, id: u32, start: u64, tail: Seq<u8>, now: u64) -> AppView {
        if self.agents.contains_key(id) {
            AppView {
                cursors: self.cursors.insert(
                    self.agents[id].session_file,
                    (start + consumed_len(tail)) as u64,
                ),
                ..self.after_records(id, records_in(tail), now)
            }
        } else {
            self
        }
    }

    /// Where the next read of the log of the agent `id` starts, in a log
    /// of `file_len` bytes.
    pub open spec fn read_start(self, id: u32, file_len: nat) -> nat {
        effective_offset(cursor_at(self.cursors, self.agents[id].session_file), file_len)
    }

    /// What the log of the agent `id` holds, if it is among `files`.
    pub open spec fn log_of(self, id: u32, files: Seq<SessionFileView>) -> Option<Seq<u8>> {
        if self.agents.contains_key(id) {
            file_content(files, self.agents[id].session_file)
        } else {
            None
        }
    }

    /// The dashboard after one poll of the log of each of the agents
    /// `ids`, in order.
    pub open spec fn after_polls(self, ids: Seq<u32>, files: Seq<SessionFileView>, now: u64) -> AppView
        decreases ids.len(),
    {
        if ids.len() == 0 {
            self
        } else {
            let before = self.after_polls(ids.drop_last(), files, now);
            before.after_poll(ids.last(), before.log_of(ids.last(), files), now)
        }
    }

    /// The dashboard after the staleness sweep over every agent.
    pub open spec fn swept(self, now: u64) -> AppView {
        AppView {
            agents: self.agents.map_values(
                |agent: AgentView| agent.swept(DORMANCY_TIMEOUT_SECS, now),
            ),
            ..self
        }
    }

    /// The dashboard after the scan, if one is due at this tick.
    pub open spec fn after_due_scan(self, files: Seq<SessionFileView>, now: u64) -> AppView {
        if self.scan_due() {
            self.after_scan(active_sessions(files, now), now)
        } else {
            self
        }
    }

    /// The dashboard after one tick, with `files` the files found below
    /// the projects directory: the count goes up; at every twentieth tick
    /// the sessions are scanned; the log of each agent is polled, the
    /// agent with the smallest id first; then the staleness sweep runs.
    pub open spec fn after_tick(self, files: Seq<SessionFileView>, now: u64) -> AppView {
        let scanned = self.ticked().after_due_scan(files, now);
        scanned.after_polls(ascending_ids(scanned.agents.dom()), files, now).swept(now)
    }

    /// Whether two dashboards agree on what the user set: the directory,
    /// the wish to quit, the focus and the scroll position.
    pub open spec fn same_settings(self, other: AppView) -> bool {
        &&& self.claude_dir == other.claude_dir
        &&& self.should_quit == other.should_quit
        &&& self.focus == other.focus
        &&& self.sidebar_scroll == other.sidebar_scroll
    }

    /// The dashboard after the user picked the agent `num`.
    pub open spec fn selecting(self, num: u32) -> AppView {
        if self.agents.contains_key(num) {
            AppView { selected_agent: Some(num), ..self }
        } else {
            self
        }
    }

    /// The dashboard with the focus on the other panel.
    pub open spec fn toggled(self) -> AppView {
        AppView {
            focus: match self.focus {
                PanelFocus::Office => PanelFocus::Sidebar,
                PanelFocus::Sidebar => PanelFocus::Office,
            },
            ..self
        }
    }

    /// The dashboard with the sidebar scrolled to `line`.
    pub open spec fn scrolled_to(self, line: u16) -> AppView {
        AppView { sidebar_scroll: line, ..self }
    }

    /// What the figure of the agent `id` is doing; an agent that is not
    /// there is idle.
    pub open spec fn anim_state(self, id: u32) -> AnimState {
        if self.agents.contains_key(id) {
            activity(self.agents[id].active_tools)
        } else {
            AnimState::Idle
        }
    }
}

/// The keys of a map of agents, the smallest first.
pub fn ascending_keys(agents: &HashMap<u32, AgentState>) -> (ids: Vec<u32>)
    ensures
        ids@ == ascending_ids(agents@.dom()),
        lists_ascending(ids@, agents@.dom()),
{
    broadcast use vstd::std_specs::hash::group_hash_axioms;

    let mut ids: Vec<u32> = Vec::new();
    let ghost all = vstd::std_specs::hash::spec_keys_iter(agents).remaining();
    for key in it: agents.keys()
        invariant
            it.seq() == all,
            all == vstd::std_specs::hash::spec_keys_iter(agents).remaining(),
            all.no_duplicates(),
            is_ascending(ids@),
            ids@.len() == it.index(),
            forall|id: u32|
                ids@.contains(id) <==> exists|j: int| 0 <= j < it.index() && *all[j] == id,
    {
        let id = *key;
        let ghost done = it.index();
        let ghost before = ids@;
        let mut place: usize = 0;
        while place < ids.len() && ids[place] < id
            invariant
                place <= ids.len(),
                ids@ == before,
                is_ascending(ids@),
                forall|k: int| 0 <= k < place ==> ids@[k] < id,
            decreases ids.len() - place,
        {
            place += 1;
        }
        proof {
            if place < ids.len() && ids[place as int] == id {
                assert(before.contains(id));
                let j = choose|j: int| 0 <= j < done && *all[j] == id;
                assert(all[j] == all[done]);
            }
        }
        ids.insert(place, id);
        proof {
            let after = ids@;
            assert forall|a: int, b: int| 0 <= a < b < after.len() implies after[a] < after[b] by {
                let a0 = if a < place { a } else { a - 1 };
                let b0 = if b < place { b } else { b - 1 };
                if a != place && b != place {
                    assert(before[a0] < before[b0]);
                } else if a == place {
                    assert(before[b0] >= id);
                    if b0 > place {
                        assert(before[place as int] < before[b0]);
                    }
                }
            }
            assert forall|x: u32| after.contains(x) <==> exists|j: int|
                0 <= j < done + 1 && *all[j] == x by {
                if after.contains(x) {
                    let m = choose|m: int| 0 <= m < after.len() && after[m] == x;
                    if m == place {
                        assert(*all[done] == x);
                    } else {
                        let m0 = if m < place { m } else { m - 1 };
                        assert(before[m0] == x);
                        assert(before.contains(x));
                    }
                }
                if exists|j: int| 0 <= j < done + 1 && *all[j] == x {
                    let j = choose|j: int| 0 <= j < done + 1 && *all[j] == x;
                    if j == done {
                        assert(after[place as int] == x);
                    } else {
                        assert(before.contains(x));
                        let m0 = choose|m0: int| 0 <= m0 < before.len() && before[m0] == x;
                        let m = if m0 < place { m0 } else { m0 + 1 };
                        assert(after[m] == x);
                    }
                }
            }
        }
    }
    proof {
        let dom = agents@.dom();
        assert forall|id: u32| ids@.contains(id) <==> dom.contains(id) by {
            if ids@.contains(id) {
                let j = choose|j: int| 0 <= j < all.len() && *all[j] == id;
                assert(all.unref()[j] == id);
                assert(all.unref().to_set().contains(id));
            }
            if dom.contains(id) {
                assert(all.unref().to_set().contains(id));
                let j = choose|j: int| 0 <= j < all.unref().len() && all.unref()[j] == id;
                assert(*all[j] == id);
            }
        }
        let chosen = ascending_ids(dom);
        assert(lists_ascending(ids@, dom));
        lemma_ascending_unique(ids@, chosen, dom);
    }
    ids
}

impl App {
    /// The tracker and the reader are well-formed.
    pub open spec fn wf(&self) -> bool {
        self.session_tracker.wf() && self.reader.wf()
    }

    pub fn new(claude_dir: String) -> (app: App)
        ensures
            app.wf(),
            app@ == AppView::initial(claude_dir@),
    {
        let app = App {
            agents: HashMap::new(),
            selected_agent: None,
            session_tracker: SessionTracker::new(),
            reader: IncrementalReader::new(),
            claude_dir,
            should_quit: false,
            tick_count: 0,
            focus: PanelFocus::Sidebar,
            sidebar_scroll: 0,
        };
        proof {
            assert(app@.agents =~= Map::<u32, AgentView>::empty());
            assert(app@.tracker.known =~= Seq::empty());
        }
        app
    }

    /// Counts one tick and says whether a scan for sessions is due.
    pub fn begin_tick(&mut self) -> (scan: bool)
        requires
            old(self).tick_count < u64::MAX,
        ensures
            final(self)@ == old(self)@.ticked(),
            scan == final(self)@.scan_due(),
            final(self).wf() == old(self).wf(),
    {
        self.tick_count = self.tick_count + 1;
        self.tick_count % SESSION_SCAN_INTERVAL == 0
    }

    /// Takes in what a scan found: the logs `sessions` are active now.
    pub fn apply_scan(&mut self, sessions: &[String], now: u64)
        requires
            old(self).wf(),
            old(self)@.tracker.next_id + sessions@.len() <= u32::MAX,
        ensures
            final(self).wf(),
            final(self)@ == old(self)@.after_scan(sessions.deep_view(), now),
            final(self)@.tracker == old(self)@.tracker.updated(sessions.deep_view()),
            final(self)@.tick_count == old(self)@.tick_count,
            final(self)@.same_settings(old(self)@),
    {
        broadcast use vstd::std_specs::hash::group_hash_axioms;

        let ghost paths = sessions.deep_view();
        let ghost start = self@.with_tracker(self@.tracker.updated(paths));
        let (new_sessions, removed) = self.session_tracker.update(sessions);
        let ghost new = new_sessions.deep_view();
        let mut i: usize = 0;
        proof {
            assert(new.take(0) =~= Seq::empty());
            assert(self@ == start);
        }
        while i < new_sessions.len()
            invariant
                i <= new_sessions.len(),
                new == new_sessions.deep_view(),
                self.wf(),
                self@ == start.with_sessions(new.take(i as int), now),
                self@.tracker == start.tracker,
                self@.tick_count == start.tick_count,
                self@.same_settings(start),
            decreases new_sessions.len() - i,
        {
            let ghost before = self@;
            proof {
                assert(new.take(i + 1).drop_last() =~= new.take(i as int));
                assert(new.take(i + 1).last() == new[i as int]);
            }
            let id = new_sessions[i].0;
            let path = new_sessions[i].1.clone();
            self.agents.insert(id, AgentState::new(id, path, now));
            proof {
                assert(self@.agents =~= before.agents.insert(
                    id,
                    AgentView::fresh(id, new[i as int].1, now),
                ));
            }
            i += 1;
        }
        let ghost grown = self@;
        let mut j: usize = 0;
        proof {
            assert(new.take(i as int) =~= new);
            assert(removed@.take(0) =~= Seq::empty());
        }
        while j < removed.len()
            invariant
                j <= removed.len(),
                self.wf(),
                self@ == grown.without_sessions(removed@.take(j as int)),
                self@.tracker == grown.tracker,
                self@.tick_count == grown.tick_count,
                self@.same_settings(grown),
            decreases removed.len() - j,
        {
            let ghost before = self@;
            proof {
                assert(removed@.take(j + 1).drop_last() =~= removed@.take(j as int));
                assert(removed@.take(j + 1).last() == removed[j as int]);
            }
            let id = removed[j];
            match self.agents.remove(&id) {
                Some(agent) => {
                    self.reader.remove(agent.session_file.as_str());
                },
                None => {},
            }
            let selected = match self.selected_agent {
                Some(chosen) => chosen == id,
                None => false,
            };
            if selected {
                self.selected_agent = None;
            }
            proof {
                assert(self@.agents =~= before.agents.remove(id));
            }
            j += 1;
        }
        proof {
            assert(removed@.take(j as int) =~= removed@);
        }
    }

    /// Folds records into the agent `id`; nothing happens where there is
    /// no such agent.
    pub fn apply_records(&mut self, id: u32, records: &Vec<JsonlRecord>, now: u64)
        ensures
            final(self)@ == old(self)@.after_records(id, records.deep_view(), now),
            final(self).wf() == old(self).wf(),
    {
        broadcast use vstd::std_specs::hash::group_hash_axioms;

        let ghost before = self@;
        match self.agents.remove(&id) {
            Some(agent) => {
                let mut agent = agent;
                agent.apply_records(records, now);
                self.agents.insert(id, agent);
                proof {
                    assert(self@.agents =~= before.agents.insert(
                        id,
                        before.agents[id].after_records(records.deep_view(), now),
                    ));
                }
            },
            None => {
                assert(self@.agents =~= before.agents);
            },
        }
    }

    /// The log of the agent `id`, if there is such an agent.
    pub fn session_file(&self, id: u32) -> (path: Option<String>)
        ensures
            match path {
                Some(p) => self@.agents.contains_key(id) && p@ == self@.agents[id].session_file,
                None => !self@.agents.contains_key(id),
            },
    {
        broadcast use vstd::std_specs::hash::group_hash_axioms;

        match self.agents.get(&id) {
            Some(agent) => Some(agent.session_file.clone()),
            None => None,
        }
    }

    /// One poll of the log of the agent `id`: `file` is what the log
    /// holds, or `None` where it cannot be read.
    pub fn poll_session(&mut self, id: u32, file: Option<&[u8]>, now: u64)
        requires
            old(self).wf(),
        ensures
            final(self).wf(),
            final(self)@ == old(self)@.after_poll(id, bytes_of(file), now),
    {
        let path = match self.session_file(id) {
            Some(path) => path,
            None => {
                return;
            },
        };
        if file.is_none() {
            return;
        }
        let records = self.reader.read_new_lines(path.as_str(), file);
        self.apply_records(id, &records, now);
    }

    /// Where the next read of the log of the agent `id` starts, in a log
    /// of `file_len` bytes: at the cursor, or at the start of a log that
    /// has become shorter. `None` where there is no such agent.
    pub fn read_start(&self, id: u32, file_len: u64) -> (start: Option<u64>)
        requires
            self.wf(),
        ensures
            match start {
                Some(at) => self@.agents.contains_key(id) && at == self@.read_start(
                    id,
                    file_len as nat,
                ) && at <= file_len,
                None => !self@.agents.contains_key(id),
            },
    {
        match self.session_file(id) {
            Some(path) => Some(self.reader.start_offset(path.as_str(), file_len)),
            None => None,
        }
    }

    /// One poll of the log of the agent `id` by its tail: `tail` is what
    /// the log holds from the byte `start` on. With `start` as
    /// [`App::read_start`] gives it this is a poll of the whole log.
    pub fn poll_tail(&mut self, id: u32, start: u64, tail: &[u8], now: u64)
        requires
            old(self).wf(),
            start + tail@.len() <= u64::MAX,
        ensures
            final(self).wf(),
            final(self)@ == old(self)@.after_tail(id, start, tail@, now),
    {
        let path = match self.session_file(id) {
            Some(path) => path,
            None => {
                return;
            },
        };
        let records = self.reader.read_from(path.as_str(), start, tail);
        self.apply_records(id, &records, now);
    }

    /// The staleness sweep over every agent.
    pub fn sweep_dormant(&mut self, now: u64)
        ensures
            final(self)@ == old(self)@.swept(now),
            final(self).wf() == old(self).wf(),
    {
        broadcast use vstd::std_specs::hash::group_hash_axioms;

        let ghost before = self@;
        let ids = ascending_keys(&self.agents);
        let mut i: usize = 0;
        while i < ids.len()
            invariant
                i <= ids.len(),
                lists_ascending(ids@, before.agents.dom()),
                self.wf() == old(self).wf(),
                self@.agents.dom() == before.agents.dom(),
                forall|k: int|
                    0 <= k < i ==> self@.agents[#[trigger] ids@[k]] == before.agents[ids@[k]].swept(
                        DORMANCY_TIMEOUT_SECS,
                        now,
                    ),
                forall|k: int|
                    i <= k < ids.len() ==> self@.agents[#[trigger] ids@[k]] == before.agents[ids@[k]],
                self@ == (AppView { agents: self@.agents, ..before }),
            decreases ids.len() - i,
        {
            let id = ids[i];
            let ghost mid = self@;
            proof {
                assert(ids@.contains(id));
            }
            match self.agents.remove(&id) {
                Some(agent) => {
                    let mut agent = agent;
                    agent.sweep(DORMANCY_TIMEOUT_SECS, now);
                    self.agents.insert(id, agent);
                },
                None => {},
            }
            proof {
                assert(self@.agents.dom() =~= before.agents.dom());
                assert forall|k: int| 0 <= k < ids.len() && k != i implies self@.agents[ids@[k]]
                    == mid.agents[ids@[k]] by {
                    if k < i {
                        assert(ids@[k] < ids@[i as int]);
                    } else {
                        assert(ids@[i as int] < ids@[k]);
                    }
                }
            }
            i += 1;
        }
        proof {
            assert forall|id: u32| before.agents.contains_key(id) implies self@.agents[id]
                == before.agents[id].swept(DORMANCY_TIMEOUT_SECS, now) by {
                assert(ids@.contains(id));
                let k = choose|k: int| 0 <= k < ids@.len() && ids@[k] == id;
                assert(self@.agents[ids@[k]] == before.agents[ids@[k]].swept(
                    DORMANCY_TIMEOUT_SECS,
                    now,
                ));
            }
            assert(self@.agents =~= before.swept(now).agents);
        }
    }

    /// One tick: `files` are the files found below the projects directory
    /// and `now` is the time on the caller's clock, in seconds.
    pub fn tick(&mut self, files: &Vec<SessionFile>, now: u64)
        requires
            old(self).wf(),
            old(self).tick_count < u64::MAX,
            old(self)@.tracker.next_id + files.len() <= u32::MAX,
        ensures
            final(self).wf(),
            final(self)@ == old(self)@.after_tick(files.deep_view(), now),
            final(self)@.tick_count == old(self)@.tick_count + 1,
            final(self)@.same_settings(old(self)@),
            final(self)@.tracker == old(self)@.ticked().after_due_scan(
                files.deep_view(),
                now,
            ).tracker,
            final(self)@.agents.dom() == old(self)@.ticked().after_due_scan(
                files.deep_view(),
                now,
            ).agents.dom(),
    {
        let ghost all = files.deep_view();
        let scan = self.begin_tick();
        if scan {
            let sessions = scan_sessions(files, now);
            let found = sessions.as_slice();
            proof {
                assert(found.deep_view() =~= sessions.deep_view());
            }
            self.apply_scan(found, now);
        }
        let ghost scanned = self@;
        let ids = ascending_keys(&self.agents);
        let mut i: usize = 0;
        proof {
            assert(scanned == old(self)@.ticked().after_due_scan(all, now));
            assert(scanned.agents.dom() =~= self.agents@.dom());
            assert(ids@.take(0) =~= Seq::empty());
        }
        while i < ids.len()
            invariant
                i <= ids.len(),
                all == files.deep_view(),
                self.wf(),
                self@ == scanned.after_polls(ids@.take(i as int), all, now),
                self@.tracker == scanned.tracker,
                self@.tick_count == scanned.tick_count,
                self@.same_settings(scanned),
                self@.agents.dom() == scanned.agents.dom(),
            decreases ids.len() - i,
        {
            proof {
                assert(ids@.take(i + 1).drop_last() =~= ids@.take(i as int));
                assert(ids@.take(i + 1).last() == ids@[i as int]);
            }
            let id = ids[i];
            let ghost before = self@;
            match self.session_file(id) {
                Some(path) => {
                    let file = find_file(files, path.as_str());
                    self.poll_session(id, file, now);
                },
                None => {},
            }
            proof {
                assert(self@.agents.dom() =~= before.agents.dom());
            }
            i += 1;
        }
        proof {
            assert(ids@.take(i as int) =~= ids@);
        }
        self.sweep_dormant(now);
    }

    /// The user picked the agent `num`.
    pub fn select_agent(&mut self, num: u32)
        ensures
            final(self)@ == old(self)@.selecting(num),
            final(self).wf() == old(self).wf(),
    {
        broadcast use vstd::std_specs::hash::group_hash_axioms;

        if self.agents.contains_key(&num) {
            self.selected_agent = Some(num);
        }
    }

    /// Moves the focus to the other panel.
    pub fn toggle_focus(&mut self)
        ensures
            final(self)@ == old(self)@.toggled(),
            final(self).wf() == old(self).wf(),
    {
        self.focus = match self.focus {
            PanelFocus::Office => PanelFocus::Sidebar,
            PanelFocus::Sidebar => PanelFocus::Office,
        };
    }

    /// Scrolls the sidebar up by one line, not past its top.
    pub fn scroll_up(&mut self)
        ensures
            final(self)@ == old(self)@.scrolled_to(
                if old(self).sidebar_scroll == 0 {
                    0
                } else {
                    (old(self).sidebar_scroll - 1) as u16
                },
            ),
            final(self).wf() == old(self).wf(),
    {
        if self.sidebar_scroll > 0 {
            self.sidebar_scroll = self.sidebar_scroll - 1;
        }
    }

    /// Scrolls the sidebar down by one line, not past the last line that
    /// can be counted.
    pub fn scroll_down(&mut self)
        ensures
            final(self)@ == old(self)@.scrolled_to(
                if old(self).sidebar_scroll == u16::MAX {
                    u16::MAX
                } else {
                    (old(self).sidebar_scroll + 1) as u16
                },
            ),
            final(self).wf() == old(self).wf(),
    {
        if self.sidebar_scroll < u16::MAX {
            self.sidebar_scroll = self.sidebar_scroll + 1;
        }
    }

    /// The ids of the agents, the smallest first.
    pub fn sorted_agent_ids(&self) -> (ids: Vec<u32>)
        ensures
            ids@ == ascending_ids(self@.agents.dom()),
            lists_ascending(ids@, self@.agents.dom()),
    {
        let ids = ascending_keys(&self.agents);
        proof {
            assert(self@.agents.dom() =~= self.agents@.dom());
        }
        ids
    }

    /// What the figure of the agent `id` is doing.
    pub fn agent_anim_state(&self, id: u32) -> (state: AnimState)
        ensures
            state == self@.anim_state(id),
    {
        broadcast use vstd::std_specs::hash::group_hash_axioms;

        match self.agents.get(&id) {
            Some(agent) => {
                let ghost tools = agent.active_tools.deep_view();
                if agent.active_tools.len() == 0 {
                    return AnimState::Idle;
                }
                let mut i: usize = 0;
                while i < agent.active_tools.len()
                    invariant
                        i <= agent.active_tools.len(),
                        tools == agent.active_tools.deep_view(),
                        tools.len() > 0,
                        self@.agents.contains_key(id),
                        self@.agents[id].active_tools == tools,
                        forall|k: int| 0 <= k < i ==> !(#[trigger] tools[k]).is_reading,
                    decreases agent.active_tools.len() - i,
                {
                    if agent.active_tools[i].is_reading {
                        assert(tools[i as int].is_reading);
                        return AnimState::Reading;
                    }
                    i += 1;
                }
                AnimState::Typing
            },
            None => AnimState::Idle,
        }
    }
}

} // verus!
