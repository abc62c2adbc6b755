//! The state of one agent and the transitions that events cause. Each
//! transition is a function on the agent's mathematical value; the
//! executable methods carry it out in place.

use crate::state::sdd::detect_sdd_phase;
use crate::state::sdd::detected_phase;
use crate::state::sdd::SddPhase;
use crate::text::first_chars;
use crate::text::owned;
use crate::text::str_eq;
use crate::text::take_chars;
use crate::watcher::parser::ends_turn;
use crate::watcher::parser::extract_text;
use crate::watcher::parser::extract_tool_results;
use crate::watcher::parser::extract_tool_uses;
use crate::watcher::parser::is_turn_end;
use crate::watcher::parser::text_of;
use crate::watcher::parser::tool_results_of;
use crate::watcher::parser::tool_uses_of;
use crate::watcher::parser::ToolUseEvent;
use crate::watcher::parser::ToolUseView;
use crate::watcher::types::JsonlRecord;
use crate::watcher::types::RecordView;
use vstd::prelude::*;

verus! {

/// Whether an agent is in a turn, between turns, or silent for long.
#[derive(Debug, Clone, Copy, PartialEq, Eq, Structural)]
pub enum AgentStatus {
    Active,
    Waiting,
    Dormant,
}

impl AgentStatus {
    /// The word that names the status.
    pub open spec fn label_text(self) -> Seq<char> {
        match self {
            AgentStatus::Active => "active"@,
            AgentStatus::Waiting => "waiting"@,
            AgentStatus::Dormant => "dormant"@,
        }
    }

    /// The mark that stands for the status.
    pub open spec fn symbol_text(self) -> Seq<char> {
        match self {
            AgentStatus::Active => "●"@,
            AgentStatus::Waiting => "○"@,
            AgentStatus::Dormant => "◌"@,
        }
    }

    pub fn label(&self) -> (label: &'static str)
        ensures
            label@ == self.label_text(),
    {
        match self {
            AgentStatus::Active => "active",
            AgentStatus::Waiting => "waiting",
            AgentStatus::Dormant => "dormant",
        }
    }

    pub fn symbol(&self) -> (symbol: &'static str)
        ensures
            symbol@ == self.symbol_text(),
    {
        match self {
            AgentStatus::Active => "●",
            AgentStatus::Waiting => "○",
            AgentStatus::Dormant => "◌",
        }
    }
}

/// A task that an agent has handed out, tied to the tool that started it.
#[derive(Debug, PartialEq, Eq)]
pub struct SubAgent {
    pub id: i32,
    pub parent_tool_id: String,
    pub agent_type: String,
    pub active_tools: Vec<ToolUseEvent>,
}

/// The mathematical value of a [`SubAgent`].
pub struct SubAgentView {
    pub id: i32,
    pub parent_tool_id: Seq<char>,
    pub agent_type: Seq<char>,
    pub active_tools: Seq<ToolUseView>,
}

impl View for SubAgent {
    type V = SubAgentView;

    open spec fn view(&self) -> SubAgentView {
        SubAgentView {
            id: self.id,
            parent_tool_id: self.parent_tool_id@,
            agent_type: self.agent_type@,
            active_tools: self.active_tools.deep_view(),
        }
    }
}

impl DeepView for SubAgent {
    type V = SubAgentView;

    open spec fn deep_view(&self) -> SubAgentView {
        self@
    }
}

/// A copy of a list of tool events.
fn clone_tools(tools: &Vec<ToolUseEvent>) -> (copy: Vec<ToolUseEvent>)
    ensures
        copy@ == tools@,
{
    let mut copy: Vec<ToolUseEvent> = Vec::new();
    let mut i: usize = 0;
    while i < tools.len()
        invariant
            i <= tools.len(),
            copy@ == tools@.take(i as int),
        decreases tools.len() - i,
    {
        copy.push(tools[i].clone());
        assert(copy@ =~= tools@.take(i + 1));
        i += 1;
    }
    assert(tools@.take(i as int) =~= tools@);
    copy
}

impl Clone for SubAgent {
    fn clone(&self) -> (copy: SubAgent)
        ensures
            copy@ == self@,
    {
        let copy = SubAgent {
            id: self.id,
            parent_tool_id: self.parent_tool_id.clone(),
            agent_type: self.agent_type.clone(),
            active_tools: clone_tools(&self.active_tools),
        };
        assert(copy.active_tools.deep_view() =~= self.active_tools.deep_view());
        copy
    }
}

/// What is known of one agent.
#[derive(Debug)]
pub struct AgentState {
    pub id: u32,
    pub session_file: String,
    pub status: AgentStatus,
    pub active_tools: Vec<ToolUseEvent>,
    pub sub_agents: Vec<SubAgent>,
    pub sdd_phase: Option<SddPhase>,
    pub prompt_summary: String,
    /// When the agent was last heard of, in seconds on the caller's clock.
    pub last_activity: u64,
}

/// The mathematical value of an [`AgentState`].
pub struct AgentView {
    pub id: u32,
    pub session_file: Seq<char>,
    pub status: AgentStatus,
    pub active_tools: Seq<ToolUseView>,
    pub sub_agents: Seq<SubAgentView>,
    pub sdd_phase: Option<SddPhase>,
    pub prompt_summary: Seq<char>,
    pub last_activity: u64,
}

impl View for AgentState {
    type V = AgentView;

    open spec fn view(&self) -> AgentView {
        AgentView {
            id: self.id,
            session_file: self.session_file@,
            status: self.status,
            active_tools: self.active_tools.deep_view(),
            sub_agents: self.sub_agents.deep_view(),
            sdd_phase: self.sdd_phase,
            prompt_summary: self.prompt_summary@,
            last_activity: self.last_activity,
        }
    }
}

impl DeepView for AgentState {
    type V = AgentView;

    open spec fn deep_view(&self) -> AgentView {
        self@
    }
}

/// Whether one of `tools` has the id `tool_id`.
pub open spec fn holds_tool(tools: Seq<ToolUseView>, tool_id: Seq<char>) -> bool {
    exists|i: int| 0 <= i < tools.len() && (#[trigger] tools[i]).tool_id == tool_id
}

/// Whether one of `sub_agents` was started by the tool `tool_id`.
pub open spec fn holds_sub_agent(sub_agents: Seq<SubAgentView>, tool_id: Seq<char>) -> bool {
    exists|i: int|
        0 <= i < sub_agents.len() && (#[trigger] sub_agents[i]).parent_tool_id == tool_id
}

/// Whether no two of `tools` share an id.
pub open spec fn distinct_tools(tools: Seq<ToolUseView>) -> bool {
    forall|i: int, j: int|
        0 <= i < j < tools.len() ==> (#[trigger] tools[i]).tool_id != (#[trigger] tools[j]).tool_id
}

/// The sub-agent that a `Task` tool with the id `tool_id` starts.
pub open spec fn task_sub_agent(tool_id: Seq<char>) -> SubAgentView {
    SubAgentView {
        id: -1i32,
        parent_tool_id: tool_id,
        agent_type: "task"@,
        active_tools: Seq::empty(),
    }
}

/// The seconds from `since` to `now`, none where the clock stands before
/// `since`.
pub open spec fn elapsed(since: u64, now: u64) -> nat {
    if now >= since {
        (now - since) as nat
    } else {
        0
    }
}

impl AgentView {
    /// A newly tracked agent: waiting, with nothing known of it.
    pub open spec fn fresh(id: u32, session_file: Seq<char>, now: u64) -> AgentView {
        AgentView {
            id,
            session_file,
            status: AgentStatus::Waiting,
            active_tools: Seq::empty(),
            sub_agents: Seq::empty(),
            sdd_phase: None,
            prompt_summary: Seq::empty(),
            last_activity: now,
        }
    }

    /// No two active tools share an id.
    pub open spec fn wf(self) -> bool {
        distinct_tools(self.active_tools)
    }

    /// The agent after a tool started. It is active and was just heard of;
    /// a skill of the workflow sets the phase, whatever it was. The tool
    /// joins the active tools, and a `Task` brings its sub-agent, unless a
    /// tool of that id is active already.
    pub open spec fn with_tool(self, tool: ToolUseView, now: u64) -> AgentView {
        let known = holds_tool(self.active_tools, tool.tool_id);
        AgentView {
            status: AgentStatus::Active,
            last_activity: now,
            sdd_phase: match detected_phase(tool) {
                Some(phase) => Some(phase),
                None => self.sdd_phase,
            },
            active_tools: if known {
                self.active_tools
            } else {
                self.active_tools.push(tool)
            },
            sub_agents: if !known && tool.tool_name == "Task"@ {
                self.sub_agents.push(task_sub_agent(tool.tool_id))
            } else {
                self.sub_agents
            },
            ..self
        }
    }

    /// Whether the tool `tool_id` is active or has started a sub-agent
    /// that is still there.
    pub open spec fn knows_tool(self, tool_id: Seq<char>) -> bool {
        holds_tool(self.active_tools, tool_id) || holds_sub_agent(self.sub_agents, tool_id)
    }

    /// The agent after the tool `tool_id` finished: the tool and the
    /// sub-agents that it started are gone, and the agent was just heard
    /// of. Nothing changes where the agent knows no such tool.
    pub open spec fn without_tool(self, tool_id: Seq<char>, now: u64) -> AgentView {
        if self.knows_tool(tool_id) {
            AgentView {
                last_activity: now,
                active_tools: self.active_tools.filter(|t: ToolUseView| t.tool_id != tool_id),
                sub_agents: self.sub_agents.filter(|s: SubAgentView| s.parent_tool_id != tool_id),
                ..self
            }
        } else {
            self
        }
    }

    /// The agent after a turn ended.
    pub open spec fn waiting(self, now: u64) -> AgentView {
        AgentView {
            status: AgentStatus::Waiting,
            last_activity: now,
            active_tools: Seq::empty(),
            sub_agents: Seq::empty(),
            ..self
        }
    }

    /// The agent after narrative text: the first 150 characters become the
    /// summary where there was none.
    pub open spec fn with_summary(self, text: Seq<char>) -> AgentView {
        if self.prompt_summary.len() == 0 {
            AgentView { prompt_summary: first_chars(text, 150), ..self }
        } else {
            self
        }
    }

    /// Whether the agent has been silent for `timeout_secs` or longer.
    pub open spec fn silent_for(self, timeout_secs: u64, now: u64) -> bool {
        elapsed(self.last_activity, now) >= timeout_secs
    }

    /// The agent after the staleness sweep: dormant where it has been
    /// silent for `timeout_secs` or longer.
    pub open spec fn swept(self, timeout_secs: u64, now: u64) -> AgentView {
        if self.status != AgentStatus::Dormant && self.silent_for(timeout_secs, now) {
            AgentView { status: AgentStatus::Dormant, ..self }
        } else {
            self
        }
    }

    /// The label of the tool that started last among the active ones.
    pub open spec fn tool_display(self) -> Option<Seq<char>> {
        if self.active_tools.len() == 0 {
            None
        } else {
            Some(self.active_tools.last().display_status)
        }
    }

    /// The agent after each of `tools` started, in order.
    pub open spec fn with_tools(self, tools: Seq<ToolUseView>, now: u64) -> AgentView
        decreases tools.len(),
    {
        if tools.len() == 0 {
            self
        } else {
            self.with_tools(tools.drop_last(), now).with_tool(tools.last(), now)
        }
    }

    /// The agent after each of the tools `ids` finished, in order.
    pub open spec fn without_tools(self, ids: Seq<Seq<char>>, now: u64) -> AgentView
        decreases ids.len(),
    {
        if ids.len() == 0 {
            self
        } else {
            self.without_tools(ids.drop_last(), now).without_tool(ids.last(), now)
        }
    }

    /// The agent after one record: the tools that it starts, then the
    /// tools that it finishes, then its text, then the end of the turn.
    pub open spec fn after_record(self, record: RecordView, now: u64) -> AgentView {
        let started = self.with_tools(tool_uses_of(record), now);
        let finished = started.without_tools(tool_results_of(record), now);
        let told = match text_of(record) {
            Some(text) => finished.with_summary(text),
            None => finished,
        };
        if ends_turn(record) {
            told.waiting(now)
        } else {
            told
        }
    }

    /// The agent after each of `records`, in order.
    pub open spec fn after_records(self, records: Seq<RecordView>, now: u64) -> AgentView
        decreases records.len(),
    {
        if records.len() == 0 {
            self
        } else {
            self.after_records(records.drop_last(), now).after_record(records.last(), now)
        }
    }
}

impl AgentState {
    pub fn new(id: u32, session_file: String, now: u64) -> (agent: AgentState)
        ensures
            agent@ == AgentView::fresh(id, session_file@, now),
            agent@.wf(),
    {
        let agent = AgentState {
            id,
            session_file,
            status: AgentStatus::Waiting,
            active_tools: Vec::new(),
            sub_agents: Vec::new(),
            sdd_phase: None,
            prompt_summary: String::new(),
            last_activity: now,
        };
        assert(agent.active_tools.deep_view() =~= Seq::empty());
        assert(agent.sub_agents.deep_view() =~= Seq::empty());
        agent
    }

    /// Whether a tool with the id `tool_id` is active.
    pub fn has_tool(&self, tool_id: &str) -> (found: bool)
        ensures
            found == holds_tool(self@.active_tools, tool_id@),
    {
        let ghost tools = self.active_tools.deep_view();
        let mut i: usize = 0;
        while i < self.active_tools.len()
            invariant
                i <= self.active_tools.len(),
                tools == self.active_tools.deep_view(),
                forall|k: int| 0 <= k < i ==> (#[trigger] tools[k]).tool_id != tool_id@,
            decreases self.active_tools.len() - i,
        {
            if str_eq(self.active_tools[i].tool_id.as_str(), tool_id) {
                assert(tools[i as int].tool_id == tool_id@);
                return true;
            }
            i += 1;
        }
        false
    }

    /// Whether a sub-agent that the tool `tool_id` started is there.
    pub fn has_sub_agent(&self, tool_id: &str) -> (found: bool)
        ensures
            found == holds_sub_agent(self@.sub_agents, tool_id@),
    {
        let ghost subs = self.sub_agents.deep_view();
        let mut i: usize = 0;
        while i < self.sub_agents.len()
            invariant
                i <= self.sub_agents.len(),
                subs == self.sub_agents.deep_view(),
                forall|k: int| 0 <= k < i ==> (#[trigger] subs[k]).parent_tool_id != tool_id@,
            decreases self.sub_agents.len() - i,
        {
            if str_eq(self.sub_agents[i].parent_tool_id.as_str(), tool_id) {
                assert(subs[i as int].parent_tool_id == tool_id@);
                return true;
            }
            i += 1;
        }
        false
    }

    /// A tool started.
    pub fn add_tool(&mut self, tool: ToolUseEvent, now: u64)
        ensures
            final(self)@ == old(self)@.with_tool(tool@, now),
            final(self)@.status == AgentStatus::Active,
            detected_phase(tool@) is None ==> final(self)@.sdd_phase == old(self)@.sdd_phase,
            detected_phase(tool@) is Some ==> final(self)@.sdd_phase == detected_phase(tool@),
            old(self)@.wf() ==> final(self)@.wf(),
    {
        self.status = AgentStatus::Active;
        self.last_activity = now;
        if let Some(phase) = detect_sdd_phase(&tool) {
            self.sdd_phase = Some(phase);
        }
        if self.has_tool(tool.tool_id.as_str()) {
            return;
        }
        let ghost tools = self.active_tools.deep_view();
        let ghost subs = self.sub_agents.deep_view();
        if str_eq(tool.tool_name.as_str(), "Task") {
            let sub_agent = SubAgent {
                id: -1,
                parent_tool_id: tool.tool_id.clone(),
                agent_type: owned("task"),
                active_tools: Vec::new(),
            };
            assert(sub_agent.active_tools.deep_view() =~= Seq::empty());
            self.sub_agents.push(sub_agent);
            assert(self.sub_agents.deep_view() =~= subs.push(task_sub_agent(tool@.tool_id)));
        }
        self.active_tools.push(tool);
        assert(self.active_tools.deep_view() =~= tools.push(tool@));
        proof {
            if old(self)@.wf() {
                lemma_with_tool_wf(old(self)@, tool@, now);
            }
        }
    }

    /// The tool `tool_id` finished.
    pub fn remove_tool(&mut self, tool_id: &str, now: u64)
        ensures
            final(self)@ == old(self)@.without_tool(tool_id@, now),
            !holds_tool(final(self)@.active_tools, tool_id@),
            forall|i: int|
                0 <= i < final(self)@.sub_agents.len() ==> (
                #[trigger] final(self)@.sub_agents[i]).parent_tool_id != tool_id@,
            !old(self)@.knows_tool(tool_id@) ==> final(self)@ == old(self)@,
            old(self)@.wf() ==> final(self)@.wf(),
    {
        proof {
            lemma_without_tool(old(self)@, tool_id@, now);
        }
        if !self.has_tool(tool_id) && !self.has_sub_agent(tool_id) {
            return;
        }
        let ghost tools = self.active_tools.deep_view();
        let ghost keep_tool = |t: ToolUseView| t.tool_id != tool_id@;
        let mut kept_tools: Vec<ToolUseEvent> = Vec::new();
        let mut i: usize = 0;
        proof {
            reveal(Seq::filter);
            assert(tools.take(0) =~= Seq::empty());
            assert(kept_tools.deep_view() =~= Seq::empty());
        }
        while i < self.active_tools.len()
            invariant
                i <= self.active_tools.len(),
                tools == self.active_tools.deep_view(),
                keep_tool == |t: ToolUseView| t.tool_id != tool_id@,
                kept_tools.deep_view() == tools.take(i as int).filter(keep_tool),
            decreases self.active_tools.len() - i,
        {
            let ghost before = kept_tools.deep_view();
            proof {
                reveal(Seq::filter);
                assert(tools.take(i + 1).drop_last() =~= tools.take(i as int));
                assert(tools.take(i + 1).last() == tools[i as int]);
            }
            if !str_eq(self.active_tools[i].tool_id.as_str(), tool_id) {
                kept_tools.push(self.active_tools[i].clone());
                assert(kept_tools.deep_view() =~= before.push(tools[i as int]));
            }
            i += 1;
        }
        let ghost subs = self.sub_agents.deep_view();
        let ghost keep_sub = |s: SubAgentView| s.parent_tool_id != tool_id@;
        let mut kept_subs: Vec<SubAgent> = Vec::new();
        let mut j: usize = 0;
        proof {
            reveal(Seq::filter);
            assert(tools.take(i as int) =~= tools);
            assert(subs.take(0) =~= Seq::empty());
            assert(kept_subs.deep_view() =~= Seq::empty());
        }
        while j < self.sub_agents.len()
            invariant
                j <= self.sub_agents.len(),
                subs == self.sub_agents.deep_view(),
                keep_sub == |s: SubAgentView| s.parent_tool_id != tool_id@,
                kept_subs.deep_view() == subs.take(j as int).filter(keep_sub),
            decreases self.sub_agents.len() - j,
        {
            let ghost before = kept_subs.deep_view();
            proof {
                reveal(Seq::filter);
                assert(subs.take(j + 1).drop_last() =~= subs.take(j as int));
                assert(subs.take(j + 1).last() == subs[j as int]);
            }
            if !str_eq(self.sub_agents[j].parent_tool_id.as_str(), tool_id) {
                kept_subs.push(self.sub_agents[j].clone());
                assert(kept_subs.deep_view() =~= before.push(subs[j as int]));
            }
            j += 1;
        }
        proof {
            assert(subs.take(j as int) =~= subs);
        }
        self.active_tools = kept_tools;
        self.sub_agents = kept_subs;
        self.last_activity = now;
    }

    /// The turn ended.
    pub fn mark_waiting(&mut self, now: u64)
        ensures
            final(self)@ == old(self)@.waiting(now),
            final(self)@.active_tools.len() == 0,
            final(self)@.sub_agents.len() == 0,
            final(self)@.sdd_phase == old(self)@.sdd_phase,
            final(self)@.prompt_summary == old(self)@.prompt_summary,
            final(self)@.status == AgentStatus::Waiting,
            final(self)@.wf(),
    {
        self.status = AgentStatus::Waiting;
        self.active_tools.clear();
        self.sub_agents.clear();
        self.last_activity = now;
        assert(self.active_tools.deep_view() =~= Seq::empty());
        assert(self.sub_agents.deep_view() =~= Seq::empty());
    }

    /// The agent said `text`.
    pub fn set_prompt_summary(&mut self, text: &str)
        ensures
            final(self)@ == old(self)@.with_summary(text@),
            old(self)@.prompt_summary.len() > 0 ==> final(self)@ == old(self)@,
    {
        if !self.prompt_summary.as_str().is_empty() {
            return;
        }
        self.prompt_summary = take_chars(text, 150);
    }

    /// Whether the agent has been silent for `timeout_secs` or longer.
    pub fn is_dormant(&self, timeout_secs: u64, now: u64) -> (silent: bool)
        ensures
            silent == self@.silent_for(timeout_secs, now),
    {
        let passed: u64 = if now >= self.last_activity {
            now - self.last_activity
        } else {
            0
        };
        passed >= timeout_secs
    }

    /// The staleness sweep: the agent falls dormant where it has been
    /// silent for `timeout_secs` or longer.
    pub fn sweep(&mut self, timeout_secs: u64, now: u64)
        ensures
            final(self)@ == old(self)@.swept(timeout_secs, now),
    {
        let dormant = match self.status {
            AgentStatus::Dormant => true,
            _ => false,
        };
        if !dormant && self.is_dormant(timeout_secs, now) {
            self.status = AgentStatus::Dormant;
        }
    }

    /// The label of the tool that started last among the active ones.
    pub fn current_tool_display(&self) -> (label: Option<&str>)
        ensures
            match label {
                Some(s) => self@.tool_display() == Some(s@),
                None => self@.tool_display() is None,
            },
    {
        let n = self.active_tools.len();
        if n == 0 {
            None
        } else {
            Some(self.active_tools[n - 1].display_status.as_str())
        }
    }

    /// Folds one record into the agent.
    pub fn apply_record(&mut self, record: &JsonlRecord, now: u64)
        ensures
            final(self)@ == old(self)@.after_record(record@, now),
            old(self)@.wf() ==> final(self)@.wf(),
    {
        let tools = extract_tool_uses(record);
        let ghost started = tools.deep_view();
        let mut i: usize = 0;
        proof {
            assert(started.take(0) =~= Seq::empty());
        }
        while i < tools.len()
            invariant
                i <= tools.len(),
                started == tools.deep_view(),
                self@ == old(self)@.with_tools(started.take(i as int), now),
                old(self)@.wf() ==> self@.wf(),
            decreases tools.len() - i,
        {
            proof {
                assert(started.take(i + 1).drop_last() =~= started.take(i as int));
                assert(started.take(i + 1).last() == tools[i as int]@);
            }
            self.add_tool(tools[i].clone(), now);
            i += 1;
        }
        let ghost midway = self@;
        let ids = extract_tool_results(record);
        let ghost finished = ids.deep_view();
        let mut j: usize = 0;
        proof {
            assert(started.take(i as int) =~= started);
            assert(finished.take(0) =~= Seq::empty());
        }
        while j < ids.len()
            invariant
                j <= ids.len(),
                finished == ids.deep_view(),
                self@ == midway.without_tools(finished.take(j as int), now),
                old(self)@.wf() ==> self@.wf(),
            decreases ids.len() - j,
        {
            proof {
                assert(finished.take(j + 1).drop_last() =~= finished.take(j as int));
                assert(finished.take(j + 1).last() == ids[j as int]@);
            }
            self.remove_tool(ids[j].as_str(), now);
            j += 1;
        }
        proof {
            assert(finished.take(j as int) =~= finished);
        }
        if let Some(text) = extract_text(record) {
            self.set_prompt_summary(text.as_str());
        }
        if is_turn_end(record) {
            self.mark_waiting(now);
        }
    }

    /// Folds records into the agent, in order.
    pub fn apply_records(&mut self, records: &Vec<JsonlRecord>, now: u64)
        ensures
            final(self)@ == old(self)@.after_records(records.deep_view(), now),
            old(self)@.wf() ==> final(self)@.wf(),
    {
        let ghost all = records.deep_view();
        let mut i: usize = 0;
        proof {
            assert(all.take(0) =~= Seq::empty());
        }
        while i < records.len()
            invariant
                i <= records.len(),
                all == records.deep_view(),
                self@ == old(self)@.after_records(all.take(i as int), now),
                old(self)@.wf() ==> self@.wf(),
            decreases records.len() - i,
        {
            proof {
                assert(all.take(i + 1).drop_last() =~= all.take(i as int));
                assert(all.take(i + 1).last() == records[i as int]@);
            }
            self.apply_record(&records[i], now);
            i += 1;
        }
        proof {
            assert(all.take(i as int) =~= all);
        }
    }
}

/// Starting a tool keeps the active tools' ids distinct.
pub proof fn lemma_with_tool_wf(agent: AgentView, tool: ToolUseView, now: u64)
    requires
        agent.wf(),
    ensures
        agent.with_tool(tool, now).wf(),
{
    let after = agent.with_tool(tool, now).active_tools;
    if !holds_tool(agent.active_tools, tool.tool_id) {
        assert forall|i: int, j: int| 0 <= i < j < after.len() implies (#[trigger] after[i]).tool_id
            != (#[trigger] after[j]).tool_id by {
            if j == agent.active_tools.len() {
                assert(agent.active_tools[i].tool_id != tool.tool_id);
            } else {
                assert(agent.active_tools[i].tool_id != agent.active_tools[j].tool_id);
            }
        }
    }
}

/// What is left of `tools` without those of the id `tool_id` holds no
/// tool of that id, and its ids are as distinct as they were.
proof fn lemma_filter_tools(tools: Seq<ToolUseView>, tool_id: Seq<char>)
    ensures
        !holds_tool(tools.filter(|t: ToolUseView| t.tool_id != tool_id), tool_id),
        distinct_tools(tools) ==> distinct_tools(
            tools.filter(|t: ToolUseView| t.tool_id != tool_id),
        ),
{
    let keep = |t: ToolUseView| t.tool_id != tool_id;
    let left = tools.filter(keep);
    crate::order::lemma_filter_keeps_order(tools, keep);
    if holds_tool(left, tool_id) {
        let i = choose|i: int| 0 <= i < left.len() && (#[trigger] left[i]).tool_id == tool_id;
        assert(keep(left[i]));
    }
    if distinct_tools(tools) {
        assert forall|i: int, j: int| 0 <= i < j < left.len() implies (#[trigger] left[i]).tool_id
            != (#[trigger] left[j]).tool_id by {
            assert(crate::order::in_order(tools, left[i], left[j]));
            let (a, b) = choose|a: int, b: int|
                #![trigger tools[a], tools[b]]
                0 <= a < b < tools.len() && tools[a] == left[i] && tools[b] == left[j];
            assert(tools[a].tool_id != tools[b].tool_id);
        }
    }
}

/// After a tool finished, no active tool has its id, no sub-agent has it
/// for a parent, and the ids of the active tools are as distinct as they
/// were.
pub proof fn lemma_without_tool(agent: AgentView, tool_id: Seq<char>, now: u64)
    ensures
        !holds_tool(agent.without_tool(tool_id, now).active_tools, tool_id),
        forall|i: int|
            0 <= i < agent.without_tool(tool_id, now).sub_agents.len() ==> (
            #[trigger] agent.without_tool(tool_id, now).sub_agents[i]).parent_tool_id != tool_id,
        agent.wf() ==> agent.without_tool(tool_id, now).wf(),
{
    if agent.knows_tool(tool_id) {
        lemma_filter_tools(agent.active_tools, tool_id);
        let keep = |s: SubAgentView| s.parent_tool_id != tool_id;
        let left = agent.sub_agents.filter(keep);
        assert forall|i: int| 0 <= i < left.len() implies (#[trigger] left[i]).parent_tool_id
            != tool_id by {
            agent.sub_agents.lemma_filter_pred(keep, i);
        }
    }
}

/// The summary is written once: narrative text changes nothing where the
/// agent has a summary, so after a first text that is not empty every
/// later text leaves the agent as it is.
pub proof fn lemma_summary_set_once(agent: AgentView, first: Seq<char>, later: Seq<char>)
    requires
        agent.prompt_summary.len() > 0 || first.len() > 0 || later.len() == 0,
    ensures
        agent.with_summary(first).with_summary(later) == agent.with_summary(first),
{
    if agent.prompt_summary.len() == 0 {
        if first.len() > 0 {
            assert(first_chars(first, 150).len() > 0);
        } else {
            assert(first_chars(later, 150) =~= first_chars(first, 150));
        }
    }
}

/// The end of a turn empties the active tools and the sub-agents and
/// leaves the phase and the summary as they were.
pub proof fn lemma_turn_end(agent: AgentView, now: u64)
    ensures
        agent.waiting(now).active_tools.len() == 0,
        agent.waiting(now).sub_agents.len() == 0,
        agent.waiting(now).sdd_phase == agent.sdd_phase,
        agent.waiting(now).prompt_summary == agent.prompt_summary,
        agent.waiting(now).status == AgentStatus::Waiting,
{
}

/// Records change neither the id nor the log of an agent, and they keep
/// the ids of its active tools distinct.
pub proof fn lemma_records_keep_identity(agent: AgentView, records: Seq<RecordView>, now: u64)
    ensures
        agent.after_records(records, now).id == agent.id,
        agent.after_records(records, now).session_file == agent.session_file,
        agent.wf() ==> agent.after_records(records, now).wf(),
    decreases records.len(),
{
    if records.len() > 0 {
        let before = agent.after_records(records.drop_last(), now);
        lemma_records_keep_identity(agent, records.drop_last(), now);
        lemma_record_keeps_identity(before, records.last(), now);
    }
}

/// One record changes neither the id nor the log of an agent, and it
/// keeps the ids of its active tools distinct.
pub proof fn lemma_record_keeps_identity(agent: AgentView, record: RecordView, now: u64)
    ensures
        agent.after_record(record, now).id == agent.id,
        agent.after_record(record, now).session_file == agent.session_file,
        agent.wf() ==> agent.after_record(record, now).wf(),
{
    let started = agent.with_tools(tool_uses_of(record), now);
    lemma_tools_keep_identity(agent, tool_uses_of(record), now);
    lemma_results_keep_identity(started, tool_results_of(record), now);
}

/// Tools that start change neither the id nor the log of an agent, and
/// they keep the ids of its active tools distinct.
pub proof fn lemma_tools_keep_identity(agent: AgentView, tools: Seq<ToolUseView>, now: u64)
    ensures
        agent.with_tools(tools, now).id == agent.id,
        agent.with_tools(tools, now).session_file == agent.session_file,
        agent.wf() ==> agent.with_tools(tools, now).wf(),
    decreases tools.len(),
{
    if tools.len() > 0 {
        let before = agent.with_tools(tools.drop_last(), now);
        lemma_tools_keep_identity(agent, tools.drop_last(), now);
        if before.wf() {
            lemma_with_tool_wf(before, tools.last(), now);
        }
    }
}

/// Tools that finish change neither the id nor the log of an agent, and
/// they keep the ids of its active tools distinct.
pub proof fn lemma_results_keep_identity(agent: AgentView, ids: Seq<Seq<char>>, now: u64)
    ensures
        agent.without_tools(ids, now).id == agent.id,
        agent.without_tools(ids, now).session_file == agent.session_file,
        agent.wf() ==> agent.without_tools(ids, now).wf(),
    decreases ids.len(),
{
    if ids.len() > 0 {
        let before = agent.without_tools(ids.drop_last(), now);
        lemma_results_keep_identity(agent, ids.drop_last(), now);
        lemma_without_tool(before, ids.last(), now);
    }
}

} // verus!
