//! What the dashboard shows, as plain values: where each desk stands in
//! the office, and the lines of text about an agent and about the
//! workflow's phases.

use crate::app::ascending_keys;
use crate::app::App;
use crate::state::agent::AgentState;
use crate::state::agent::AgentView;
use crate::state::agent::SubAgent;
use crate::state::agent::SubAgentView;
use crate::state::sdd::SddPhase;
use crate::text::first_chars;
use crate::text::join_text;
use crate::text::take_chars;
use vstd::prelude::*;

verus! {

/// The number of desks in one row of the office.
pub const DESKS_PER_ROW: usize = 3;

/// The width of the cell of one desk, in columns.
pub const CELL_WIDTH: u16 = 10;

/// The height of the cell of one desk, in lines.
pub const CELL_HEIGHT: u16 = 6;

/// The number of characters of a tool's label that the sidebar shows.
pub const TOOL_CHARS: usize = 40;

/// The number of characters of a summary that the sidebar shows.
pub const PROMPT_CHARS: usize = 35;

/// The part of the terminal that the desks stand in: its left column, its
/// top line, its width and its height.
#[derive(Debug, Clone, Copy, PartialEq, Eq, Structural)]
pub struct Area {
    pub x: u16,
    pub y: u16,
    pub width: u16,
    pub height: u16,
}

/// The column at which the cell of the desk `index` starts: desks stand
/// three in a row, one column in from the left.
pub open spec fn cell_x(index: nat, area: Area) -> int {
    area.x + (index % 3) * CELL_WIDTH + 1
}

/// The line at which the cell of the desk `index` starts.
pub open spec fn cell_y(index: nat, area: Area) -> int {
    area.y + (index / 3) * CELL_HEIGHT
}

/// Whether the cell of the desk `index` lies within `area`.
pub open spec fn cell_fits(index: nat, area: Area) -> bool {
    cell_x(index, area) + CELL_WIDTH <= area.x + area.width && cell_y(index, area) + CELL_HEIGHT
        <= area.y + area.height
}

/// Where the cell of the desk `index` starts, column first; `None` for a
/// desk that does not fit into `area`, or whose cell would end beyond the
/// last column or line that can be counted.
pub fn desk_cell(index: usize, area: Area) -> (cell: Option<(u16, u16)>)
    ensures
        match cell {
            Some((x, y)) => cell_fits(index as nat, area) && x == cell_x(index as nat, area) && y
                == cell_y(index as nat, area) && y + CELL_HEIGHT <= u16::MAX && x + CELL_WIDTH
                <= u16::MAX,
            None => !cell_fits(index as nat, area) || cell_x(index as nat, area) + CELL_WIDTH
                > u16::MAX || cell_y(index as nat, area) + CELL_HEIGHT > u16::MAX,
        },
{
    let col: u64 = (index % DESKS_PER_ROW) as u64;
    let row = index / DESKS_PER_ROW;
    let right: u64 = area.x as u64 + area.width as u64;
    let bottom: u64 = area.y as u64 + area.height as u64;
    assert(col * (CELL_WIDTH as u64) == (index as nat % 3) * CELL_WIDTH && col * (CELL_WIDTH as u64)
        <= 20) by (nonlinear_arith)
        requires
            col == index as nat % 3,
            CELL_WIDTH == 10,
    ;
    let x: u64 = area.x as u64 + col * (CELL_WIDTH as u64) + 1;
    if row > 20000 {
        assert(cell_y(index as nat, area) + CELL_HEIGHT > area.y + area.height) by {
            assert((index as nat / 3) * 6 >= 20001 * 6) by (nonlinear_arith)
                requires
                    (index as nat / 3) >= 20001,
            ;
        }
        return None;
    }
    assert((row as u64) * (CELL_HEIGHT as u64) == (index as nat / 3) * CELL_HEIGHT && (row as u64)
        * (CELL_HEIGHT as u64) <= 120000) by (nonlinear_arith)
        requires
            row == index as nat / 3,
            row <= 20000,
            CELL_HEIGHT == 6,
    ;
    let y: u64 = area.y as u64 + (row as u64) * (CELL_HEIGHT as u64);
    if x + CELL_WIDTH as u64 > right || y + CELL_HEIGHT as u64 > bottom {
        return None;
    }
    if x + CELL_WIDTH as u64 > u16::MAX as u64 || y + CELL_HEIGHT as u64 > u16::MAX as u64 {
        return None;
    }
    Some((x as u16, y as u16))
}

/// The label of the agent's current tool as the sidebar shows it: its
/// first forty characters.
pub open spec fn tool_text(agent: AgentView) -> Option<Seq<char>> {
    match agent.tool_display() {
        Some(label) => Some(first_chars(label, TOOL_CHARS as nat)),
        None => None,
    }
}

/// The agent's summary as the sidebar shows it: its first thirty-five
/// characters between quotation marks, with three dots.
pub open spec fn prompt_text(agent: AgentView) -> Option<Seq<char>> {
    if agent.prompt_summary.len() == 0 {
        None
    } else {
        Some("\""@ + first_chars(agent.prompt_summary, PROMPT_CHARS as nat) + "...\""@)
    }
}

/// The line of a sub-agent: its type, and the label of the tool that it
/// started last, or its type again where it has none.
pub open spec fn sub_agent_text(sub: SubAgentView) -> Seq<char> {
    sub.agent_type + ": "@ + if sub.active_tools.len() == 0 {
        sub.agent_type
    } else {
        sub.active_tools.last().display_status
    }
}

/// The label of the agent's current tool as the sidebar shows it.
pub fn tool_line(agent: &AgentState) -> (line: Option<String>)
    ensures
        crate::watcher::types::chars_of(line) == tool_text(agent@),
{
    match agent.current_tool_display() {
        Some(label) => Some(take_chars(label, TOOL_CHARS)),
        None => None,
    }
}

/// The agent's summary as the sidebar shows it.
pub fn prompt_line(agent: &AgentState) -> (line: Option<String>)
    ensures
        crate::watcher::types::chars_of(line) == prompt_text(agent@),
{
    if agent.prompt_summary.as_str().is_empty() {
        return None;
    }
    let head = take_chars(agent.prompt_summary.as_str(), PROMPT_CHARS);
    let opened = join_text("\"", head.as_str());
    Some(join_text(opened.as_str(), "...\""))
}

/// The line of a sub-agent.
pub fn sub_agent_line(sub: &SubAgent) -> (line: String)
    ensures
        line@ == sub_agent_text(sub@),
{
    let named = join_text(sub.agent_type.as_str(), ": ");
    let n = sub.active_tools.len();
    if n == 0 {
        join_text(named.as_str(), sub.agent_type.as_str())
    } else {
        join_text(named.as_str(), sub.active_tools[n - 1].display_status.as_str())
    }
}

/// The place of a phase in the workflow, from 1, as a numeral.
pub open spec fn ordinal_text(phase: SddPhase) -> Seq<char> {
    match phase {
        SddPhase::Explore => "1"@,
        SddPhase::Propose => "2"@,
        SddPhase::Spec => "3"@,
        SddPhase::Design => "4"@,
        SddPhase::Tasks => "5"@,
        SddPhase::Apply => "6"@,
        SddPhase::Verify => "7"@,
        SddPhase::Archive => "8"@,
    }
}

/// A phase with its place among the eight, as in `Apply (6/8)`.
pub open spec fn progress_text(phase: SddPhase) -> Seq<char> {
    phase.title() + " ("@ + ordinal_text(phase) + "/8)"@
}

/// The phase at the place `position` of the workflow.
pub open spec fn phase_at(position: nat) -> SddPhase {
    if position == 0 {
        SddPhase::Explore
    } else if position == 1 {
        SddPhase::Propose
    } else if position == 2 {
        SddPhase::Spec
    } else if position == 3 {
        SddPhase::Design
    } else if position == 4 {
        SddPhase::Tasks
    } else if position == 5 {
        SddPhase::Apply
    } else if position == 6 {
        SddPhase::Verify
    } else {
        SddPhase::Archive
    }
}

/// Whether one of the agents is in the phase `phase`.
pub open spec fn phase_present(agents: Map<u32, AgentView>, phase: SddPhase) -> bool {
    exists|id: u32| agents.contains_key(id) && (#[trigger] agents[id]).sdd_phase == Some(phase)
}

/// The furthest of the first `n` phases that one of the agents is in.
pub open spec fn furthest_below(agents: Map<u32, AgentView>, n: nat) -> Option<SddPhase>
    decreases n,
{
    if n == 0 {
        None
    } else if phase_present(agents, phase_at((n - 1) as nat)) {
        Some(phase_at((n - 1) as nat))
    } else {
        furthest_below(agents, (n - 1) as nat)
    }
}

/// The furthest phase that one of the agents is in.
pub open spec fn furthest_phase(agents: Map<u32, AgentView>) -> Option<SddPhase> {
    furthest_below(agents, 8)
}

/// The line that tells how far the workflow has come: empty where no
/// agent is in a phase.
pub open spec fn sdd_display(agents: Map<u32, AgentView>) -> Seq<char> {
    match furthest_phase(agents) {
        Some(phase) => "SDD: "@ + progress_text(phase),
        None => Seq::empty(),
    }
}

/// A phase that an agent is in, and that no agent is beyond, is the
/// furthest; where no agent is in any phase there is none.
pub proof fn lemma_furthest(agents: Map<u32, AgentView>, best: Option<SddPhase>, n: nat)
    requires
        n <= 8,
        match best {
            Some(phase) => phase_present(agents, phase) && phase.position() < n,
            None => true,
        },
        forall|other: SddPhase|
            #[trigger] phase_present(agents, other) && other.position() < n ==> best is Some
                && other.position() <= best->0.position(),
    ensures
        furthest_below(agents, n) == best,
    decreases n,
{
    if n > 0 {
        let top = phase_at((n - 1) as nat);
        assert(top.position() == n - 1);
        if phase_present(agents, top) {
            assert(best is Some && top.position() <= best->0.position());
            assert(phase_at(best->0.position()) == best->0);
        } else {
            if best is Some {
                assert(phase_at(best->0.position()) == best->0);
            }
            assert forall|other: SddPhase|
                #[trigger] phase_present(agents, other) && other.position() < n - 1 implies best is Some
                && other.position() <= best->0.position() by {
                assert(phase_present(agents, other) && other.position() < n);
            }
            lemma_furthest(agents, best, (n - 1) as nat);
        }
    } else {
        if best is Some {
            assert(false);
        }
    }
}

/// A phase with its place among the eight, as in `Apply (6/8)`.
pub fn phase_progress(phase: SddPhase) -> (text: String)
    ensures
        text@ == progress_text(phase),
{
    let ordinal = match phase {
        SddPhase::Explore => "1",
        SddPhase::Propose => "2",
        SddPhase::Spec => "3",
        SddPhase::Design => "4",
        SddPhase::Tasks => "5",
        SddPhase::Apply => "6",
        SddPhase::Verify => "7",
        SddPhase::Archive => "8",
    };
    let named = join_text(phase.label(), " (");
    let counted = join_text(named.as_str(), ordinal);
    join_text(counted.as_str(), "/8)")
}

/// The line that tells how far the workflow has come.
pub fn global_sdd_display(app: &App) -> (line: String)
    ensures
        line@ == sdd_display(app@.agents),
{
    broadcast use vstd::std_specs::hash::group_hash_axioms;

    let ghost agents = app@.agents;
    let ids = ascending_keys(&app.agents);
    let mut best: Option<SddPhase> = None;
    let mut i: usize = 0;
    proof {
        assert(agents.dom() =~= app.agents@.dom());
    }
    while i < ids.len()
        invariant
            i <= ids.len(),
            agents == app@.agents,
            forall|id: u32| ids@.contains(id) <==> agents.contains_key(id),
            best matches Some(phase) ==> phase_present(agents, phase),
            forall|k: int|
                0 <= k < i && (#[trigger] agents[ids@[k]]).sdd_phase is Some ==> best is Some
                    && agents[ids@[k]].sdd_phase->0.position() <= best->0.position(),
        decreases ids.len() - i,
    {
        let id = ids[i];
        proof {
            assert(ids@.contains(id));
        }
        match app.agents.get(&id) {
            Some(agent) => {
                match agent.sdd_phase {
                    Some(phase) => {
                        assert(agents[id].sdd_phase == Some(phase));
                        let further = match best {
                            Some(current) => phase.index() > current.index(),
                            None => true,
                        };
                        if further {
                            best = Some(phase);
                        }
                    },
                    None => {},
                }
            },
            None => {},
        }
        i += 1;
    }
    proof {
        assert forall|other: SddPhase|
            #[trigger] phase_present(agents, other) && other.position() < 8 implies best is Some
            && other.position() <= best->0.position() by {
            let id = choose|id: u32|
                agents.contains_key(id) && (#[trigger] agents[id]).sdd_phase == Some(other);
            assert(ids@.contains(id));
            let k = choose|k: int| 0 <= k < ids@.len() && ids@[k] == id;
            assert(agents[ids@[k]].sdd_phase == Some(other));
        }
        lemma_furthest(agents, best, 8);
    }
    match best {
        Some(phase) => {
            let progress = phase_progress(phase);
            join_text("SDD: ", progress.as_str())
        },
        None => String::new(),
    }
}

} // verus!
