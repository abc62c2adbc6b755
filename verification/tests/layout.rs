use pixel_agents_tui::app::App;
use pixel_agents_tui::state::agent::AgentState;
use pixel_agents_tui::state::sdd::SddPhase;
use pixel_agents_tui::state::agent::SubAgent;
use pixel_agents_tui::ui::layout::desk_cell;
use pixel_agents_tui::ui::layout::global_sdd_display;
use pixel_agents_tui::ui::layout::phase_progress;
use pixel_agents_tui::ui::layout::prompt_line;
use pixel_agents_tui::ui::layout::sub_agent_line;
use pixel_agents_tui::ui::layout::tool_line;
use pixel_agents_tui::ui::layout::Area;
use pixel_agents_tui::watcher::parser::ToolUseEvent;

fn agent_in(id: u32, phase: Option<SddPhase>) -> AgentState {
    let mut agent = AgentState::new(id, format!("/tmp/{id}.jsonl"), 0);
    agent.sdd_phase = phase;
    agent
}

#[test]
fn no_phase_no_line() {
    let mut app = App::new("/tmp".to_string());
    assert_eq!(global_sdd_display(&app), "");
    app.agents.insert(1, agent_in(1, None));
    assert_eq!(global_sdd_display(&app), "");
}

#[test]
fn the_furthest_phase_is_shown() {
    let mut app = App::new("/tmp".to_string());
    app.agents.insert(1, agent_in(1, Some(SddPhase::Design)));
    app.agents.insert(2, agent_in(2, None));
    app.agents.insert(3, agent_in(3, Some(SddPhase::Apply)));
    app.agents.insert(4, agent_in(4, Some(SddPhase::Explore)));
    assert_eq!(global_sdd_display(&app), "SDD: Apply (6/8)");
    app.agents.insert(5, agent_in(5, Some(SddPhase::Archive)));
    assert_eq!(global_sdd_display(&app), "SDD: Archive (8/8)");
}

#[test]
fn each_phase_with_its_place() {
    assert_eq!(phase_progress(SddPhase::Explore), "Explore (1/8)");
    assert_eq!(phase_progress(SddPhase::Propose), "Propose (2/8)");
    assert_eq!(phase_progress(SddPhase::Spec), "Spec (3/8)");
    assert_eq!(phase_progress(SddPhase::Design), "Design (4/8)");
    assert_eq!(phase_progress(SddPhase::Tasks), "Tasks (5/8)");
    assert_eq!(phase_progress(SddPhase::Apply), "Apply (6/8)");
    assert_eq!(phase_progress(SddPhase::Verify), "Verify (7/8)");
    assert_eq!(phase_progress(SddPhase::Archive), "Archive (8/8)");
}

#[test]
fn desks_stand_three_in_a_row() {
    let area = Area { x: 1, y: 4, width: 40, height: 14 };
    assert_eq!(desk_cell(0, area), Some((2, 4)));
    assert_eq!(desk_cell(1, area), Some((12, 4)));
    assert_eq!(desk_cell(2, area), Some((22, 4)));
    assert_eq!(desk_cell(3, area), Some((2, 10)));
    assert_eq!(desk_cell(5, area), Some((22, 10)));
    assert_eq!(desk_cell(6, area), None);
    assert_eq!(desk_cell(usize::MAX, area), None);
}

#[test]
fn a_desk_that_does_not_fit_is_left_out() {
    let narrow = Area { x: 0, y: 0, width: 30, height: 6 };
    assert_eq!(desk_cell(0, narrow), Some((1, 0)));
    assert_eq!(desk_cell(1, narrow), Some((11, 0)));
    assert_eq!(desk_cell(2, narrow), None);
    assert_eq!(desk_cell(3, narrow), None);
    let low = Area { x: 0, y: 0, width: 31, height: 5 };
    assert_eq!(desk_cell(0, low), None);
    let exact = Area { x: 0, y: 0, width: 31, height: 6 };
    assert_eq!(desk_cell(2, exact), Some((21, 0)));
    let far = Area { x: u16::MAX, y: u16::MAX, width: u16::MAX, height: u16::MAX };
    assert_eq!(desk_cell(0, far), None);
    let empty = Area { x: 0, y: 0, width: 0, height: 0 };
    assert_eq!(desk_cell(0, empty), None);
}

#[test]
fn sidebar_lines_of_an_agent() {
    let mut agent = AgentState::new(1, "/tmp/1.jsonl".to_string(), 0);
    assert_eq!(tool_line(&agent), None);
    assert_eq!(prompt_line(&agent), None);
    agent.set_prompt_summary("Let me fix the auth bug in the login handler first");
    assert_eq!(prompt_line(&agent), Some("\"Let me fix the auth bug in the logi...\"".to_string()));
    agent.add_tool(
        ToolUseEvent {
            tool_id: "t1".to_string(),
            tool_name: "Bash".to_string(),
            display_status: "Running: cargo test --lib watcher::p\u{2026} and then some more"
                .to_string(),
            is_reading: false,
        },
        0,
    );
    assert_eq!(
        tool_line(&agent),
        Some("Running: cargo test --lib watcher::p\u{2026} an".to_string())
    );
    agent.prompt_summary = "short".to_string();
    assert_eq!(prompt_line(&agent), Some("\"short...\"".to_string()));
}

#[test]
fn line_of_a_sub_agent() {
    let mut sub = SubAgent {
        id: -1,
        parent_tool_id: "t2".to_string(),
        agent_type: "task".to_string(),
        active_tools: Vec::new(),
    };
    assert_eq!(sub_agent_line(&sub), "task: task");
    sub.active_tools.push(ToolUseEvent {
        tool_id: "a".to_string(),
        tool_name: "Read".to_string(),
        display_status: "Reading a.rs".to_string(),
        is_reading: true,
    });
    sub.active_tools.push(ToolUseEvent {
        tool_id: "b".to_string(),
        tool_name: "Grep".to_string(),
        display_status: "Searching code".to_string(),
        is_reading: true,
    });
    assert_eq!(sub_agent_line(&sub), "task: Searching code");
}
