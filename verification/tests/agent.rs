use pixel_agents_tui::state::agent::AgentState;
use pixel_agents_tui::state::agent::AgentStatus;
use pixel_agents_tui::state::sdd::SddPhase;
use pixel_agents_tui::watcher::parser::ToolUseEvent;

fn make_agent() -> AgentState {
    AgentState::new(1, "/tmp/test.jsonl".to_string(), 0)
}

fn tool(id: &str, name: &str, status: &str, reading: bool) -> ToolUseEvent {
    ToolUseEvent {
        tool_id: id.to_string(),
        tool_name: name.to_string(),
        display_status: status.to_string(),
        is_reading: reading,
    }
}

fn read_tool() -> ToolUseEvent {
    tool("t1", "Read", "Reading main.rs", true)
}

fn task_tool() -> ToolUseEvent {
    tool("t2", "Task", "Subtask: explore code", false)
}

fn sdd_skill_tool() -> ToolUseEvent {
    tool("t3", "Skill", "Skill: sdd-apply", false)
}

#[test]
fn new_agent_starts_waiting() {
    let agent = make_agent();
    assert_eq!(agent.status, AgentStatus::Waiting);
    assert!(agent.active_tools.is_empty());
}

#[test]
fn adding_tool_sets_active() {
    let mut agent = make_agent();
    agent.add_tool(read_tool(), 0);
    assert_eq!(agent.status, AgentStatus::Active);
    assert_eq!(agent.active_tools.len(), 1);
}

#[test]
fn removing_tool_keeps_remaining() {
    let mut agent = make_agent();
    agent.add_tool(read_tool(), 0);
    agent.add_tool(tool("t99", "Write", "Writing foo.rs", false), 0);
    agent.remove_tool("t1", 0);
    assert_eq!(agent.active_tools.len(), 1);
    assert_eq!(agent.active_tools[0].tool_id, "t99");
}

#[test]
fn mark_waiting_clears_tools() {
    let mut agent = make_agent();
    agent.add_tool(read_tool(), 0);
    agent.mark_waiting(0);
    assert_eq!(agent.status, AgentStatus::Waiting);
    assert!(agent.active_tools.is_empty());
}

#[test]
fn task_tool_spawns_sub_agent() {
    let mut agent = make_agent();
    agent.add_tool(task_tool(), 0);
    assert_eq!(agent.sub_agents.len(), 1);
    assert_eq!(agent.sub_agents[0].id, -1);
    assert_eq!(agent.sub_agents[0].parent_tool_id, "t2");
}

#[test]
fn removing_task_tool_removes_sub_agent() {
    let mut agent = make_agent();
    agent.add_tool(task_tool(), 0);
    agent.remove_tool("t2", 0);
    assert!(agent.sub_agents.is_empty());
}

#[test]
fn sdd_skill_sets_phase() {
    let mut agent = make_agent();
    agent.add_tool(sdd_skill_tool(), 0);
    assert_eq!(agent.sdd_phase, Some(SddPhase::Apply));
}

#[test]
fn prompt_summary_set_once() {
    let mut agent = make_agent();
    agent.set_prompt_summary("First message");
    agent.set_prompt_summary("Second message should be ignored");
    assert_eq!(agent.prompt_summary, "First message");
}

#[test]
fn current_tool_display_returns_last() {
    let mut agent = make_agent();
    assert!(agent.current_tool_display().is_none());
    agent.add_tool(read_tool(), 0);
    assert_eq!(agent.current_tool_display(), Some("Reading main.rs"));
}

#[test]
fn status_labels_and_symbols() {
    assert_eq!(AgentStatus::Active.label(), "active");
    assert_eq!(AgentStatus::Active.symbol(), "●");
    assert_eq!(AgentStatus::Waiting.symbol(), "○");
    assert_eq!(AgentStatus::Dormant.symbol(), "◌");
}

#[test]
fn status_labels_of_the_other_states() {
    assert_eq!(AgentStatus::Waiting.label(), "waiting");
    assert_eq!(AgentStatus::Dormant.label(), "dormant");
}

#[test]
fn new_agent_has_nothing_but_its_identity() {
    let agent = AgentState::new(7, "/logs/s.jsonl".to_string(), 42);
    assert_eq!(agent.id, 7);
    assert_eq!(agent.session_file, "/logs/s.jsonl");
    assert!(agent.sub_agents.is_empty());
    assert_eq!(agent.sdd_phase, None);
    assert_eq!(agent.prompt_summary, "");
    assert_eq!(agent.last_activity, 42);
}

#[test]
fn finished_tool_leaves_no_tool_and_no_sub_agent_of_its_id() {
    let mut agent = make_agent();
    agent.add_tool(read_tool(), 1);
    agent.add_tool(task_tool(), 2);
    agent.add_tool(tool("t5", "Task", "Subtask: other", false), 3);
    agent.remove_tool("t2", 4);
    assert!(agent.active_tools.iter().all(|t| t.tool_id != "t2"));
    assert!(agent.sub_agents.iter().all(|s| s.parent_tool_id != "t2"));
    assert_eq!(agent.active_tools.len(), 2);
    assert_eq!(agent.active_tools[0].tool_id, "t1");
    assert_eq!(agent.active_tools[1].tool_id, "t5");
    assert_eq!(agent.sub_agents.len(), 1);
    assert_eq!(agent.sub_agents[0].parent_tool_id, "t5");
    assert_eq!(agent.last_activity, 4);
    assert_eq!(agent.status, AgentStatus::Active);
}

#[test]
fn finishing_an_unknown_tool_changes_nothing() {
    let mut agent = make_agent();
    agent.add_tool(read_tool(), 1);
    agent.remove_tool("nope", 9);
    assert_eq!(agent.active_tools.len(), 1);
    assert_eq!(agent.last_activity, 1);
    assert_eq!(agent.status, AgentStatus::Active);
    agent.remove_tool("t1", 10);
    assert!(agent.active_tools.is_empty());
    assert_eq!(agent.last_activity, 10);
    agent.remove_tool("t1", 11);
    assert_eq!(agent.last_activity, 10);
}

#[test]
fn a_sub_agent_without_its_tool_still_goes_with_the_result() {
    let mut agent = make_agent();
    agent.add_tool(task_tool(), 1);
    agent.active_tools.clear();
    assert!(agent.has_sub_agent("t2"));
    agent.remove_tool("t2", 5);
    assert!(agent.sub_agents.is_empty());
    assert!(!agent.has_sub_agent("t2"));
    assert_eq!(agent.last_activity, 5);
}

#[test]
fn a_tool_that_is_active_already_is_not_added_again() {
    let mut agent = make_agent();
    agent.add_tool(task_tool(), 1);
    agent.mark_waiting(2);
    agent.add_tool(task_tool(), 3);
    agent.add_tool(task_tool(), 4);
    assert_eq!(agent.active_tools.len(), 1);
    assert_eq!(agent.sub_agents.len(), 1);
    assert_eq!(agent.status, AgentStatus::Active);
    assert_eq!(agent.last_activity, 4);
}

#[test]
fn turn_end_keeps_phase_and_summary() {
    let mut agent = make_agent();
    agent.set_prompt_summary("Fix it");
    agent.add_tool(sdd_skill_tool(), 1);
    agent.add_tool(task_tool(), 2);
    agent.mark_waiting(3);
    assert!(agent.active_tools.is_empty());
    assert!(agent.sub_agents.is_empty());
    assert_eq!(agent.sdd_phase, Some(SddPhase::Apply));
    assert_eq!(agent.prompt_summary, "Fix it");
    assert_eq!(agent.last_activity, 3);
}

#[test]
fn summary_keeps_the_first_150_characters() {
    let mut agent = make_agent();
    let long: String = "é".repeat(200);
    agent.set_prompt_summary(&long);
    assert_eq!(agent.prompt_summary.chars().count(), 150);
    assert_eq!(agent.prompt_summary, "é".repeat(150));
}

#[test]
fn an_empty_first_text_leaves_the_summary_open() {
    let mut agent = make_agent();
    agent.set_prompt_summary("");
    agent.set_prompt_summary("second");
    assert_eq!(agent.prompt_summary, "second");
}

#[test]
fn a_later_skill_may_set_an_earlier_phase() {
    let mut agent = make_agent();
    agent.add_tool(sdd_skill_tool(), 1);
    agent.add_tool(tool("t4", "Skill", "Skill: sdd-explore", false), 2);
    assert_eq!(agent.sdd_phase, Some(SddPhase::Explore));
    agent.add_tool(tool("t5", "Skill", "Skill: brainstorming", false), 3);
    assert_eq!(agent.sdd_phase, Some(SddPhase::Explore));
}

#[test]
fn dormancy_counts_from_the_last_activity() {
    let mut agent = AgentState::new(1, "/tmp/test.jsonl".to_string(), 100);
    assert!(!agent.is_dormant(300, 399));
    assert!(agent.is_dormant(300, 400));
    assert!(!agent.is_dormant(300, 50));
    assert!(agent.is_dormant(0, 50));
    agent.sweep(300, 399);
    assert_eq!(agent.status, AgentStatus::Waiting);
    agent.sweep(300, 400);
    assert_eq!(agent.status, AgentStatus::Dormant);
    agent.add_tool(read_tool(), 500);
    assert_eq!(agent.status, AgentStatus::Active);
}

#[test]
fn has_tool_finds_active_tools_only() {
    let mut agent = make_agent();
    agent.add_tool(read_tool(), 0);
    assert!(agent.has_tool("t1"));
    assert!(!agent.has_tool("t2"));
}
