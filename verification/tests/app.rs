use pixel_agents_tui::app::App;
use pixel_agents_tui::app::PanelFocus;
use pixel_agents_tui::state::agent::AgentState;
use pixel_agents_tui::state::agent::AgentStatus;
use pixel_agents_tui::ui::sprites::AnimState;
use pixel_agents_tui::watcher::parser::ToolUseEvent;

fn agent(id: u32) -> AgentState {
    AgentState::new(id, format!("/tmp/{id}.jsonl"), 0)
}

#[test]
fn new_app_has_empty_agents() {
    let app = App::new("/tmp".to_string());
    assert!(app.agents.is_empty());
    assert!(app.selected_agent.is_none());
    assert!(!app.should_quit);
}

#[test]
fn toggle_focus() {
    let mut app = App::new("/tmp".to_string());
    assert_eq!(app.focus, PanelFocus::Sidebar);
    app.toggle_focus();
    assert_eq!(app.focus, PanelFocus::Office);
    app.toggle_focus();
    assert_eq!(app.focus, PanelFocus::Sidebar);
}

#[test]
fn scroll_bounds() {
    let mut app = App::new("/tmp".to_string());
    app.scroll_up();
    assert_eq!(app.sidebar_scroll, 0);
    app.scroll_down();
    assert_eq!(app.sidebar_scroll, 1);
}

#[test]
fn sorted_agent_ids() {
    let mut app = App::new("/tmp".to_string());
    app.agents.insert(3, AgentState::new(3, "/tmp/3.jsonl".to_string(), 0));
    app.agents.insert(1, AgentState::new(1, "/tmp/1.jsonl".to_string(), 0));
    assert_eq!(app.sorted_agent_ids(), vec![1, 3]);
}

#[test]
fn select_agent_existing() {
    let mut app = App::new("/tmp".to_string());
    app.agents.insert(1, AgentState::new(1, "/tmp/1.jsonl".to_string(), 0));
    app.select_agent(1);
    assert_eq!(app.selected_agent, Some(1));
}

#[test]
fn select_agent_nonexistent() {
    let mut app = App::new("/tmp".to_string());
    app.select_agent(99);
    assert!(app.selected_agent.is_none());
}

#[test]
fn agent_anim_state_idle_when_no_tools() {
    let mut app = App::new("/tmp".to_string());
    app.agents.insert(1, AgentState::new(1, "/tmp/1.jsonl".to_string(), 0));
    assert_eq!(app.agent_anim_state(1), AnimState::Idle);
}

#[test]
fn agent_anim_state_reading() {
    let mut app = App::new("/tmp".to_string());
    let mut agent = AgentState::new(1, "/tmp/1.jsonl".to_string(), 0);
    agent.add_tool(
        ToolUseEvent {
            tool_id: "t1".to_string(),
            tool_name: "Read".to_string(),
            display_status: "Reading foo.rs".to_string(),
            is_reading: true,
        },
        0,
    );
    app.agents.insert(1, agent);
    assert_eq!(app.agent_anim_state(1), AnimState::Reading);
}

#[test]
fn agent_anim_state_typing() {
    let mut app = App::new("/tmp".to_string());
    let mut agent = AgentState::new(1, "/tmp/1.jsonl".to_string(), 0);
    agent.add_tool(
        ToolUseEvent {
            tool_id: "t1".to_string(),
            tool_name: "Write".to_string(),
            display_status: "Writing foo.rs".to_string(),
            is_reading: false,
        },
        0,
    );
    app.agents.insert(1, agent);
    assert_eq!(app.agent_anim_state(1), AnimState::Typing);
}

#[test]
fn agent_anim_state_missing_agent() {
    let app = App::new("/tmp".to_string());
    assert_eq!(app.agent_anim_state(999), AnimState::Idle);
}

#[test]
fn new_app_starts_at_the_sidebar_with_nothing_counted() {
    let app = App::new("/home/u/.agents".to_string());
    assert_eq!(app.claude_dir, "/home/u/.agents");
    assert_eq!(app.tick_count, 0);
    assert_eq!(app.sidebar_scroll, 0);
    assert_eq!(app.focus, PanelFocus::Sidebar);
    assert_eq!(app.session_tracker.next_id(), 1);
}

#[test]
fn scrolling_stops_at_both_ends() {
    let mut app = App::new("/tmp".to_string());
    app.sidebar_scroll = u16::MAX - 1;
    app.scroll_down();
    assert_eq!(app.sidebar_scroll, u16::MAX);
    app.scroll_down();
    assert_eq!(app.sidebar_scroll, u16::MAX);
    app.scroll_up();
    assert_eq!(app.sidebar_scroll, u16::MAX - 1);
}

#[test]
fn ids_come_out_ascending_whatever_the_order_of_insertion() {
    let mut app = App::new("/tmp".to_string());
    for id in [9, 2, 40, 1, 7, 100, 3] {
        app.agents.insert(id, agent(id));
    }
    assert_eq!(app.sorted_agent_ids(), vec![1, 2, 3, 7, 9, 40, 100]);
    let empty = App::new("/tmp".to_string());
    assert!(empty.sorted_agent_ids().is_empty());
}

#[test]
fn one_reading_tool_among_others_means_reading() {
    let mut app = App::new("/tmp".to_string());
    let mut a = agent(1);
    for (id, reading) in [("a", false), ("b", true), ("c", false)] {
        a.add_tool(
            ToolUseEvent {
                tool_id: id.to_string(),
                tool_name: "X".to_string(),
                display_status: "Using X".to_string(),
                is_reading: reading,
            },
            0,
        );
    }
    app.agents.insert(1, a);
    assert_eq!(app.agent_anim_state(1), AnimState::Reading);
}

#[test]
fn scan_is_due_every_twentieth_tick() {
    let mut app = App::new("/tmp".to_string());
    for tick in 1..=40u64 {
        let due = app.begin_tick();
        assert_eq!(app.tick_count, tick);
        assert_eq!(due, tick % 20 == 0);
    }
}

#[test]
fn sweep_makes_silent_agents_dormant() {
    let mut app = App::new("/tmp".to_string());
    app.agents.insert(1, AgentState::new(1, "/tmp/1.jsonl".to_string(), 0));
    app.agents.insert(2, AgentState::new(2, "/tmp/2.jsonl".to_string(), 200));
    app.sweep_dormant(300);
    assert_eq!(app.agents[&1].status, AgentStatus::Dormant);
    assert_eq!(app.agents[&2].status, AgentStatus::Waiting);
    app.sweep_dormant(499);
    assert_eq!(app.agents[&2].status, AgentStatus::Waiting);
    app.sweep_dormant(500);
    assert_eq!(app.agents[&2].status, AgentStatus::Dormant);
}

#[test]
fn a_scan_creates_and_removes_agents_with_their_cursors() {
    let mut app = App::new("/tmp".to_string());
    let a = "/p/a.jsonl".to_string();
    let b = "/p/b.jsonl".to_string();
    app.apply_scan(&[a.clone(), b.clone()], 10);
    assert_eq!(app.sorted_agent_ids(), vec![1, 2]);
    assert_eq!(app.agents[&1].session_file, a);
    assert_eq!(app.agents[&2].session_file, b);
    assert_eq!(app.agents[&2].last_activity, 10);
    app.select_agent(2);
    app.poll_session(2, Some(b"{\"type\":\"progress\"}\n".as_slice()), 11);
    assert_eq!(app.reader.offset(&b), Some(20));
    app.apply_scan(&[a.clone()], 12);
    assert_eq!(app.sorted_agent_ids(), vec![1]);
    assert_eq!(app.reader.offset(&b), None);
    assert_eq!(app.selected_agent, None);
    app.apply_scan(&[a.clone(), b.clone()], 13);
    assert_eq!(app.sorted_agent_ids(), vec![1, 3]);
    assert_eq!(app.agents[&3].session_file, b);
    assert_eq!(app.session_file(3), Some(b));
    assert_eq!(app.session_file(2), None);
}

#[test]
fn polling_an_agent_that_is_not_there_changes_nothing() {
    let mut app = App::new("/tmp".to_string());
    app.poll_session(5, Some(b"{\"type\":\"progress\"}\n".as_slice()), 1);
    assert!(app.agents.is_empty());
    app.agents.insert(1, agent(1));
    app.poll_session(1, None, 1);
    assert_eq!(app.reader.offset("/tmp/1.jsonl"), None);
}

#[test]
fn a_poll_of_the_tail_is_a_poll_of_the_log() {
    let log = "/p/a.jsonl".to_string();
    let first = b"{\"type\":\"assistant\",\"message\":{\"content\":[{\"type\":\"text\",\"text\":\"one\"}]}}\n";
    let second = b"{\"type\":\"assistant\",\"message\":{\"content\":[{\"type\":\"tool_use\",\"id\":\"t\",\"name\":\"Grep\"}]}}\n{\"type\":";
    let mut content = first.to_vec();

    let mut whole = App::new("/tmp".to_string());
    let mut tail = App::new("/tmp".to_string());
    whole.apply_scan(&[log.clone()], 1);
    tail.apply_scan(&[log.clone()], 1);

    assert_eq!(tail.read_start(1, content.len() as u64), Some(0));
    assert_eq!(tail.read_start(2, content.len() as u64), None);
    whole.poll_session(1, Some(content.as_slice()), 2);
    tail.poll_tail(1, 0, &content, 2);
    assert_eq!(tail.reader.offset(&log), Some(first.len() as u64));
    assert_eq!(tail.reader.offset(&log), whole.reader.offset(&log));
    assert_eq!(tail.agents[&1].prompt_summary, "one");

    content.extend_from_slice(second);
    let start = tail.read_start(1, content.len() as u64).unwrap();
    assert_eq!(start, first.len() as u64);
    whole.poll_session(1, Some(content.as_slice()), 3);
    tail.poll_tail(1, start, &content[start as usize..], 3);
    assert_eq!(tail.reader.offset(&log), whole.reader.offset(&log));
    assert_eq!(tail.reader.offset(&log), Some((content.len() - 8) as u64));
    assert_eq!(tail.agents[&1].active_tools, whole.agents[&1].active_tools);
    assert_eq!(tail.agents[&1].current_tool_display(), Some("Searching code"));
    assert_eq!(tail.agents[&1].last_activity, 3);

    let shorter = first.to_vec();
    assert_eq!(tail.read_start(1, shorter.len() as u64), Some(0));
    tail.poll_tail(1, 0, &shorter, 4);
    assert_eq!(tail.reader.offset(&log), Some(first.len() as u64));
    tail.poll_tail(9, 0, &shorter, 5);
    assert_eq!(tail.sorted_agent_ids(), vec![1]);
}
