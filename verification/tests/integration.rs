use pixel_agents_tui::app::App;
use pixel_agents_tui::state::agent::AgentStatus;
use pixel_agents_tui::state::sdd::SddPhase;
use pixel_agents_tui::watcher::discovery::SessionFile;

fn session(path: &str, modified: u64, lines: &[&str]) -> SessionFile {
    let mut content: Vec<u8> = Vec::new();
    for line in lines {
        content.extend_from_slice(line.as_bytes());
        content.push(b'\n');
    }
    SessionFile { path: path.to_string(), modified: Some(modified), content }
}

fn fake_home_dir(dir: &str, now: u64) -> Vec<SessionFile> {
    vec![session(
        &format!("{dir}/projects/test-project/session-1.jsonl"),
        now,
        &[
            r#"{"type":"assistant","message":{"content":[{"type":"text","text":"Let me fix the auth bug"}]}}"#,
            r#"{"type":"assistant","message":{"content":[{"type":"tool_use","id":"t1","name":"Read","input":{"file_path":"/src/auth.rs"}}]}}"#,
            r#"{"type":"user","message":{"content":[{"type":"tool_result","tool_use_id":"t1"}]}}"#,
            r#"{"type":"assistant","message":{"content":[{"type":"tool_use","id":"t2","name":"Skill","input":{"skill":"sdd-apply"}}]}}"#,
            r#"{"type":"assistant","message":{"content":[{"type":"tool_use","id":"t3","name":"Write","input":{"file_path":"/src/auth.rs"}}]}}"#,
            r#"{"type":"assistant","message":{"content":[{"type":"tool_use","id":"t4","name":"Task","input":{"description":"Explore auth patterns","subagent_type":"Explore"}}]}}"#,
            r#"{"type":"user","message":{"content":[{"type":"tool_result","tool_use_id":"t3"}]}}"#,
            r#"{"type":"system","subtype":"turn_duration","duration_ms":5000}"#,
        ],
    )]
}

#[test]
fn full_lifecycle_simulation() {
    let dir = "/tmp/fake-home";
    let now = 1_000;
    let files = fake_home_dir(dir, now);

    let mut app = App::new(dir.to_string());

    app.tick_count = 19;
    app.tick(&files, now);

    assert_eq!(app.agents.len(), 1);

    let agent_id = *app.agents.keys().next().unwrap();
    let agent = app.agents.get(&agent_id).unwrap();

    assert!(
        agent.prompt_summary.contains("fix the auth bug"),
        "Expected prompt_summary to contain 'fix the auth bug', got: '{}'",
        agent.prompt_summary
    );

    assert_eq!(agent.sdd_phase, Some(SddPhase::Apply));

    assert_eq!(agent.status, AgentStatus::Waiting);
    assert!(agent.active_tools.is_empty());
    assert!(agent.sub_agents.is_empty(), "sub_agents should be cleared after turn end");
}

#[test]
fn mid_turn_has_active_tools_and_sub_agents() {
    let dir = "/tmp/fake-home";
    let now = 1_000;
    let files = vec![session(
        &format!("{dir}/projects/mid-turn-project/session-mid.jsonl"),
        now,
        &[
            r#"{"type":"assistant","message":{"content":[{"type":"text","text":"Investigating the issue"}]}}"#,
            r#"{"type":"assistant","message":{"content":[{"type":"tool_use","id":"t1","name":"Skill","input":{"skill":"sdd-explore"}}]}}"#,
            r#"{"type":"assistant","message":{"content":[{"type":"tool_use","id":"t2","name":"Task","input":{"description":"Explore auth patterns"}}]}}"#,
            r#"{"type":"assistant","message":{"content":[{"type":"tool_use","id":"t3","name":"Write","input":{"file_path":"/src/lib.rs"}}]}}"#,
        ],
    )];

    let mut app = App::new(dir.to_string());
    app.tick_count = 19;
    app.tick(&files, now);

    assert_eq!(app.agents.len(), 1);
    let agent_id = *app.agents.keys().next().unwrap();
    let agent = app.agents.get(&agent_id).unwrap();

    assert_eq!(agent.status, AgentStatus::Active);

    assert_eq!(agent.sdd_phase, Some(SddPhase::Explore));

    assert_eq!(agent.sub_agents.len(), 1);
    assert_eq!(agent.sub_agents[0].agent_type, "task");

    assert_eq!(agent.active_tools.len(), 3);

    assert!(agent.prompt_summary.contains("Investigating the issue"));
}

#[test]
fn incremental_read_picks_up_new_lines() {
    let dir = "/tmp/fake-home";
    let now = 1_000;
    let path = format!("{dir}/projects/incr-project/session-incr.jsonl");
    let first = r#"{"type":"assistant","message":{"content":[{"type":"text","text":"Starting work"}]}}"#;
    let files = vec![session(&path, now, &[first])];

    let mut app = App::new(dir.to_string());
    app.tick_count = 19;
    app.tick(&files, now);

    assert_eq!(app.agents.len(), 1);
    let agent_id = *app.agents.keys().next().unwrap();
    assert!(app.agents.get(&agent_id).unwrap().prompt_summary.contains("Starting work"));

    let second = r#"{"type":"assistant","message":{"content":[{"type":"tool_use","id":"t1","name":"Read","input":{"file_path":"/src/main.rs"}}]}}"#;
    let files = vec![session(&path, now, &[first, second])];

    app.tick(&files, now);

    let agent = app.agents.get(&agent_id).unwrap();
    assert_eq!(agent.status, AgentStatus::Active);
    assert_eq!(agent.active_tools.len(), 1);
    assert_eq!(agent.active_tools[0].tool_name, "Read");
    assert!(agent.active_tools[0].is_reading);
}

#[test]
fn sessions_are_found_only_when_a_scan_is_due() {
    let now = 1_000;
    let files = fake_home_dir("/c", now);
    let mut app = App::new("/c".to_string());
    for _ in 0..19 {
        app.tick(&files, now);
        assert!(app.agents.is_empty());
    }
    app.tick(&files, now);
    assert_eq!(app.sorted_agent_ids(), vec![1]);
    assert_eq!(app.tick_count, 20);
}

#[test]
fn a_session_that_goes_and_comes_back_is_a_new_agent() {
    let now = 1_000;
    let files = fake_home_dir("/c", now);
    let path = files[0].path.clone();
    let mut app = App::new("/c".to_string());
    app.tick_count = 19;
    app.tick(&files, now);
    assert_eq!(app.agents[&1].sdd_phase, Some(SddPhase::Apply));
    assert_eq!(app.reader.offset(&path), Some(files[0].content.len() as u64));
    app.select_agent(1);

    app.tick_count = 39;
    app.tick(&Vec::new(), now);
    assert!(app.agents.is_empty());
    assert_eq!(app.reader.offset(&path), None);
    assert_eq!(app.selected_agent, None);

    app.tick_count = 59;
    app.tick(&files, now);
    assert_eq!(app.sorted_agent_ids(), vec![2]);
    assert_eq!(app.agents[&2].sdd_phase, Some(SddPhase::Apply));
    assert_eq!(app.agents[&2].id, 2);
}

#[test]
fn an_agent_falls_dormant_and_wakes_with_a_tool() {
    let path = "/c/projects/p/s.jsonl";
    let first = r#"{"type":"assistant","message":{"content":[{"type":"text","text":"hi"}]}}"#;
    let mut app = App::new("/c".to_string());
    app.tick_count = 19;
    app.tick(&vec![session(path, 1_000, &[first])], 1_000);
    assert_eq!(app.agents[&1].status, AgentStatus::Waiting);
    app.tick(&vec![session(path, 1_000, &[first])], 1_299);
    assert_eq!(app.agents[&1].status, AgentStatus::Waiting);
    app.tick(&vec![session(path, 1_000, &[first])], 1_300);
    assert_eq!(app.agents[&1].status, AgentStatus::Dormant);
    let second = r#"{"type":"system","subtype":"turn_duration"}"#;
    app.tick(&vec![session(path, 1_301, &[first, second])], 1_301);
    assert_eq!(app.agents[&1].status, AgentStatus::Waiting);
    let third = r#"{"type":"assistant","message":{"content":[{"type":"tool_use","id":"t","name":"Grep"}]}}"#;
    app.tick(&vec![session(path, 1_302, &[first, second, third])], 1_302);
    assert_eq!(app.agents[&1].status, AgentStatus::Active);
    assert_eq!(app.agents[&1].current_tool_display(), Some("Searching code"));
}

#[test]
fn a_log_that_vanishes_between_scans_leaves_the_agent_as_it_is() {
    let now = 1_000;
    let files = fake_home_dir("/c", now);
    let path = files[0].path.clone();
    let mut app = App::new("/c".to_string());
    app.tick_count = 19;
    app.tick(&files, now);
    let offset = app.reader.offset(&path);
    app.tick(&Vec::new(), now);
    assert_eq!(app.sorted_agent_ids(), vec![1]);
    assert_eq!(app.reader.offset(&path), offset);
    assert_eq!(app.agents[&1].sdd_phase, Some(SddPhase::Apply));
}
