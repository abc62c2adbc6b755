use pixel_agents_tui::state::sdd::detect_sdd_phase;
use pixel_agents_tui::state::sdd::SddPhase;
use pixel_agents_tui::watcher::parser::ToolUseEvent;

fn skill_event(skill_name: &str) -> ToolUseEvent {
    ToolUseEvent {
        tool_id: "t1".to_string(),
        tool_name: "Skill".to_string(),
        display_status: format!("Skill: {skill_name}"),
        is_reading: false,
    }
}

#[test]
fn detects_all_sdd_phases() {
    assert_eq!(detect_sdd_phase(&skill_event("sdd-explore")), Some(SddPhase::Explore));
    assert_eq!(detect_sdd_phase(&skill_event("sdd-propose")), Some(SddPhase::Propose));
    assert_eq!(detect_sdd_phase(&skill_event("sdd-spec")), Some(SddPhase::Spec));
    assert_eq!(detect_sdd_phase(&skill_event("sdd-design")), Some(SddPhase::Design));
    assert_eq!(detect_sdd_phase(&skill_event("sdd-tasks")), Some(SddPhase::Tasks));
    assert_eq!(detect_sdd_phase(&skill_event("sdd-apply")), Some(SddPhase::Apply));
    assert_eq!(detect_sdd_phase(&skill_event("sdd-verify")), Some(SddPhase::Verify));
    assert_eq!(detect_sdd_phase(&skill_event("sdd-archive")), Some(SddPhase::Archive));
}

#[test]
fn non_skill_tool_returns_none() {
    let tool = ToolUseEvent {
        tool_id: "t1".to_string(),
        tool_name: "Read".to_string(),
        display_status: "Reading file.rs".to_string(),
        is_reading: true,
    };
    assert_eq!(detect_sdd_phase(&tool), None);
}

#[test]
fn non_sdd_skill_returns_none() {
    assert_eq!(detect_sdd_phase(&skill_event("brainstorming")), None);
}

#[test]
fn phase_labels_are_correct() {
    assert_eq!(SddPhase::Apply.label(), "Apply");
    assert_eq!(SddPhase::Apply.index(), 5);
    assert_eq!(SddPhase::total(), 8);
}

#[test]
fn phases_are_numbered_in_order() {
    let phases = [
        SddPhase::Explore,
        SddPhase::Propose,
        SddPhase::Spec,
        SddPhase::Design,
        SddPhase::Tasks,
        SddPhase::Apply,
        SddPhase::Verify,
        SddPhase::Archive,
    ];
    let labels = ["Explore", "Propose", "Spec", "Design", "Tasks", "Apply", "Verify", "Archive"];
    for (i, phase) in phases.iter().enumerate() {
        assert_eq!(phase.index(), i);
        assert_eq!(phase.label(), labels[i]);
    }
}

#[test]
fn near_misses_name_no_phase() {
    assert_eq!(detect_sdd_phase(&skill_event("sdd-")), None);
    assert_eq!(detect_sdd_phase(&skill_event("sdd-applyx")), None);
    assert_eq!(detect_sdd_phase(&skill_event("sdd-Apply")), None);
    assert_eq!(detect_sdd_phase(&skill_event(" sdd-apply")), None);
    assert_eq!(detect_sdd_phase(&skill_event("")), None);
    let short = ToolUseEvent {
        tool_id: "t1".to_string(),
        tool_name: "Skill".to_string(),
        display_status: "Skill".to_string(),
        is_reading: false,
    };
    assert_eq!(detect_sdd_phase(&short), None);
    let other_tool = ToolUseEvent {
        tool_id: "t1".to_string(),
        tool_name: "Task".to_string(),
        display_status: "Skill: sdd-apply".to_string(),
        is_reading: false,
    };
    assert_eq!(detect_sdd_phase(&other_tool), None);
}
