//! The eight phases of the spec-driven workflow and how a skill invocation
//! names one.

use crate::text::str_eq;
use crate::watcher::parser::tool_event_of;
use crate::watcher::parser::ToolUseEvent;
use crate::watcher::parser::ToolUseView;
use crate::watcher::types::BlockView;
use vstd::prelude::*;
use vstd::string::StrSliceExecFns;

verus! {

/// A phase of the workflow, in the order in which the phases follow each
/// other.
#[derive(Debug, Clone, Copy, PartialEq, Eq, Structural)]
pub enum SddPhase {
    Explore,
    Propose,
    Spec,
    Design,
    Tasks,
    Apply,
    Verify,
    Archive,
}

impl SddPhase {
    /// The place of the phase in the workflow, from 0.
    pub open spec fn position(self) -> nat {
        match self {
            SddPhase::Explore => 0,
            SddPhase::Propose => 1,
            SddPhase::Spec => 2,
            SddPhase::Design => 3,
            SddPhase::Tasks => 4,
            SddPhase::Apply => 5,
            SddPhase::Verify => 6,
            SddPhase::Archive => 7,
        }
    }

    /// The name of the phase as the dashboard shows it.
    pub open spec fn title(self) -> Seq<char> {
        match self {
            SddPhase::Explore => "Explore"@,
            SddPhase::Propose => "Propose"@,
            SddPhase::Spec => "Spec"@,
            SddPhase::Design => "Design"@,
            SddPhase::Tasks => "Tasks"@,
            SddPhase::Apply => "Apply"@,
            SddPhase::Verify => "Verify"@,
            SddPhase::Archive => "Archive"@,
        }
    }

    /// The name of the phase as a skill carries it after `sdd-`.
    pub open spec fn skill_suffix(self) -> Seq<char> {
        match self {
            SddPhase::Explore => "explore"@,
            SddPhase::Propose => "propose"@,
            SddPhase::Spec => "spec"@,
            SddPhase::Design => "design"@,
            SddPhase::Tasks => "tasks"@,
            SddPhase::Apply => "apply"@,
            SddPhase::Verify => "verify"@,
            SddPhase::Archive => "archive"@,
        }
    }

    pub fn label(&self) -> (label: &'static str)
        ensures
            label@ == self.title(),
    {
        match self {
            SddPhase::Explore => "Explore",
            SddPhase::Propose => "Propose",
            SddPhase::Spec => "Spec",
            SddPhase::Design => "Design",
            SddPhase::Tasks => "Tasks",
            SddPhase::Apply => "Apply",
            SddPhase::Verify => "Verify",
            SddPhase::Archive => "Archive",
        }
    }

    pub fn index(&self) -> (index: usize)
        ensures
            index == self.position(),
            index < 8,
    {
        match self {
            SddPhase::Explore => 0,
            SddPhase::Propose => 1,
            SddPhase::Spec => 2,
            SddPhase::Design => 3,
            SddPhase::Tasks => 4,
            SddPhase::Apply => 5,
            SddPhase::Verify => 6,
            SddPhase::Archive => 7,
        }
    }

    /// The number of phases.
    pub fn total() -> (total: usize)
        ensures
            total == 8,
    {
        8
    }
}

/// The phase whose skill suffix is `suffix`.
pub open spec fn phase_named(suffix: Seq<char>) -> Option<SddPhase> {
    if suffix == "explore"@ {
        Some(SddPhase::Explore)
    } else if suffix == "propose"@ {
        Some(SddPhase::Propose)
    } else if suffix == "spec"@ {
        Some(SddPhase::Spec)
    } else if suffix == "design"@ {
        Some(SddPhase::Design)
    } else if suffix == "tasks"@ {
        Some(SddPhase::Tasks)
    } else if suffix == "apply"@ {
        Some(SddPhase::Apply)
    } else if suffix == "verify"@ {
        Some(SddPhase::Verify)
    } else if suffix == "archive"@ {
        Some(SddPhase::Archive)
    } else {
        None
    }
}

/// What follows `prefix` in `s`, where `s` starts with it.
pub open spec fn after_prefix(s: Seq<char>, prefix: Seq<char>) -> Option<Seq<char>> {
    if prefix.len() <= s.len() && s.take(prefix.len() as int) == prefix {
        Some(s.skip(prefix.len() as int))
    } else {
        None
    }
}

/// The phase that a tool invocation enters: that of a `Skill` whose label
/// is `Skill: sdd-` and a phase's skill suffix.
pub open spec fn detected_phase(tool: ToolUseView) -> Option<SddPhase> {
    if tool.tool_name == "Skill"@ {
        match after_prefix(tool.display_status, "Skill: sdd-"@) {
            Some(suffix) => phase_named(suffix),
            None => None,
        }
    } else {
        None
    }
}

/// The phase that the skill named `skill` enters.
pub open spec fn phase_of_skill(skill: Seq<char>) -> Option<SddPhase> {
    match after_prefix(skill, "sdd-"@) {
        Some(suffix) => phase_named(suffix),
        None => None,
    }
}

/// The phase that a tool invocation enters, if it is a skill of the
/// workflow.
pub fn detect_sdd_phase(tool: &ToolUseEvent) -> (phase: Option<SddPhase>)
    ensures
        phase == detected_phase(tool@),
{
    if !str_eq(tool.tool_name.as_str(), "Skill") {
        return None;
    }
    let label = tool.display_status.as_str();
    let total = label.unicode_len();
    proof {
        reveal_strlit("Skill: sdd-");
    }
    if total < 11 {
        return None;
    }
    let head = label.substring_char(0, 11);
    assert(label@.subrange(0, 11) =~= label@.take(11));
    if !str_eq(head, "Skill: sdd-") {
        return None;
    }
    let suffix = label.substring_char(11, total);
    assert(label@.subrange(11, total as int) =~= label@.skip(11));
    if str_eq(suffix, "explore") {
        Some(SddPhase::Explore)
    } else if str_eq(suffix, "propose") {
        Some(SddPhase::Propose)
    } else if str_eq(suffix, "spec") {
        Some(SddPhase::Spec)
    } else if str_eq(suffix, "design") {
        Some(SddPhase::Design)
    } else if str_eq(suffix, "tasks") {
        Some(SddPhase::Tasks)
    } else if str_eq(suffix, "apply") {
        Some(SddPhase::Apply)
    } else if str_eq(suffix, "verify") {
        Some(SddPhase::Verify)
    } else if str_eq(suffix, "archive") {
        Some(SddPhase::Archive)
    } else {
        None
    }
}

/// The eight skill suffixes name the eight phases one to one: each phase
/// is the one that its own suffix names, and a suffix names a phase only
/// if it is that phase's own.
pub proof fn lemma_phase_names_one_to_one(phase: SddPhase, suffix: Seq<char>)
    ensures
        phase_named(phase.skill_suffix()) == Some(phase),
        phase_named(suffix) == Some(phase) <==> suffix == phase.skill_suffix(),
{
    reveal_strlit("explore");
    reveal_strlit("propose");
    reveal_strlit("spec");
    reveal_strlit("design");
    reveal_strlit("tasks");
    reveal_strlit("apply");
    reveal_strlit("verify");
    reveal_strlit("archive");
    let e = "explore"@;
    let p = "propose"@;
    let s = "spec"@;
    let d = "design"@;
    let t = "tasks"@;
    let a = "apply"@;
    let v = "verify"@;
    let r = "archive"@;
    assert(e[0] != p[0] && e[0] != r[0] && p[0] != r[0] && r[1] != a[1]);
    assert(d[0] != v[0]);
    assert(t[0] != a[0]);
}

/// A skill invocation enters the phase that its skill names, whatever
/// else its input holds; a skill that names no phase enters none.
pub proof fn lemma_skill_label_phase(tool: ToolUseView, skill: Seq<char>)
    requires
        tool.tool_name == "Skill"@,
        tool.display_status == "Skill: "@ + skill,
    ensures
        detected_phase(tool) == phase_of_skill(skill),
{
    reveal_strlit("Skill: sdd-");
    reveal_strlit("Skill: ");
    reveal_strlit("sdd-");
    let label = tool.display_status;
    let long = "Skill: sdd-"@;
    let short = "sdd-"@;
    assert(long =~= "Skill: "@ + short);
    if short.len() <= skill.len() && skill.take(4) == short {
        assert(label.take(11) =~= long) by {
            assert forall|i: int| 0 <= i < 11 implies label.take(11)[i] == long[i] by {
                if i >= 7 {
                    assert(label[i] == skill[i - 7]);
                    assert(skill.take(4)[i - 7] == short[i - 7]);
                }
            }
        }
        assert(label.skip(11) =~= skill.skip(4));
    } else {
        if long.len() <= label.len() && label.take(11) == long {
            assert(skill.take(4) =~= short) by {
                assert forall|i: int| 0 <= i < 4 implies skill.take(4)[i] == short[i] by {
                    assert(label.take(11)[i + 7] == long[i + 7]);
                    assert(label[i + 7] == skill[i]);
                }
            }
        }
    }
}

/// A skill names a phase exactly if it is `sdd-` and that phase's skill
/// suffix: the eight skills `sdd-explore` to `sdd-archive` name the eight
/// phases, and no other skill names any.
pub proof fn lemma_skill_names_phase(skill: Seq<char>, phase: SddPhase)
    ensures
        phase_of_skill(skill) == Some(phase) <==> skill == "sdd-"@ + phase.skill_suffix(),
{
    reveal_strlit("sdd-");
    let prefix = "sdd-"@;
    let own = prefix + phase.skill_suffix();
    assert(own.take(4) =~= prefix);
    assert(own.skip(4) =~= phase.skill_suffix());
    match after_prefix(skill, prefix) {
        Some(suffix) => {
            lemma_phase_names_one_to_one(phase, suffix);
            assert(skill =~= skill.take(4) + skill.skip(4));
        },
        None => {},
    }
    lemma_phase_names_one_to_one(phase, phase.skill_suffix());
}

/// The event of a `Skill` tool use enters the phase that the member
/// `skill` of its input names; without such a member it enters none.
pub proof fn lemma_skill_invocation_phase(tool: ToolUseView, block: BlockView)
    requires
        block matches BlockView::ToolUse { name, .. } && name == "Skill"@,
        tool_event_of(block) == Some(tool),
    ensures
        detected_phase(tool) == match block->input.text_member("skill"@) {
            Some(skill) => phase_of_skill(skill),
            None => None,
        },
{
    reveal_strlit("Skill");
    reveal_strlit("Read");
    reveal_strlit("Write");
    reveal_strlit("Edit");
    reveal_strlit("Bash");
    reveal_strlit("Grep");
    reveal_strlit("Glob");
    reveal_strlit("WebFetch");
    reveal_strlit("WebSearch");
    reveal_strlit("Task");
    let name = "Skill"@;
    assert(name[0] != "Read"@[0] && name[0] != "Write"@[0] && name[0] != "Edit"@[0] && name[0]
        != "Bash"@[0] && name[0] != "Grep"@[0] && name[0] != "Glob"@[0] && name[0] != "Task"@[0]);
    assert(name.len() != "WebFetch"@.len() && name.len() != "WebSearch"@.len());
    match block->input.text_member("skill"@) {
        Some(skill) => {
            lemma_skill_label_phase(tool, skill);
        },
        None => {
            lemma_skill_label_phase(tool, "unknown"@);
            reveal_strlit("unknown");
            reveal_strlit("sdd-");
            assert("unknown"@.take(4)[0] != "sdd-"@[0]);
        },
    }
}

} // verus!
