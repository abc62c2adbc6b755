//! From a log line to the events that drive an agent's state: tools that
//! started, tools that finished, narrative text and the end of a turn.

use crate::text::after_last;
use crate::text::join_text;
use crate::text::owned;
use crate::text::str_eq;
use crate::text::tail_after;
use crate::text::trim;
use crate::text::trimmed;
use crate::watcher::json::json_document;
use crate::watcher::json::parse_json;
use crate::watcher::json::Json;
use crate::watcher::json::JsonTree;
use crate::watcher::types::record_of;
use crate::watcher::types::record_view_of;
use crate::watcher::types::BlockView;
use crate::watcher::types::ContentBlock;
use crate::watcher::types::JsonlRecord;
use crate::watcher::types::RecordView;
use vstd::prelude::*;
use vstd::string::StrSliceExecFns;
use vstd::string::StringExecFns;

verus! {

/// The start of one tool invocation, as an assistant message announces it.
#[derive(Debug, PartialEq, Eq)]
pub struct ToolUseEvent {
    pub tool_id: String,
    pub tool_name: String,
    pub display_status: String,
    pub is_reading: bool,
}

/// The mathematical value of a [`ToolUseEvent`].
pub struct ToolUseView {
    pub tool_id: Seq<char>,
    pub tool_name: Seq<char>,
    pub display_status: Seq<char>,
    pub is_reading: bool,
}

impl View for ToolUseEvent {
    type V = ToolUseView;

    open spec fn view(&self) -> ToolUseView {
        ToolUseView {
            tool_id: self.tool_id@,
            tool_name: self.tool_name@,
            display_status: self.display_status@,
            is_reading: self.is_reading,
        }
    }
}

impl DeepView for ToolUseEvent {
    type V = ToolUseView;

    open spec fn deep_view(&self) -> ToolUseView {
        self@
    }
}

impl Clone for ToolUseEvent {
    fn clone(&self) -> (copy: ToolUseEvent)
        ensures
            copy == *self,
    {
        ToolUseEvent {
            tool_id: self.tool_id.clone(),
            tool_name: self.tool_name.clone(),
            display_status: self.display_status.clone(),
            is_reading: self.is_reading,
        }
    }
}

/// The record that a log line stands for: the line is trimmed; an empty
/// line, a text that is not one JSON document and a document that is no
/// record all stand for none.
pub open spec fn parsed_line(line: Seq<char>) -> Option<RecordView> {
    let core = trimmed(line);
    if core.len() == 0 {
        None
    } else {
        match json_document(core) {
            Some(tree) => record_of(tree),
            None => None,
        }
    }
}

/// Whether a tool of this name only reads.
pub open spec fn is_reading_name(name: Seq<char>) -> bool {
    name == "Read"@ || name == "Grep"@ || name == "Glob"@ || name == "WebFetch"@ || name
        == "WebSearch"@
}

/// The mark that stands at the end of a text that was cut.
pub open spec fn cut_mark() -> Seq<char> {
    "…"@
}

/// `s` cut to fit `max_len` characters: where it is longer, its first
/// `max_len - 3` characters (none where `max_len` is under 3) and the one
/// character `…`.
pub open spec fn truncated(s: Seq<char>, max_len: nat) -> Seq<char> {
    if s.len() <= max_len {
        s
    } else if max_len >= 3 {
        s.take(max_len - 3) + cut_mark()
    } else {
        cut_mark()
    }
}

/// A text that fits is left as it is; a longer one becomes a proper prefix
/// of itself and the mark `…`, and with a budget of at least one
/// character the result fits the budget.
pub proof fn lemma_truncated_fits(s: Seq<char>, max_len: nat)
    ensures
        s.len() <= max_len ==> truncated(s, max_len) == s,
        s.len() > max_len ==> exists|keep: int|
            0 <= keep < s.len() && keep <= max_len && #[trigger] truncated(s, max_len) == s.take(
                keep,
            ) + cut_mark(),
        cut_mark().len() == 1 && cut_mark()[0] == '…',
        max_len >= 1 ==> truncated(s, max_len).len() <= max_len,
{
    reveal_strlit("…");
    if s.len() > max_len {
        let keep: int = if max_len >= 3 {
            max_len - 3
        } else {
            0
        };
        assert(s.take(0) + cut_mark() =~= cut_mark());
        assert(truncated(s, max_len) == s.take(keep) + cut_mark());
    }
}

/// The string member `key` of a tool's input, or `fallback` where the
/// input has no such string.
pub open spec fn input_text(input: JsonTree, key: Seq<char>, fallback: Seq<char>) -> Seq<char> {
    match input.text_member(key) {
        Some(s) => s,
        None => fallback,
    }
}

/// The last component of the path that a file tool works on.
pub open spec fn input_file_name(input: JsonTree) -> Seq<char> {
    after_last(input_text(input, "file_path"@, "unknown"@), '/')
}

/// The label that the dashboard shows for a tool invocation.
pub open spec fn tool_status(name: Seq<char>, input: JsonTree) -> Seq<char> {
    if name == "Read"@ {
        "Reading "@ + input_file_name(input)
    } else if name == "Write"@ {
        "Writing "@ + input_file_name(input)
    } else if name == "Edit"@ {
        "Editing "@ + input_file_name(input)
    } else if name == "Bash"@ {
        "Running: "@ + truncated(input_text(input, "command"@, ""@), 30)
    } else if name == "Grep"@ {
        "Searching code"@
    } else if name == "Glob"@ {
        "Searching files"@
    } else if name == "WebFetch"@ {
        "Fetching web content"@
    } else if name == "WebSearch"@ {
        "Searching the web"@
    } else if name == "Task"@ {
        "Subtask: "@ + truncated(input_text(input, "description"@, ""@), 30)
    } else if name == "Skill"@ {
        "Skill: "@ + input_text(input, "skill"@, "unknown"@)
    } else if name == "AskUserQuestion"@ {
        "Waiting for answer"@
    } else {
        "Using "@ + name
    }
}

/// The event that a content block announces, if it is a tool use.
pub open spec fn tool_event_of(block: BlockView) -> Option<ToolUseView> {
    match block {
        BlockView::ToolUse { id, name, input } => Some(
            ToolUseView {
                tool_id: id,
                tool_name: name,
                display_status: tool_status(name, input),
                is_reading: is_reading_name(name),
            },
        ),
        _ => None,
    }
}

/// The tool that a content block reports as finished, if it is a tool
/// result.
pub open spec fn tool_result_of(block: BlockView) -> Option<Seq<char>> {
    match block {
        BlockView::ToolResult { tool_use_id } => Some(tool_use_id),
        _ => None,
    }
}

/// The tools that a record starts: those of an assistant record's tool-use
/// blocks, in order.
pub open spec fn tool_uses_of(record: RecordView) -> Seq<ToolUseView> {
    match record {
        RecordView::Assistant { content } => content.filter_map(|b: BlockView| tool_event_of(b)),
        _ => Seq::empty(),
    }
}

/// The tools that a record finishes: those of a user record's tool-result
/// blocks, in order.
pub open spec fn tool_results_of(record: RecordView) -> Seq<Seq<char>> {
    match record {
        RecordView::User { content } => content.filter_map(|b: BlockView| tool_result_of(b)),
        _ => Seq::empty(),
    }
}

/// Whether one of the blocks is text.
pub open spec fn has_text(content: Seq<BlockView>) -> bool {
    exists|i: int| 0 <= i < content.len() && (#[trigger] content[i]) is Text
}

/// The text blocks of a content, one after the other with nothing between.
pub open spec fn joined_text(content: Seq<BlockView>) -> Seq<char>
    decreases content.len(),
{
    if content.len() == 0 {
        Seq::empty()
    } else {
        let before = joined_text(content.drop_last());
        match content.last() {
            BlockView::Text { text } => before + text,
            _ => before,
        }
    }
}

/// The narrative text of a record: that of an assistant record with at
/// least one text block.
pub open spec fn text_of(record: RecordView) -> Option<Seq<char>> {
    match record {
        RecordView::Assistant { content } => if has_text(content) {
            Some(joined_text(content))
        } else {
            None
        },
        _ => None,
    }
}

/// Whether a record ends a turn: a system record of subtype
/// `turn_duration`.
pub open spec fn ends_turn(record: RecordView) -> bool {
    record matches RecordView::System { subtype: Some(s), .. } && s == "turn_duration"@
}

/// Decodes one line of a session log.
pub fn parse_line(line: &str) -> (record: Option<JsonlRecord>)
    ensures
        record_view_of(record) == parsed_line(line@),
{
    let core = trim(line);
    if core.is_empty() {
        return None;
    }
    match parse_json(core) {
        Some(json) => JsonlRecord::from_json(&json),
        None => None,
    }
}

/// The tools that a record starts.
pub fn extract_tool_uses(record: &JsonlRecord) -> (events: Vec<ToolUseEvent>)
    ensures
        events.deep_view() == tool_uses_of(record@),
{
    let content = match record {
        JsonlRecord::Assistant { message } => &message.content,
        _ => {
            return Vec::new();
        },
    };
    let ghost blocks = content.deep_view();
    let ghost pick = |b: BlockView| tool_event_of(b);
    let mut events: Vec<ToolUseEvent> = Vec::new();
    let mut i: usize = 0;
    proof {
        assert(blocks.take(0) =~= Seq::empty());
    }
    while i < content.len()
        invariant
            i <= content.len(),
            blocks == content.deep_view(),
            pick == |b: BlockView| tool_event_of(b),
            events.deep_view() == blocks.take(i as int).filter_map(pick),
        decreases content.len() - i,
    {
        let ghost before = events.deep_view();
        proof {
            assert(blocks.take(i + 1).drop_last() =~= blocks.take(i as int));
            assert(blocks.take(i + 1).last() == content[i as int]@);
        }
        match &content[i] {
            ContentBlock::ToolUse { id, name, input } => {
                let event = ToolUseEvent {
                    tool_id: id.clone(),
                    tool_name: name.clone(),
                    display_status: format_tool_status(name.as_str(), input),
                    is_reading: is_reading_tool(name.as_str()),
                };
                events.push(event);
                assert(events.deep_view() =~= before + seq![event@]);
            },
            _ => {},
        }
        i += 1;
    }
    proof {
        assert(blocks.take(i as int) =~= blocks);
    }
    events
}

/// The tools that a record finishes.
pub fn extract_tool_results(record: &JsonlRecord) -> (ids: Vec<String>)
    ensures
        ids.deep_view() == tool_results_of(record@),
{
    let content = match record {
        JsonlRecord::User { message } => &message.content,
        _ => {
            return Vec::new();
        },
    };
    let ghost blocks = content.deep_view();
    let ghost pick = |b: BlockView| tool_result_of(b);
    let mut ids: Vec<String> = Vec::new();
    let mut i: usize = 0;
    proof {
        assert(blocks.take(0) =~= Seq::empty());
    }
    while i < content.len()
        invariant
            i <= content.len(),
            blocks == content.deep_view(),
            pick == |b: BlockView| tool_result_of(b),
            ids.deep_view() == blocks.take(i as int).filter_map(pick),
        decreases content.len() - i,
    {
        let ghost before = ids.deep_view();
        proof {
            assert(blocks.take(i + 1).drop_last() =~= blocks.take(i as int));
            assert(blocks.take(i + 1).last() == content[i as int]@);
        }
        match &content[i] {
            ContentBlock::ToolResult { tool_use_id } => {
                ids.push(tool_use_id.clone());
                assert(ids.deep_view() =~= before + seq![tool_use_id@]);
            },
            _ => {},
        }
        i += 1;
    }
    proof {
        assert(blocks.take(i as int) =~= blocks);
    }
    ids
}

/// The narrative text of a record.
pub fn extract_text(record: &JsonlRecord) -> (text: Option<String>)
    ensures
        crate::watcher::types::chars_of(text) == text_of(record@),
{
    let content = match record {
        JsonlRecord::Assistant { message } => &message.content,
        _ => {
            return None;
        },
    };
    let ghost blocks = content.deep_view();
    let mut joined = String::new();
    let mut found = false;
    let mut i: usize = 0;
    proof {
        assert(blocks.take(0) =~= Seq::empty());
    }
    while i < content.len()
        invariant
            i <= content.len(),
            blocks == content.deep_view(),
            joined@ == joined_text(blocks.take(i as int)),
            found == has_text(blocks.take(i as int)),
        decreases content.len() - i,
    {
        let ghost head = blocks.take(i as int);
        let ghost next = blocks.take(i + 1);
        proof {
            assert(next.drop_last() =~= head);
            assert(next.last() == content[i as int]@);
            if has_text(head) {
                let k = choose|k: int| 0 <= k < head.len() && (#[trigger] head[k]) is Text;
                assert(next[k] is Text);
            }
            if has_text(next) && !(next.last() is Text) {
                let k = choose|k: int| 0 <= k < next.len() && (#[trigger] next[k]) is Text;
                assert(head[k] is Text);
            }
        }
        match &content[i] {
            ContentBlock::Text { text } => {
                joined.append(text.as_str());
                found = true;
                assert(next[i as int] is Text);
            },
            _ => {},
        }
        i += 1;
    }
    proof {
        assert(blocks.take(i as int) =~= blocks);
    }
    if found {
        Some(joined)
    } else {
        None
    }
}

/// Whether a record ends a turn.
pub fn is_turn_end(record: &JsonlRecord) -> (end: bool)
    ensures
        end == ends_turn(record@),
{
    match record {
        JsonlRecord::System { subtype: Some(subtype), .. } => str_eq(
            subtype.as_str(),
            "turn_duration",
        ),
        _ => false,
    }
}

/// Whether a tool of this name only reads.
pub fn is_reading_tool(name: &str) -> (reading: bool)
    ensures
        reading == is_reading_name(name@),
{
    str_eq(name, "Read") || str_eq(name, "Grep") || str_eq(name, "Glob") || str_eq(
        name,
        "WebFetch",
    ) || str_eq(name, "WebSearch")
}

/// The string member `key` of a tool's input, or `fallback`.
fn input_str<'a>(input: &'a Json, key: &str, fallback: &'a str) -> (text: &'a str)
    ensures
        text@ == input_text(input@, key@, fallback@),
{
    match input.get_text(key) {
        Some(s) => s,
        None => fallback,
    }
}

/// `prefix` followed by the last component of the input's file path.
fn file_status(prefix: &str, input: &Json) -> (label: String)
    ensures
        label@ == prefix@ + input_file_name(input@),
{
    join_text(prefix, tail_after(input_str(input, "file_path", "unknown"), '/'))
}

/// `prefix` followed by the input's member `key`, cut to 30 characters.
fn short_status(prefix: &str, input: &Json, key: &str) -> (label: String)
    ensures
        label@ == prefix@ + truncated(input_text(input@, key@, ""@), 30),
{
    let short = truncate(input_str(input, key, ""), 30);
    join_text(prefix, short.as_str())
}

/// The label that the dashboard shows for a tool invocation.
pub fn format_tool_status(name: &str, input: &Json) -> (label: String)
    ensures
        label@ == tool_status(name@, input@),
{
    if str_eq(name, "Read") {
        file_status("Reading ", input)
    } else if str_eq(name, "Write") {
        file_status("Writing ", input)
    } else if str_eq(name, "Edit") {
        file_status("Editing ", input)
    } else if str_eq(name, "Bash") {
        short_status("Running: ", input, "command")
    } else if str_eq(name, "Grep") {
        owned("Searching code")
    } else if str_eq(name, "Glob") {
        owned("Searching files")
    } else if str_eq(name, "WebFetch") {
        owned("Fetching web content")
    } else if str_eq(name, "WebSearch") {
        owned("Searching the web")
    } else if str_eq(name, "Task") {
        short_status("Subtask: ", input, "description")
    } else if str_eq(name, "Skill") {
        join_text("Skill: ", input_str(input, "skill", "unknown"))
    } else if str_eq(name, "AskUserQuestion") {
        owned("Waiting for answer")
    } else {
        join_text("Using ", name)
    }
}

/// `s` cut to fit `max_len` characters, with the mark `…` at its end where
/// it was longer.
pub fn truncate(s: &str, max_len: usize) -> (short: String)
    ensures
        short@ == truncated(s@, max_len as nat),
{
    let total = s.unicode_len();
    if total <= max_len {
        owned(s)
    } else {
        let keep = if max_len >= 3 {
            max_len - 3
        } else {
            0
        };
        let head = s.substring_char(0, keep);
        assert(s@.subrange(0, keep as int) =~= s@.take(keep as int));
        assert(Seq::<char>::empty() + cut_mark() =~= cut_mark());
        assert(s@.take(0) =~= Seq::<char>::empty());
        join_text(head, "…")
    }
}

} // verus!
