//! The records of a session log and the schema that decodes them from a
//! JSON document.

use crate::text::str_eq;
use crate::watcher::json::members_view;
use crate::watcher::json::Json;
use crate::watcher::json::JsonTree;
use vstd::prelude::*;

verus! {

/// One line of a session log.
#[derive(Debug, PartialEq, Eq)]
pub enum JsonlRecord {
    Assistant { message: AssistantMessage },
    User { message: UserMessage },
    System { subtype: Option<String>, duration_ms: Option<u64> },
    /// `data` is an object of the members besides `type` and `subtype`.
    Progress { subtype: Option<String>, data: Json },
    Unknown,
}

#[derive(Debug, PartialEq, Eq)]
pub struct AssistantMessage {
    pub content: Vec<ContentBlock>,
}

#[derive(Debug, PartialEq, Eq)]
pub struct UserMessage {
    pub content: Vec<ContentBlock>,
}

/// One block of a message's content.
#[derive(Debug, PartialEq, Eq)]
pub enum ContentBlock {
    ToolUse { id: String, name: String, input: Json },
    ToolResult { tool_use_id: String },
    Text { text: String },
    Other,
}

/// The mathematical value of a [`ContentBlock`].
pub enum BlockView {
    ToolUse { id: Seq<char>, name: Seq<char>, input: JsonTree },
    ToolResult { tool_use_id: Seq<char> },
    Text { text: Seq<char> },
    Other,
}

/// The mathematical value of a [`JsonlRecord`].
pub enum RecordView {
    Assistant { content: Seq<BlockView> },
    User { content: Seq<BlockView> },
    System { subtype: Option<Seq<char>>, duration_ms: Option<u64> },
    Progress { subtype: Option<Seq<char>>, data: JsonTree },
    Unknown,
}

/// The characters of an optional string.
pub open spec fn chars_of(text: Option<String>) -> Option<Seq<char>> {
    match text {
        Some(s) => Some(s@),
        None => None,
    }
}

impl View for ContentBlock {
    type V = BlockView;

    open spec fn view(&self) -> BlockView {
        match self {
            ContentBlock::ToolUse { id, name, input } => BlockView::ToolUse {
                id: id@,
                name: name@,
                input: input@,
            },
            ContentBlock::ToolResult { tool_use_id } => BlockView::ToolResult {
                tool_use_id: tool_use_id@,
            },
            ContentBlock::Text { text } => BlockView::Text { text: text@ },
            ContentBlock::Other => BlockView::Other,
        }
    }
}

impl DeepView for ContentBlock {
    type V = BlockView;

    open spec fn deep_view(&self) -> BlockView {
        self@
    }
}

impl View for JsonlRecord {
    type V = RecordView;

    open spec fn view(&self) -> RecordView {
        match self {
            JsonlRecord::Assistant { message } => RecordView::Assistant {
                content: message.content.deep_view(),
            },
            JsonlRecord::User { message } => RecordView::User {
                content: message.content.deep_view(),
            },
            JsonlRecord::System { subtype, duration_ms } => RecordView::System {
                subtype: chars_of(*subtype),
                duration_ms: *duration_ms,
            },
            JsonlRecord::Progress { subtype, data } => RecordView::Progress {
                subtype: chars_of(*subtype),
                data: data@,
            },
            JsonlRecord::Unknown => RecordView::Unknown,
        }
    }
}

impl DeepView for JsonlRecord {
    type V = RecordView;

    open spec fn deep_view(&self) -> RecordView {
        self@
    }
}

/// The model of an optional block.
pub open spec fn block_view_of(block: Option<ContentBlock>) -> Option<BlockView> {
    match block {
        Some(b) => Some(b@),
        None => None,
    }
}

/// The model of an optional record.
pub open spec fn record_view_of(record: Option<JsonlRecord>) -> Option<RecordView> {
    match record {
        Some(r) => Some(r@),
        None => None,
    }
}

/// An optional string member: absent or `null` is no string, a string is
/// itself, and anything else does not fit (the outer `None`).
pub open spec fn optional_text(member: Option<JsonTree>) -> Option<Option<Seq<char>>> {
    match member {
        None => Some(None),
        Some(JsonTree::Null) => Some(None),
        Some(JsonTree::Text(s)) => Some(Some(s)),
        Some(_) => None,
    }
}

/// An optional unsigned member: absent or `null` is no number, an unsigned
/// integer of at most 64 bits is itself, and anything else does not fit
/// (the outer `None`).
pub open spec fn optional_unsigned(member: Option<JsonTree>) -> Option<Option<u64>> {
    match member {
        None => Some(None),
        Some(JsonTree::Null) => Some(None),
        Some(JsonTree::Number(Some(n))) => Some(Some(n)),
        Some(_) => None,
    }
}

/// The content block that a JSON value stands for. A block is an object
/// whose member `type` is a string; `tool_use` needs the strings `id` and
/// `name` and takes `input` as it is (`null` where it is missing),
/// `tool_result` needs the string `tool_use_id`, `text` needs the string
/// `text`, and every other type is [`BlockView::Other`].
pub open spec fn block_of(tree: JsonTree) -> Option<BlockView> {
    match tree.text_member("type"@) {
        None => None,
        Some(kind) => if kind == "tool_use"@ {
            match (tree.text_member("id"@), tree.text_member("name"@)) {
                (Some(id), Some(name)) => Some(
                    BlockView::ToolUse {
                        id,
                        name,
                        input: match tree.member("input"@) {
                            Some(input) => input,
                            None => JsonTree::Null,
                        },
                    },
                ),
                _ => None,
            }
        } else if kind == "tool_result"@ {
            match tree.text_member("tool_use_id"@) {
                Some(tool_use_id) => Some(BlockView::ToolResult { tool_use_id }),
                None => None,
            }
        } else if kind == "text"@ {
            match tree.text_member("text"@) {
                Some(text) => Some(BlockView::Text { text }),
                None => None,
            }
        } else {
            Some(BlockView::Other)
        },
    }
}

/// The blocks that a list of JSON values stands for: there are none unless
/// every item is a block.
pub open spec fn blocks_of(items: Seq<JsonTree>) -> Option<Seq<BlockView>> {
    if forall|i: int| 0 <= i < items.len() ==> (#[trigger] block_of(items[i])) is Some {
        Some(Seq::new(items.len(), |i: int| block_of(items[i])->0))
    } else {
        None
    }
}

/// The content of a message record: the blocks of the list `content` in
/// the member `message`.
pub open spec fn content_of(tree: JsonTree) -> Option<Seq<BlockView>> {
    match tree.member("message"@) {
        Some(message) => match message.member("content"@) {
            Some(JsonTree::List(items)) => blocks_of(items),
            _ => None,
        },
        None => None,
    }
}

/// Whether a member of a progress record belongs to its data.
pub open spec fn is_progress_data(member: (Seq<char>, JsonTree)) -> bool {
    member.0 != "type"@ && member.0 != "subtype"@
}

/// The members of a progress record that make up its data.
pub open spec fn progress_data(tree: JsonTree) -> JsonTree {
    match tree {
        JsonTree::Object(members) => JsonTree::Object(
            members.filter(|m: (Seq<char>, JsonTree)| is_progress_data(m)),
        ),
        _ => JsonTree::Null,
    }
}

/// The record that a JSON document stands for. A record is an object whose
/// member `type` is a string: `assistant` and `user` carry the content of
/// their message, `system` an optional string `subtype` and an optional
/// unsigned `duration_ms`, `progress` an optional string `subtype` and its
/// other members; every other type is [`RecordView::Unknown`]. A document
/// that does not fit stands for no record.
pub open spec fn record_of(tree: JsonTree) -> Option<RecordView> {
    match tree.text_member("type"@) {
        None => None,
        Some(kind) => if kind == "assistant"@ {
            match content_of(tree) {
                Some(content) => Some(RecordView::Assistant { content }),
                None => None,
            }
        } else if kind == "user"@ {
            match content_of(tree) {
                Some(content) => Some(RecordView::User { content }),
                None => None,
            }
        } else if kind == "system"@ {
            match (
                optional_text(tree.member("subtype"@)),
                optional_unsigned(tree.member("duration_ms"@)),
            ) {
                (Some(subtype), Some(duration_ms)) => Some(
                    RecordView::System { subtype, duration_ms },
                ),
                _ => None,
            }
        } else if kind == "progress"@ {
            match optional_text(tree.member("subtype"@)) {
                Some(subtype) => Some(
                    RecordView::Progress { subtype, data: progress_data(tree) },
                ),
                None => None,
            }
        } else {
            Some(RecordView::Unknown)
        },
    }
}

/// Reads an optional string member.
fn read_optional_text(member: Option<&Json>) -> (read: Option<Option<String>>)
    ensures
        match read {
            Some(text) => optional_text(crate::watcher::json::tree_of_ref(member)) == Some(
                chars_of(text),
            ),
            None => optional_text(crate::watcher::json::tree_of_ref(member)) is None,
        },
{
    match member {
        None => Some(None),
        Some(value) => {
            if value.is_null() {
                Some(None)
            } else {
                match value.as_text() {
                    Some(s) => Some(Some(crate::text::owned(s))),
                    None => None,
                }
            }
        },
    }
}

/// Reads an optional unsigned member.
fn read_optional_unsigned(member: Option<&Json>) -> (read: Option<Option<u64>>)
    ensures
        read == optional_unsigned(crate::watcher::json::tree_of_ref(member)),
{
    match member {
        None => Some(None),
        Some(value) => {
            if value.is_null() {
                Some(None)
            } else {
                match value.as_u64() {
                    Some(n) => Some(Some(n)),
                    None => None,
                }
            }
        },
    }
}

impl ContentBlock {
    /// Decodes one content block.
    pub fn from_json(json: &Json) -> (block: Option<ContentBlock>)
        ensures
            block_view_of(block) == block_of(json@),
    {
        let kind = match json.get_text("type") {
            Some(kind) => kind,
            None => {
                return None;
            },
        };
        if str_eq(kind, "tool_use") {
            let id = match json.get_text("id") {
                Some(id) => id,
                None => {
                    return None;
                },
            };
            let name = match json.get_text("name") {
                Some(name) => name,
                None => {
                    return None;
                },
            };
            let input = match json.get("input") {
                Some(input) => input.clone(),
                None => Json::Null,
            };
            Some(
                ContentBlock::ToolUse {
                    id: crate::text::owned(id),
                    name: crate::text::owned(name),
                    input,
                },
            )
        } else if str_eq(kind, "tool_result") {
            match json.get_text("tool_use_id") {
                Some(id) => Some(ContentBlock::ToolResult { tool_use_id: crate::text::owned(id) }),
                None => None,
            }
        } else if str_eq(kind, "text") {
            match json.get_text("text") {
                Some(text) => Some(ContentBlock::Text { text: crate::text::owned(text) }),
                None => None,
            }
        } else {
            Some(ContentBlock::Other)
        }
    }

    /// Decodes a list of content blocks: all of them, or none where one
    /// item is no block.
    pub fn list_from_json(items: &Vec<Json>) -> (blocks: Option<Vec<ContentBlock>>)
        ensures
            match blocks {
                Some(b) => blocks_of(items.deep_view()) == Some(b.deep_view()),
                None => blocks_of(items.deep_view()) is None,
            },
    {
        let ghost trees = items.deep_view();
        let mut blocks: Vec<ContentBlock> = Vec::new();
        let mut i: usize = 0;
        while i < items.len()
            invariant
                i <= items.len(),
                trees == items.deep_view(),
                blocks.len() == i,
                forall|k: int| 0 <= k < i ==> block_of(trees[k]) == Some(#[trigger] blocks[k]@),
            decreases items.len() - i,
        {
            match ContentBlock::from_json(&items[i]) {
                Some(block) => {
                    blocks.push(block);
                },
                None => {
                    assert(block_of(trees[i as int]) is None);
                    return None;
                },
            }
            i += 1;
        }
        proof {
            assert forall|k: int| 0 <= k < trees.len() implies (#[trigger] block_of(
                trees[k],
            )) is Some by {
                assert(block_of(trees[k]) == Some(blocks[k]@));
            }
            assert(blocks_of(trees)->0 =~= blocks.deep_view());
        }
        Some(blocks)
    }
}

/// Decodes the content of a message record.
fn content_from_json(json: &Json) -> (content: Option<Vec<ContentBlock>>)
    ensures
        match content {
            Some(b) => content_of(json@) == Some(b.deep_view()),
            None => content_of(json@) is None,
        },
{
    let message = match json.get("message") {
        Some(message) => message,
        None => {
            return None;
        },
    };
    let content = match message.get("content") {
        Some(content) => content,
        None => {
            return None;
        },
    };
    match content.as_list() {
        Some(items) => ContentBlock::list_from_json(items),
        None => None,
    }
}

/// Copies the members of a progress record that make up its data.
fn progress_data_from_json(json: &Json) -> (data: Json)
    ensures
        data@ == progress_data(json@),
{
    match json.as_members() {
        None => Json::Null,
        Some(members) => {
            let ghost all = members_view(members@);
            let ghost keep = |m: (Seq<char>, JsonTree)| is_progress_data(m);
            let mut kept: Vec<(String, Json)> = Vec::new();
            let mut i: usize = 0;
            proof {
                reveal(Seq::filter);
                assert(all.take(0) =~= Seq::empty());
            }
            while i < members.len()
                invariant
                    i <= members.len(),
                    all == members_view(members@),
                    keep == |m: (Seq<char>, JsonTree)| is_progress_data(m),
                    members_view(kept@) == all.take(i as int).filter(keep),
                decreases members.len() - i,
            {
                let ghost before = members_view(kept@);
                let is_type = str_eq(members[i].0.as_str(), "type");
                let is_subtype = str_eq(members[i].0.as_str(), "subtype");
                proof {
                    reveal(Seq::filter);
                    assert(all.take(i + 1).drop_last() =~= all.take(i as int));
                    assert(all.take(i + 1).last() == all[i as int]);
                }
                if !is_type && !is_subtype {
                    let name = members[i].0.clone();
                    let value = members[i].1.clone();
                    kept.push((name, value));
                    assert(members_view(kept@) =~= before.push(all[i as int]));
                }
                i += 1;
            }
            proof {
                assert(all.take(i as int) =~= all);
                crate::watcher::json::lemma_object_view(kept);
            }
            Json::Object(kept)
        },
    }
}

impl JsonlRecord {
    /// Decodes one record.
    pub fn from_json(json: &Json) -> (record: Option<JsonlRecord>)
        ensures
            record_view_of(record) == record_of(json@),
    {
        let kind = match json.get_text("type") {
            Some(kind) => kind,
            None => {
                return None;
            },
        };
        if str_eq(kind, "assistant") {
            match content_from_json(json) {
                Some(content) => Some(
                    JsonlRecord::Assistant { message: AssistantMessage { content } },
                ),
                None => None,
            }
        } else if str_eq(kind, "user") {
            match content_from_json(json) {
                Some(content) => Some(JsonlRecord::User { message: UserMessage { content } }),
                None => None,
            }
        } else if str_eq(kind, "system") {
            let subtype = match read_optional_text(json.get("subtype")) {
                Some(subtype) => subtype,
                None => {
                    return None;
                },
            };
            match read_optional_unsigned(json.get("duration_ms")) {
                Some(duration_ms) => Some(JsonlRecord::System { subtype, duration_ms }),
                None => None,
            }
        } else if str_eq(kind, "progress") {
            match read_optional_text(json.get("subtype")) {
                Some(subtype) => Some(
                    JsonlRecord::Progress { subtype, data: progress_data_from_json(json) },
                ),
                None => None,
            }
        } else {
            Some(JsonlRecord::Unknown)
        }
    }
}

} // verus!

