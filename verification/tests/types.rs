use pixel_agents_tui::watcher::json::Json;
use pixel_agents_tui::watcher::parser::parse_line;
use pixel_agents_tui::watcher::types::AssistantMessage;
use pixel_agents_tui::watcher::types::ContentBlock;
use pixel_agents_tui::watcher::types::JsonlRecord;
use pixel_agents_tui::watcher::types::UserMessage;

#[test]
fn deserialize_tool_use_record() {
    let json = r#"{"type":"assistant","message":{"content":[{"type":"tool_use","id":"tool_1","name":"Read","input":{"file_path":"/tmp/test.rs"}}]}}"#;
    let record: JsonlRecord = parse_line(json).unwrap();
    match record {
        JsonlRecord::Assistant { message } => {
            assert_eq!(message.content.len(), 1);
            match &message.content[0] {
                ContentBlock::ToolUse { id, name, .. } => {
                    assert_eq!(name, "Read");
                    assert_eq!(id, "tool_1");
                }
                _ => panic!("Expected ToolUse"),
            }
        }
        _ => panic!("Expected Assistant record"),
    }
}

#[test]
fn deserialize_tool_result_record() {
    let json = r#"{"type":"user","message":{"content":[{"type":"tool_result","tool_use_id":"tool_1"}]}}"#;
    let record: JsonlRecord = parse_line(json).unwrap();
    match record {
        JsonlRecord::User { message } => match &message.content[0] {
            ContentBlock::ToolResult { tool_use_id } => {
                assert_eq!(tool_use_id, "tool_1");
            }
            _ => panic!("Expected ToolResult"),
        },
        _ => panic!("Expected User record"),
    }
}

#[test]
fn deserialize_turn_duration_record() {
    let json = r#"{"type":"system","subtype":"turn_duration","duration_ms":1500}"#;
    let record: JsonlRecord = parse_line(json).unwrap();
    match record {
        JsonlRecord::System { subtype, .. } => {
            assert_eq!(subtype.as_deref(), Some("turn_duration"));
        }
        _ => panic!("Expected System record"),
    }
}

#[test]
fn deserialize_text_content() {
    let json = r#"{"type":"assistant","message":{"content":[{"type":"text","text":"Hello world"}]}}"#;
    let record: JsonlRecord = parse_line(json).unwrap();
    match record {
        JsonlRecord::Assistant { message } => match &message.content[0] {
            ContentBlock::Text { text } => {
                assert_eq!(text, "Hello world");
            }
            _ => panic!("Expected Text"),
        },
        _ => panic!("Expected Assistant"),
    }
}

#[test]
fn unknown_record_types_dont_crash() {
    let json = r#"{"type":"unknown_future_type","data":123}"#;
    let record: JsonlRecord = parse_line(json).unwrap();
    assert!(matches!(record, JsonlRecord::Unknown));
}

#[test]
fn records_in_full() {
    assert_eq!(
        parse_line(r#"{"type":"system","subtype":"turn_duration","duration_ms":1500}"#),
        Some(JsonlRecord::System {
            subtype: Some("turn_duration".to_string()),
            duration_ms: Some(1500),
        })
    );
    assert_eq!(
        parse_line(r#"{"type":"system","subtype":null,"duration_ms":null,"extra":[1]}"#),
        Some(JsonlRecord::System { subtype: None, duration_ms: None })
    );
    assert_eq!(
        parse_line(r#"{"duration_ms":18446744073709551615,"type":"system"}"#),
        Some(JsonlRecord::System { subtype: None, duration_ms: Some(u64::MAX) })
    );
    assert_eq!(
        parse_line(
            r#"{"type":"user","message":{"role":"user","content":[{"type":"tool_result","tool_use_id":"t","content":"ok"},{"type":"image"}]}}"#
        ),
        Some(JsonlRecord::User {
            message: UserMessage {
                content: vec![
                    ContentBlock::ToolResult { tool_use_id: "t".to_string() },
                    ContentBlock::Other,
                ],
            },
        })
    );
    assert_eq!(
        parse_line(
            r#"{"type":"assistant","message":{"content":[{"type":"tool_use","id":"i","name":"n"},{"type":"tool_use","id":"j","name":"m","input":[true,null]}]}}"#
        ),
        Some(JsonlRecord::Assistant {
            message: AssistantMessage {
                content: vec![
                    ContentBlock::ToolUse {
                        id: "i".to_string(),
                        name: "n".to_string(),
                        input: Json::Null,
                    },
                    ContentBlock::ToolUse {
                        id: "j".to_string(),
                        name: "m".to_string(),
                        input: Json::List(vec![Json::Bool(true), Json::Null]),
                    },
                ],
            },
        })
    );
}

#[test]
fn progress_keeps_its_other_members() {
    assert_eq!(
        parse_line(r#"{"type":"progress","subtype":"bash","step":2,"note":"x"}"#),
        Some(JsonlRecord::Progress {
            subtype: Some("bash".to_string()),
            data: Json::Object(vec![
                ("note".to_string(), Json::Text("x".to_string())),
                ("step".to_string(), Json::Number(Some(2))),
            ]),
        })
    );
    assert_eq!(
        parse_line(r#"{"type":"progress"}"#),
        Some(JsonlRecord::Progress { subtype: None, data: Json::Object(Vec::new()) })
    );
    assert_eq!(parse_line(r#"{"type":"progress","subtype":7}"#), None);
}

#[test]
fn documents_that_are_no_record() {
    for line in [
        "[]",
        "null",
        "17",
        "\"assistant\"",
        "{}",
        r#"{"type":5}"#,
        r#"{"type":null}"#,
        r#"{"type":"assistant"}"#,
        r#"{"type":"assistant","message":null}"#,
        r#"{"type":"assistant","message":{}}"#,
        r#"{"type":"assistant","message":{"content":"text"}}"#,
        r#"{"type":"assistant","message":{"content":[{"type":"text"}]}}"#,
        r#"{"type":"assistant","message":{"content":[{"type":"text","text":5}]}}"#,
        r#"{"type":"assistant","message":{"content":[{"text":"no type"}]}}"#,
        r#"{"type":"assistant","message":{"content":["bare"]}}"#,
        r#"{"type":"assistant","message":{"content":[{"type":"tool_use","id":"a"}]}}"#,
        r#"{"type":"assistant","message":{"content":[{"type":"tool_use","name":"a"}]}}"#,
        r#"{"type":"assistant","message":{"content":[{"type":"tool_use","id":null,"name":"a"}]}}"#,
        r#"{"type":"user","message":{"content":[{"type":"tool_result"}]}}"#,
        r#"{"type":"user","message":{"content":[{"type":"text","text":"ok"},{"type":"tool_result"}]}}"#,
        r#"{"type":"system","subtype":5}"#,
        r#"{"type":"system","duration_ms":"long"}"#,
        r#"{"type":"system","duration_ms":-1}"#,
        r#"{"type":"system","duration_ms":1.5}"#,
        r#"{"type":"system","duration_ms":18446744073709551616}"#,
        r#"{"type":"system""#,
    ] {
        assert_eq!(parse_line(line), None, "{line}");
    }
}

#[test]
fn decoding_from_a_value_built_by_hand() {
    let block = Json::Object(vec![
        ("type".to_string(), Json::Text("text".to_string())),
        ("text".to_string(), Json::Text("first".to_string())),
        ("text".to_string(), Json::Text("second".to_string())),
    ]);
    assert_eq!(
        ContentBlock::from_json(&block),
        Some(ContentBlock::Text { text: "first".to_string() })
    );
    assert_eq!(ContentBlock::from_json(&Json::Text("text".to_string())), None);
    assert_eq!(
        ContentBlock::list_from_json(&vec![block.clone(), Json::Null]),
        None
    );
    assert_eq!(
        ContentBlock::list_from_json(&vec![block.clone()]),
        Some(vec![ContentBlock::Text { text: "first".to_string() }])
    );
    let record = Json::Object(vec![
        ("message".to_string(), Json::Object(vec![("content".to_string(), Json::List(vec![block]))])),
        ("type".to_string(), Json::Text("assistant".to_string())),
    ]);
    assert_eq!(
        JsonlRecord::from_json(&record),
        Some(JsonlRecord::Assistant {
            message: AssistantMessage {
                content: vec![ContentBlock::Text { text: "first".to_string() }],
            },
        })
    );
    assert_eq!(JsonlRecord::from_json(&Json::Null), None);
}
