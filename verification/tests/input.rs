use claw_wire::input::{InputContentBlock, ToolResultContentBlock};
use claw_wire::json::Json;
use claw_wire::output::OutputContentBlock;

fn value(text: &str) -> serde_json::Value {
    serde_json::from_str(text).expect("valid JSON")
}

fn parse(text: &str) -> Json {
    Json::from_value(value(text))
}

fn block(text: &str) -> InputContentBlock {
    InputContentBlock::from_value(value(text))
}

fn replayed(text: &str) -> InputContentBlock {
    InputContentBlock::Passthrough(parse(text))
}

/// A replayed history puts the object itself back on the wire: the server sees what it sent.
#[test]
fn replayed_history_carries_the_original_server_block() {
    let raw = parse(
        r#"{
            "type": "server_tool_use",
            "id": "call_1",
            "name": "webReader",
            "input": { "url": "https://example.com" }
        }"#,
    );

    let serialized = InputContentBlock::Passthrough(raw.clone()).serialize();

    assert_eq!(serialized, raw, "replayed untouched, not re-wrapped");
}

#[test]
fn input_content_block_thinking_serializes_with_snake_case_type() {
    // given
    let block = InputContentBlock::Thinking {
        thinking: "pondering".to_string(),
        signature: Some("sig_123".to_string()),
    };
    let wire = r#"{ "type": "thinking", "thinking": "pondering", "signature": "sig_123" }"#;

    // when
    let serialized = block.serialize();
    let deserialized = InputContentBlock::from_value(value(wire));

    // then
    assert_eq!(serialized, parse(wire));
    assert_eq!(deserialized, block);
}

#[test]
fn server_block_survives_the_history() {
    let text = r#"{"type":"mcp_tool_use","id":"1","input":{"a":[1,2.5]}}"#;
    let OutputContentBlock::Unknown(raw) = OutputContentBlock::from_value(value(text)).unwrap()
    else {
        panic!("the block must be kept");
    };
    assert_eq!(InputContentBlock::Passthrough(raw).serialize(), parse(text));
    assert_eq!(block(text), replayed(text));
}

#[test]
fn input_blocks_are_read_back() {
    let blocks = [
        r#"{"text":"hi","type":"text"}"#,
        r#"{"thinking":"t","type":"thinking"}"#,
        r#"{"id":"i","input":[{}],"name":"n","type":"tool_use"}"#,
        r#"{"content":[],"tool_use_id":"i","type":"tool_result"}"#,
        r#"{"content":[{"text":"a","type":"text"},{"type":"json","value":null}],"is_error":true,"tool_use_id":"i","type":"tool_result"}"#,
    ];
    for text in blocks {
        let read = block(text);
        assert!(!matches!(read, InputContentBlock::Passthrough(_)));
        assert_eq!(read.serialize(), parse(text));
        assert_eq!(InputContentBlock::deserialize(read.serialize()), read);
    }
}

#[test]
fn fields_that_may_be_left_out() {
    let thinking =
        InputContentBlock::Thinking { thinking: "t".to_string(), signature: None };
    assert_eq!(block(r#"{"type":"thinking","thinking":"t","signature":null}"#), thinking);
    let result = InputContentBlock::ToolResult {
        tool_use_id: "i".to_string(),
        content: vec![],
        is_error: false,
    };
    assert_eq!(
        block(r#"{"type":"tool_result","tool_use_id":"i","content":[],"is_error":false,"x":1}"#),
        result
    );
}

#[test]
fn malformed_blocks_are_replayed() {
    for text in [
        r#"{"type":"text"}"#,
        r#"{"type":"text","text":1}"#,
        r#"{"type":"thinking","signature":"s"}"#,
        r#"{"type":"thinking","thinking":"t","signature":1}"#,
        r#"{"type":"tool_use","id":"i","name":"n"}"#,
        r#"{"type":"tool_use","id":"i","name":1,"input":1}"#,
        r#"{"type":"tool_result","tool_use_id":"i","content":"text"}"#,
        r#"{"type":"tool_result","tool_use_id":"i","content":[{"type":"image"}]}"#,
        r#"{"type":"tool_result","tool_use_id":"i","content":[],"is_error":null}"#,
        r#"{"type":-1,"text":"a"}"#,
        r#"{"type":4,"text":"a"}"#,
        r#"["text","a","b"]"#,
        r#"[]"#,
        "null",
        "\"text\"",
    ] {
        assert_eq!(block(text), replayed(text));
    }
}

#[test]
fn blocks_by_place_are_read() {
    let text = InputContentBlock::Text { text: "a".to_string() };
    assert_eq!(block(r#"["text","a"]"#), text);
    assert_eq!(block(r#"[0,"a"]"#), text);
    assert_eq!(block(r#"{"type":0,"text":"a"}"#), text);
    let thinking =
        InputContentBlock::Thinking { thinking: "t".to_string(), signature: Some("s".to_string()) };
    assert_eq!(block(r#"["thinking","t","s"]"#), thinking);
    let result = InputContentBlock::ToolResult {
        tool_use_id: "i".to_string(),
        content: vec![ToolResultContentBlock::Json { value: parse("[1]") }],
        is_error: true,
    };
    assert_eq!(block(r#"[3,"i",[["json",[1]]],true]"#), result);
}

#[test]
fn result_blocks_are_read_back() {
    let blocks = vec![
        ToolResultContentBlock::Json { value: parse(r#"{"a":1}"#) },
        ToolResultContentBlock::Text { text: "a".to_string() },
    ];
    assert_eq!(blocks[0].serialize(), parse(r#"{"type":"json","value":{"a":1}}"#));
    assert_eq!(blocks[1].serialize(), parse(r#"{"type":"text","text":"a"}"#));
    let result = InputContentBlock::ToolResult {
        tool_use_id: "i".to_string(),
        content: blocks,
        is_error: false,
    };
    assert_eq!(InputContentBlock::deserialize(result.serialize()), result);
    for item in [r#"{"type":"json"}"#, r#"{"type":"text"}"#, r#"["text","a",1]"#, "2"] {
        let text = format!(
            "{{\"type\":\"tool_result\",\"tool_use_id\":\"i\",\"content\":[{item}]}}"
        );
        assert_eq!(block(&text), replayed(&text));
    }
}
