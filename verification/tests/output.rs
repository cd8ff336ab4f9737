use claw_wire::fault::Found;
use claw_wire::json::Json;
use claw_wire::output::{
    decode_content, BlockError, KnownOutputContentBlock, OutputContentBlock,
};
use claw_wire::response::MessageResponse;

fn value(text: &str) -> serde_json::Value {
    serde_json::from_str(text).expect("valid JSON")
}

fn parse(text: &str) -> Json {
    Json::from_value(value(text))
}

fn block(text: &str) -> Result<OutputContentBlock, BlockError> {
    OutputContentBlock::from_value(value(text))
}

fn not_a_string(field: &str, found: Found) -> Result<OutputContentBlock, BlockError> {
    Err(BlockError::NotAString { field: field.to_string(), found })
}

fn missing(field: &str) -> Result<OutputContentBlock, BlockError> {
    Err(BlockError::MissingField { field: field.to_string() })
}

/// An answer that carries a server-side block among ordinary ones is read, keeps every block
/// in order, and keeps the unknown one as it came so that it can be replayed.
#[test]
fn non_streaming_response_preserves_an_unmodeled_server_block() {
    let body = value(
        r#"{
            "id": "msg_1",
            "type": "message",
            "role": "assistant",
            "model": "anthropic/glm-5.3",
            "content": [
                { "type": "text", "text": "checking" },
                {
                    "type": "server_tool_use",
                    "id": "call_d8176ee9",
                    "name": "webReader",
                    "input": { "return_format": "text", "url": "https://example.com" }
                },
                { "type": "tool_use", "id": "toolu_1", "name": "read_file", "input": {"path": "a"} }
            ],
            "stop_reason": "tool_use"
        }"#,
    );

    let response = MessageResponse::from_value(body.clone())
        .expect("server tool block must not fail parsing");

    assert_eq!(response.content.len(), 3, "no block may be dropped");
    assert!(matches!(response.content[0], OutputContentBlock::Text { .. }));
    assert!(matches!(response.content[2], OutputContentBlock::ToolUse { .. }));
    let OutputContentBlock::Unknown(raw) = &response.content[1] else {
        panic!("the server block must be preserved: {:?}", response.content[1]);
    };
    let sent = Json::from_value(body["content"][1].clone());
    assert_eq!(raw, &sent, "preserved verbatim");
    assert_eq!(response.content[1].kind(), "server_tool_use");

    // And it is written as it came, which is what a paused turn has to send back.
    assert_eq!(response.content[1].serialize(), sent);
}

/// What is known and lacks a member is an error, not an unknown block.
#[test]
fn a_malformed_known_block_still_fails_instead_of_becoming_unknown() {
    let error = block(r#"{ "type": "tool_use", "id": "toolu_1" }"#)
        .expect_err("tool_use without name/input must be rejected");
    assert!(
        error.message().contains("name"),
        "the error should name the missing field: {}",
        error.message()
    );
    assert_eq!(error.message(), "missing field `name`");
}

/// A block with no type at all is malformed, not unknown.
#[test]
fn a_block_without_a_type_is_rejected() {
    let error = block(r#"{ "text": "hi" }"#).expect_err("a block without `type` must be rejected");
    assert_eq!(error, BlockError::MissingType);
    assert_eq!(error.message(), "content block is missing a string `type`");
}

#[test]
fn a_type_that_is_no_string_is_rejected() {
    assert_eq!(block(r#"{ "type": 1, "text": "hi" }"#), Err(BlockError::MissingType));
    assert_eq!(block(r#"["text", "hi"]"#), Err(BlockError::MissingType));
    assert_eq!(block("null"), Err(BlockError::MissingType));
}

#[test]
fn known_blocks_are_read_back() {
    let blocks = [
        r#"{"text":"hi","type":"text"}"#,
        r#"{"id":"i","input":{"a":[1,null]},"name":"n","type":"tool_use"}"#,
        r#"{"id":"i","input":null,"name":"n","type":"tool_use"}"#,
        r#"{"thinking":"t","type":"thinking"}"#,
        r#"{"signature":"s","thinking":"t","type":"thinking"}"#,
        r#"{"data":{"x":1.25},"type":"redacted_thinking"}"#,
    ];
    for text in blocks {
        let read = block(text).unwrap();
        assert_eq!(read.serialize(), parse(text));
        assert_eq!(OutputContentBlock::deserialize(read.serialize()), Ok(read.clone()));
        assert_eq!(parse(text).get("type").unwrap().as_str(), Some(read.kind()));
        let known = read.clone().into_known().unwrap();
        assert_eq!(known.serialize(), parse(text));
        assert_eq!(OutputContentBlock::from(known), read);
    }
}

#[test]
fn further_members_are_passed_over() {
    assert_eq!(
        block(r#"{"type":"text","text":"hi","citations":[]}"#),
        Ok(OutputContentBlock::Text { text: "hi".to_string() })
    );
}

#[test]
fn thinking_has_defaults() {
    let empty = OutputContentBlock::Thinking { thinking: String::new(), signature: None };
    assert_eq!(block(r#"{"type":"thinking"}"#), Ok(empty.clone()));
    assert_eq!(block(r#"{"type":"thinking","signature":null}"#), Ok(empty));
    assert_eq!(
        block(r#"{"type":"thinking","thinking":null,"signature":5}"#),
        not_a_string("signature", Found::Unsigned(5))
    );
    assert_eq!(
        block(r#"{"type":"thinking","thinking":null}"#),
        not_a_string("thinking", Found::Null)
    );
}

#[test]
fn malformed_members_are_reported() {
    assert_eq!(block(r#"{"type":"text"}"#), missing("text"));
    assert_eq!(block(r#"{"type":"tool_use"}"#), missing("id"));
    assert_eq!(block(r#"{"type":"tool_use","id":"i","name":"n"}"#), missing("input"));
    assert_eq!(block(r#"{"type":"redacted_thinking"}"#), missing("data"));
    assert_eq!(block(r#"{"type":"text","text":[]}"#), not_a_string("text", Found::Array));
    assert_eq!(
        block(r#"{"type":"tool_use","id":{},"name":1}"#),
        not_a_string("id", Found::Object)
    );
    // What is of the wrong kind is reported before what is missing.
    assert_eq!(
        block(r#"{"type":"tool_use","name":true}"#),
        not_a_string("name", Found::Bool(true))
    );
}

/// `serde_json` words a string that is missing in the same way.
#[test]
fn messages_are_worded_like_those_of_serde_json() {
    for found in [
        "null", "true", "false", "7", "-7", "-9223372036854775808", "[1]", "{\"a\":1}", "1.5",
        "1.0", "-0.0", "1e300", "2.5e-9",
    ] {
        let ours = block(&format!("{{\"type\":\"text\",\"text\":{found}}}")).unwrap_err();
        let theirs = serde_json::from_value::<String>(value(found)).unwrap_err();
        assert_eq!(ours.message(), theirs.to_string());
    }
    let float = block(r#"{"type":"text","text":1.5}"#).unwrap_err();
    assert_eq!(float.message(), "invalid type: floating point `1.5`, expected a string");
}

#[test]
fn unknown_block_is_replayed() {
    let text = r#"{"type":"web_search_tool_result","content":[{"url":"u"}],"n":-1.5e300}"#;
    let read = block(text).unwrap();
    assert_eq!(read, OutputContentBlock::Unknown(parse(text)));
    assert_eq!(read.serialize(), parse(text));
    assert_eq!(read.clone().into_known(), Err(parse(text)));
    assert_eq!(read.kind(), "web_search_tool_result");
    assert_eq!(OutputContentBlock::Unknown(Json::Null).kind(), "");
}

#[test]
fn content_keeps_every_block_in_its_place() {
    let items = vec![
        parse(r#"{"type":"x","n":1}"#),
        parse(r#"{"type":"text","text":"a"}"#),
        parse(r#"{"type":"x","n":2}"#),
    ];
    let blocks = decode_content(items.clone()).unwrap();
    let written: Vec<Json> = blocks.iter().map(|b| b.serialize()).collect();
    assert_eq!(written, items);
    assert_eq!(decode_content(vec![]), Ok(vec![]));
}

#[test]
fn first_malformed_block_is_reported() {
    let items = vec![
        parse(r#"{"type":"x"}"#),
        parse(r#"{"type":"text"}"#),
        parse(r#"{}"#),
    ];
    assert_eq!(
        decode_content(items),
        Err(BlockError::MissingField { field: "text".to_string() })
    );
}

#[test]
fn known_block_comes_back() {
    let known = KnownOutputContentBlock::Text { text: "a".to_string() };
    assert_eq!(OutputContentBlock::from(known.clone()).into_known(), Ok(known));
}
