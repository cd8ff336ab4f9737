use claw_wire::fault::DecodeError;
use claw_wire::json::Json;
use claw_wire::output::{BlockError, OutputContentBlock};
use claw_wire::response::Usage;
use claw_wire::stream::{
    ContentBlockDelta, ContentBlockDeltaEvent, ContentBlockStartEvent, ContentBlockStopEvent,
    MessageDelta, MessageDeltaEvent, MessageStopEvent, StreamEvent,
};

fn value(text: &str) -> serde_json::Value {
    serde_json::from_str(text).expect("valid JSON")
}

fn event(text: &str) -> Result<StreamEvent, DecodeError> {
    StreamEvent::from_value(value(text))
}

fn delta(text: &str) -> Result<ContentBlockDelta, String> {
    let text = format!("{{\"type\":\"content_block_delta\",\"index\":0,\"delta\":{text}}}");
    match event(&text) {
        Ok(StreamEvent::ContentBlockDelta(e)) => Ok(e.delta),
        Ok(other) => panic!("a block grows: {other:?}"),
        Err(e) => Err(e.message()),
    }
}

#[test]
fn events_are_read() {
    let start = event(
        r#"{"type":"message_start","message":{"id":"m","type":"message","role":"assistant",
            "content":[],"model":"x","usage":{"input_tokens":3}}}"#,
    )
    .unwrap();
    let StreamEvent::MessageStart(start) = start else {
        panic!("the answer begins: {start:?}");
    };
    assert_eq!(start.message.id, "m");
    assert_eq!(start.message.total_tokens(), 3);

    assert_eq!(
        event(r#"{"type":"message_delta","delta":{"stop_reason":"end_turn"},"usage":{"output_tokens":5}}"#),
        Ok(StreamEvent::MessageDelta(MessageDeltaEvent {
            delta: MessageDelta {
                stop_reason: Some("end_turn".to_string()),
                stop_sequence: None,
            },
            usage: Usage { output_tokens: 5, ..Usage::default() },
        }))
    );
    assert_eq!(
        event(r#"{"type":"content_block_start","index":0,"content_block":{"type":"text","text":""}}"#),
        Ok(StreamEvent::ContentBlockStart(ContentBlockStartEvent {
            index: 0,
            content_block: OutputContentBlock::Text { text: String::new() },
        }))
    );
    assert_eq!(
        event(r#"{"type":"content_block_delta","index":1,"delta":{"type":"text_delta","text":"a"}}"#),
        Ok(StreamEvent::ContentBlockDelta(ContentBlockDeltaEvent {
            index: 1,
            delta: ContentBlockDelta::TextDelta { text: "a".to_string() },
        }))
    );
    assert_eq!(
        event(r#"{"type":"content_block_stop","index":4294967295}"#),
        Ok(StreamEvent::ContentBlockStop(ContentBlockStopEvent { index: u32::MAX }))
    );
    assert_eq!(
        event(r#"{"type":"message_stop","x":1}"#),
        Ok(StreamEvent::MessageStop(MessageStopEvent {}))
    );
    assert_eq!(
        event(r#"["message_stop"]"#),
        Ok(StreamEvent::MessageStop(MessageStopEvent {}))
    );
}

#[test]
fn streamed_server_block_is_kept() {
    let text = r#"{"type":"content_block_start","index":2,
        "content_block":{"type":"server_tool_use","id":"s","name":"web","input":{}}}"#;
    let StreamEvent::ContentBlockStart(start) = event(text).unwrap() else {
        panic!("a block begins");
    };
    assert_eq!(start.index, 2);
    assert_eq!(
        start.content_block,
        OutputContentBlock::Unknown(Json::from_value(value(text)["content_block"].clone()))
    );
}

#[test]
fn malformed_events_are_refused() {
    let events = "one of `message_start`, `message_delta`, `content_block_start`, \
                  `content_block_delta`, `content_block_stop`, `message_stop`";
    let unknown = format!("unknown variant `ping`, expected {events}");
    let cases = [
        ("null", "invalid type: null, expected internally tagged enum StreamEvent"),
        ("[]", "missing field `type`"),
        (r#"{"index":1}"#, "missing field `type`"),
        ("[5]", "invalid type: integer `5`, expected variant identifier"),
        (r#"{"type":"ping"}"#, unknown.as_str()),
        (r#"{"type":"content_block_stop"}"#, "missing field `index`"),
        (
            r#"{"type":"content_block_stop","index":-1}"#,
            "invalid value: integer `-1`, expected u32",
        ),
        (
            r#"{"type":"content_block_stop","index":4294967296}"#,
            "invalid value: integer `4294967296`, expected u32",
        ),
        (r#"{"type":"content_block_start","content_block":{"type":"x"}}"#, "missing field `index`"),
        (r#"{"type":"content_block_start","index":1}"#, "missing field `content_block`"),
        (
            r#"["content_block_start",1]"#,
            "invalid length 1, expected struct ContentBlockStartEvent with 2 elements",
        ),
        (
            r#"{"type":"message_delta","delta":null}"#,
            "invalid type: null, expected struct MessageDelta",
        ),
        (
            r#"{"type":"message_delta","delta":{},"usage":[1,2,3,4,5]}"#,
            "invalid length 5, expected 4 elements in sequence",
        ),
        (r#"{"type":"message_start"}"#, "missing field `message`"),
        (r#"["content_block_stop",1,2]"#, "invalid length 2, expected 1 element in sequence"),
        (r#"["message_stop",1]"#, "invalid length 1, expected 0 elements in sequence"),
    ];
    for (text, words) in cases {
        assert_eq!(event(text).unwrap_err().message(), words, "{text}");
    }
}

#[test]
fn streamed_malformed_block_is_reported() {
    let missing =
        DecodeError::Content(BlockError::MissingField { field: "text".to_string() });
    assert_eq!(
        event(r#"{"type":"content_block_start","content_block":{"type":"text"}}"#),
        Err(missing.clone())
    );
    assert_eq!(
        event(r#"{"type":"content_block_start","index":null,"content_block":{"type":"text"}}"#),
        Err(missing.clone())
    );
    assert_eq!(event(r#"["content_block_start",0,{"type":"text"},1]"#), Err(missing));
    assert_eq!(
        event(r#"{"type":"message_start","message":{"content":[{}]}}"#),
        Err(DecodeError::Content(BlockError::MissingType))
    );
    assert_eq!(
        event(r#"["message_start",{"content":[{}]},0]"#),
        Err(DecodeError::Content(BlockError::MissingType))
    );
}

#[test]
fn earlier_field_of_a_streamed_array_is_reported() {
    assert_eq!(
        event(r#"["content_block_start",null,{"type":"text"}]"#).unwrap_err().message(),
        "invalid type: null, expected u32"
    );
    assert_eq!(
        event(r#"["content_block_delta",null,{}]"#).unwrap_err().message(),
        "invalid type: null, expected u32"
    );
    assert_eq!(
        event(r#"{"type":"content_block_delta","index":null,"delta":{}}"#).unwrap_err().message(),
        "missing field `type`"
    );
}

#[test]
fn deltas_are_read() {
    assert_eq!(
        delta(r#"{"type":"input_json_delta","partial_json":"{"}"#),
        Ok(ContentBlockDelta::InputJsonDelta { partial_json: "{".to_string() })
    );
    assert_eq!(
        delta(r#"{"type":"thinking_delta","thinking":"t"}"#),
        Ok(ContentBlockDelta::ThinkingDelta { thinking: "t".to_string() })
    );
    assert_eq!(
        delta(r#"{"type":"signature_delta","signature":"s"}"#),
        Ok(ContentBlockDelta::SignatureDelta { signature: "s".to_string() })
    );
    // Inside an event a type may go by its place.
    assert_eq!(delta(r#"[0,"a"]"#), Ok(ContentBlockDelta::TextDelta { text: "a".to_string() }));
    let cases = [
        (r#"{"type":"text_delta"}"#, "missing field `text`"),
        (r#"{"type":"text_delta","text":1}"#, "invalid type: integer `1`, expected a string"),
        ("[4]", "invalid value: integer `4`, expected variant index 0 <= i < 4"),
        (
            "[1]",
            "invalid length 0, expected struct variant ContentBlockDelta::InputJsonDelta \
             with 1 element",
        ),
        (r#"[0,"a","b"]"#, "invalid length 2, expected 1 element in sequence"),
        ("null", "invalid type: null, expected internally tagged enum ContentBlockDelta"),
        (
            r#"{"type":"other_delta"}"#,
            "unknown variant `other_delta`, expected one of `text_delta`, `input_json_delta`, \
             `thinking_delta`, `signature_delta`",
        ),
    ];
    for (text, words) in cases {
        assert_eq!(delta(text), Err(words.to_string()), "{text}");
    }
}
