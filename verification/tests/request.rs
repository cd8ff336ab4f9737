use claw_wire::input::{InputContentBlock, ToolResultContentBlock};
use claw_wire::json::Json;
use claw_wire::request::{
    Float64, InputMessage, MessageRequest, ToolChoice, ToolDefinition,
};

fn parse(text: &str) -> Json {
    Json::from_value(serde_json::from_str(text).expect("valid JSON"))
}

fn float(x: f64) -> Option<Float64> {
    Some(match serde_json::Number::from_f64(x) {
        Some(n) => Float64::Finite { digits: n.to_string() },
        None => Float64::NotFinite,
    })
}

#[test]
fn messages_of_the_user() {
    let message = InputMessage::user_text("hi");
    assert_eq!(message.role, "user");
    assert_eq!(message.content, [InputContentBlock::Text { text: "hi".to_string() }]);
    let message = InputMessage::user_tool_result("t1", "out".to_string(), true);
    assert_eq!(message.role, "user");
    assert_eq!(
        message.content,
        [InputContentBlock::ToolResult {
            tool_use_id: "t1".to_string(),
            content: vec![ToolResultContentBlock::Text { text: "out".to_string() }],
            is_error: true,
        }]
    );
}

#[test]
fn streaming_changes_nothing_else() {
    let request = MessageRequest {
        model: "m".to_string(),
        max_tokens: 5,
        messages: vec![InputMessage::user_text("hi".to_string())],
        ..MessageRequest::default()
    };
    assert!(!request.stream);
    let streaming = request.clone().with_streaming();
    assert!(streaming.stream);
    assert_eq!(MessageRequest { stream: false, ..streaming }, request);
    let default = MessageRequest::default();
    assert_eq!(default.model, "");
    assert_eq!(default.max_tokens, 0);
    assert!(default.messages.is_empty() && default.extra_body.is_empty());
    assert!(default.system.is_none() && default.tools.is_none() && default.stop.is_none());
}

#[test]
fn unset_fields_are_left_out() {
    let request = MessageRequest { model: "m".to_string(), ..MessageRequest::default() };
    assert_eq!(request.serialize(), parse(r#"{"model":"m","max_tokens":0,"messages":[]}"#));
}

#[test]
fn request_on_the_wire() {
    let mut request = MessageRequest {
        model: "m".to_string(),
        max_tokens: 64,
        messages: vec![InputMessage::user_text("hi".to_string())],
        system: Some("s".to_string()),
        tools: Some(vec![
            ToolDefinition {
                name: "a".to_string(),
                description: None,
                input_schema: parse(r#"{"type":"object"}"#),
            },
            ToolDefinition {
                name: "b".to_string(),
                description: Some("does b".to_string()),
                input_schema: Json::Null,
            },
        ]),
        tool_choice: Some(ToolChoice::Tool { name: "a".to_string() }),
        temperature: float(0.5),
        top_p: float(1.0),
        frequency_penalty: float(-2.0),
        presence_penalty: float(f64::NAN),
        stop: Some(vec!["x".to_string(), "y".to_string()]),
        reasoning_effort: Some("low".to_string()),
        ..MessageRequest::default()
    }
    .with_streaming();
    request.extra_body.insert("model".to_string(), parse("\"other\""));
    request.extra_body.insert("alpha".to_string(), parse("[1]"));
    assert_eq!(
        request.serialize(),
        parse(
            r#"{
                "model": "m",
                "max_tokens": 64,
                "messages": [{"role":"user","content":[{"type":"text","text":"hi"}]}],
                "system": "s",
                "tools": [
                    {"name":"a","input_schema":{"type":"object"}},
                    {"name":"b","description":"does b","input_schema":null}
                ],
                "tool_choice": {"type":"tool","name":"a"},
                "stream": true,
                "temperature": 0.5,
                "top_p": 1.0,
                "frequency_penalty": -2.0,
                "presence_penalty": null,
                "stop": ["x","y"],
                "reasoning_effort": "low",
                "extra_body": {"model":"other","alpha":[1]}
            }"#
        )
    );
}

#[test]
fn choices_on_the_wire() {
    assert_eq!(ToolChoice::Auto.serialize(), parse(r#"{"type":"auto"}"#));
    assert_eq!(ToolChoice::Any.serialize(), parse(r#"{"type":"any"}"#));
}

#[test]
fn numbers_on_the_wire() {
    assert_eq!(float(f64::INFINITY).unwrap().serialize(), Json::Null);
    assert_eq!(float(f64::NEG_INFINITY).unwrap().serialize(), Json::Null);
    assert_eq!(float(f64::MAX).unwrap().serialize(), parse("1.7976931348623157e308"));
    assert_eq!(float(-0.25).unwrap().serialize(), parse("-0.25"));
}
