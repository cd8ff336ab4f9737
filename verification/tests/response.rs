use claw_wire::fault::{DecodeError, Found};
use claw_wire::json::Json;
use claw_wire::output::BlockError;
use claw_wire::response::{MessageResponse, TokenUsage, Usage};

fn value(text: &str) -> serde_json::Value {
    serde_json::from_str(text).expect("valid JSON")
}

fn usage(text: &str) -> Option<Usage> {
    Usage::deserialize(&Json::from_value(value(text))).ok()
}

fn usage_error(text: &str) -> String {
    Usage::deserialize(&Json::from_value(value(text))).unwrap_err().message()
}

fn answer_error(text: &str) -> DecodeError {
    MessageResponse::from_value(value(text)).unwrap_err()
}

#[test]
fn usage_total_tokens_includes_cache_tokens() {
    let usage = Usage {
        input_tokens: 10,
        cache_creation_input_tokens: 2,
        cache_read_input_tokens: 3,
        output_tokens: 4,
    };

    assert_eq!(usage.total_tokens(), 19);
    assert_eq!(usage.token_usage().total_tokens(), 19);
}

#[test]
fn token_usage_keeps_each_count() {
    let usage = Usage {
        input_tokens: 1_000_000,
        cache_creation_input_tokens: 100_000,
        cache_read_input_tokens: 200_000,
        output_tokens: 500_000,
    };
    assert_eq!(
        usage.token_usage(),
        TokenUsage {
            input_tokens: 1_000_000,
            output_tokens: 500_000,
            cache_creation_input_tokens: 100_000,
            cache_read_input_tokens: 200_000,
        }
    );
    assert_eq!(usage.total_tokens(), 1_800_000);
    assert_eq!(Usage::default().total_tokens(), 0);
}

#[test]
fn usage_is_read_with_defaults() {
    assert_eq!(usage("{}"), Some(Usage::default()));
    assert_eq!(
        usage(r#"{"output_tokens":4294967295,"cache_read_input_tokens":3,"other":"x"}"#),
        Some(Usage {
            output_tokens: u32::MAX,
            cache_read_input_tokens: 3,
            ..Usage::default()
        })
    );
    assert_eq!(
        usage("[1,2]"),
        Some(Usage {
            input_tokens: 1,
            cache_creation_input_tokens: 2,
            ..Usage::default()
        })
    );
    assert_eq!(usage(r#"{"output_tokens":4294967296}"#), None);
    assert_eq!(usage(r#"{"output_tokens":-1}"#), None);
    assert_eq!(usage(r#"{"output_tokens":1.0}"#), None);
    assert_eq!(usage(r#"{"output_tokens":null}"#), None);
    assert_eq!(usage("[1,2,3,4,5]"), None);
    assert_eq!(usage("null"), None);
}

#[test]
fn answer_is_read_with_its_fields() {
    let response = MessageResponse::from_value(value(
        r#"{"id":"a","type":"message","role":"assistant","content":[],"model":"m",
            "stop_reason":"end_turn","stop_sequence":null,
            "usage":{"input_tokens":1,"output_tokens":2},"request_id":"r"}"#,
    ))
    .unwrap();
    assert_eq!(
        response,
        MessageResponse {
            id: "a".to_string(),
            kind: "message".to_string(),
            role: "assistant".to_string(),
            content: vec![],
            model: "m".to_string(),
            stop_reason: Some("end_turn".to_string()),
            stop_sequence: None,
            usage: Usage { input_tokens: 1, output_tokens: 2, ..Usage::default() },
            request_id: Some("r".to_string()),
        }
    );
    assert_eq!(response.total_tokens(), 3);
}

#[test]
fn answer_with_a_malformed_field_is_refused() {
    let read = |text: &str| MessageResponse::from_value(value(text));
    assert!(read(r#"["a","message","assistant",[],"m"]"#).is_ok());
    assert!(read(r#"["a","message","assistant",[]]"#).is_err());
    assert!(read(r#"{"id":"a","type":"t","role":"r","content":[],"model":"m"}"#).is_ok());
    assert!(read(r#"{"id":"a","type":"t","role":"r","content":[]}"#).is_err());
    assert!(read(r#"{"id":1,"type":"t","role":"r","content":[],"model":"m"}"#).is_err());
    assert!(read(r#"{"id":"a","type":"t","role":"r","content":{},"model":"m"}"#).is_err());
    assert!(read(r#"{"id":"a","type":"t","role":"r","content":[{}],"model":"m"}"#).is_err());
    assert!(
        read(r#"{"id":"a","type":"t","role":"r","content":[],"model":"m","usage":null}"#).is_err()
    );
    assert!(
        read(r#"{"id":"a","type":"t","role":"r","content":[],"model":"m","stop_reason":1}"#)
            .is_err()
    );
    assert!(read("null").is_err());
}

/// What an exchange costs is computed elsewhere; the tokens that it is computed from are here.
#[test]
fn message_response_estimates_cost_from_model_usage() {
    let response = MessageResponse {
        id: "msg_cost".to_string(),
        kind: "message".to_string(),
        role: "assistant".to_string(),
        content: Vec::new(),
        model: "sonnet".to_string(),
        stop_reason: Some("end_turn".to_string()),
        stop_sequence: None,
        usage: Usage {
            input_tokens: 1_000_000,
            cache_creation_input_tokens: 100_000,
            cache_read_input_tokens: 200_000,
            output_tokens: 500_000,
        },
        request_id: None,
    };
    assert_eq!(response.usage.token_usage().total_tokens(), 1_800_000);
    assert_eq!(response.total_tokens(), 1_800_000);
}

#[test]
fn malformed_block_fails_an_answer() {
    let missing = BlockError::MissingField { field: "data".to_string() };
    let error =
        answer_error(r#"{"id":1,"content":[{"type":"x"},{"type":"redacted_thinking"},{}]}"#);
    assert_eq!(error, DecodeError::Content(missing.clone()));
    assert_eq!(error.message(), "missing field `data`");
    // In an array the fields before the content come first, those behind it do not.
    let error = answer_error(r#"["a","t","r",[{"type":"redacted_thinking"}],5]"#);
    assert_eq!(error, DecodeError::Content(missing));
}

#[test]
fn earlier_field_of_an_array_is_reported() {
    let number = DecodeError::InvalidType {
        found: Found::Unsigned(1),
        expected: "a string".to_string(),
    };
    assert_eq!(answer_error(r#"[1,"t","r",[{}]]"#), number);
    assert_eq!(answer_error(r#"["a",1,"r",[{}]]"#), number);
    assert_eq!(answer_error(r#"["a","t",1,[{}]]"#), number);
    assert_eq!(
        answer_error(r#"["a","t"]"#),
        DecodeError::InvalidLength {
            len: 2,
            expected: "struct MessageResponse with 9 elements".to_string(),
        }
    );
}

#[test]
fn malformed_fields_are_named() {
    let cases = [
        ("{}", "missing field `id`"),
        (r#"{"id":"a"}"#, "missing field `type`"),
        (r#"{"id":"a","type":"t","role":"r","model":"m"}"#, "missing field `content`"),
        (r#"{"id":"a","content":"x"}"#, "invalid type: string \"x\", expected a sequence"),
        (r#"{"id":null,"model":5}"#, "invalid type: null, expected a string"),
        (r#"{"model":5,"role":true}"#, "invalid type: integer `5`, expected a string"),
        (r#"{"stop_reason":[]}"#, "invalid type: sequence, expected a string"),
        (r#"{"usage":null}"#, "invalid type: null, expected struct Usage"),
        (r#"{"usage":{"output_tokens":-1}}"#, "invalid value: integer `-1`, expected u32"),
        ("true", "invalid type: boolean `true`, expected struct MessageResponse"),
        (
            r#"["a","t","r",[],"m",null,null,{},null,0]"#,
            "invalid length 10, expected fewer elements in array",
        ),
    ];
    for (text, words) in cases {
        assert_eq!(answer_error(text).message(), words, "{text}");
    }
}

/// `serde_json` words a count that is wrong in the same way.
#[test]
fn counts_are_worded_like_those_of_serde_json() {
    for found in [
        "null", "true", "-7", "4294967296", "[1]", "{\"a\":1}", "1.5", "3.0", "\"7\"",
        "\"a\\\"b\\n\\u0001 中\"",
    ] {
        let theirs = serde_json::from_value::<u32>(value(found)).unwrap_err();
        assert_eq!(usage_error(&format!("{{\"input_tokens\":{found}}}")), theirs.to_string());
    }
    // Of an object the keys decide, of an array the places.
    assert_eq!(
        usage_error(r#"{"input_tokens":null,"cache_read_input_tokens":true}"#),
        "invalid type: boolean `true`, expected u32"
    );
    assert_eq!(usage_error("[null,0,true]"), "invalid type: null, expected u32");
    assert_eq!(usage_error("[0,0,0,0,0]"), "invalid length 5, expected fewer elements in array");
}
