use claw_wire::frame::{control_result_line, escape_json, event_line, field, ready_line};
use claw_wire::text::decimal_of;

#[test]
fn escapes_control_characters_in_payload() {
    // Text of the assistant holds line breaks and quotes; unescaped they would break the
    // protocol of one object per line.
    let escaped = escape_json("a\"b\\c\nd\te");
    assert_eq!(escaped, "a\\\"b\\\\c\\nd\\te");
}

#[test]
fn reads_fields_and_unescapes_them() {
    let line = "{\"token\":\"t\",\"kind\":\"ack\",\"messageId\":\"claw-1-2\"}";
    assert_eq!(field(line, "messageId").as_deref(), Some("claw-1-2"));
    // Escapes are resolved: otherwise a field with a quote would be cut off.
    let escaped = "{\"command\":\"a\\\"b\",\"requestId\":\"r1\"}";
    assert_eq!(field(escaped, "command").as_deref(), Some("a\"b"));
    assert_eq!(field(escaped, "requestId").as_deref(), Some("r1"));
    assert!(field(line, "missing").is_none());
}

#[test]
fn escapes_every_control_character() {
    assert_eq!(escape_json("\r"), "\\r");
    assert_eq!(escape_json("\u{0}\u{1}\u{1f}"), "\\u0000\\u0001\\u001f");
    assert_eq!(escape_json("\u{7f} 中"), "\u{7f} 中");
    assert_eq!(escape_json(""), "");
}

#[test]
fn field_without_its_end_is_not_read() {
    assert!(field("{\"a\":\"b", "a").is_none());
    assert!(field("{\"a\":\"b\\", "a").is_none());
    assert!(field("{\"a\":1}", "a").is_none());
    assert_eq!(field("{\"a\":\"\"}", "a").as_deref(), Some(""));
    assert_eq!(field("\"a\":\"1\",\"a\":\"2\"", "a").as_deref(), Some("1"));
    assert_eq!(field("{\"a\":\"\\n\\r\\t\\/\\u0001\"}", "a").as_deref(), Some("\n\r\t/u0001"));
}

#[test]
fn frames_have_their_fixed_shape() {
    assert_eq!(ready_line("t\"1"), "{\"token\":\"t\\\"1\",\"kind\":\"control_ready\"}\n");
    assert_eq!(
        event_line("t", "task_started", "a\nb", "claw-1-0"),
        "{\"token\":\"t\",\"kind\":\"task_started\",\"text\":\"a\\nb\",\"messageId\":\"claw-1-0\"}\n"
    );
    assert_eq!(
        control_result_line("t", "r1", true, "ok"),
        "{\"token\":\"t\",\"kind\":\"control_result\",\"requestId\":\"r1\",\"ok\":true,\"text\":\"ok\"}\n"
    );
    assert_eq!(
        control_result_line("t", "r1", false, ""),
        "{\"token\":\"t\",\"kind\":\"control_result\",\"requestId\":\"r1\",\"ok\":false,\"text\":\"\"}\n"
    );
}

#[test]
fn fields_of_a_frame_read_what_was_written() {
    let line = event_line("to\\ken", "assistant_final", "\"kind\":\"ack\",\n\"text\":\"x\"", "m");
    assert_eq!(field(&line, "token").as_deref(), Some("to\\ken"));
    assert_eq!(field(&line, "kind").as_deref(), Some("assistant_final"));
    assert_eq!(field(&line, "text").as_deref(), Some("\"kind\":\"ack\",\n\"text\":\"x\""));
    assert_eq!(field(&line, "messageId").as_deref(), Some("m"));
    assert_eq!(line.matches('\n').count(), 1);
    assert!(line.ends_with('\n'));
}

#[test]
fn decimal_digits_have_no_leading_zeros() {
    assert_eq!(decimal_of(0), "0");
    assert_eq!(decimal_of(10), "10");
    assert_eq!(decimal_of(18446744073709551615), "18446744073709551615");
}
