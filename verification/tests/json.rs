use claw_wire::json::{Json, JsonNumber};

fn parse(text: &str) -> Json {
    Json::from_value(serde_json::from_str(text).expect("valid JSON"))
}

fn s(text: &str) -> Json {
    Json::String(text.to_string())
}

#[test]
fn values_keep_everything_they_hold() {
    assert_eq!(parse("null"), Json::Null);
    assert_eq!(parse("true"), Json::Bool(true));
    assert_eq!(parse("18446744073709551615"), Json::Number(JsonNumber::Unsigned(u64::MAX)));
    assert_eq!(parse("-9223372036854775808"), Json::Number(JsonNumber::Negative(i64::MIN)));
    assert_eq!(
        parse("1.5"),
        Json::Number(JsonNumber::Float { digits: "1.5".to_string() })
    );
    assert_eq!(
        parse("-2.50"),
        Json::Number(JsonNumber::Float { digits: "-2.5".to_string() })
    );
    assert_eq!(parse("\"a\\n中\""), s("a\n中"));
    assert_eq!(
        parse("[1,[],{\"b\":[false],\"a\":{}}]"),
        Json::Array(vec![
            Json::Number(JsonNumber::Unsigned(1)),
            Json::Array(vec![]),
            Json::Object(vec![
                ("a".to_string(), Json::Object(vec![])),
                ("b".to_string(), Json::Array(vec![Json::Bool(false)])),
            ]),
        ])
    );
}

#[test]
fn members_are_found_by_key() {
    let json = parse("{\"type\":\"x\",\"n\":1}");
    assert_eq!(json.get("type"), Some(&s("x")));
    assert_eq!(json.get("type").unwrap().as_str(), Some("x"));
    assert_eq!(json.get("n").unwrap().as_str(), None);
    assert_eq!(json.get("missing"), None);
    assert_eq!(parse("[\"type\"]").get("type"), None);
    assert_eq!(Json::Null.get("type"), None);
}

#[test]
fn copies_are_equal() {
    let json = parse("{\"a\":[1,-1,2.5,null,true,\"s\",{\"b\":[[]]}]}");
    assert_eq!(json.clone(), json);
    let items = vec![json.clone(), Json::Null];
    assert_eq!(Json::copies(&items), items);
    assert_eq!(Json::array(vec![Json::Null]), Json::Array(vec![Json::Null]));
    assert_eq!(Json::object(vec![]), Json::Object(vec![]));
}
