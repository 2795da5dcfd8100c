use zed_intellij::json::{to_json_text, Json};

#[test]
fn compact_text() {
    assert_eq!(to_json_text(&Json::Null), "null");
    assert_eq!(to_json_text(&Json::Bool(false)), "false");
    assert_eq!(to_json_text(&Json::UInt(18446744073709551615)), "18446744073709551615");
    assert_eq!(to_json_text(&Json::NegInt(-9223372036854775808)), "-9223372036854775808");
    assert_eq!(to_json_text(&Json::Float("1.5".into())), "1.5");
    assert_eq!(to_json_text(&Json::Str("a\"b\\c\n\u{1}é".into())), "\"a\\\"b\\\\c\\n\\u0001é\"");
    assert_eq!(to_json_text(&Json::Array(vec![])), "[]");
    assert_eq!(
        to_json_text(&Json::Object(vec![("k".into(), Json::Array(vec![Json::UInt(1), Json::Null]))])),
        r#"{"k":[1,null]}"#
    );
}

#[test]
fn member_updates() {
    let mut v = Json::Object(vec![("a".into(), Json::UInt(1))]);
    v.set("a", Json::UInt(2));
    v.set("b", Json::Bool(true));
    assert_eq!(to_json_text(&v), r#"{"a":2,"b":true}"#);
    assert_eq!(v.get("b"), Some(&Json::Bool(true)));
    assert_eq!(v.get("c"), None);
    let mut n = Json::Null;
    n.set("x", Json::Null);
    assert_eq!(to_json_text(&n), r#"{"x":null}"#);
}
