use std::hash::{Hash, Hasher};

use zed_intellij::control::{handle_request_line, ControlDecision};
use zed_intellij::dap::{frame_message, Control, FrameDecision};
use zed_intellij::extension::{dap_binary_for_config, DapRequest};
use zed_intellij::json::{parse_json, parse_json_text, to_json_bytes, to_json_text, Json};
use zed_intellij::rewrite::{cache_candidates, cache_path};
use zed_intellij::router::{ClientStep, Router, ServerStep};

fn s(x: &str) -> Json {
    Json::Str(x.to_string())
}

#[test]
fn numbers_are_read_as_integers_where_they_fit() {
    let v = parse_json(br#"[0, 7, 18446744073709551615, 18446744073709551616, -1, -9223372036854775808, -9223372036854775809, 1.5, -0, 2e3]"#)
        .unwrap();
    let Json::Array(items) = v else { panic!("not an array") };
    assert_eq!(items[0], Json::UInt(0));
    assert_eq!(items[1], Json::UInt(7));
    assert_eq!(items[2], Json::UInt(u64::MAX));
    assert!(matches!(&items[3], Json::Float(_)));
    assert_eq!(items[4], Json::NegInt(-1));
    assert_eq!(items[5], Json::NegInt(i64::MIN));
    assert!(matches!(&items[6], Json::Float(_)));
    assert_eq!(items[7], Json::Float("1.5".to_string()));
    assert!(matches!(&items[8], Json::Float(_)));
    assert!(matches!(&items[9], Json::Float(_)));
}

#[test]
fn documents_and_non_documents() {
    assert_eq!(parse_json(b"{\"b\":1,\"a\":[true,null,\"x\"]}"), Some(Json::Object(vec![
        ("a".to_string(), Json::Array(vec![Json::Bool(true), Json::Null, s("x")])),
        ("b".to_string(), Json::UInt(1)),
    ])));
    assert_eq!(parse_json(b"{\"a\":"), None);
    assert_eq!(parse_json(b""), None);
    assert!(parse_json_text("nope").is_err());
    assert_eq!(parse_json_text(" 5 "), Ok(Json::UInt(5)));
    assert_eq!(to_json_bytes(&parse_json(br#"{"z":1,"a":"\u00e9"}"#).unwrap()), "{\"a\":\"é\",\"z\":1}".as_bytes().to_vec());
    assert_eq!(to_json_text(&Json::NegInt(-3)), "-3");
}

#[test]
fn messages_from_their_bytes() {
    let mut r = Router::new();
    assert!(matches!(r.client_message(br#"{"jsonrpc":"2.0","id":1,"result":null}"#), Some(ClientStep::ForwardRaw)));
    assert!(matches!(r.client_message(b"not json \"method\""), Some(ClientStep::ForwardRaw)));
    assert!(r.client_message(br#"{"id":1,"method":"initialize","params":7}"#).is_none());
    match r.client_message(br#"{"id":1,"method":"initialize","params":{}}"#) {
        Some(ClientStep::Forward(m)) => assert_eq!(
            to_json_text(&m),
            r#"{"id":1,"method":"initialize","params":{"initializationOptions":{"intellijExtensions":true}}}"#
        ),
        _ => panic!("expected a rewritten initialize"),
    }
    assert!(matches!(
        r.client_message(br#"{"jsonrpc":"2.0","method":"initialized","params":{}}"#),
        Some(ClientStep::ForwardRawThenDiscoverLicense)
    ));
    assert!(matches!(r.server_message(br#"{"jsonrpc":"2.0","id":3,"result":null}"#), ServerStep::ForwardRaw));
    let (id, _) = r.begin_server_call("workspace/executeCommand", Json::Null);
    let reply = format!(r#"{{"jsonrpc":"2.0","id":"{id}","result":1}}"#);
    match r.server_message(reply.as_bytes()) {
        ServerStep::Deliver(got) => assert_eq!(got, id),
        _ => panic!("expected the reply to the proxy's own request"),
    }
}

#[test]
fn control_lines() {
    match handle_request_line("t", "garbage\n", true, true) {
        ControlDecision::Reply(j) => assert_eq!(to_json_text(&j), r#"{"error":"invalid JSON"}"#),
        _ => panic!("expected a reply"),
    }
    match handle_request_line("t", "{\"id\":4,\"token\":\"t\",\"command\":\"__reload_workspace\"}\n", true, true) {
        ControlDecision::Reload(j) => assert_eq!(to_json_text(&j), r#"{"id":4,"result":"workspace reload requested"}"#),
        _ => panic!("expected a reload"),
    }
    assert_eq!(Control::execute_command_line("x", "{\"result\":5}\n"), Ok(Json::UInt(5)));
    assert_eq!(Control::execute_command_line("x", "{\"error\":\"no\"}"), Err(r#"x: "no""#.to_string()));
    assert!(Control::execute_command_line("x", "").is_err());
}

#[test]
fn dap_frames_from_their_bytes() {
    assert!(matches!(frame_message(b"{\"type\":\"event\"}"), Some(FrameDecision::Raw)));
    assert!(matches!(frame_message(b"xx"), Some(FrameDecision::Raw)));
    assert!(frame_message(br#"{"type":"request","command":"initialize","arguments":3}"#).is_none());
    match frame_message(br#"{"type":"request","command":"initialize","arguments":{"adapterID":"java"}}"#) {
        Some(FrameDecision::Send(m)) => assert_eq!(
            to_json_text(&m),
            r#"{"arguments":{"adapterID":"intellij_debugger"},"command":"initialize","type":"request"}"#
        ),
        _ => panic!("expected a rewritten initialize"),
    }
    assert!(matches!(
        frame_message(br#"{"type":"request","command":"launch","arguments":{}}"#),
        Some(FrameDecision::Enrich(_))
    ));
}

#[test]
fn debug_configuration_text() {
    let b = dap_binary_for_config(Some("/x/proxy".into()), "/sys", "/w", r#"{"request":"attach"}"#.into()).unwrap();
    assert!(matches!(b.request, DapRequest::Attach));
    assert_eq!(b.command, "/x/proxy");
    assert_eq!(b.configuration, r#"{"request":"attach"}"#);
    let err = dap_binary_for_config(Some("/x/proxy".into()), "/sys", "/w", "{".into()).err().unwrap();
    assert!(err.starts_with("Invalid debug configuration JSON: "), "{err}");
    assert!(dap_binary_for_config(None, "/sys", "/w", "{}".into()).is_err());
}

#[test]
fn cache_candidates_java_then_kotlin() {
    let uri = "jar:///a/b.jar!/com/x/Foo.class";
    let c = cache_candidates("/c", uri);
    assert_eq!(c, vec![cache_path("/c", uri, "java"), cache_path("/c", uri, "kotlin")]);
    assert!(c[0].ends_with(".java") && c[1].ends_with(".kt"));
}

#[test]
fn cache_hash_is_the_std_hash_of_the_uri() {
    let uri = "jar:///a/b.jar!/com/x/Foo.class";
    let mut h = std::collections::hash_map::DefaultHasher::new();
    uri.hash(&mut h);
    let expected = format!("/c/com/x/Foo-{:08x}.java", h.finish() as u32);
    assert_eq!(cache_path("/c", uri, "java"), expected);
}
