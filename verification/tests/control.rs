use zed_intellij::control::{call_reply, control_decision, fallback_token_bytes, session_file, token_hex, ControlDecision, SessionInfo};
use zed_intellij::json::{to_json_text, Json};

/// The compact text serde_json prints for the document `text`.
fn canon(text: &str) -> String {
    serde_json::from_str::<serde_json::Value>(text).unwrap().to_string()
}

fn s(x: &str) -> Json {
    Json::Str(x.to_string())
}

fn obj(members: Vec<(&str, Json)>) -> Json {
    Json::Object(members.into_iter().map(|(k, v)| (k.to_string(), v)).collect())
}

fn reply_text(d: ControlDecision) -> String {
    match d {
        ControlDecision::Reply(j) | ControlDecision::ClearCaches(j) | ControlDecision::Reload(j) => to_json_text(&j),
        ControlDecision::Call { .. } => panic!("unexpected call"),
    }
}

#[test]
fn rejects_bad_requests() {
    assert_eq!(reply_text(control_decision("t", None, true, true)), canon(r#"{"error":"invalid JSON"}"#));
    let req = obj(vec![("id", Json::UInt(1)), ("token", s("wrong")), ("command", s("x"))]);
    assert_eq!(reply_text(control_decision("t", Some(req), true, true)), canon(r#"{"id":1,"error":"bad token"}"#));
    let req = obj(vec![("command", s("x"))]);
    assert_eq!(reply_text(control_decision("t", Some(req), true, true)), canon(r#"{"id":null,"error":"bad token"}"#));
}

#[test]
fn maintenance_commands() {
    let req = |c: &str| obj(vec![("id", Json::UInt(2)), ("token", s("t")), ("command", s(c))]);
    assert_eq!(
        reply_text(control_decision("t", Some(req("__clear_caches_and_restart")), false, true)),
        canon(r#"{"id":2,"error":"server index directory unknown (not initialized?)"}"#)
    );
    assert!(matches!(control_decision("t", Some(req("__clear_caches_and_restart")), true, true), ControlDecision::ClearCaches(_)));
    assert_eq!(
        reply_text(control_decision("t", Some(req("__reload_workspace")), true, false)),
        canon(r#"{"id":2,"error":"server not initialized yet"}"#)
    );
    assert_eq!(
        reply_text(control_decision("t", Some(req("__reload_workspace")), true, true)),
        canon(r#"{"id":2,"result":"workspace reload requested"}"#)
    );
    assert_eq!(
        reply_text(control_decision("t", Some(req("__lsp")), true, true)),
        canon(r#"{"id":2,"error":"missing `method` for __lsp"}"#)
    );
}

#[test]
fn commands_go_to_the_server() {
    let req = obj(vec![("id", Json::UInt(3)), ("token", s("t")), ("command", s("start_debug_server")), ("arguments", Json::Array(vec![s("file:///p")]))]);
    match control_decision("t", Some(req), false, false) {
        ControlDecision::Call { id, method, params } => {
            assert_eq!(id, Json::UInt(3));
            assert_eq!(method, "workspace/executeCommand");
            assert_eq!(to_json_text(&params), canon(r#"{"command":"start_debug_server","arguments":["file:///p"]}"#));
        }
        _ => panic!("expected a call"),
    }
    let raw = obj(vec![("token", s("t")), ("command", s("__lsp")), ("method", s("jetbrains/licensing/state/get"))]);
    match control_decision("t", Some(raw), false, false) {
        ControlDecision::Call { id, method, params } => {
            assert_eq!(id, Json::Null);
            assert_eq!(method, "jetbrains/licensing/state/get");
            assert_eq!(params, Json::Null);
        }
        _ => panic!("expected a call"),
    }
    assert_eq!(to_json_text(&call_reply(Json::UInt(3), Ok(Json::UInt(5005)))), canon(r#"{"id":3,"result":5005}"#));
    assert_eq!(to_json_text(&call_reply(Json::UInt(3), Err("down".into()))), canon(r#"{"id":3,"error":"down"}"#));
}

#[test]
fn tokens_and_session_file() {
    assert_eq!(session_file("/sys"), "/sys/ij-zed-proxy.session.json");
    let bytes: Vec<u8> = (0u8..16).collect();
    assert_eq!(token_hex(&bytes), "000102030405060708090a0b0c0d0e0f");
    let seed = fallback_token_bytes(0x0102, 0x10);
    assert_eq!(seed, (0x0112u128).to_le_bytes().to_vec());
    let info = SessionInfo { port: 4000, token: "t".into(), pid: 7 };
    assert_eq!((info.port, info.pid), (4000, 7));
}
