use zed_intellij::json::{to_json_text, Json};
use zed_intellij::router::{
    call_result, choice_command, client_message_supported, decompile_params, decompiled, import_log,
    license_discovery_log_line, license_discovery_params, nav_response, nav_targets, reload_log_line, reload_params, timeout_error, ClientStep, Router, ServerStep,
};

/// The compact text serde_json prints for the document `text`.
fn canon(text: &str) -> String {
    serde_json::from_str::<serde_json::Value>(text).unwrap().to_string()
}

fn s(x: &str) -> Json {
    Json::Str(x.to_string())
}

fn obj(members: Vec<(&str, Json)>) -> Json {
    Json::Object(members.into_iter().map(|(k, v)| (k.to_string(), v)).collect())
}

fn text(j: &Json) -> String {
    to_json_text(j)
}

#[test]
fn plain_traffic_passes_through() {
    let mut r = Router::new();
    let body = br#"{"jsonrpc":"2.0","id":3,"result":null}"#;
    assert!(matches!(r.client_to_server(body, None), ClientStep::ForwardRaw));
    assert!(matches!(r.server_to_client(body, None), ServerStep::ForwardRaw));
    let notif = obj(vec![("jsonrpc", s("2.0")), ("method", s("textDocument/didOpen"))]);
    let nb = br#"{"jsonrpc":"2.0","method":"textDocument/didOpen"}"#;
    assert!(matches!(r.client_to_server(nb, Some(notif)), ClientStep::ForwardRaw));
}

#[test]
fn initialize_turns_on_extensions() {
    let mut r = Router::new();
    let msg = obj(vec![
        ("id", Json::UInt(1)),
        ("method", s("initialize")),
        ("params", obj(vec![("initializationOptions", obj(vec![("projects", Json::Array(vec![]))]))])),
    ]);
    let body = br#"{"id":1,"method":"initialize","params":{"initializationOptions":{"projects":[]}}}"#;
    assert!(client_message_supported(body, &Some(msg.deep_clone())));
    match r.client_to_server(body, Some(msg)) {
        ClientStep::Forward(m) => assert_eq!(
            text(&m),
            canon(r#"{"id":1,"method":"initialize","params":{"initializationOptions":{"projects":[],"intellijExtensions":true}}}"#)
        ),
        _ => panic!("expected a rewritten initialize"),
    }
    assert_eq!(text(&r.init_options), canon(r#"{"projects":[],"intellijExtensions":true}"#));

    let mut r = Router::new();
    let msg = obj(vec![("id", Json::UInt(1)), ("method", s("initialize")), ("params", obj(vec![("initializationOptions", s("x"))]))]);
    match r.client_to_server(br#"{"method":"initialize"}"#, Some(msg)) {
        ClientStep::Forward(m) => assert_eq!(
            text(&m),
            canon(r#"{"id":1,"method":"initialize","params":{"initializationOptions":{"intellijExtensions":true}}}"#)
        ),
        _ => panic!("expected a rewritten initialize"),
    }
    let odd = obj(vec![("method", s("initialize")), ("params", Json::UInt(1))]);
    assert!(!client_message_supported(br#"{"method":"initialize"}"#, &Some(odd)));
}

#[test]
fn build_file_save_reloads() {
    let mut r = Router::new();
    let save = |uri: &str| {
        obj(vec![
            ("method", s("textDocument/didSave")),
            ("params", obj(vec![("textDocument", obj(vec![("uri", s(uri))]))])),
        ])
    };
    let body = br#"{"method":"textDocument/didSave"}"#;
    assert!(matches!(r.client_to_server(body, Some(save("file:///p/build.gradle.kts"))), ClientStep::ForwardRawThenReload(_)));
    assert!(matches!(r.client_to_server(body, Some(save("file:///p/src/A.java"))), ClientStep::ForwardRaw));
}

#[test]
fn navigation_responses_are_tracked() {
    let mut r = Router::new();
    let req = obj(vec![("id", Json::UInt(7)), ("method", s("textDocument/definition"))]);
    assert!(matches!(r.client_to_server(br#"{"id":7,"method":"textDocument/definition"}"#, Some(req)), ClientStep::ForwardRaw));
    assert_eq!(r.nav_requests, vec!["7".to_string()]);
    let resp = obj(vec![("id", Json::UInt(7)), ("result", obj(vec![("uri", s("jar:///x!/A.class"))]))]);
    let body = br#"{"id":7,"result":{"uri":"jar:///x!/A.class"}}"#;
    match r.server_to_client(body, Some(resp.deep_clone())) {
        ServerStep::Navigation(id) => assert_eq!(id, Json::UInt(7)),
        _ => panic!("expected a navigation response"),
    }
    assert!(r.nav_requests.is_empty());
    assert!(matches!(r.server_to_client(body, Some(resp)), ServerStep::ForwardRaw));
}

#[test]
fn proxy_requests_and_responses() {
    let mut r = Router::new();
    let (id, req) = r.begin_server_call("workspace/executeCommand", obj(vec![]));
    assert_eq!(id, "ij-proxy:1");
    assert_eq!(text(&req), canon(r#"{"jsonrpc":"2.0","id":"ij-proxy:1","method":"workspace/executeCommand","params":{}}"#));
    let resp = obj(vec![("id", s("ij-proxy:1")), ("result", Json::UInt(5))]);
    let body = br#"{"id":"ij-proxy:1","result":5}"#;
    match r.server_to_client(body, Some(resp.deep_clone())) {
        ServerStep::Deliver(d) => assert_eq!(d, "ij-proxy:1"),
        _ => panic!("expected a delivery"),
    }
    assert!(matches!(r.server_to_client(body, Some(resp)), ServerStep::Swallow));
    assert_eq!(call_result("m", &obj(vec![("result", Json::UInt(5))])), Ok(Json::UInt(5)));
    assert_eq!(call_result("m", &obj(vec![])), Ok(Json::Null));
    assert_eq!(
        call_result("decompile", &obj(vec![("error", obj(vec![("code", Json::NegInt(-32600))]))])),
        Err(r#"decompile failed: {"code":-32600}"#.to_string())
    );
    assert_eq!(timeout_error("decompile"), "timeout waiting for decompile");
}

#[test]
fn choose_action_round_trip() {
    let mut r = Router::new();
    let ask = obj(vec![
        ("method", s("intellij/chooseAction")),
        (
            "params",
            obj(vec![
                ("sessionId", Json::UInt(9)),
                ("title", s("Pick")),
                (
                    "entries",
                    Json::Array(vec![
                        obj(vec![("name", s("Import")), ("index", Json::UInt(0))]),
                        obj(vec![("name", s("Ignore")), ("index", Json::UInt(1))]),
                    ]),
                ),
            ]),
        ),
    ]);
    match r.server_to_client(br#"{"method":"intellij/chooseAction"}"#, Some(ask)) {
        ServerStep::Send(msgs) => {
            assert_eq!(msgs.len(), 1);
            assert_eq!(
                text(&msgs[0]),
                canon(r#"{"jsonrpc":"2.0","id":"ij-proxy:1","method":"window/showMessageRequest","params":{"type":3,"message":"Pick","actions":[{"title":"Import"},{"title":"Ignore"}]}}"#)
            );
        }
        _ => panic!("expected a message request"),
    }
    let reply = obj(vec![("id", s("ij-proxy:1")), ("result", obj(vec![("title", s("Ignore"))]))]);
    match r.client_to_server(br#"{"id":"ij-proxy:1","result":{"title":"Ignore"}}"#, Some(reply)) {
        ClientStep::AnswerChoice(session, index) => {
            assert_eq!((session, index), (9, 1));
            assert_eq!(
                text(&choice_command(session, index)),
                canon(r#"{"command":"chooseModCommandAction","arguments":[9,1]}"#)
            );
        }
        _ => panic!("expected an answer"),
    }
    assert!(r.pending_client.is_empty());
    let dismissed = obj(vec![("id", s("ij-proxy:2")), ("result", Json::Null)]);
    assert!(matches!(r.client_to_server(br#"{"id":"ij-proxy:2"}"#, Some(dismissed)), ClientStep::Swallow));
    let no_session = obj(vec![("method", s("intellij/chooseAction")), ("params", obj(vec![]))]);
    assert!(matches!(r.server_to_client(br#"{"method":"intellij/chooseAction"}"#, Some(no_session)), ServerStep::Swallow));
}

#[test]
fn clipboard_and_import_log() {
    let mut r = Router::new();
    let copy = obj(vec![("method", s("intellij/copyToClipboard")), ("params", obj(vec![("content", s("hello"))]))]);
    match r.server_to_client(br#"{"method":"intellij/copyToClipboard"}"#, Some(copy)) {
        ServerStep::Clipboard(c) => assert_eq!(c, "hello"),
        _ => panic!("expected a clipboard update"),
    }
    let log = obj(vec![
        ("method", s("intellij/importLog")),
        ("params", obj(vec![("tool", s("Gradle")), ("message", s("sync")), ("failed", Json::Bool(true))])),
    ]);
    let msgs = import_log(&log);
    assert_eq!(msgs.len(), 2);
    assert_eq!(
        text(&msgs[0]),
        canon(r#"{"jsonrpc":"2.0","method":"window/logMessage","params":{"type":4,"message":"[Gradle] sync"}}"#)
    );
    assert_eq!(
        text(&msgs[1]),
        canon(r#"{"jsonrpc":"2.0","method":"window/showMessage","params":{"type":2,"message":"Gradle: Build Error"}}"#)
    );
    let started = obj(vec![("params", obj(vec![("message", s("go")), ("started", Json::Bool(true))]))]);
    let msgs = import_log(&started);
    assert_eq!(msgs.len(), 1);
    assert_eq!(text(&msgs[0]), canon(r#"{"jsonrpc":"2.0","method":"window/logMessage","params":{"type":4,"message":"Build: go"}}"#));
    assert!(import_log(&obj(vec![])).is_empty());
}

#[test]
fn navigation_rewrite() {
    let msg = obj(vec![("id", Json::UInt(4)), ("result", Json::Array(vec![obj(vec![("uri", s("jar:///x!/A.class"))])]))]);
    assert_eq!(nav_targets(&msg), vec!["jar:///x!/A.class".to_string()]);
    let resolved = vec![("jar:///x!/A.class".to_string(), "file:///c/A.java".to_string())];
    let out = nav_response(&msg, Json::UInt(4), &resolved).expect("rewritten");
    assert_eq!(text(&out), canon(r#"{"id":4,"result":[{"uri":"file:///c/A.java"}]}"#));
    assert!(nav_response(&msg, Json::UInt(4), &vec![]).is_none());
    assert!(nav_response(&obj(vec![("id", Json::UInt(4))]), Json::UInt(4), &resolved).is_none());
}

#[test]
fn helper_messages() {
    assert_eq!(text(&reload_params(obj(vec![]))), canon(r#"{"initializationOptions":{}}"#));
    assert_eq!(reload_log_line(&Ok(Json::Null)), "workspace reloaded after build file save");
    assert_eq!(reload_log_line(&Err("x".into())), "reloadWorkspace failed: x");
    assert_eq!(text(&decompile_params("jar:///a")), canon(r#"{"command":"decompile","arguments":["jar:///a"]}"#));
    assert_eq!(
        decompiled(&obj(vec![("code", s("class A {}")), ("language", s("kotlin"))])),
        Some(("class A {}".to_string(), "kotlin".to_string()))
    );
    assert_eq!(decompiled(&obj(vec![("code", s("x"))])), Some(("x".to_string(), "java".to_string())));
    assert_eq!(decompiled(&obj(vec![])), None);
}

#[test]
fn initialized_starts_license_discovery() {
    let mut r = Router::new();
    let msg = obj(vec![("jsonrpc", s("2.0")), ("method", s("initialized")), ("params", obj(vec![]))]);
    let body = br#"{"jsonrpc":"2.0","method":"initialized","params":{}}"#;
    assert!(matches!(r.client_to_server(body, Some(msg)), ClientStep::ForwardRawThenDiscoverLicense));
    assert_eq!(text(&license_discovery_params()), "{}");
    assert_eq!(
        license_discovery_log_line(&Ok(obj(vec![("activated", Json::Bool(true))]))),
        r#"license discovery: {"activated":true}"#
    );
    assert_eq!(license_discovery_log_line(&Err("timeout".to_string())), "license discovery failed: timeout");
}
