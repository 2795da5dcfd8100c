use zed_intellij::dap::{
    dap_port, frame_decision, frame_supported, no_instance_error, start_debug_arguments, start_error_event, Control,
    EnrichStep, FrameDecision, LaunchEnricher,
};
use zed_intellij::json::{to_json_text, Json};

/// The compact text serde_json prints for the document `text`.
fn canon(text: &str) -> String {
    serde_json::from_str::<serde_json::Value>(text).unwrap().to_string()
}

fn s(x: &str) -> Json {
    Json::Str(x.to_string())
}

fn obj(members: Vec<(&str, Json)>) -> Json {
    Json::Object(members.into_iter().map(|(k, v)| (k.to_string(), v)).collect())
}

#[test]
fn control_requests_and_responses() {
    let mut c = Control::connect("tok");
    let r1 = c.request("start_debug_server", start_debug_arguments("file:///p"));
    assert_eq!(to_json_text(&r1), canon(r#"{"id":1,"token":"tok","command":"start_debug_server","arguments":["file:///p"]}"#));
    let r2 = c.request("x", Json::Null);
    assert_eq!(to_json_text(&r2), canon(r#"{"id":2,"token":"tok","command":"x","arguments":null}"#));
    assert_eq!(Control::execute_command("x", &obj(vec![("result", Json::UInt(1))])), Ok(Json::UInt(1)));
    assert_eq!(Control::execute_command("x", &obj(vec![("error", s("bad token"))])), Err(r#"x: "bad token""#.to_string()));
}

#[test]
fn ports_and_errors() {
    assert_eq!(dap_port(&Json::UInt(5005)), Ok(5005));
    assert_eq!(dap_port(&Json::UInt(70000)), Err("invalid DAP port 70000".to_string()));
    assert_eq!(dap_port(&s("5005")), Err("start_debug_server did not return a port".to_string()));
    assert_eq!(no_instance_error("/sys"), "no running intellij-server instance for /sys (is the language server up?)");
    assert_eq!(
        to_json_text(&start_error_event("boom")),
        canon(r#"{"seq":1,"type":"event","event":"output","body":{"category":"stderr","output":"ij-zed-proxy --dap: boom\n"}}"#)
    );
}

#[test]
fn initialize_gets_the_backend_adapter_id() {
    let init = obj(vec![("type", s("request")), ("command", s("initialize")), ("arguments", obj(vec![("adapterID", s("java"))]))]);
    assert!(frame_supported(&Some(init.deep_clone())));
    match frame_decision(Some(init)) {
        FrameDecision::Send(m) => assert_eq!(
            to_json_text(&m),
            canon(r#"{"type":"request","command":"initialize","arguments":{"adapterID":"intellij_debugger"}}"#)
        ),
        _ => panic!("expected a rewritten initialize"),
    }
    let bare = obj(vec![("type", s("request")), ("command", s("initialize"))]);
    match frame_decision(Some(bare)) {
        FrameDecision::Send(m) => assert_eq!(
            to_json_text(&m),
            canon(r#"{"type":"request","command":"initialize","arguments":{"adapterID":"intellij_debugger"}}"#)
        ),
        _ => panic!("expected a rewritten initialize"),
    }
    assert!(!frame_supported(&Some(obj(vec![("type", s("request")), ("command", s("initialize")), ("arguments", Json::UInt(1))]))));
    assert!(matches!(frame_decision(None), FrameDecision::Raw));
    assert!(matches!(frame_decision(Some(obj(vec![("type", s("event"))]))), FrameDecision::Raw));
    assert!(matches!(
        frame_decision(Some(obj(vec![("type", s("request")), ("command", s("launch"))]))),
        FrameDecision::Enrich(_)
    ));
}

fn call(step: EnrichStep) -> (String, String) {
    match step {
        EnrichStep::Call(c, a) => (c, to_json_text(&a)),
        EnrichStep::Done(m) => panic!("finished early: {}", to_json_text(&m)),
    }
}

#[test]
fn launch_is_enriched() {
    let launch = obj(vec![
        ("type", s("request")),
        ("command", s("launch")),
        ("arguments", obj(vec![("mainClass", s("com.x.Main")), ("javaExec", s("/jdk/bin/java"))])),
    ]);
    let mut e = LaunchEnricher::new(launch);
    assert_eq!(
        call(e.step(None)),
        ("intellij.java.resolveClassDocument".to_string(), canon(r#"[{"fqn":"com.x.Main"}]"#).to_string())
    );
    assert_eq!(
        call(e.step(Some(Ok(obj(vec![("uri", s("file:///p/Main.java"))]))))),
        ("intellij.java.resolveClasspath".to_string(), canon(r#"[{"uri":"file:///p/Main.java"}]"#).to_string())
    );
    let cp = obj(vec![("classpath", Json::Array(vec![s("/p/out")])), ("modulePath", Json::Array(vec![])), ("moduleName", s("app"))]);
    assert_eq!(
        call(e.step(Some(Ok(cp)))),
        ("intellij.java.resolveWorkingDirectory".to_string(), canon(r#"[{"uri":"file:///p/Main.java"}]"#).to_string())
    );
    match e.step(Some(Ok(obj(vec![("workingDirectory", s("/p"))])))) {
        EnrichStep::Done(m) => assert_eq!(
            to_json_text(&m),
            canon(r#"{"type":"request","command":"launch","arguments":{"mainClass":"com.x.Main","javaExec":"/jdk/bin/java","classPaths":["/p/out"],"modulePaths":[],"moduleName":"app","cwd":"/p"}}"#)
        ),
        _ => panic!("expected the finished request"),
    }
}

#[test]
fn launch_without_main_class_or_document() {
    let plain = obj(vec![("type", s("request")), ("command", s("launch")), ("arguments", obj(vec![]))]);
    let mut e = LaunchEnricher::new(plain.deep_clone());
    match e.step(None) {
        EnrichStep::Done(m) => assert_eq!(m, plain),
        _ => panic!("nothing to enrich"),
    }
    let with_file = obj(vec![("arguments", obj(vec![("mainClass", s("M")), ("file", s("/p/M.java")), ("cwd", s("/p")), ("javaExec", s("j"))]))]);
    let mut e = LaunchEnricher::new(with_file);
    assert_eq!(call(e.step(None)), ("intellij.java.resolveClasspath".to_string(), canon(r#"[{"uri":"file:///p/M.java"}]"#).to_string()));
    match e.step(Some(Err("no classpath".into()))) {
        EnrichStep::Done(m) => assert_eq!(
            to_json_text(&m),
            canon(r#"{"arguments":{"mainClass":"M","file":"/p/M.java","cwd":"/p","javaExec":"j"}}"#)
        ),
        _ => panic!("expected the request unchanged"),
    }
    let unresolved = obj(vec![("arguments", obj(vec![("mainClass", s("M"))]))]);
    let mut e = LaunchEnricher::new(unresolved.deep_clone());
    call(e.step(None));
    match e.step(Some(Err("not found".into()))) {
        EnrichStep::Done(m) => assert_eq!(m, unresolved),
        _ => panic!("expected the request unchanged"),
    }
}
