use zed_intellij::config::LaunchConfig;
use zed_intellij::extension::{
    check_adapter, check_server_id, dap_binary, dap_request_kind, eula_gate, initialization_options, server_command,
    workspace_configuration, CommandInputs, DapRequest,
};
use zed_intellij::json::{to_json_text, Json};
use zed_intellij::server::Os;

/// The compact text serde_json prints for the document `text`.
fn canon(text: &str) -> String {
    serde_json::from_str::<serde_json::Value>(text).unwrap().to_string()
}

fn s(x: &str) -> Json {
    Json::Str(x.to_string())
}

fn obj(members: Vec<(&str, Json)>) -> Json {
    Json::Object(members.into_iter().map(|(k, v)| (k.to_string(), v)).collect())
}

fn launch(accept: bool) -> LaunchConfig {
    LaunchConfig {
        accept_eula: accept,
        jvm_args: vec!["-Xmx2g".to_string()],
        data_sharing: None,
        region: None,
        proxy_path: None,
    }
}

fn inputs(proxy: Option<&str>, eula: Result<&str, &str>) -> CommandInputs {
    CommandInputs {
        server_dir: "/w/servers/1".to_string(),
        os: Os::Linux,
        system_path: "/w/system-path/abc".to_string(),
        proxy: proxy.map(str::to_string),
        eula_hash: eula.map(str::to_string).map_err(str::to_string),
        extra_args: Some(vec!["--verbose".to_string()]),
        user_env: Some(vec![("A".to_string(), "1".to_string())]),
        workdir: Ok("/w".to_string()),
    }
}

#[test]
fn ids_are_checked() {
    assert_eq!(check_server_id("intellij-server"), Ok(()));
    assert_eq!(check_server_id("jdtls"), Err("Unknown language server: jdtls".to_string()));
    assert_eq!(check_adapter("intellij-debugger"), Ok(()));
    assert_eq!(check_adapter("x"), Err("Unknown debug adapter: x".to_string()));
}

#[test]
fn eula_must_be_accepted() {
    assert_eq!(eula_gate(&launch(true), "/w/servers/1"), Ok(()));
    let err = eula_gate(&launch(false), "/w/servers/1").unwrap_err();
    assert!(err.contains("/w/servers/1/EULA.txt"), "{err}");
}

#[test]
fn direct_server_command() {
    let c = server_command(&launch(true), inputs(None, Ok("0123456789abcdef"))).unwrap();
    assert_eq!(c.command, "/w/servers/1/bin/intellij-server");
    assert_eq!(
        c.args,
        vec!["--stdio", "--system-path", "/w/system-path/abc", "--eula", "0123456789abcdef", "--verbose"]
            .into_iter()
            .map(String::from)
            .collect::<Vec<_>>()
    );
    assert_eq!(
        c.env,
        vec![("IJ_JAVA_OPTIONS".to_string(), "-Xmx2g".to_string()), ("A".to_string(), "1".to_string())]
    );
}

#[test]
fn proxied_server_command() {
    let c = server_command(&launch(true), inputs(Some("/p/ij-zed-proxy"), Err("Cannot read"))).unwrap();
    assert_eq!(c.command, "/p/ij-zed-proxy");
    assert_eq!(
        c.args,
        vec!["--log", "/w/proxy.log", "--", "/w/servers/1/bin/intellij-server", "--stdio", "--system-path", "/w/system-path/abc", "--verbose"]
            .into_iter()
            .map(String::from)
            .collect::<Vec<_>>()
    );
    let err = server_command(&launch(true), inputs(None, Err("Cannot read /x"))).err().unwrap();
    assert!(err.starts_with("Cannot read /x\nThe EULA is not readable from the extension sandbox."), "{err}");
}

#[test]
fn initialization_options_merge() {
    assert!(initialization_options("other", None).is_none());
    let base = initialization_options("intellij-server", None).unwrap();
    assert_eq!(to_json_text(&base), canon(r#"{"projects":[],"disableRocksDBWriteAheadLog":false}"#));
    let user = obj(vec![("disableRocksDBWriteAheadLog", Json::Bool(true)), ("defaultSdk", s("21"))]);
    let merged = initialization_options("intellij-server", Some(user)).unwrap();
    assert_eq!(to_json_text(&merged), canon(r#"{"projects":[],"disableRocksDBWriteAheadLog":true,"defaultSdk":"21"}"#));
    let ignored = initialization_options("intellij-server", Some(s("x"))).unwrap();
    assert_eq!(ignored, base);
    assert_eq!(workspace_configuration("intellij-server", Some(Json::UInt(1))), Some(Json::UInt(1)));
    assert_eq!(workspace_configuration("other", Some(Json::UInt(1))), None);
}

#[test]
fn debug_requests() {
    let launch_cfg = obj(vec![("request", s("launch"))]);
    assert_eq!(dap_request_kind("intellij-debugger", &launch_cfg), Ok(DapRequest::Launch));
    assert_eq!(dap_request_kind("intellij-debugger", &obj(vec![("request", s("attach"))])), Ok(DapRequest::Attach));
    assert_eq!(
        dap_request_kind("intellij-debugger", &obj(vec![("request", s("run"))])),
        Err(r#"Unexpected `request` value in debug configuration: "run""#.to_string())
    );
    assert_eq!(
        dap_request_kind("intellij-debugger", &obj(vec![("request", Json::UInt(1))])),
        Err("Unexpected `request` value in debug configuration: 1".to_string())
    );
    assert_eq!(
        dap_request_kind("intellij-debugger", &obj(vec![])),
        Err("Missing `request` in debug configuration".to_string())
    );
    assert_eq!(dap_request_kind("x", &launch_cfg), Err("Unknown debug adapter: x".to_string()));

    let b = dap_binary(Some("/p/proxy".into()), "/w/sp", "/home/u/my proj", canon(r#"{"request":"launch"}"#).into(), Ok(launch_cfg)).unwrap();
    assert_eq!(b.command, "/p/proxy");
    assert_eq!(
        b.arguments,
        vec!["--dap", "--system-path", "/w/sp", "--root-uri", "file:///home/u/my%20proj"]
            .into_iter()
            .map(String::from)
            .collect::<Vec<_>>()
    );
    assert_eq!(b.cwd, "/home/u/my proj");
    assert_eq!(b.request, DapRequest::Launch);
    assert!(dap_binary(None, "/w/sp", "/r", "{}".into(), Ok(obj(vec![]))).err().unwrap().starts_with("Debugging requires ij-zed-proxy"));
    assert_eq!(
        dap_binary(Some("/p".into()), "/w/sp", "/r", "{".into(), Err("EOF".into())).err(),
        Some("Invalid debug configuration JSON: EOF".to_string())
    );
}

#[test]
fn server_command_refuses_without_eula() {
    let err = match server_command(&launch(false), inputs(None, Ok("0123456789abcdef"))) {
        Err(e) => e,
        Ok(_) => panic!("a server command without an accepted EULA"),
    };
    assert!(err.contains("/w/servers/1/EULA.txt"), "{err}");
    assert_eq!(err, eula_gate(&launch(false), "/w/servers/1").unwrap_err());
}
