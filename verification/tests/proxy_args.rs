use zed_intellij::eula::sha256_hex;
use zed_intellij::proxy::{cache_root_for, contains, eula_args, eula_file_for, parse_args, system_path_of, Mode};

fn args(v: &[&str]) -> Vec<String> {
    v.iter().map(|s| s.to_string()).collect()
}

#[test]
fn parses_lsp_mode() {
    match parse_args(&args(&["--log", "/tmp/p.log", "--", "/s/bin/intellij-server", "--stdio"])) {
        Ok(Mode::Lsp { log_path, server_cmd }) => {
            assert_eq!(log_path.as_deref(), Some("/tmp/p.log"));
            assert_eq!(server_cmd, args(&["/s/bin/intellij-server", "--stdio"]));
        }
        _ => panic!("expected the LSP mode"),
    }
    match parse_args(&args(&["/s/bin/intellij-server", "--log", "x"])) {
        Ok(Mode::Lsp { log_path, server_cmd }) => {
            assert_eq!(log_path, None);
            assert_eq!(server_cmd, args(&["/s/bin/intellij-server", "--log", "x"]));
        }
        _ => panic!("expected the LSP mode"),
    }
}

#[test]
fn usage_errors() {
    let lsp_usage = "usage: ij-zed-proxy [--log <path>] -- <server-launcher> [server args...]".to_string();
    assert_eq!(parse_args(&args(&[])).err(), Some(lsp_usage.clone()));
    assert_eq!(parse_args(&args(&["--log", "a", "--"])).err(), Some(lsp_usage.clone()));
    assert_eq!(parse_args(&args(&["--log"])).err(), Some(lsp_usage));
    let dap_usage = "usage: ij-zed-proxy --dap --system-path <dir> --root-uri <uri>".to_string();
    assert_eq!(parse_args(&args(&["--dap", "--system-path", "/s"])).err(), Some(dap_usage.clone()));
    assert_eq!(
        parse_args(&args(&["--dap", "--root-uri", "file:///p", "--system-path"])).err(),
        Some(dap_usage)
    );
}

#[test]
fn parses_dap_mode() {
    match parse_args(&args(&["--dap", "--root-uri", "file:///p", "--verbose", "--system-path", "/s"])) {
        Ok(Mode::Dap(a)) => {
            assert_eq!(a.system_path, "/s");
            assert_eq!(a.root_uri, "file:///p");
        }
        _ => panic!("expected the DAP mode"),
    }
}

#[test]
fn eula_argument() {
    let cmd = args(&["/s/bin/intellij-server", "--stdio"]);
    assert_eq!(eula_file_for("/s/bin/intellij-server").as_deref(), Some("/s/bin/../EULA.txt"));
    assert_eq!(eula_args(&cmd, None), args(&["--stdio"]));
    let hash = sha256_hex(b"EULA")[..16].to_string();
    assert_eq!(eula_args(&cmd, Some(b"EULA".to_vec())), vec!["--stdio".to_string(), "--eula".to_string(), hash]);
    let given = args(&["/s/bin/intellij-server", "--eula", "0011"]);
    assert_eq!(eula_args(&given, Some(b"EULA".to_vec())), args(&["--eula", "0011"]));
}

#[test]
fn system_path_and_cache_root() {
    let cmd = args(&["/srv/ij-261/bin/intellij-server", "--stdio", "--system-path", "/sys/abc"]);
    assert_eq!(system_path_of(&cmd, "/tmp"), "/sys/abc");
    assert_eq!(cache_root_for(&cmd, "/tmp"), "/sys/abc/decompiled/ij-261");
    let bare = args(&["intellij-server", "--system-path"]);
    assert_eq!(system_path_of(&bare, "/tmp"), "/tmp/ij-zed-proxy");
    assert_eq!(cache_root_for(&bare, "/tmp"), "/tmp/ij-zed-proxy/decompiled/unknown");
}

#[test]
fn finds_byte_patterns() {
    assert!(contains(b"{\"method\":1}", b"\"method\""));
    assert!(contains(b"abc", b"abc"));
    assert!(!contains(b"ab", b"abc"));
    assert!(!contains(b"", b"a"));
    assert!(contains(b"xxjar:yy", b"jar:"));
}
