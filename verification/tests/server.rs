use zed_intellij::eula::sha256_hex;
use zed_intellij::install::{InstallAction, InstallEvent, InstallPhase, Installer};
use zed_intellij::json::Json;
use zed_intellij::server::{
    check_digest, install_candidate, is_stale, jetbrains_servers_root, launcher_name, launcher_path, lock_dir,
    lock_step, pinned_bundle, platform_key, resolve_proxy_path, resolve_server_dir, ServerDirPlan, system_path_for, working_dir, Arch,
    Bundle, LockStep, Os, ProxyPlan,
};

fn s(x: &str) -> Json {
    Json::Str(x.to_string())
}

fn obj(members: Vec<(&str, Json)>) -> Json {
    Json::Object(members.into_iter().map(|(k, v)| (k.to_string(), v)).collect())
}

fn bundles() -> Json {
    obj(vec![
        ("version", s("261.1")),
        (
            "platforms",
            obj(vec![(
                "linux-x86_64",
                obj(vec![
                    ("url", s("https://download.example/ij.tar.gz")),
                    ("archiveName", s("ij.tar.gz")),
                    ("sha256", s("ab")),
                ]),
            )]),
        ),
        ("releaseBaseUrl", s("https://github.example/releases")),
    ])
}

#[test]
fn platform_keys() {
    assert_eq!(platform_key(Os::Mac, Arch::Aarch64), Ok("darwin-aarch64".to_string()));
    assert_eq!(platform_key(Os::Linux, Arch::X8664), Ok("linux-x86_64".to_string()));
    assert_eq!(platform_key(Os::Windows, Arch::X8664), Ok("windows-x86_64".to_string()));
    assert_eq!(
        platform_key(Os::Linux, Arch::X86),
        Err("Unsupported architecture for intellij-server".to_string())
    );
}

#[test]
fn launcher_layout() {
    assert_eq!(launcher_name(Os::Windows), "intellij-server.exe");
    assert_eq!(launcher_name(Os::Linux), "intellij-server");
    assert_eq!(launcher_path("/w/servers/1", Os::Mac), "/w/servers/1/bin/intellij-server");
    assert_eq!(lock_dir("/w/servers", "1"), "/w/servers/.install-1.lock");
}

#[test]
fn pinned_bundle_reads_the_manifest() {
    let b = pinned_bundle(&Ok(bundles()), Os::Linux, Arch::X8664).unwrap();
    assert_eq!(b.version, "261.1");
    assert_eq!(b.url, "https://download.example/ij.tar.gz");
    assert_eq!(b.archive_name, "ij.tar.gz");
    assert_eq!(b.sha256, "ab");
    assert_eq!(
        pinned_bundle(&Ok(bundles()), Os::Mac, Arch::Aarch64).err(),
        Some("server-bundles.json: missing url for darwin-aarch64".to_string())
    );
    assert_eq!(
        pinned_bundle(&Ok(obj(vec![])), Os::Mac, Arch::Aarch64).err(),
        Some("server-bundles.json: missing version".to_string())
    );
    assert_eq!(
        pinned_bundle(&Err("EOF".to_string()), Os::Mac, Arch::Aarch64).err(),
        Some("Corrupt embedded server-bundles.json: EOF".to_string())
    );
}

#[test]
fn proxy_plans() {
    match resolve_proxy_path(Some("/opt/p"), &Err("bad".to_string()), Os::Linux, Arch::X86, Err("x".to_string())) {
        Ok(ProxyPlan::Configured(p)) => assert_eq!(p, "/opt/p"),
        _ => panic!("expected the configured proxy"),
    }
    let manifest = obj(vec![
        ("version", s("0.3.0")),
        ("platforms", obj(vec![("linux-x86_64", obj(vec![("sha256", s("cd"))]))])),
        ("releaseBaseUrl", s("https://r.example/v0.3.0")),
    ]);
    match resolve_proxy_path(None, &Ok(manifest.deep_clone()), Os::Linux, Arch::X8664, Ok("/w".to_string())) {
        Ok(ProxyPlan::Fetch(f)) => {
            assert_eq!(f.proxy_dir, "/w/proxy/0.3.0");
            assert_eq!(f.proxy_bin, "/w/proxy/0.3.0/ij-zed-proxy");
            assert_eq!(f.archive, "ij-zed-proxy-linux-x86_64");
            assert_eq!(f.download_path, "/w/proxy/0.3.0/ij-zed-proxy-linux-x86_64");
            assert_eq!(f.url.as_deref(), Some("https://r.example/v0.3.0/ij-zed-proxy-linux-x86_64"));
            assert_eq!(f.sha256, "cd");
        }
        _ => panic!("expected a fetch"),
    }
    assert!(matches!(
        resolve_proxy_path(None, &Ok(manifest.deep_clone()), Os::Mac, Arch::X8664, Ok("/w".to_string())),
        Ok(ProxyPlan::Unpublished)
    ));
    assert_eq!(
        resolve_proxy_path(None, &Ok(manifest), Os::Linux, Arch::X8664, Err("denied".to_string())).err(),
        Some("Cannot resolve extension working dir: denied".to_string())
    );
}

#[test]
fn digest_check() {
    let good = sha256_hex(b"payload");
    assert_eq!(check_digest("a.tgz", &good, b"payload"), Ok(()));
    let err = check_digest("a.tgz", "00", b"payload").unwrap_err();
    assert_eq!(err, format!("SHA-256 mismatch for a.tgz: expected 00, got {good}"));
}

#[test]
fn server_directories() {
    match resolve_server_dir(Some("/opt/ij/bin/intellij-server"), Os::Linux, Arch::X8664, &Err("unused".into()), Err("unused".into())) {
        Ok(ServerDirPlan::Configured(d)) => assert_eq!(d, "/opt/ij"),
        _ => panic!("expected the configured directory"),
    }
    assert_eq!(
        resolve_server_dir(Some("/"), Os::Linux, Arch::X8664, &Ok(bundles()), Ok("/w".into())).err(),
        Some("Expected the intellij-server binary at <server>/bin/intellij-server, got /".to_string())
    );
    match resolve_server_dir(None, Os::Linux, Arch::X8664, &Ok(bundles()), Ok("/w".into())) {
        Ok(ServerDirPlan::Pinned { bundle, workdir, local_dir }) => {
            assert_eq!(bundle.version, "261.1");
            assert_eq!(workdir, "/w");
            assert_eq!(local_dir, "/w/servers/261.1");
        }
        _ => panic!("expected the pinned bundle"),
    }
    assert_eq!(
        resolve_server_dir(None, Os::Linux, Arch::X86, &Ok(bundles()), Ok("/w".into())).err(),
        Some("Unsupported architecture for intellij-server".to_string())
    );
    assert_eq!(working_dir(Err("gone".to_string())), Err("Cannot resolve extension working dir: gone".to_string()));
    let env = vec![("HOME".to_string(), "/home/u".to_string())];
    assert_eq!(
        jetbrains_servers_root(Os::Linux, &env).as_deref(),
        Some("/home/u/.local/share/JetBrains/IntelliJServer/servers")
    );
    assert_eq!(
        jetbrains_servers_root(Os::Mac, &env).as_deref(),
        Some("/home/u/Library/Application Support/JetBrains/IntelliJServer/servers")
    );
    let win = vec![("LOCALAPPDATA".to_string(), "C:/Users/u/AppData/Local".to_string())];
    assert_eq!(
        jetbrains_servers_root(Os::Windows, &win).as_deref(),
        Some("C:/Users/u/AppData/Local/JetBrains/IntelliJServer/servers")
    );
    assert_eq!(jetbrains_servers_root(Os::Linux, &vec![]), None);
    assert_eq!(install_candidate("/d/pkg", "261.1"), "/d/pkg/261.1");
    let sp = system_path_for("/w", "/home/u/project");
    let hash = &sha256_hex(b"/home/u/project")[..16];
    assert_eq!(sp, format!("/w/system-path/{hash}"));
}

#[test]
fn install_lock_policy() {
    assert!(!is_stale(None));
    assert!(!is_stale(Some((600, 0))));
    assert!(is_stale(Some((600, 1))));
    assert!(is_stale(Some((601, 0))));
    assert!(matches!(lock_step(true, true, true), LockStep::Acquired));
    assert!(matches!(lock_step(false, true, true), LockStep::RemoveStale));
    assert!(matches!(lock_step(false, false, false), LockStep::Wait));
    match lock_step(false, false, true) {
        LockStep::GiveUp(m) => assert_eq!(m, "Timed out waiting for the intellij-server install lock"),
        _ => panic!("expected a timeout"),
    }
}

fn bundle(sha: &str) -> Bundle {
    Bundle {
        version: "261.1".to_string(),
        url: "https://d.example/ij.tgz".to_string(),
        archive_name: "ij.tgz".to_string(),
        sha256: sha.to_string(),
    }
}

#[test]
fn install_downloads_checks_and_installs() {
    let sha = sha256_hex(b"archive");
    let mut inst = Installer::new(bundle(&sha), "/w", Os::Linux);
    assert_eq!(inst.final_dir, "/w/servers/261.1");
    assert_eq!(inst.archive_path, "/w/downloads/ij.tgz");
    assert_eq!(inst.extract_dir, "/w/downloads/extract-261.1");
    assert!(matches!(inst.step(InstallEvent::Begin), InstallAction::AcquireLock));
    assert!(matches!(inst.step(InstallEvent::Locked(Ok(()))), InstallAction::CheckLauncher));
    assert!(matches!(inst.step(InstallEvent::LauncherExists(false)), InstallAction::CreateStaging));
    assert!(matches!(inst.step(InstallEvent::Staged(Ok(()))), InstallAction::ReportDownloading));
    assert!(matches!(inst.step(InstallEvent::Reported), InstallAction::Download));
    assert!(matches!(inst.step(InstallEvent::Downloaded(Err("reset".into()))), InstallAction::RetryAfter(2)));
    assert!(matches!(inst.step(InstallEvent::Waited), InstallAction::Download));
    assert!(matches!(inst.step(InstallEvent::Downloaded(Ok(()))), InstallAction::ReadArchive));
    assert!(matches!(inst.step(InstallEvent::Read(Ok(b"archive".to_vec()))), InstallAction::Extract));
    assert!(matches!(inst.step(InstallEvent::Extracted(Ok((Some(0), vec![])))), InstallAction::FindRoot));
    match inst.step(InstallEvent::Found(Some("/w/downloads/extract-261.1/ij".into()))) {
        InstallAction::Rename(d) => assert_eq!(d, "/w/downloads/extract-261.1/ij"),
        _ => panic!("expected a rename"),
    }
    assert!(matches!(inst.step(InstallEvent::Renamed(Ok(()))), InstallAction::MakeExecutable));
    assert_eq!(inst.final_launcher(), "/w/servers/261.1/bin/intellij-server");
    assert!(matches!(inst.step(InstallEvent::MadeExecutable(Ok(()))), InstallAction::Cleanup));
    match inst.step(InstallEvent::CleanedUp) {
        InstallAction::Done(Ok(d)) => assert_eq!(d, "/w/servers/261.1"),
        _ => panic!("expected success"),
    }
    assert_eq!(inst.phase, InstallPhase::Finished);
}

#[test]
fn install_gives_up_after_three_downloads() {
    let mut inst = Installer::new(bundle("00"), "/w", Os::Windows);
    inst.step(InstallEvent::Begin);
    inst.step(InstallEvent::Locked(Ok(())));
    inst.step(InstallEvent::LauncherExists(false));
    inst.step(InstallEvent::Staged(Ok(())));
    inst.step(InstallEvent::Reported);
    assert!(matches!(inst.step(InstallEvent::Downloaded(Err("a".into()))), InstallAction::RetryAfter(2)));
    inst.step(InstallEvent::Waited);
    assert!(matches!(inst.step(InstallEvent::Downloaded(Err("b".into()))), InstallAction::RetryAfter(4)));
    inst.step(InstallEvent::Waited);
    assert!(matches!(inst.step(InstallEvent::Downloaded(Err("c".into()))), InstallAction::Cleanup));
    match inst.step(InstallEvent::CleanedUp) {
        InstallAction::Done(Err(m)) => assert_eq!(m, "Failed to download https://d.example/ij.tgz after 3 attempts: c"),
        _ => panic!("expected a failure"),
    }
}

#[test]
fn install_failures() {
    let mut inst = Installer::new(bundle("00"), "/w", Os::Linux);
    inst.step(InstallEvent::Begin);
    match inst.step(InstallEvent::Locked(Err("Timed out".into()))) {
        InstallAction::Done(Err(m)) => assert_eq!(m, "Timed out"),
        _ => panic!("expected the lock error"),
    }

    let mut inst = Installer::new(bundle("00"), "/w", Os::Linux);
    inst.step(InstallEvent::Begin);
    inst.step(InstallEvent::Locked(Ok(())));
    match inst.step(InstallEvent::LauncherExists(true)) {
        InstallAction::Done(Ok(d)) => assert_eq!(d, "/w/servers/261.1"),
        _ => panic!("another process installed it"),
    }

    let mut inst = Installer::new(bundle("00"), "/w", Os::Linux);
    inst.step(InstallEvent::Begin);
    inst.step(InstallEvent::Locked(Ok(())));
    inst.step(InstallEvent::LauncherExists(false));
    inst.step(InstallEvent::Staged(Ok(())));
    inst.step(InstallEvent::Reported);
    inst.step(InstallEvent::Downloaded(Ok(())));
    assert!(matches!(inst.step(InstallEvent::Read(Ok(b"x".to_vec()))), InstallAction::Cleanup));
    match inst.step(InstallEvent::CleanedUp) {
        InstallAction::Done(Err(m)) => {
            assert_eq!(m, format!("SHA-256 mismatch for ij.tgz: expected 00, got {}", sha256_hex(b"x")))
        }
        _ => panic!("expected a digest failure"),
    }

    let sha = sha256_hex(b"x");
    let mut inst = Installer::new(bundle(&sha), "/w", Os::Linux);
    inst.step(InstallEvent::Begin);
    inst.step(InstallEvent::Locked(Ok(())));
    inst.step(InstallEvent::LauncherExists(false));
    inst.step(InstallEvent::Staged(Ok(())));
    inst.step(InstallEvent::Reported);
    inst.step(InstallEvent::Downloaded(Ok(())));
    inst.step(InstallEvent::Read(Ok(b"x".to_vec())));
    inst.step(InstallEvent::Extracted(Ok((Some(2), b"tar: bad".to_vec()))));
    match inst.step(InstallEvent::CleanedUp) {
        InstallAction::Done(Err(m)) => assert_eq!(m, "tar extraction failed: tar: bad"),
        _ => panic!("expected a tar failure"),
    }

    let mut inst = Installer::new(bundle(&sha), "/w", Os::Linux);
    for e in [
        InstallEvent::Begin,
        InstallEvent::Locked(Ok(())),
        InstallEvent::LauncherExists(false),
        InstallEvent::Staged(Ok(())),
        InstallEvent::Reported,
        InstallEvent::Downloaded(Ok(())),
        InstallEvent::Read(Ok(b"x".to_vec())),
        InstallEvent::Extracted(Ok((Some(0), vec![]))),
        InstallEvent::Found(Some("/w/downloads/extract-261.1/ij".into())),
    ] {
        inst.step(e);
    }
    assert!(matches!(inst.step(InstallEvent::Renamed(Err("busy".into()))), InstallAction::CheckLauncher));
    inst.step(InstallEvent::LauncherExists(false));
    match inst.step(InstallEvent::CleanedUp) {
        InstallAction::Done(Err(m)) => assert_eq!(m, "Cannot install server to /w/servers/261.1: busy"),
        _ => panic!("expected a rename failure"),
    }
}
