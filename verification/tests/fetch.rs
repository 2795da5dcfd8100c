use zed_intellij::fetch::{FetchAction, FetchEvent, FetchPhase, ProxyFetcher};
use zed_intellij::server::{Os, ProxyFetch};

const ABC_SHA256: &str = "ba7816bf8f01cfea414140de5dae2223b00361a396177a9cb410ff61f20015ad";

fn release(url: Option<&str>) -> ProxyFetch {
    ProxyFetch {
        proxy_dir: "/w/proxy/1.2".to_string(),
        proxy_bin: "/w/proxy/1.2/ij-zed-proxy".to_string(),
        archive: "ij-zed-proxy-linux-x64".to_string(),
        download_path: "/w/proxy/1.2/ij-zed-proxy-linux-x64".to_string(),
        url: url.map(str::to_string),
        sha256: ABC_SHA256.to_string(),
    }
}

fn done(a: FetchAction) -> Option<String> {
    match a {
        FetchAction::Done(p) => p,
        _ => panic!("expected the end of the fetch"),
    }
}

#[test]
fn existing_proxy_is_used_without_status() {
    let mut f = ProxyFetcher::new(release(Some("https://r/ij-zed-proxy-linux-x64")), Os::Linux, true);
    assert!(matches!(f.step(FetchEvent::Begin), FetchAction::CheckExisting));
    assert_eq!(done(f.step(FetchEvent::Exists(true))), Some("/w/proxy/1.2/ij-zed-proxy".to_string()));
    assert_eq!(f.phase, FetchPhase::Finished);
}

#[test]
fn verified_download_is_installed() {
    let mut f = ProxyFetcher::new(release(Some("https://r/ij-zed-proxy-linux-x64")), Os::Linux, true);
    assert!(matches!(f.step(FetchEvent::Begin), FetchAction::CheckExisting));
    assert!(matches!(f.step(FetchEvent::Exists(false)), FetchAction::ReportDownloading));
    assert!(matches!(f.step(FetchEvent::Reported), FetchAction::CreateDir));
    match f.step(FetchEvent::Created(Ok(()))) {
        FetchAction::Download(url) => assert_eq!(url, "https://r/ij-zed-proxy-linux-x64"),
        _ => panic!("expected a download"),
    }
    assert!(matches!(f.step(FetchEvent::Downloaded(Ok(()))), FetchAction::ReadDownload));
    assert!(matches!(f.step(FetchEvent::Read(Ok(b"abc".to_vec()))), FetchAction::MakeExecutable));
    assert!(f.verified);
    assert!(matches!(f.step(FetchEvent::MadeExecutable(Ok(()))), FetchAction::Rename));
    assert!(matches!(f.step(FetchEvent::Renamed(Ok(()))), FetchAction::ClearStatus));
    assert_eq!(done(f.step(FetchEvent::Cleared)), Some("/w/proxy/1.2/ij-zed-proxy".to_string()));
}

#[test]
fn digest_mismatch_removes_download_and_runs_directly() {
    let mut f = ProxyFetcher::new(release(Some("https://r/x")), Os::Mac, true);
    f.step(FetchEvent::Begin);
    f.step(FetchEvent::Exists(false));
    f.step(FetchEvent::Reported);
    f.step(FetchEvent::Created(Ok(())));
    f.step(FetchEvent::Downloaded(Ok(())));
    assert!(matches!(f.step(FetchEvent::Read(Ok(b"abd".to_vec()))), FetchAction::RemoveDownload));
    assert!(!f.verified);
    match &f.outcome {
        Err(m) => {
            assert!(m.starts_with(&format!("SHA-256 mismatch for ij-zed-proxy-linux-x64: expected {ABC_SHA256}, got ")), "{m}");
            assert!(!m.ends_with(ABC_SHA256), "{m}");
        }
        Ok(_) => panic!("expected a failure"),
    }
    assert!(matches!(f.step(FetchEvent::Removed), FetchAction::ClearStatus));
    assert_eq!(done(f.step(FetchEvent::Cleared)), None);
}

#[test]
fn windows_skips_chmod_and_failures_degrade() {
    let mut f = ProxyFetcher::new(release(Some("https://r/x")), Os::Windows, false);
    f.step(FetchEvent::Begin);
    assert!(matches!(f.step(FetchEvent::Exists(false)), FetchAction::CreateDir));
    f.step(FetchEvent::Created(Ok(())));
    f.step(FetchEvent::Downloaded(Ok(())));
    assert!(matches!(f.step(FetchEvent::Read(Ok(b"abc".to_vec()))), FetchAction::Rename));
    assert_eq!(done(f.step(FetchEvent::Renamed(Err("busy".to_string())))), None);
    assert_eq!(f.outcome, Err("busy".to_string()));
}

#[test]
fn missing_release_url_degrades() {
    let mut f = ProxyFetcher::new(release(None), Os::Linux, false);
    f.step(FetchEvent::Begin);
    f.step(FetchEvent::Exists(false));
    assert_eq!(done(f.step(FetchEvent::Created(Ok(())))), None);
    assert_eq!(f.outcome, Err("proxy-bundles.json: missing releaseBaseUrl".to_string()));
    let mut g = ProxyFetcher::new(release(Some("https://r/x")), Os::Linux, false);
    g.step(FetchEvent::Begin);
    g.step(FetchEvent::Exists(false));
    assert_eq!(done(g.step(FetchEvent::Created(Err("denied".to_string())))), None);
    g = ProxyFetcher::new(release(Some("https://r/x")), Os::Linux, false);
    g.step(FetchEvent::Begin);
    g.step(FetchEvent::Exists(false));
    g.step(FetchEvent::Created(Ok(())));
    assert_eq!(done(g.step(FetchEvent::Downloaded(Err("404".to_string())))), None);
    assert_eq!(g.outcome, Err("404".to_string()));
}
