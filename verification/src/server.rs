//! Acquisition of the `intellij-server` backend, in resolution order:
//! 1. user-configured `binary.path`;
//! 2. an existing JetBrains install of the pinned version (shared with VS Code);
//! 3. download from `download.jetbrains.com` (pinned version + SHA-256).
//!
//! Layout inside the extension working directory:
//!   servers/<version>/            extracted backend (bin/, jbr/, EULA.txt, …)
//!   servers/.install-<ver>.lock/  install lock (directory-based, stale after 10 min)
//!   downloads/                    download + extraction staging
//!   system-path/<hash>/           per-worktree `--system-path`
//!
//! The host calls (file system, downloads, processes) are made by the
//! caller; this module decides what to ask for and what the answers mean.

use vstd::prelude::*;
use crate::json::{Json, JsonV, jidx, jstr, opt_view};
use crate::paths::{join, path_join, grandparent, grandparent_of};
use crate::eula::{sha256_hex, sha256_of, hex_bytes};

use vstd::utf8::encode_utf8;

verus! {

broadcast use vstd::string::group_string_axioms;

/// Host operating system.
#[derive(Debug, Clone, Copy, PartialEq, Eq, Structural)]
pub enum Os {
    Mac,
    Linux,
    Windows,
}

/// Host CPU architecture.
#[derive(Debug, Clone, Copy, PartialEq, Eq, Structural)]
pub enum Arch {
    Aarch64,
    X86,
    X8664,
}

/// Key of the platform in the bundle manifests; `None` for an unsupported architecture.
pub open spec fn spec_platform_key(os: Os, arch: Arch) -> Option<Seq<char>> {
    let os_key = match os {
        Os::Mac => "darwin"@,
        Os::Linux => "linux"@,
        Os::Windows => "windows"@,
    };
    match arch {
        Arch::Aarch64 => Some(os_key + "-aarch64"@),
        Arch::X8664 => Some(os_key + "-x86_64"@),
        Arch::X86 => None,
    }
}

pub open spec fn unsupported_arch_message() -> Seq<char> {
    "Unsupported architecture for intellij-server"@
}

/// The platform key (`darwin-aarch64`, `linux-x86_64`, …).
pub fn platform_key(os: Os, arch: Arch) -> (r: Result<String, String>)
    ensures
        match spec_platform_key(os, arch) {
            Some(k) => r is Ok && r->Ok_0@ == k,
            None => r is Err && r->Err_0@ == unsupported_arch_message(),
        },
{
    let os_key = match os {
        Os::Mac => "darwin",
        Os::Linux => "linux",
        Os::Windows => "windows",
    };
    let mut key = String::from_str(os_key);
    match arch {
        Arch::Aarch64 => {
            key.append("-aarch64");
            Ok(key)
        },
        Arch::X8664 => {
            key.append("-x86_64");
            Ok(key)
        },
        Arch::X86 => Err(String::from_str("Unsupported architecture for intellij-server")),
    }
}

pub open spec fn spec_launcher_name(os: Os) -> Seq<char> {
    match os {
        Os::Windows => "intellij-server.exe"@,
        _ => "intellij-server"@,
    }
}

/// File name of the server launcher on `os`.
pub fn launcher_name(os: Os) -> (r: &'static str)
    ensures
        r@ == spec_launcher_name(os),
{
    match os {
        Os::Windows => "intellij-server.exe",
        _ => "intellij-server",
    }
}

pub open spec fn spec_launcher_path(server_dir: Seq<char>, os: Os) -> Seq<char> {
    path_join(path_join(server_dir, "bin"@), spec_launcher_name(os))
}

/// `<server_dir>/bin/<launcher>`.
pub fn launcher_path(server_dir: &str, os: Os) -> (r: String)
    ensures
        r@ == spec_launcher_path(server_dir@, os),
{
    let bin = join(server_dir, "bin");
    join(bin.as_str(), launcher_name(os))
}

pub open spec fn spec_proxy_name(os: Os) -> Seq<char> {
    match os {
        Os::Windows => "ij-zed-proxy.exe"@,
        _ => "ij-zed-proxy"@,
    }
}

/// File name of the proxy binary on `os`.
pub fn proxy_name(os: Os) -> (r: &'static str)
    ensures
        r@ == spec_proxy_name(os),
{
    match os {
        Os::Windows => "ij-zed-proxy.exe",
        _ => "ij-zed-proxy",
    }
}

/// A pinned server bundle: version, download URL, archive name and SHA-256.
pub struct Bundle {
    pub version: String,
    pub url: String,
    pub archive_name: String,
    pub sha256: String,
}

/// The text of `v[a][b]` (missing members read as `null`).
pub open spec fn str_at2(v: JsonV, a: Seq<char>, b: Seq<char>) -> Option<Seq<char>> {
    jstr(jidx(jidx(v, a), b))
}

/// The member `key` of `v` when it is a string.
fn member_text(v: Option<&Json>, key: &str) -> (r: Option<String>)
    ensures
        match r {
            Some(s) => jstr(jidx(opt_or_null(opt_view(v)), key@)) == Some(s@),
            None => jstr(jidx(opt_or_null(opt_view(v)), key@)) is None,
        },
{
    match v {
        Some(j) => match j.get(key) {
            Some(m) => match m.as_str() {
                Some(s) => Some(String::from_str(s)),
                None => None,
            },
            None => None,
        },
        None => None,
    }
}

/// An absent value read as `null`.
pub open spec fn opt_or_null(o: Option<JsonV>) -> JsonV {
    match o {
        Some(v) => v,
        None => JsonV::Null,
    }
}

/// `v[key]` as an optional reference (`None` for a missing member).
fn member<'a>(v: &'a Json, key: &str) -> (r: Option<&'a Json>)
    ensures
        opt_or_null(opt_view(r)) == jidx(v@, key@),
{
    v.get(key)
}

/// The four pieces of a bundle entry, or the message for the first one missing.
pub open spec fn spec_pinned_bundle(bundles: Result<JsonV, Seq<char>>, os: Os, arch: Arch)
    -> Result<(Seq<char>, Seq<char>, Seq<char>, Seq<char>), Seq<char>> {
    match bundles {
        Err(e) => Err("Corrupt embedded server-bundles.json: "@ + e),
        Ok(b) => match spec_platform_key(os, arch) {
            None => Err(unsupported_arch_message()),
            Some(key) => match jstr(jidx(b, "version"@)) {
                None => Err("server-bundles.json: missing version"@),
                Some(version) => {
                    let entry = jidx(jidx(b, "platforms"@), key);
                    match jstr(jidx(entry, "url"@)) {
                        None => Err("server-bundles.json: missing "@ + "url"@ + " for "@ + key),
                        Some(url) => match jstr(jidx(entry, "archiveName"@)) {
                            None => Err("server-bundles.json: missing "@ + "archiveName"@ + " for "@ + key),
                            Some(archive) => match jstr(jidx(entry, "sha256"@)) {
                                None => Err("server-bundles.json: missing "@ + "sha256"@ + " for "@ + key),
                                Some(sha) => Ok((version, url, archive, sha)),
                            },
                        },
                    }
                },
            },
        },
    }
}

pub open spec fn bundle_view(b: Bundle) -> (Seq<char>, Seq<char>, Seq<char>, Seq<char>) {
    (b.version@, b.url@, b.archive_name@, b.sha256@)
}

pub open spec fn json_result_view(r: &Result<Json, String>) -> Result<JsonV, Seq<char>> {
    match r {
        Ok(j) => Ok(j@),
        Err(e) => Err(e@),
    }
}

fn missing_field_message(field: &str, key: &str) -> (r: String)
    ensures
        r@ == "server-bundles.json: missing "@ + field@ + " for "@ + key@,
{
    let mut m = String::from_str("server-bundles.json: missing ");
    m.append(field);
    m.append(" for ");
    m.append(key);
    m
}

/// The bundle pinned for the platform in the parsed `server-bundles.json`
/// (or the text of its parse error).
pub fn pinned_bundle(bundles: &Result<Json, String>, os: Os, arch: Arch) -> (r: Result<Bundle, String>)
    ensures
        match r {
            Ok(b) => spec_pinned_bundle(json_result_view(bundles), os, arch) == Ok::<_, Seq<char>>(bundle_view(b)),
            Err(e) => spec_pinned_bundle(json_result_view(bundles), os, arch) == Err::<(Seq<char>, Seq<char>, Seq<char>, Seq<char>), Seq<char>>(e@),
        },
{
    let b = match bundles {
        Err(e) => {
            let mut m = String::from_str("Corrupt embedded server-bundles.json: ");
            m.append(e.as_str());
            return Err(m);
        },
        Ok(b) => b,
    };
    let key = match platform_key(os, arch) {
        Ok(k) => k,
        Err(e) => return Err(e),
    };
    let version = match member_text(Some(b), "version") {
        Some(v) => v,
        None => return Err(String::from_str("server-bundles.json: missing version")),
    };
    let platforms = member(b, "platforms");
    let entry = match platforms {
        Some(p) => member(p, key.as_str()),
        None => None,
    };
    assert(opt_or_null(opt_view(entry)) == jidx(jidx(b@, "platforms"@), key@));
    let url = match member_text(entry, "url") {
        Some(v) => v,
        None => return Err(missing_field_message("url", key.as_str())),
    };
    let archive_name = match member_text(entry, "archiveName") {
        Some(v) => v,
        None => return Err(missing_field_message("archiveName", key.as_str())),
    };
    let sha256 = match member_text(entry, "sha256") {
        Some(v) => v,
        None => return Err(missing_field_message("sha256", key.as_str())),
    };
    let r = Bundle { version, url, archive_name, sha256 };
    assert(bundle_view(r) == (version@, url@, archive_name@, sha256@));
    Ok(r)
}

// ---------------------------------------------------------------------------
// Working directory, server directory, proxy binary
// ---------------------------------------------------------------------------

/// The extension working directory, or the message for the error reading it.
pub fn working_dir(current_dir: Result<String, String>) -> (r: Result<String, String>)
    ensures
        match current_dir {
            Ok(d) => r is Ok && r->Ok_0@ == d@,
            Err(e) => r is Err && r->Err_0@ == "Cannot resolve extension working dir: "@ + e@,
        },
{
    match current_dir {
        Ok(d) => Ok(d),
        Err(e) => {
            let mut m = String::from_str("Cannot resolve extension working dir: ");
            m.append(e.as_str());
            Err(m)
        },
    }
}

/// The server directory of a configured launcher `<server>/bin/<launcher>`,
/// or the message explaining the expected layout.
fn server_dir_of_binary(binary_path: &str, os: Os) -> (r: Result<String, String>)
    ensures
        match grandparent_of(binary_path@) {
            Some(d) => r is Ok && r->Ok_0@ == d,
            None => r is Err && r->Err_0@ == "Expected the intellij-server binary at <server>/bin/"@
                + spec_launcher_name(os) + ", got "@ + binary_path@,
        },
{
    match grandparent(binary_path) {
        Some(d) => Ok(d),
        None => {
            let mut m = String::from_str("Expected the intellij-server binary at <server>/bin/");
            m.append(launcher_name(os));
            m.append(", got ");
            m.append(binary_path);
            Err(m)
        },
    }
}

/// Where the server directory comes from.
pub enum ServerDirPlan {
    /// The configured launcher's server directory, used as is.
    Configured(String),
    /// The pinned bundle: use `local_dir` when its launcher exists, else an
    /// install of the same version by another JetBrains client, else
    /// download and install it (see [`crate::install::Installer`]).
    Pinned { bundle: Bundle, workdir: String, local_dir: String },
}

/// Resolves the backend server directory (the one holding `bin/` and
/// `EULA.txt`): the configured `binary.path` (trusted as is: Zed spawns the
/// command on the host), else the pinned bundle of the parsed
/// `server-bundles.json`, installed under the extension working directory.
pub fn resolve_server_dir(
    binary_path: Option<&str>,
    os: Os,
    arch: Arch,
    bundles: &Result<Json, String>,
    current_dir: Result<String, String>,
) -> (r: Result<ServerDirPlan, String>)
    ensures
        match binary_path {
            Some(p) => match grandparent_of(p@) {
                Some(d) => r is Ok && r->Ok_0 is Configured && r->Ok_0->Configured_0@ == d,
                None => r is Err && r->Err_0@ == "Expected the intellij-server binary at <server>/bin/"@
                    + spec_launcher_name(os) + ", got "@ + p@,
            },
            None => match spec_pinned_bundle(json_result_view(bundles), os, arch) {
                Err(e) => r is Err && r->Err_0@ == e,
                Ok(b) => match current_dir {
                    Err(e) => r is Err && r->Err_0@ == "Cannot resolve extension working dir: "@ + e@,
                    Ok(w) => r is Ok && match r->Ok_0 {
                        ServerDirPlan::Pinned { bundle, workdir, local_dir } => bundle_view(bundle) == b
                            && workdir@ == w@ && local_dir@ == path_join(path_join(w@, "servers"@), b.0),
                        _ => false,
                    },
                },
            },
        },
{
    if let Some(p) = binary_path {
        return match server_dir_of_binary(p, os) {
            Ok(d) => Ok(ServerDirPlan::Configured(d)),
            Err(e) => Err(e),
        };
    }
    let bundle = match pinned_bundle(bundles, os, arch) {
        Ok(b) => b,
        Err(e) => return Err(e),
    };
    let workdir = match working_dir(current_dir) {
        Ok(w) => w,
        Err(e) => return Err(e),
    };
    let local_dir = local_server_dir(workdir.as_str(), bundle.version.as_str());
    Ok(ServerDirPlan::Pinned { bundle, workdir, local_dir })
}

/// `<workdir>/servers/<version>`: where a downloaded bundle is installed.
pub fn local_server_dir(workdir: &str, version: &str) -> (r: String)
    ensures
        r@ == path_join(path_join(workdir@, "servers"@), version@),
{
    let servers = join(workdir, "servers");
    join(servers.as_str(), version)
}

/// The value of the first entry named `key`.
pub open spec fn env_lookup(env: Seq<(Seq<char>, Seq<char>)>, key: Seq<char>) -> Option<Seq<char>>
    decreases env.len(),
{
    if env.len() == 0 {
        None
    } else if env[0].0 == key {
        Some(env[0].1)
    } else {
        env_lookup(env.drop_first(), key)
    }
}

pub open spec fn env_pairs_view(v: Seq<(String, String)>) -> Seq<(Seq<char>, Seq<char>)> {
    v.map_values(|p: (String, String)| (p.0@, p.1@))
}

fn env_get(env: &Vec<(String, String)>, key: &str) -> (r: Option<String>)
    ensures
        match r {
            Some(v) => env_lookup(env_pairs_view(env@), key@) == Some(v@),
            None => env_lookup(env_pairs_view(env@), key@) is None,
        },
{
    let ghost ev = env_pairs_view(env@);
    let mut i: usize = 0;
    assert(ev.skip(0) =~= ev);
    while i < env.len()
        invariant
            i <= env@.len(),
            ev == env_pairs_view(env@),
            env_lookup(ev, key@) == env_lookup(ev.skip(i as int), key@),
        decreases env@.len() - i,
    {
        let ghost rest = ev.skip(i as int);
        assert(rest[0] == (env@[i as int].0@, env@[i as int].1@));
        if crate::json::str_eq(env[i].0.as_str(), key) {
            return Some(env[i].1.clone());
        }
        assert(rest.drop_first() =~= ev.skip(i + 1));
        i = i + 1;
    }
    None
}

/// The per-user data directory where JetBrains clients install servers.
pub open spec fn spec_data_home(os: Os, env: Seq<(Seq<char>, Seq<char>)>) -> Option<Seq<char>> {
    match os {
        Os::Mac => match env_lookup(env, "HOME"@) {
            Some(h) => Some(h + "/Library/Application Support"@),
            None => None,
        },
        Os::Windows => match env_lookup(env, "LOCALAPPDATA"@) {
            Some(d) => Some(d),
            None => match env_lookup(env, "HOME"@) {
                Some(h) => Some(h + "/AppData/Local"@),
                None => None,
            },
        },
        Os::Linux => match env_lookup(env, "XDG_DATA_HOME"@) {
            Some(d) => Some(d),
            None => match env_lookup(env, "HOME"@) {
                Some(h) => Some(h + "/.local/share"@),
                None => None,
            },
        },
    }
}

/// The directory holding `<package>/<version>/` server installs of other
/// JetBrains clients (the locations of the official VS Code extension),
/// when the shell environment tells where the data directory is.
pub fn jetbrains_servers_root(os: Os, shell_env: &Vec<(String, String)>) -> (r: Option<String>)
    ensures
        match spec_data_home(os, env_pairs_view(shell_env@)) {
            Some(d) => r is Some && r->Some_0@ == path_join(d, "JetBrains/IntelliJServer/servers"@),
            None => r is None,
        },
{
    let data_home = match os {
        Os::Mac => match env_get(shell_env, "HOME") {
            Some(h) => Some(h.concat("/Library/Application Support")),
            None => None,
        },
        Os::Windows => match env_get(shell_env, "LOCALAPPDATA") {
            Some(d) => Some(d),
            None => match env_get(shell_env, "HOME") {
                Some(h) => Some(h.concat("/AppData/Local")),
                None => None,
            },
        },
        Os::Linux => match env_get(shell_env, "XDG_DATA_HOME") {
            Some(d) => Some(d),
            None => match env_get(shell_env, "HOME") {
                Some(h) => Some(h.concat("/.local/share")),
                None => None,
            },
        },
    };
    match data_home {
        Some(d) => Some(join(d.as_str(), "JetBrains/IntelliJServer/servers")),
        None => None,
    }
}

/// Where a server of `version` would be inside a package directory of
/// another client's install root.
pub fn install_candidate(package_dir: &str, version: &str) -> (r: String)
    ensures
        r@ == path_join(package_dir@, version@),
{
    join(package_dir, version)
}

/// Per-worktree `--system-path`: `<workdir>/system-path/<hash>`, where the
/// hash is the first 16 hex characters of the SHA-256 of the worktree root,
/// so the index persists across restarts.
pub fn system_path_for(workdir: &str, worktree_root: &str) -> (r: String)
    ensures
        r@ == path_join(path_join(workdir@, "system-path"@), hex_bytes(sha256_of(encode_utf8(worktree_root@))).take(16)),
{
    let hex = sha256_hex(worktree_root.as_bytes());
    let hc = crate::text::chars_of(hex.as_str());
    let prefix = crate::text::sub_chars(&hc, 0, 16);
    let hash = crate::text::string_from_chars(prefix.as_slice());
    let base = join(workdir, "system-path");
    join(base.as_str(), hash.as_str())
}

// ---------------------------------------------------------------------------
// Downloaded artefacts
// ---------------------------------------------------------------------------

pub open spec fn digest_mismatch_message(name: Seq<char>, expected: Seq<char>, actual: Seq<char>) -> Seq<char> {
    "SHA-256 mismatch for "@ + name + ": expected "@ + expected + ", got "@ + actual
}

/// Accepts the downloaded `bytes` of the artefact `name` when their SHA-256
/// (64 lower-case hex characters) is `expected`.
pub fn check_digest(name: &str, expected: &str, bytes: &[u8]) -> (r: Result<(), String>)
    ensures
        hex_bytes(sha256_of(bytes@)) == expected@ ==> r is Ok,
        hex_bytes(sha256_of(bytes@)) != expected@ ==> r is Err
            && r->Err_0@ == digest_mismatch_message(name@, expected@, hex_bytes(sha256_of(bytes@))),
{
    let actual = sha256_hex(bytes);
    if crate::json::str_eq(actual.as_str(), expected) {
        Ok(())
    } else {
        let mut m = String::from_str("SHA-256 mismatch for ");
        m.append(name);
        m.append(": expected ");
        m.append(expected);
        m.append(", got ");
        m.append(actual.as_str());
        Err(m)
    }
}

/// How the proxy binary is obtained.
pub enum ProxyPlan {
    /// The configured `proxy_path`, used as is.
    Configured(String),
    /// No proxy is published for this platform: the server runs directly.
    Unpublished,
    /// Use `proxy_bin` if it exists, else fetch it (see [`ProxyFetch`]).
    Fetch(ProxyFetch),
}

/// Where the pinned proxy release lives and where it goes.
pub struct ProxyFetch {
    pub proxy_dir: String,
    pub proxy_bin: String,
    pub archive: String,
    pub download_path: String,
    /// `None` when the manifest has no `releaseBaseUrl` (the fetch then fails).
    pub url: Option<String>,
    pub sha256: String,
}

/// `"/"`-joined release URL of an archive.
pub open spec fn release_url(base: Seq<char>, archive: Seq<char>) -> Seq<char> {
    base + "/"@ + archive
}

/// What [`resolve_proxy_path`] decides, with the paths as text.
pub enum ProxyPlanV {
    Configured(Seq<char>),
    Unpublished,
    Fetch {
        proxy_dir: Seq<char>,
        proxy_bin: Seq<char>,
        archive: Seq<char>,
        download_path: Seq<char>,
        url: Option<Seq<char>>,
        sha256: Seq<char>,
    },
}

pub open spec fn proxy_plan_view(p: ProxyPlan) -> ProxyPlanV {
    match p {
        ProxyPlan::Configured(s) => ProxyPlanV::Configured(s@),
        ProxyPlan::Unpublished => ProxyPlanV::Unpublished,
        ProxyPlan::Fetch(f) => ProxyPlanV::Fetch {
            proxy_dir: f.proxy_dir@,
            proxy_bin: f.proxy_bin@,
            archive: f.archive@,
            download_path: f.download_path@,
            url: match f.url {
                Some(u) => Some(u@),
                None => None,
            },
            sha256: f.sha256@,
        },
    }
}

pub open spec fn spec_proxy_plan(
    proxy_path: Option<Seq<char>>,
    bundles: Result<JsonV, Seq<char>>,
    os: Os,
    arch: Arch,
    current_dir: Result<Seq<char>, Seq<char>>,
) -> Result<ProxyPlanV, Seq<char>> {
    match proxy_path {
        Some(p) => Ok(ProxyPlanV::Configured(p)),
        None => match bundles {
            Err(e) => Err("Corrupt embedded proxy-bundles.json: "@ + e),
            Ok(b) => match spec_platform_key(os, arch) {
                None => Err(unsupported_arch_message()),
                Some(key) => {
                    let entry = jidx(jidx(b, "platforms"@), key);
                    match (jstr(jidx(b, "version"@)), jstr(jidx(entry, "sha256"@))) {
                        (Some(version), Some(sha)) => match current_dir {
                            Err(e) => Err("Cannot resolve extension working dir: "@ + e),
                            Ok(workdir) => {
                                let proxy_dir = path_join(path_join(workdir, "proxy"@), version);
                                let archive = "ij-zed-proxy-"@ + key;
                                Ok(ProxyPlanV::Fetch {
                                    proxy_dir,
                                    proxy_bin: path_join(proxy_dir, spec_proxy_name(os)),
                                    archive,
                                    download_path: path_join(proxy_dir, archive),
                                    url: match jstr(jidx(b, "releaseBaseUrl"@)) {
                                        Some(base) => Some(release_url(base, archive)),
                                        None => None,
                                    },
                                    sha256: sha,
                                })
                            },
                        },
                        _ => Ok(ProxyPlanV::Unpublished),
                    }
                },
            },
        },
    }
}

pub open spec fn opt_text_view(o: Option<&str>) -> Option<Seq<char>> {
    match o {
        Some(s) => Some(s@),
        None => None,
    }
}

pub open spec fn text_result_view(r: Result<String, String>) -> Result<Seq<char>, Seq<char>> {
    match r {
        Ok(s) => Ok(s@),
        Err(e) => Err(e@),
    }
}

/// Resolves the `ij-zed-proxy` binary, in order: the configured
/// `proxy_path` (trusted as is: Zed spawns the command on the host where the
/// path is valid); the pinned release for this platform from the parsed
/// `proxy-bundles.json`, kept under `<workdir>/proxy/<version>/`; or none
/// (direct mode) when no proxy is published for the platform.
pub fn resolve_proxy_path(
    proxy_path: Option<&str>,
    bundles: &Result<Json, String>,
    os: Os,
    arch: Arch,
    current_dir: Result<String, String>,
) -> (r: Result<ProxyPlan, String>)
    ensures
        match r {
            Ok(p) => spec_proxy_plan(opt_text_view(proxy_path), json_result_view(bundles), os, arch, text_result_view(current_dir))
                == Ok::<ProxyPlanV, Seq<char>>(proxy_plan_view(p)),
            Err(e) => spec_proxy_plan(opt_text_view(proxy_path), json_result_view(bundles), os, arch, text_result_view(current_dir))
                == Err::<ProxyPlanV, Seq<char>>(e@),
        },
{
    if let Some(p) = proxy_path {
        return Ok(ProxyPlan::Configured(String::from_str(p)));
    }
    let b = match bundles {
        Err(e) => {
            let mut m = String::from_str("Corrupt embedded proxy-bundles.json: ");
            m.append(e.as_str());
            return Err(m);
        },
        Ok(b) => b,
    };
    let key = match platform_key(os, arch) {
        Ok(k) => k,
        Err(e) => return Err(e),
    };
    let platforms = member(b, "platforms");
    let entry = match platforms {
        Some(p) => member(p, key.as_str()),
        None => None,
    };
    assert(opt_or_null(opt_view(entry)) == jidx(jidx(b@, "platforms"@), key@));
    let version = member_text(Some(b), "version");
    let sha = member_text(entry, "sha256");
    let (version, sha) = match (version, sha) {
        (Some(v), Some(s)) => (v, s),
        _ => return Ok(ProxyPlan::Unpublished),
    };
    let workdir = match working_dir(current_dir) {
        Ok(w) => w,
        Err(e) => return Err(e),
    };
    let proxy_root = join(workdir.as_str(), "proxy");
    let proxy_dir = join(proxy_root.as_str(), version.as_str());
    let proxy_bin = join(proxy_dir.as_str(), proxy_name(os));
    let archive = String::from_str("ij-zed-proxy-").concat(key.as_str());
    let download_path = join(proxy_dir.as_str(), archive.as_str());
    let url = match member_text(Some(b), "releaseBaseUrl") {
        Some(base) => Some(base.concat("/").concat(archive.as_str())),
        None => None,
    };
    let f = ProxyFetch { proxy_dir, proxy_bin, archive, download_path, url, sha256: sha };
    Ok(ProxyPlan::Fetch(f))
}

// ---------------------------------------------------------------------------
// Install lock
// ---------------------------------------------------------------------------

/// `<servers_dir>/.install-<version>.lock`.
pub fn lock_dir(servers_dir: &str, version: &str) -> (r: String)
    ensures
        r@ == path_join(servers_dir@, ".install-"@ + version@ + ".lock"@),
{
    let name = String::from_str(".install-").concat(version).concat(".lock");
    join(servers_dir, name.as_str())
}

/// A lock directory older than ten minutes (`elapsed` since its
/// modification, in seconds and nanoseconds) is left over from a crash.
/// Without a modification time it is not stale.
pub fn is_stale(elapsed: Option<(u64, u32)>) -> (r: bool)
    ensures
        r == match elapsed {
            Some((secs, nanos)) => secs > 600 || (secs == 600 && nanos > 0),
            None => false,
        },
{
    match elapsed {
        Some((secs, nanos)) => secs > 600 || (secs == 600 && nanos > 0),
        None => false,
    }
}

/// What to do after an attempt to create the lock directory.
pub enum LockStep {
    Acquired,
    /// Remove the stale lock directory and try again at once.
    RemoveStale,
    /// Sleep 200 ms and try again.
    Wait,
    GiveUp(String),
}

/// The waiting policy of the install lock: a created directory is the
/// lock; a stale one is broken; past the ten-minute deadline the install
/// gives up.
pub fn lock_step(created: bool, stale: bool, past_deadline: bool) -> (r: LockStep)
    ensures
        created ==> r is Acquired,
        !created && stale ==> r is RemoveStale,
        !created && !stale && past_deadline ==> r is GiveUp
            && r->GiveUp_0@ == "Timed out waiting for the intellij-server install lock"@,
        !created && !stale && !past_deadline ==> r is Wait,
{
    if created {
        LockStep::Acquired
    } else if stale {
        LockStep::RemoveStale
    } else if past_deadline {
        LockStep::GiveUp(String::from_str("Timed out waiting for the intellij-server install lock"))
    } else {
        LockStep::Wait
    }
}

} // verus!
