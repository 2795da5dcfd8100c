//! The Zed extension's answers: the server command line, initialization
//! options, workspace configuration and debug adapter launch. The editor
//! host calls (settings, worktree, downloads) are made by the caller.

use vstd::prelude::*;
use crate::json::{parse_json_text, parsed_json_text, Json, JsonV, jget, json_text, to_json_text, set_member, set_field, fields_view, items_view, lemma_items_view, str_eq, object, member, lemma_fields_view_two, lemma_fields_view};
use crate::config::{LaunchConfig, env_view, spec_launch_env, str_seq_view, opt_str_view};
use crate::paths::{join, path_join};
use crate::server::{Os, spec_launcher_name, launcher_name};
use crate::uri::{file_uri, file_uri_of};

verus! {

broadcast use vstd::string::group_string_axioms;

pub open spec fn server_id() -> Seq<char> {
    "intellij-server"@
}

pub open spec fn debug_adapter_name() -> Seq<char> {
    "intellij-debugger"@
}

/// Accepts only the extension's language server.
pub fn check_server_id(language_server_id: &str) -> (r: Result<(), String>)
    ensures
        language_server_id@ == server_id() ==> r is Ok,
        language_server_id@ != server_id() ==> r is Err && r->Err_0@ == "Unknown language server: "@ + language_server_id@,
{
    if str_eq(language_server_id, "intellij-server") {
        Ok(())
    } else {
        Err(String::from_str("Unknown language server: ").concat(language_server_id))
    }
}

/// Accepts only the extension's debug adapter.
pub fn check_adapter(adapter_name: &str) -> (r: Result<(), String>)
    ensures
        adapter_name@ == debug_adapter_name() ==> r is Ok,
        adapter_name@ != debug_adapter_name() ==> r is Err && r->Err_0@ == "Unknown debug adapter: "@ + adapter_name@,
{
    if str_eq(adapter_name, "intellij-debugger") {
        Ok(())
    } else {
        Err(String::from_str("Unknown debug adapter: ").concat(adapter_name))
    }
}

/// `<server_dir>/EULA.txt`.
pub fn eula_path(server_dir: &str) -> (r: String)
    ensures
        r@ == path_join(server_dir@, "EULA.txt"@),
{
    join(server_dir, "EULA.txt")
}

/// The server starts only once the user accepted the agreement.
pub fn eula_gate(launch: &LaunchConfig, server_dir: &str) -> (r: Result<(), String>)
    ensures
        launch.accept_eula ==> r is Ok,
        !launch.accept_eula ==> r is Err
            && r->Err_0@ == crate::eula::spec_acceptance_error(path_join(server_dir@, "EULA.txt"@)),
{
    if launch.accept_eula {
        Ok(())
    } else {
        Err(crate::eula::acceptance_error(eula_path(server_dir).as_str()))
    }
}

pub open spec fn sandbox_eula_hint() -> Seq<char> {
    "\nThe EULA is not readable from the extension sandbox. Configure lsp.intellij-server.settings.proxy_path to ij-zed-proxy, which computes the acceptance hash natively."@
}

/// What the extension does with the EULA hash it tried to compute: pass it;
/// leave it to the proxy when there is one (the proxy reads the file
/// natively); or fail with the read error and a hint.
pub open spec fn spec_eula_choice(hash: Result<Seq<char>, Seq<char>>, has_proxy: bool) -> Result<Option<Seq<char>>, Seq<char>> {
    match hash {
        Ok(h) => Ok(Some(h)),
        Err(e) => if has_proxy {
            Ok(None)
        } else {
            Err(e + sandbox_eula_hint())
        },
    }
}

/// The arguments of the server: `--stdio --system-path <dir>`, then
/// `--eula <hash>` when known, then the user's extra arguments.
pub open spec fn spec_server_args(system_path: Seq<char>, eula: Option<Seq<char>>, extra: Seq<Seq<char>>) -> Seq<Seq<char>> {
    let base = seq!["--stdio"@, "--system-path"@, system_path];
    let with_eula = match eula {
        Some(h) => base + seq!["--eula"@, h],
        None => base,
    };
    with_eula + extra
}

/// A process to start: program, arguments, environment.
pub struct ServerCommand {
    pub command: String,
    pub args: Vec<String>,
    pub env: Vec<(String, String)>,
}

/// Everything [`server_command`] decides from.
pub struct CommandInputs {
    /// The server directory (holding `bin/` and `EULA.txt`).
    pub server_dir: String,
    pub os: Os,
    /// The worktree's `--system-path`.
    pub system_path: String,
    /// The proxy binary, when the server runs behind it.
    pub proxy: Option<String>,
    /// The EULA hash, or why it could not be computed.
    pub eula_hash: Result<String, String>,
    /// `binary.arguments` of the user's settings.
    pub extra_args: Option<Vec<String>>,
    /// `binary.env` of the user's settings.
    pub user_env: Option<Vec<(String, String)>>,
    /// The extension working directory (where the proxy log goes), or why
    /// it could not be resolved.
    pub workdir: Result<String, String>,
}

pub open spec fn text_result(r: Result<String, String>) -> Result<Seq<char>, Seq<char>> {
    match r {
        Ok(s) => Ok(s@),
        Err(e) => Err(e@),
    }
}

pub open spec fn opt_strs(o: Option<Vec<String>>) -> Seq<Seq<char>> {
    match o {
        Some(v) => str_seq_view(v@),
        None => Seq::empty(),
    }
}

pub open spec fn opt_env(o: Option<Vec<(String, String)>>) -> Seq<(Seq<char>, Seq<char>)> {
    match o {
        Some(v) => env_view(v@),
        None => Seq::empty(),
    }
}

/// The command that starts the language server, only once the user accepted
/// the agreement (else the acceptance message): the launcher
/// `<server_dir>/bin/<launcher>` directly, or `ij-zed-proxy --log
/// <workdir>/proxy.log -- <launcher> <args>` when a proxy is available; the
/// environment is the launch configuration's, then the user's.
pub open spec fn spec_server_command(launch: LaunchConfig, i: CommandInputs) -> Result<(Seq<char>, Seq<Seq<char>>, Seq<(Seq<char>, Seq<char>)>), Seq<char>> {
    if !launch.accept_eula {
        Err(crate::eula::spec_acceptance_error(path_join(i.server_dir@, "EULA.txt"@)))
    } else {
    match spec_eula_choice(text_result(i.eula_hash), i.proxy is Some) {
        Err(e) => Err(e),
        Ok(eula) => {
            let args = spec_server_args(i.system_path@, eula, opt_strs(i.extra_args));
            let env = spec_launch_env(str_seq_view(launch.jvm_args@), opt_str_view(launch.data_sharing), opt_str_view(launch.region))
                + opt_env(i.user_env);
            let launcher = path_join(path_join(i.server_dir@, "bin"@), spec_launcher_name(i.os));
            match i.proxy {
                Some(p) => match text_result(i.workdir) {
                    Err(e) => Err("Cannot resolve extension working dir: "@ + e),
                    Ok(w) => Ok((p@, seq!["--log"@, path_join(w, "proxy.log"@), "--"@, launcher] + args, env)),
                },
                None => Ok((launcher, args, env)),
            }
        },
    }
    }
}

pub open spec fn command_view(c: ServerCommand) -> (Seq<char>, Seq<Seq<char>>, Seq<(Seq<char>, Seq<char>)>) {
    (c.command@, str_seq_view(c.args@), env_view(c.env@))
}

fn push_strings(dst: &mut Vec<String>, src: Vec<String>)
    ensures
        str_seq_view(final(dst)@) == str_seq_view(old(dst)@) + str_seq_view(src@),
{
    let mut i: usize = 0;
    let ghost d0 = str_seq_view(dst@);
    while i < src.len()
        invariant
            i <= src@.len(),
            str_seq_view(dst@) == d0 + str_seq_view(src@).take(i as int),
        decreases src@.len() - i,
    {
        let ghost before = dst@;
        let s = src[i].clone();
        dst.push(s);
        assert(str_seq_view(dst@) =~= str_seq_view(before).push(s@));
        assert(str_seq_view(src@).take(i + 1) =~= str_seq_view(src@).take(i as int).push(src@[i as int]@));
        i = i + 1;
    }
    assert(str_seq_view(src@).take(src@.len() as int) =~= str_seq_view(src@));
}

fn push_env(dst: &mut Vec<(String, String)>, src: Vec<(String, String)>)
    ensures
        env_view(final(dst)@) == env_view(old(dst)@) + env_view(src@),
{
    let mut i: usize = 0;
    let ghost d0 = env_view(dst@);
    while i < src.len()
        invariant
            i <= src@.len(),
            env_view(dst@) == d0 + env_view(src@).take(i as int),
        decreases src@.len() - i,
    {
        let ghost before = dst@;
        let e = (src[i].0.clone(), src[i].1.clone());
        dst.push(e);
        assert(env_view(dst@) =~= env_view(before).push((e.0@, e.1@)));
        assert(env_view(src@).take(i + 1) =~= env_view(src@).take(i as int).push((src@[i as int].0@, src@[i as int].1@)));
        i = i + 1;
    }
    assert(env_view(src@).take(src@.len() as int) =~= env_view(src@));
}

/// The command that starts the language server.
pub fn server_command(launch: &LaunchConfig, inputs: CommandInputs) -> (r: Result<ServerCommand, String>)
    ensures
        !launch.accept_eula ==> r is Err,
        match r {
            Ok(c) => spec_server_command(*launch, inputs) == Ok::<_, Seq<char>>(command_view(c)),
            Err(e) => spec_server_command(*launch, inputs) == Err::<(Seq<char>, Seq<Seq<char>>, Seq<(Seq<char>, Seq<char>)>), Seq<char>>(e@),
        },
{
    let ghost i0 = inputs;
    if !launch.accept_eula {
        let path = eula_path(inputs.server_dir.as_str());
        return Err(crate::eula::acceptance_error(path.as_str()));
    }
    let CommandInputs { server_dir, os, system_path, proxy, eula_hash, extra_args, user_env, workdir } = inputs;
    let eula: Option<String> = match eula_hash {
        Ok(h) => Some(h),
        Err(e) => {
            if proxy.is_some() {
                None
            } else {
                return Err(e.concat(
                    "\nThe EULA is not readable from the extension sandbox. Configure lsp.intellij-server.settings.proxy_path to ij-zed-proxy, which computes the acceptance hash natively.",
                ));
            }
        },
    };
    let ghost ev: Option<Seq<char>> = match &eula {
        Some(h) => Some(h@),
        None => None,
    };
    assert(spec_eula_choice(text_result(i0.eula_hash), i0.proxy is Some) == Ok::<Option<Seq<char>>, Seq<char>>(ev));
    let ghost sp = system_path@;
    let mut args: Vec<String> = Vec::new();
    args.push(String::from_str("--stdio"));
    args.push(String::from_str("--system-path"));
    args.push(system_path);
    match eula {
        Some(h) => {
            args.push(String::from_str("--eula"));
            args.push(h);
        },
        None => {},
    }
    let ghost before_extra = str_seq_view(args@);
    assert(before_extra =~= match ev {
        Some(h) => seq!["--stdio"@, "--system-path"@, sp] + seq!["--eula"@, h],
        None => seq!["--stdio"@, "--system-path"@, sp],
    });
    match extra_args {
        Some(extra) => push_strings(&mut args, extra),
        None => {
            assert(str_seq_view(args@) =~= before_extra + Seq::<Seq<char>>::empty());
        },
    }
    assert(str_seq_view(args@) == spec_server_args(sp, ev, opt_strs(i0.extra_args)));
    let mut env = launch.launch_env();
    let ghost base_env = env_view(env@);
    match user_env {
        Some(u) => push_env(&mut env, u),
        None => {
            assert(env_view(env@) =~= base_env + Seq::<(Seq<char>, Seq<char>)>::empty());
        },
    }
    assert(env_view(env@) == spec_launch_env(str_seq_view(launch.jvm_args@), opt_str_view(launch.data_sharing), opt_str_view(launch.region))
        + opt_env(i0.user_env));
    let bin = join(server_dir.as_str(), "bin");
    let launcher = join(bin.as_str(), launcher_name(os));
    assert(launcher@ == path_join(path_join(i0.server_dir@, "bin"@), spec_launcher_name(i0.os)));
    match proxy {
        Some(p) => {
            let w = match workdir {
                Ok(w) => w,
                Err(e) => return Err(String::from_str("Cannot resolve extension working dir: ").concat(e.as_str())),
            };
            let mut proxy_args: Vec<String> = Vec::new();
            proxy_args.push(String::from_str("--log"));
            proxy_args.push(join(w.as_str(), "proxy.log"));
            proxy_args.push(String::from_str("--"));
            proxy_args.push(launcher);
            let ghost head = str_seq_view(proxy_args@);
            assert(head =~= seq!["--log"@, path_join(w@, "proxy.log"@), "--"@, launcher@]);
            assert(text_result(i0.workdir) == Ok::<Seq<char>, Seq<char>>(w@));
            let ghost av = str_seq_view(args@);
            push_strings(&mut proxy_args, args);
            assert(str_seq_view(proxy_args@) =~= head + av);
            let c = ServerCommand { command: p, args: proxy_args, env };
            assert(spec_server_command(*launch, i0) == Ok::<_, Seq<char>>(command_view(c)));
            Ok(c)
        },
        None => {
            let c = ServerCommand { command: launcher, args, env };
            assert(spec_server_command(*launch, i0) == Ok::<_, Seq<char>>(command_view(c)));
            Ok(c)
        },
    }
}

// ---------------------------------------------------------------------------
// Initialization options and workspace configuration
// ---------------------------------------------------------------------------

/// The members of `base` overwritten and extended by those of `user`, in order.
pub open spec fn extend_fields(base: Seq<(Seq<char>, JsonV)>, user: Seq<(Seq<char>, JsonV)>) -> Seq<(Seq<char>, JsonV)>
    decreases user.len(),
{
    if user.len() == 0 {
        base
    } else {
        set_member(extend_fields(base, user.drop_last()), user.last().0, user.last().1)
    }
}

/// The defaults of the official client.
pub open spec fn default_init_fields() -> Seq<(Seq<char>, JsonV)> {
    seq![("projects"@, JsonV::Array(Seq::empty())), ("disableRocksDBWriteAheadLog"@, JsonV::Bool(false))]
}

/// The initialization options: the official client's defaults, with the
/// user's options winning on conflicts (`intellijExtensions` and
/// `runMainCodeLens` stay off).
pub open spec fn spec_init_options(user: Option<JsonV>) -> JsonV {
    match user {
        Some(JsonV::Object(u)) => JsonV::Object(extend_fields(default_init_fields(), u)),
        _ => JsonV::Object(default_init_fields()),
    }
}

/// The initialization options for the server (`None` for another server).
pub fn initialization_options(language_server_id: &str, user: Option<Json>) -> (r: Option<Json>)
    ensures
        language_server_id@ != server_id() ==> r is None,
        language_server_id@ == server_id() ==> r is Some
            && r->Some_0@ == spec_init_options(crate::json::opt_json_view(user)),
{
    if !str_eq(language_server_id, "intellij-server") {
        return None;
    }
    let empty: Vec<Json> = Vec::new();
    proof {
        lemma_items_view(empty@);
        assert(items_view(empty@) =~= Seq::<JsonV>::empty());
    }
    let a = member("projects", Json::Array(empty));
    let b = member("disableRocksDBWriteAheadLog", Json::Bool(false));
    let mut fields = vec![a, b];
    proof {
        lemma_fields_view_two(a, b);
        assert(fields@ =~= seq![a, b]);
    }
    match user {
        Some(Json::Object(u)) => {
            proof {
                lemma_fields_view(u@);
            }
            let ghost uv = fields_view(u@);
            let mut i: usize = 0;
            while i < u.len()
                invariant
                    i <= u@.len(),
                    uv == fields_view(u@),
                    uv.len() == u@.len(),
                    forall|k: int| 0 <= k < u@.len() ==> #[trigger] uv[k] == (u@[k].0@, u@[k].1@),
                    fields_view(fields@) == extend_fields(default_init_fields(), uv.take(i as int)),
                decreases u@.len() - i,
            {
                let v = u[i].1.deep_clone();
                set_field(&mut fields, u[i].0.as_str(), v);
                proof {
                    assert(uv.take(i + 1).drop_last() =~= uv.take(i as int));
                    assert(uv.take(i + 1).last() == uv[i as int]);
                }
                i = i + 1;
            }
            assert(uv.take(u@.len() as int) =~= uv);
            Some(object(fields))
        },
        _ => Some(object(fields)),
    }
}

/// The workspace configuration: the user's settings (`None` for another server).
pub fn workspace_configuration(language_server_id: &str, settings: Option<Json>) -> (r: Option<Json>)
    ensures
        language_server_id@ != server_id() ==> r is None,
        language_server_id@ == server_id() ==> crate::json::opt_json_view(r) == crate::json::opt_json_view(settings),
{
    if !str_eq(language_server_id, "intellij-server") {
        return None;
    }
    settings
}

// ---------------------------------------------------------------------------
// Debugging
// ---------------------------------------------------------------------------

/// The kind of a debug session.
#[derive(Debug, Clone, Copy, PartialEq, Eq, Structural)]
pub enum DapRequest {
    Launch,
    Attach,
}

/// The session kind from the `request` member of a debug configuration.
pub open spec fn spec_request_kind(config: JsonV) -> Result<DapRequest, Seq<char>> {
    match jget(config, "request"@) {
        Some(JsonV::Str(s)) => if s == "launch"@ {
            Ok(DapRequest::Launch)
        } else if s == "attach"@ {
            Ok(DapRequest::Attach)
        } else {
            Err("Unexpected `request` value in debug configuration: "@ + json_text(JsonV::Str(s)))
        },
        Some(other) => Err("Unexpected `request` value in debug configuration: "@ + json_text(other)),
        None => Err("Missing `request` in debug configuration"@),
    }
}

/// Whether the debug configuration asks to launch or to attach.
pub fn dap_request_kind(adapter_name: &str, config: &Json) -> (r: Result<DapRequest, String>)
    ensures
        adapter_name@ != debug_adapter_name() ==> r is Err && r->Err_0@ == "Unknown debug adapter: "@ + adapter_name@,
        adapter_name@ == debug_adapter_name() ==> match spec_request_kind(config@) {
            Ok(k) => r == Ok::<DapRequest, String>(k),
            Err(m) => r is Err && r->Err_0@ == m,
        },
{
    match check_adapter(adapter_name) {
        Err(e) => return Err(e),
        Ok(()) => {},
    }
    match config.get("request") {
        Some(v) => {
            match v {
                Json::Str(s) => {
                    if str_eq(s.as_str(), "launch") {
                        return Ok(DapRequest::Launch);
                    }
                    if str_eq(s.as_str(), "attach") {
                        return Ok(DapRequest::Attach);
                    }
                },
                _ => {},
            }
            Err(String::from_str("Unexpected `request` value in debug configuration: ").concat(to_json_text(v).as_str()))
        },
        None => Err(String::from_str("Missing `request` in debug configuration")),
    }
}

/// How the editor starts the debug adapter.
pub struct DapBinary {
    pub command: String,
    pub arguments: Vec<String>,
    pub cwd: String,
    pub request: DapRequest,
    /// The debug configuration as the user wrote it.
    pub configuration: String,
}

pub open spec fn proxy_required_message() -> Seq<char> {
    "Debugging requires ij-zed-proxy (not available for this platform yet); set lsp.intellij-server.settings.proxy_path to a local build"@
}

/// The debug adapter for the debug configuration text `config_text`, read
/// as JSON (see [`parse_json_text`]); otherwise as [`dap_binary`].
pub fn dap_binary_for_config(
    proxy: Option<String>,
    system_path: &str,
    worktree_root: &str,
    config_text: String,
) -> (r: Result<DapBinary, String>)
    ensures
        proxy is None ==> r is Err && r->Err_0@ == proxy_required_message(),
        proxy is Some ==> match parsed_json_text(config_text@) {
            Err(e) => r is Err && r->Err_0@ == "Invalid debug configuration JSON: "@ + e,
            Ok(c) => match spec_request_kind(c) {
                Err(m) => r is Err && r->Err_0@ == m,
                Ok(k) => r is Ok && r->Ok_0.request == k && r->Ok_0.command@ == proxy->Some_0@
                    && str_seq_view(r->Ok_0.arguments@) == seq!["--dap"@, "--system-path"@, system_path@,
                        "--root-uri"@, file_uri_of(worktree_root@)]
                    && r->Ok_0.cwd@ == worktree_root@ && r->Ok_0.configuration@ == config_text@,
            },
        },
{
    let config = parse_json_text(config_text.as_str());
    dap_binary(proxy, system_path, worktree_root, config_text, config)
}

/// The debug adapter: the proxy in `--dap` mode for the worktree's system
/// path and root URI. `config` is the configuration text read as JSON (or
/// the parse error).
pub fn dap_binary(
    proxy: Option<String>,
    system_path: &str,
    worktree_root: &str,
    config_text: String,
    config: Result<Json, String>,
) -> (r: Result<DapBinary, String>)
    ensures
        proxy is None ==> r is Err && r->Err_0@ == proxy_required_message(),
        proxy is Some ==> match config {
            Err(e) => r is Err && r->Err_0@ == "Invalid debug configuration JSON: "@ + e@,
            Ok(c) => match spec_request_kind(c@) {
                Err(m) => r is Err && r->Err_0@ == m,
                Ok(k) => r is Ok && r->Ok_0.request == k && r->Ok_0.command@ == proxy->Some_0@
                    && str_seq_view(r->Ok_0.arguments@) == seq!["--dap"@, "--system-path"@, system_path@,
                        "--root-uri"@, file_uri_of(worktree_root@)]
                    && r->Ok_0.cwd@ == worktree_root@ && r->Ok_0.configuration@ == config_text@,
            },
        },
{
    let p = match proxy {
        Some(p) => p,
        None => return Err(String::from_str(
            "Debugging requires ij-zed-proxy (not available for this platform yet); set lsp.intellij-server.settings.proxy_path to a local build",
        )),
    };
    let root_uri = file_uri(worktree_root);
    let c = match config {
        Ok(c) => c,
        Err(e) => return Err(String::from_str("Invalid debug configuration JSON: ").concat(e.as_str())),
    };
    let request = match dap_request_kind("intellij-debugger", &c) {
        Ok(k) => k,
        Err(m) => return Err(m),
    };
    let mut arguments: Vec<String> = Vec::new();
    arguments.push(String::from_str("--dap"));
    arguments.push(String::from_str("--system-path"));
    arguments.push(String::from_str(system_path));
    arguments.push(String::from_str("--root-uri"));
    arguments.push(root_uri);
    assert(str_seq_view(arguments@) =~= seq!["--dap"@, "--system-path"@, system_path@, "--root-uri"@, file_uri_of(worktree_root@)]);
    Ok(DapBinary { command: p, arguments, cwd: String::from_str(worktree_root), request, configuration: config_text })
}

} // verus!
