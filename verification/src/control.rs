//! Control channel: lets sibling processes (the `--dap` adapter mode) drive
//! `workspace/executeCommand` on the backend through the running LSP proxy.
//!
//! The proxy listens on 127.0.0.1 (ephemeral port) and writes a session file
//! `<system-path>/ij-zed-proxy.session.json` with the port, a bearer token
//! and its pid. Requests and responses are newline-delimited JSON; this
//! module decides the answer to each request.

use vstd::prelude::*;
use crate::json::{Json, JsonV, jget, jidx, jstr, object, member, lemma_fields_view_two, str_eq};
use crate::paths::{join, path_join};
use crate::router::str_or;
use crate::json::{opt_json_view, parse_json_text, parsed_json_text};
use crate::eula::{hex_bytes, hex_prefix};

verus! {

broadcast use vstd::string::group_string_axioms;

/// What the session file says about the running proxy.
pub struct SessionInfo {
    pub port: u16,
    pub token: String,
    pub pid: u32,
}

/// `<system-path>/ij-zed-proxy.session.json`.
pub fn session_file(system_path: &str) -> (r: String)
    ensures
        r@ == path_join(system_path@, "ij-zed-proxy.session.json"@),
{
    join(system_path, "ij-zed-proxy.session.json")
}

/// Clears the backend index and restarts everything.
pub open spec fn clear_caches_command() -> Seq<char> {
    "__clear_caches_and_restart"@
}

/// Re-imports the project model without restarting the server.
pub open spec fn reload_workspace_command() -> Seq<char> {
    "__reload_workspace"@
}

/// Raw LSP method passthrough to the backend.
pub open spec fn lsp_command() -> Seq<char> {
    "__lsp"@
}

/// The answer to a control request.
pub enum ControlDecision {
    /// Answer with this message.
    Reply(Json),
    /// Latch the cache-clear flag, ask the server to shut down and exit in
    /// the background, and answer with this message.
    ClearCaches(Json),
    /// Reload the workspace in the background and answer with this message.
    Reload(Json),
    /// Send the request `method` with `params` to the server; the answer is
    /// [`call_reply`] of request id `id` and the outcome.
    Call { id: Json, method: String, params: Json },
}

pub enum ControlDecisionV {
    Reply(JsonV),
    ClearCaches(JsonV),
    Reload(JsonV),
    Call { id: JsonV, method: Seq<char>, params: JsonV },
}

pub open spec fn decision_view(d: ControlDecision) -> ControlDecisionV {
    match d {
        ControlDecision::Reply(j) => ControlDecisionV::Reply(j@),
        ControlDecision::ClearCaches(j) => ControlDecisionV::ClearCaches(j@),
        ControlDecision::Reload(j) => ControlDecisionV::Reload(j@),
        ControlDecision::Call { id, method, params } => ControlDecisionV::Call { id: id@, method: method@, params: params@ },
    }
}

/// `{"id": id, key: value}`.
pub open spec fn answer(id: JsonV, key: Seq<char>, value: JsonV) -> JsonV {
    JsonV::Object(seq![("id"@, id), (key, value)])
}

fn answer_exec(id: Json, key: &str, value: Json) -> (r: Json)
    ensures
        r@ == answer(id@, key@, value@),
{
    let a = member("id", id);
    let b = member(key, value);
    let fields = vec![a, b];
    proof {
        lemma_fields_view_two(a, b);
        assert(fields@ =~= seq![a, b]);
    }
    object(fields)
}

/// The member `key` of the request (`null` when absent).
pub open spec fn field_or_null(v: JsonV, key: Seq<char>) -> JsonV {
    jidx(v, key)
}

/// The answer to a control request `request` (`None` when the line was not
/// JSON), given the expected bearer token, whether the server's index
/// directory is known, and whether the server was initialized.
pub open spec fn spec_control_decision(expected_token: Seq<char>, request: Option<JsonV>, index_known: bool, initialized: bool) -> ControlDecisionV {
    match request {
        None => ControlDecisionV::Reply(JsonV::Object(seq![("error"@, JsonV::Str("invalid JSON"@))])),
        Some(req) => {
            let id = jidx(req, "id"@);
            if jstr(jidx(req, "token"@)) != Some(expected_token) {
                ControlDecisionV::Reply(answer(id, "error"@, JsonV::Str("bad token"@)))
            } else {
                let command = str_or(jidx(req, "command"@), Seq::empty());
                if command == clear_caches_command() {
                    if !index_known {
                        ControlDecisionV::Reply(answer(id, "error"@, JsonV::Str("server index directory unknown (not initialized?)"@)))
                    } else {
                        ControlDecisionV::ClearCaches(answer(id, "result"@,
                            JsonV::Str("server stopping; index will be deleted and the server restarted"@)))
                    }
                } else if command == reload_workspace_command() {
                    if !initialized {
                        ControlDecisionV::Reply(answer(id, "error"@, JsonV::Str("server not initialized yet"@)))
                    } else {
                        ControlDecisionV::Reload(answer(id, "result"@, JsonV::Str("workspace reload requested"@)))
                    }
                } else if command == lsp_command() {
                    let method = str_or(jidx(req, "method"@), Seq::empty());
                    if method.len() == 0 {
                        ControlDecisionV::Reply(answer(id, "error"@, JsonV::Str("missing `method` for __lsp"@)))
                    } else {
                        ControlDecisionV::Call { id, method, params: jidx(req, "params"@) }
                    }
                } else {
                    let arguments = match jget(req, "arguments"@) {
                        Some(a) => a,
                        None => JsonV::Array(Seq::empty()),
                    };
                    ControlDecisionV::Call {
                        id,
                        method: "workspace/executeCommand"@,
                        params: JsonV::Object(seq![("command"@, JsonV::Str(command)), ("arguments"@, arguments)]),
                    }
                }
            }
        },
    }
}

fn member_or_null(v: &Json, key: &str) -> (r: Json)
    ensures
        r@ == jidx(v@, key@),
{
    match v.get(key) {
        Some(x) => x.deep_clone(),
        None => Json::Null,
    }
}

/// Decides the answer to one control request line (`request`: the line read
/// as JSON, `None` when it is not JSON).
pub fn control_decision(expected_token: &str, request: Option<Json>, index_known: bool, initialized: bool) -> (r: ControlDecision)
    ensures
        decision_view(r) == spec_control_decision(expected_token@, opt_json_view(request), index_known, initialized),
{
    let req = match request {
        None => {
            let e = member("error", Json::string("invalid JSON"));
            let fields = vec![e];
            proof {
                crate::json::lemma_fields_view_one(e);
                assert(fields@ =~= seq![e]);
            }
            return ControlDecision::Reply(object(fields));
        },
        Some(r) => r,
    };
    let id = member_or_null(&req, "id");
    let token_ok = match req.get("token") {
        Some(t) => match t.as_str() {
            Some(t) => str_eq(t, expected_token),
            None => false,
        },
        None => false,
    };
    if !token_ok {
        return ControlDecision::Reply(answer_exec(id, "error", Json::string("bad token")));
    }
    let command = match req.get("command") {
        Some(c) => match c.as_str() {
            Some(c) => String::from_str(c),
            None => String::new(),
        },
        None => String::new(),
    };
    if str_eq(command.as_str(), "__clear_caches_and_restart") {
        if !index_known {
            return ControlDecision::Reply(answer_exec(id, "error", Json::string("server index directory unknown (not initialized?)")));
        }
        return ControlDecision::ClearCaches(answer_exec(id, "result",
            Json::string("server stopping; index will be deleted and the server restarted")));
    }
    if str_eq(command.as_str(), "__reload_workspace") {
        if !initialized {
            return ControlDecision::Reply(answer_exec(id, "error", Json::string("server not initialized yet")));
        }
        return ControlDecision::Reload(answer_exec(id, "result", Json::string("workspace reload requested")));
    }
    if str_eq(command.as_str(), "__lsp") {
        let method = match req.get("method") {
            Some(m) => match m.as_str() {
                Some(m) => String::from_str(m),
                None => String::new(),
            },
            None => String::new(),
        };
        if method.unicode_len() == 0 {
            return ControlDecision::Reply(answer_exec(id, "error", Json::string("missing `method` for __lsp")));
        }
        let params = member_or_null(&req, "params");
        return ControlDecision::Call { id, method, params };
    }
    let arguments = match req.get("arguments") {
        Some(a) => a.deep_clone(),
        None => {
            let empty: Vec<Json> = Vec::new();
            proof {
                crate::json::lemma_items_view(empty@);
                assert(crate::json::items_view(empty@) =~= Seq::<JsonV>::empty());
            }
            Json::Array(empty)
        },
    };
    let a = member("command", Json::Str(command));
    let b = member("arguments", arguments);
    let fields = vec![a, b];
    proof {
        lemma_fields_view_two(a, b);
        assert(fields@ =~= seq![a, b]);
    }
    ControlDecision::Call { id, method: String::from_str("workspace/executeCommand"), params: object(fields) }
}

/// The answer to a control request once the server call is done:
/// `{"id": id, "result": r}` or `{"id": id, "error": message}`.
pub fn call_reply(id: Json, outcome: Result<Json, String>) -> (r: Json)
    ensures
        match outcome {
            Ok(x) => r@ == answer(id@, "result"@, x@),
            Err(e) => r@ == answer(id@, "error"@, JsonV::Str(e@)),
        },
{
    match outcome {
        Ok(x) => answer_exec(id, "result", x),
        Err(e) => answer_exec(id, "error", Json::Str(e)),
    }
}

/// The lowest `n` bytes of `v`, least significant first.
pub open spec fn le_bytes(v: nat, n: nat) -> Seq<u8>
    decreases n,
{
    if n == 0 {
        Seq::empty()
    } else {
        seq![(v % 256) as u8] + le_bytes(v / 256, (n - 1) as nat)
    }
}

/// The token seed used when no random bytes can be read: the time in
/// nanoseconds mixed with the process id (a localhost token, not a secret).
pub fn fallback_token_bytes(nanos: u128, pid: u32) -> (r: Vec<u8>)
    ensures
        r@ == le_bytes((nanos ^ (pid as u128)) as nat, 16),
{
    let seed: u128 = nanos ^ (pid as u128);
    let mut out: Vec<u8> = Vec::new();
    let mut x: u128 = seed;
    let mut i: usize = 0;
    while i < 16
        invariant
            i <= 16,
            out@ + le_bytes(x as nat, (16 - i) as nat) == le_bytes(seed as nat, 16),
        decreases 16 - i,
    {
        proof {
            assert(le_bytes(x as nat, (16 - i) as nat) == seq![(x % 256) as u8] + le_bytes((x / 256) as nat, (16 - i - 1) as nat));
        }
        let ghost before = out@;
        out.push((x % 256) as u8);
        assert(out@ + le_bytes((x / 256) as nat, (16 - i - 1) as nat) =~= before + le_bytes(x as nat, (16 - i) as nat));
        x = x / 256;
        i = i + 1;
    }
    assert(out@ =~= out@ + le_bytes(x as nat, 0));
    out
}

/// The bearer token: the 16 token bytes as 32 lower-case hex characters.
pub fn token_hex(bytes: &[u8]) -> (r: String)
    requires
        bytes@.len() == 16,
    ensures
        r@ == hex_bytes(bytes@),
{
    let r = hex_prefix(bytes, 32);
    assert(bytes@.take(16) =~= bytes@);
    r
}

/// A request without the session's bearer token runs nothing: it is
/// answered with `bad token` (or `invalid JSON` when it is not JSON).
pub proof fn lemma_token_required(expected_token: Seq<char>, request: Option<JsonV>, index_known: bool, initialized: bool)
    requires
        match request {
            Some(req) => jstr(jidx(req, "token"@)) != Some(expected_token),
            None => true,
        },
    ensures
        spec_control_decision(expected_token, request, index_known, initialized) is Reply,
{
}

} // verus!

verus! {

/// The request a control line holds: the JSON read from it, `None` when it
/// holds none.
pub open spec fn control_request_of(line: Seq<char>) -> Option<JsonV> {
    match parsed_json_text(line) {
        Ok(v) => Some(v),
        Err(_) => None,
    }
}

/// Decides the answer to one control request line as it arrived: reads it
/// as JSON (see [`parse_json_text`]), then decides as [`control_decision`].
pub fn handle_request_line(expected_token: &str, line: &str, index_known: bool, initialized: bool) -> (r: ControlDecision)
    ensures
        decision_view(r) == spec_control_decision(expected_token@, control_request_of(line@), index_known, initialized),
{
    let request = match parse_json_text(line) {
        Ok(v) => Some(v),
        Err(_) => None,
    };
    control_decision(expected_token, request, index_known, initialized)
}

} // verus!
