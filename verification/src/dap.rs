//! `ij-zed-proxy --dap`: the debug adapter mode. It finds the running LSP
//! proxy through its session file, has the backend start its debug server,
//! completes `launch` requests the way the VS Code client does, and relays
//! DAP frames between the editor and the backend. The sockets and standard
//! streams belong to the caller; this module decides what goes over them.

use vstd::prelude::*;
use crate::json::{
    Json, JsonV, jget, jidx, jstr, ju64, json_text, to_json_text, with_member, object, member, str_eq,
    lemma_fields_view_one, lemma_fields_view_two, lemma_fields_view_four, items_view, lemma_items_view,
};
use crate::router::json_result_view;
use crate::json::{opt_json_view, parse_json, parsed_json, parse_json_text, parsed_json_text};
use crate::json::{lemma_read_after_set, lemma_read_other_after_set};

verus! {

broadcast use vstd::string::group_string_axioms;

/// Arguments of the adapter mode.
pub struct DapArgs {
    pub system_path: String,
    pub root_uri: String,
}

/// Newline-delimited JSON control channel to the LSP proxy instance: the
/// bearer token and the id of the next request.
pub struct Control {
    pub token: String,
    pub next_id: u64,
}

/// `{"id": id, "token": token, "command": command, "arguments": arguments}`.
pub open spec fn control_request_v(id: u64, token: Seq<char>, command: Seq<char>, arguments: JsonV) -> JsonV {
    JsonV::Object(seq![
        ("id"@, JsonV::UInt(id)),
        ("token"@, JsonV::Str(token)),
        ("command"@, JsonV::Str(command)),
        ("arguments"@, arguments),
    ])
}

/// The outcome of a control request: its `result` (`null` when absent), or
/// `<command>: <error as JSON>`.
pub open spec fn spec_control_outcome(command: Seq<char>, response: JsonV) -> Result<JsonV, Seq<char>> {
    match jget(response, "error"@) {
        Some(e) => Err(command + ": "@ + json_text(e)),
        None => Ok(jidx(response, "result"@)),
    }
}

impl Control {
    /// A channel for the session's token; request ids start at 1.
    pub fn connect(token: &str) -> (r: Control)
        ensures
            r.token@ == token@,
            r.next_id == 1,
    {
        Control { token: String::from_str(token), next_id: 1 }
    }

    /// The line to send for `command` (the request id advances, wrapping).
    pub fn request(&mut self, command: &str, arguments: Json) -> (r: Json)
        ensures
            r@ == control_request_v(old(self).next_id, old(self).token@, command@, arguments@),
            final(self).token == old(self).token,
            final(self).next_id == (if old(self).next_id == u64::MAX { 0 } else { old(self).next_id + 1 }) as u64,
    {
        let id = self.next_id;
        self.next_id = if self.next_id == u64::MAX { 0 } else { self.next_id + 1 };
        let a = member("id", Json::UInt(id));
        let b = member("token", Json::Str(self.token.clone()));
        let c = member("command", Json::string(command));
        let d = member("arguments", arguments);
        let fields = vec![a, b, c, d];
        proof {
            lemma_fields_view_four(a, b, c, d);
            assert(fields@ =~= seq![a, b, c, d]);
        }
        object(fields)
    }

    /// Reads the response line to `command`: the JSON it holds (or why it
    /// holds none), then its outcome as [`Control::execute_command`].
    pub fn execute_command_line(command: &str, line: &str) -> (r: Result<Json, String>)
        ensures
            json_result_view(r) == match parsed_json_text(line@) {
                Ok(response) => spec_control_outcome(command@, response),
                Err(e) => Err(e),
            },
    {
        match parse_json_text(line) {
            Ok(response) => Control::execute_command(command, &response),
            Err(e) => Err(e),
        }
    }

    /// Reads the response to `command`.
    pub fn execute_command(command: &str, response: &Json) -> (r: Result<Json, String>)
        ensures
            json_result_view(r) == spec_control_outcome(command@, response@),
    {
        match response.get("error") {
            Some(e) => Err(String::from_str(command).concat(": ").concat(to_json_text(e).as_str())),
            None => match response.get("result") {
                Some(x) => Ok(x.deep_clone()),
                None => Ok(Json::Null),
            },
        }
    }
}

/// The error when no proxy instance answers for `system_path` in time.
pub fn no_instance_error(system_path: &str) -> (r: String)
    ensures
        r@ == "no running intellij-server instance for "@ + system_path@ + " (is the language server up?)"@,
{
    String::from_str("no running intellij-server instance for ").concat(system_path).concat(" (is the language server up?)")
}

/// The backend debug port from the result of `start_debug_server`.
pub fn dap_port(result: &Json) -> (r: Result<u16, String>)
    ensures
        match ju64(result@) {
            None => r is Err && r->Err_0@ == "start_debug_server did not return a port"@,
            Some(p) => if p <= 65535 {
                r == Ok::<u16, String>(p as u16)
            } else {
                r is Err && r->Err_0@ == "invalid DAP port "@ + crate::rewrite::decimal_chars(p as nat)
            },
        },
{
    match result.as_u64() {
        None => Err(String::from_str("start_debug_server did not return a port")),
        Some(p) => if p <= 65535 {
            Ok(p as u16)
        } else {
            let mut cs = crate::text::chars_of("invalid DAP port ");
            crate::rewrite::push_decimal_chars(&mut cs, p);
            Err(crate::text::string_from_chars(cs.as_slice()))
        },
    }
}

/// The `start_debug_server` arguments: `[root_uri]`.
pub fn start_debug_arguments(root_uri: &str) -> (r: Json)
    ensures
        r@ == JsonV::Array(seq![JsonV::Str(root_uri@)]),
{
    let items = vec![Json::string(root_uri)];
    proof {
        lemma_items_view(items@);
        assert(items_view(items@) =~= seq![JsonV::Str(root_uri@)]);
    }
    Json::Array(items)
}

/// The DAP `output` event that reports a failed start on standard error.
pub fn start_error_event(message: &str) -> (r: Json)
    ensures
        r@ == JsonV::Object(seq![
            ("seq"@, JsonV::UInt(1)),
            ("type"@, JsonV::Str("event"@)),
            ("event"@, JsonV::Str("output"@)),
            ("body"@, JsonV::Object(seq![
                ("category"@, JsonV::Str("stderr"@)),
                ("output"@, JsonV::Str("ij-zed-proxy --dap: "@ + message@ + "\n"@)),
            ])),
        ]),
{
    let text = String::from_str("ij-zed-proxy --dap: ").concat(message).concat("\n");
    let c = member("category", Json::string("stderr"));
    let o = member("output", Json::Str(text));
    let body_fields = vec![c, o];
    proof {
        lemma_fields_view_two(c, o);
        assert(body_fields@ =~= seq![c, o]);
    }
    let a = member("seq", Json::UInt(1));
    let b = member("type", Json::string("event"));
    let e = member("event", Json::string("output"));
    let d = member("body", object(body_fields));
    let fields = vec![a, b, e, d];
    proof {
        lemma_fields_view_four(a, b, e, d);
        assert(fields@ =~= seq![a, b, e, d]);
    }
    object(fields)
}

// ---------------------------------------------------------------------------
// Client → backend
// ---------------------------------------------------------------------------

/// What to do with a DAP message from the editor.
pub enum FrameDecision {
    /// Send the received bytes unchanged.
    Raw,
    /// Send this message instead.
    Send(Json),
    /// A `launch` request: complete it with a [`LaunchEnricher`] first.
    Enrich(Json),
}

pub enum FrameDecisionV {
    Raw,
    Send(JsonV),
    Enrich(JsonV),
}

pub open spec fn frame_decision_view(d: FrameDecision) -> FrameDecisionV {
    match d {
        FrameDecision::Raw => FrameDecisionV::Raw,
        FrameDecision::Send(j) => FrameDecisionV::Send(j@),
        FrameDecision::Enrich(j) => FrameDecisionV::Enrich(j@),
    }
}

pub open spec fn is_request_for(msg: JsonV, command: Seq<char>) -> bool {
    jstr(jidx(msg, "type"@)) == Some("request"@) && jstr(jidx(msg, "command"@)) == Some(command)
}

/// The debug type the backend recognizes, whatever the client sent.
pub open spec fn backend_adapter_id() -> Seq<char> {
    "intellij_debugger"@
}

pub open spec fn spec_frame_decision(parsed: Option<JsonV>) -> FrameDecisionV {
    match parsed {
        Some(msg) => if is_request_for(msg, "initialize"@) {
            FrameDecisionV::Send(with_member(msg, "arguments"@,
                with_member(jidx(msg, "arguments"@), "adapterID"@, JsonV::Str(backend_adapter_id()))))
        } else if is_request_for(msg, "launch"@) {
            FrameDecisionV::Enrich(msg)
        } else {
            FrameDecisionV::Raw
        },
        None => FrameDecisionV::Raw,
    }
}

/// An `initialize` request has an object or `null` as its `arguments`.
pub open spec fn frame_ok(parsed: Option<JsonV>) -> bool {
    match parsed {
        Some(msg) => is_request_for(msg, "initialize"@) ==> (jidx(msg, "arguments"@) is Object || jidx(msg, "arguments"@) is Null),
        None => true,
    }
}

fn is_request_for_exec(msg: &Json, command: &str) -> (r: bool)
    ensures
        r == is_request_for(msg@, command@),
{
    let t = match msg.get("type") {
        Some(t) => match t.as_str() {
            Some(t) => str_eq(t, "request"),
            None => false,
        },
        None => false,
    };
    let c = match msg.get("command") {
        Some(c) => match c.as_str() {
            Some(c) => str_eq(c, command),
            None => false,
        },
        None => false,
    };
    t && c
}

/// Whether [`frame_decision`] accepts the message (see [`frame_ok`]).
pub fn frame_supported(parsed: &Option<Json>) -> (r: bool)
    ensures
        r == frame_ok(opt_json_view(*parsed)),
{
    match parsed {
        Some(msg) => {
            if !is_request_for_exec(msg, "initialize") {
                return true;
            }
            match msg.get("arguments") {
                Some(Json::Object(_)) => true,
                Some(Json::Null) => true,
                Some(_) => false,
                None => true,
            }
        },
        None => true,
    }
}

/// Decides what happens to a DAP frame from the editor as its body arrived:
/// reads it as JSON (see [`parse_json`]), then decides as [`frame_decision`].
/// `None` for an `initialize` request whose `arguments` are neither an
/// object nor null, where no adapter id can be set.
pub fn frame_message(body: &[u8]) -> (r: Option<FrameDecision>)
    ensures
        frame_ok(parsed_json(body@)) ==> r is Some && frame_decision_view(r->Some_0) == spec_frame_decision(
            parsed_json(body@),
        ),
        !frame_ok(parsed_json(body@)) ==> r is None,
{
    let parsed = parse_json(body);
    if !frame_supported(&parsed) {
        return None;
    }
    Some(frame_decision(parsed))
}

/// Decides what happens to a DAP message from the editor (`parsed`: the
/// frame body read as JSON, when it is JSON).
pub fn frame_decision(parsed: Option<Json>) -> (r: FrameDecision)
    requires
        frame_ok(opt_json_view(parsed)),
    ensures
        frame_decision_view(r) == spec_frame_decision(opt_json_view(parsed)),
{
    match parsed {
        Some(msg) => {
            if is_request_for_exec(&msg, "initialize") {
                let mut args = match msg.get("arguments") {
                    Some(a) => a.deep_clone(),
                    None => Json::Null,
                };
                args.set("adapterID", Json::string("intellij_debugger"));
                let mut out = msg;
                out.set("arguments", args);
                FrameDecision::Send(out)
            } else if is_request_for_exec(&msg, "launch") {
                FrameDecision::Enrich(msg)
            } else {
                FrameDecision::Raw
            }
        },
        None => FrameDecision::Raw,
    }
}

// ---------------------------------------------------------------------------
// Launch enrichment
// ---------------------------------------------------------------------------

/// A missing value, or anything but a non-empty array.
pub open spec fn is_empty_array(v: Option<JsonV>) -> bool {
    match v {
        Some(JsonV::Array(items)) => items.len() == 0,
        _ => true,
    }
}

/// The launch arguments completed from a `resolveClasspath` result: the
/// class and module paths where the user gave none, the module name where
/// unset.
pub open spec fn with_classpath(args: JsonV, cp: JsonV) -> JsonV {
    let a1 = if is_empty_array(jget(args, "classPaths"@)) {
        match jget(cp, "classpath"@) {
            Some(v) => with_member(args, "classPaths"@, v),
            None => args,
        }
    } else {
        args
    };
    let a2 = if is_empty_array(jget(a1, "modulePaths"@)) {
        match jget(cp, "modulePath"@) {
            Some(v) => with_member(a1, "modulePaths"@, v),
            None => a1,
        }
    } else {
        a1
    };
    if jget(a2, "moduleName"@) is None {
        match jget(cp, "moduleName"@) {
            Some(v) => with_member(a2, "moduleName"@, v),
            None => a2,
        }
    } else {
        a2
    }
}

/// The launch arguments with member `key` taken from member `field` of a
/// resolver's result, when the result has it.
pub open spec fn with_resolved(args: JsonV, key: Seq<char>, result: JsonV, field: Seq<char>) -> JsonV {
    match jget(result, field) {
        Some(v) => with_member(args, key, v),
        None => args,
    }
}

/// Where the enrichment stands.
#[derive(Debug, Clone, Copy, PartialEq, Eq, Structural)]
pub enum EnrichPhase {
    Start,
    Document,
    Classpath,
    WorkingDirectory,
    JavaExecutable,
    Finished,
}

/// The next step of the enrichment.
pub enum EnrichStep {
    /// Run this control command with these arguments, then report its outcome.
    Call(String, Json),
    /// Send this launch request.
    Done(Json),
}

/// Completion of a `launch` request with the four `intellij.java.resolve*`
/// round-trips of the VS Code client, applied only to fields the user left
/// unset: the class document (unless `file` is given), the class and
/// module paths, the working directory and the Java executable.
pub struct LaunchEnricher {
    /// The request being completed.
    pub msg: Json,
    /// Its `arguments` as completed so far.
    pub args: Json,
    /// The document URI of the main class.
    pub uri: String,
    pub phase: EnrichPhase,
}

pub open spec fn uri_arguments(uri: Seq<char>) -> JsonV {
    JsonV::Array(seq![JsonV::Object(seq![("uri"@, JsonV::Str(uri))])])
}

pub open spec fn is_call(s: EnrichStep, command: Seq<char>, arguments: JsonV) -> bool {
    s is Call && s->Call_0@ == command && s->Call_1@ == arguments
}

/// The request with the completed arguments.
pub open spec fn finished_msg(msg: JsonV, args: JsonV) -> JsonV {
    with_member(msg, "arguments"@, args)
}

fn uri_arguments_exec(uri: &str) -> (r: Json)
    ensures
        r@ == uri_arguments(uri@),
{
    let a = member("uri", Json::string(uri));
    let fields = vec![a];
    proof {
        lemma_fields_view_one(a);
        assert(fields@ =~= seq![a]);
    }
    let items = vec![object(fields)];
    proof {
        lemma_items_view(items@);
        assert(items_view(items@) =~= seq![JsonV::Object(seq![("uri"@, JsonV::Str(uri@))])]);
    }
    Json::Array(items)
}

pub open spec fn is_done(s: EnrichStep, msg: JsonV) -> bool {
    s is Done && s->Done_0@ == msg
}

/// The fully qualified class name argument of `resolveClassDocument`.
pub open spec fn fqn_arguments(fqn: Seq<char>) -> JsonV {
    JsonV::Array(seq![JsonV::Object(seq![("fqn"@, JsonV::Str(fqn))])])
}

/// After the class path: resolve the working directory when `cwd` is
/// unset, else the Java executable when `javaExec` is unset, else stop.
pub open spec fn after_classpath(t: LaunchEnricher, step: EnrichStep) -> bool {
    if jget(t.args@, "cwd"@) is None {
        t.phase == EnrichPhase::WorkingDirectory
            && is_call(step, "intellij.java.resolveWorkingDirectory"@, uri_arguments(t.uri@))
    } else {
        after_working_directory(t, step)
    }
}

/// After the working directory: resolve the Java executable when
/// `javaExec` is unset, else stop.
pub open spec fn after_working_directory(t: LaunchEnricher, step: EnrichStep) -> bool {
    if jget(t.args@, "javaExec"@) is None {
        t.phase == EnrichPhase::JavaExecutable
            && is_call(step, "intellij.java.resolveJavaExecutable"@, uri_arguments(t.uri@))
    } else {
        t.phase == EnrichPhase::Finished && is_done(step, finished_msg(t.msg@, t.args@))
    }
}

/// The resolver's result, when the call succeeded.
pub open spec fn ok_value(outcome: Result<Json, String>) -> Option<JsonV> {
    match outcome {
        Ok(v) => Some(v@),
        Err(_) => None,
    }
}

/// The transition of the enrichment on the outcome of the last call
/// (`None` to start).
pub open spec fn enrich_step(s: LaunchEnricher, outcome: Option<Result<Json, String>>, t: LaunchEnricher, step: EnrichStep) -> bool {
    &&& t.msg@ == s.msg@
    &&& match s.phase {
        EnrichPhase::Start => match jget(s.msg@, "arguments"@) {
            None => t.phase == EnrichPhase::Finished && is_done(step, s.msg@),
            Some(args) => match jstr(jidx(args, "mainClass"@)) {
                None => t.phase == EnrichPhase::Finished && is_done(step, s.msg@),
                Some(main_class) => t.args@ == args && match jstr(jidx(args, "file"@)) {
                    Some(file) => t.uri@ == "file://"@ + file && t.phase == EnrichPhase::Classpath
                        && is_call(step, "intellij.java.resolveClasspath"@, uri_arguments(t.uri@)),
                    None => t.phase == EnrichPhase::Document
                        && is_call(step, "intellij.java.resolveClassDocument"@, fqn_arguments(main_class)),
                },
            },
        },
        EnrichPhase::Document => {
            let uri = match ok_value(outcome.unwrap()) {
                Some(r) => jstr(jidx(r, "uri"@)),
                None => None,
            };
            match uri {
                None => t.phase == EnrichPhase::Finished && is_done(step, s.msg@),
                Some(u) => t.uri@ == u && t.args@ == s.args@ && t.phase == EnrichPhase::Classpath
                    && is_call(step, "intellij.java.resolveClasspath"@, uri_arguments(u)),
            }
        },
        EnrichPhase::Classpath => t.uri@ == s.uri@ && t.args@ == match ok_value(outcome.unwrap()) {
            Some(cp) => with_classpath(s.args@, cp),
            None => s.args@,
        } && after_classpath(t, step),
        EnrichPhase::WorkingDirectory => t.uri@ == s.uri@ && t.args@ == match ok_value(outcome.unwrap()) {
            Some(wd) => with_resolved(s.args@, "cwd"@, wd, "workingDirectory"@),
            None => s.args@,
        } && after_working_directory(t, step),
        EnrichPhase::JavaExecutable => {
            let args = match ok_value(outcome.unwrap()) {
                Some(je) => with_resolved(s.args@, "javaExec"@, je, "javaExec"@),
                None => s.args@,
            };
            t.phase == EnrichPhase::Finished && is_done(step, finished_msg(s.msg@, args))
        },
        EnrichPhase::Finished => false,
    }
}

/// The enrichment is consistent: while it waits for a call, the request is
/// an object and its arguments as completed so far are an object.
pub open spec fn enricher_wf(e: LaunchEnricher) -> bool {
    (e.phase != EnrichPhase::Start && e.phase != EnrichPhase::Finished) ==> (e.msg@ is Object && e.args@ is Object)
}

fn resolved_member(args: &mut Json, key: &str, result: &Json, field: &str)
    requires
        old(args)@ is Object,
    ensures
        final(args)@ == with_resolved(old(args)@, key@, result@, field@),
        final(args)@ is Object,
{
    match result.get(field) {
        Some(v) => args.set(key, v.deep_clone()),
        None => {},
    }
}

fn empty_array_member(args: &Json, key: &str) -> (r: bool)
    ensures
        r == is_empty_array(jget(args@, key@)),
{
    match args.get(key) {
        Some(Json::Array(items)) => {
            proof {
                lemma_items_view(items@);
            }
            items.len() == 0
        },
        _ => true,
    }
}

impl LaunchEnricher {
    pub fn new(msg: Json) -> (r: LaunchEnricher)
        ensures
            r.msg@ == msg@,
            r.phase == EnrichPhase::Start,
            enricher_wf(r),
    {
        LaunchEnricher { msg, args: Json::Null, uri: String::new(), phase: EnrichPhase::Start }
    }

    fn finish(&mut self) -> (s: EnrichStep)
        requires
            old(self).msg@ is Object,
        ensures
            final(self).phase == EnrichPhase::Finished,
            final(self).msg == old(self).msg,
            final(self).args == old(self).args,
            final(self).uri == old(self).uri,
            is_done(s, finished_msg(old(self).msg@, old(self).args@)),
    {
        self.phase = EnrichPhase::Finished;
        let mut out = self.msg.deep_clone();
        out.set("arguments", self.args.deep_clone());
        EnrichStep::Done(out)
    }

    fn next_after_working_directory(&mut self) -> (s: EnrichStep)
        requires
            old(self).msg@ is Object,
            old(self).args@ is Object,
        ensures
            final(self).msg == old(self).msg,
            final(self).args == old(self).args,
            final(self).uri == old(self).uri,
            after_working_directory(*final(self), s),
            enricher_wf(*final(self)),
    {
        if self.args.get("javaExec").is_none() {
            self.phase = EnrichPhase::JavaExecutable;
            return EnrichStep::Call(String::from_str("intellij.java.resolveJavaExecutable"), uri_arguments_exec(self.uri.as_str()));
        }
        self.finish()
    }

    fn next_after_classpath(&mut self) -> (s: EnrichStep)
        requires
            old(self).msg@ is Object,
            old(self).args@ is Object,
        ensures
            final(self).msg == old(self).msg,
            final(self).args == old(self).args,
            final(self).uri == old(self).uri,
            after_classpath(*final(self), s),
            enricher_wf(*final(self)),
    {
        if self.args.get("cwd").is_none() {
            self.phase = EnrichPhase::WorkingDirectory;
            return EnrichStep::Call(String::from_str("intellij.java.resolveWorkingDirectory"), uri_arguments_exec(self.uri.as_str()));
        }
        self.next_after_working_directory()
    }

    fn done_unchanged(&mut self) -> (s: EnrichStep)
        ensures
            final(self).phase == EnrichPhase::Finished,
            final(self).msg == old(self).msg,
            is_done(s, old(self).msg@),
    {
        self.phase = EnrichPhase::Finished;
        EnrichStep::Done(self.msg.deep_clone())
    }

    /// Advances the enrichment: `outcome` is `None` to start, then the
    /// outcome of each requested call.
    pub fn step(&mut self, outcome: Option<Result<Json, String>>) -> (s: EnrichStep)
        requires
            enricher_wf(*old(self)),
            old(self).phase != EnrichPhase::Finished,
            old(self).phase == EnrichPhase::Start <==> outcome is None,
        ensures
            enricher_wf(*final(self)),
            enrich_step(*old(self), outcome, *final(self), s),
    {
        match self.phase {
            EnrichPhase::Start => {
                let args = match self.msg.get("arguments") {
                    Some(a) => a.deep_clone(),
                    None => return self.done_unchanged(),
                };
                let main_class = match args.get("mainClass") {
                    Some(m) => match m.as_str() {
                        Some(m) => String::from_str(m),
                        None => return self.done_unchanged(),
                    },
                    None => return self.done_unchanged(),
                };
                let file = match args.get("file") {
                    Some(f) => match f.as_str() {
                        Some(f) => Some(String::from_str(f)),
                        None => None,
                    },
                    None => None,
                };
                self.args = args;
                match file {
                    Some(f) => {
                        self.uri = String::from_str("file://").concat(f.as_str());
                        self.phase = EnrichPhase::Classpath;
                        EnrichStep::Call(String::from_str("intellij.java.resolveClasspath"), uri_arguments_exec(self.uri.as_str()))
                    },
                    None => {
                        self.phase = EnrichPhase::Document;
                        let a = member("fqn", Json::Str(main_class));
                        let fields = vec![a];
                        proof {
                            lemma_fields_view_one(a);
                            assert(fields@ =~= seq![a]);
                        }
                        let items = vec![object(fields)];
                        proof {
                            lemma_items_view(items@);
                            assert(items_view(items@) =~= seq![items@[0]@]);
                        }
                        EnrichStep::Call(String::from_str("intellij.java.resolveClassDocument"), Json::Array(items))
                    },
                }
            },
            EnrichPhase::Document => {
                let uri = match outcome {
                    Some(Ok(r)) => match r.get("uri") {
                        Some(u) => match u.as_str() {
                            Some(u) => Some(String::from_str(u)),
                            None => None,
                        },
                        None => None,
                    },
                    _ => None,
                };
                match uri {
                    None => self.done_unchanged(),
                    Some(u) => {
                        self.uri = u;
                        self.phase = EnrichPhase::Classpath;
                        EnrichStep::Call(String::from_str("intellij.java.resolveClasspath"), uri_arguments_exec(self.uri.as_str()))
                    },
                }
            },
            EnrichPhase::Classpath => {
                match outcome {
                    Some(Ok(cp)) => {
                        if empty_array_member(&self.args, "classPaths") {
                            resolved_member(&mut self.args, "classPaths", &cp, "classpath");
                        }
                        if empty_array_member(&self.args, "modulePaths") {
                            resolved_member(&mut self.args, "modulePaths", &cp, "modulePath");
                        }
                        if self.args.get("moduleName").is_none() {
                            resolved_member(&mut self.args, "moduleName", &cp, "moduleName");
                        }
                    },
                    _ => {},
                }
                self.next_after_classpath()
            },
            EnrichPhase::WorkingDirectory => {
                match outcome {
                    Some(Ok(wd)) => resolved_member(&mut self.args, "cwd", &wd, "workingDirectory"),
                    _ => {},
                }
                self.next_after_working_directory()
            },
            EnrichPhase::JavaExecutable => {
                match outcome {
                    Some(Ok(je)) => resolved_member(&mut self.args, "javaExec", &je, "javaExec"),
                    _ => {},
                }
                self.finish()
            },
            EnrichPhase::Finished => EnrichStep::Done(self.msg.deep_clone()),
        }
    }
}


/// Enrichment only fills what the user left unset: once the class document
/// is known, a launch whose arguments give a non-empty `classPaths` array
/// keeps exactly that member through every resolver round-trip, whatever
/// `resolveClasspath` (or any other resolver) answers, and the request that
/// is finally sent carries it.
pub proof fn lemma_user_class_path_kept(
    s: LaunchEnricher,
    outcome: Option<Result<Json, String>>,
    t: LaunchEnricher,
    step: EnrichStep,
    items: Seq<JsonV>,
)
    requires
        enricher_wf(s),
        s.phase == EnrichPhase::Document || s.phase == EnrichPhase::Classpath || s.phase
            == EnrichPhase::WorkingDirectory,
        outcome is Some,
        enrich_step(s, outcome, t, step),
        jget(s.args@, "classPaths"@) == Some(JsonV::Array(items)),
        items.len() > 0,
    ensures
        (s.phase != EnrichPhase::Document || t.phase == EnrichPhase::Classpath) ==> jget(t.args@, "classPaths"@)
            == Some(JsonV::Array(items)),
        (s.phase != EnrichPhase::Document && step is Done) ==> jget(jidx(step->Done_0@, "arguments"@), "classPaths"@)
            == Some(JsonV::Array(items)),
{
    reveal_strlit("classPaths");
    reveal_strlit("modulePaths");
    reveal_strlit("moduleName");
    reveal_strlit("cwd");
    assert("classPaths"@ != "modulePaths"@) by {
        assert("classPaths"@.len() != "modulePaths"@.len());
    }
    assert("classPaths"@ != "moduleName"@) by {
        assert("classPaths"@[0] != "moduleName"@[0]);
    }
    assert("classPaths"@ != "cwd"@) by {
        assert("classPaths"@.len() != "cwd"@.len());
    }
    let args = s.args@;
    if s.phase == EnrichPhase::Classpath {
        match ok_value(outcome.unwrap()) {
            Some(cp) => {
                let a1 = args;
                let a2 = if is_empty_array(jget(a1, "modulePaths"@)) {
                    match jget(cp, "modulePath"@) {
                        Some(v) => with_member(a1, "modulePaths"@, v),
                        None => a1,
                    }
                } else {
                    a1
                };
                if is_empty_array(jget(a1, "modulePaths"@)) {
                    match jget(cp, "modulePath"@) {
                        Some(v) => lemma_read_other_after_set(a1, "modulePaths"@, "classPaths"@, v),
                        None => {},
                    }
                }
                assert(a2 is Object);
                if jget(a2, "moduleName"@) is None {
                    match jget(cp, "moduleName"@) {
                        Some(v) => lemma_read_other_after_set(a2, "moduleName"@, "classPaths"@, v),
                        None => {},
                    }
                }
                assert(t.args@ == with_classpath(args, cp));
            },
            None => {},
        }
    } else if s.phase == EnrichPhase::WorkingDirectory {
        match ok_value(outcome.unwrap()) {
            Some(wd) => match jget(wd, "workingDirectory"@) {
                Some(v) => lemma_read_other_after_set(args, "cwd"@, "classPaths"@, v),
                None => {},
            },
            None => {},
        }
    }
    if s.phase != EnrichPhase::Document && step is Done {
        lemma_read_after_set(t.msg@, "arguments"@, t.args@);
    }
}

} // verus!
