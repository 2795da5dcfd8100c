//! The interception table of the LSP pump. Traffic passes through byte for
//! byte except:
//! - `initialize` (client → server): the options get `intellijExtensions: true`
//!   and are remembered;
//! - navigation requests (client → server) are tracked, so that their
//!   responses can have `jar:`/`jrt:` targets materialized and rewritten;
//! - `didSave` of a build descriptor is relayed, then the workspace reloaded;
//! - `intellij/chooseAction` (server → client) becomes
//!   `window/showMessageRequest`, whose answer goes back as
//!   `chooseModCommandAction`;
//! - `intellij/copyToClipboard` sets the system clipboard;
//! - `intellij/importLog` becomes `window/logMessage` (and an error message
//!   when the import failed);
//! - responses to the proxy's own requests are never forwarded.

use vstd::prelude::*;
use vstd::utf8::{encode_utf8, is_ascii_chars};
use crate::text::{chars_of, has_prefix, starts_with};
use crate::json::{
    Json, JsonV, jget, jidx, jstr, ju64, jbool, json_text, to_json_text, with_member, str_eq, opt_json_view, parse_json, parsed_json,
    object, member, fields_view, items_view, lemma_items_view, lemma_fields_view_two,
    lemma_fields_view_three, lemma_fields_view_four, lemma_fields_view_one, opt_view,
};
use crate::rewrite::{decimal_chars, push_decimal_chars};
use crate::buildfiles::{is_build_file_path, spec_is_build_file_path};
use crate::proxy::{contains, spec_contains};

verus! {

broadcast use vstd::string::group_string_axioms;

/// Prefix of the ids of requests the proxy itself sends.
pub open spec fn proxy_prefix() -> Seq<char> {
    "ij-proxy:"@
}

/// Navigation methods whose responses may hold `jar:`/`jrt:` locations.
pub open spec fn nav_methods() -> Seq<Seq<char>> {
    seq![
        "textDocument/definition"@,
        "textDocument/typeDefinition"@,
        "textDocument/implementation"@,
        "textDocument/references"@,
        "textDocument/documentSymbol"@,
        "workspace/symbol"@,
        "inlayHint/resolve"@,
        "textDocument/hover"@,
    ]
}

fn nav_method_list() -> (v: Vec<&'static str>)
    ensures
        v@.len() == nav_methods().len(),
        forall|i: int| 0 <= i < v@.len() ==> #[trigger] v@[i]@ == nav_methods()[i],
{
    let v = vec![
        "textDocument/definition",
        "textDocument/typeDefinition",
        "textDocument/implementation",
        "textDocument/references",
        "textDocument/documentSymbol",
        "workspace/symbol",
        "inlayHint/resolve",
        "textDocument/hover",
    ];
    proof {
        assert(v@.len() == 8);
    }
    v
}

fn is_nav_method(m: &str) -> (r: bool)
    ensures
        r == nav_methods().contains(m@),
{
    let list = nav_method_list();
    let mut i: usize = 0;
    while i < list.len()
        invariant
            i <= list@.len(),
            list@.len() == nav_methods().len(),
            forall|k: int| 0 <= k < list@.len() ==> #[trigger] list@[k]@ == nav_methods()[k],
            forall|k: int| 0 <= k < i ==> nav_methods()[k] != m@,
        decreases list@.len() - i,
    {
        if str_eq(list[i], m) {
            assert(nav_methods()[i as int] == m@);
            return true;
        }
        i = i + 1;
    }
    false
}

/// The bytes of an ASCII literal, which are never empty.
fn literal_bytes(s: &str) -> (r: &[u8])
    requires
        s@.len() > 0,
        is_ascii_chars(s@),
    ensures
        r@ == encode_utf8(s@),
        r@.len() > 0,
{
    proof {
        vstd::utf8::is_ascii_chars_encode_utf8(s@);
    }
    s.as_bytes()
}

/// Traffic from the client worth parsing: it mentions the proxy's ids or a method.
pub open spec fn client_interesting(body: Seq<u8>) -> bool {
    spec_contains(body, encode_utf8("ij-proxy:"@)) || spec_contains(body, encode_utf8("\"method\""@))
}

/// Traffic from the server worth parsing.
pub open spec fn server_interesting(body: Seq<u8>) -> bool {
    spec_contains(body, encode_utf8("ij-proxy:"@)) || spec_contains(body, encode_utf8("intellij/"@))
        || spec_contains(body, encode_utf8("jar:"@)) || spec_contains(body, encode_utf8("jrt:"@))
        || spec_contains(body, encode_utf8("navigateToLocation"@))
}

fn client_interesting_exec(body: &[u8]) -> (r: bool)
    ensures
        r == client_interesting(body@),
{
    proof {
        reveal_strlit("ij-proxy:");
        reveal_strlit("\"method\"");
    }
    contains(body, literal_bytes("ij-proxy:")) || contains(body, literal_bytes("\"method\""))
}

fn server_interesting_exec(body: &[u8]) -> (r: bool)
    ensures
        r == server_interesting(body@),
{
    proof {
        reveal_strlit("ij-proxy:");
        reveal_strlit("intellij/");
        reveal_strlit("jar:");
        reveal_strlit("jrt:");
        reveal_strlit("navigateToLocation");
    }
    contains(body, literal_bytes("ij-proxy:")) || contains(body, literal_bytes("intellij/"))
        || contains(body, literal_bytes("jar:")) || contains(body, literal_bytes("jrt:"))
        || contains(body, literal_bytes("navigateToLocation"))
}

// ---------------------------------------------------------------------------
// State
// ---------------------------------------------------------------------------

/// An open `window/showMessageRequest` for a server `chooseAction`.
pub struct ChooseActionPending {
    pub session_id: u64,
    /// Entry index by action title.
    pub indexes: Vec<(String, u64)>,
}

/// The pump's memory of requests in flight.
pub struct Router {
    /// Ids of the proxy's own requests to the server awaiting a response.
    pub pending_server: Vec<String>,
    /// Ids of the proxy's own requests to the client, with what they are for.
    pub pending_client: Vec<(String, ChooseActionPending)>,
    /// JSON texts of the ids of navigation requests in flight.
    pub nav_requests: Vec<String>,
    pub next_proxy_id: u64,
    /// The `initializationOptions` the client started the server with.
    pub init_options: Json,
}

/// What a pending choice holds.
pub struct PendingV {
    pub session_id: u64,
    pub indexes: Seq<(Seq<char>, u64)>,
}

/// The router's state as mathematical values.
pub struct RouterV {
    pub pending_server: Seq<Seq<char>>,
    pub pending_client: Seq<(Seq<char>, PendingV)>,
    pub nav_requests: Seq<Seq<char>>,
    pub next_proxy_id: u64,
    pub init_options: JsonV,
}

pub open spec fn index_pairs_view(v: Seq<(String, u64)>) -> Seq<(Seq<char>, u64)> {
    v.map_values(|p: (String, u64)| (p.0@, p.1))
}

pub open spec fn pending_view(p: ChooseActionPending) -> PendingV {
    PendingV { session_id: p.session_id, indexes: index_pairs_view(p.indexes@) }
}

pub open spec fn pending_list_view(v: Seq<(String, ChooseActionPending)>) -> Seq<(Seq<char>, PendingV)> {
    v.map_values(|p: (String, ChooseActionPending)| (p.0@, pending_view(p.1)))
}

pub open spec fn strings_of(v: Seq<String>) -> Seq<Seq<char>> {
    v.map_values(|s: String| s@)
}

impl View for Router {
    type V = RouterV;

    open spec fn view(&self) -> RouterV {
        RouterV {
            pending_server: strings_of(self.pending_server@),
            pending_client: pending_list_view(self.pending_client@),
            nav_requests: strings_of(self.nav_requests@),
            next_proxy_id: self.next_proxy_id,
            init_options: self.init_options@,
        }
    }
}

// ---------------------------------------------------------------------------
// Keyed lists
// ---------------------------------------------------------------------------

/// The list without the entries equal to `k`.
pub open spec fn without(s: Seq<Seq<char>>, k: Seq<char>) -> Seq<Seq<char>>
    decreases s.len(),
{
    if s.len() == 0 {
        s
    } else if s.last() == k {
        without(s.drop_last(), k)
    } else {
        without(s.drop_last(), k).push(s.last())
    }
}

/// Adds `k` unless it is there already.
pub open spec fn with(s: Seq<Seq<char>>, k: Seq<char>) -> Seq<Seq<char>> {
    if s.contains(k) {
        s
    } else {
        s.push(k)
    }
}

/// The entries of `m` not keyed by `k`.
pub open spec fn without_key(m: Seq<(Seq<char>, PendingV)>, k: Seq<char>) -> Seq<(Seq<char>, PendingV)>
    decreases m.len(),
{
    if m.len() == 0 {
        m
    } else if m.last().0 == k {
        without_key(m.drop_last(), k)
    } else {
        without_key(m.drop_last(), k).push(m.last())
    }
}

/// The value keyed by `k` (the latest entry).
pub open spec fn lookup(m: Seq<(Seq<char>, PendingV)>, k: Seq<char>) -> Option<PendingV>
    decreases m.len(),
{
    if m.len() == 0 {
        None
    } else if m.last().0 == k {
        Some(m.last().1)
    } else {
        lookup(m.drop_last(), k)
    }
}

/// Removing an absent entry changes nothing.
pub proof fn lemma_without_absent(s: Seq<Seq<char>>, k: Seq<char>)
    requires
        !s.contains(k),
    ensures
        without(s, k) == s,
    decreases s.len(),
{
    if s.len() > 0 {
        assert(!s.drop_last().contains(k)) by {
            if s.drop_last().contains(k) {
                let j = choose|j: int| 0 <= j < s.drop_last().len() && s.drop_last()[j] == k;
                assert(s[j] == k);
            }
        }
        lemma_without_absent(s.drop_last(), k);
        assert(s.len() > 0 ==> s[s.len() - 1] == s.last());
        assert(s.drop_last().push(s.last()) =~= s);
    }
}

/// Removing an absent key changes nothing.
pub proof fn lemma_without_key_absent(m: Seq<(Seq<char>, PendingV)>, k: Seq<char>)
    requires
        lookup(m, k) is None,
    ensures
        without_key(m, k) == m,
    decreases m.len(),
{
    if m.len() > 0 {
        lemma_without_key_absent(m.drop_last(), k);
        assert(m.drop_last().push(m.last()) =~= m);
    }
}

/// Removes every entry equal to `k`; returns whether there was one.
fn remove_string(v: &mut Vec<String>, k: &str) -> (found: bool)
    ensures
        strings_of(final(v)@) == without(strings_of(old(v)@), k@),
        found == strings_of(old(v)@).contains(k@),
{
    let ghost sv = strings_of(v@);
    let mut out: Vec<String> = Vec::new();
    let mut found = false;
    let mut i: usize = 0;
    while i < v.len()
        invariant
            i <= v@.len(),
            sv == strings_of(v@),
            sv.len() == v@.len(),
            v@ == old(v)@,
            strings_of(out@) == without(sv.take(i as int), k@),
            found == sv.take(i as int).contains(k@),
        decreases v@.len() - i,
    {
        let ghost before = out@;
        assert(sv[i as int] == v@[i as int]@);
        assert(sv.take(i + 1).drop_last() =~= sv.take(i as int));
        assert(sv.take(i + 1).last() == v@[i as int]@);
        if str_eq(v[i].as_str(), k) {
            found = true;
            assert(sv.take(i + 1)[i as int] == k@);
        } else {
            let c = v[i].clone();
            out.push(c);
            assert(strings_of(out@) =~= strings_of(before).push(c@));
            proof {
                if !sv.take(i as int).contains(k@) {
                    assert forall|j: int| 0 <= j < i + 1 implies #[trigger] sv.take(i + 1)[j] != k@ by {
                        if j < i {
                            assert(sv.take(i + 1)[j] == sv.take(i as int)[j]);
                        }
                    }
                }
            }
        }
        proof {
            if sv.take(i as int).contains(k@) {
                let j = choose|j: int| 0 <= j < i && #[trigger] sv.take(i as int)[j] == k@;
                assert(sv.take(i + 1)[j] == k@);
            }
            if sv.take(i + 1).contains(k@) && !sv.take(i as int).contains(k@) {
                let j = choose|j: int| 0 <= j < i + 1 && #[trigger] sv.take(i + 1)[j] == k@;
                if j < i {
                    assert(sv.take(i as int)[j] == k@);
                }
            }
        }
        i = i + 1;
    }
    assert(sv.take(v@.len() as int) =~= sv);
    *v = out;
    found
}

/// Adds `k` unless it is there already.
fn insert_string(v: &mut Vec<String>, k: String)
    ensures
        strings_of(final(v)@) == with(strings_of(old(v)@), k@),
{
    let ghost sv = strings_of(v@);
    let mut i: usize = 0;
    while i < v.len()
        invariant
            i <= v@.len(),
            sv == strings_of(v@),
            sv.len() == v@.len(),
            v@ == old(v)@,
            forall|j: int| 0 <= j < i ==> sv[j] != k@,
        decreases v@.len() - i,
    {
        assert(sv[i as int] == v@[i as int]@);
        if v[i] == k {
            assert(sv.contains(k@));
            return;
        }
        i = i + 1;
    }
    let ghost kv = k@;
    v.push(k);
    assert(strings_of(v@) =~= sv.push(kv));
}

fn clone_indexes(v: &Vec<(String, u64)>) -> (r: Vec<(String, u64)>)
    ensures
        index_pairs_view(r@) == index_pairs_view(v@),
{
    let mut out: Vec<(String, u64)> = Vec::new();
    let mut i: usize = 0;
    while i < v.len()
        invariant
            i <= v@.len(),
            index_pairs_view(out@) == index_pairs_view(v@).take(i as int),
        decreases v@.len() - i,
    {
        let e = (v[i].0.clone(), v[i].1);
        let ghost before = out@;
        out.push(e);
        assert(index_pairs_view(out@) =~= index_pairs_view(before).push((e.0@, e.1)));
        assert(index_pairs_view(v@).take(i + 1) =~= index_pairs_view(v@).take(i as int).push((v@[i as int].0@, v@[i as int].1)));
        i = i + 1;
    }
    assert(index_pairs_view(v@).take(v@.len() as int) =~= index_pairs_view(v@));
    out
}

/// Removes the entries keyed by `k`; returns the latest one's value.
fn take_pending(v: &mut Vec<(String, ChooseActionPending)>, k: &str) -> (r: Option<ChooseActionPending>)
    ensures
        pending_list_view(final(v)@) == without_key(pending_list_view(old(v)@), k@),
        match r {
            Some(p) => lookup(pending_list_view(old(v)@), k@) == Some(pending_view(p)),
            None => lookup(pending_list_view(old(v)@), k@) is None,
        },
{
    let ghost pv = pending_list_view(v@);
    let mut kept: Vec<(String, ChooseActionPending)> = Vec::new();
    let mut found: Option<ChooseActionPending> = None;
    let mut taken = Vec::new();
    core::mem::swap(&mut taken, v);
    let ghost tv = taken@;
    assert(pending_list_view(tv) == pv);
    let mut i: usize = 0;
    while i < taken.len()
        invariant
            i <= taken@.len(),
            taken@ == tv,
            pv == pending_list_view(tv),
            pv.len() == tv.len(),
            pending_list_view(kept@) == without_key(pv.take(i as int), k@),
            match found {
                Some(p) => lookup(pv.take(i as int), k@) == Some(pending_view(p)),
                None => lookup(pv.take(i as int), k@) is None,
            },
        decreases taken@.len() - i,
    {
        let ghost before = kept@;
        assert(pv[i as int] == (tv[i as int].0@, pending_view(tv[i as int].1)));
        assert(pv.take(i + 1).drop_last() =~= pv.take(i as int));
        assert(pv.take(i + 1).last() == pv[i as int]);
        let key = taken[i].0.clone();
        let session_id = taken[i].1.session_id;
        let indexes = clone_indexes(&taken[i].1.indexes);
        let entry = ChooseActionPending { session_id, indexes };
        if str_eq(key.as_str(), k) {
            found = Some(entry);
        } else {
            let ghost ev = (key@, pending_view(entry));
            kept.push((key, entry));
            assert(pending_list_view(kept@) =~= pending_list_view(before).push(ev));
        }
        i = i + 1;
    }
    assert(pv.take(tv.len() as int) =~= pv);
    *v = kept;
    found
}

/// Replaces the entry keyed by `k`.
fn put_pending(v: &mut Vec<(String, ChooseActionPending)>, k: String, p: ChooseActionPending)
    ensures
        pending_list_view(final(v)@) == without_key(pending_list_view(old(v)@), k@).push((k@, pending_view(p))),
{
    let _ = take_pending(v, k.as_str());
    let ghost before = v@;
    let ghost e = (k@, pending_view(p));
    v.push((k, p));
    assert(pending_list_view(v@) =~= pending_list_view(before).push(e));
}

// ---------------------------------------------------------------------------
// Messages
// ---------------------------------------------------------------------------

/// A JSON-RPC request.
pub open spec fn request_v(id: JsonV, method: Seq<char>, params: JsonV) -> JsonV {
    JsonV::Object(seq![("jsonrpc"@, JsonV::Str("2.0"@)), ("id"@, id), ("method"@, JsonV::Str(method)), ("params"@, params)])
}

/// A JSON-RPC notification.
pub open spec fn notification_v(method: Seq<char>, params: JsonV) -> JsonV {
    JsonV::Object(seq![("jsonrpc"@, JsonV::Str("2.0"@)), ("method"@, JsonV::Str(method)), ("params"@, params)])
}

/// `{"jsonrpc": "2.0", "id": id, "method": method, "params": params}`.
pub fn request(id: Json, method: &str, params: Json) -> (r: Json)
    ensures
        r@ == request_v(id@, method@, params@),
{
    let a = member("jsonrpc", Json::string("2.0"));
    let b = member("id", id);
    let c = member("method", Json::string(method));
    let d = member("params", params);
    let fields = vec![a, b, c, d];
    proof {
        lemma_fields_view_four(a, b, c, d);
        assert(fields@ =~= seq![a, b, c, d]);
    }
    object(fields)
}

/// `{"jsonrpc": "2.0", "method": method, "params": params}`.
pub fn notification(method: &str, params: Json) -> (r: Json)
    ensures
        r@ == notification_v(method@, params@),
{
    let a = member("jsonrpc", Json::string("2.0"));
    let b = member("method", Json::string(method));
    let c = member("params", params);
    let fields = vec![a, b, c];
    proof {
        lemma_fields_view_three(a, b, c);
        assert(fields@ =~= seq![a, b, c]);
    }
    object(fields)
}

/// `{"type": kind, "message": text}`.
pub open spec fn message_params(kind: u64, text: Seq<char>) -> JsonV {
    JsonV::Object(seq![("type"@, JsonV::UInt(kind)), ("message"@, JsonV::Str(text))])
}

fn message_params_exec(kind: u64, text: String) -> (r: Json)
    ensures
        r@ == message_params(kind, text@),
{
    let a = member("type", Json::UInt(kind));
    let b = member("message", Json::Str(text));
    let fields = vec![a, b];
    proof {
        lemma_fields_view_two(a, b);
        assert(fields@ =~= seq![a, b]);
    }
    object(fields)
}

/// The id of the proxy's `n`-th own request.
pub open spec fn proxy_id(n: u64) -> Seq<char> {
    proxy_prefix() + decimal_chars(n as nat)
}

fn proxy_id_exec(n: u64) -> (r: String)
    ensures
        r@ == proxy_id(n),
{
    let mut cs = chars_of("ij-proxy:");
    push_decimal_chars(&mut cs, n);
    crate::text::string_from_chars(cs.as_slice())
}

/// The text of `v` when it is a string, else `default`.
pub open spec fn str_or(v: JsonV, default: Seq<char>) -> Seq<char> {
    match jstr(v) {
        Some(s) => s,
        None => default,
    }
}

fn str_or_exec(v: Option<&Json>, default: &str) -> (r: String)
    ensures
        r@ == str_or(crate::server::opt_or_null(opt_view(v)), default@),
{
    match v {
        Some(j) => match j.as_str() {
            Some(s) => String::from_str(s),
            None => String::from_str(default),
        },
        None => String::from_str(default),
    }
}

/// `v[key]` (missing members read as `null`) as an optional reference.
fn at<'a>(v: Option<&'a Json>, key: &str) -> (r: Option<&'a Json>)
    ensures
        crate::server::opt_or_null(opt_view(r)) == jidx(crate::server::opt_or_null(opt_view(v)), key@),
{
    match v {
        Some(j) => j.get(key),
        None => None,
    }
}

// ---------------------------------------------------------------------------
// chooseAction
// ---------------------------------------------------------------------------

pub open spec fn entry_name(e: JsonV) -> Seq<char> {
    str_or(jidx(e, "name"@), "?"@)
}

pub open spec fn entry_index(e: JsonV) -> u64 {
    match ju64(jidx(e, "index"@)) {
        Some(i) => i,
        None => 0,
    }
}

pub open spec fn choice_entries(params: JsonV) -> Seq<JsonV> {
    match jidx(params, "entries"@) {
        JsonV::Array(items) => items,
        _ => Seq::empty(),
    }
}

/// The `window/showMessageRequest` actions: one `{"title": name}` per entry.
pub open spec fn actions_of(entries: Seq<JsonV>) -> Seq<JsonV> {
    entries.map_values(|e: JsonV| JsonV::Object(seq![("title"@, JsonV::Str(entry_name(e)))]))
}

pub open spec fn indexes_of(entries: Seq<JsonV>) -> Seq<(Seq<char>, u64)> {
    entries.map_values(|e: JsonV| (entry_name(e), entry_index(e)))
}

/// The request that shows a server choice to the user.
pub open spec fn choice_request(id: Seq<char>, title: Seq<char>, actions: Seq<JsonV>) -> JsonV {
    request_v(
        JsonV::Str(id),
        "window/showMessageRequest"@,
        JsonV::Object(seq![("type"@, JsonV::UInt(3)), ("message"@, JsonV::Str(title)), ("actions"@, JsonV::Array(actions))]),
    )
}

/// The action index answered by the client's reply to a choice: the entry
/// whose title the reply's `result.title` names (none when dismissed).
pub open spec fn chosen_index(indexes: Seq<(Seq<char>, u64)>, reply: JsonV) -> Option<u64> {
    match jstr(jidx(jidx(reply, "result"@), "title"@)) {
        Some(t) => if exists|i: int| 0 <= i < indexes.len() && indexes[i].0 == t {
            let i = choose|i: int| 0 <= i < indexes.len() && indexes[i].0 == t
                && forall|j: int| 0 <= j < i ==> indexes[j].0 != t;
            Some(indexes[i].1)
        } else {
            None
        },
        None => None,
    }
}

/// The index of the action the client picked, if any.
pub fn choose_reply(pending: &ChooseActionPending, reply: &Json) -> (r: Option<u64>)
    ensures
        r == chosen_index(index_pairs_view(pending.indexes@), reply@),
{
    let ghost iv = index_pairs_view(pending.indexes@);
    let result = reply.get("result");
    let title = at(result, "title");
    let t = match title {
        Some(t) => match t.as_str() {
            Some(t) => t,
            None => return None,
        },
        None => return None,
    };
    let mut i: usize = 0;
    while i < pending.indexes.len()
        invariant
            i <= pending.indexes@.len(),
            iv == index_pairs_view(pending.indexes@),
            iv.len() == pending.indexes@.len(),
            jstr(jidx(jidx(reply@, "result"@), "title"@)) == Some(t@),
            forall|j: int| 0 <= j < i ==> iv[j].0 != t@,
        decreases pending.indexes@.len() - i,
    {
        assert(iv[i as int] == (pending.indexes@[i as int].0@, pending.indexes@[i as int].1));
        if str_eq(pending.indexes[i].0.as_str(), t) {
            proof {
                assert(jstr(jidx(jidx(reply@, "result"@), "title"@)) == Some(t@));
                assert(iv[i as int].0 == t@);
                assert(exists|k: int| 0 <= k < iv.len() && iv[k].0 == t@);
                let c = choose|k: int| 0 <= k < iv.len() && iv[k].0 == t@
                    && forall|j: int| 0 <= j < k ==> iv[j].0 != t@;
                assert(0 <= i < iv.len() && iv[i as int].0 == t@ && forall|j: int| 0 <= j < i ==> iv[j].0 != t@);
                if c < i {
                } else if c > i {
                    assert(iv[i as int].0 != t@);
                }
            }
            return Some(pending.indexes[i].1);
        }
        i = i + 1;
    }
    None
}

/// `{"command": "chooseModCommandAction", "arguments": [session, index]}`.
pub open spec fn choice_command_v(session: u64, index: u64) -> JsonV {
    JsonV::Object(seq![
        ("command"@, JsonV::Str("chooseModCommandAction"@)),
        ("arguments"@, JsonV::Array(seq![JsonV::UInt(session), JsonV::UInt(index)])),
    ])
}

/// Parameters of the `workspace/executeCommand` that answers a choice.
pub fn choice_command(session: u64, index: u64) -> (r: Json)
    ensures
        r@ == choice_command_v(session, index),
{
    let args = vec![Json::UInt(session), Json::UInt(index)];
    proof {
        crate::json::lemma_items_view(args@);
        assert(items_view(args@) =~= seq![JsonV::UInt(session), JsonV::UInt(index)]);
    }
    let a = member("command", Json::string("chooseModCommandAction"));
    let b = member("arguments", Json::Array(args));
    let fields = vec![a, b];
    proof {
        lemma_fields_view_two(a, b);
        assert(fields@ =~= seq![a, b]);
    }
    object(fields)
}

// ---------------------------------------------------------------------------
// importLog
// ---------------------------------------------------------------------------

pub open spec fn import_log_text(tool: Seq<char>, message: Seq<char>, started: bool) -> Seq<char> {
    if started {
        tool + ": "@ + message
    } else {
        "["@ + tool + "] "@ + message
    }
}

/// The messages an import log line turns into: its text as a log message
/// (when there is one), and an error message when the import failed.
pub open spec fn import_log_messages(msg: JsonV) -> Seq<JsonV> {
    let p = jidx(msg, "params"@);
    let tool = str_or(jidx(p, "tool"@), "Build"@);
    let message = str_or(jidx(p, "message"@), Seq::empty());
    let failed = match jbool(jidx(p, "failed"@)) {
        Some(b) => b,
        None => false,
    };
    let started = match jbool(jidx(p, "started"@)) {
        Some(b) => b,
        None => false,
    };
    let log: Seq<JsonV> = if message.len() > 0 {
        seq![notification_v("window/logMessage"@, message_params(4, import_log_text(tool, message, started)))]
    } else {
        Seq::empty()
    };
    let err: Seq<JsonV> = if failed {
        seq![notification_v("window/showMessage"@, message_params(2, tool + ": Build Error"@))]
    } else {
        Seq::empty()
    };
    log + err
}

pub open spec fn jsons_view(v: Seq<Json>) -> Seq<JsonV> {
    v.map_values(|j: Json| j@)
}

fn bool_or_false(v: Option<&Json>) -> (r: bool)
    ensures
        r == match jbool(crate::server::opt_or_null(opt_view(v))) {
            Some(b) => b,
            None => false,
        },
{
    match v {
        Some(j) => match j.as_bool() {
            Some(b) => b,
            None => false,
        },
        None => false,
    }
}

/// The client messages for an `intellij/importLog` notification.
pub fn import_log(msg: &Json) -> (r: Vec<Json>)
    ensures
        jsons_view(r@) == import_log_messages(msg@),
{
    let params = msg.get("params");
    let tool = str_or_exec(at(params, "tool"), "Build");
    let message = str_or_exec(at(params, "message"), "");
    let failed = bool_or_false(at(params, "failed"));
    let started = bool_or_false(at(params, "started"));
    proof {
        assert(crate::server::opt_or_null(opt_view(params)) == jidx(msg@, "params"@));
        reveal_strlit("");
    }
    let mut out: Vec<Json> = Vec::new();
    let ghost log_part: Seq<JsonV> = Seq::empty();
    if message.unicode_len() > 0 {
        let text = if started {
            tool.clone().concat(": ").concat(message.as_str())
        } else {
            String::from_str("[").concat(tool.as_str()).concat("] ").concat(message.as_str())
        };
        let n = notification("window/logMessage", message_params_exec(4, text));
        out.push(n);
    }
    let ghost first = jsons_view(out@);
    if failed {
        let text = tool.clone().concat(": Build Error");
        let n = notification("window/showMessage", message_params_exec(2, text));
        out.push(n);
    }
    assert(jsons_view(out@) =~= import_log_messages(msg@));
    out
}

// ---------------------------------------------------------------------------
// Routing
// ---------------------------------------------------------------------------

/// What to do with a message from the client.
pub enum ClientStep {
    /// Send the received bytes to the server unchanged.
    ForwardRaw,
    /// Send this message to the server instead.
    Forward(Json),
    /// The message was for the proxy alone; send nothing.
    Swallow,
    /// The client picked action `index` of choice session `session`: send
    /// nothing, and answer the server in the background
    /// (`workspace/executeCommand` with [`choice_command`]).
    AnswerChoice(u64, u64),
    /// Send the received bytes, then reload the workspace in the background
    /// with these initialization options.
    ForwardRawThenReload(Json),
    /// Send the received bytes (the client's `initialized`), then run the
    /// headless license discovery in the background
    /// (`jetbrains/licensing/discovery/autoActivate` with
    /// [`license_discovery_params`]) and log its outcome
    /// ([`license_discovery_log_line`]).
    ForwardRawThenDiscoverLicense,
}

/// What to do with a message from the server.
pub enum ServerStep {
    /// Send the received bytes to the client unchanged.
    ForwardRaw,
    /// The response to the proxy's own request with this id: hand the
    /// message to the caller waiting for it.
    Deliver(String),
    /// Send nothing.
    Swallow,
    /// The response to a navigation request with this id: materialize its
    /// archive targets and send it rewritten (see [`nav_response`]).
    Navigation(Json),
    /// Send these messages to the client.
    Send(Vec<Json>),
    /// Put this text on the system clipboard.
    Clipboard(String),
}

pub enum ClientStepV {
    ForwardRaw,
    Forward(JsonV),
    Swallow,
    AnswerChoice(u64, u64),
    ForwardRawThenReload(JsonV),
    ForwardRawThenDiscoverLicense,
}

pub enum ServerStepV {
    ForwardRaw,
    Deliver(Seq<char>),
    Swallow,
    Navigation(JsonV),
    Send(Seq<JsonV>),
    Clipboard(Seq<char>),
}

pub open spec fn client_step_view(c: ClientStep) -> ClientStepV {
    match c {
        ClientStep::ForwardRaw => ClientStepV::ForwardRaw,
        ClientStep::Forward(j) => ClientStepV::Forward(j@),
        ClientStep::Swallow => ClientStepV::Swallow,
        ClientStep::AnswerChoice(a, b) => ClientStepV::AnswerChoice(a, b),
        ClientStep::ForwardRawThenReload(j) => ClientStepV::ForwardRawThenReload(j@),
        ClientStep::ForwardRawThenDiscoverLicense => ClientStepV::ForwardRawThenDiscoverLicense,
    }
}

pub open spec fn server_step_view(c: ServerStep) -> ServerStepV {
    match c {
        ServerStep::ForwardRaw => ServerStepV::ForwardRaw,
        ServerStep::Deliver(s) => ServerStepV::Deliver(s@),
        ServerStep::Swallow => ServerStepV::Swallow,
        ServerStep::Navigation(j) => ServerStepV::Navigation(j@),
        ServerStep::Send(v) => ServerStepV::Send(jsons_view(v@)),
        ServerStep::Clipboard(s) => ServerStepV::Clipboard(s@),
    }
}

/// The `initializationOptions` the server is started with: the client's
/// object (or a new one) with `intellijExtensions: true`.
pub open spec fn init_options_of(params: JsonV) -> JsonV {
    let base = match jget(params, "initializationOptions"@) {
        Some(o) => if o is Object {
            o
        } else {
            JsonV::Object(Seq::empty())
        },
        None => JsonV::Object(Seq::empty()),
    };
    with_member(base, "intellijExtensions"@, JsonV::Bool(true))
}

/// A message that the client may send: an `initialize` request (among
/// parsed, interesting traffic) has an object or `null` as its `params`.
pub open spec fn client_message_ok(body: Seq<u8>, parsed: Option<JsonV>) -> bool {
    match parsed {
        Some(msg) => (client_interesting(body) && str_or(jidx(msg, "method"@), Seq::empty()) == "initialize"@
            && jget(msg, "method"@) is Some) ==> match jget(msg, "params"@) {
            Some(p) => p is Object || p is Null,
            None => true,
        },
        None => true,
    }
}

/// The text of the message's string id, when it starts with the proxy's prefix.
pub open spec fn own_id(msg: JsonV) -> Option<Seq<char>> {
    match jstr(jidx(msg, "id"@)) {
        Some(id) => if has_prefix(id, proxy_prefix()) {
            Some(id)
        } else {
            None
        },
        None => None,
    }
}

pub open spec fn spec_client_step(s: RouterV, body: Seq<u8>, parsed: Option<JsonV>) -> (RouterV, ClientStepV) {
    if !client_interesting(body) {
        (s, ClientStepV::ForwardRaw)
    } else {
        match parsed {
            None => (s, ClientStepV::ForwardRaw),
            Some(msg) => if jget(msg, "method"@) is None {
                match own_id(msg) {
                    Some(id) => match lookup(s.pending_client, id) {
                        Some(p) => (
                            RouterV { pending_client: without_key(s.pending_client, id), ..s },
                            match chosen_index(p.indexes, msg) {
                                Some(index) => ClientStepV::AnswerChoice(p.session_id, index),
                                None => ClientStepV::Swallow,
                            },
                        ),
                        None => (s, ClientStepV::Swallow),
                    },
                    None => (s, ClientStepV::ForwardRaw),
                }
            } else {
                let method = str_or(jidx(msg, "method"@), Seq::empty());
                if method == "initialize"@ {
                    match jget(msg, "params"@) {
                        Some(p) => (
                            RouterV { init_options: init_options_of(p), ..s },
                            ClientStepV::Forward(
                                with_member(msg, "params"@, with_member(p, "initializationOptions"@, init_options_of(p))),
                            ),
                        ),
                        None => (s, ClientStepV::Forward(msg)),
                    }
                } else if method == "textDocument/didSave"@ {
                    let uri = str_or(jidx(jidx(jidx(msg, "params"@), "textDocument"@), "uri"@), Seq::empty());
                    if spec_is_build_file_path(uri) {
                        (s, ClientStepV::ForwardRawThenReload(s.init_options))
                    } else {
                        (s, ClientStepV::ForwardRaw)
                    }
                } else if method == "initialized"@ {
                    (s, ClientStepV::ForwardRawThenDiscoverLicense)
                } else if nav_methods().contains(method) {
                    match jget(msg, "id"@) {
                        Some(id) => (RouterV { nav_requests: with(s.nav_requests, json_text(id)), ..s }, ClientStepV::ForwardRaw),
                        None => (s, ClientStepV::ForwardRaw),
                    }
                } else {
                    (s, ClientStepV::ForwardRaw)
                }
            },
        }
    }
}

pub open spec fn spec_server_step(s: RouterV, body: Seq<u8>, parsed: Option<JsonV>) -> (RouterV, ServerStepV) {
    if !server_interesting(body) {
        (s, ServerStepV::ForwardRaw)
    } else {
        match parsed {
            None => (s, ServerStepV::ForwardRaw),
            Some(msg) => if jget(msg, "method"@) is None {
                match own_id(msg) {
                    Some(id) => if s.pending_server.contains(id) {
                        (RouterV { pending_server: without(s.pending_server, id), ..s }, ServerStepV::Deliver(id))
                    } else {
                        (s, ServerStepV::Swallow)
                    },
                    None => match jget(msg, "id"@) {
                        Some(id) => if s.nav_requests.contains(json_text(id)) {
                            (RouterV { nav_requests: without(s.nav_requests, json_text(id)), ..s }, ServerStepV::Navigation(id))
                        } else {
                            (s, ServerStepV::ForwardRaw)
                        },
                        None => (s, ServerStepV::ForwardRaw),
                    },
                }
            } else {
                let method = str_or(jidx(msg, "method"@), Seq::empty());
                let params = jidx(msg, "params"@);
                if method == "intellij/chooseAction"@ {
                    match ju64(jidx(params, "sessionId"@)) {
                        None => (s, ServerStepV::Swallow),
                        Some(session) => {
                            let entries = choice_entries(params);
                            let id = proxy_id(s.next_proxy_id);
                            (
                                RouterV {
                                    next_proxy_id: (if s.next_proxy_id == u64::MAX { 0 } else { s.next_proxy_id + 1 }) as u64,
                                    pending_client: without_key(s.pending_client, id).push(
                                        (id, PendingV { session_id: session, indexes: indexes_of(entries) }),
                                    ),
                                    ..s
                                },
                                ServerStepV::Send(
                                    seq![choice_request(id, str_or(jidx(params, "title"@), "Choose an action"@), actions_of(entries))],
                                ),
                            )
                        },
                    }
                } else if method == "intellij/copyToClipboard"@ {
                    match jstr(jidx(params, "content"@)) {
                        Some(c) => (s, ServerStepV::Clipboard(c)),
                        None => (s, ServerStepV::Swallow),
                    }
                } else if method == "intellij/importLog"@ {
                    (s, ServerStepV::Send(import_log_messages(msg)))
                } else {
                    (s, ServerStepV::ForwardRaw)
                }
            },
        }
    }
}

/// Whether [`Router::client_to_server`] accepts the message (see [`client_message_ok`]).
pub fn client_message_supported(body: &[u8], parsed: &Option<Json>) -> (r: bool)
    ensures
        r == client_message_ok(body@, opt_json_view(*parsed)),
{
    match parsed {
        Some(msg) => {
            if !client_interesting_exec(body) {
                return true;
            }
            let method = match msg.get("method") {
                Some(m) => m,
                None => return true,
            };
            let is_init = match method.as_str() {
                Some(m) => str_eq(m, "initialize"),
                None => false,
            };
            proof {
                reveal_strlit("initialize");
                assert("initialize"@.len() > 0);
            }
            if !is_init {
                return true;
            }
            match msg.get("params") {
                Some(Json::Object(_)) => true,
                Some(Json::Null) => true,
                Some(_) => false,
                None => true,
            }
        },
        None => true,
    }
}

/// The entries of a choice: one title and one `(title, index)` pair each.
fn choice_lists(params: Option<&Json>) -> (r: (Vec<Json>, Vec<(String, u64)>))
    ensures
        jsons_view(r.0@) == actions_of(choice_entries(crate::server::opt_or_null(opt_view(params)))),
        index_pairs_view(r.1@) == indexes_of(choice_entries(crate::server::opt_or_null(opt_view(params)))),
{
    let mut actions: Vec<Json> = Vec::new();
    let mut indexes: Vec<(String, u64)> = Vec::new();
    match at(params, "entries") {
        Some(Json::Array(items)) => {
            proof {
                lemma_items_view(items@);
            }
            let ghost iv = items_view(items@);
            let mut i: usize = 0;
            while i < items.len()
                invariant
                    i <= items@.len(),
                    iv == items_view(items@),
                    iv.len() == items@.len(),
                    forall|k: int| 0 <= k < items@.len() ==> #[trigger] iv[k] == items@[k]@,
                    jsons_view(actions@) == actions_of(iv.take(i as int)),
                    index_pairs_view(indexes@) == indexes_of(iv.take(i as int)),
                decreases items@.len() - i,
            {
                let e = &items[i];
                let name = str_or_exec(e.get("name"), "?");
                let index = match e.get("index") {
                    Some(x) => match x.as_u64() {
                        Some(n) => n,
                        None => 0,
                    },
                    None => 0,
                };
                let t = member("title", Json::Str(name.clone()));
                let tf = vec![t];
                proof {
                    lemma_fields_view_one(t);
                    assert(tf@ =~= seq![t]);
                }
                let ghost a0 = actions@;
                let ghost x0 = indexes@;
                let action = object(tf);
                actions.push(action);
                indexes.push((name, index));
                proof {
                    assert(iv[i as int] == e@);
                    assert(iv.take(i + 1) =~= iv.take(i as int).push(e@));
                    assert(jsons_view(actions@) =~= jsons_view(a0).push(action@));
                    assert(actions_of(iv.take(i + 1)) =~= actions_of(iv.take(i as int)).push(action@));
                    assert(index_pairs_view(indexes@) =~= index_pairs_view(x0).push((entry_name(e@), entry_index(e@))));
                    assert(indexes_of(iv.take(i + 1)) =~= indexes_of(iv.take(i as int)).push((entry_name(e@), entry_index(e@))));
                }
                i = i + 1;
            }
            assert(iv.take(items@.len() as int) =~= iv);
        },
        _ => {
            assert(jsons_view(actions@) =~= Seq::<JsonV>::empty());
            assert(index_pairs_view(indexes@) =~= Seq::<(Seq<char>, u64)>::empty());
        },
    }
    (actions, indexes)
}

impl Router {
    /// A router with nothing in flight; the proxy's own ids start at 1.
    pub fn new() -> (r: Router)
        ensures
            r@ == (RouterV {
                pending_server: Seq::empty(),
                pending_client: Seq::empty(),
                nav_requests: Seq::empty(),
                next_proxy_id: 1,
                init_options: JsonV::Null,
            }),
    {
        let r = Router {
            pending_server: Vec::new(),
            pending_client: Vec::new(),
            nav_requests: Vec::new(),
            next_proxy_id: 1,
            init_options: Json::Null,
        };
        assert(r@.pending_server =~= Seq::<Seq<char>>::empty());
        assert(r@.pending_client =~= Seq::<(Seq<char>, PendingV)>::empty());
        assert(r@.nav_requests =~= Seq::<Seq<char>>::empty());
        r
    }

    /// The next id of the proxy's own requests (the counter wraps).
    fn fresh_id(&mut self) -> (r: String)
        ensures
            r@ == proxy_id(old(self).next_proxy_id),
            final(self).next_proxy_id == (if old(self).next_proxy_id == u64::MAX { 0 } else { old(self).next_proxy_id + 1 }) as u64,
            final(self).pending_server == old(self).pending_server,
            final(self).pending_client == old(self).pending_client,
            final(self).nav_requests == old(self).nav_requests,
            final(self).init_options == old(self).init_options,
    {
        let id = proxy_id_exec(self.next_proxy_id);
        self.next_proxy_id = if self.next_proxy_id == u64::MAX { 0 } else { self.next_proxy_id + 1 };
        id
    }

    /// Starts a request of the proxy to the server: its id (now awaited) and
    /// the message to send.
    pub fn begin_server_call(&mut self, method: &str, params: Json) -> (r: (String, Json))
        ensures
            r.0@ == proxy_id(old(self)@.next_proxy_id),
            r.1@ == request_v(JsonV::Str(r.0@), method@, params@),
            final(self)@ == (RouterV {
                pending_server: with(old(self)@.pending_server, r.0@),
                next_proxy_id: (if old(self).next_proxy_id == u64::MAX { 0 } else { old(self).next_proxy_id + 1 }) as u64,
                ..old(self)@
            }),
    {
        let id = self.fresh_id();
        insert_string(&mut self.pending_server, id.clone());
        let msg = request(Json::Str(id.clone()), method, params);
        (id, msg)
    }

    /// Handles a message from the client as its bytes arrived: reads it as
    /// JSON where the fast path does not let it through untouched, then
    /// decides as [`Router::client_to_server`]. `None`, with nothing
    /// changed, for an `initialize` whose `params` are neither an object nor
    /// null, which the proxy cannot extend.
    pub fn client_message(&mut self, body: &[u8]) -> (r: Option<ClientStep>)
        ensures
            client_message_ok(body@, parsed_json(body@)) ==> r is Some && (final(self)@, client_step_view(r->Some_0))
                == spec_client_step(old(self)@, body@, parsed_json(body@)),
            !client_message_ok(body@, parsed_json(body@)) ==> r is None && final(self)@ == old(self)@,
    {
        if !client_interesting_exec(body) {
            return Some(self.client_to_server(body, None));
        }
        let parsed = parse_json(body);
        if !client_message_supported(body, &parsed) {
            return None;
        }
        Some(self.client_to_server(body, parsed))
    }

    /// Handles a message from the server as its bytes arrived: reads it as
    /// JSON where the fast path does not let it through untouched, then
    /// decides as [`Router::server_to_client`].
    pub fn server_message(&mut self, body: &[u8]) -> (r: ServerStep)
        ensures
            (final(self)@, server_step_view(r)) == spec_server_step(old(self)@, body@, parsed_json(body@)),
    {
        if !server_interesting_exec(body) {
            return self.server_to_client(body, None);
        }
        let parsed = parse_json(body);
        self.server_to_client(body, parsed)
    }

    /// Decides what happens to a message from the client (`body`, and
    /// `parsed`: the body read as JSON, when it is JSON).
    pub fn client_to_server(&mut self, body: &[u8], parsed: Option<Json>) -> (r: ClientStep)
        requires
            client_message_ok(body@, opt_json_view(parsed)),
        ensures
            (final(self)@, client_step_view(r)) == spec_client_step(old(self)@, body@, opt_json_view(parsed)),
    {
        if !client_interesting_exec(body) {
            return ClientStep::ForwardRaw;
        }
        let msg = match parsed {
            None => return ClientStep::ForwardRaw,
            Some(m) => m,
        };
        let has_method = match msg.get("method") {
            Some(_) => true,
            None => false,
        };
        if !has_method {
            let own = match msg.get("id") {
                Some(Json::Str(id)) => {
                    let idc = chars_of(id.as_str());
                    let pre = chars_of("ij-proxy:");
                    if starts_with(&idc, &pre) { Some(id.clone()) } else { None }
                },
                _ => None,
            };
            match own {
                Some(id) => {
                    match take_pending(&mut self.pending_client, id.as_str()) {
                        Some(p) => {
                            return match choose_reply(&p, &msg) {
                                Some(index) => ClientStep::AnswerChoice(p.session_id, index),
                                None => ClientStep::Swallow,
                            };
                        },
                        None => {
                            proof {
                                lemma_without_key_absent(old(self)@.pending_client, id@);
                            }
                            return ClientStep::Swallow;
                        },
                    }
                },
                None => return ClientStep::ForwardRaw,
            }
        }
        let method = str_or_exec(msg.get("method"), "");
        proof {
            reveal_strlit("");
            assert(""@ =~= Seq::<char>::empty());
        }
        if str_eq(method.as_str(), "initialize") {
            let params = match msg.get("params") {
                Some(p) => p.deep_clone(),
                None => return ClientStep::Forward(msg),
            };
            let base = match params.get("initializationOptions") {
                Some(Json::Object(f)) => Json::Object(crate::rewrite::clone_fields(f)),
                _ => Json::Object(Vec::new()),
            };
            proof {
                assert(fields_view(Seq::<(String, Json)>::empty()) =~= Seq::<(Seq<char>, JsonV)>::empty());
            }
            let mut options = base;
            options.set("intellijExtensions", Json::Bool(true));
            let mut new_params = params;
            new_params.set("initializationOptions", options.deep_clone());
            let mut new_msg = msg;
            new_msg.set("params", new_params);
            self.init_options = options;
            return ClientStep::Forward(new_msg);
        }
        if str_eq(method.as_str(), "textDocument/didSave") {
            let uri = str_or_exec(at(at(msg.get("params"), "textDocument"), "uri"), "");
            if is_build_file_path(uri.as_str()) {
                return ClientStep::ForwardRawThenReload(self.init_options.deep_clone());
            }
            return ClientStep::ForwardRaw;
        }
        if str_eq(method.as_str(), "initialized") {
            return ClientStep::ForwardRawThenDiscoverLicense;
        }
        if is_nav_method(method.as_str()) {
            match msg.get("id") {
                Some(id) => {
                    let key = to_json_text(id);
                    insert_string(&mut self.nav_requests, key);
                },
                None => {},
            }
            return ClientStep::ForwardRaw;
        }
        ClientStep::ForwardRaw
    }

    /// Decides what happens to a message from the server (`body`, and
    /// `parsed`: the body read as JSON, when it is JSON).
    pub fn server_to_client(&mut self, body: &[u8], parsed: Option<Json>) -> (r: ServerStep)
        ensures
            (final(self)@, server_step_view(r)) == spec_server_step(old(self)@, body@, opt_json_view(parsed)),
    {
        if !server_interesting_exec(body) {
            return ServerStep::ForwardRaw;
        }
        let msg = match parsed {
            None => return ServerStep::ForwardRaw,
            Some(m) => m,
        };
        let has_method = match msg.get("method") {
            Some(_) => true,
            None => false,
        };
        if !has_method {
            let own = match msg.get("id") {
                Some(Json::Str(id)) => {
                    let idc = chars_of(id.as_str());
                    let pre = chars_of("ij-proxy:");
                    if starts_with(&idc, &pre) { Some(id.clone()) } else { None }
                },
                _ => None,
            };
            match own {
                Some(id) => {
                    if remove_string(&mut self.pending_server, id.as_str()) {
                        return ServerStep::Deliver(id);
                    }
                    proof {
                        lemma_without_absent(old(self)@.pending_server, id@);
                    }
                    return ServerStep::Swallow;
                },
                None => {},
            }
            return match msg.get("id") {
                Some(id) => {
                    let key = to_json_text(id);
                    if remove_string(&mut self.nav_requests, key.as_str()) {
                        ServerStep::Navigation(id.deep_clone())
                    } else {
                        proof {
                            lemma_without_absent(old(self)@.nav_requests, key@);
                        }
                        ServerStep::ForwardRaw
                    }
                },
                None => ServerStep::ForwardRaw,
            };
        }
        let method = str_or_exec(msg.get("method"), "");
        proof {
            reveal_strlit("");
            assert(""@ =~= Seq::<char>::empty());
        }
        let params = msg.get("params");
        if str_eq(method.as_str(), "intellij/chooseAction") {
            let session = match at(params, "sessionId") {
                Some(x) => match x.as_u64() {
                    Some(n) => n,
                    None => return ServerStep::Swallow,
                },
                None => return ServerStep::Swallow,
            };
            let title = str_or_exec(at(params, "title"), "Choose an action");
            let (actions, indexes) = choice_lists(params);
            proof {
                lemma_items_view(actions@);
                assert(items_view(actions@) =~= jsons_view(actions@));
            }
            let id = self.fresh_id();
            put_pending(&mut self.pending_client, id.clone(), ChooseActionPending { session_id: session, indexes });
            let t = member("type", Json::UInt(3));
            let m = member("message", Json::Str(title));
            let a = member("actions", Json::Array(actions));
            let pf = vec![t, m, a];
            proof {
                lemma_fields_view_three(t, m, a);
                assert(pf@ =~= seq![t, m, a]);
            }
            let req = request(Json::Str(id), "window/showMessageRequest", object(pf));
            let out = vec![req];
            assert(jsons_view(out@) =~= seq![req@]);
            return ServerStep::Send(out);
        }
        if str_eq(method.as_str(), "intellij/copyToClipboard") {
            return match at(params, "content") {
                Some(Json::Str(c)) => ServerStep::Clipboard(c.clone()),
                _ => ServerStep::Swallow,
            };
        }
        if str_eq(method.as_str(), "intellij/importLog") {
            return ServerStep::Send(import_log(&msg));
        }
        ServerStep::ForwardRaw
    }
}

// ---------------------------------------------------------------------------
// The proxy's own requests
// ---------------------------------------------------------------------------

/// What a response to the proxy's request for `method` means: its `result`
/// (`null` when absent), or `<method> failed: <error as JSON>` when it
/// carries an `error`.
pub open spec fn spec_call_result(method: Seq<char>, response: JsonV) -> Result<JsonV, Seq<char>> {
    match jget(response, "error"@) {
        Some(e) => Err(method + " failed: "@ + json_text(e)),
        None => Ok(jidx(response, "result"@)),
    }
}

pub open spec fn json_result_view(r: Result<Json, String>) -> Result<JsonV, Seq<char>> {
    match r {
        Ok(j) => Ok(j@),
        Err(e) => Err(e@),
    }
}

/// Reads the response to the proxy's request for `method`.
pub fn call_result(method: &str, response: &Json) -> (r: Result<Json, String>)
    ensures
        json_result_view(r) == spec_call_result(method@, response@),
{
    match response.get("error") {
        Some(e) => Err(String::from_str(method).concat(" failed: ").concat(to_json_text(e).as_str())),
        None => match response.get("result") {
            Some(x) => Ok(x.deep_clone()),
            None => Ok(Json::Null),
        },
    }
}

/// The error of a request that got no response in time.
pub fn timeout_error(method: &str) -> (r: String)
    ensures
        r@ == "timeout waiting for "@ + method@,
{
    String::from_str("timeout waiting for ").concat(method)
}

/// Parameters of `intellij/reloadWorkspace`: `{"initializationOptions": options}`.
pub fn reload_params(options: Json) -> (r: Json)
    ensures
        r@ == JsonV::Object(seq![("initializationOptions"@, options@)]),
{
    let a = member("initializationOptions", options);
    let fields = vec![a];
    proof {
        lemma_fields_view_one(a);
        assert(fields@ =~= seq![a]);
    }
    object(fields)
}

/// The log line after a workspace reload triggered by a build-file save.
pub fn reload_log_line(result: &Result<Json, String>) -> (r: String)
    ensures
        match result {
            Ok(_) => r@ == "workspace reloaded after build file save"@,
            Err(e) => r@ == "reloadWorkspace failed: "@ + e@,
        },
{
    match result {
        Ok(_) => String::from_str("workspace reloaded after build file save"),
        Err(e) => String::from_str("reloadWorkspace failed: ").concat(e.as_str()),
    }
}

/// The request of the headless license discovery the official client runs
/// after every `initialize`.
pub open spec fn license_discovery_method() -> Seq<char> {
    "jetbrains/licensing/discovery/autoActivate"@
}

/// Parameters of the license discovery request: an empty object.
pub fn license_discovery_params() -> (r: Json)
    ensures
        r@ == JsonV::Object(Seq::empty()),
{
    let fields: Vec<(String, Json)> = Vec::new();
    assert(fields_view(fields@) =~= Seq::<(Seq<char>, JsonV)>::empty());
    object(fields)
}

/// The log line with the outcome of the license discovery.
pub fn license_discovery_log_line(result: &Result<Json, String>) -> (r: String)
    ensures
        match result {
            Ok(x) => r@ == "license discovery: "@ + json_text(x@),
            Err(e) => r@ == "license discovery failed: "@ + e@,
        },
{
    match result {
        Ok(x) => String::from_str("license discovery: ").concat(to_json_text(x).as_str()),
        Err(e) => String::from_str("license discovery failed: ").concat(e.as_str()),
    }
}

/// Parameters of the `workspace/executeCommand` that decompiles `uri`.
pub fn decompile_params(uri: &str) -> (r: Json)
    ensures
        r@ == JsonV::Object(seq![("command"@, JsonV::Str("decompile"@)), ("arguments"@, JsonV::Array(seq![JsonV::Str(uri@)]))]),
{
    let args = vec![Json::string(uri)];
    proof {
        lemma_items_view(args@);
        assert(items_view(args@) =~= seq![JsonV::Str(uri@)]);
    }
    let a = member("command", Json::string("decompile"));
    let b = member("arguments", Json::Array(args));
    let fields = vec![a, b];
    proof {
        lemma_fields_view_two(a, b);
        assert(fields@ =~= seq![a, b]);
    }
    object(fields)
}

/// The decompiled source and its language (`java` unless the result says
/// otherwise), when the result holds source code.
pub fn decompiled(result: &Json) -> (r: Option<(String, String)>)
    ensures
        match jstr(jidx(result@, "code"@)) {
            Some(code) => r is Some && r->Some_0.0@ == code
                && r->Some_0.1@ == str_or(jidx(result@, "language"@), "java"@),
            None => r is None,
        },
{
    let code = match result.get("code") {
        Some(c) => match c.as_str() {
            Some(c) => String::from_str(c),
            None => return None,
        },
        None => return None,
    };
    let language = str_or_exec(result.get("language"), "java");
    Some((code, language))
}

// ---------------------------------------------------------------------------
// Navigation responses
// ---------------------------------------------------------------------------

/// The response with its archive locations and hover links pointed at the
/// files that `m` resolves, and its id set to `id`; `None` when nothing
/// changed (the response then goes out as received).
pub open spec fn spec_nav_response(msg: JsonV, id: JsonV, m: Seq<(Seq<char>, Seq<char>)>) -> Option<JsonV> {
    match jget(msg, "result"@) {
        Some(res) => {
            let located = crate::rewrite::rewrite_json(res, m);
            let changed = crate::rewrite::rewrite_changes(res, m) || crate::rewrite::hover_changes(located, m);
            if changed {
                Some(with_member(with_member(msg, "result"@, crate::rewrite::rewrite_hover_json(located, m)), "id"@, id))
            } else {
                None
            }
        },
        None => None,
    }
}

/// Rewrites a navigation response whose archive targets were materialized
/// (`resolved` maps each archive URI to its file URI).
pub fn nav_response(msg: &Json, id: Json, resolved: &Vec<(String, String)>) -> (r: Option<Json>)
    ensures
        opt_json_view(r) == spec_nav_response(msg@, id@, crate::rewrite::pairs_view(resolved@)),
{
    let mut result = match msg.get("result") {
        Some(x) => x.deep_clone(),
        None => return None,
    };
    let c1 = crate::rewrite::rewrite_locations(&mut result, resolved);
    let c2 = crate::rewrite::rewrite_hover(&mut result, resolved);
    if !(c1 || c2) {
        return None;
    }
    // A message with a `result` member is an object.
    let mut out = msg.deep_clone();
    out.set("result", result);
    out.set("id", id);
    Some(out)
}

/// The archive URIs that [`nav_response`] looks up for `msg`, in order.
pub fn nav_targets(msg: &Json) -> (r: Vec<String>)
    ensures
        crate::rewrite::strings_view(r@) == match jget(msg@, "result"@) {
            Some(res) => crate::rewrite::location_uris(res) + crate::rewrite::hover_targets(res),
            None => Seq::empty(),
        },
{
    match msg.get("result") {
        Some(res) => {
            let mut out = crate::rewrite::location_targets(res);
            let hover = crate::rewrite::hover_link_targets(res);
            crate::rewrite::append_strings(&mut out, hover);
            out
        },
        None => {
            let out: Vec<String> = Vec::new();
            assert(crate::rewrite::strings_view(out@) =~= Seq::<Seq<char>>::empty());
            out
        },
    }
}

// ---------------------------------------------------------------------------
// Laws
// ---------------------------------------------------------------------------

/// Traffic without the markers the proxy looks for passes through byte for
/// byte, in both directions, and leaves the router's memory as it was.
pub proof fn lemma_passthrough(s: RouterV, body: Seq<u8>, parsed: Option<JsonV>)
    ensures
        !client_interesting(body) ==> spec_client_step(s, body, parsed) == (s, ClientStepV::ForwardRaw),
        !server_interesting(body) ==> spec_server_step(s, body, parsed) == (s, ServerStepV::ForwardRaw),
        parsed is None ==> spec_client_step(s, body, parsed) == (s, ClientStepV::ForwardRaw)
            && spec_server_step(s, body, parsed) == (s, ServerStepV::ForwardRaw),
{
}

/// Responses to the proxy's own requests are never forwarded: the server
/// never sees the proxy's traffic with the client, nor the client the
/// proxy's traffic with the server.
pub proof fn lemma_own_responses_swallowed(s: RouterV, body: Seq<u8>, msg: JsonV)
    requires
        jget(msg, "method"@) is None,
        own_id(msg) is Some,
    ensures
        client_interesting(body) ==> match spec_client_step(s, body, Some(msg)).1 {
            ClientStepV::Swallow | ClientStepV::AnswerChoice(_, _) => true,
            _ => false,
        },
        server_interesting(body) ==> match spec_server_step(s, body, Some(msg)).1 {
            ServerStepV::Swallow | ServerStepV::Deliver(_) => true,
            _ => false,
        },
{
}

/// The proxy's own request ids start with its prefix.
pub proof fn lemma_proxy_id_prefix(n: u64)
    ensures
        has_prefix(proxy_id(n), proxy_prefix()),
{
    assert(proxy_id(n).subrange(0, proxy_prefix().len() as int) =~= proxy_prefix());
}

/// A request the proxy sends to the server gets its response back: the
/// response with the request's id (and no method) is handed to the caller.
pub proof fn lemma_call_round_trip(s: RouterV, method: Seq<char>, body: Seq<u8>, response: JsonV)
    requires
        server_interesting(body),
        jget(response, "method"@) is None,
        jidx(response, "id"@) == JsonV::Str(proxy_id(s.next_proxy_id)),
    ensures
        spec_server_step(
            RouterV { pending_server: with(s.pending_server, proxy_id(s.next_proxy_id)), ..s },
            body,
            Some(response),
        ).1 == ServerStepV::Deliver(proxy_id(s.next_proxy_id)),
{
    let id = proxy_id(s.next_proxy_id);
    lemma_proxy_id_prefix(s.next_proxy_id);
    assert(own_id(response) == Some(id));
    if !s.pending_server.contains(id) {
        assert(s.pending_server.push(id)[s.pending_server.len() as int] == id);
    }
    assert(with(s.pending_server, id).contains(id));
}

/// A navigation request that the client sends is recognized when its
/// response comes back: the server's answer with the same id (and no
/// method) goes to materialization instead of straight to the client.
pub proof fn lemma_navigation_round_trip(s: RouterV, req_body: Seq<u8>, req: JsonV, resp_body: Seq<u8>, resp: JsonV, id: JsonV)
    requires
        client_interesting(req_body),
        jget(req, "method"@) is Some,
        nav_methods().contains(str_or(jidx(req, "method"@), Seq::empty())),
        jget(req, "id"@) == Some(id),
        server_interesting(resp_body),
        jget(resp, "method"@) is None,
        own_id(resp) is None,
        jget(resp, "id"@) == Some(id),
    ensures
        spec_server_step(spec_client_step(s, req_body, Some(req)).0, resp_body, Some(resp)).1 == ServerStepV::Navigation(id),
{
    let method = str_or(jidx(req, "method"@), Seq::empty());
    reveal_strlit("initialize");
    reveal_strlit("textDocument/didSave");
    reveal_strlit("initialized");
    reveal_strlit("textDocument/definition");
    reveal_strlit("textDocument/typeDefinition");
    reveal_strlit("textDocument/implementation");
    reveal_strlit("textDocument/references");
    reveal_strlit("textDocument/documentSymbol");
    reveal_strlit("workspace/symbol");
    reveal_strlit("inlayHint/resolve");
    reveal_strlit("textDocument/hover");
    let k = choose|k: int| 0 <= k < nav_methods().len() && nav_methods()[k] == method;
    assert(method.len() != 10 && method.len() != 11 && method.len() != 20) by {
        assert(nav_methods()[k] == method);
    }
    assert(method != "initialize"@);
    assert(method != "initialized"@);
    assert(method != "textDocument/didSave"@);
    let s1 = spec_client_step(s, req_body, Some(req)).0;
    assert(s1.nav_requests == with(s.nav_requests, json_text(id)));
    if !s.nav_requests.contains(json_text(id)) {
        assert(s.nav_requests.push(json_text(id))[s.nav_requests.len() as int] == json_text(id));
    }
    assert(s1.nav_requests.contains(json_text(id)));
}

/// A choice the server asks for is answered with the action the user picks:
/// the client's reply to the shown request (by the title of an action)
/// becomes that entry's index in the choice session.
pub proof fn lemma_choice_round_trip(s: RouterV, ask_body: Seq<u8>, ask: JsonV, reply_body: Seq<u8>, reply: JsonV, session: u64)
    requires
        server_interesting(ask_body),
        jget(ask, "method"@) is Some,
        str_or(jidx(ask, "method"@), Seq::empty()) == "intellij/chooseAction"@,
        ju64(jidx(jidx(ask, "params"@), "sessionId"@)) == Some(session),
        client_interesting(reply_body),
        jget(reply, "method"@) is None,
        jidx(reply, "id"@) == JsonV::Str(proxy_id(s.next_proxy_id)),
    ensures
        spec_client_step(spec_server_step(s, ask_body, Some(ask)).0, reply_body, Some(reply)).1 == match chosen_index(
            indexes_of(choice_entries(jidx(ask, "params"@))),
            reply,
        ) {
            Some(i) => ClientStepV::AnswerChoice(session, i),
            None => ClientStepV::Swallow,
        },
{
    let id = proxy_id(s.next_proxy_id);
    lemma_proxy_id_prefix(s.next_proxy_id);
    assert(own_id(reply) == Some(id));
    reveal_strlit("intellij/chooseAction");
    reveal_strlit("intellij/copyToClipboard");
    reveal_strlit("intellij/importLog");
    let s1 = spec_server_step(s, ask_body, Some(ask)).0;
    let entries = choice_entries(jidx(ask, "params"@));
    assert(s1.pending_client == without_key(s.pending_client, id).push(
        (id, PendingV { session_id: session, indexes: indexes_of(entries) }),
    ));
    assert(lookup(s1.pending_client, id) == Some(PendingV { session_id: session, indexes: indexes_of(entries) }));
}

/// A navigation response none of whose archive targets could be
/// materialized goes to the client exactly as the server sent it.
pub proof fn lemma_nav_unresolved(msg: JsonV, id: JsonV)
    ensures
        spec_nav_response(msg, id, Seq::empty()) is None,
{
    match jget(msg, "result"@) {
        Some(res) => {
            crate::rewrite::lemma_rewrite_unresolved(res);
            crate::rewrite::lemma_hover_unresolved(res);
        },
        None => {},
    }
}


/// Every LSP navigation request the client sends with an id is tracked, so
/// that its response gets its archive locations materialized: go to
/// definition, type definition and implementation, find references,
/// document and workspace symbols, inlay hint resolution and hover.
pub proof fn lemma_navigation_requests_tracked(s: RouterV, body: Seq<u8>, msg: JsonV, m: Seq<char>, id: JsonV)
    requires
        client_interesting(body),
        jidx(msg, "method"@) == JsonV::Str(m),
        m == "textDocument/definition"@ || m == "textDocument/typeDefinition"@ || m == "textDocument/implementation"@ || m == "textDocument/references"@ || m == "textDocument/documentSymbol"@ || m == "workspace/symbol"@ || m == "inlayHint/resolve"@ || m == "textDocument/hover"@,
        jget(msg, "id"@) == Some(id),
    ensures
        spec_client_step(s, body, Some(msg)).0.nav_requests.contains(json_text(id)),
        spec_client_step(s, body, Some(msg)).1 == ClientStepV::ForwardRaw,
{
    reveal_strlit("textDocument/definition");
    reveal_strlit("textDocument/typeDefinition");
    reveal_strlit("textDocument/implementation");
    reveal_strlit("textDocument/references");
    reveal_strlit("textDocument/documentSymbol");
    reveal_strlit("workspace/symbol");
    reveal_strlit("inlayHint/resolve");
    reveal_strlit("textDocument/hover");
    reveal_strlit("initialize");
    reveal_strlit("initialized");
    reveal_strlit("textDocument/didSave");
    if m == "textDocument/definition"@ {
        assert(nav_methods()[0] == m);
    } else if m == "textDocument/typeDefinition"@ {
        assert(nav_methods()[1] == m);
    } else if m == "textDocument/implementation"@ {
        assert(nav_methods()[2] == m);
    } else if m == "textDocument/references"@ {
        assert(nav_methods()[3] == m);
    } else if m == "textDocument/documentSymbol"@ {
        assert(nav_methods()[4] == m);
    } else if m == "workspace/symbol"@ {
        assert(nav_methods()[5] == m);
    } else if m == "inlayHint/resolve"@ {
        assert(nav_methods()[6] == m);
    } else if m == "textDocument/hover"@ {
        assert(nav_methods()[7] == m);
    }
    assert(nav_methods().contains(m));
    assert(m.len() != 10 && m.len() != 11 && m.len() != 20);
    assert(m != "initialize"@);
    assert(m != "initialized"@);
    assert(m != "textDocument/didSave"@);
    let s1 = spec_client_step(s, body, Some(msg)).0;
    assert(s1.nav_requests == with(s.nav_requests, json_text(id)));
    if !s.nav_requests.contains(json_text(id)) {
        assert(s.nav_requests.push(json_text(id))[s.nav_requests.len() as int] == json_text(id));
    }
}

/// An import log line is shown as a log message naming its build tool: a
/// line that starts a step reads `<tool>: <message>`, any other line
/// `[<tool>] <message>`, where the tool is the `tool` parameter, or
/// `Build` when it is absent or not a string.
pub proof fn lemma_import_log_names_tool(msg: JsonV, message: Seq<char>, started: bool)
    requires
        jstr(jidx(jidx(msg, "params"@), "message"@)) == Some(message),
        message.len() > 0,
        jbool(jidx(jidx(msg, "params"@), "started"@)) == Some(started),
    ensures
        ({
            let tool = match jidx(jidx(msg, "params"@), "tool"@) {
                JsonV::Str(t) => t,
                _ => "Build"@,
            };
            import_log_messages(msg)[0] == notification_v(
                "window/logMessage"@,
                message_params(4, if started { tool + ": "@ + message } else { "["@ + tool + "] "@ + message }),
            )
        }),
{
}

} // verus!
