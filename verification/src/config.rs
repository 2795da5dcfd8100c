//! User-facing settings of the extension, read from
//! `lsp.intellij-server.settings` in the Zed configuration.

use vstd::prelude::*;
use crate::text::{chars_of, push_char};
use crate::json::{Json, JsonV, jget, jstr, jbool, items_view, lemma_items_view, str_eq};

verus! {

broadcast use vstd::string::group_string_axioms;

/// The regions the server accepts for `INTELLIJ_REGION`.
pub open spec fn regions() -> Seq<Seq<char>> {
    seq!["africa"@, "americas"@, "apac"@, "china"@, "europe"@, "middle_east"@, "oceania"@]
}

fn region_list() -> (v: Vec<&'static str>)
    ensures
        v@.len() == regions().len(),
        forall|i: int| 0 <= i < v@.len() ==> #[trigger] v@[i]@ == regions()[i],
{
    let v = vec!["africa", "americas", "apac", "china", "europe", "middle_east", "oceania"];
    proof {
        assert(v@.len() == 7);
    }
    v
}

/// Launch-time configuration (environment, EULA acceptance).
pub struct LaunchConfig {
    pub accept_eula: bool,
    pub jvm_args: Vec<String>,
    /// `full` or `anonymous`; `none`/unset means the variable is not passed at all.
    pub data_sharing: Option<String>,
    pub region: Option<String>,
    /// Path to an `ij-zed-proxy` binary; when set, the server runs behind the proxy.
    pub proxy_path: Option<String>,
}

/// A character that `str::trim` removes (Unicode `White_Space`).
pub open spec fn is_unicode_space(c: char) -> bool {
    ('\u{9}' <= c && c <= '\u{d}') || c == ' ' || c == '\u{85}' || c == '\u{a0}' || c == '\u{1680}'
        || ('\u{2000}' <= c && c <= '\u{200a}') || c == '\u{2028}' || c == '\u{2029}' || c == '\u{202f}'
        || c == '\u{205f}' || c == '\u{3000}'
}

/// The text is empty once white space is trimmed from both ends.
pub open spec fn is_blank(s: Seq<char>) -> bool {
    forall|i: int| 0 <= i < s.len() ==> is_unicode_space(#[trigger] s[i])
}

/// The member `key` of the settings object, if there are settings.
pub open spec fn setting(settings: Option<JsonV>, key: Seq<char>) -> Option<JsonV> {
    match settings {
        Some(s) => jget(s, key),
        None => None,
    }
}

/// The member `key` of the settings, when it is a string.
pub open spec fn setting_str(settings: Option<JsonV>, key: Seq<char>) -> Option<Seq<char>> {
    match setting(settings, key) {
        Some(v) => jstr(v),
        None => None,
    }
}

/// The strings among `items`, in order.
pub open spec fn string_items(items: Seq<JsonV>) -> Seq<Seq<char>>
    decreases items.len(),
{
    if items.len() == 0 {
        Seq::empty()
    } else {
        let rest = string_items(items.drop_last());
        match items.last() {
            JsonV::Str(s) => rest.push(s),
            _ => rest,
        }
    }
}

pub open spec fn spec_accept_eula(settings: Option<JsonV>) -> bool {
    match setting(settings, "accept_jetbrains_eula"@) {
        Some(v) => match jbool(v) {
            Some(b) => b,
            None => false,
        },
        None => false,
    }
}

pub open spec fn spec_jvm_args(settings: Option<JsonV>) -> Seq<Seq<char>> {
    match setting(settings, "jvm_args"@) {
        Some(JsonV::Array(items)) => string_items(items),
        _ => Seq::empty(),
    }
}

pub open spec fn spec_data_sharing(settings: Option<JsonV>) -> Option<Seq<char>> {
    match setting_str(settings, "data_sharing"@) {
        Some(v) => if v == "full"@ || v == "anonymous"@ { Some(v) } else { None },
        None => None,
    }
}

pub open spec fn spec_region(settings: Option<JsonV>) -> Option<Seq<char>> {
    match setting_str(settings, "region"@) {
        Some(v) => if regions().contains(v) { Some(v) } else { None },
        None => None,
    }
}

pub open spec fn spec_proxy_path(settings: Option<JsonV>) -> Option<Seq<char>> {
    match setting_str(settings, "proxy_path"@) {
        Some(v) => if !is_blank(v) { Some(v) } else { None },
        None => None,
    }
}

/// View of an optional string.
pub open spec fn opt_str_view(o: Option<String>) -> Option<Seq<char>> {
    match o {
        Some(s) => Some(s@),
        None => None,
    }
}

/// The views of a list of strings.
pub open spec fn str_seq_view(v: Seq<String>) -> Seq<Seq<char>> {
    v.map_values(|s: String| s@)
}

fn is_unicode_space_exec(c: char) -> (r: bool)
    ensures
        r == is_unicode_space(c),
{
    ('\u{9}' <= c && c <= '\u{d}') || c == ' ' || c == '\u{85}' || c == '\u{a0}' || c == '\u{1680}'
        || ('\u{2000}' <= c && c <= '\u{200a}') || c == '\u{2028}' || c == '\u{2029}' || c == '\u{202f}'
        || c == '\u{205f}' || c == '\u{3000}'
}

fn is_blank_exec(s: &str) -> (r: bool)
    ensures
        r == is_blank(s@),
{
    let cs = chars_of(s);
    let mut i: usize = 0;
    while i < cs.len()
        invariant
            i <= cs@.len(),
            cs@ == s@,
            forall|k: int| 0 <= k < i ==> is_unicode_space(#[trigger] cs@[k]),
        decreases cs@.len() - i,
    {
        if !is_unicode_space_exec(cs[i]) {
            return false;
        }
        i = i + 1;
    }
    true
}

fn setting_of<'a>(settings: Option<&'a Json>, key: &str) -> (r: Option<&'a Json>)
    ensures
        crate::json::opt_view(r) == setting(crate::json::opt_view(settings), key@),
{
    match settings {
        Some(s) => s.get(key),
        None => None,
    }
}

fn setting_str_of(settings: Option<&Json>, key: &str) -> (r: Option<String>)
    ensures
        opt_str_view(r) == setting_str(crate::json::opt_view(settings), key@),
{
    match setting_of(settings, key) {
        Some(v) => match v.as_str() {
            Some(s) => Some(String::from_str(s)),
            None => None,
        },
        None => None,
    }
}

impl LaunchConfig {
    /// The configuration given by the settings object (absent settings give
    /// the defaults: EULA not accepted, no JVM options, nothing else set).
    pub fn from_settings(settings: Option<&Json>) -> (r: LaunchConfig)
        ensures
            r.accept_eula == spec_accept_eula(crate::json::opt_view(settings)),
            str_seq_view(r.jvm_args@) == spec_jvm_args(crate::json::opt_view(settings)),
            opt_str_view(r.data_sharing) == spec_data_sharing(crate::json::opt_view(settings)),
            opt_str_view(r.region) == spec_region(crate::json::opt_view(settings)),
            opt_str_view(r.proxy_path) == spec_proxy_path(crate::json::opt_view(settings)),
    {
        let ghost sv = crate::json::opt_view(settings);
        let accept_eula = match setting_of(settings, "accept_jetbrains_eula") {
            Some(v) => match v.as_bool() {
                Some(b) => b,
                None => false,
            },
            None => false,
        };

        let mut jvm_args: Vec<String> = Vec::new();
        match setting_of(settings, "jvm_args") {
            Some(Json::Array(items)) => {
                proof {
                    lemma_items_view(items@);
                }
                let ghost iv = items_view(items@);
                let mut i: usize = 0;
                while i < items.len()
                    invariant
                        i <= items@.len(),
                        iv == items_view(items@),
                        iv.len() == items@.len(),
                        forall|k: int| 0 <= k < items@.len() ==> #[trigger] iv[k] == items@[k]@,
                        str_seq_view(jvm_args@) == string_items(iv.take(i as int)),
                    decreases items@.len() - i,
                {
                    let ghost before = jvm_args@;
                    match &items[i] {
                        Json::Str(s) => {
                            jvm_args.push(s.clone());
                            assert(str_seq_view(jvm_args@) =~= str_seq_view(before).push(s@));
                        },
                        _ => {},
                    }
                    proof {
                        assert(iv.take(i + 1).drop_last() =~= iv.take(i as int));
                        assert(iv.take(i + 1).last() == items@[i as int]@);
                    }
                    i = i + 1;
                }
                assert(iv.take(items@.len() as int) =~= iv);
            },
            _ => {
                assert(str_seq_view(jvm_args@) =~= Seq::<Seq<char>>::empty());
            },
        }

        let data_sharing = match setting_str_of(settings, "data_sharing") {
            Some(v) => if str_eq(v.as_str(), "full") || str_eq(v.as_str(), "anonymous") {
                Some(v)
            } else {
                None
            },
            None => None,
        };

        let region = match setting_str_of(settings, "region") {
            Some(v) => {
                let list = region_list();
                let mut found = false;
                let mut i: usize = 0;
                while i < list.len()
                    invariant
                        i <= list@.len(),
                        list@.len() == regions().len(),
                        forall|k: int| 0 <= k < list@.len() ==> #[trigger] list@[k]@ == regions()[k],
                        found == (exists|k: int| 0 <= k < i && regions()[k] == v@),
                    decreases list@.len() - i,
                {
                    if str_eq(list[i], v.as_str()) {
                        found = true;
                    }
                    i = i + 1;
                }
                proof {
                    if found {
                        let k = choose|k: int| 0 <= k < regions().len() && regions()[k] == v@;
                        assert(regions().contains(v@));
                    } else {
                        assert forall|k: int| 0 <= k < regions().len() implies regions()[k] != v@ by {}
                    }
                }
                if found { Some(v) } else { None }
            },
            None => None,
        };

        let proxy_path = match setting_str_of(settings, "proxy_path") {
            Some(p) => if !is_blank_exec(p.as_str()) { Some(p) } else { None },
            None => None,
        };

        LaunchConfig { accept_eula, jvm_args, data_sharing, region, proxy_path }
    }

    /// Environment variables for the server process: `IJ_JAVA_OPTIONS`
    /// (the JVM options, each shell-quoted when needed, joined by spaces)
    /// when there are any, then `INTELLIJ_DATA_SHARING` and `INTELLIJ_REGION`
    /// when set.
    pub fn launch_env(&self) -> (r: Vec<(String, String)>)
        ensures
            env_view(r@) == spec_launch_env(str_seq_view(self.jvm_args@), opt_str_view(self.data_sharing), opt_str_view(self.region)),
    {
        let mut env: Vec<(String, String)> = Vec::new();
        let ghost jv = str_seq_view(self.jvm_args@);
        if self.jvm_args.len() > 0 {
            let mut joined = String::new();
            let mut i: usize = 0;
            while i < self.jvm_args.len()
                invariant
                    i <= self.jvm_args@.len(),
                    jv == str_seq_view(self.jvm_args@),
                    joined@ == join_quoted(jv.take(i as int)),
                decreases self.jvm_args@.len() - i,
            {
                let q = shell_quote_if_needed(self.jvm_args[i].as_str());
                if i > 0 {
                    joined.append(" ");
                }
                joined.append(q.as_str());
                proof {
                    assert(jv.take(i + 1).drop_last() =~= jv.take(i as int));
                    reveal_strlit(" ");
                }
                i = i + 1;
            }
            assert(jv.take(self.jvm_args@.len() as int) =~= jv);
            env.push((String::from_str("IJ_JAVA_OPTIONS"), joined));
        }
        match &self.data_sharing {
            Some(d) => env.push((String::from_str("INTELLIJ_DATA_SHARING"), d.clone())),
            None => {},
        }
        match &self.region {
            Some(r) => env.push((String::from_str("INTELLIJ_REGION"), r.clone())),
            None => {},
        }
        assert(env_view(env@) =~= spec_launch_env(jv, opt_str_view(self.data_sharing), opt_str_view(self.region)));
        env
    }
}

/// The views of a list of environment variables.
pub open spec fn env_view(v: Seq<(String, String)>) -> Seq<(Seq<char>, Seq<char>)> {
    v.map_values(|p: (String, String)| (p.0@, p.1@))
}

/// The arguments, each shell-quoted when needed, joined by single spaces.
pub open spec fn join_quoted(args: Seq<Seq<char>>) -> Seq<char>
    decreases args.len(),
{
    if args.len() == 0 {
        Seq::empty()
    } else if args.len() == 1 {
        spec_shell_quote(args[0])
    } else {
        join_quoted(args.drop_last()) + " "@ + spec_shell_quote(args.last())
    }
}

pub open spec fn spec_launch_env(jvm_args: Seq<Seq<char>>, data_sharing: Option<Seq<char>>, region: Option<Seq<char>>) -> Seq<(Seq<char>, Seq<char>)> {
    let a: Seq<(Seq<char>, Seq<char>)> = if jvm_args.len() > 0 {
        seq![("IJ_JAVA_OPTIONS"@, join_quoted(jvm_args))]
    } else {
        Seq::empty()
    };
    let b: Seq<(Seq<char>, Seq<char>)> = match data_sharing {
        Some(d) => seq![("INTELLIJ_DATA_SHARING"@, d)],
        None => Seq::empty(),
    };
    let c: Seq<(Seq<char>, Seq<char>)> = match region {
        Some(r) => seq![("INTELLIJ_REGION"@, r)],
        None => Seq::empty(),
    };
    a + b + c
}

/// Characters that never need quoting: ASCII letters and digits and `._=:/@-`.
pub open spec fn is_plain_arg_char(c: char) -> bool {
    ('0' <= c && c <= '9') || ('A' <= c && c <= 'Z') || ('a' <= c && c <= 'z') || c == '.' || c == '_'
        || c == '=' || c == ':' || c == '/' || c == '@' || c == '-'
}

/// The characters escaped with a backslash inside double quotes.
pub open spec fn needs_escape(c: char) -> bool {
    c == '"' || c == '\\' || c == '$' || c == '`'
}

pub open spec fn escaped_chars(s: Seq<char>) -> Seq<char>
    decreases s.len(),
{
    if s.len() == 0 {
        Seq::empty()
    } else if needs_escape(s.last()) {
        escaped_chars(s.drop_last()) + seq!['\\', s.last()]
    } else {
        escaped_chars(s.drop_last()).push(s.last())
    }
}

/// The argument as is when every character is plain, otherwise in double
/// quotes with `"`, `\`, `$` and `` ` `` escaped.
pub open spec fn spec_shell_quote(arg: Seq<char>) -> Seq<char> {
    if forall|i: int| 0 <= i < arg.len() ==> is_plain_arg_char(#[trigger] arg[i]) {
        arg
    } else {
        seq!['"'] + escaped_chars(arg) + seq!['"']
    }
}

/// Quotes an argument for the shell the way the VS Code client does.
pub fn shell_quote_if_needed(arg: &str) -> (r: String)
    ensures
        r@ == spec_shell_quote(arg@),
{
    let cs = chars_of(arg);
    let mut plain = true;
    let mut i: usize = 0;
    while i < cs.len()
        invariant
            i <= cs@.len(),
            cs@ == arg@,
            plain == (forall|k: int| 0 <= k < i ==> is_plain_arg_char(#[trigger] cs@[k])),
        decreases cs@.len() - i,
    {
        let c = cs[i];
        let ok = ('0' <= c && c <= '9') || ('A' <= c && c <= 'Z') || ('a' <= c && c <= 'z') || c == '.'
            || c == '_' || c == '=' || c == ':' || c == '/' || c == '@' || c == '-';
        if !ok {
            plain = false;
        }
        proof {
            if plain {
                assert forall|k: int| 0 <= k < i + 1 implies is_plain_arg_char(#[trigger] cs@[k]) by {}
            } else if ok {
                let w = choose|k: int| 0 <= k < i && !is_plain_arg_char(#[trigger] cs@[k]);
                assert(0 <= w < i + 1 && !is_plain_arg_char(cs@[w]));
            }
        }
        i = i + 1;
    }
    if plain {
        return String::from_str(arg);
    }
    let mut quoted = String::from_str("\"");
    proof {
        reveal_strlit("\"");
        assert(cs@.take(0) =~= Seq::<char>::empty());
        assert(quoted@ =~= seq!['"'] + escaped_chars(cs@.take(0)));
    }
    let mut j: usize = 0;
    while j < cs.len()
        invariant
            j <= cs@.len(),
            cs@ == arg@,
            quoted@ == seq!['"'] + escaped_chars(cs@.take(j as int)),
        decreases cs@.len() - j,
    {
        let c = cs[j];
        if c == '"' || c == '\\' || c == '$' || c == '`' {
            push_char(&mut quoted, '\\');
        }
        push_char(&mut quoted, c);
        proof {
            assert(cs@.take(j + 1).drop_last() =~= cs@.take(j as int));
        }
        j = j + 1;
    }
    push_char(&mut quoted, '"');
    assert(cs@.take(cs@.len() as int) =~= cs@);
    quoted
}

// ---------------------------------------------------------------------------
// How a POSIX shell reads the quoted argument back
// ---------------------------------------------------------------------------

/// The characters a backslash escapes inside double quotes.
pub open spec fn dq_escapable(c: char) -> bool {
    c == '$' || c == '`' || c == '"' || c == '\\' || c == '\n'
}

/// `r` in front of the text read so far, if the reading succeeded.
pub open spec fn prepend(r: Seq<char>, o: Option<Seq<char>>) -> Option<Seq<char>> {
    match o {
        Some(t) => Some(r + t),
        None => None,
    }
}

/// What a POSIX shell reads from the inside of a double-quoted string that
/// closes at the very end of `s`: escapes resolved, the text kept literally;
/// `None` when the quotes do not close there or an expansion (`$`, `` ` ``)
/// would take place.
pub open spec fn dq_body(s: Seq<char>) -> Option<Seq<char>>
    decreases s.len(),
{
    if s.len() == 0 {
        None
    } else if s[0] == '"' {
        if s.len() == 1 { Some(Seq::empty()) } else { None }
    } else if s[0] == '$' || s[0] == '`' {
        None
    } else if s[0] == '\\' {
        if s.len() >= 2 && dq_escapable(s[1]) {
            prepend(seq![s[1]], dq_body(s.skip(2)))
        } else {
            prepend(seq!['\\'], dq_body(s.skip(1)))
        }
    } else {
        prepend(seq![s[0]], dq_body(s.skip(1)))
    }
}

/// The single word a POSIX shell reads from `s`, for the two forms the
/// quoting produces: a double-quoted string, or a non-empty run of
/// characters that are never special to the shell.
pub open spec fn sh_word(s: Seq<char>) -> Option<Seq<char>> {
    if s.len() > 0 && s[0] == '"' {
        dq_body(s.drop_first())
    } else if s.len() > 0 && forall|i: int| 0 <= i < s.len() ==> is_plain_arg_char(#[trigger] s[i]) {
        Some(s)
    } else {
        None
    }
}

proof fn lemma_dq_escaped(a: Seq<char>, tail: Seq<char>)
    ensures
        dq_body(escaped_chars(a) + tail) == prepend(a, dq_body(tail)),
    decreases a.len(),
{
    if a.len() == 0 {
        assert(escaped_chars(a) + tail =~= tail);
        match dq_body(tail) {
            Some(t) => assert(a + t =~= t),
            None => {},
        }
    } else {
        let a0 = a.drop_last();
        let c = a.last();
        let e: Seq<char> = if needs_escape(c) { seq!['\\', c] } else { seq![c] };
        assert(escaped_chars(a) == escaped_chars(a0) + e);
        assert(escaped_chars(a) + tail =~= escaped_chars(a0) + (e + tail));
        lemma_dq_escaped(a0, e + tail);
        let s = e + tail;
        if needs_escape(c) {
            assert(s[0] == '\\' && s[1] == c && s.len() >= 2);
            assert(s.skip(2) =~= tail);
        } else {
            assert(s[0] == c);
            assert(s.skip(1) =~= tail);
        }
        assert(dq_body(s) == prepend(seq![c], dq_body(tail)));
        match dq_body(tail) {
            Some(t) => {
                assert(a0 + (seq![c] + t) =~= a + t);
            },
            None => {},
        }
    }
}

/// A POSIX shell reads the quoted argument back as exactly one word, the
/// argument itself (for any non-empty argument; the empty one is returned
/// empty, which a shell reads as no word at all).
pub proof fn lemma_shell_quote_word(arg: Seq<char>)
    requires
        arg.len() > 0,
    ensures
        sh_word(spec_shell_quote(arg)) == Some(arg),
{
    if forall|i: int| 0 <= i < arg.len() ==> is_plain_arg_char(#[trigger] arg[i]) {
        assert(is_plain_arg_char(arg[0]));
    } else {
        let q = spec_shell_quote(arg);
        assert(q == seq!['"'] + escaped_chars(arg) + seq!['"']);
        assert(q.drop_first() =~= escaped_chars(arg) + seq!['"']);
        lemma_dq_escaped(arg, seq!['"']);
        assert(dq_body(seq!['"']) == Some(Seq::<char>::empty()));
        assert(arg + Seq::<char>::empty() =~= arg);
    }
}

} // verus!
