//! `ij-zed-proxy`: command line, launch arguments of the backend, and the
//! cache location of decompiled documents.

use vstd::prelude::*;
use crate::text::chars_of;
use crate::json::str_eq;
use crate::paths::{join, path_join, parent, parent_of, grandparent, grandparent_of, file_name, file_name_of};
use crate::eula::{sha256_of, hex_bytes};
use crate::dap::DapArgs;

verus! {

broadcast use vstd::string::group_string_axioms;

/// `needle` occurs somewhere in `haystack`.
pub open spec fn spec_contains(haystack: Seq<u8>, needle: Seq<u8>) -> bool {
    exists|i: int| 0 <= i && i + needle.len() <= haystack.len() && #[trigger] haystack.subrange(i, i + needle.len()) == needle
}

/// Whether `needle` (not empty) occurs in `haystack`.
pub fn contains(haystack: &[u8], needle: &[u8]) -> (r: bool)
    requires
        needle@.len() > 0,
    ensures
        r == spec_contains(haystack@, needle@),
{
    let n = needle.len();
    if haystack.len() < n {
        proof {
            assert forall|i: int| 0 <= i && i + needle@.len() <= haystack@.len() implies #[trigger] haystack@.subrange(i, i + needle@.len()) != needle@ by {}
        }
        return false;
    }
    let hl = haystack.len();
    let last = hl - n;
    let mut i: usize = 0;
    while i <= last
        invariant
            n == needle@.len(),
            n > 0,
            last + n == haystack@.len(),
            last + n == hl,
            forall|k: int| 0 <= k < i ==> #[trigger] haystack@.subrange(k, k + n) != needle@,
        decreases last + 1 - i,
    {
        let mut j: usize = 0;
        let mut same = true;
        while j < n
            invariant
                j <= n,
                i <= last,
                n == needle@.len(),
                last + n == haystack@.len(),
                last + n == hl,
                same == (forall|k: int| 0 <= k < j ==> haystack@[i + k] == needle@[k]),
            decreases n - j,
        {
            if haystack[i + j] != needle[j] {
                same = false;
            }
            j = j + 1;
        }
        if same {
            assert(haystack@.subrange(i as int, i + n) =~= needle@);
            return true;
        }
        proof {
            let w = choose|k: int| 0 <= k < n && haystack@[i + k] != needle@[k];
            assert(haystack@.subrange(i as int, i + n)[w] != needle@[w]);
        }
        if i == last {
            proof {
                assert forall|k: int| 0 <= k && k + needle@.len() <= haystack@.len() implies #[trigger] haystack@.subrange(k, k + needle@.len()) != needle@ by {
                    assert(k <= i);
                }
            }
            return false;
        }
        i = i + 1;
    }
    false
}

// ---------------------------------------------------------------------------
// Command line
// ---------------------------------------------------------------------------

/// How the proxy was started.
pub enum Mode {
    /// LSP pump in front of the server command.
    Lsp { log_path: Option<String>, server_cmd: Vec<String> },
    /// Debug adapter for the running LSP proxy instance.
    Dap(DapArgs),
}

pub open spec fn dap_usage() -> Seq<char> {
    "usage: ij-zed-proxy --dap --system-path <dir> --root-uri <uri>"@
}

pub open spec fn lsp_usage() -> Seq<char> {
    "usage: ij-zed-proxy [--log <path>] -- <server-launcher> [server args...]"@
}

/// The argument after position `i`, if any.
pub open spec fn arg_after(argv: Seq<Seq<char>>, i: int) -> Option<Seq<char>> {
    if 0 <= i + 1 < argv.len() {
        Some(argv[i + 1])
    } else {
        None
    }
}

/// `--system-path` and `--root-uri` values found from position `i` on
/// (a flag at the very end resets its value).
pub open spec fn dap_scan(argv: Seq<Seq<char>>, i: int, sp: Option<Seq<char>>, ru: Option<Seq<char>>) -> (Option<Seq<char>>, Option<Seq<char>>)
    decreases argv.len() + 1 - i,
{
    if i < 0 || i >= argv.len() {
        (sp, ru)
    } else if argv[i] == "--system-path"@ {
        dap_scan(argv, i + 2, arg_after(argv, i), ru)
    } else if argv[i] == "--root-uri"@ {
        dap_scan(argv, i + 2, sp, arg_after(argv, i))
    } else {
        dap_scan(argv, i + 1, sp, ru)
    }
}

/// The `--log` value and the server command found from position `i` on:
/// the command is everything after `--`, or everything from the first
/// argument that is neither `--log <path>` nor `--`.
pub open spec fn lsp_scan(argv: Seq<Seq<char>>, i: int, log: Option<Seq<char>>) -> (Option<Seq<char>>, Seq<Seq<char>>)
    decreases argv.len() + 1 - i,
{
    if i < 0 || i >= argv.len() {
        (log, Seq::empty())
    } else if argv[i] == "--log"@ {
        lsp_scan(argv, i + 2, arg_after(argv, i))
    } else if argv[i] == "--"@ {
        (log, argv.skip(i + 1))
    } else {
        (log, argv.skip(i))
    }
}

/// The views of a list of strings.
pub open spec fn strs_view(v: Seq<String>) -> Seq<Seq<char>> {
    v.map_values(|s: String| s@)
}

pub open spec fn opt_string_view(o: Option<String>) -> Option<Seq<char>> {
    match o {
        Some(s) => Some(s@),
        None => None,
    }
}

/// What the command line asks for: `Ok` with the mode, or the usage text
/// to print before exiting with status 2.
pub open spec fn spec_parse_args(argv: Seq<Seq<char>>) -> Result<(bool, Option<Seq<char>>, Seq<Seq<char>>, Seq<char>, Seq<char>), Seq<char>> {
    if argv.len() > 0 && argv[0] == "--dap"@ {
        match dap_scan(argv, 1, None, None) {
            (Some(sp), Some(ru)) => Ok((true, None, Seq::empty(), sp, ru)),
            _ => Err(dap_usage()),
        }
    } else {
        let (log, cmd) = lsp_scan(argv, 0, None);
        if cmd.len() == 0 {
            Err(lsp_usage())
        } else {
            Ok((false, log, cmd, Seq::empty(), Seq::empty()))
        }
    }
}

/// A mode in the shape of [`spec_parse_args`]'s result.
pub open spec fn mode_view(m: Mode) -> (bool, Option<Seq<char>>, Seq<Seq<char>>, Seq<char>, Seq<char>) {
    match m {
        Mode::Lsp { log_path, server_cmd } => (false, opt_string_view(log_path), strs_view(server_cmd@), Seq::empty(), Seq::empty()),
        Mode::Dap(a) => (true, None, Seq::empty(), a.system_path@, a.root_uri@),
    }
}

fn arg_after_exec(argv: &Vec<String>, i: usize) -> (r: Option<String>)
    requires
        i < argv@.len(),
    ensures
        opt_string_view(r) == arg_after(strs_view(argv@), i as int),
{
    if argv.len() - i > 1 {
        Some(argv[i + 1].clone())
    } else {
        None
    }
}

fn tail_from(argv: &Vec<String>, i: usize) -> (r: Vec<String>)
    requires
        i <= argv@.len(),
    ensures
        strs_view(r@) == strs_view(argv@).skip(i as int),
{
    let mut out: Vec<String> = Vec::new();
    let mut k: usize = i;
    while k < argv.len()
        invariant
            i <= k <= argv@.len(),
            strs_view(out@) == strs_view(argv@).subrange(i as int, k as int),
        decreases argv@.len() - k,
    {
        let ghost before = out@;
        let a = argv[k].clone();
        out.push(a);
        assert(out@ == before.push(a));
        assert(strs_view(out@) =~= strs_view(before).push(a@));
        assert(strs_view(out@) =~= strs_view(argv@).subrange(i as int, k + 1));
        k = k + 1;
    }
    assert(strs_view(argv@).subrange(i as int, argv@.len() as int) =~= strs_view(argv@).skip(i as int));
    out
}

/// Reads the command line (without the program name).
pub fn parse_args(argv: &Vec<String>) -> (r: Result<Mode, String>)
    ensures
        match r {
            Ok(m) => spec_parse_args(strs_view(argv@)) == Ok::<_, Seq<char>>(mode_view(m)),
            Err(u) => spec_parse_args(strs_view(argv@)) == Err::<(bool, Option<Seq<char>>, Seq<Seq<char>>, Seq<char>, Seq<char>), Seq<char>>(u@),
        },
{
    let ghost av = strs_view(argv@);
    if argv.len() > 0 && str_eq(argv[0].as_str(), "--dap") {
        let mut system_path: Option<String> = None;
        let mut root_uri: Option<String> = None;
        let mut i: usize = 1;
        while i < argv.len()
            invariant
                av == strs_view(argv@),
                av.len() == argv@.len(),
                1 <= i <= argv@.len() || (argv@.len() == 0 && i == 1),
                dap_scan(av, 1, None, None) == dap_scan(av, i as int, opt_string_view(system_path), opt_string_view(root_uri)),
            decreases argv@.len() + 1 - i,
        {
            assert(av[i as int] == argv@[i as int]@);
            if str_eq(argv[i].as_str(), "--system-path") {
                system_path = arg_after_exec(argv, i);
                proof {
                    assert(dap_scan(av, i + 2, opt_string_view(system_path), opt_string_view(root_uri))
                        == dap_scan(av, if av.len() - i >= 2 { i + 2 } else { av.len() as int }, opt_string_view(system_path), opt_string_view(root_uri)));
                }
                i = if argv.len() - i >= 2 { i + 2 } else { argv.len() };
            } else if str_eq(argv[i].as_str(), "--root-uri") {
                root_uri = arg_after_exec(argv, i);
                proof {
                    assert(dap_scan(av, i + 2, opt_string_view(system_path), opt_string_view(root_uri))
                        == dap_scan(av, if av.len() - i >= 2 { i + 2 } else { av.len() as int }, opt_string_view(system_path), opt_string_view(root_uri)));
                }
                i = if argv.len() - i >= 2 { i + 2 } else { argv.len() };
            } else {
                i = i + 1;
            }
        }
        return match (system_path, root_uri) {
            (Some(system_path), Some(root_uri)) => Ok(Mode::Dap(DapArgs { system_path, root_uri })),
            _ => Err(String::from_str("usage: ij-zed-proxy --dap --system-path <dir> --root-uri <uri>")),
        };
    }
    let mut log_path: Option<String> = None;
    let mut i: usize = 0;
    let mut server_cmd: Vec<String> = Vec::new();
    let mut done = false;
    while i < argv.len() && !done
        invariant
            av == strs_view(argv@),
            av.len() == argv@.len(),
            i <= argv@.len(),
            !done ==> strs_view(server_cmd@) == Seq::<Seq<char>>::empty(),
            !done ==> lsp_scan(av, 0, None) == lsp_scan(av, i as int, opt_string_view(log_path)),
            done ==> lsp_scan(av, 0, None) == (opt_string_view(log_path), strs_view(server_cmd@)),
        decreases (argv@.len() - i) * 2 + (if done { 0int } else { 1int }),
    {
        assert(av[i as int] == argv@[i as int]@);
        if str_eq(argv[i].as_str(), "--log") {
            log_path = arg_after_exec(argv, i);
            proof {
                assert(lsp_scan(av, i + 2, opt_string_view(log_path))
                    == lsp_scan(av, if av.len() - i >= 2 { i + 2 } else { av.len() as int }, opt_string_view(log_path)));
            }
            i = if argv.len() - i >= 2 { i + 2 } else { argv.len() };
        } else if str_eq(argv[i].as_str(), "--") {
            server_cmd = tail_from(argv, i + 1);
            done = true;
        } else {
            server_cmd = tail_from(argv, i);
            done = true;
        }
    }
    proof {
        if !done {
            assert(strs_view(server_cmd@) =~= Seq::<Seq<char>>::empty());
        }
    }
    if server_cmd.len() == 0 {
        return Err(String::from_str("usage: ij-zed-proxy [--log <path>] -- <server-launcher> [server args...]"));
    }
    Ok(Mode::Lsp { log_path, server_cmd })
}

// ---------------------------------------------------------------------------
// Server launch
// ---------------------------------------------------------------------------

/// Where the launcher's `EULA.txt` is: `<launcher dir>/../EULA.txt`.
pub open spec fn spec_eula_file(launcher: Seq<char>) -> Option<Seq<char>> {
    match parent_of(launcher) {
        Some(bin) => Some(path_join(path_join(bin, ".."@), "EULA.txt"@)),
        None => None,
    }
}

pub fn eula_file_for(launcher: &str) -> (r: Option<String>)
    ensures
        opt_string_view(r) == spec_eula_file(launcher@),
{
    match parent(launcher) {
        Some(bin) => {
            let up = join(bin.as_str(), "..");
            Some(join(up.as_str(), "EULA.txt"))
        },
        None => None,
    }
}

/// The server arguments: those of the command line, with `--eula <hash>`
/// appended when none was given and the launcher's `EULA.txt` could be read
/// (`eula_text`), the hash being the first 16 hex characters of its SHA-256.
pub open spec fn spec_eula_args(cmd: Seq<Seq<char>>, eula_text: Option<Seq<u8>>) -> Seq<Seq<char>> {
    let args = cmd.skip(1);
    if cmd.contains("--eula"@) {
        args
    } else {
        match eula_text {
            Some(bytes) => args + seq!["--eula"@, hex_bytes(sha256_of(bytes).take(8))],
            None => args,
        }
    }
}

pub open spec fn opt_bytes_view(o: Option<Vec<u8>>) -> Option<Seq<u8>> {
    match o {
        Some(b) => Some(b@),
        None => None,
    }
}

/// Server args, with `--eula <hash>` appended when the caller could not
/// compute it (e.g. the extension sandbox cannot read a user-provided server
/// path) and the launcher's `EULA.txt` was readable (`eula_text`).
pub fn eula_args(cmd: &Vec<String>, eula_text: Option<Vec<u8>>) -> (r: Vec<String>)
    requires
        cmd@.len() > 0,
    ensures
        strs_view(r@) == spec_eula_args(strs_view(cmd@), opt_bytes_view(eula_text)),
{
    let ghost cv = strs_view(cmd@);
    let mut args = tail_from(cmd, 1);
    let mut i: usize = 0;
    let mut given = false;
    while i < cmd.len()
        invariant
            i <= cmd@.len(),
            cv == strs_view(cmd@),
            given == (exists|k: int| 0 <= k < i && cv[k] == "--eula"@),
        decreases cmd@.len() - i,
    {
        assert(cv[i as int] == cmd@[i as int]@);
        if str_eq(cmd[i].as_str(), "--eula") {
            given = true;
        }
        i = i + 1;
    }
    proof {
        if given {
            let k = choose|k: int| 0 <= k < cmd@.len() && cv[k] == "--eula"@;
            assert(cv.contains("--eula"@));
        } else {
            assert(!cv.contains("--eula"@));
        }
    }
    if given {
        return args;
    }
    match eula_text {
        Some(bytes) => {
            let digest = crate::eula::sha256_hex(bytes.as_slice());
            let hc = chars_of(digest.as_str());
            let hash = crate::text::string_from_chars(crate::text::sub_chars(&hc, 0, 16).as_slice());
            proof {
                crate::eula::lemma_hex_bytes_take(sha256_of(bytes@), 8);
            }
            let ghost before = strs_view(args@);
            args.push(String::from_str("--eula"));
            args.push(hash);
            assert(strs_view(args@) =~= before + seq!["--eula"@, hex_bytes(sha256_of(bytes@).take(8))]);
            args
        },
        None => args,
    }
}

/// The value after the first `--system-path` from position `i` on.
pub open spec fn flag_value_from(cmd: Seq<Seq<char>>, i: int) -> Option<Seq<char>>
    decreases cmd.len() - i,
{
    if i < 0 || i + 1 >= cmd.len() {
        None
    } else if cmd[i] == "--system-path"@ {
        Some(cmd[i + 1])
    } else {
        flag_value_from(cmd, i + 1)
    }
}

/// The value after the first `--system-path` of the server command, else
/// `<temp>/ij-zed-proxy`.
pub open spec fn spec_system_path_of(cmd: Seq<Seq<char>>, temp_dir: Seq<char>) -> Seq<char> {
    match flag_value_from(cmd, 0) {
        Some(v) => v,
        None => path_join(temp_dir, "ij-zed-proxy"@),
    }
}

/// `<system-path>` from the server args (falling back to a directory in
/// the system temporary directory `temp_dir`).
pub fn system_path_of(cmd: &Vec<String>, temp_dir: &str) -> (r: String)
    ensures
        r@ == spec_system_path_of(strs_view(cmd@), temp_dir@),
{
    let ghost cv = strs_view(cmd@);
    let mut i: usize = 0;
    while i < cmd.len() && cmd.len() - i > 1
        invariant
            cv == strs_view(cmd@),
            cv.len() == cmd@.len(),
            i <= cmd@.len(),
            flag_value_from(cv, 0) == flag_value_from(cv, i as int),
        decreases cmd@.len() - i,
    {
        assert(cv[i as int] == cmd@[i as int]@);
        if str_eq(cmd[i].as_str(), "--system-path") {
            return cmd[i + 1].clone();
        }
        i = i + 1;
    }
    join(temp_dir, "ij-zed-proxy")
}

/// The name of the server directory of a launcher `<server>/bin/<launcher>`
/// (`unknown` when it has none).
pub open spec fn spec_server_name(launcher: Seq<char>) -> Seq<char> {
    match grandparent_of(launcher) {
        Some(d) => match file_name_of(d) {
            Some(n) => n,
            None => "unknown"@,
        },
        None => "unknown"@,
    }
}

/// `<system-path>/decompiled/<server-dir-name>`: invalidated by the server version.
pub fn cache_root_for(cmd: &Vec<String>, temp_dir: &str) -> (r: String)
    requires
        cmd@.len() > 0,
    ensures
        r@ == path_join(path_join(spec_system_path_of(strs_view(cmd@), temp_dir@), "decompiled"@), spec_server_name(cmd@[0]@)),
{
    let server_name = match grandparent(cmd[0].as_str()) {
        Some(d) => match file_name(d.as_str()) {
            Some(n) => n,
            None => String::from_str("unknown"),
        },
        None => String::from_str("unknown"),
    };
    let sp = system_path_of(cmd, temp_dir);
    let dec = join(sp.as_str(), "decompiled");
    join(dec.as_str(), server_name.as_str())
}

// ---------------------------------------------------------------------------
// Log
// ---------------------------------------------------------------------------

/// The log timestamp: the seconds since the Unix epoch, in decimal.
pub fn now_iso(epoch_secs: u64) -> (r: String)
    ensures
        r@ == crate::rewrite::decimal_chars(epoch_secs as nat),
{
    let mut cs: Vec<char> = Vec::new();
    crate::rewrite::push_decimal_chars(&mut cs, epoch_secs);
    crate::text::string_from_chars(cs.as_slice())
}

/// A line of the proxy log: `[<timestamp>] <message>`.
pub fn log_line(timestamp: &str, message: &str) -> (r: String)
    ensures
        r@ == "["@ + timestamp@ + "] "@ + message@,
{
    String::from_str("[").concat(timestamp).concat("] ").concat(message)
}

} // verus!
