//! Cache layout for decompiled `jar:`/`jrt:` documents, and rewriting of
//! LSP payloads so that archive locations point at those cached files.

use vstd::prelude::*;
use vstd::utf8::{encode_utf8, is_ascii_chars};
use std::collections::hash_map::DefaultHasher;
use std::hash::Hasher;
use vstd::std_specs::hash::DefaultHasherAdditionalSpecFns;
use crate::text::{
    chars_of, chars_eq, has_prefix, has_suffix, nonempty_segments, split_nonempty, starts_with,
    ends_with, string_from_chars, sub_chars, range_eq, views_of,
};
use crate::frame::decimal;
use crate::uri::{percent_decode_from, percent_decodable, percent_decode, percent_decode_is_defined, percent_decoded_text};
use crate::json::{
    Json, JsonV, json_view, items_view, fields_view, field_index, field_index_from, str_eq,
    lemma_items_view, lemma_fields_view, lemma_items_view_push, lemma_fields_view_push,
    lemma_field_index_from, find_field, jget,
};

verus! {

broadcast use vstd::string::group_string_axioms;

// ---------------------------------------------------------------------------
// Path components
// ---------------------------------------------------------------------------

/// Characters kept by [`sanitize`]: ASCII letters and digits and `._-`.
pub open spec fn is_safe_char(c: char) -> bool {
    ('0' <= c && c <= '9') || ('A' <= c && c <= 'Z') || ('a' <= c && c <= 'z') || c == '.' || c == '_'
        || c == '-'
}

/// A component made safe for a file name: other characters become `_`.
pub open spec fn sanitized(s: Seq<char>) -> Seq<char> {
    s.map_values(|c: char| if is_safe_char(c) { c } else { '_' })
}

/// Makes a path component safe: every character other than an ASCII letter,
/// digit, `.`, `_` or `-` becomes `_`.
pub fn sanitize(component: &str) -> (r: String)
    ensures
        r@ == sanitized(component@),
{
    let chars = chars_of(component);
    let out = sanitize_chars(&chars);
    string_from_chars(out.as_slice())
}

fn sanitize_chars(s: &[char]) -> (r: Vec<char>)
    ensures
        r@ == sanitized(s@),
{
    let mut out: Vec<char> = Vec::new();
    let mut i: usize = 0;
    while i < s.len()
        invariant
            i <= s@.len(),
            out@ == sanitized(s@.take(i as int)),
        decreases s@.len() - i,
    {
        let c = s[i];
        if ('0' <= c && c <= '9') || ('A' <= c && c <= 'Z') || ('a' <= c && c <= 'z') || c == '.' || c == '_'
            || c == '-' {
            out.push(c);
        } else {
            out.push('_');
        }
        assert(out@ =~= sanitized(s@.take(i + 1)));
        i = i + 1;
    }
    assert(s@.take(s@.len() as int) =~= s@);
    out
}

/// Appending a relative component to a path: a `/` is inserted unless the
/// path is empty or already ends with one.
pub open spec fn path_push(p: Seq<char>, c: Seq<char>) -> Seq<char> {
    if p.len() == 0 || p.last() == '/' {
        p + c
    } else {
        p + seq!['/'] + c
    }
}

fn path_push_exec(p: &mut Vec<char>, c: &[char])
    ensures
        final(p)@ == path_push(old(p)@, c@),
{
    if p.len() > 0 && p[p.len() - 1] != '/' {
        p.push('/');
    }
    let mut i: usize = 0;
    let ghost mid = p@;
    while i < c.len()
        invariant
            i <= c@.len(),
            p@ == mid + c@.take(i as int),
        decreases c@.len() - i,
    {
        p.push(c[i]);
        assert(p@ =~= mid + c@.take(i + 1));
        i = i + 1;
    }
    assert(c@.take(c@.len() as int) =~= c@);
    assert(p@ =~= path_push(old(p)@, c@));
}

// ---------------------------------------------------------------------------
// Archive URIs
// ---------------------------------------------------------------------------

/// Index of the first occurrence of `pat` in `s` at or after `from`, or -1.
pub open spec fn find_sub(s: Seq<char>, pat: Seq<char>, from: int) -> int
    decreases s.len() + 1 - from,
{
    if from < 0 || from + pat.len() > s.len() {
        -1
    } else if s.subrange(from, from + pat.len()) == pat {
        from
    } else {
        find_sub(s, pat, from + 1)
    }
}

pub proof fn lemma_find_sub(s: Seq<char>, pat: Seq<char>, from: int)
    ensures
        find_sub(s, pat, from) == -1 || (from <= find_sub(s, pat, from) && find_sub(s, pat, from) + pat.len() <= s.len()),
        find_sub(s, pat, from) != -1 ==> s.subrange(find_sub(s, pat, from), find_sub(s, pat, from) + pat.len()) == pat,
    decreases s.len() + 1 - from,
{
    if from < 0 || from + pat.len() > s.len() {
    } else if s.subrange(from, from + pat.len()) == pat {
    } else {
        lemma_find_sub(s, pat, from + 1);
    }
}

/// The URI without its `jrt://` or `jar://` scheme.
pub open spec fn without_archive_scheme(uri: Seq<char>) -> Seq<char> {
    if has_prefix(uri, "jrt://"@) {
        uri.skip("jrt://"@.len() as int)
    } else if has_prefix(uri, "jar://"@) {
        uri.skip("jar://"@.len() as int)
    } else {
        uri
    }
}

/// The part of an archive URI inside the archive: what follows the first
/// `!/`, up to the next `!/` (the whole text when there is no `!/`).
pub open spec fn archive_internal(w: Seq<char>) -> Seq<char> {
    let k = find_sub(w, "!/"@, 0);
    if k < 0 {
        w
    } else {
        let rest = w.skip(k + "!/"@.len());
        let m = find_sub(rest, "!/"@, 0);
        if m < 0 {
            rest
        } else {
            rest.take(m)
        }
    }
}

/// Index of the first occurrence of `pat` in `s` at or after `from`.
fn find_sub_exec(s: &[char], pat: &[char], from: usize) -> (r: Option<usize>)
    requires
        from <= s@.len(),
        pat@.len() > 0,
    ensures
        match r {
            None => find_sub(s@, pat@, from as int) == -1,
            Some(k) => k == find_sub(s@, pat@, from as int),
        },
{
    let mut i = from;
    while i <= s.len() && s.len() - i >= pat.len()
        invariant
            from <= i,
            pat@.len() > 0,
            find_sub(s@, pat@, from as int) == find_sub(s@, pat@, i as int),
        decreases s@.len() - i,
    {
        if range_eq(s, i, pat, 0, pat.len()) {
            assert(pat@.subrange(0, pat@.len() as int) =~= pat@);
            return Some(i);
        }
        assert(pat@.subrange(0, pat@.len() as int) =~= pat@);
        i = i + 1;
    }
    None
}

fn archive_internal_chars(uri: &[char]) -> (r: Vec<char>)
    ensures
        r@ == archive_internal(without_archive_scheme(uri@)),
{
    let jrt = chars_of("jrt://");
    let jar = chars_of("jar://");
    let w = if starts_with(uri, &jrt) {
        sub_chars(uri, jrt.len(), uri.len())
    } else if starts_with(uri, &jar) {
        sub_chars(uri, jar.len(), uri.len())
    } else {
        sub_chars(uri, 0, uri.len())
    };
    assert(uri@.subrange(0, uri@.len() as int) =~= uri@);
    let bang = chars_of("!/");
    proof {
        reveal_strlit("!/");
    }
    match find_sub_exec(&w, &bang, 0) {
        None => w,
        Some(k) => {
            proof {
                lemma_find_sub(w@, bang@, 0);
            }
            let rest = sub_chars(&w, k + bang.len(), w.len());
            assert(rest@ =~= w@.skip(k + bang@.len()));
            match find_sub_exec(&rest, &bang, 0) {
                None => rest,
                Some(m) => {
                    proof {
                        lemma_find_sub(rest@, bang@, 0);
                    }
                    let r = sub_chars(&rest, 0, m);
                    assert(r@ =~= rest@.take(m as int));
                    r
                },
            }
        },
    }
}

// ---------------------------------------------------------------------------
// Cache paths
// ---------------------------------------------------------------------------

/// The hash a `DefaultHasher` made by `new` gives for a string: hashing a
/// `str` writes its UTF-8 bytes and then the byte `0xff`.
pub open spec fn std_hash_of_str(s: Seq<char>) -> u64 {
    DefaultHasher::spec_finish(seq![encode_utf8(s), seq![0xffu8]])
}

/// `Hash for str` on a fresh `DefaultHasher`, then `finish`.
fn hash_str(s: &str) -> (h: u64)
    ensures
        h == std_hash_of_str(s@),
{
    let mut hasher = DefaultHasher::new();
    let bytes = s.as_bytes();
    assert(bytes@ == encode_utf8(s@));
    hasher.write(bytes);
    let end: Vec<u8> = vec![0xffu8];
    assert(end@ =~= seq![0xffu8]);
    hasher.write(end.as_slice());
    assert(hasher@ =~= seq![encode_utf8(s@), seq![0xffu8]]);
    hasher.finish()
}

/// Lower-case hexadecimal digit of `v` (below 16).
pub open spec fn hex_digit_lower(v: nat) -> char {
    if v < 10 {
        (48 + v) as char
    } else {
        (87 + v) as char
    }
}

/// The `n` lowest hexadecimal digits of `v`, lower case, most significant first.
pub open spec fn hex_fixed(v: nat, n: nat) -> Seq<char>
    decreases n,
{
    if n == 0 {
        Seq::empty()
    } else {
        hex_fixed(v / 16, (n - 1) as nat).push(hex_digit_lower(v % 16))
    }
}

fn push_hex_fixed(out: &mut Vec<char>, v: u32, n: usize)
    ensures
        final(out)@ == old(out)@ + hex_fixed(v as nat, n as nat),
    decreases n,
{
    if n > 0 {
        push_hex_fixed(out, v / 16, n - 1);
        let d = v % 16;
        let c = if d < 10 { (48 + d as u8) as char } else { (87 + d as u8) as char };
        out.push(c);
        assert(out@ =~= old(out)@ + hex_fixed(v as nat, n as nat));
    }
}

/// Whether [`cache_path`] accepts `uri`: the part inside the archive can be percent-decoded.
pub open spec fn cache_path_defined(uri: Seq<char>) -> bool {
    percent_decodable(archive_internal(without_archive_scheme(uri)))
}

/// The decoded, non-empty `/`-separated pieces of the part inside the archive.
pub open spec fn archive_segments(uri: Seq<char>) -> Seq<Seq<char>> {
    nonempty_segments(percent_decoded_text(archive_internal(without_archive_scheme(uri))), '/')
}

/// File name of a cached document: the last piece without `.class`
/// (`decompiled` when there is no piece), sanitized, then `-`, eight
/// hexadecimal digits of the URI's hash, and the extension of the language.
pub open spec fn cache_file_name(uri: Seq<char>, language: Seq<char>) -> Seq<char> {
    let segs = archive_segments(uri);
    let file = if segs.len() > 0 { segs.last() } else { "decompiled"@ };
    let stem = if has_suffix(file, ".class"@) { file.take(file.len() - ".class"@.len()) } else { file };
    let ext = if language == "kotlin"@ { "kt"@ } else { "java"@ };
    sanitized(stem) + "-"@ + hex_fixed((std_hash_of_str(uri) as u32) as nat, 8) + "."@ + ext
}

/// `root` with the sanitized directory pieces `dirs` pushed in order.
pub open spec fn push_dirs(root: Seq<char>, dirs: Seq<Seq<char>>) -> Seq<char>
    decreases dirs.len(),
{
    if dirs.len() == 0 {
        root
    } else {
        path_push(push_dirs(root, dirs.drop_last()), sanitized(dirs.last()))
    }
}

/// Deterministic cache path of a decompiled document:
/// `<root>/<internal-dirs>/<name>-<hash8>.<ext>`.
pub open spec fn spec_cache_path(root: Seq<char>, uri: Seq<char>, language: Seq<char>) -> Seq<char> {
    let segs = archive_segments(uri);
    let dirs = if segs.len() > 0 { segs.drop_last() } else { Seq::empty() };
    path_push(push_dirs(root, dirs), cache_file_name(uri, language))
}

/// The extension of a cached document of `language`: `kt` for Kotlin,
/// `java` for anything else.
pub open spec fn cache_extension(language: Seq<char>) -> Seq<char> {
    if language == "kotlin"@ { "kt"@ } else { "java"@ }
}

/// The cache path without its extension: it depends on the root and the URI alone.
pub open spec fn cache_path_base(root: Seq<char>, uri: Seq<char>) -> Seq<char> {
    let segs = archive_segments(uri);
    let dirs = if segs.len() > 0 { segs.drop_last() } else { Seq::empty() };
    let file = if segs.len() > 0 { segs.last() } else { "decompiled"@ };
    let stem = if has_suffix(file, ".class"@) { file.take(file.len() - ".class"@.len()) } else { file };
    path_push(push_dirs(root, dirs), sanitized(stem) + "-"@ + hex_fixed((std_hash_of_str(uri) as u32) as nat, 8))
}

/// The language only picks the extension: every cache path of a URI is the
/// same base followed by `.` and the language's extension (so two languages
/// give paths that differ in the extension alone), and equal arguments give
/// equal paths.
pub proof fn lemma_cache_path_language(root: Seq<char>, uri: Seq<char>, language: Seq<char>)
    ensures
        spec_cache_path(root, uri, language) == cache_path_base(root, uri) + "."@ + cache_extension(language),
{
    let segs = archive_segments(uri);
    let dirs = if segs.len() > 0 { segs.drop_last() } else { Seq::empty() };
    let p = push_dirs(root, dirs);
    let file = if segs.len() > 0 { segs.last() } else { "decompiled"@ };
    let stem = if has_suffix(file, ".class"@) { file.take(file.len() - ".class"@.len()) } else { file };
    let c = sanitized(stem) + "-"@ + hex_fixed((std_hash_of_str(uri) as u32) as nat, 8);
    let x = "."@ + cache_extension(language);
    assert(cache_file_name(uri, language) =~= c + x);
    assert(path_push(p, c + x) =~= path_push(p, c) + x);
}

/// Whether [`cache_path`] accepts `uri`.
pub fn cache_path_is_defined(uri: &str) -> (r: bool)
    ensures
        r == cache_path_defined(uri@),
{
    let chars = chars_of(uri);
    let internal = string_from_chars(archive_internal_chars(&chars).as_slice());
    percent_decode_is_defined(internal.as_str())
}

/// The cache paths where a decompiled document of `uri` may already be, in
/// the order they are looked for: the Java one, then the Kotlin one.
pub fn cache_candidates(root: &str, uri: &str) -> (r: Vec<String>)
    requires
        cache_path_defined(uri@),
    ensures
        r@.len() == 2,
        r@[0]@ == spec_cache_path(root@, uri@, "java"@),
        r@[1]@ == spec_cache_path(root@, uri@, "kotlin"@),
{
    let mut r: Vec<String> = Vec::new();
    r.push(cache_path(root, uri, "java"));
    r.push(cache_path(root, uri, "kotlin"));
    r
}

/// Deterministic cache path for a decompiled document:
/// `<root>/<internal-dirs>/<name>-<hash8>.<ext>`, where the internal dirs
/// come from the part after `!/` (e.g. `modules/java.base/java/util`) and
/// `hash8` disambiguates identical paths from different archives.
pub fn cache_path(root: &str, uri: &str, language: &str) -> (r: String)
    requires
        cache_path_defined(uri@),
    ensures
        r@ == spec_cache_path(root@, uri@, language@),
{
    let chars = chars_of(uri);
    let internal = string_from_chars(archive_internal_chars(&chars).as_slice());
    let decoded = percent_decode(internal.as_str());
    let decoded_chars = chars_of(decoded.as_str());
    let segs = split_nonempty(&decoded_chars, '/');
    let ghost vs = views_of(segs@);
    let hash = hash_str(uri) as u32;

    let mut path = chars_of(root);
    let ndirs = if segs.len() > 0 { segs.len() - 1 } else { 0 };
    let ghost dirs = if vs.len() > 0 { vs.drop_last() } else { Seq::<Seq<char>>::empty() };
    let mut i: usize = 0;
    while i < ndirs
        invariant
            i <= ndirs,
            ndirs == dirs.len(),
            ndirs <= segs@.len(),
            vs == views_of(segs@),
            dirs == (if vs.len() > 0 { vs.drop_last() } else { Seq::<Seq<char>>::empty() }),
            path@ == push_dirs(root@, dirs.take(i as int)),
        decreases ndirs - i,
    {
        let dir = sanitize_chars(segs[i].as_slice());
        path_push_exec(&mut path, &dir);
        proof {
            assert(dirs.take(i + 1).drop_last() =~= dirs.take(i as int));
            assert(dirs[i as int] == segs@[i as int]@);
        }
        i = i + 1;
    }
    assert(dirs.take(ndirs as int) =~= dirs);

    let file: Vec<char> = if segs.len() > 0 {
        sub_chars(segs[segs.len() - 1].as_slice(), 0, segs[segs.len() - 1].len())
    } else {
        chars_of("decompiled")
    };
    proof {
        if vs.len() > 0 {
            assert(file@ =~= vs.last());
        }
    }
    let class = chars_of(".class");
    let stem = if ends_with(&file, &class) {
        sub_chars(&file, 0, file.len() - class.len())
    } else {
        sub_chars(&file, 0, file.len())
    };
    assert(file@.subrange(0, file@.len() as int) =~= file@);
    let mut name = sanitize_chars(&stem);
    name.push('-');
    push_hex_fixed(&mut name, hash, 8);
    name.push('.');
    let lang = chars_of(language);
    let kotlin = chars_of("kotlin");
    let ext = if chars_eq(&lang, &kotlin) { chars_of("kt") } else { chars_of("java") };
    let mut k: usize = 0;
    let ghost before_ext = name@;
    while k < ext.len()
        invariant
            k <= ext@.len(),
            name@ == before_ext + ext@.take(k as int),
        decreases ext@.len() - k,
    {
        name.push(ext[k]);
        assert(name@ =~= before_ext + ext@.take(k + 1));
        k = k + 1;
    }
    assert(ext@.take(ext@.len() as int) =~= ext@);
    proof {
        reveal_strlit("-");
        reveal_strlit(".");
    }
    assert(name@ =~= cache_file_name(uri@, language@));
    path_push_exec(&mut path, &name);
    string_from_chars(path.as_slice())
}

// ---------------------------------------------------------------------------
// Location rewriting
// ---------------------------------------------------------------------------

/// A `jar:` or `jrt:` URI.
pub open spec fn is_archive_uri(u: Seq<char>) -> bool {
    has_prefix(u, "jar:"@) || has_prefix(u, "jrt:"@)
}

/// The file URI that `m` gives for `u` (its first entry for `u`), if any.
pub open spec fn resolve(m: Seq<(Seq<char>, Seq<char>)>, u: Seq<char>) -> Option<Seq<char>>
    decreases m.len(),
{
    if m.len() == 0 {
        None
    } else if m[0].0 == u {
        Some(m[0].1)
    } else {
        resolve(m.drop_first(), u)
    }
}

/// The view of a list of (archive URI, file URI) pairs.
pub open spec fn pairs_view(v: Seq<(String, String)>) -> Seq<(Seq<char>, Seq<char>)> {
    v.map_values(|p: (String, String)| (p.0@, p.1@))
}

/// The member `key` holds an archive URI that `m` resolves.
pub open spec fn member_rewritable(fields: Seq<(Seq<char>, JsonV)>, key: Seq<char>, m: Seq<(Seq<char>, Seq<char>)>) -> bool {
    let i = field_index(fields, key);
    i >= 0 && match fields[i].1 {
        JsonV::Str(u) => is_archive_uri(u) && resolve(m, u) is Some,
        _ => false,
    }
}

/// The members with the member `key` pointed at its resolved file URI.
pub open spec fn rewrite_member(fields: Seq<(Seq<char>, JsonV)>, key: Seq<char>, m: Seq<(Seq<char>, Seq<char>)>) -> Seq<(Seq<char>, JsonV)> {
    if member_rewritable(fields, key, m) {
        let i = field_index(fields, key);
        fields.update(i, (key, JsonV::Str(resolve(m, jstr_of(fields[i].1)).unwrap())))
    } else {
        fields
    }
}

/// The text of a string value (empty for other values).
pub open spec fn jstr_of(v: JsonV) -> Seq<char> {
    match v {
        JsonV::Str(s) => s,
        _ => Seq::empty(),
    }
}

/// A payload with every `uri`/`targetUri` member that holds a resolved
/// archive URI replaced by its file URI, at any depth.
pub open spec fn rewrite_json(v: JsonV, m: Seq<(Seq<char>, Seq<char>)>) -> JsonV
    decreases v,
{
    match v {
        JsonV::Object(fields) => JsonV::Object(
            rewrite_member(rewrite_member(rewrite_values(fields, m), "uri"@, m), "targetUri"@, m),
        ),
        JsonV::Array(items) => JsonV::Array(rewrite_items(items, m)),
        _ => v,
    }
}

pub open spec fn rewrite_values(fields: Seq<(Seq<char>, JsonV)>, m: Seq<(Seq<char>, Seq<char>)>) -> Seq<(Seq<char>, JsonV)>
    decreases fields,
{
    if fields.len() == 0 {
        Seq::empty()
    } else {
        rewrite_values(fields.drop_last(), m).push((fields.last().0, rewrite_json(fields.last().1, m)))
    }
}

pub open spec fn rewrite_items(items: Seq<JsonV>, m: Seq<(Seq<char>, Seq<char>)>) -> Seq<JsonV>
    decreases items,
{
    if items.len() == 0 {
        Seq::empty()
    } else {
        rewrite_items(items.drop_last(), m).push(rewrite_json(items.last(), m))
    }
}

/// Whether rewriting `v` replaces anything.
pub open spec fn rewrite_changes(v: JsonV, m: Seq<(Seq<char>, Seq<char>)>) -> bool
    decreases v,
{
    match v {
        JsonV::Object(fields) => member_rewritable(fields, "uri"@, m) || member_rewritable(fields, "targetUri"@, m)
            || values_change(fields, m),
        JsonV::Array(items) => items_change(items, m),
        _ => false,
    }
}

pub open spec fn values_change(fields: Seq<(Seq<char>, JsonV)>, m: Seq<(Seq<char>, Seq<char>)>) -> bool
    decreases fields,
{
    if fields.len() == 0 {
        false
    } else {
        values_change(fields.drop_last(), m) || rewrite_changes(fields.last().1, m)
    }
}

pub open spec fn items_change(items: Seq<JsonV>, m: Seq<(Seq<char>, Seq<char>)>) -> bool
    decreases items,
{
    if items.len() == 0 {
        false
    } else {
        items_change(items.drop_last(), m) || rewrite_changes(items.last(), m)
    }
}

proof fn lemma_rewrite_values_keys(fields: Seq<(Seq<char>, JsonV)>, m: Seq<(Seq<char>, Seq<char>)>)
    ensures
        rewrite_values(fields, m).len() == fields.len(),
        forall|i: int| 0 <= i < fields.len() ==> #[trigger] rewrite_values(fields, m)[i].0 == fields[i].0,
        forall|i: int| 0 <= i < fields.len() ==> (#[trigger] fields[i].1 is Str) ==> rewrite_values(fields, m)[i].1 == fields[i].1,
        forall|i: int| 0 <= i < fields.len() ==> (#[trigger] rewrite_values(fields, m)[i].1 is Str) == (fields[i].1 is Str),
    decreases fields.len(),
{
    if fields.len() > 0 {
        lemma_rewrite_values_keys(fields.drop_last(), m);
        let last = fields.len() - 1;
        assert(rewrite_values(fields, m)[last] == (fields[last].0, rewrite_json(fields[last].1, m)));
        assert(fields[last].1 is Str ==> rewrite_json(fields[last].1, m) == fields[last].1);
        assert(rewrite_json(fields[last].1, m) is Str == fields[last].1 is Str);
        assert forall|i: int| 0 <= i < fields.len() implies (#[trigger] rewrite_values(fields, m)[i].1 is Str) == (fields[i].1 is Str) by {
            if i < fields.len() - 1 {
                assert(fields.drop_last()[i] == fields[i]);
            }
        }
        assert forall|i: int| 0 <= i < fields.len() implies #[trigger] rewrite_values(fields, m)[i].0 == fields[i].0 by {
            if i < fields.len() - 1 {
                assert(fields.drop_last()[i] == fields[i]);
            }
        }
        assert forall|i: int| 0 <= i < fields.len() && (#[trigger] fields[i].1 is Str) implies rewrite_values(fields, m)[i].1 == fields[i].1 by {
            if i < fields.len() - 1 {
                assert(fields.drop_last()[i] == fields[i]);
            }
        }
    }
}

/// Member lookup depends on the keys alone.
proof fn lemma_field_index_keys(a: Seq<(Seq<char>, JsonV)>, b: Seq<(Seq<char>, JsonV)>, key: Seq<char>, i: int)
    requires
        a.len() == b.len(),
        forall|k: int| 0 <= k < a.len() ==> #[trigger] a[k].0 == b[k].0,
    ensures
        field_index_from(a, key, i) == field_index_from(b, key, i),
    decreases a.len() - i,
{
    if 0 <= i < a.len() && a[i].0 != key {
        lemma_field_index_keys(a, b, key, i + 1);
    }
}

/// Rewriting nested values leaves the members' rewritability unchanged.
proof fn lemma_rewritable_after_values(fv: Seq<(Seq<char>, JsonV)>, key: Seq<char>, m: Seq<(Seq<char>, Seq<char>)>)
    ensures
        member_rewritable(rewrite_values(fv, m), key, m) == member_rewritable(fv, key, m),
{
    let rv = rewrite_values(fv, m);
    lemma_rewrite_values_keys(fv, m);
    lemma_field_index_keys(fv, rv, key, 0);
    lemma_field_index_from(fv, key, 0);
    let i = field_index(fv, key);
    if i >= 0 {
        assert(rv[i].1 is Str == fv[i].1 is Str);
        if fv[i].1 is Str {
            assert(rv[i].1 == fv[i].1);
        }
    }
}

/// Rewriting the member `k1` leaves the rewritability of another member `k2` unchanged.
proof fn lemma_rewritable_after_member(fv: Seq<(Seq<char>, JsonV)>, k1: Seq<char>, k2: Seq<char>, m: Seq<(Seq<char>, Seq<char>)>)
    requires
        k1 != k2,
    ensures
        member_rewritable(rewrite_member(fv, k1, m), k2, m) == member_rewritable(fv, k2, m),
{
    let gv = rewrite_member(fv, k1, m);
    lemma_field_index_from(fv, k1, 0);
    lemma_field_index_from(fv, k2, 0);
    if member_rewritable(fv, k1, m) {
        let i1 = field_index(fv, k1);
        assert forall|k: int| 0 <= k < fv.len() implies #[trigger] fv[k].0 == gv[k].0 by {}
        lemma_field_index_keys(fv, gv, k2, 0);
        let i2 = field_index(fv, k2);
        if i2 >= 0 {
            assert(i2 != i1);
            assert(gv[i2] == fv[i2]);
        }
    }
}

/// The entry of `resolved` for `u`.
fn resolve_exec(resolved: &Vec<(String, String)>, u: &str) -> (r: Option<String>)
    ensures
        match r {
            Some(f) => resolve(pairs_view(resolved@), u@) == Some(f@),
            None => resolve(pairs_view(resolved@), u@) is None,
        },
{
    let mut i: usize = 0;
    assert(pairs_view(resolved@).skip(0) =~= pairs_view(resolved@));
    while i < resolved.len()
        invariant
            i <= resolved@.len(),
            resolve(pairs_view(resolved@), u@) == resolve(pairs_view(resolved@).skip(i as int), u@),
        decreases resolved@.len() - i,
    {
        let ghost rest = pairs_view(resolved@).skip(i as int);
        assert(rest[0] == (resolved@[i as int].0@, resolved@[i as int].1@));
        if str_eq(resolved[i].0.as_str(), u) {
            return Some(resolved[i].1.clone());
        }
        assert(rest.drop_first() =~= pairs_view(resolved@).skip(i + 1));
        i = i + 1;
    }
    None
}

/// Rewrites the member `key` of `fields` (with view `fv`) when it holds a resolved archive URI.
fn rewrite_member_exec(fields: &mut Vec<(String, Json)>, key: &str, resolved: &Vec<(String, String)>) -> (changed: bool)
    ensures
        fields_view(final(fields)@) == rewrite_member(fields_view(old(fields)@), key@, pairs_view(resolved@)),
        changed == member_rewritable(fields_view(old(fields)@), key@, pairs_view(resolved@)),
{
    let ghost fv = fields_view(fields@);
    proof {
        lemma_fields_view(fields@);
        lemma_field_index_from(fv, key@, 0);
    }
    let mut i: usize = 0;
    while i < fields.len()
        invariant
            i <= fields@.len(),
            fields@ == old(fields)@,
            fv == fields_view(fields@),
            fv.len() == fields@.len(),
            forall|k: int| 0 <= k < fields@.len() ==> #[trigger] fv[k] == (fields@[k].0@, json_view(fields@[k].1)),
            field_index(fv, key@) == field_index_from(fv, key@, i as int),
        decreases fields@.len() - i,
    {
        if str_eq(fields[i].0.as_str(), key) {
            assert(field_index(fv, key@) == i);
            let target: Option<String> = match &fields[i].1 {
                Json::Str(u) => {
                    let uc = chars_of(u.as_str());
                    let jar = chars_of("jar:");
                    let jrt = chars_of("jrt:");
                    if starts_with(&uc, &jar) || starts_with(&uc, &jrt) {
                        resolve_exec(resolved, u.as_str())
                    } else {
                        None
                    }
                },
                _ => None,
            };
            match target {
                Some(f) => {
                    let k = fields[i].0.clone();
                    let new_value = Json::Str(f);
                    fields.set(i, (k, new_value));
                    proof {
                        lemma_fields_view(fields@);
                        assert(fields_view(fields@) =~= rewrite_member(fv, key@, pairs_view(resolved@)));
                    }
                    return true;
                },
                None => {
                    return false;
                },
            }
        }
        i = i + 1;
    }
    false
}

/// `value` with its locations rewritten, and whether anything was.
#[verifier::loop_isolation(false)]
fn rewritten(value: &Json, resolved: &Vec<(String, String)>) -> (r: (Json, bool))
    ensures
        r.0@ == rewrite_json(value@, pairs_view(resolved@)),
        r.1 == rewrite_changes(value@, pairs_view(resolved@)),
    decreases value,
{
    let ghost m = pairs_view(resolved@);
    match value {
        Json::Array(items) => {
            proof {
                lemma_items_view(items@);
            }
            let ghost iv = items_view(items@);
            let mut out: Vec<Json> = Vec::new();
            let mut changed = false;
            let mut i: usize = 0;
            while i < items.len()
                invariant
                    i <= items@.len(),
                    *value == Json::Array(*items),
                    iv == items_view(items@),
                    iv.len() == items@.len(),
                    forall|k: int| 0 <= k < items@.len() ==> #[trigger] iv[k] == json_view(items@[k]),
                    items_view(out@) == rewrite_items(iv.take(i as int), m),
                    changed == items_change(iv.take(i as int), m),
                    m == pairs_view(resolved@),
                decreases items@.len() - i,
            {
                proof {
                    assert(decreases_to!(*value => *items));
                    assert(decreases_to!(*items => items@));
                    assert(decreases_to!(items@ => items@[i as int]));
                }
                let (c, ch) = rewritten(&items[i], resolved);
                proof {
                    lemma_items_view_push(out@, c);
                    assert(iv.take(i + 1).drop_last() =~= iv.take(i as int));
                    assert(iv.take(i + 1).last() == json_view(items@[i as int]));
                }
                out.push(c);
                changed = changed || ch;
                i = i + 1;
            }
            assert(iv.take(items@.len() as int) =~= iv);
            (Json::Array(out), changed)
        },
        Json::Object(fields) => {
            proof {
                lemma_fields_view(fields@);
            }
            let ghost fv = fields_view(fields@);
            let mut out: Vec<(String, Json)> = Vec::new();
            let mut changed = false;
            let mut i: usize = 0;
            while i < fields.len()
                invariant
                    i <= fields@.len(),
                    *value == Json::Object(*fields),
                    fv == fields_view(fields@),
                    fv.len() == fields@.len(),
                    forall|k: int| 0 <= k < fields@.len() ==> #[trigger] fv[k] == (fields@[k].0@, json_view(fields@[k].1)),
                    fields_view(out@) == rewrite_values(fv.take(i as int), m),
                    changed == values_change(fv.take(i as int), m),
                    m == pairs_view(resolved@),
                decreases fields@.len() - i,
            {
                proof {
                    assert(decreases_to!(*value => *fields));
                    assert(decreases_to!(*fields => fields@));
                    assert(decreases_to!(fields@ => fields@[i as int]));
                    assert(decreases_to!(fields@[i as int] => fields@[i as int].1));
                }
                let (c, ch) = rewritten(&fields[i].1, resolved);
                let k = fields[i].0.clone();
                proof {
                    lemma_fields_view_push(out@, (k, c));
                    assert(fv.take(i + 1).drop_last() =~= fv.take(i as int));
                    assert(fv.take(i + 1).last() == (fields@[i as int].0@, json_view(fields@[i as int].1)));
                }
                out.push((k, c));
                changed = changed || ch;
                i = i + 1;
            }
            assert(fv.take(fields@.len() as int) =~= fv);
            let ghost rv = fields_view(out@);
            proof {
                lemma_rewrite_values_keys(fv, m);
                lemma_field_index_from(fv, "uri"@, 0);
                lemma_field_index_from(rv, "uri"@, 0);
                lemma_field_index_from(fv, "targetUri"@, 0);
            }
            let c1 = rewrite_member_exec(&mut out, "uri", resolved);
            let c2 = rewrite_member_exec(&mut out, "targetUri", resolved);
            proof {
                lemma_rewritable_after_values(fv, "uri"@, m);
                lemma_rewritable_after_values(fv, "targetUri"@, m);
                reveal_strlit("uri");
                reveal_strlit("targetUri");
                assert("uri"@ != "targetUri"@) by {
                    assert("uri"@.len() != "targetUri"@.len());
                }
                lemma_rewritable_after_member(rewrite_values(fv, m), "uri"@, "targetUri"@, m);
            }
            (Json::Object(out), c1 || c2 || changed)
        },
        Json::Null => (Json::Null, false),
        Json::Bool(b) => (Json::Bool(*b), false),
        Json::UInt(n) => (Json::UInt(*n), false),
        Json::NegInt(n) => (Json::NegInt(*n), false),
        Json::Float(s) => (Json::Float(s.clone()), false),
        Json::Str(s) => (Json::Str(s.clone()), false),
    }
}

/// Rewrites every `jar:`/`jrt:` location (`uri` or `targetUri` members, at
/// any depth) for which `resolved` gives a file URI. Returns whether
/// anything was rewritten.
pub fn rewrite_locations(value: &mut Json, resolved: &Vec<(String, String)>) -> (changed: bool)
    ensures
        final(value)@ == rewrite_json(old(value)@, pairs_view(resolved@)),
        changed == rewrite_changes(old(value)@, pairs_view(resolved@)),
{
    let (v, changed) = rewritten(value, resolved);
    *value = v;
    changed
}

/// Every archive URI held by a `uri`/`targetUri` member, at any depth: an
/// object's own `uri` and `targetUri` first, then those inside its members'
/// values, in order.
pub open spec fn location_uris(v: JsonV) -> Seq<Seq<char>>
    decreases v,
{
    match v {
        JsonV::Object(fields) => member_uri(fields, "uri"@) + member_uri(fields, "targetUri"@) + values_uris(fields),
        JsonV::Array(items) => items_uris(items),
        _ => Seq::empty(),
    }
}

/// The archive URI held by the member `key`, if any.
pub open spec fn member_uri(fields: Seq<(Seq<char>, JsonV)>, key: Seq<char>) -> Seq<Seq<char>> {
    let i = field_index(fields, key);
    if i >= 0 && fields[i].1 is Str && is_archive_uri(jstr_of(fields[i].1)) {
        seq![jstr_of(fields[i].1)]
    } else {
        Seq::empty()
    }
}

pub open spec fn values_uris(fields: Seq<(Seq<char>, JsonV)>) -> Seq<Seq<char>>
    decreases fields,
{
    if fields.len() == 0 {
        Seq::empty()
    } else {
        values_uris(fields.drop_last()) + location_uris(fields.last().1)
    }
}

pub open spec fn items_uris(items: Seq<JsonV>) -> Seq<Seq<char>>
    decreases items,
{
    if items.len() == 0 {
        Seq::empty()
    } else {
        items_uris(items.drop_last()) + location_uris(items.last())
    }
}

/// The views of a list of strings.
pub open spec fn strings_view(v: Seq<String>) -> Seq<Seq<char>> {
    v.map_values(|s: String| s@)
}

/// Appends the views of `src` to `dst`.
pub(crate) fn append_strings(dst: &mut Vec<String>, src: Vec<String>)
    ensures
        strings_view(final(dst)@) == strings_view(old(dst)@) + strings_view(src@),
{
    let mut src = src;
    let ghost s0 = src@;
    let mut tail: Vec<String> = Vec::new();
    // move the strings over in order
    let mut i: usize = 0;
    let n = src.len();
    let ghost d0 = dst@;
    while i < n
        invariant
            i <= n,
            n == s0.len(),
            strings_view(dst@) == strings_view(d0) + strings_view(s0.take(i as int)),
            src@ == s0,
        decreases n - i,
    {
        let s = src[i].clone();
        let ghost prev = dst@;
        dst.push(s);
        assert(s@ == s0[i as int]@);
        assert(strings_view(prev.push(s)) =~= strings_view(prev).push(s@));
        assert(s0.take(i + 1) =~= s0.take(i as int).push(s0[i as int]));
        assert(strings_view(s0.take(i as int).push(s0[i as int])) =~= strings_view(s0.take(i as int)).push(s0[i as int]@));
        assert(strings_view(dst@) =~= strings_view(d0) + strings_view(s0.take(i + 1)));
        i = i + 1;
    }
    assert(s0.take(n as int) =~= s0);
}

/// The archive URI held by member `key` of `fields`.
fn member_uri_exec(fields: &Vec<(String, Json)>, key: &str) -> (r: Vec<String>)
    ensures
        strings_view(r@) == member_uri(fields_view(fields@), key@),
{
    let ghost fv = fields_view(fields@);
    proof {
        lemma_fields_view(fields@);
        lemma_field_index_from(fv, key@, 0);
    }
    let mut i: usize = 0;
    while i < fields.len()
        invariant
            i <= fields@.len(),
            fv == fields_view(fields@),
            fv.len() == fields@.len(),
            forall|k: int| 0 <= k < fields@.len() ==> #[trigger] fv[k] == (fields@[k].0@, json_view(fields@[k].1)),
            field_index(fv, key@) == field_index_from(fv, key@, i as int),
        decreases fields@.len() - i,
    {
        if str_eq(fields[i].0.as_str(), key) {
            let mut out: Vec<String> = Vec::new();
            match &fields[i].1 {
                Json::Str(u) => {
                    let uc = chars_of(u.as_str());
                    let jar = chars_of("jar:");
                    let jrt = chars_of("jrt:");
                    if starts_with(&uc, &jar) || starts_with(&uc, &jrt) {
                        out.push(u.clone());
                    }
                },
                _ => {},
            }
            assert(strings_view(out@) =~= member_uri(fv, key@));
            return out;
        }
        i = i + 1;
    }
    let out: Vec<String> = Vec::new();
    assert(strings_view(out@) =~= member_uri(fv, key@));
    out
}

/// The archive URIs that [`rewrite_locations`] would look up in `value`,
/// in order (with repetitions).
#[verifier::loop_isolation(false)]
pub fn location_targets(value: &Json) -> (r: Vec<String>)
    ensures
        strings_view(r@) == location_uris(value@),
    decreases value,
{
    match value {
        Json::Array(items) => {
            proof {
                lemma_items_view(items@);
            }
            let ghost iv = items_view(items@);
            let mut out: Vec<String> = Vec::new();
            let mut i: usize = 0;
            while i < items.len()
                invariant
                    i <= items@.len(),
                    strings_view(out@) == items_uris(iv.take(i as int)),
                decreases items@.len() - i,
            {
                proof {
                    assert(decreases_to!(*value => *items));
                    assert(decreases_to!(*items => items@));
                    assert(decreases_to!(items@ => items@[i as int]));
                }
                let sub = location_targets(&items[i]);
                append_strings(&mut out, sub);
                proof {
                    assert(iv.take(i + 1).drop_last() =~= iv.take(i as int));
                    assert(iv.take(i + 1).last() == json_view(items@[i as int]));
                }
                i = i + 1;
            }
            assert(iv.take(items@.len() as int) =~= iv);
            out
        },
        Json::Object(fields) => {
            proof {
                lemma_fields_view(fields@);
            }
            let ghost fv = fields_view(fields@);
            let mut out = member_uri_exec(fields, "uri");
            let b = member_uri_exec(fields, "targetUri");
            append_strings(&mut out, b);
            let ghost own = strings_view(out@);
            assert(values_uris(fv.take(0)) =~= Seq::<Seq<char>>::empty());
            assert(own + values_uris(fv.take(0)) =~= own);
            let mut i: usize = 0;
            while i < fields.len()
                invariant
                    i <= fields@.len(),
                    strings_view(out@) == own + values_uris(fv.take(i as int)),
                decreases fields@.len() - i,
            {
                proof {
                    assert(decreases_to!(*value => *fields));
                    assert(decreases_to!(*fields => fields@));
                    assert(decreases_to!(fields@ => fields@[i as int]));
                    assert(decreases_to!(fields@[i as int] => fields@[i as int].1));
                }
                let sub = location_targets(&fields[i].1);
                append_strings(&mut out, sub);
                proof {
                    assert(fv.take(i + 1).drop_last() =~= fv.take(i as int));
                    assert(fv.take(i + 1).last() == (fields@[i as int].0@, json_view(fields@[i as int].1)));
                }
                i = i + 1;
            }
            assert(fv.take(fields@.len() as int) =~= fv);
            out
        },
        _ => {
            let out: Vec<String> = Vec::new();
            assert(strings_view(out@) =~= Seq::<Seq<char>>::empty());
            out
        },
    }
}

// ---------------------------------------------------------------------------
// Command links in hover markdown
// ---------------------------------------------------------------------------

/// The link target that the client cannot follow.
pub open spec fn navigate_prefix() -> Seq<char> {
    "command:jetbrains.navigateToLocation?"@
}

/// Characters that can make up the URI-encoded argument array.
pub open spec fn is_token_char(c: char) -> bool {
    ('0' <= c && c <= '9') || ('A' <= c && c <= 'Z') || ('a' <= c && c <= 'z') || c == '%' || c == '-'
        || c == '.' || c == '_' || c == '~'
}

/// Index of the first character from `i` on that is not a token character (`s.len()` if none).
pub open spec fn token_end_from(s: Seq<char>, i: int) -> int
    decreases s.len() - i,
{
    if i < 0 || i >= s.len() {
        s.len() as int
    } else if !is_token_char(s[i]) {
        i
    } else {
        token_end_from(s, i + 1)
    }
}

pub proof fn lemma_token_end(s: Seq<char>, i: int)
    requires
        0 <= i <= s.len(),
    ensures
        i <= token_end_from(s, i) <= s.len(),
        forall|k: int| i <= k < token_end_from(s, i) ==> is_token_char(#[trigger] s[k]),
    decreases s.len() - i,
{
    if i < s.len() && is_token_char(s[i]) {
        lemma_token_end(s, i + 1);
    }
}

/// The first two elements of the JSON array written in `text`: the first as
/// a string, the second as an unsigned integer (`None` when the text is not
/// a JSON array).
pub uninterp spec fn navigate_args_of(text: Seq<char>) -> Option<(Option<Seq<char>>, Option<u64>)>;

/// `serde_json::from_str::<Vec<serde_json::Value>>` on the text, then the
/// first element read as a string and the second as an unsigned integer.
/// The contract claims that the result is the named `navigate_args_of` of
/// the text; the JSON grammar is left unsaid.
#[verifier::external_body]
fn parse_navigate_args(text: &str) -> (r: Option<(Option<String>, Option<u64>)>)
    ensures
        match r {
            None => navigate_args_of(text@) is None,
            Some((None, line)) => navigate_args_of(text@) == Some((None::<Seq<char>>, line)),
            Some((Some(u), line)) => navigate_args_of(text@) == Some((Some(u@), line)),
        },
{
    serde_json::from_str::<Vec<serde_json::Value>>(text).ok().map(
        |args| (args.first().and_then(|v| v.as_str()).map(|s| s.to_string()), args.get(1).and_then(|v| v.as_u64())),
    )
}

/// The archive URI that the link with argument text `encoded` points to.
pub open spec fn link_uri(encoded: Seq<char>) -> Option<Seq<char>> {
    match navigate_args_of(percent_decoded_text(encoded)) {
        Some((Some(u), _)) => if is_archive_uri(u) { Some(u) } else { None },
        _ => None,
    }
}

/// The one-based line of the link (the zero-based line plus one, wrapping).
pub open spec fn link_line(encoded: Seq<char>) -> u64 {
    let zero_based = match navigate_args_of(percent_decoded_text(encoded)) {
        Some((_, Some(l))) => l,
        _ => 0u64,
    };
    if zero_based == u64::MAX { 0u64 } else { (zero_based + 1) as u64 }
}

/// Decimal digits of `n` as characters.
pub open spec fn decimal_chars(n: nat) -> Seq<char> {
    decimal(n).map_values(|b: u8| b as char)
}

/// What replaces the link: the resolved file URI with a `#L<line>` anchor.
pub open spec fn link_replacement(encoded: Seq<char>, m: Seq<(Seq<char>, Seq<char>)>) -> Option<Seq<char>> {
    match link_uri(encoded) {
        Some(u) => match resolve(m, u) {
            Some(f) => Some(f + "#L"@ + decimal_chars(link_line(encoded) as nat)),
            None => None,
        },
        None => None,
    }
}

/// Markdown with each navigation command link that resolves replaced by
/// a file link; other links are left as they are.
pub open spec fn rewrite_links(md: Seq<char>, m: Seq<(Seq<char>, Seq<char>)>) -> Seq<char>
    decreases md.len(),
{
    let p = navigate_prefix();
    let pos = find_sub(md, p, 0);
    if pos < 0 {
        md
    } else {
        let after = md.skip(pos + p.len());
        let end = token_end_from(after, 0);
        let enc = after.take(end);
        proof {
            reveal_strlit("command:jetbrains.navigateToLocation?");
            lemma_find_sub(md, p, 0);
            lemma_token_end(after, 0);
        }
        md.take(pos) + (match link_replacement(enc, m) {
            Some(l) => l,
            None => p + enc,
        }) + rewrite_links(after.skip(end), m)
    }
}

/// The archive URIs of the navigation command links in `md`, in order.
pub open spec fn link_targets(md: Seq<char>) -> Seq<Seq<char>>
    decreases md.len(),
{
    let p = navigate_prefix();
    let pos = find_sub(md, p, 0);
    if pos < 0 {
        Seq::empty()
    } else {
        let after = md.skip(pos + p.len());
        let end = token_end_from(after, 0);
        let enc = after.take(end);
        proof {
            reveal_strlit("command:jetbrains.navigateToLocation?");
            lemma_find_sub(md, p, 0);
            lemma_token_end(after, 0);
        }
        (match link_uri(enc) {
            Some(u) => seq![u],
            None => Seq::empty(),
        }) + link_targets(after.skip(end))
    }
}

/// ASCII text can always be percent-decoded.
proof fn lemma_ascii_decodable(s: Seq<char>)
    requires
        is_ascii_chars(s),
    ensures
        percent_decodable(s),
{
    vstd::utf8::is_ascii_chars_encode_utf8(s);
    let b = encode_utf8(s);
    assert forall|i: int| 0 <= i < b.len() implies #[trigger] b[i] < 128 by {
        assert(s[i] as u8 == b[i]);
    }
    lemma_ascii_bytes_decodable(b, 0);
}

proof fn lemma_ascii_bytes_decodable(b: Seq<u8>, i: int)
    requires
        0 <= i,
        forall|k: int| 0 <= k < b.len() ==> #[trigger] b[k] < 128,
    ensures
        percent_decode_from(b, i) is Some,
    decreases b.len() - i,
{
    if i < b.len() {
        lemma_ascii_bytes_decodable(b, i + 1);
        if i + 3 <= b.len() {
            lemma_ascii_bytes_decodable(b, i + 3);
        }
        if i + 3 < b.len() {
            assert(b[i + 3] < 128);
        }
    }
}

fn token_end_exec(s: &[char]) -> (r: usize)
    ensures
        r == token_end_from(s@, 0),
{
    let mut i: usize = 0;
    while i < s.len()
        invariant
            i <= s@.len(),
            token_end_from(s@, 0) == token_end_from(s@, i as int),
        decreases s@.len() - i,
    {
        let c = s[i];
        if !(('0' <= c && c <= '9') || ('A' <= c && c <= 'Z') || ('a' <= c && c <= 'z') || c == '%' || c == '-'
            || c == '.' || c == '_' || c == '~') {
            return i;
        }
        i = i + 1;
    }
    i
}

/// The archive URI of a link with argument text `enc` (all token characters).
fn link_uri_exec(enc: &[char]) -> (r: Option<String>)
    requires
        forall|k: int| 0 <= k < enc@.len() ==> is_token_char(#[trigger] enc@[k]),
    ensures
        match r {
            Some(u) => link_uri(enc@) == Some(u@),
            None => link_uri(enc@) is None,
        },
{
    let text = string_from_chars(enc);
    proof {
        assert forall|k: int| 0 <= k < enc@.len() implies '\0' <= #[trigger] enc@[k] <= '\u{7f}' by {
            assert(is_token_char(enc@[k]));
        }
        lemma_ascii_decodable(enc@);
    }
    let decoded = percent_decode(text.as_str());
    match parse_navigate_args(decoded.as_str()) {
        Some((Some(u), _)) => {
            let uc = chars_of(u.as_str());
            let jar = chars_of("jar:");
            let jrt = chars_of("jrt:");
            if starts_with(&uc, &jar) || starts_with(&uc, &jrt) {
                Some(u)
            } else {
                None
            }
        },
        _ => None,
    }
}

/// The one-based line of a link with argument text `enc`.
fn link_line_exec(enc: &[char]) -> (r: u64)
    requires
        forall|k: int| 0 <= k < enc@.len() ==> is_token_char(#[trigger] enc@[k]),
    ensures
        r == link_line(enc@),
{
    let text = string_from_chars(enc);
    proof {
        assert forall|k: int| 0 <= k < enc@.len() implies '\0' <= #[trigger] enc@[k] <= '\u{7f}' by {
            assert(is_token_char(enc@[k]));
        }
        lemma_ascii_decodable(enc@);
    }
    let decoded = percent_decode(text.as_str());
    let zero_based = match parse_navigate_args(decoded.as_str()) {
        Some((_, Some(l))) => l,
        _ => 0u64,
    };
    if zero_based == u64::MAX { 0 } else { zero_based + 1 }
}

/// Appends the decimal digits of `n` as characters.
pub(crate) fn push_decimal_chars(out: &mut Vec<char>, n: u64)
    ensures
        final(out)@ == old(out)@ + decimal_chars(n as nat),
    decreases n,
{
    if n >= 10 {
        push_decimal_chars(out, n / 10);
    }
    let d = (n % 10) as u8;
    out.push((48u8 + d) as char);
    proof {
        assert(decimal(n as nat) == (if n < 10 { seq![(48 + n) as u8] } else { decimal((n / 10) as nat).push((48 + n % 10) as u8) }));
        assert(out@ =~= old(out)@ + decimal_chars(n as nat));
    }
}

fn push_chars(out: &mut Vec<char>, s: &[char])
    ensures
        final(out)@ == old(out)@ + s@,
{
    let mut i: usize = 0;
    while i < s.len()
        invariant
            i <= s@.len(),
            out@ == old(out)@ + s@.take(i as int),
        decreases s@.len() - i,
    {
        out.push(s[i]);
        assert(out@ =~= old(out)@ + s@.take(i + 1));
        i = i + 1;
    }
    assert(s@.take(s@.len() as int) =~= s@);
}

/// Rewrites `command:jetbrains.navigateToLocation?<args>` links in hover
/// markdown: the command is client-registered elsewhere and dead here, so a
/// link whose archive URI `resolved` maps to a file points at that file
/// instead (`<file-uri>#L<line>`).
pub fn rewrite_command_links(markdown: &str, resolved: &Vec<(String, String)>) -> (r: String)
    ensures
        r@ == rewrite_links(markdown@, pairs_view(resolved@)),
{
    let ghost m = pairs_view(resolved@);
    let p = chars_of("command:jetbrains.navigateToLocation?");
    proof {
        reveal_strlit("command:jetbrains.navigateToLocation?");
    }
    let mut out: Vec<char> = Vec::new();
    let mut rest = chars_of(markdown);
    loop
        invariant
            p@ == navigate_prefix(),
            p@.len() > 0,
            m == pairs_view(resolved@),
            rewrite_links(markdown@, m) == out@ + rewrite_links(rest@, m),
        decreases rest@.len(),
    {
        match find_sub_exec(&rest, &p, 0) {
            None => {
                push_chars(&mut out, &rest);
                assert(out@ =~= rewrite_links(markdown@, m));
                return string_from_chars(out.as_slice());
            },
            Some(pos) => {
                proof {
                    lemma_find_sub(rest@, p@, 0);
                    assert(pos + p@.len() <= rest@.len());
                }
                let ghost before = out@;
                let head = sub_chars(&rest, 0, pos);
                push_chars(&mut out, &head);
                let rest_len = rest.len();
                let after = sub_chars(&rest, pos + p.len(), rest_len);
                let end = token_end_exec(&after);
                proof {
                    lemma_token_end(after@, 0);
                }
                let enc = sub_chars(&after, 0, end);
                let replaced = match link_uri_exec(&enc) {
                    Some(u) => match resolve_exec(resolved, u.as_str()) {
                        Some(f) => {
                            let mut link = chars_of(f.as_str());
                            link.push('#');
                            link.push('L');
                            let line = link_line_exec(&enc);
                            push_decimal_chars(&mut link, line);
                            proof {
                                reveal_strlit("#L");
                                assert(link@ =~= f@ + "#L"@ + decimal_chars(line as nat));
                            }
                            push_chars(&mut out, &link);
                            true
                        },
                        None => false,
                    },
                    None => false,
                };
                if !replaced {
                    push_chars(&mut out, &p);
                    push_chars(&mut out, &enc);
                }
                let ghost old_rest = rest@;
                rest = sub_chars(&after, end, after.len());
                assert(after@ =~= old_rest.skip(pos + p@.len()));
                assert(head@ =~= old_rest.take(pos as int));
                assert(rest@ =~= after@.skip(end as int));
                assert(out@ + rewrite_links(rest@, m) =~= before + rewrite_links(old_rest, m));
            },
        }
    }
}

/// The archive URIs of the navigation command links in `markdown`, in
/// order: the ones [`rewrite_command_links`] looks up.
pub fn command_link_targets(markdown: &str) -> (r: Vec<String>)
    ensures
        strings_view(r@) == link_targets(markdown@),
{
    let p = chars_of("command:jetbrains.navigateToLocation?");
    proof {
        reveal_strlit("command:jetbrains.navigateToLocation?");
    }
    let mut out: Vec<String> = Vec::new();
    let mut rest = chars_of(markdown);
    loop
        invariant
            p@ == navigate_prefix(),
            p@.len() > 0,
            link_targets(markdown@) == strings_view(out@) + link_targets(rest@),
        decreases rest@.len(),
    {
        match find_sub_exec(&rest, &p, 0) {
            None => {
                assert(strings_view(out@) =~= link_targets(markdown@));
                return out;
            },
            Some(pos) => {
                proof {
                    lemma_find_sub(rest@, p@, 0);
                    assert(pos + p@.len() <= rest@.len());
                }
                let ghost before = strings_view(out@);
                let rest_len = rest.len();
                let after = sub_chars(&rest, pos + p.len(), rest_len);
                let end = token_end_exec(&after);
                proof {
                    lemma_token_end(after@, 0);
                }
                let enc = sub_chars(&after, 0, end);
                match link_uri_exec(&enc) {
                    Some(u) => {
                        let ghost uv = u@;
                        out.push(u);
                        assert(strings_view(out@) =~= before.push(uv));
                    },
                    None => {},
                }
                let ghost old_rest = rest@;
                rest = sub_chars(&after, end, after.len());
                assert(after@ =~= old_rest.skip(pos + p@.len()));
                assert(rest@ =~= after@.skip(end as int));
                assert(strings_view(out@) + link_targets(rest@) =~= before + link_targets(old_rest));
            },
        }
    }
}

// ---------------------------------------------------------------------------
// Hover contents
// ---------------------------------------------------------------------------

/// A string value with its navigation links rewritten; other values as they are.
pub open spec fn hover_text(v: JsonV, m: Seq<(Seq<char>, Seq<char>)>) -> JsonV {
    match v {
        JsonV::Str(s) => JsonV::Str(rewrite_links(s, m)),
        _ => v,
    }
}

/// Rewriting the links of the string value changes its text.
pub open spec fn hover_text_changes(v: JsonV, m: Seq<(Seq<char>, Seq<char>)>) -> bool {
    match v {
        JsonV::Str(s) => rewrite_links(s, m) != s,
        _ => false,
    }
}

/// A hover item (`MarkedString` or `MarkupContent`): a string, or an object
/// whose `value` member is rewritten.
pub open spec fn hover_item(v: JsonV, m: Seq<(Seq<char>, Seq<char>)>) -> JsonV {
    match v {
        JsonV::Object(fields) => {
            let i = field_index(fields, "value"@);
            if i >= 0 {
                JsonV::Object(fields.update(i, (fields[i].0, hover_text(fields[i].1, m))))
            } else {
                v
            }
        },
        _ => hover_text(v, m),
    }
}

pub open spec fn hover_item_changes(v: JsonV, m: Seq<(Seq<char>, Seq<char>)>) -> bool {
    match v {
        JsonV::Object(fields) => {
            let i = field_index(fields, "value"@);
            i >= 0 && hover_text_changes(fields[i].1, m)
        },
        _ => hover_text_changes(v, m),
    }
}

pub open spec fn hover_items(items: Seq<JsonV>, m: Seq<(Seq<char>, Seq<char>)>) -> Seq<JsonV>
    decreases items.len(),
{
    if items.len() == 0 {
        Seq::empty()
    } else {
        hover_items(items.drop_last(), m).push(hover_item(items.last(), m))
    }
}

pub open spec fn hover_items_change(items: Seq<JsonV>, m: Seq<(Seq<char>, Seq<char>)>) -> bool
    decreases items.len(),
{
    if items.len() == 0 {
        false
    } else {
        hover_items_change(items.drop_last(), m) || hover_item_changes(items.last(), m)
    }
}

/// The `contents` of a hover: one item, or an array of items.
pub open spec fn hover_contents(c: JsonV, m: Seq<(Seq<char>, Seq<char>)>) -> JsonV {
    match c {
        JsonV::Array(items) => JsonV::Array(hover_items(items, m)),
        _ => hover_item(c, m),
    }
}

pub open spec fn hover_contents_changes(c: JsonV, m: Seq<(Seq<char>, Seq<char>)>) -> bool {
    match c {
        JsonV::Array(items) => hover_items_change(items, m),
        _ => hover_item_changes(c, m),
    }
}

/// A result with the markdown of its hover `contents` rewritten.
pub open spec fn rewrite_hover_json(result: JsonV, m: Seq<(Seq<char>, Seq<char>)>) -> JsonV {
    match result {
        JsonV::Object(fields) => {
            let i = field_index(fields, "contents"@);
            if i >= 0 {
                JsonV::Object(fields.update(i, (fields[i].0, hover_contents(fields[i].1, m))))
            } else {
                result
            }
        },
        _ => result,
    }
}

/// Rewriting the hover markdown of `result` changes some text.
pub open spec fn hover_changes(result: JsonV, m: Seq<(Seq<char>, Seq<char>)>) -> bool {
    match result {
        JsonV::Object(fields) => {
            let i = field_index(fields, "contents"@);
            i >= 0 && hover_contents_changes(fields[i].1, m)
        },
        _ => false,
    }
}

/// Archive URIs of the links in a string value.
pub open spec fn text_targets(v: JsonV) -> Seq<Seq<char>> {
    match v {
        JsonV::Str(s) => link_targets(s),
        _ => Seq::empty(),
    }
}

pub open spec fn item_targets(v: JsonV) -> Seq<Seq<char>> {
    match v {
        JsonV::Object(fields) => {
            let i = field_index(fields, "value"@);
            if i >= 0 {
                text_targets(fields[i].1)
            } else {
                Seq::empty()
            }
        },
        _ => text_targets(v),
    }
}

pub open spec fn items_targets(items: Seq<JsonV>) -> Seq<Seq<char>>
    decreases items.len(),
{
    if items.len() == 0 {
        Seq::empty()
    } else {
        items_targets(items.drop_last()) + item_targets(items.last())
    }
}

/// The archive URIs of the navigation links in the hover markdown of `result`, in order.
pub open spec fn hover_targets(result: JsonV) -> Seq<Seq<char>> {
    match result {
        JsonV::Object(fields) => {
            let i = field_index(fields, "contents"@);
            if i >= 0 {
                match fields[i].1 {
                    JsonV::Array(items) => items_targets(items),
                    c => item_targets(c),
                }
            } else {
                Seq::empty()
            }
        },
        _ => Seq::empty(),
    }
}

fn hover_text_exec(v: &Json, resolved: &Vec<(String, String)>) -> (r: (Json, bool))
    ensures
        r.0@ == hover_text(v@, pairs_view(resolved@)),
        r.1 == hover_text_changes(v@, pairs_view(resolved@)),
{
    match v {
        Json::Str(s) => {
            let t = rewrite_command_links(s.as_str(), resolved);
            let same = str_eq(t.as_str(), s.as_str());
            (Json::Str(t), !same)
        },
        _ => (v.deep_clone(), false),
    }
}

fn text_targets_exec(v: &Json) -> (r: Vec<String>)
    ensures
        strings_view(r@) == text_targets(v@),
{
    match v {
        Json::Str(s) => command_link_targets(s.as_str()),
        _ => {
            let out: Vec<String> = Vec::new();
            assert(strings_view(out@) =~= Seq::<Seq<char>>::empty());
            out
        },
    }
}

fn hover_item_exec(v: &Json, resolved: &Vec<(String, String)>) -> (r: (Json, bool))
    ensures
        r.0@ == hover_item(v@, pairs_view(resolved@)),
        r.1 == hover_item_changes(v@, pairs_view(resolved@)),
{
    match v {
        Json::Object(fields) => {
            let mut out = clone_fields(fields);
            let ghost fv = fields_view(fields@);
            proof {
                lemma_fields_view(fields@);
            }
            match find_field(&out, "value") {
                Some(i) => {
                    let (nv, ch) = hover_text_exec(&out[i].1, resolved);
                    let k = out[i].0.clone();
                    proof {
                        lemma_fields_view(out@);
                    }
                    out.set(i, (k, nv));
                    proof {
                        lemma_fields_view(out@);
                        assert(fields_view(out@) =~= fv.update(i as int, (fv[i as int].0, hover_text(fv[i as int].1, pairs_view(resolved@)))));
                    }
                    (Json::Object(out), ch)
                },
                None => (Json::Object(out), false),
            }
        },
        _ => hover_text_exec(v, resolved),
    }
}

fn item_targets_exec(v: &Json) -> (r: Vec<String>)
    ensures
        strings_view(r@) == item_targets(v@),
{
    match v {
        Json::Object(fields) => {
            proof {
                lemma_fields_view(fields@);
            }
            match find_field(fields, "value") {
                Some(i) => text_targets_exec(&fields[i].1),
                None => {
                    let out: Vec<String> = Vec::new();
                    assert(strings_view(out@) =~= Seq::<Seq<char>>::empty());
                    out
                },
            }
        },
        _ => text_targets_exec(v),
    }
}

/// A copy of a list of members.
pub(crate) fn clone_fields(fields: &Vec<(String, Json)>) -> (r: Vec<(String, Json)>)
    ensures
        fields_view(r@) == fields_view(fields@),
{
    let mut out: Vec<(String, Json)> = Vec::new();
    let mut i: usize = 0;
    while i < fields.len()
        invariant
            i <= fields@.len(),
            fields_view(out@) == fields_view(fields@.take(i as int)),
        decreases fields@.len() - i,
    {
        let c = fields[i].1.deep_clone();
        let k = fields[i].0.clone();
        proof {
            lemma_fields_view_push(out@, (k, c));
            lemma_fields_view_push(fields@.take(i as int), fields@[i as int]);
            assert(fields@.take(i + 1) =~= fields@.take(i as int).push(fields@[i as int]));
        }
        out.push((k, c));
        i = i + 1;
    }
    assert(fields@.take(fields@.len() as int) =~= fields@);
    out
}

fn hover_contents_exec(c: &Json, resolved: &Vec<(String, String)>) -> (r: (Json, bool))
    ensures
        r.0@ == hover_contents(c@, pairs_view(resolved@)),
        r.1 == hover_contents_changes(c@, pairs_view(resolved@)),
{
    let ghost m = pairs_view(resolved@);
    match c {
        Json::Array(items) => {
            proof {
                lemma_items_view(items@);
            }
            let ghost iv = items_view(items@);
            let mut out: Vec<Json> = Vec::new();
            let mut changed = false;
            let mut i: usize = 0;
            while i < items.len()
                invariant
                    i <= items@.len(),
                    iv == items_view(items@),
                    iv.len() == items@.len(),
                    forall|k: int| 0 <= k < items@.len() ==> #[trigger] iv[k] == json_view(items@[k]),
                    items_view(out@) == hover_items(iv.take(i as int), m),
                    changed == hover_items_change(iv.take(i as int), m),
                    m == pairs_view(resolved@),
                decreases items@.len() - i,
            {
                let (x, ch) = hover_item_exec(&items[i], resolved);
                proof {
                    lemma_items_view_push(out@, x);
                    assert(iv.take(i + 1).drop_last() =~= iv.take(i as int));
                    assert(iv.take(i + 1).last() == json_view(items@[i as int]));
                }
                out.push(x);
                changed = changed || ch;
                i = i + 1;
            }
            assert(iv.take(items@.len() as int) =~= iv);
            (Json::Array(out), changed)
        },
        _ => hover_item_exec(c, resolved),
    }
}

/// Rewrites the navigation command links in the hover markdown of `result`
/// (`contents` as a string, a `MarkupContent`, or an array of marked
/// strings). Returns whether any text changed.
pub fn rewrite_hover(result: &mut Json, resolved: &Vec<(String, String)>) -> (changed: bool)
    ensures
        final(result)@ == rewrite_hover_json(old(result)@, pairs_view(resolved@)),
        changed == hover_changes(old(result)@, pairs_view(resolved@)),
{
    let ghost m = pairs_view(resolved@);
    let ghost rv = result@;
    let copy = result.deep_clone();
    match copy {
        Json::Object(fields) => {
            let mut fields = fields;
            proof {
                lemma_fields_view(fields@);
            }
            let ghost fv = fields_view(fields@);
            match find_field(&fields, "contents") {
                Some(i) => {
                    let (nc, ch) = hover_contents_exec(&fields[i].1, resolved);
                    let k = fields[i].0.clone();
                    fields.set(i, (k, nc));
                    proof {
                        lemma_fields_view(fields@);
                        assert(fields_view(fields@) =~= fv.update(i as int, (fv[i as int].0, hover_contents(fv[i as int].1, m))));
                    }
                    *result = Json::Object(fields);
                    ch
                },
                None => false,
            }
        },
        _ => false,
    }
}

/// The archive URIs of the navigation links in the hover markdown of
/// `result`, in order: the ones [`rewrite_hover`] looks up.
pub fn hover_link_targets(result: &Json) -> (r: Vec<String>)
    ensures
        strings_view(r@) == hover_targets(result@),
{
    match result {
        Json::Object(fields) => {
            proof {
                lemma_fields_view(fields@);
            }
            match find_field(fields, "contents") {
                Some(i) => match &fields[i].1 {
                    Json::Array(items) => {
                        proof {
                            lemma_items_view(items@);
                        }
                        let ghost iv = items_view(items@);
                        let mut out: Vec<String> = Vec::new();
                        let mut k: usize = 0;
                        assert(strings_view(out@) =~= items_targets(iv.take(0)));
                        while k < items.len()
                            invariant
                                k <= items@.len(),
                                iv == items_view(items@),
                                iv.len() == items@.len(),
                                forall|j: int| 0 <= j < items@.len() ==> #[trigger] iv[j] == json_view(items@[j]),
                                strings_view(out@) == items_targets(iv.take(k as int)),
                            decreases items@.len() - k,
                        {
                            let sub = item_targets_exec(&items[k]);
                            append_strings(&mut out, sub);
                            proof {
                                assert(iv.take(k + 1).drop_last() =~= iv.take(k as int));
                                assert(iv.take(k + 1).last() == json_view(items@[k as int]));
                            }
                            k = k + 1;
                        }
                        assert(iv.take(items@.len() as int) =~= iv);
                        out
                    },
                    c => item_targets_exec(c),
                },
                None => {
                    let out: Vec<String> = Vec::new();
                    assert(strings_view(out@) =~= Seq::<Seq<char>>::empty());
                    out
                },
            }
        },
        _ => {
            let out: Vec<String> = Vec::new();
            assert(strings_view(out@) =~= Seq::<Seq<char>>::empty());
            out
        },
    }
}

// ---------------------------------------------------------------------------
// Nothing resolved, nothing rewritten
// ---------------------------------------------------------------------------

/// With no archive URI resolved, a payload is left exactly as it is.
pub proof fn lemma_rewrite_unresolved(v: JsonV)
    ensures
        rewrite_json(v, Seq::empty()) == v,
        !rewrite_changes(v, Seq::empty()),
    decreases v,
{
    match v {
        JsonV::Object(fields) => {
            lemma_values_unresolved(fields);
            assert(!member_rewritable(fields, "uri"@, Seq::empty()));
            assert(!member_rewritable(fields, "targetUri"@, Seq::empty()));
        },
        JsonV::Array(items) => {
            lemma_items_unresolved(items);
        },
        _ => {},
    }
}

proof fn lemma_values_unresolved(fields: Seq<(Seq<char>, JsonV)>)
    ensures
        rewrite_values(fields, Seq::empty()) == fields,
        !values_change(fields, Seq::empty()),
    decreases fields,
{
    if fields.len() > 0 {
        lemma_values_unresolved(fields.drop_last());
        assert(decreases_to!(fields => fields[fields.len() - 1]));
        lemma_rewrite_unresolved(fields.last().1);
        assert(fields.drop_last().push((fields.last().0, fields.last().1)) =~= fields);
    }
}

proof fn lemma_items_unresolved(items: Seq<JsonV>)
    ensures
        rewrite_items(items, Seq::empty()) == items,
        !items_change(items, Seq::empty()),
    decreases items,
{
    if items.len() > 0 {
        lemma_items_unresolved(items.drop_last());
        lemma_rewrite_unresolved(items.last());
        assert(items.drop_last().push(items.last()) =~= items);
    }
}

/// With no archive URI resolved, hover markdown is left exactly as it is.
pub proof fn lemma_links_unresolved(md: Seq<char>)
    ensures
        rewrite_links(md, Seq::empty()) == md,
    decreases md.len(),
{
    let p = navigate_prefix();
    let pos = find_sub(md, p, 0);
    reveal_strlit("command:jetbrains.navigateToLocation?");
    lemma_find_sub(md, p, 0);
    if pos >= 0 {
        let after = md.skip(pos + p.len());
        let end = token_end_from(after, 0);
        lemma_token_end(after, 0);
        let enc = after.take(end);
        assert(link_replacement(enc, Seq::empty()) is None);
        lemma_links_unresolved(after.skip(end));
        assert(md =~= md.take(pos) + p + enc + after.skip(end));
    }
}

/// With no archive URI resolved, the hover contents are left as they are.
pub proof fn lemma_hover_unresolved(result: JsonV)
    ensures
        rewrite_hover_json(result, Seq::empty()) == result,
        !hover_changes(result, Seq::empty()),
{
    let m = Seq::<(Seq<char>, Seq<char>)>::empty();
    match result {
        JsonV::Object(fields) => {
            let i = field_index(fields, "contents"@);
            if i >= 0 {
                lemma_field_index_from(fields, "contents"@, 0);
                let c = fields[i].1;
                lemma_hover_item_unresolved(c);
                match c {
                    JsonV::Array(items) => {
                        lemma_hover_items_unresolved(items);
                    },
                    _ => {},
                }
                assert(hover_contents(c, m) == c);
                assert(fields.update(i, (fields[i].0, hover_contents(fields[i].1, m))) =~= fields);
            }
        },
        _ => {},
    }
}

proof fn lemma_hover_text_unresolved(v: JsonV)
    ensures
        hover_text(v, Seq::empty()) == v,
        !hover_text_changes(v, Seq::empty()),
{
    match v {
        JsonV::Str(s) => lemma_links_unresolved(s),
        _ => {},
    }
}

proof fn lemma_hover_item_unresolved(v: JsonV)
    ensures
        hover_item(v, Seq::empty()) == v,
        !hover_item_changes(v, Seq::empty()),
{
    match v {
        JsonV::Object(fields) => {
            let i = field_index(fields, "value"@);
            if i >= 0 {
                lemma_field_index_from(fields, "value"@, 0);
                lemma_hover_text_unresolved(fields[i].1);
                assert(fields.update(i, (fields[i].0, hover_text(fields[i].1, Seq::empty()))) =~= fields);
            }
        },
        _ => lemma_hover_text_unresolved(v),
    }
}

proof fn lemma_hover_items_unresolved(items: Seq<JsonV>)
    ensures
        hover_items(items, Seq::empty()) == items,
        !hover_items_change(items, Seq::empty()),
    decreases items.len(),
{
    if items.len() > 0 {
        lemma_hover_items_unresolved(items.drop_last());
        lemma_hover_item_unresolved(items.last());
        assert(items.drop_last().push(items.last()) =~= items);
    }
}


/// A hover whose `contents` is a plain string has that string's links
/// rewritten, as an array item or a `MarkupContent` value would: the new
/// `contents` is the rewritten text, and the hover counts as changed exactly
/// when that text differs.
pub proof fn lemma_hover_plain_string(result: JsonV, text: Seq<char>, m: Seq<(Seq<char>, Seq<char>)>)
    requires
        result is Object,
        jget(result, "contents"@) == Some(JsonV::Str(text)),
    ensures
        rewrite_hover_json(result, m) is Object,
        jget(rewrite_hover_json(result, m), "contents"@) == Some(JsonV::Str(rewrite_links(text, m))),
        hover_changes(result, m) == (rewrite_links(text, m) != text),
{
    let fields = result->Object_0;
    crate::json::lemma_field_index_from(fields, "contents"@, 0);
    let i = field_index(fields, "contents"@);
    let nf = fields.update(i, (fields[i].0, hover_contents(fields[i].1, m)));
    assert forall|k: int| 0 <= k < i implies #[trigger] nf[k].0 != "contents"@ by {
        assert(nf[k] == fields[k]);
    }
    crate::json::lemma_field_index_prefix(nf, "contents"@, i);
}

} // verus!
