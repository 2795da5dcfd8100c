//! File-system paths as text: joining components, and the parent and final
//! component as the standard library's `Path` reads them.

use vstd::prelude::*;
use crate::text::chars_of;

verus! {

broadcast use vstd::string::group_string_axioms;

/// `base` joined with `c`: an absolute `c` replaces `base`; otherwise a `/`
/// is inserted unless `base` is empty or already ends with one.
pub open spec fn path_join(base: Seq<char>, c: Seq<char>) -> Seq<char> {
    if c.len() > 0 && c[0] == '/' {
        c
    } else if base.len() == 0 || base.last() == '/' {
        base + c
    } else {
        base + seq!['/'] + c
    }
}

/// Joins `c` onto `base` as `PathBuf::join` does on Unix paths.
pub fn join(base: &str, c: &str) -> (r: String)
    ensures
        r@ == path_join(base@, c@),
{
    let bc = chars_of(base);
    let cc = chars_of(c);
    if cc.len() > 0 && cc[0] == '/' {
        return String::from_str(c);
    }
    let mut out = String::from_str(base);
    if bc.len() > 0 && bc[bc.len() - 1] != '/' {
        out.append("/");
        proof {
            reveal_strlit("/");
        }
    }
    out.append(c);
    proof {
        assert(bc@.len() > 0 ==> bc@.last() == bc@[bc@.len() - 1]);
    }
    out
}

/// What `Path::parent` gives for a path: the path without its final
/// component, or `None` for the empty path and a lone root.
pub uninterp spec fn parent_of(p: Seq<char>) -> Option<Seq<char>>;

/// What `Path::file_name` gives for a path: its final component when that
/// is a normal name (not `..`, not a root).
pub uninterp spec fn file_name_of(p: Seq<char>) -> Option<Seq<char>>;

/// `std::path::Path::parent` on a text path. The contract claims that the
/// result is the named `parent_of` of the text, a function of the text
/// alone; how `Path` splits components is left unsaid.
#[verifier::external_body]
pub(crate) fn parent(p: &str) -> (r: Option<String>)
    ensures
        match r {
            Some(q) => parent_of(p@) == Some(q@),
            None => parent_of(p@) is None,
        },
{
    std::path::Path::new(p).parent().map(|q| q.to_string_lossy().into_owned())
}

/// `std::path::Path::file_name` on a text path. The contract claims that
/// the result is the named `file_name_of` of the text, a function of the
/// text alone; how `Path` splits components is left unsaid.
#[verifier::external_body]
pub(crate) fn file_name(p: &str) -> (r: Option<String>)
    ensures
        match r {
            Some(q) => file_name_of(p@) == Some(q@),
            None => file_name_of(p@) is None,
        },
{
    std::path::Path::new(p).file_name().map(|q| q.to_string_lossy().into_owned())
}

/// The parent of the parent of `p`.
pub open spec fn grandparent_of(p: Seq<char>) -> Option<Seq<char>> {
    match parent_of(p) {
        Some(q) => parent_of(q),
        None => None,
    }
}

pub fn grandparent(p: &str) -> (r: Option<String>)
    ensures
        match r {
            Some(q) => grandparent_of(p@) == Some(q@),
            None => grandparent_of(p@) is None,
        },
{
    match parent(p) {
        Some(q) => parent(q.as_str()),
        None => None,
    }
}

} // verus!
