//! Build-descriptor detection (basename match, case-sensitive, any depth).

use vstd::prelude::*;
use crate::text::{chars_of, chars_eq, ends_with, has_suffix, sub_chars};

verus! {

/// Path separators recognized when taking a basename.
pub open spec fn is_path_sep(c: char) -> bool {
    c == '/' || c == '\\'
}

/// Index just past the last separator of `s` (0 when there is none).
pub open spec fn basename_start(s: Seq<char>) -> int
    decreases s.len(),
{
    if s.len() == 0 {
        0
    } else if is_path_sep(s.last()) {
        s.len() as int
    } else {
        basename_start(s.drop_last())
    }
}

/// The last path component of `s` (what follows its last separator).
pub open spec fn basename(s: Seq<char>) -> Seq<char> {
    s.subrange(basename_start(s), s.len() as int)
}

/// File names that describe the project model.
pub open spec fn build_file_names() -> Seq<Seq<char>> {
    seq![
        "pom.xml"@,
        "build.gradle"@,
        "build.gradle.kts"@,
        "settings.gradle"@,
        "settings.gradle.kts"@,
        "BUILD"@,
        "BUILD.bazel"@,
        "MODULE.bazel"@,
        "WORKSPACE"@,
        "WORKSPACE.bazel"@,
        ".bazelproject"@,
        "gradle.properties"@,
        "gradle-wrapper.properties"@,
    ]
}

/// A path names a build descriptor when its basename is one of
/// [`build_file_names`] or ends with `.bzl`.
pub open spec fn spec_is_build_file_path(path: Seq<char>) -> bool {
    build_file_names().contains(basename(path)) || has_suffix(basename(path), ".bzl"@)
}

proof fn lemma_basename_start_bounds(s: Seq<char>)
    ensures
        0 <= basename_start(s) <= s.len(),
        forall|k: int| basename_start(s) <= k < s.len() ==> !is_path_sep(#[trigger] s[k]),
        basename_start(s) > 0 ==> is_path_sep(s[basename_start(s) - 1]),
    decreases s.len(),
{
    if s.len() > 0 && !is_path_sep(s.last()) {
        lemma_basename_start_bounds(s.drop_last());
        assert forall|k: int| basename_start(s) <= k < s.len() implies !is_path_sep(#[trigger] s[k]) by {
            if k < s.len() - 1 {
                assert(s[k] == s.drop_last()[k]);
            }
        }
    }
}

fn build_file_name_list() -> (v: Vec<&'static str>)
    ensures
        v@.len() == build_file_names().len(),
        forall|i: int| 0 <= i < v@.len() ==> #[trigger] v@[i]@ == build_file_names()[i],
{
    vec![
        "pom.xml",
        "build.gradle",
        "build.gradle.kts",
        "settings.gradle",
        "settings.gradle.kts",
        "BUILD",
        "BUILD.bazel",
        "MODULE.bazel",
        "WORKSPACE",
        "WORKSPACE.bazel",
        ".bazelproject",
        "gradle.properties",
        "gradle-wrapper.properties",
    ]
}

/// Index just past the last separator of `s`.
fn find_basename_start(s: &[char]) -> (r: usize)
    ensures
        r == basename_start(s@),
{
    let mut i = s.len();
    assert(s@.subrange(0, i as int) =~= s@);
    while i > 0
        invariant
            i <= s@.len(),
            basename_start(s@) == basename_start(s@.subrange(0, i as int)),
        decreases i,
    {
        let c = s[i - 1];
        assert(s@.subrange(0, i as int).last() == c);
        if c == '/' || c == '\\' {
            return i;
        }
        assert(s@.subrange(0, i as int).drop_last() =~= s@.subrange(0, i - 1));
        i = i - 1;
    }
    i
}

/// Whether `path` names a build descriptor.
pub fn is_build_file_path(path: &str) -> (r: bool)
    ensures
        r == spec_is_build_file_path(path@),
{
    let chars = chars_of(path);
    proof {
        assert(chars@.subrange(0, chars@.len() as int) =~= chars@);
    }
    let start = find_basename_start(&chars);
    proof {
        lemma_basename_start_bounds(chars@);
    }
    let base = sub_chars(&chars, start, chars.len());
    let names = build_file_name_list();
    let mut i: usize = 0;
    while i < names.len()
        invariant
            i <= names@.len(),
            names@.len() == build_file_names().len(),
            forall|k: int| 0 <= k < names@.len() ==> #[trigger] names@[k]@ == build_file_names()[k],
            base@ == basename(path@),
            forall|k: int| 0 <= k < i ==> build_file_names()[k] != basename(path@),
        decreases names@.len() - i,
    {
        let name = chars_of(names[i]);
        if chars_eq(&base, &name) {
            assert(build_file_names()[i as int] == basename(path@));
            return true;
        }
        i = i + 1;
    }
    assert(!build_file_names().contains(basename(path@)));
    let suffix = chars_of(".bzl");
    ends_with(&base, &suffix)
}


/// Every build descriptor of the supported build tools (Maven, Gradle,
/// Bazel, Gradle's properties and wrapper) names a build file wherever it
/// stands: a path whose last component is one of these names is one.
pub proof fn lemma_build_descriptors(path: Seq<char>, name: Seq<char>)
    requires
        basename(path) == name,
        name == "pom.xml"@
            || name == "build.gradle"@
            || name == "build.gradle.kts"@
            || name == "settings.gradle"@
            || name == "settings.gradle.kts"@
            || name == "BUILD"@
            || name == "BUILD.bazel"@
            || name == "MODULE.bazel"@
            || name == "WORKSPACE"@
            || name == "WORKSPACE.bazel"@
            || name == ".bazelproject"@
            || name == "gradle.properties"@
            || name == "gradle-wrapper.properties"@,
    ensures
        spec_is_build_file_path(path),
{
    if name == "pom.xml"@ {
        assert(build_file_names()[0] == name);
    } else if name == "build.gradle"@ {
        assert(build_file_names()[1] == name);
    } else if name == "build.gradle.kts"@ {
        assert(build_file_names()[2] == name);
    } else if name == "settings.gradle"@ {
        assert(build_file_names()[3] == name);
    } else if name == "settings.gradle.kts"@ {
        assert(build_file_names()[4] == name);
    } else if name == "BUILD"@ {
        assert(build_file_names()[5] == name);
    } else if name == "BUILD.bazel"@ {
        assert(build_file_names()[6] == name);
    } else if name == "MODULE.bazel"@ {
        assert(build_file_names()[7] == name);
    } else if name == "WORKSPACE"@ {
        assert(build_file_names()[8] == name);
    } else if name == "WORKSPACE.bazel"@ {
        assert(build_file_names()[9] == name);
    } else if name == ".bazelproject"@ {
        assert(build_file_names()[10] == name);
    } else if name == "gradle.properties"@ {
        assert(build_file_names()[11] == name);
    } else if name == "gradle-wrapper.properties"@ {
        assert(build_file_names()[12] == name);
    }
}

} // verus!
