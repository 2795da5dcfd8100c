//! Character-level helpers shared by the string-processing modules.

use vstd::prelude::*;

verus! {

broadcast use vstd::string::group_string_axioms;

/// `pre` is a prefix of `s`.
pub open spec fn has_prefix(s: Seq<char>, pre: Seq<char>) -> bool {
    pre.len() <= s.len() && s.subrange(0, pre.len() as int) == pre
}

/// `suf` is a suffix of `s`.
pub open spec fn has_suffix(s: Seq<char>, suf: Seq<char>) -> bool {
    suf.len() <= s.len() && s.subrange(s.len() - suf.len(), s.len() as int) == suf
}

/// The characters of `s`, in order.
pub fn chars_of(s: &str) -> (v: Vec<char>)
    ensures
        v@ == s@,
{
    let mut v: Vec<char> = Vec::new();
    for c in it: s.chars()
        invariant
            v@ == it.seq().take(it.index() as int),
            it.seq() == s@,
    {
        v.push(c);
    }
    v
}

/// A `String` holding exactly the characters `v`.
pub fn string_from_chars(v: &[char]) -> (s: String)
    ensures
        s@ == v@,
{
    let mut s = String::new();
    let mut i: usize = 0;
    while i < v.len()
        invariant
            i <= v@.len(),
            s@ == v@.take(i as int),
        decreases v@.len() - i,
    {
        push_char(&mut s, v[i]);
        assert(v@.take(i + 1) =~= v@.take(i as int).push(v@[i as int]));
        i = i + 1;
    }
    assert(v@.take(v@.len() as int) =~= v@);
    s
}

/// `String::push`. The contract claims that `c` is appended to `s`.
#[verifier::external_body]
pub(crate) fn push_char(s: &mut String, c: char)
    ensures
        final(s)@ == old(s)@.push(c),
{
    s.push(c)
}

/// Whether the ranges `a[a_start..a_start+n]` and `b[b_start..b_start+n]` hold the same characters.
pub fn range_eq(a: &[char], a_start: usize, b: &[char], b_start: usize, n: usize) -> (r: bool)
    requires
        a_start + n <= a@.len(),
        b_start + n <= b@.len(),
    ensures
        r == (a@.subrange(a_start as int, a_start + n) == b@.subrange(b_start as int, b_start + n)),
{
    let mut i: usize = 0;
    let a_len = a.len();
    let b_len = b.len();
    while i < n
        invariant
            i <= n,
            a_len == a@.len(),
            b_len == b@.len(),
            a_start + n <= a@.len(),
            b_start + n <= b@.len(),
            forall|k: int| 0 <= k < i ==> #[trigger] a@[a_start + k] == b@[b_start + k],
        decreases n - i,
    {
        if a[a_start + i] != b[b_start + i] {
            assert(a@.subrange(a_start as int, a_start + n)[i as int] != b@.subrange(b_start as int, b_start + n)[i as int]);
            return false;
        }
        i = i + 1;
    }
    assert forall|k: int| 0 <= k < n implies #[trigger] a@.subrange(a_start as int, a_start + n)[k]
        == b@.subrange(b_start as int, b_start + n)[k] by {
        assert(a@[a_start + k] == b@[b_start + k]);
    }
    assert(a@.subrange(a_start as int, a_start + n) =~= b@.subrange(b_start as int, b_start + n));
    true
}

/// Whether `a` and `b` hold the same characters.
pub fn chars_eq(a: &[char], b: &[char]) -> (r: bool)
    ensures
        r == (a@ == b@),
{
    if a.len() != b.len() {
        return false;
    }
    let r = range_eq(a, 0, b, 0, a.len());
    assert(a@.subrange(0, a@.len() as int) =~= a@);
    assert(b@.subrange(0, b@.len() as int) =~= b@);
    r
}

/// Whether `s` starts with `pre`.
pub fn starts_with(s: &[char], pre: &[char]) -> (r: bool)
    ensures
        r == has_prefix(s@, pre@),
{
    if pre.len() > s.len() {
        return false;
    }
    let r = range_eq(s, 0, pre, 0, pre.len());
    assert(pre@.subrange(0, pre@.len() as int) =~= pre@);
    r
}

/// Whether `s` ends with `suf`.
pub fn ends_with(s: &[char], suf: &[char]) -> (r: bool)
    ensures
        r == has_suffix(s@, suf@),
{
    if suf.len() > s.len() {
        return false;
    }
    let r = range_eq(s, s.len() - suf.len(), suf, 0, suf.len());
    assert(suf@.subrange(0, suf@.len() as int) =~= suf@);
    r
}

/// The characters `v[from..to]`.
pub fn sub_chars(v: &[char], from: usize, to: usize) -> (r: Vec<char>)
    requires
        from <= to <= v@.len(),
    ensures
        r@ == v@.subrange(from as int, to as int),
{
    let mut r: Vec<char> = Vec::new();
    let mut i = from;
    while i < to
        invariant
            from <= i <= to <= v@.len(),
            r@ == v@.subrange(from as int, i as int),
        decreases to - i,
    {
        r.push(v[i]);
        i = i + 1;
    }
    r
}

/// Splitting `s` at `sep`, read left to right: the completed non-empty
/// pieces and the piece being read.
pub open spec fn segment_state(s: Seq<char>, sep: char) -> (Seq<Seq<char>>, Seq<char>)
    decreases s.len(),
{
    if s.len() == 0 {
        (Seq::empty(), Seq::empty())
    } else {
        let (done, cur) = segment_state(s.drop_last(), sep);
        if s.last() == sep {
            (if cur.len() == 0 { done } else { done.push(cur) }, Seq::empty())
        } else {
            (done, cur.push(s.last()))
        }
    }
}

/// The non-empty pieces of `s` split at `sep`, in order.
pub open spec fn nonempty_segments(s: Seq<char>, sep: char) -> Seq<Seq<char>> {
    let (done, cur) = segment_state(s, sep);
    if cur.len() == 0 {
        done
    } else {
        done.push(cur)
    }
}

/// The character sequences held by a sequence of vectors.
pub open spec fn views_of(v: Seq<Vec<char>>) -> Seq<Seq<char>> {
    v.map_values(|x: Vec<char>| x@)
}

/// The non-empty pieces of `s` split at `sep`.
pub fn split_nonempty(s: &[char], sep: char) -> (r: Vec<Vec<char>>)
    ensures
        views_of(r@) == nonempty_segments(s@, sep),
{
    let mut done: Vec<Vec<char>> = Vec::new();
    let mut cur: Vec<char> = Vec::new();
    let mut i: usize = 0;
    while i < s.len()
        invariant
            i <= s@.len(),
            (views_of(done@), cur@) == segment_state(s@.take(i as int), sep),
        decreases s@.len() - i,
    {
        let c = s[i];
        assert(s@.take(i + 1).drop_last() =~= s@.take(i as int));
        assert(s@.take(i + 1).last() == c);
        if c == sep {
            if cur.len() > 0 {
                let ghost before = done@;
                let piece = cur;
                done.push(piece);
                assert(views_of(done@) =~= views_of(before).push(piece@));
                cur = Vec::new();
            }
        } else {
            cur.push(c);
        }
        i = i + 1;
    }
    assert(s@.take(s@.len() as int) =~= s@);
    if cur.len() > 0 {
        let ghost before = done@;
        let piece = cur;
        done.push(piece);
        assert(views_of(done@) =~= views_of(before).push(piece@));
    }
    done
}

} // verus!
