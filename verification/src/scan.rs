//! Character-level scanning helpers shared by the renderers and the
//! metadata accessors: whitespace trimming, character search, line
//! splitting and the avatar-name filter, each executable function proved
//! against a spec-level model of the same scan.

use vstd::prelude::*;
use vstd::string::*;

verus! {

/// A whitespace character, per Unicode's White_Space set.
pub open spec fn is_ws(c: char) -> bool {
    c == ' ' || c == '\t' || c == '\n' || c == '\r' || c == '\u{b}' || c == '\u{c}'
        || c == '\u{85}' || c == '\u{a0}' || c == '\u{1680}' || c == '\u{2000}'
        || c == '\u{2001}' || c == '\u{2002}' || c == '\u{2003}' || c == '\u{2004}'
        || c == '\u{2005}' || c == '\u{2006}' || c == '\u{2007}' || c == '\u{2008}'
        || c == '\u{2009}' || c == '\u{200a}' || c == '\u{2028}' || c == '\u{2029}'
        || c == '\u{202f}' || c == '\u{205f}' || c == '\u{3000}'
}

/// A character kept in an avatar file name: an ASCII letter, digit or
/// underscore.
pub open spec fn is_avatar_char(c: char) -> bool {
    (97 <= c as u32 && c as u32 <= 122) || (65 <= c as u32 && c as u32 <= 90)
        || (48 <= c as u32 && c as u32 <= 57) || c as u32 == 95
}

/// The first index at or after `i`, and at most `hi`, whose character is
/// not whitespace.
pub open spec fn ws_run_to(s: Seq<char>, i: int, hi: int) -> int
    decreases hi - i,
{
    if i < 0 || i >= hi || i >= s.len() || !is_ws(s[i]) {
        i
    } else {
        ws_run_to(s, i + 1, hi)
    }
}

/// The bound reached from `i` going down to `lo` while the character just
/// before it is whitespace.
pub open spec fn ws_back_to(s: Seq<char>, i: int, lo: int) -> int
    decreases i - lo,
{
    if i <= lo || i < 1 || i > s.len() || !is_ws(s[i - 1]) {
        i
    } else {
        ws_back_to(s, i - 1, lo)
    }
}

/// `s[lo..hi)` with surrounding whitespace removed.
pub open spec fn trim_sub(s: Seq<char>, lo: int, hi: int) -> Seq<char> {
    let a = ws_run_to(s, lo, hi);
    let b = ws_back_to(s, hi, a);
    s.subrange(a, b)
}

/// The whole of `s`, trimmed on both sides.
pub open spec fn trim_of(s: Seq<char>) -> Seq<char> {
    trim_sub(s, 0, s.len() as int)
}

/// The index of the first occurrence of `c` at or after `i`, or `s.len()`
/// if there is none.
pub open spec fn find_from(s: Seq<char>, c: char, i: int) -> int
    decreases s.len() - i,
{
    if i < 0 || i >= s.len() {
        s.len() as int
    } else if s[i] == c {
        i
    } else {
        find_from(s, c, i + 1)
    }
}

/// The index of the first character at or after `i` that is not `#`.
pub open spec fn hash_run(s: Seq<char>, i: int) -> int
    decreases s.len() - i,
{
    if i < 0 || i >= s.len() || s[i] != '#' {
        i
    } else {
        hash_run(s, i + 1)
    }
}

pub proof fn lemma_find_from_bounds(s: Seq<char>, c: char, i: int)
    requires
        0 <= i <= s.len(),
    ensures
        i <= find_from(s, c, i) <= s.len(),
        find_from(s, c, i) < s.len() ==> s[find_from(s, c, i)] == c,
        forall|j: int| i <= j < find_from(s, c, i) ==> s[j] != c,
    decreases s.len() - i,
{
    if i < s.len() && s[i] != c {
        lemma_find_from_bounds(s, c, i + 1);
    }
}

pub proof fn lemma_ws_run_to_bounds(s: Seq<char>, i: int, hi: int)
    requires
        0 <= i <= hi <= s.len(),
    ensures
        i <= ws_run_to(s, i, hi) <= hi,
    decreases hi - i,
{
    if i < hi && is_ws(s[i]) {
        lemma_ws_run_to_bounds(s, i + 1, hi);
    }
}

pub proof fn lemma_ws_back_to_bounds(s: Seq<char>, i: int, lo: int)
    requires
        0 <= lo <= i <= s.len(),
    ensures
        lo <= ws_back_to(s, i, lo) <= i,
    decreases i - lo,
{
    if i > lo && i >= 1 && is_ws(s[i - 1]) {
        lemma_ws_back_to_bounds(s, i - 1, lo);
    }
}

/// `x` with one trailing carriage return removed, as the line splitter
/// does to a line that ends before a line feed.
pub open spec fn strip_cr(x: Seq<char>) -> Seq<char> {
    if x.len() > 0 && x[x.len() - 1] == '\r' {
        x.drop_last()
    } else {
        x
    }
}

#[via_fn]
proof fn lines_from_decreases(s: Seq<char>, i: int) {
    if 0 <= i < s.len() {
        lemma_find_from_bounds(s, '\n', i);
    }
}

/// The lines of `s[i..]`: split at each line feed, a carriage return just
/// before a line feed removed, a final line ending producing no extra
/// empty line.
pub open spec fn lines_from(s: Seq<char>, i: int) -> Seq<Seq<char>>
    decreases s.len() - i,
        via lines_from_decreases
{
    if i < 0 || i >= s.len() {
        Seq::empty()
    } else {
        let k = find_from(s, '\n', i);
        if k == s.len() {
            seq![s.subrange(i, s.len() as int)]
        } else {
            seq![strip_cr(s.subrange(i, k))] + lines_from(s, k + 1)
        }
    }
}

/// The lines of the whole of `s`.
pub open spec fn lines_of(s: Seq<char>) -> Seq<Seq<char>> {
    lines_from(s, 0)
}

/// Only the ASCII letters, digits and underscores of `s`, in order.
pub open spec fn ascii_only(s: Seq<char>) -> Seq<char>
    decreases s.len(),
{
    if s.len() == 0 {
        Seq::empty()
    } else if is_avatar_char(s[s.len() - 1]) {
        ascii_only(s.drop_last()) + seq![s[s.len() - 1]]
    } else {
        ascii_only(s.drop_last())
    }
}

/// Whether `c` is whitespace.
pub fn is_ws_c(c: char) -> (r: bool)
    ensures
        r == is_ws(c),
{
    c == ' ' || c == '\t' || c == '\n' || c == '\r' || c == '\u{b}' || c == '\u{c}'
        || c == '\u{85}' || c == '\u{a0}' || c == '\u{1680}' || c == '\u{2000}'
        || c == '\u{2001}' || c == '\u{2002}' || c == '\u{2003}' || c == '\u{2004}'
        || c == '\u{2005}' || c == '\u{2006}' || c == '\u{2007}' || c == '\u{2008}'
        || c == '\u{2009}' || c == '\u{200a}' || c == '\u{2028}' || c == '\u{2029}'
        || c == '\u{202f}' || c == '\u{205f}' || c == '\u{3000}'
}

/// Whether `c` is kept in an avatar file name.
pub fn is_avatar_c(c: char) -> (r: bool)
    ensures
        r == is_avatar_char(c),
{
    let u = c as u32;
    (97 <= u && u <= 122) || (65 <= u && u <= 90) || (48 <= u && u <= 57) || u == 95
}

/// Finds the first occurrence of `c` at or after `from`.
pub fn find_char(v: &Vec<char>, c: char, from: usize) -> (r: usize)
    requires
        from <= v@.len(),
    ensures
        r as int == find_from(v@, c, from as int),
        from <= r <= v@.len(),
        r < v@.len() ==> v@[r as int] == c,
{
    let mut i = from;
    while i < v.len()
        invariant
            from <= i <= v@.len(),
            find_from(v@, c, from as int) == find_from(v@, c, i as int),
        decreases v@.len() - i,
    {
        if v[i] == c {
            return i;
        }
        i = i + 1;
    }
    i
}

/// Skips whitespace forward from `from`, stopping at `to`.
pub fn ws_to(v: &Vec<char>, from: usize, to: usize) -> (r: usize)
    requires
        from <= to <= v@.len(),
    ensures
        r as int == ws_run_to(v@, from as int, to as int),
        from <= r <= to,
{
    let mut i = from;
    while i < to && is_ws_c(v[i])
        invariant
            from <= i <= to <= v@.len(),
            ws_run_to(v@, from as int, to as int) == ws_run_to(v@, i as int, to as int),
        decreases to - i,
    {
        i = i + 1;
    }
    i
}

/// Skips whitespace backward from `hi`, stopping at `lo`.
pub fn ws_back(v: &Vec<char>, hi: usize, lo: usize) -> (r: usize)
    requires
        lo <= hi <= v@.len(),
    ensures
        r as int == ws_back_to(v@, hi as int, lo as int),
        lo <= r <= hi,
{
    let mut i = hi;
    while i > lo && is_ws_c(v[i - 1])
        invariant
            lo <= i <= hi <= v@.len(),
            ws_back_to(v@, hi as int, lo as int) == ws_back_to(v@, i as int, lo as int),
        decreases i - lo,
    {
        i = i - 1;
    }
    i
}

/// Counts the run of `#` characters at or after `from`.
pub fn hash_to(v: &Vec<char>, from: usize) -> (r: usize)
    requires
        from <= v@.len(),
    ensures
        r as int == hash_run(v@, from as int),
        from <= r <= v@.len(),
{
    let mut i = from;
    while i < v.len() && v[i] == '#'
        invariant
            from <= i <= v@.len(),
            hash_run(v@, from as int) == hash_run(v@, i as int),
        decreases v@.len() - i,
    {
        i = i + 1;
    }
    i
}

/// Copies `v[lo..hi)` into a fresh vector.
pub fn copy_range(v: &Vec<char>, lo: usize, hi: usize) -> (r: Vec<char>)
    requires
        lo <= hi <= v@.len(),
    ensures
        r@ == v@.subrange(lo as int, hi as int),
{
    let mut r: Vec<char> = Vec::new();
    let mut j = lo;
    while j < hi
        invariant
            lo <= j <= hi <= v@.len(),
            r@ == v@.subrange(lo as int, j as int),
        decreases hi - j,
    {
        r.push(v[j]);
        proof {
            assert(r@ =~= v@.subrange(lo as int, j + 1 as int));
        }
        j = j + 1;
    }
    r
}

/// Appends `v[lo..hi)` to `out`.
pub fn push_range(out: &mut Vec<char>, v: &Vec<char>, lo: usize, hi: usize)
    requires
        lo <= hi <= v@.len(),
    ensures
        final(out)@ == old(out)@ + v@.subrange(lo as int, hi as int),
{
    let mut j = lo;
    while j < hi
        invariant
            lo <= j <= hi <= v@.len(),
            out@ == old(out)@ + v@.subrange(lo as int, j as int),
        decreases hi - j,
    {
        out.push(v[j]);
        proof {
            assert(out@ =~= old(out)@ + v@.subrange(lo as int, j + 1 as int));
        }
        j = j + 1;
    }
}

/// Copies `v[lo..hi)`, trimmed on both sides.
pub fn trim_range(v: &Vec<char>, lo: usize, hi: usize) -> (r: Vec<char>)
    requires
        lo <= hi <= v@.len(),
    ensures
        r@ == trim_sub(v@, lo as int, hi as int),
{
    let a = ws_to(v, lo, hi);
    let b = ws_back(v, hi, a);
    copy_range(v, a, b)
}

/// Copies the whole of `v`, trimmed on both sides.
pub fn trim_line(v: &Vec<char>) -> (r: Vec<char>)
    ensures
        r@ == trim_of(v@),
{
    trim_range(v, 0, v.len())
}

/// Appends the ASCII letters, digits and underscores of `v` to `out`.
pub fn push_ascii_of(out: &mut Vec<char>, v: &Vec<char>)
    ensures
        final(out)@ == old(out)@ + ascii_only(v@),
{
    let mut j: usize = 0;
    while j < v.len()
        invariant
            j <= v@.len(),
            out@ == old(out)@ + ascii_only(v@.subrange(0, j as int)),
        decreases v@.len() - j,
    {
        proof {
            assert(v@.subrange(0, j + 1 as int).drop_last() =~= v@.subrange(0, j as int));
            assert(v@.subrange(0, j + 1 as int)[j as int] == v@[j as int]);
        }
        if is_avatar_c(v[j]) {
            out.push(v[j]);
        }
        proof {
            assert(out@ =~= old(out)@ + ascii_only(v@.subrange(0, j + 1 as int)));
        }
        j = j + 1;
    }
    proof {
        assert(v@.subrange(0, v@.len() as int) =~= v@);
    }
}

/// The characters of `s`, in order, as a vector.
pub fn str_chars(s: &str) -> (r: Vec<char>)
    ensures
        r@ == s@,
{
    let n = s.unicode_len();
    let mut r: Vec<char> = Vec::new();
    let mut i: usize = 0;
    while i < n
        invariant
            n == s@.len(),
            i <= n,
            r@ == s@.subrange(0, i as int),
        decreases n - i,
    {
        let c = s.get_char(i);
        r.push(c);
        proof {
            assert(r@ =~= s@.subrange(0, i + 1 as int));
        }
        i = i + 1;
    }
    proof {
        assert(s@.subrange(0, n as int) =~= s@);
    }
    r
}

/// Appends the characters of `s` to `out`.
pub fn push_str(out: &mut Vec<char>, s: &str)
    ensures
        final(out)@ == old(out)@ + s@,
{
    let n = s.unicode_len();
    let mut i: usize = 0;
    while i < n
        invariant
            n == s@.len(),
            i <= n,
            out@ == old(out)@ + s@.subrange(0, i as int),
        decreases n - i,
    {
        let c = s.get_char(i);
        out.push(c);
        proof {
            assert(out@ =~= old(out)@ + s@.subrange(0, i + 1 as int));
        }
        i = i + 1;
    }
    proof {
        assert(s@.subrange(0, n as int) =~= s@);
    }
}

/// Relies on `String` collecting an iterator of `char`s: the resulting
/// string holds exactly those characters in order.
#[verifier::external_body]
pub fn chars_to_string(v: &Vec<char>) -> (r: String)
    ensures
        r@ == v@,
{
    v.iter().collect()
}

} // verus!
