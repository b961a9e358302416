use vstd::prelude::*;
use vstd::std_specs::iter::IteratorSpec;

verus! {

/// The characters of `s` in order.
pub fn chars_of(s: &str) -> (r: Vec<char>)
    ensures
        r@ == s@,
{
    broadcast use vstd::string::group_string_axioms;

    let mut it = s.chars();
    let mut out: Vec<char> = Vec::new();
    loop
        invariant
            out@ + it.remaining() == s@,
            it.decrease() is Some,
        ensures
            out@ == s@,
        decreases it.decrease()->0,
    {
        match it.next() {
            Some(c) => {
                out.push(c);
                assert(out@ + it.remaining() =~= s@);
            },
            None => {
                assert(out@ =~= s@);
                break ;
            },
        }
    }
    out
}

/// Relies on `String: FromIterator<&char>`: the string made of the given characters in order.
#[verifier::external_body]
pub(crate) fn string_of(v: &[char]) -> (r: String)
    ensures
        r@ == v@,
{
    String::from_iter(v)
}

/// The texts of a sequence of strings.
pub open spec fn string_views(v: Seq<String>) -> Seq<Seq<char>> {
    v.map_values(|s: String| s@)
}

/// Unicode `White_Space`, the set that `char::is_whitespace` and `str::trim` use.
pub open spec fn is_white(c: char) -> bool {
    ('\u{9}' <= c && c <= '\u{d}') || c == ' ' || c == '\u{85}' || c == '\u{a0}' || c == '\u{1680}'
        || ('\u{2000}' <= c && c <= '\u{200a}') || c == '\u{2028}' || c == '\u{2029}' || c == '\u{202f}'
        || c == '\u{205f}' || c == '\u{3000}'
}

/// ASCII whitespace as `u8::is_ascii_whitespace` defines it.
pub open spec fn is_ascii_ws(c: char) -> bool {
    c == ' ' || c == '\t' || c == '\n' || c == '\u{c}' || c == '\r'
}

pub fn white(c: char) -> (r: bool)
    ensures
        r == is_white(c),
{
    ('\u{9}' <= c && c <= '\u{d}') || c == ' ' || c == '\u{85}' || c == '\u{a0}' || c == '\u{1680}'
        || ('\u{2000}' <= c && c <= '\u{200a}') || c == '\u{2028}' || c == '\u{2029}' || c == '\u{202f}'
        || c == '\u{205f}' || c == '\u{3000}'
}

pub fn ascii_ws(c: char) -> (r: bool)
    ensures
        r == is_ascii_ws(c),
{
    c == ' ' || c == '\t' || c == '\n' || c == '\u{c}' || c == '\r'
}

/// `c` equals the lower-case letter or symbol `t` up to ASCII case.
pub open spec fn ci_eq(c: char, t: char) -> bool {
    c == t || ('a' <= t && t <= 'z' && (c as u32) + 32 == (t as u32))
}

pub fn ci_eq_exec(c: char, t: char) -> (r: bool)
    ensures
        r == ci_eq(c, t),
{
    c == t || ('a' <= t && t <= 'z' && (c as u32) + 32 == (t as u32))
}

/// `pat` (lower case) occurs in `s` at `p`, ignoring ASCII case.
pub open spec fn ci_match_at(s: Seq<char>, p: int, pat: Seq<char>) -> bool {
    0 <= p && p + pat.len() <= s.len() && forall|k: int| 0 <= k < pat.len() ==> ci_eq(#[trigger] s[p + k], pat[k])
}

pub fn ci_match_at_exec(s: &Vec<char>, p: usize, pat: &Vec<char>) -> (r: bool)
    ensures
        r == ci_match_at(s@, p as int, pat@),
{
    if p > s.len() || pat.len() > s.len() - p {
        return false;
    }
    let n = s.len();
    let mut k: usize = 0;
    while k < pat.len()
        invariant
            n == s@.len(),
            p + pat@.len() <= s@.len(),
            k <= pat@.len(),
            forall|m: int| 0 <= m < k ==> ci_eq(#[trigger] s@[p + m], pat@[m]),
        decreases pat@.len() - k,
    {
        if !ci_eq_exec(s[p + k], pat[k]) {
            return false;
        }
        k += 1;
    }
    true
}

/// `pat` occurs in `s` ignoring ASCII case.
pub open spec fn ci_contains(s: Seq<char>, pat: Seq<char>) -> bool {
    exists|p: int| ci_match_at(s, p, pat)
}

pub fn ci_contains_exec(s: &Vec<char>, pat: &Vec<char>) -> (r: bool)
    ensures
        r == ci_contains(s@, pat@),
{
    let mut p: usize = 0;
    while p < s.len()
        invariant
            p <= s@.len(),
            forall|q: int| 0 <= q < p ==> !ci_match_at(s@, q, pat@),
        decreases s@.len() - p,
    {
        if ci_match_at_exec(s, p, pat) {
            return true;
        }
        p += 1;
    }
    if ci_match_at_exec(s, p, pat) {
        return true;
    }
    false
}

/// `c` occurs in `s`.
pub fn contains_char(s: &Vec<char>, c: char) -> (r: bool)
    ensures
        r == s@.contains(c),
{
    let mut i: usize = 0;
    while i < s.len()
        invariant
            i <= s@.len(),
            forall|k: int| 0 <= k < i ==> s@[k] != c,
        decreases s@.len() - i,
    {
        if s[i] == c {
            return true;
        }
        i += 1;
    }
    false
}

/// Removes leading and trailing `White_Space`, as `str::trim` does.
pub open spec fn trim(s: Seq<char>) -> Seq<char> {
    s.subrange(trim_start_from(s, 0), trim_end_from(s, s.len() as int, trim_start_from(s, 0)))
}

/// Index of the first non-white character at or after `k`, or the length.
pub open spec fn trim_start_from(s: Seq<char>, k: int) -> int
    decreases s.len() - k,
{
    if k < 0 || k >= s.len() || !is_white(s[k]) {
        k
    } else {
        trim_start_from(s, k + 1)
    }
}

/// Going down from `k` but not below `lo`, one past the last non-white character.
pub open spec fn trim_end_from(s: Seq<char>, k: int, lo: int) -> int
    decreases k - lo,
{
    if k <= lo || k > s.len() || !is_white(s[k - 1]) {
        k
    } else {
        trim_end_from(s, k - 1, lo)
    }
}

/// The characters `v[a..b)`.
pub fn slice_chars(v: &Vec<char>, a: usize, b: usize) -> (r: Vec<char>)
    requires
        a <= b <= v@.len(),
    ensures
        r@ == v@.subrange(a as int, b as int),
{
    let mut out: Vec<char> = Vec::new();
    let mut i: usize = a;
    while i < b
        invariant
            a <= i <= b <= v@.len(),
            out@ == v@.subrange(a as int, i as int),
        decreases b - i,
    {
        out.push(v[i]);
        assert(out@ =~= v@.subrange(a as int, i + 1));
        i += 1;
    }
    out
}

/// `v` without leading and trailing whitespace.
pub fn trim_chars(v: &Vec<char>) -> (r: Vec<char>)
    ensures
        r@ == trim(v@),
{
    let n = v.len();
    let mut a: usize = 0;
    while a < n && white(v[a])
        invariant
            n == v@.len(),
            a <= n,
            trim_start_from(v@, a as int) == trim_start_from(v@, 0),
        decreases n - a,
    {
        a += 1;
    }
    let mut b: usize = n;
    while b > a && white(v[b - 1])
        invariant
            n == v@.len(),
            a <= b <= n,
            a == trim_start_from(v@, 0),
            trim_end_from(v@, b as int, a as int) == trim_end_from(v@, n as int, a as int),
        decreases b - a,
    {
        b -= 1;
    }
    slice_chars(v, a, b)
}

/// `pre` is a prefix of `s`.
pub fn starts_with_chars(s: &Vec<char>, pre: &Vec<char>) -> (r: bool)
    ensures
        r == (pre@.len() <= s@.len() && s@.subrange(0, pre@.len() as int) == pre@),
{
    if pre.len() > s.len() {
        return false;
    }
    let mut k: usize = 0;
    while k < pre.len()
        invariant
            pre@.len() <= s@.len(),
            k <= pre@.len(),
            forall|m: int| 0 <= m < k ==> s@[m] == pre@[m],
        decreases pre@.len() - k,
    {
        if s[k] != pre[k] {
            assert(s@.subrange(0, pre@.len() as int)[k as int] != pre@[k as int]);
            return false;
        }
        k += 1;
    }
    assert(s@.subrange(0, pre@.len() as int) =~= pre@);
    true
}

/// Appends the characters of `s` to `out`.
pub fn push_str_chars(out: &mut Vec<char>, s: &str)
    ensures
        final(out)@ == old(out)@ + s@,
{
    let v = chars_of(s);
    let mut i: usize = 0;
    let ghost base = out@;
    while i < v.len()
        invariant
            i <= v@.len(),
            v@ == s@,
            out@ == base + v@.subrange(0, i as int),
        decreases v@.len() - i,
    {
        out.push(v[i]);
        assert(out@ =~= base + v@.subrange(0, i + 1));
        i += 1;
    }
    assert(v@.subrange(0, v@.len() as int) =~= v@);
}

/// Appends `v` to `out`.
pub fn push_chars(out: &mut Vec<char>, v: &Vec<char>)
    ensures
        final(out)@ == old(out)@ + v@,
{
    let mut i: usize = 0;
    let ghost base = out@;
    while i < v.len()
        invariant
            i <= v@.len(),
            out@ == base + v@.subrange(0, i as int),
        decreases v@.len() - i,
    {
        out.push(v[i]);
        assert(out@ =~= base + v@.subrange(0, i + 1));
        i += 1;
    }
    assert(v@.subrange(0, v@.len() as int) =~= v@);
}

/// Whether the characters `v` spell `lit`.
pub fn chars_eq(v: &Vec<char>, lit: &str) -> (r: bool)
    ensures
        r == (v@ == lit@),
{
    let l = chars_of(lit);
    if v.len() != l.len() {
        return false;
    }
    let mut k: usize = 0;
    while k < v.len()
        invariant
            v@.len() == l@.len(),
            l@ == lit@,
            k <= v@.len(),
            forall|m: int| 0 <= m < k ==> v@[m] == l@[m],
        decreases v@.len() - k,
    {
        if v[k] != l[k] {
            return false;
        }
        k += 1;
    }
    assert(v@ =~= l@);
    true
}

/// Whether one of `v` equals `x`.
pub fn contains_text(v: &Vec<String>, x: &String) -> (r: bool)
    ensures
        r == string_views(v@).contains(x@),
{
    let mut i: usize = 0;
    while i < v.len()
        invariant
            i <= v@.len(),
            forall|m: int| 0 <= m < i ==> (#[trigger] v@[m])@ != x@,
        decreases v@.len() - i,
    {
        if v[i] == *x {
            assert(string_views(v@)[i as int] == x@);
            return true;
        }
        i += 1;
    }
    assert forall|m: int| 0 <= m < string_views(v@).len() implies string_views(v@)[m] != x@ by {
        assert(string_views(v@)[m] == v@[m]@);
    }
    false
}

/// `a` followed by `b`.
pub fn concat_str(a: &str, b: &str) -> (r: String)
    ensures
        r@ == a@ + b@,
{
    let mut s = a.to_string();
    s.append(b);
    s
}

/// The text of an optional string.
pub open spec fn opt_text_view(o: Option<String>) -> Option<Seq<char>> {
    match o {
        Some(x) => Some(x@),
        None => None,
    }
}

} // verus!
