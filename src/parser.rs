use vstd::prelude::*;
use crate::text::string_views;
use crate::text::{
    ascii_ws, chars_of, ci_contains, ci_contains_exec, ci_match_at, ci_match_at_exec, contains_char,
    is_ascii_ws, is_white, slice_chars, starts_with_chars, string_of, trim, trim_chars, white,
};

verus! {

/// Net count of `(` minus `)` in the first `k` characters of `s`.
pub open spec fn paren_net(s: Seq<char>, k: int) -> int
    decreases k,
{
    if k <= 0 {
        0
    } else {
        paren_net(s, k - 1) + if s[k - 1] == '(' {
            1int
        } else if s[k - 1] == ')' {
            -1int
        } else {
            0int
        }
    }
}

/// Every prefix has at least as many `(` as `)`, and the whole has as many.
pub open spec fn is_balanced(s: Seq<char>) -> bool {
    (forall|k: int| 0 <= k <= s.len() ==> #[trigger] paren_net(s, k) >= 0) && paren_net(s, s.len() as int)
        == 0
}

/// Whether the parentheses of `s` are balanced.
pub fn paren_balanced(s: &str) -> (r: bool)
    ensures
        r == is_balanced(s@),
{
    let v = chars_of(s);
    paren_balanced_chars(&v)
}

pub fn paren_balanced_chars(v: &Vec<char>) -> (r: bool)
    ensures
        r == is_balanced(v@),
{
    let n = v.len();
    let mut depth: usize = 0;
    let mut i: usize = 0;
    while i < n
        invariant
            n == v@.len(),
            i <= n,
            depth <= i,
            depth == paren_net(v@, i as int),
            forall|k: int| 0 <= k <= i ==> #[trigger] paren_net(v@, k) >= 0,
        decreases n - i,
    {
        if v[i] == '(' {
            depth += 1;
        } else if v[i] == ')' {
            if depth == 0 {
                assert(paren_net(v@, i + 1) < 0);
                return false;
            }
            depth -= 1;
        }
        i += 1;
    }
    depth == 0
}

/// A `)` at `i` followed, past ASCII whitespace only, by a `(` at `j`.
pub open spec fn right_left_at(s: Seq<char>, i: int, j: int) -> bool {
    0 <= i < j < s.len() && s[i] == ')' && s[j] == '(' && forall|k: int| i < k < j ==> is_ascii_ws(
        #[trigger] s[k],
    )
}

pub open spec fn has_unexpected_right_paren(s: Seq<char>) -> bool {
    exists|i: int, j: int| right_left_at(s, i, j)
}

/// A `,` at `k` followed, past ASCII whitespace only, by a `)` at `i`.
pub open spec fn comma_close_at(s: Seq<char>, k: int, i: int) -> bool {
    0 <= k < i < s.len() && s[k] == ',' && s[i] == ')' && forall|m: int| k < m < i ==> is_ascii_ws(
        #[trigger] s[m],
    )
}

pub open spec fn has_trailing_comma(s: Seq<char>) -> bool {
    exists|k: int, i: int| comma_close_at(s, k, i)
}

fn find_right_left(v: &Vec<char>) -> (r: bool)
    ensures
        r == has_unexpected_right_paren(v@),
{
    let n = v.len();
    let mut i: usize = 0;
    while i < n
        invariant
            n == v@.len(),
            i <= n,
            forall|a: int, b: int| 0 <= a < i ==> !right_left_at(v@, a, b),
        decreases n - i,
    {
        if v[i] == ')' {
            let mut j: usize = i + 1;
            while j < n && ascii_ws(v[j])
                invariant
                    n == v@.len(),
                    i < j <= n,
                    forall|k: int| i < k < j ==> is_ascii_ws(#[trigger] v@[k]),
                decreases n - j,
            {
                j += 1;
            }
            if j < n && v[j] == '(' {
                assert(right_left_at(v@, i as int, j as int));
                return true;
            }
            assert forall|b: int| !right_left_at(v@, i as int, b) by {
                if right_left_at(v@, i as int, b) {
                    if b > j {
                        assert(is_ascii_ws(v@[j as int]));
                    }
                }
            }
        }
        i += 1;
    }
    false
}

fn find_trailing_comma(v: &Vec<char>) -> (r: bool)
    ensures
        r == has_trailing_comma(v@),
{
    let n = v.len();
    let mut i: usize = 0;
    while i < n
        invariant
            n == v@.len(),
            i <= n,
            forall|a: int, b: int| 0 <= b < i ==> !comma_close_at(v@, a, b),
        decreases n - i,
    {
        if v[i] == ')' {
            let mut k: usize = i;
            while k > 0 && ascii_ws(v[k - 1])
                invariant
                    n == v@.len(),
                    k <= i < n,
                    forall|m: int| k <= m < i ==> is_ascii_ws(#[trigger] v@[m]),
                decreases k,
            {
                k -= 1;
            }
            if k > 0 && v[k - 1] == ',' {
                assert(comma_close_at(v@, k - 1, i as int));
                return true;
            }
            assert forall|a: int| !comma_close_at(v@, a, i as int) by {
                if comma_close_at(v@, a, i as int) {
                    if a < k - 1 {
                        assert(is_ascii_ws(v@[k - 1]));
                    }
                }
            }
        }
        i += 1;
    }
    false
}

/// `winsorize(`, matched without regard to ASCII case.
pub open spec fn winsorize_kw() -> Seq<char> {
    seq!['w', 'i', 'n', 's', 'o', 'r', 'i', 'z', 'e', '(']
}

/// Scans the arguments of a call from `i` at nesting `depth`: returns the
/// spans `[a, b)` of its top-level arguments and the index where the scan
/// stopped (the closing `)`, or the end of `s` when it is missing).
pub open spec fn scan_args(s: Seq<char>, i: int, depth: int, seg_start: int, segs: Seq<(int, int)>) -> (
    Seq<(int, int)>,
    int,
)
    decreases s.len() - i,
{
    if i < 0 || i >= s.len() || depth <= 0 {
        (segs, i)
    } else if s[i] == '(' {
        scan_args(s, i + 1, depth + 1, seg_start, segs)
    } else if s[i] == ')' {
        if depth == 1 {
            (segs.push((seg_start, i)), i)
        } else {
            scan_args(s, i + 1, depth - 1, seg_start, segs)
        }
    } else if s[i] == ',' && depth == 1 {
        scan_args(s, i + 1, depth, i + 1, segs.push((seg_start, i)))
    } else {
        scan_args(s, i + 1, depth, seg_start, segs)
    }
}

/// Whether `s[k..b)` holds an `=` outside any parentheses of its own, scanning from nesting `d`.
pub open spec fn named_scan(s: Seq<char>, k: int, b: int, d: int) -> bool
    decreases b - k,
{
    if k >= b {
        false
    } else if s[k] == '(' {
        named_scan(s, k + 1, b, d + 1)
    } else if s[k] == ')' {
        named_scan(s, k + 1, b, d - 1)
    } else if s[k] == '=' && d == 0 {
        true
    } else {
        named_scan(s, k + 1, b, d)
    }
}

/// An argument span counts as positional when it is not blank and not `key=value`.
pub open spec fn is_positional(s: Seq<char>, seg: (int, int)) -> bool {
    (exists|k: int| seg.0 <= k < seg.1 && !is_white(#[trigger] s[k])) && !named_scan(s, seg.0, seg.1, 0)
}

pub open spec fn count_positional(s: Seq<char>, segs: Seq<(int, int)>) -> nat
    decreases segs.len(),
{
    if segs.len() == 0 {
        0
    } else {
        count_positional(s, segs.drop_last()) + if is_positional(s, segs.last()) {
            1nat
        } else {
            0nat
        }
    }
}

/// Searching from `pos`, some `winsorize(` call, nested ones included, does
/// not have exactly one positional argument.
pub open spec fn winsorize_violation_from(s: Seq<char>, pos: int) -> bool
    decreases s.len() - pos,
{
    if pos < 0 || pos >= s.len() {
        false
    } else if ci_match_at(s, pos, winsorize_kw()) {
        let start = pos + 10;
        let scanned = scan_args(s, start, 1, start, Seq::empty());
        if count_positional(s, scanned.0) != 1 {
            true
        } else {
            winsorize_violation_from(s, pos + 1)
        }
    } else {
        winsorize_violation_from(s, pos + 1)
    }
}

pub open spec fn has_winsorize_violation(s: Seq<char>) -> bool {
    winsorize_violation_from(s, 0)
}

pub open spec fn seg_view(sg: Seq<(usize, usize)>) -> Seq<(int, int)> {
    sg.map_values(|p: (usize, usize)| (p.0 as int, p.1 as int))
}


fn is_positional_exec(v: &Vec<char>, a: usize, b: usize) -> (r: bool)
    requires
        a <= b <= v@.len(),
    ensures
        r == is_positional(v@, (a as int, b as int)),
{
    let mut k: usize = a;
    let mut blank = true;
    while k < b
        invariant
            a <= k <= b <= v@.len(),
            blank == forall|m: int| a <= m < k ==> is_white(#[trigger] v@[m]),
        decreases b - k,
    {
        if !white(v[k]) {
            blank = false;
        }
        k += 1;
    }
    if blank {
        return false;
    }
    let mut k: usize = a;
    let mut opens: usize = 0;
    let mut closes: usize = 0;
    while k < b
        invariant
            a <= k <= b <= v@.len(),
            opens <= k && closes <= k,
            named_scan(v@, k as int, b as int, opens - closes) == named_scan(v@, a as int, b as int, 0),
        decreases b - k,
    {
        if v[k] == '(' {
            opens += 1;
        } else if v[k] == ')' {
            closes += 1;
        } else if v[k] == '=' && opens == closes {
            return false;
        }
        k += 1;
    }
    true
}

fn find_winsorize_violation(v: &Vec<char>) -> (r: bool)
    ensures
        r == has_winsorize_violation(v@),
{
    let n = v.len();
    let kw: Vec<char> = vec!['w', 'i', 'n', 's', 'o', 'r', 'i', 'z', 'e', '('];
    assert(kw@ =~= winsorize_kw());
    let mut pos: usize = 0;
    while pos < n
        invariant
            n == v@.len(),
            pos <= n,
            kw@ == winsorize_kw(),
            winsorize_violation_from(v@, pos as int) == has_winsorize_violation(v@),
        decreases n - pos,
    {
        if ci_match_at_exec(v, pos, &kw) {
            let start = pos + 10;
            let mut segs: Vec<(usize, usize)> = Vec::new();
            let mut i: usize = start;
            let mut depth: usize = 1;
            let mut seg_start: usize = start;
            let mut done = false;
            let ghost scanned = scan_args(v@, start as int, 1, start as int, Seq::empty());
            assert(seg_view(segs@) =~= Seq::<(int, int)>::empty());
            while i < n && !done
                invariant
                    n == v@.len(),
                    start == pos + 10,
                    start <= seg_start <= i <= n,
                    forall|k: int| 0 <= k < segs@.len() ==> (#[trigger] segs@[k]).0 <= segs@[k].1 <= n,
                    depth <= i,
                    done ==> scanned == (seg_view(segs@), i as int),
                    !done ==> depth >= 1 && scan_args(v@, i as int, depth as int, seg_start as int, seg_view(segs@))
                        == scanned,
                decreases 2 * (n - i) + if done { 0int } else { 1int },
            {
                let c = v[i];
                if c == '(' {
                    depth += 1;
                    i += 1;
                } else if c == ')' {
                    if depth == 1 {
                        let ghost before = segs@;
                        segs.push((seg_start, i));
                        assert(seg_view(segs@) =~= seg_view(before).push((seg_start as int, i as int)));
                        done = true;
                    } else {
                        depth -= 1;
                        i += 1;
                    }
                } else if c == ',' && depth == 1 {
                    let ghost before = segs@;
                    segs.push((seg_start, i));
                    assert(seg_view(segs@) =~= seg_view(before).push((seg_start as int, i as int)));
                    seg_start = i + 1;
                    i += 1;
                } else {
                    i += 1;
                }
            }
            assert(scanned == (seg_view(segs@), i as int));
            let mut cnt: usize = 0;
            let mut k: usize = 0;
            while k < segs.len()
                invariant
                    n == v@.len(),
                    forall|m: int| 0 <= m < segs@.len() ==> (#[trigger] segs@[m]).0 <= segs@[m].1 <= n,
                    k <= segs@.len(),
                    cnt <= k,
                    cnt == count_positional(v@, seg_view(segs@).subrange(0, k as int)),
                decreases segs@.len() - k,
            {
                assert(seg_view(segs@).subrange(0, k + 1).drop_last() =~= seg_view(segs@).subrange(0, k as int));
                let (a, b) = segs[k];
                if is_positional_exec(v, a, b) {
                    cnt += 1;
                }
                k += 1;
            }
            assert(seg_view(segs@).subrange(0, segs@.len() as int) =~= seg_view(segs@));
            if cnt != 1 {
                return true;
            }
            pos = pos + 1;
        } else {
            pos += 1;
        }
    }
    false
}

/// Pre-enqueue checks: no `)` followed by `(`, no `,` right before `)`, and
/// exactly one positional argument in each `winsorize(...)` call (`key=value`
/// arguments do not count); the first rule that fails names the error.
pub fn validate_prequeue(expr: &str) -> (r: Result<(), String>)
    ensures
        has_unexpected_right_paren(expr@) ==> (r matches Err(e) && e@ == "unexpected_right_paren"@),
        !has_unexpected_right_paren(expr@) && has_trailing_comma(expr@) ==> (r matches Err(e) && e@
            == "trailing_comma"@),
        !has_unexpected_right_paren(expr@) && !has_trailing_comma(expr@) && has_winsorize_violation(
            expr@,
        ) ==> (r matches Err(e) && e@ == "winsorize_arity"@),
        !has_unexpected_right_paren(expr@) && !has_trailing_comma(expr@) && !has_winsorize_violation(
            expr@,
        ) ==> r is Ok,
{
    let v = chars_of(expr);
    if find_right_left(&v) {
        return Err("unexpected_right_paren".to_string());
    }
    if find_trailing_comma(&v) {
        return Err("trailing_comma".to_string());
    }
    if find_winsorize_violation(&v) {
        return Err("winsorize_arity".to_string());
    }
    Ok(())
}

/// Index in `t` of its first `}`, or its length when it has none.
pub open spec fn close_offset(t: Seq<char>) -> nat
    decreases t.len(),
{
    if t.len() == 0 || t[0] == '}' {
        0
    } else {
        1 + close_offset(t.drop_first())
    }
}

/// `s` with every `{...}` span removed, leftmost first: a `{` starts a span
/// when some `}` follows it, and the span ends at the first such `}`.
pub open spec fn strip_braces(s: Seq<char>) -> Seq<char>
    decreases s.len(),
{
    if s.len() == 0 {
        s
    } else {
        let t = s.drop_first();
        let c = close_offset(t);
        if s[0] == '{' && c < t.len() {
            strip_braces(t.subrange(c as int + 1, t.len() as int))
        } else {
            seq![s[0]] + strip_braces(t)
        }
    }
}

/// `s` with leading and trailing whitespace dropped and each inner run of
/// whitespace replaced by one space.
pub open spec fn collapse_ws(s: Seq<char>) -> Seq<char>
    decreases s.len(),
{
    if s.len() == 0 {
        s
    } else {
        let p = s.drop_last();
        let c = s.last();
        if is_white(c) {
            collapse_ws(p)
        } else if p.len() > 0 && is_white(p.last()) && collapse_ws(p).len() > 0 {
            collapse_ws(p).push(' ').push(c)
        } else {
            collapse_ws(p).push(c)
        }
    }
}

/// Relies on `regex::Regex::replace_all` with the pattern `\{[^}]*\}` and an
/// empty replacement: it removes the leftmost-first, non-overlapping matches.
#[verifier::external_body]
fn remove_brace_spans(s: &str) -> (r: String)
    ensures
        r@ == strip_braces(s@),
{
    let re = regex::Regex::new(r"\{[^}]*\}").unwrap();
    re.replace_all(s, "").into_owned()
}

fn collapse_whitespace(v: &Vec<char>) -> (r: Vec<char>)
    ensures
        r@ == collapse_ws(v@),
{
    let n = v.len();
    let mut out: Vec<char> = Vec::new();
    let mut i: usize = 0;
    while i < n
        invariant
            n == v@.len(),
            i <= n,
            out@ == collapse_ws(v@.subrange(0, i as int)),
        decreases n - i,
    {
        let ghost pre = v@.subrange(0, i as int);
        assert(v@.subrange(0, i + 1).drop_last() =~= pre);
        let c = v[i];
        if !white(c) {
            if i > 0 && white(v[i - 1]) && out.len() > 0 {
                out.push(' ');
            }
            out.push(c);
        }
        i += 1;
    }
    assert(v@.subrange(0, n as int) =~= v@);
    out
}

/// Removes `{...}` annotations and normalises whitespace.
pub fn sanitize_expression(expr: &str) -> (r: String)
    ensures
        r@ == collapse_ws(strip_braces(expr@)),
{
    let stripped = remove_brace_spans(expr);
    let v = chars_of(stripped.as_str());
    let out = collapse_whitespace(&v);
    string_of(out.as_slice())
}

/// What `parse_alpha_exprs` found: the accepted expressions in order, the
/// number of lines read, and up to five rejected lines with their reason.
pub struct ParsedResult {
    pub exprs: Vec<String>,
    pub total_lines: usize,
    pub rejected_examples: Vec<String>,
}

/// How one line of model output is judged.
pub enum LineVerdict {
    Blank,
    Accepted(Seq<char>),
    Rejected(Seq<char>),
}

pub const MAX_REJECT_EXAMPLES: usize = 5;
pub const MIN_EXPR_BYTES: usize = 8;

/// The pieces of `t` between `\n` characters.
pub open spec fn split_nl(t: Seq<char>) -> Seq<Seq<char>>
    decreases t.len(),
{
    if t.len() == 0 {
        seq![Seq::<char>::empty()]
    } else {
        let p = split_nl(t.drop_last());
        if t.last() == '\n' {
            p.push(Seq::<char>::empty())
        } else {
            p.update(p.len() - 1, p.last().push(t.last()))
        }
    }
}

/// The lines of `t`: the pieces between newlines, where a final newline ends
/// the last line rather than starting an empty one.
pub open spec fn lines_of(t: Seq<char>) -> Seq<Seq<char>> {
    if t.len() == 0 {
        Seq::empty()
    } else if t.last() == '\n' {
        split_nl(t).drop_last()
    } else {
        split_nl(t)
    }
}

pub open spec fn expr_prefix() -> Seq<char> {
    seq!['A', 'L', 'P', 'H', 'A', '_', 'E', 'X', 'P', 'R', ':']
}

pub open spec fn banned_marker() -> Seq<char> {
    seq!['r', 'e', 'd', 'u', 'c', 'e', '_']
}

/// The candidate expression on a line: trimmed, without the `ALPHA_EXPR:`
/// marker, then sanitised.
pub open spec fn expr_of_line(line: Seq<char>) -> Seq<char> {
    let l = trim(line);
    let raw = if l.len() >= 11 && l.subrange(0, 11) == expr_prefix() {
        trim(l.subrange(11, l.len() as int))
    } else {
        l
    };
    collapse_ws(strip_braces(raw))
}

pub open spec fn verdict(line: Seq<char>) -> LineVerdict {
    if trim(line).len() == 0 {
        LineVerdict::Blank
    } else {
        let e = expr_of_line(line);
        if utf8_len(e) < MIN_EXPR_BYTES {
            LineVerdict::Rejected("too_short: "@ + e)
        } else if !e.contains('(') || !e.contains(')') {
            LineVerdict::Rejected("no_parens: "@ + e)
        } else if !is_balanced(e) {
            LineVerdict::Rejected("bad_parens: "@ + e)
        } else if ci_contains(e, banned_marker()) {
            LineVerdict::Rejected("banned_op: "@ + e)
        } else {
            LineVerdict::Accepted(e)
        }
    }
}

/// Bytes that `c` takes in UTF-8.
pub open spec fn utf8_width(c: char) -> nat {
    if (c as u32) < 0x80 {
        1
    } else if (c as u32) < 0x800 {
        2
    } else if (c as u32) < 0x10000 {
        3
    } else {
        4
    }
}

/// Length of `s` in UTF-8 bytes.
pub open spec fn utf8_len(s: Seq<char>) -> nat
    decreases s.len(),
{
    if s.len() == 0 {
        0
    } else {
        utf8_len(s.drop_last()) + utf8_width(s.last())
    }
}

fn utf8_len_at_least(v: &Vec<char>, k: usize) -> (r: bool)
    requires
        k <= 1024,
    ensures
        r == (utf8_len(v@) >= k),
{
    if k == 0 {
        return true;
    }
    let n = v.len();
    let mut total: usize = 0;
    let mut i: usize = 0;
    while i < n
        invariant
            n == v@.len(),
            i <= n,
            total == utf8_len(v@.subrange(0, i as int)),
            total < k,
            k <= 1024,
        decreases n - i,
    {
        assert(v@.subrange(0, i + 1).drop_last() =~= v@.subrange(0, i as int));
        let c = v[i] as u32;
        let w: usize = if c < 0x80 {
            1
        } else if c < 0x800 {
            2
        } else if c < 0x10000 {
            3
        } else {
            4
        };
        total = total + w;
        i += 1;
        if total >= k {
            proof {
                lemma_utf8_len_prefix(v@, i as int);
            }
            return true;
        }
    }
    assert(v@.subrange(0, n as int) =~= v@);
    false
}

/// `utf8_len(v)` when it is at most `cap`, else `cap + 1`.
pub fn utf8_len_capped(v: &Vec<char>, cap: usize) -> (r: usize)
    requires
        cap <= 4096,
    ensures
        r <= cap ==> r == utf8_len(v@),
        r > cap ==> r == cap + 1 && utf8_len(v@) > cap,
{
    let n = v.len();
    let mut total: usize = 0;
    let mut i: usize = 0;
    while i < n
        invariant
            n == v@.len(),
            i <= n,
            total == utf8_len(v@.subrange(0, i as int)),
            total <= cap,
            cap <= 4096,
        decreases n - i,
    {
        assert(v@.subrange(0, i + 1).drop_last() =~= v@.subrange(0, i as int));
        let c = v[i] as u32;
        let w: usize = if c < 0x80 {
            1
        } else if c < 0x800 {
            2
        } else if c < 0x10000 {
            3
        } else {
            4
        };
        total = total + w;
        i += 1;
        if total > cap {
            proof {
                lemma_utf8_len_prefix(v@, i as int);
            }
            return cap + 1;
        }
    }
    assert(v@.subrange(0, n as int) =~= v@);
    total
}

proof fn lemma_utf8_len_prefix(s: Seq<char>, i: int)
    requires
        0 <= i <= s.len(),
    ensures
        utf8_len(s.subrange(0, i)) <= utf8_len(s),
    decreases s.len() - i,
{
    if i < s.len() {
        lemma_utf8_len_prefix(s, i + 1);
        assert(s.subrange(0, i + 1).drop_last() =~= s.subrange(0, i));
    } else {
        assert(s.subrange(0, i) =~= s);
    }
}

pub open spec fn accepted_of(ls: Seq<Seq<char>>) -> Seq<Seq<char>>
    decreases ls.len(),
{
    if ls.len() == 0 {
        Seq::empty()
    } else {
        let p = accepted_of(ls.drop_last());
        match verdict(ls.last()) {
            LineVerdict::Accepted(e) => p.push(e),
            _ => p,
        }
    }
}

pub open spec fn rejects_of(ls: Seq<Seq<char>>) -> Seq<Seq<char>>
    decreases ls.len(),
{
    if ls.len() == 0 {
        Seq::empty()
    } else {
        let p = rejects_of(ls.drop_last());
        match verdict(ls.last()) {
            LineVerdict::Rejected(m) => p.push(m),
            _ => p,
        }
    }
}

pub open spec fn char_vec_views(v: Seq<Vec<char>>) -> Seq<Seq<char>> {
    v.map_values(|l: Vec<char>| l@)
}

fn split_lines(v: &Vec<char>) -> (r: Vec<Vec<char>>)
    ensures
        char_vec_views(r@) == lines_of(v@),
{
    let n = v.len();
    let mut lines: Vec<Vec<char>> = Vec::new();
    let mut cur: Vec<char> = Vec::new();
    let mut i: usize = 0;
    assert(split_nl(v@.subrange(0, 0)) =~= seq![Seq::<char>::empty()]);
    assert(char_vec_views(lines@).push(cur@) =~= seq![Seq::<char>::empty()]);
    while i < n
        invariant
            n == v@.len(),
            i <= n,
            split_nl(v@.subrange(0, i as int)) == char_vec_views(lines@).push(cur@),
            i > 0 && v@[i - 1] == '\n' ==> cur@.len() == 0,
        decreases n - i,
    {
        assert(v@.subrange(0, i + 1).drop_last() =~= v@.subrange(0, i as int));
        let c = v[i];
        if c == '\n' {
            let done = cur;
            let ghost before = lines@;
            lines.push(done);
            cur = Vec::new();
            assert(char_vec_views(lines@) =~= char_vec_views(before).push(done@));
            assert(char_vec_views(lines@).push(cur@) =~= split_nl(v@.subrange(0, i + 1)));
        } else {
            let ghost before = cur@;
            cur.push(c);
            assert(char_vec_views(lines@).push(cur@) =~= split_nl(v@.subrange(0, i + 1)));
        }
        i += 1;
    }
    assert(v@.subrange(0, n as int) =~= v@);
    if n == 0 {
        assert(char_vec_views(lines@) =~= Seq::<Seq<char>>::empty());
        return lines;
    }
    if v[n - 1] == '\n' {
        assert(char_vec_views(lines@) =~= split_nl(v@).drop_last());
        return lines;
    }
    let ghost before = lines@;
    lines.push(cur);
    assert(char_vec_views(lines@) =~= char_vec_views(before).push(cur@));
    lines
}

/// `lit` followed by `e`.
fn tagged(lit: &str, e: &String) -> (r: String)
    ensures
        r@ == lit@ + e@,
{
    let mut m = lit.to_string();
    m.append(e.as_str());
    m
}

fn line_verdict(line: &Vec<char>) -> (r: Option<Result<String, String>>)
    ensures
        match verdict(line@) {
            LineVerdict::Blank => r is None,
            LineVerdict::Accepted(e) => r matches Some(Ok(x)) && x@ == e,
            LineVerdict::Rejected(m) => r matches Some(Err(x)) && x@ == m,
        },
{
    let l = trim_chars(line);
    if l.len() == 0 {
        return None;
    }
    let prefix: Vec<char> = vec!['A', 'L', 'P', 'H', 'A', '_', 'E', 'X', 'P', 'R', ':'];
    assert(prefix@ =~= expr_prefix());
    let raw = if starts_with_chars(&l, &prefix) {
        let rest = slice_chars(&l, 11, l.len());
        trim_chars(&rest)
    } else {
        l
    };
    let raw_s = string_of(raw.as_slice());
    let e = sanitize_expression(raw_s.as_str());
    assert(e@ == expr_of_line(line@));
    let ev = chars_of(e.as_str());
    if !utf8_len_at_least(&ev, MIN_EXPR_BYTES) {
        return Some(Err(tagged("too_short: ", &e)));
    }
    if !contains_char(&ev, '(') || !contains_char(&ev, ')') {
        return Some(Err(tagged("no_parens: ", &e)));
    }
    if !paren_balanced_chars(&ev) {
        return Some(Err(tagged("bad_parens: ", &e)));
    }
    let marker: Vec<char> = vec!['r', 'e', 'd', 'u', 'c', 'e', '_'];
    assert(marker@ =~= banned_marker());
    if ci_contains_exec(&ev, &marker) {
        return Some(Err(tagged("banned_op: ", &e)));
    }
    Some(Ok(e))
}

/// Reads model output line by line and keeps each line that holds a plausible
/// expression: at least eight bytes, with parentheses, balanced, and free of
/// `reduce_` operators. The first five rejected lines are kept with a reason.
pub fn parse_alpha_exprs(text: &str) -> (r: ParsedResult)
    ensures
        r.total_lines == lines_of(text@).len(),
        string_views(r.exprs@) == accepted_of(lines_of(text@)),
        string_views(r.rejected_examples@) == if rejects_of(lines_of(text@)).len() <= MAX_REJECT_EXAMPLES {
            rejects_of(lines_of(text@))
        } else {
            rejects_of(lines_of(text@)).subrange(0, MAX_REJECT_EXAMPLES as int)
        },
{
    let v = chars_of(text);
    let lines = split_lines(&v);
    let ghost ls = lines_of(text@);
    let mut out: Vec<String> = Vec::new();
    let mut rejected: Vec<String> = Vec::new();
    let mut i: usize = 0;
    while i < lines.len()
        invariant
            char_vec_views(lines@) == ls,
            i <= lines@.len(),
            string_views(out@) == accepted_of(ls.subrange(0, i as int)),
            string_views(rejected@) == if rejects_of(ls.subrange(0, i as int)).len() <= MAX_REJECT_EXAMPLES {
                rejects_of(ls.subrange(0, i as int))
            } else {
                rejects_of(ls.subrange(0, i as int)).subrange(0, MAX_REJECT_EXAMPLES as int)
            },
        decreases lines@.len() - i,
    {
        assert(ls.subrange(0, i + 1).drop_last() =~= ls.subrange(0, i as int));
        assert(ls.subrange(0, i + 1).last() == lines@[i as int]@);
        match line_verdict(&lines[i]) {
            None => {},
            Some(Ok(e)) => {
                let ghost before = out@;
                out.push(e);
                assert(string_views(out@) =~= string_views(before).push(e@));
            },
            Some(Err(m)) => {
                if rejected.len() < MAX_REJECT_EXAMPLES {
                    let ghost before = rejected@;
                    rejected.push(m);
                    assert(string_views(rejected@) =~= string_views(before).push(m@));
                } else {
                    assert(rejects_of(ls.subrange(0, i + 1)).subrange(0, MAX_REJECT_EXAMPLES as int) =~= rejects_of(
                        ls.subrange(0, i as int),
                    ).subrange(0, MAX_REJECT_EXAMPLES as int));
                }
            },
        }
        i += 1;
    }
    assert(ls.subrange(0, lines@.len() as int) =~= ls);
    ParsedResult { exprs: out, total_lines: lines.len(), rejected_examples: rejected }
}

} // verus!
