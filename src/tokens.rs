use vstd::prelude::*;
use crate::text::string_views;
use crate::text::{ascii_ws, chars_of, is_ascii_ws, string_of};

verus! {

/// A character of an identifier token: ASCII letter, digit or `_`.
pub open spec fn is_ident(c: char) -> bool {
    ('a' <= c && c <= 'z') || ('A' <= c && c <= 'Z') || ('0' <= c && c <= '9') || c == '_'
}

pub fn ident_char(c: char) -> (r: bool)
    ensures
        r == is_ident(c),
{
    ('a' <= c && c <= 'z') || ('A' <= c && c <= 'Z') || ('0' <= c && c <= '9') || c == '_'
}

/// The spans `[a, b)` of the maximal identifier runs of `s`, in order.
pub open spec fn runs(s: Seq<char>) -> Seq<(int, int)>
    decreases s.len(),
{
    if s.len() == 0 {
        Seq::empty()
    } else {
        let p = s.drop_last();
        let c = s.last();
        let r = runs(p);
        if !is_ident(c) {
            r
        } else if p.len() > 0 && is_ident(p.last()) {
            r.update(r.len() - 1, (r.last().0, s.len() as int))
        } else {
            r.push(((s.len() - 1) as int, s.len() as int))
        }
    }
}

/// The identifier tokens of `s`, in order.
pub open spec fn tokens(s: Seq<char>) -> Seq<Seq<char>> {
    runs(s).map_values(|ab: (int, int)| s.subrange(ab.0, ab.1))
}

/// After `b`, past ASCII whitespace, comes `(`.
pub open spec fn paren_follows(s: Seq<char>, b: int) -> bool
    decreases s.len() - b,
{
    if b < 0 || b >= s.len() {
        false
    } else if s[b] == '(' {
        true
    } else if is_ascii_ws(s[b]) {
        paren_follows(s, b + 1)
    } else {
        false
    }
}

/// The runs of `rs` that are called, that is followed by `(`.
pub open spec fn call_runs(s: Seq<char>, rs: Seq<(int, int)>) -> Seq<(int, int)>
    decreases rs.len(),
{
    if rs.len() == 0 {
        rs
    } else if paren_follows(s, rs.last().1) {
        call_runs(s, rs.drop_last()).push(rs.last())
    } else {
        call_runs(s, rs.drop_last())
    }
}

/// The operator tokens of `s`: identifiers applied to an argument list.
pub open spec fn operator_tokens(s: Seq<char>) -> Seq<Seq<char>> {
    call_runs(s, runs(s)).map_values(|ab: (int, int)| s.subrange(ab.0, ab.1))
}

pub open spec fn span_view(v: Seq<(usize, usize)>) -> Seq<(int, int)> {
    v.map_values(|p: (usize, usize)| (p.0 as int, p.1 as int))
}

fn ident_runs(v: &Vec<char>) -> (r: Vec<(usize, usize)>)
    ensures
        span_view(r@) == runs(v@),
        forall|k: int| 0 <= k < r@.len() ==> (#[trigger] r@[k]).0 < r@[k].1 <= v@.len(),
{
    let n = v.len();
    let mut out: Vec<(usize, usize)> = Vec::new();
    let mut i: usize = 0;
    while i < n
        invariant
            n == v@.len(),
            i <= n,
            span_view(out@) == runs(v@.subrange(0, i as int)),
            forall|k: int| 0 <= k < out@.len() ==> (#[trigger] out@[k]).0 < out@[k].1 <= i,
            i > 0 && is_ident(v@[i - 1]) ==> out@.len() > 0 && out@.last().1 == i,
        decreases n - i,
    {
        let ghost pre = v@.subrange(0, i + 1);
        assert(pre.drop_last() =~= v@.subrange(0, i as int));
        if ident_char(v[i]) {
            if i > 0 && ident_char(v[i - 1]) {
                let last = out.len() - 1;
                let a = out[last].0;
                let ghost before = out@;
                out.set(last, (a, i + 1));
                assert(span_view(out@) =~= span_view(before).update(last as int, (a as int, i + 1)));
            } else {
                let ghost before = out@;
                out.push((i, i + 1));
                assert(span_view(out@) =~= span_view(before).push((i as int, i + 1)));
            }
        }
        i += 1;
    }
    assert(v@.subrange(0, n as int) =~= v@);
    out
}

fn paren_follows_exec(v: &Vec<char>, b: usize) -> (r: bool)
    ensures
        r == paren_follows(v@, b as int),
{
    let n = v.len();
    let mut j: usize = b;
    while j < n && ascii_ws(v[j])
        invariant
            n == v@.len(),
            b <= j,
            paren_follows(v@, j as int) == paren_follows(v@, b as int),
        decreases n - j,
    {
        j += 1;
    }
    j < n && v[j] == '('
}

fn spans_to_strings(v: &Vec<char>, spans: &Vec<(usize, usize)>) -> (r: Vec<String>)
    requires
        forall|k: int| 0 <= k < spans@.len() ==> (#[trigger] spans@[k]).0 <= spans@[k].1 <= v@.len(),
    ensures
        string_views(r@) == span_view(spans@).map_values(|ab: (int, int)| v@.subrange(ab.0, ab.1)),
{
    let mut out: Vec<String> = Vec::new();
    let mut k: usize = 0;
    while k < spans.len()
        invariant
            k <= spans@.len(),
            forall|m: int| 0 <= m < spans@.len() ==> (#[trigger] spans@[m]).0 <= spans@[m].1 <= v@.len(),
            string_views(out@) == span_view(spans@).subrange(0, k as int).map_values(
                |ab: (int, int)| v@.subrange(ab.0, ab.1),
            ),
        decreases spans@.len() - k,
    {
        let (a, b) = spans[k];
        let piece = crate::text::slice_chars(v, a, b);
        let s = string_of(piece.as_slice());
        let ghost before = out@;
        out.push(s);
        assert(span_view(spans@)[k as int] == (a as int, b as int));
        assert(span_view(spans@).subrange(0, k + 1) =~= span_view(spans@).subrange(0, k as int).push(
            (a as int, b as int),
        ));
        assert(string_views(out@) =~= string_views(before).push(s@));
        assert(string_views(out@) =~= span_view(spans@).subrange(0, k + 1).map_values(
            |ab: (int, int)| v@.subrange(ab.0, ab.1),
        ));
        k += 1;
    }
    assert(span_view(spans@).subrange(0, spans@.len() as int) =~= span_view(spans@));
    out
}

/// The identifier tokens of `expression`, in order, repeats included.
pub fn extract_tokens(expression: &str) -> (r: Vec<String>)
    ensures
        string_views(r@) == tokens(expression@),
{
    let v = chars_of(expression);
    let spans = ident_runs(&v);
    spans_to_strings(&v, &spans)
}

/// The operator tokens of `expression`: identifiers followed by `(`.
pub fn extract_operators(expression: &str) -> (r: Vec<String>)
    ensures
        string_views(r@) == operator_tokens(expression@),
{
    let v = chars_of(expression);
    let spans = ident_runs(&v);
    let mut calls: Vec<(usize, usize)> = Vec::new();
    let mut k: usize = 0;
    while k < spans.len()
        invariant
            k <= spans@.len(),
            forall|m: int| 0 <= m < spans@.len() ==> (#[trigger] spans@[m]).0 < spans@[m].1 <= v@.len(),
            forall|m: int| 0 <= m < calls@.len() ==> (#[trigger] calls@[m]).0 < calls@[m].1 <= v@.len(),
            span_view(calls@) == call_runs(v@, span_view(spans@).subrange(0, k as int)),
        decreases spans@.len() - k,
    {
        assert(span_view(spans@).subrange(0, k + 1).drop_last() =~= span_view(spans@).subrange(0, k as int));
        let (a, b) = spans[k];
        if paren_follows_exec(&v, b) {
            let ghost before = calls@;
            calls.push((a, b));
            assert(span_view(calls@) =~= span_view(before).push((a as int, b as int)));
        }
        k += 1;
    }
    assert(span_view(spans@).subrange(0, spans@.len() as int) =~= span_view(spans@));
    spans_to_strings(&v, &calls)
}

} // verus!
