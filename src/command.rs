use vstd::prelude::*;
use crate::numparse::{
    parse_i32, parse_i32_spec, parse_u64, parse_u64_spec, parse_usize, parse_usize_spec,
};
use crate::text::{chars_eq, chars_of, ci_match_at, ci_match_at_exec, is_white, string_of, trim, trim_chars, white};

verus! {

/// A command typed by the operator.
#[derive(Debug)]
pub enum AppCommand {
    Catch { alpha_id: String },
    Backtest { expr: String },
    BacktestsClear,
    AlphasClear,
    GenerateStart {
        model: String,
        batch: usize,
        interval_sec: u64,
        region: Option<String>,
        universe: Option<String>,
        delay: Option<i32>,
        sample_size: usize,
        auto_backtest: bool,
    },
    GenerateOnce {
        model: String,
        batch: usize,
        region: Option<String>,
        universe: Option<String>,
        delay: Option<i32>,
        sample_size: usize,
        auto_backtest: bool,
    },
    GenerateStop,
    GetDetail { expr: String },
    Help,
    Quit,
    FieldsSync,
    FieldStats,
    FieldSample { region: Option<String>, universe: Option<String>, delay: Option<i32>, n: usize },
    Unknown(String),
}

pub const DEFAULT_SAMPLE_SIZE: usize = 300;
pub const DEFAULT_INTERVAL_SECS: u64 = 5;

/// The maximal runs of non-whitespace characters of `s`, as `str::split_whitespace` gives them.
pub open spec fn words(s: Seq<char>) -> Seq<Seq<char>>
    decreases s.len(),
{
    if s.len() == 0 {
        Seq::empty()
    } else {
        let p = s.drop_last();
        let c = s.last();
        let w = words(p);
        if is_white(c) {
            w
        } else if p.len() > 0 && !is_white(p.last()) {
            w.update(w.len() - 1, w.last().push(c))
        } else {
            w.push(seq![c])
        }
    }
}

/// The words of `ws`, each followed by one space but the last.
pub open spec fn join_space(ws: Seq<Seq<char>>) -> Seq<char>
    decreases ws.len(),
{
    if ws.len() == 0 {
        Seq::empty()
    } else if ws.len() == 1 {
        ws[0]
    } else {
        join_space(ws.drop_last()) + seq![' '] + ws.last()
    }
}

/// Three ASCII capitals, the shape of a region code.
pub open spec fn is_region_code_spec(s: Seq<char>) -> bool {
    s.len() == 3 && forall|k: int| 0 <= k < 3 ==> 'A' <= #[trigger] s[k] && s[k] <= 'Z'
}

/// `s` equals the lower-case `lit` up to ASCII case.
pub open spec fn ci_equals(s: Seq<char>, lit: Seq<char>) -> bool {
    s.len() == lit.len() && ci_match_at(s, 0, lit)
}

pub open spec fn opt_word(ws: Seq<Seq<char>>, i: int) -> Option<Seq<char>> {
    if 0 <= i < ws.len() {
        Some(ws[i])
    } else {
        None
    }
}

pub open spec fn opt_view(o: Option<String>) -> Option<Seq<char>> {
    match o {
        Some(s) => Some(s@),
        None => None,
    }
}

/// Suffixes accepted after an interval's number, with their multiplier, in the order tried.
pub open spec fn interval_suffix(k: int) -> (Seq<char>, u64) {
    if k == 0 {
        (seq!['s'], 1)
    } else if k == 1 {
        (seq!['s', 'e', 'c'], 1)
    } else if k == 2 {
        (seq!['s', 'e', 'c', 's'], 1)
    } else if k == 3 {
        (seq!['m'], 60)
    } else if k == 4 {
        (seq!['m', 'i', 'n'], 60)
    } else if k == 5 {
        (seq!['m', 'i', 'n', 's'], 60)
    } else if k == 6 {
        (seq!['m', 'i', 'n', 'u', 't', 'e'], 60)
    } else if k == 7 {
        (seq!['m', 'i', 'n', 'u', 't', 'e', 's'], 60)
    } else if k == 8 {
        (seq!['h'], 3600)
    } else if k == 9 {
        (seq!['h', 'r'], 3600)
    } else if k == 10 {
        (seq!['h', 'r', 's'], 3600)
    } else if k == 11 {
        (seq!['h', 'o', 'u', 'r'], 3600)
    } else {
        (seq!['h', 'o', 'u', 'r', 's'], 3600)
    }
}

pub const N_INTERVAL_SUFFIXES: usize = 13;

/// Trying suffixes from the `k`-th on: `None` when none applies, else the
/// outcome of the first suffix whose prefix is a number.
pub open spec fn interval_by_suffix(raw: Seq<char>, k: int) -> Option<Option<u64>>
    decreases N_INTERVAL_SUFFIXES - k,
{
    if k < 0 || k >= N_INTERVAL_SUFFIXES {
        None
    } else {
        let suf = interval_suffix(k).0;
        let mul = interval_suffix(k).1;
        let cut = raw.len() - suf.len();
        if suf.len() <= raw.len() && ci_match_at(raw, cut, suf) && parse_u64_spec(
            trim(raw.subrange(0, cut)),
        ) is Some {
            let v = parse_u64_spec(trim(raw.subrange(0, cut))).unwrap();
            Some(if v * mul <= u64::MAX { Some((v * mul) as u64) } else { None })
        } else {
            interval_by_suffix(raw, k + 1)
        }
    }
}

/// An interval in seconds: a bare number, or a number with a unit suffix
/// (`s`, `m`, `h` and their longer spellings) in any ASCII case.
pub open spec fn parse_interval_spec(s: Seq<char>) -> Option<u64> {
    let raw = trim(s);
    if raw.len() == 0 {
        None
    } else if parse_u64_spec(raw) is Some {
        parse_u64_spec(raw)
    } else {
        match interval_by_suffix(raw, 0) {
            Some(x) => x,
            None => None,
        }
    }
}

pub fn is_region_code(s: &str) -> (r: bool)
    ensures
        r == is_region_code_spec(s@),
{
    let v = chars_of(s);
    is_region_code_chars(&v)
}

fn is_region_code_chars(v: &Vec<char>) -> (r: bool)
    ensures
        r == is_region_code_spec(v@),
{
    v.len() == 3 && 'A' <= v[0] && v[0] <= 'Z' && 'A' <= v[1] && v[1] <= 'Z' && 'A' <= v[2] && v[2]
        <= 'Z'
}

fn suffix_vec(k: usize) -> (r: (Vec<char>, u64))
    requires
        k < N_INTERVAL_SUFFIXES,
    ensures
        r.0@ == interval_suffix(k as int).0,
        r.1 == interval_suffix(k as int).1,
{
    let r = if k == 0 {
        (vec!['s'], 1)
    } else if k == 1 {
        (vec!['s', 'e', 'c'], 1)
    } else if k == 2 {
        (vec!['s', 'e', 'c', 's'], 1)
    } else if k == 3 {
        (vec!['m'], 60)
    } else if k == 4 {
        (vec!['m', 'i', 'n'], 60)
    } else if k == 5 {
        (vec!['m', 'i', 'n', 's'], 60)
    } else if k == 6 {
        (vec!['m', 'i', 'n', 'u', 't', 'e'], 60)
    } else if k == 7 {
        (vec!['m', 'i', 'n', 'u', 't', 'e', 's'], 60)
    } else if k == 8 {
        (vec!['h'], 3600)
    } else if k == 9 {
        (vec!['h', 'r'], 3600)
    } else if k == 10 {
        (vec!['h', 'r', 's'], 3600)
    } else if k == 11 {
        (vec!['h', 'o', 'u', 'r'], 3600)
    } else {
        (vec!['h', 'o', 'u', 'r', 's'], 3600)
    };
    assert(r.0@ =~= interval_suffix(k as int).0);
    r
}

/// Parses an interval such as `90`, `30s`, `5min` or `2h` into seconds.
pub fn parse_interval_seconds(s: &str) -> (r: Option<u64>)
    ensures
        r == parse_interval_spec(s@),
{
    let v = chars_of(s);
    let raw = trim_chars(&v);
    if raw.len() == 0 {
        return None;
    }
    match parse_u64(&raw) {
        Some(x) => {
            return Some(x);
        },
        None => {},
    }
    let mut k: usize = 0;
    while k < N_INTERVAL_SUFFIXES
        invariant
            k <= N_INTERVAL_SUFFIXES,
            raw@ == trim(s@),
            raw@.len() > 0,
            parse_u64_spec(raw@) is None,
            interval_by_suffix(raw@, k as int) == interval_by_suffix(raw@, 0),
        decreases N_INTERVAL_SUFFIXES - k,
    {
        let (suf, mul) = suffix_vec(k);
        if suf.len() <= raw.len() {
            let cut = raw.len() - suf.len();
            if ci_match_at_exec(&raw, cut, &suf) {
                let prefix = crate::text::slice_chars(&raw, 0, cut);
                let tp = trim_chars(&prefix);
                match parse_u64(&tp) {
                    Some(x) => {
                        return x.checked_mul(mul);
                    },
                    None => {},
                }
            }
        }
        k += 1;
    }
    None
}

/// `Some(w)` with `w` one of `1`, `true`, `yes`, `on`, `bt`, `backtest` in any ASCII case, or `None`.
pub open spec fn flag_on(w: Option<Seq<char>>) -> bool {
    match w {
        None => true,
        Some(x) => ci_equals(x, seq!['1']) || ci_equals(x, seq!['t', 'r', 'u', 'e']) || ci_equals(
            x,
            seq!['y', 'e', 's'],
        ) || ci_equals(x, seq!['o', 'n']) || ci_equals(x, seq!['b', 't']) || ci_equals(
            x,
            seq!['b', 'a', 'c', 'k', 't', 'e', 's', 't'],
        ),
    }
}

pub open spec fn opt_i32(w: Option<Seq<char>>) -> Option<i32> {
    match w {
        Some(x) => parse_i32_spec(x),
        None => None,
    }
}

pub open spec fn usize_or(w: Option<Seq<char>>, d: usize) -> usize {
    match w {
        Some(x) => match parse_usize_spec(x) {
            Some(v) => v,
            None => d,
        },
        None => d,
    }
}

pub open spec fn interval_or(w: Option<Seq<char>>, d: u64) -> u64 {
    match w {
        Some(x) => match parse_interval_spec(x) {
            Some(v) => v,
            None => d,
        },
        None => d,
    }
}

/// The model named at `base` unless that word looks like a region code; then
/// the provider's default model. Also the index where the region sits.
pub open spec fn model_and_index(ws: Seq<Seq<char>>, base: int, provider: Seq<char>) -> (Seq<char>, int) {
    if base < ws.len() && !is_region_code_spec(ws[base]) {
        (ws[base], base + 1)
    } else if provider == "cerebras"@ {
        ("llama-3.3-70b"@, base)
    } else {
        ("deepseek/deepseek-r1"@, base)
    }
}

/// `r` is the command that the words `ws` spell, with `provider` naming the LLM provider.
pub open spec fn command_spec(r: AppCommand, ws: Seq<Seq<char>>, provider: Seq<char>) -> bool {
    if ws.len() == 0 {
        r matches AppCommand::Unknown(m) && m@ == Seq::<char>::empty()
    } else {
        let w0 = ws[0];
        if w0 == "alpha"@ || w0 == "alphas"@ {
            if opt_word(ws, 1) == Some("clear"@) {
                r is AlphasClear
            } else {
                r matches AppCommand::Unknown(m) && m@ == "用法: alphas clear"@
            }
        } else if w0 == "fields"@ {
            if opt_word(ws, 1) == Some("sync"@) {
                r is FieldsSync
            } else if opt_word(ws, 1) == Some("stats"@) {
                r is FieldStats
            } else if opt_word(ws, 1) == Some("sample"@) {
                r matches AppCommand::FieldSample { region, universe, delay, n } && opt_view(region)
                    == opt_word(ws, 2) && opt_view(universe) == opt_word(ws, 3) && delay == opt_i32(
                    opt_word(ws, 4),
                ) && n == usize_or(opt_word(ws, 5), DEFAULT_SAMPLE_SIZE)
            } else {
                r matches AppCommand::Unknown(m) && m@
                    == "用法: fields sync | fields stats | fields sample [region] [universe] [delay] [n]"@
            }
        } else if w0 == "catch"@ {
            if ws.len() > 1 {
                r matches AppCommand::Catch { alpha_id } && alpha_id@ == ws[1]
            } else {
                r matches AppCommand::Unknown(m) && m@ == "用法: catch <alpha_id>"@
            }
        } else if w0 == "backtest"@ {
            if opt_word(ws, 1) == Some("clear"@) {
                r is BacktestsClear
            } else if ws.len() > 1 {
                r matches AppCommand::Backtest { expr } && expr@ == join_space(ws.subrange(1, ws.len() as int))
            } else {
                r matches AppCommand::Unknown(m) && m@ == "用法: backtest <expr> | backtest clear"@
            }
        } else if w0 == "generate"@ {
            if ws.len() < 2 {
                r matches AppCommand::Unknown(m) && m@ == usage_generate()
            } else if ws[1] == "stop"@ {
                r is GenerateStop
            } else if ws[1] == "loop"@ {
                let mi = model_and_index(ws, 4, provider);
                let idx = mi.1;
                r matches AppCommand::GenerateStart {
                    model,
                    batch,
                    interval_sec,
                    region,
                    universe,
                    delay,
                    sample_size,
                    auto_backtest,
                } && model@ == mi.0 && batch == usize_or(opt_word(ws, 2), 1) && interval_sec == interval_or(
                    opt_word(ws, 3),
                    DEFAULT_INTERVAL_SECS,
                ) && opt_view(region) == opt_word(ws, idx) && opt_view(universe) == opt_word(ws, idx + 1)
                    && delay == opt_i32(opt_word(ws, idx + 2)) && sample_size == usize_or(
                    opt_word(ws, idx + 3),
                    DEFAULT_SAMPLE_SIZE,
                ) && auto_backtest == flag_on(opt_word(ws, idx + 4))
            } else if ws[1] == "once"@ {
                let mi = model_and_index(ws, 3, provider);
                let idx = mi.1;
                r matches AppCommand::GenerateOnce {
                    model,
                    batch,
                    region,
                    universe,
                    delay,
                    sample_size,
                    auto_backtest,
                } && model@ == mi.0 && batch == usize_or(opt_word(ws, 2), 1) && opt_view(region) == opt_word(
                    ws,
                    idx,
                ) && opt_view(universe) == opt_word(ws, idx + 1) && delay == opt_i32(opt_word(ws, idx + 2))
                    && sample_size == usize_or(opt_word(ws, idx + 3), DEFAULT_SAMPLE_SIZE) && auto_backtest
                    == flag_on(opt_word(ws, idx + 4))
            } else {
                r matches AppCommand::Unknown(m) && m@ == "未知的 generate 子命令: "@ + ws[1]
            }
        } else if w0 == "__INTERNAL_GET_DETAIL__"@ {
            r matches AppCommand::GetDetail { expr } && expr@ == join_space(ws.subrange(1, ws.len() as int))
        } else if w0 == "help"@ || w0 == "h"@ {
            r is Help
        } else if w0 == "quit"@ || w0 == "q"@ || w0 == "exit"@ {
            r is Quit
        } else {
            r matches AppCommand::Unknown(m) && m@ == "未知命令: "@ + w0
        }
    }
}

pub open spec fn usage_generate() -> Seq<char> {
    "用法: generate loop <n> <sec> [model] [region] [universe] [delay] [sample_size] [auto_backtest] | generate once <n> [model] [region] [universe] [delay] [sample_size] [auto_backtest] | generate stop"@
}

pub open spec fn word_views(v: Seq<Vec<char>>) -> Seq<Seq<char>> {
    v.map_values(|w: Vec<char>| w@)
}

fn split_words(v: &Vec<char>) -> (r: Vec<Vec<char>>)
    ensures
        word_views(r@) == words(v@),
        forall|k: int| 0 <= k < r@.len() ==> (#[trigger] r@[k])@.len() > 0,
{
    let n = v.len();
    let mut out: Vec<Vec<char>> = Vec::new();
    let mut cur: Vec<char> = Vec::new();
    let mut i: usize = 0;
    while i < n
        invariant
            n == v@.len(),
            i <= n,
            words(v@.subrange(0, i as int)) == if cur@.len() > 0 {
                word_views(out@).push(cur@)
            } else {
                word_views(out@)
            },
            cur@.len() > 0 <==> (i > 0 && !is_white(v@[i - 1])),
            forall|k: int| 0 <= k < out@.len() ==> (#[trigger] out@[k])@.len() > 0,
        decreases n - i,
    {
        assert(v@.subrange(0, i + 1).drop_last() =~= v@.subrange(0, i as int));
        let c = v[i];
        if white(c) {
            if cur.len() > 0 {
                let done = cur;
                let ghost before = out@;
                out.push(done);
                assert(word_views(out@) =~= word_views(before).push(done@));
                cur = Vec::new();
            }
        } else {
            let ghost before = cur@;
            cur.push(c);
            proof {
                if before.len() > 0 {
                    assert(word_views(out@).push(cur@) =~= word_views(out@).push(before).update(
                        word_views(out@).len() as int,
                        before.push(c),
                    ));
                } else {
                    assert(cur@ =~= seq![c]);
                }
            }
        }
        i += 1;
    }
    assert(v@.subrange(0, n as int) =~= v@);
    if cur.len() > 0 {
        let ghost before = out@;
        out.push(cur);
        assert(word_views(out@) =~= word_views(before).push(cur@));
    }
    out
}

fn opt_word_exec(ws: &Vec<Vec<char>>, i: usize) -> (r: Option<String>)
    ensures
        opt_view(r) == opt_word(word_views(ws@), i as int),
{
    if i < ws.len() {
        Some(string_of(ws[i].as_slice()))
    } else {
        None
    }
}

fn word_is(ws: &Vec<Vec<char>>, i: usize, lit: &str) -> (r: bool)
    ensures
        r == (opt_word(word_views(ws@), i as int) == Some(lit@)),
{
    i < ws.len() && chars_eq(&ws[i], lit)
}

fn join_from(ws: &Vec<Vec<char>>, from: usize) -> (r: String)
    requires
        from <= ws@.len(),
    ensures
        r@ == join_space(word_views(ws@).subrange(from as int, ws@.len() as int)),
{
    let mut out: Vec<char> = Vec::new();
    let mut i: usize = from;
    while i < ws.len()
        invariant
            from <= i <= ws@.len(),
            out@ == join_space(word_views(ws@).subrange(from as int, i as int)),
        decreases ws@.len() - i,
    {
        let ghost sub = word_views(ws@).subrange(from as int, i + 1);
        assert(sub.drop_last() =~= word_views(ws@).subrange(from as int, i as int));
        if i > from {
            out.push(' ');
        }
        let w = &ws[i];
        let mut k: usize = 0;
        let ghost base = out@;
        while k < w.len()
            invariant
                k <= w@.len(),
                out@ == base + w@.subrange(0, k as int),
            decreases w@.len() - k,
        {
            out.push(w[k]);
            assert(out@ =~= base + w@.subrange(0, k + 1));
            k += 1;
        }
        assert(w@.subrange(0, w@.len() as int) =~= w@);
        if i == from {
            assert(out@ =~= sub[0]);
        } else {
            assert(out@ =~= join_space(sub.drop_last()) + seq![' '] + sub.last());
        }
        i += 1;
    }
    string_of(out.as_slice())
}

fn ci_equals_exec(w: &Vec<char>, lit: &Vec<char>) -> (r: bool)
    ensures
        r == ci_equals(w@, lit@),
{
    w.len() == lit.len() && ci_match_at_exec(w, 0, lit)
}

fn flag_on_exec(ws: &Vec<Vec<char>>, i: usize) -> (r: bool)
    ensures
        r == flag_on(opt_word(word_views(ws@), i as int)),
{
    if i >= ws.len() {
        return true;
    }
    let w = &ws[i];
    let a: Vec<char> = vec!['1'];
    let b: Vec<char> = vec!['t', 'r', 'u', 'e'];
    let c: Vec<char> = vec!['y', 'e', 's'];
    let d: Vec<char> = vec!['o', 'n'];
    let e: Vec<char> = vec!['b', 't'];
    let f: Vec<char> = vec!['b', 'a', 'c', 'k', 't', 'e', 's', 't'];
    assert(a@ =~= seq!['1']);
    assert(b@ =~= seq!['t', 'r', 'u', 'e']);
    assert(c@ =~= seq!['y', 'e', 's']);
    assert(d@ =~= seq!['o', 'n']);
    assert(e@ =~= seq!['b', 't']);
    assert(f@ =~= seq!['b', 'a', 'c', 'k', 't', 'e', 's', 't']);
    ci_equals_exec(w, &a) || ci_equals_exec(w, &b) || ci_equals_exec(w, &c) || ci_equals_exec(w, &d)
        || ci_equals_exec(w, &e) || ci_equals_exec(w, &f)
}

fn i32_at(ws: &Vec<Vec<char>>, i: usize) -> (r: Option<i32>)
    ensures
        r == opt_i32(opt_word(word_views(ws@), i as int)),
{
    if i < ws.len() {
        parse_i32(&ws[i])
    } else {
        None
    }
}

fn usize_at_or(ws: &Vec<Vec<char>>, i: usize, d: usize) -> (r: usize)
    ensures
        r == usize_or(opt_word(word_views(ws@), i as int), d),
{
    if i < ws.len() {
        match parse_usize(&ws[i]) {
            Some(v) => v,
            None => d,
        }
    } else {
        d
    }
}

fn interval_at_or(ws: &Vec<Vec<char>>, i: usize, d: u64) -> (r: u64)
    ensures
        r == interval_or(opt_word(word_views(ws@), i as int), d),
{
    if i < ws.len() {
        let s = string_of(ws[i].as_slice());
        match parse_interval_seconds(s.as_str()) {
            Some(v) => v,
            None => d,
        }
    } else {
        d
    }
}

fn model_at(ws: &Vec<Vec<char>>, base: usize, provider: &str) -> (r: (String, usize))
    requires
        base <= 4,
    ensures
        r.0@ == model_and_index(word_views(ws@), base as int, provider@).0,
        r.1 == model_and_index(word_views(ws@), base as int, provider@).1,
{
    if base < ws.len() && !is_region_code_chars(&ws[base]) {
        return (string_of(ws[base].as_slice()), base + 1);
    }
    let p = chars_of(provider);
    if chars_eq(&p, "cerebras") {
        ("llama-3.3-70b".to_string(), base)
    } else {
        ("deepseek/deepseek-r1".to_string(), base)
    }
}

fn tagged_word(lit: &str, w: &Vec<char>) -> (r: String)
    ensures
        r@ == lit@ + w@,
{
    let mut m = lit.to_string();
    let s = string_of(w.as_slice());
    m.append(s.as_str());
    m
}

impl AppCommand {
    /// Parses a command line. `provider` is the lower-case name of the LLM
    /// provider, which picks the default model of `generate`.
    pub fn parse(s: &str, provider: &str) -> (r: AppCommand)
        ensures
            command_spec(r, words(s@), provider@),
    {
        let v = chars_of(s);
        let ws = split_words(&v);
        let ghost wv = word_views(ws@);
        if ws.len() == 0 {
            return AppCommand::Unknown(String::new());
        }
        let w0 = &ws[0];
        if chars_eq(w0, "alpha") || chars_eq(w0, "alphas") {
            if word_is(&ws, 1, "clear") {
                return AppCommand::AlphasClear;
            }
            return AppCommand::Unknown("用法: alphas clear".to_string());
        }
        if chars_eq(w0, "fields") {
            if word_is(&ws, 1, "sync") {
                return AppCommand::FieldsSync;
            }
            if word_is(&ws, 1, "stats") {
                return AppCommand::FieldStats;
            }
            if word_is(&ws, 1, "sample") {
                return AppCommand::FieldSample {
                    region: opt_word_exec(&ws, 2),
                    universe: opt_word_exec(&ws, 3),
                    delay: i32_at(&ws, 4),
                    n: usize_at_or(&ws, 5, DEFAULT_SAMPLE_SIZE),
                };
            }
            return AppCommand::Unknown(
                "用法: fields sync | fields stats | fields sample [region] [universe] [delay] [n]".to_string(),
            );
        }
        if chars_eq(w0, "catch") {
            if ws.len() > 1 {
                return AppCommand::Catch { alpha_id: string_of(ws[1].as_slice()) };
            }
            return AppCommand::Unknown("用法: catch <alpha_id>".to_string());
        }
        if chars_eq(w0, "backtest") {
            if word_is(&ws, 1, "clear") {
                return AppCommand::BacktestsClear;
            }
            if ws.len() > 1 {
                return AppCommand::Backtest { expr: join_from(&ws, 1) };
            }
            return AppCommand::Unknown("用法: backtest <expr> | backtest clear".to_string());
        }
        if chars_eq(w0, "generate") {
            if ws.len() < 2 {
                return AppCommand::Unknown(
                    "用法: generate loop <n> <sec> [model] [region] [universe] [delay] [sample_size] [auto_backtest] | generate once <n> [model] [region] [universe] [delay] [sample_size] [auto_backtest] | generate stop".to_string(),
                );
            }
            if chars_eq(&ws[1], "stop") {
                return AppCommand::GenerateStop;
            }
            if chars_eq(&ws[1], "loop") {
                let (model, idx) = model_at(&ws, 4, provider);
                return AppCommand::GenerateStart {
                    model,
                    batch: usize_at_or(&ws, 2, 1),
                    interval_sec: interval_at_or(&ws, 3, DEFAULT_INTERVAL_SECS),
                    region: opt_word_exec(&ws, idx),
                    universe: opt_word_exec(&ws, idx + 1),
                    delay: i32_at(&ws, idx + 2),
                    sample_size: usize_at_or(&ws, idx + 3, DEFAULT_SAMPLE_SIZE),
                    auto_backtest: flag_on_exec(&ws, idx + 4),
                };
            }
            if chars_eq(&ws[1], "once") {
                let (model, idx) = model_at(&ws, 3, provider);
                return AppCommand::GenerateOnce {
                    model,
                    batch: usize_at_or(&ws, 2, 1),
                    region: opt_word_exec(&ws, idx),
                    universe: opt_word_exec(&ws, idx + 1),
                    delay: i32_at(&ws, idx + 2),
                    sample_size: usize_at_or(&ws, idx + 3, DEFAULT_SAMPLE_SIZE),
                    auto_backtest: flag_on_exec(&ws, idx + 4),
                };
            }
            return AppCommand::Unknown(tagged_word("未知的 generate 子命令: ", &ws[1]));
        }
        if chars_eq(w0, "__INTERNAL_GET_DETAIL__") {
            return AppCommand::GetDetail { expr: join_from(&ws, 1) };
        }
        if chars_eq(w0, "help") || chars_eq(w0, "h") {
            return AppCommand::Help;
        }
        if chars_eq(w0, "quit") || chars_eq(w0, "q") || chars_eq(w0, "exit") {
            return AppCommand::Quit;
        }
        AppCommand::Unknown(tagged_word("未知命令: ", w0))
    }
}

} // verus!
