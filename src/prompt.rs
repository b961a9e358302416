use vstd::prelude::*;
use crate::text::{chars_eq, string_views};
use crate::command::ci_equals;
use crate::parser::{utf8_len, utf8_len_capped};
use crate::worker::{decimal, decimal_chars};
use crate::text::{
    chars_of, ci_match_at_exec, is_white, push_chars, push_str_chars, slice_chars, string_of, trim, trim_chars,
};
use crate::tokens::{ident_char, is_ident};

verus! {

/// One operator of the upstream catalog.
#[derive(Debug)]
pub struct OperatorInfo {
    pub name: String,
    pub category: String,
    pub op_type: Option<String>,
    pub definition: Option<String>,
    pub description: Option<String>,
    pub scope: Option<Vec<String>>,
    pub documentation: Option<String>,
    pub level: Option<String>,
}

/// The operator catalog grouped by category, categories in the order first
/// seen, each with its operators in catalog order. Category names are distinct.
#[derive(Debug)]
pub struct OperatorCatalog {
    pub by_category: Vec<(String, Vec<OperatorInfo>)>,
}

/// Builds the model prompt from the operator catalog and sampled fields.
pub struct PromptBuilder {
    pub operators: OperatorCatalog,
}

pub const MAX_OPS_PER_CATEGORY: usize = 20;
pub const MAX_HINT_LINE_BYTES: usize = 400;
pub const DESCRIPTION_CHARS: usize = 64;
pub const SIGNATURE_CHARS: usize = 48;
pub const MAX_FIELDS_LISTED: usize = 50;

pub open spec fn is_banned_spec(name: Seq<char>) -> bool {
    ci_equals(name, "reduce_ir"@) || ci_equals(name, "reduce_avg"@) || ci_equals(name, "reduce_max"@)
        || ci_equals(name, "reduce_sum"@) || ci_equals(name, "reduce_min"@)
}

/// Operators kept out of the prompt: the `reduce_*` family, in any ASCII case.
pub fn is_banned(name: &str) -> (r: bool)
    ensures
        r == is_banned_spec(name@),
{
    let v = chars_of(name);
    let a = chars_of("reduce_ir");
    let b = chars_of("reduce_avg");
    let c = chars_of("reduce_max");
    let d = chars_of("reduce_sum");
    let e = chars_of("reduce_min");
    (v.len() == a.len() && ci_match_at_exec(&v, 0, &a)) || (v.len() == b.len() && ci_match_at_exec(&v, 0, &b))
        || (v.len() == c.len() && ci_match_at_exec(&v, 0, &c)) || (v.len() == d.len() && ci_match_at_exec(
        &v,
        0,
        &d,
    )) || (v.len() == e.len() && ci_match_at_exec(&v, 0, &e))
}

pub open spec fn scope_letter(s: Seq<char>) -> Seq<char> {
    if s == "COMBO"@ {
        seq!['C']
    } else if s == "REGULAR"@ {
        seq!['R']
    } else if s == "SELECTION"@ {
        seq!['S']
    } else {
        Seq::empty()
    }
}

/// One letter per known scope: `C`ombo, `R`egular, `S`election.
pub open spec fn scope_abbr_spec(scope: Seq<Seq<char>>) -> Seq<char>
    decreases scope.len(),
{
    if scope.len() == 0 {
        Seq::empty()
    } else {
        scope_abbr_spec(scope.drop_last()) + scope_letter(scope.last())
    }
}

pub fn scope_abbr(scope: &Vec<String>) -> (r: String)
    ensures
        r@ == scope_abbr_spec(string_views(scope@)),
{
    let mut out: Vec<char> = Vec::new();
    let mut i: usize = 0;
    while i < scope.len()
        invariant
            i <= scope@.len(),
            out@ == scope_abbr_spec(string_views(scope@).subrange(0, i as int)),
        decreases scope@.len() - i,
    {
        let ghost sv = string_views(scope@);
        assert(sv.subrange(0, i + 1).drop_last() =~= sv.subrange(0, i as int));
        assert(sv.subrange(0, i + 1).last() == scope@[i as int]@);
        let v = chars_of(scope[i].as_str());
        if chars_eq(&v, "COMBO") {
            out.push('C');
            assert(out@ =~= scope_abbr_spec(sv.subrange(0, i as int)) + seq!['C']);
        } else if chars_eq(&v, "REGULAR") {
            out.push('R');
            assert(out@ =~= scope_abbr_spec(sv.subrange(0, i as int)) + seq!['R']);
        } else if chars_eq(&v, "SELECTION") {
            out.push('S');
            assert(out@ =~= scope_abbr_spec(sv.subrange(0, i as int)) + seq!['S']);
        } else {
            assert(out@ =~= scope_abbr_spec(sv.subrange(0, i as int)) + Seq::<char>::empty());
        }
        i += 1;
    }
    assert(string_views(scope@).subrange(0, scope@.len() as int) =~= string_views(scope@));
    string_of(out.as_slice())
}

pub open spec fn is_break_char(c: char) -> bool {
    c == ' ' || c == ',' || c == '；' || c == ';' || c == '。' || c == '.'
}

/// The largest index below `k` holding a break character, or `-1`.
pub open spec fn last_break_before(s: Seq<char>, k: int) -> int
    decreases k,
{
    if k <= 0 {
        -1
    } else if is_break_char(s[k - 1]) {
        k - 1
    } else {
        last_break_before(s, k - 1)
    }
}

/// `s` when it has at most `max` characters; else its first `max`
/// characters cut back to the last space or punctuation mark, trimmed.
pub open spec fn smart_truncate_spec(s: Seq<char>, max: nat) -> Seq<char> {
    if s.len() <= max {
        s
    } else {
        let p = s.subrange(0, max as int);
        let b = last_break_before(p, max as int);
        let end = if b >= 0 { b } else { max as int };
        trim(p.subrange(0, end))
    }
}

pub fn smart_truncate(s: &str, max: usize) -> (r: String)
    ensures
        r@ == smart_truncate_spec(s@, max as nat),
{
    let v = chars_of(s);
    if v.len() <= max {
        return string_of(v.as_slice());
    }
    let p = slice_chars(&v, 0, max);
    let mut k: usize = max;
    while k > 0 && !is_break_exec(p[k - 1])
        invariant
            k <= max,
            p@.len() == max,
            last_break_before(p@, k as int) == last_break_before(p@, max as int),
        decreases k,
    {
        k -= 1;
    }
    let end = if k > 0 {
        k - 1
    } else {
        max
    };
    let cut = slice_chars(&p, 0, end);
    let t = trim_chars(&cut);
    string_of(t.as_slice())
}

fn is_break_exec(c: char) -> (r: bool)
    ensures
        r == is_break_char(c),
{
    c == ' ' || c == ',' || c == '；' || c == ';' || c == '。' || c == '.'
}

/// Length of the identifier run `[A-Za-z0-9_]*` of `s` starting at `k`.
pub open spec fn ident_run_end(s: Seq<char>, k: int) -> int
    decreases s.len() - k,
{
    if k < 0 || k >= s.len() || !is_ident(s[k]) {
        k
    } else {
        ident_run_end(s, k + 1)
    }
}

/// Index of the first `)` at or after `k`, or `s.len()`.
pub open spec fn close_paren_from(s: Seq<char>, k: int) -> int
    decreases s.len() - k,
{
    if k < 0 || k >= s.len() || s[k] == ')' {
        k
    } else {
        close_paren_from(s, k + 1)
    }
}

/// Index of the first non-white character at or after `k`, or `s.len()`.
pub open spec fn skip_white(s: Seq<char>, k: int) -> int
    decreases s.len() - k,
{
    if k < 0 || k >= s.len() || !is_white(s[k]) {
        k
    } else {
        skip_white(s, k + 1)
    }
}

pub open spec fn is_ident_start(c: char) -> bool {
    ('a' <= c && c <= 'z') || ('A' <= c && c <= 'Z') || c == '_'
}

/// What `^\s*([A-Za-z_][A-Za-z0-9_]*)\s*\(([^)]*)\)` captures as its second
/// group in `def`: the argument text of a leading call, when there is one.
pub open spec fn sig_args_spec(def: Seq<char>) -> Option<Seq<char>> {
    let a = skip_white(def, 0);
    if a < def.len() && is_ident_start(def[a]) {
        let b = ident_run_end(def, a + 1);
        let c = skip_white(def, b);
        if c < def.len() && def[c] == '(' {
            let d = close_paren_from(def, c + 1);
            if d < def.len() {
                Some(def.subrange(c + 1, d))
            } else {
                None
            }
        } else {
            None
        }
    } else {
        None
    }
}

/// `s` with each `filter=NAME` (NAME a non-empty `[A-Za-z0-9_]` run) replaced
/// by `filter`, leftmost first, as `Regex::replace_all` does.
pub open spec fn filter_spec(s: Seq<char>) -> Seq<char>
    decreases s.len(),
{
    if s.len() == 0 {
        s
    } else if s.len() > 7 && s.subrange(0, 7) == "filter="@ && is_ident(s[7]) {
        let e = ident_run_end(s, 7);
        if 7 < e <= s.len() {
            "filter"@ + filter_spec(s.subrange(e, s.len() as int))
        } else {
            s
        }
    } else {
        seq![s[0]] + filter_spec(s.drop_first())
    }
}

/// Relies on `regex::Regex::captures` with the pattern
/// `^\s*([A-Za-z_][A-Za-z0-9_]*)\s*\(([^)]*)\)`: its second group.
#[verifier::external_body]
fn signature_args(def: &str) -> (r: Option<String>)
    ensures
        match r {
            Some(a) => sig_args_spec(def@) == Some(a@),
            None => sig_args_spec(def@) is None,
        },
{
    let re = regex::Regex::new(r"^\s*([A-Za-z_][A-Za-z0-9_]*)\s*\(([^)]*)\)").unwrap();
    let caps = re.captures(def)?;
    Some(caps.get(2)?.as_str().to_string())
}

/// Relies on `regex::Regex::replace_all` with the pattern
/// `filter=([A-Za-z0-9_]+)` and the literal replacement `filter`.
#[verifier::external_body]
fn shorten_filters(s: &str) -> (r: String)
    ensures
        r@ == filter_spec(s@),
{
    let re = regex::Regex::new(r"filter=([A-Za-z0-9_]+)").unwrap();
    re.replace_all(s, "filter").into_owned()
}

/// `s` without its `' '` characters.
pub open spec fn remove_spaces(s: Seq<char>) -> Seq<char>
    decreases s.len(),
{
    if s.len() == 0 {
        s
    } else if s.last() == ' ' {
        remove_spaces(s.drop_last())
    } else {
        remove_spaces(s.drop_last()).push(s.last())
    }
}

/// The compact signature shown for an operator definition.
pub open spec fn compact_signature_spec(def: Seq<char>) -> Seq<char> {
    match sig_args_spec(def) {
        Some(a) => filter_spec(remove_spaces(a)),
        None => smart_truncate_spec(def, SIGNATURE_CHARS as nat),
    }
}

pub fn compact_signature(def: &str) -> (r: String)
    ensures
        r@ == compact_signature_spec(def@),
{
    match signature_args(def) {
        Some(a) => {
            let v = chars_of(a.as_str());
            let mut out: Vec<char> = Vec::new();
            let mut i: usize = 0;
            while i < v.len()
                invariant
                    i <= v@.len(),
                    out@ == remove_spaces(v@.subrange(0, i as int)),
                decreases v@.len() - i,
            {
                assert(v@.subrange(0, i + 1).drop_last() =~= v@.subrange(0, i as int));
                if v[i] != ' ' {
                    out.push(v[i]);
                }
                i += 1;
            }
            assert(v@.subrange(0, v@.len() as int) =~= v@);
            let compact = string_of(out.as_slice());
            shorten_filters(compact.as_str())
        },
        None => smart_truncate(def, SIGNATURE_CHARS),
    }
}

pub open spec fn sig_of(op: OperatorInfo) -> Seq<char> {
    match op.definition {
        Some(d) => compact_signature_spec(d@),
        None => match op.op_type {
            Some(t) => t@,
            None => Seq::empty(),
        },
    }
}

/// The hint for one operator: `name(sig){scope}[level]: short description`,
/// each part present only when it has content.
pub open spec fn item_spec(op: OperatorInfo) -> Seq<char> {
    let sig = sig_of(op);
    let s2 = if sig.len() > 0 { op.name@ + "("@ + sig + ")"@ } else { op.name@ };
    let s3 = match op.scope {
        Some(sc) => if scope_abbr_spec(string_views(sc@)).len() > 0 {
            s2 + "{"@ + scope_abbr_spec(string_views(sc@)) + "}"@
        } else {
            s2
        },
        None => s2,
    };
    let s4 = match op.level {
        Some(l) => if l@.len() > 0 && l@ != "ALL"@ { s3 + "["@ + l@ + "]"@ } else { s3 },
        None => s3,
    };
    match op.description {
        Some(d) => if smart_truncate_spec(d@, DESCRIPTION_CHARS as nat).len() > 0 {
            s4 + ": "@ + smart_truncate_spec(d@, DESCRIPTION_CHARS as nat)
        } else {
            s4
        },
        None => s4,
    }
}

/// The hint line of a category from its `k`-th operator on: banned
/// operators are skipped, items are separated by ` | `, and the line stops
/// before an item that, with its separator, would take it past 400 bytes.
pub open spec fn line_from(ops: Seq<OperatorInfo>, k: int, line: Seq<char>, first: bool) -> Seq<char>
    decreases MAX_OPS_PER_CATEGORY - k,
{
    if k < 0 || k >= ops.len() || k >= MAX_OPS_PER_CATEGORY {
        line
    } else if is_banned_spec(ops[k].name@) {
        line_from(ops, k + 1, line, first)
    } else {
        let piece = if first { item_spec(ops[k]) } else { " | "@ + item_spec(ops[k]) };
        if utf8_len(line) + utf8_len(piece) > MAX_HINT_LINE_BYTES {
            line
        } else {
            line_from(ops, k + 1, line + piece, false)
        }
    }
}

proof fn lemma_utf8_len_concat(a: Seq<char>, b: Seq<char>)
    ensures
        utf8_len(a + b) == utf8_len(a) + utf8_len(b),
    decreases b.len(),
{
    if b.len() > 0 {
        lemma_utf8_len_concat(a, b.drop_last());
        assert((a + b).drop_last() =~= a + b.drop_last());
    } else {
        assert(a + b =~= a);
    }
}

/// A hint line that starts within 400 bytes stays within 400 bytes.
pub proof fn lemma_hint_line_bound(ops: Seq<OperatorInfo>, k: int, line: Seq<char>, first: bool)
    requires
        utf8_len(line) <= MAX_HINT_LINE_BYTES,
    ensures
        utf8_len(line_from(ops, k, line, first)) <= MAX_HINT_LINE_BYTES,
    decreases MAX_OPS_PER_CATEGORY - k,
{
    if k < 0 || k >= ops.len() || k >= MAX_OPS_PER_CATEGORY {
    } else if is_banned_spec(ops[k].name@) {
        lemma_hint_line_bound(ops, k + 1, line, first);
    } else {
        let piece = if first { item_spec(ops[k]) } else { " | "@ + item_spec(ops[k]) };
        if utf8_len(line) + utf8_len(piece) <= MAX_HINT_LINE_BYTES {
            lemma_utf8_len_concat(line, piece);
            lemma_hint_line_bound(ops, k + 1, line + piece, false);
        }
    }
}

pub open spec fn category_line(cat: Seq<char>, ops: Seq<OperatorInfo>) -> Seq<char> {
    line_from(ops, 0, cat + ": "@, true)
}

pub open spec fn category_lines(cats: Seq<(String, Vec<OperatorInfo>)>) -> Seq<Seq<char>>
    decreases cats.len(),
{
    if cats.len() == 0 {
        Seq::empty()
    } else {
        category_lines(cats.drop_last()).push(category_line(cats.last().0@, cats.last().1@))
    }
}

pub open spec fn operator_section(cats: Seq<(String, Vec<OperatorInfo>)>) -> Seq<Seq<char>> {
    if cats.len() == 0 {
        Seq::empty()
    } else {
        seq!["Operators (compact hints):"@] + category_lines(cats) + seq![Seq::<char>::empty()]
    }
}

/// The lines joined with `\n`.
pub open spec fn join_nl(ls: Seq<Seq<char>>) -> Seq<char>
    decreases ls.len(),
{
    if ls.len() == 0 {
        Seq::empty()
    } else if ls.len() == 1 {
        ls[0]
    } else {
        join_nl(ls.drop_last()) + seq!['\n'] + ls.last()
    }
}

/// The ids joined with `, `.
pub open spec fn join_comma(ls: Seq<Seq<char>>) -> Seq<char>
    decreases ls.len(),
{
    if ls.len() == 0 {
        Seq::empty()
    } else if ls.len() == 1 {
        ls[0]
    } else {
        join_comma(ls.drop_last()) + ", "@ + ls.last()
    }
}

pub open spec fn first_n(ls: Seq<Seq<char>>, n: nat) -> Seq<Seq<char>> {
    if ls.len() <= n { ls } else { ls.subrange(0, n as int) }
}

/// Decimal text of a signed integer.
pub open spec fn idecimal(x: int) -> Seq<char> {
    if x < 0 { "-"@ + decimal((-x) as nat) } else { decimal(x as nat) }
}

pub open spec fn gen_line(n: nat) -> Seq<char> {
    "Generate "@ + decimal(n) + " unique alpha factor expressions for WorldQuant BRAIN FASTEXPR."@
}

pub open spec fn header_lines() -> Seq<Seq<char>> {
    seq!["Return ONLY the expressions, one per line."@, "Each line MUST start with 'ALPHA_EXPR:' followed by the expression."@, "No markdown, no explanations."@, "Do NOT include any curly braces {} or annotations."@, "Do NOT append trailing markers like {CR}, {…}, comments or metadata."@, ""@]
}

pub open spec fn build_examples() -> Seq<Seq<char>> {
    seq!["Example format (use placeholders; do NOT reuse placeholders as real fields):"@, "ALPHA_EXPR:ts_rank([FIELD], 20)"@, "ALPHA_EXPR:group_zscore(ts_mean([FIELD], 10), [GROUP_FIELD])"@, ""@]
}

pub open spec fn group_examples() -> Seq<Seq<char>> {
    seq!["Example format (use provided fields; avoid placeholders):"@, "ALPHA_EXPR:ts_rank(FIELD_ID_HERE, 20)"@, "ALPHA_EXPR:group_zscore(ts_mean(FIELD_ID_HERE, 10), GROUP_FIELD_ID)"@, ""@]
}

pub open spec fn guideline_lines() -> Seq<Seq<char>> {
    seq!["STRICT COMPLEXITY GUIDELINES:"@, "1. 每个表达式必须至少使用 3 个运算符，且覆盖≥2类（如 ts_* + group_* + arithmetic/logical）。"@, "2. 每个表达式必须引用≥2个不同的数据字段（不要只用同一个字段）。"@, "3. 至少包含一个时间序列运算符（ts_*）并提供正整数lookback，以及一个分组运算符（group_*）。"@, "4. 优先使用嵌套组合：例如 group_neutralize(ts_rank(FIELD_ID, 30) - ts_mean(OTHER_FIELD_ID, 20), GROUP_FIELD)。"@, "5. 避免简单形式（单一运算符、统一的极小lookback如1、或重复相同模板）。"@, "6. 尽量混合使用低频字段以提升多样性。"@]
}

pub open spec fn opt_text(o: Option<Seq<char>>) -> Seq<char> {
    match o {
        Some(x) => x,
        None => "N/A"@,
    }
}

/// The scope line, present when any part of the scope is given.
pub open spec fn context_lines(r: Option<Seq<char>>, u: Option<Seq<char>>, d: Option<i32>) -> Seq<Seq<char>> {
    if r is Some || u is Some || d is Some {
        seq![
            "Context: region="@ + opt_text(r) + ", universe="@ + opt_text(u) + ", delay="@ + match d {
                Some(x) => idecimal(x as int),
                None => "N/A"@,
            },
        ]
    } else {
        Seq::empty()
    }
}

/// The sampled field ids, at most 50 of each kind.
pub open spec fn field_lines(ne: Seq<Seq<char>>, ev: Seq<Seq<char>>) -> Seq<Seq<char>> {
    if ne.len() == 0 && ev.len() == 0 {
        Seq::empty()
    } else {
        seq!["Available Fields sample (use real field IDs below):"@] + (if ne.len() > 0 {
            seq!["NON_EVENT: ("@ + join_comma(first_n(ne, MAX_FIELDS_LISTED as nat)) + ")"@]
        } else {
            Seq::empty()
        }) + (if ev.len() > 0 {
            seq!["EVENT: ("@ + join_comma(first_n(ev, MAX_FIELDS_LISTED as nat)) + ")"@]
        } else {
            Seq::empty()
        }) + seq![Seq::<char>::empty()]
    }
}

pub open spec fn opt_sv(o: Option<&str>) -> Option<Seq<char>> {
    match o {
        Some(x) => Some(x@),
        None => None,
    }
}

fn opt_item(op: &OperatorInfo) -> (r: Vec<char>)
    ensures
        r@ == item_spec(*op),
{
    let mut out = chars_of(op.name.as_str());
    let sig: String = match &op.definition {
        Some(d) => compact_signature(d.as_str()),
        None => match &op.op_type {
            Some(t) => t.clone(),
            None => String::new(),
        },
    };
    let sigv = chars_of(sig.as_str());
    if sigv.len() > 0 {
        push_str_chars(&mut out, "(");
        push_chars(&mut out, &sigv);
        push_str_chars(&mut out, ")");
    }
    match &op.scope {
        Some(sc) => {
            let ab = scope_abbr(sc);
            let abv = chars_of(ab.as_str());
            if abv.len() > 0 {
                push_str_chars(&mut out, "{");
                push_chars(&mut out, &abv);
                push_str_chars(&mut out, "}");
            }
        },
        None => {},
    }
    match &op.level {
        Some(l) => {
            let lv = chars_of(l.as_str());
            if lv.len() > 0 && !chars_eq(&lv, "ALL") {
                push_str_chars(&mut out, "[");
                push_chars(&mut out, &lv);
                push_str_chars(&mut out, "]");
            }
        },
        None => {},
    }
    match &op.description {
        Some(d) => {
            let sh = smart_truncate(d.as_str(), DESCRIPTION_CHARS);
            let shv = chars_of(sh.as_str());
            if shv.len() > 0 {
                push_str_chars(&mut out, ": ");
                push_chars(&mut out, &shv);
            }
        },
        None => {},
    }
    out
}

fn category_line_exec(cat: &String, ops: &Vec<OperatorInfo>) -> (r: String)
    ensures
        r@ == category_line(cat@, ops@),
{
    let mut line = chars_of(cat.as_str());
    push_str_chars(&mut line, ": ");
    let mut first = true;
    let mut k: usize = 0;
    while k < ops.len() && k < MAX_OPS_PER_CATEGORY
        invariant
            k <= MAX_OPS_PER_CATEGORY,
            line_from(ops@, k as int, line@, first) == category_line(cat@, ops@),
        decreases MAX_OPS_PER_CATEGORY - k,
    {
        if is_banned(ops[k].name.as_str()) {
            k += 1;
        } else {
            let item = opt_item(&ops[k]);
            let mut piece: Vec<char> = Vec::new();
            if !first {
                push_str_chars(&mut piece, " | ");
            }
            push_chars(&mut piece, &item);
            let a = utf8_len_capped(&line, MAX_HINT_LINE_BYTES);
            let b = utf8_len_capped(&piece, MAX_HINT_LINE_BYTES);
            if a + b > MAX_HINT_LINE_BYTES {
                return string_of(line.as_slice());
            }
            push_chars(&mut line, &piece);
            first = false;
            k += 1;
        }
    }
    string_of(line.as_slice())
}

fn join_lines(ls: &Vec<String>) -> (r: String)
    ensures
        r@ == join_nl(string_views(ls@)),
{
    let mut out: Vec<char> = Vec::new();
    let mut i: usize = 0;
    while i < ls.len()
        invariant
            i <= ls@.len(),
            out@ == join_nl(string_views(ls@).subrange(0, i as int)),
        decreases ls@.len() - i,
    {
        let ghost sub = string_views(ls@).subrange(0, i + 1);
        assert(sub.drop_last() =~= string_views(ls@).subrange(0, i as int));
        if i > 0 {
            out.push('\n');
        }
        push_str_chars(&mut out, ls[i].as_str());
        if i == 0 {
            assert(out@ =~= sub[0]);
        } else {
            assert(out@ =~= join_nl(sub.drop_last()) + seq!['\n'] + sub.last());
        }
        i += 1;
    }
    assert(string_views(ls@).subrange(0, ls@.len() as int) =~= string_views(ls@));
    string_of(out.as_slice())
}

fn join_ids(ids: &Vec<String>) -> (r: String)
    ensures
        r@ == join_comma(first_n(string_views(ids@), MAX_FIELDS_LISTED as nat)),
{
    let lim = if ids.len() < MAX_FIELDS_LISTED {
        ids.len()
    } else {
        MAX_FIELDS_LISTED
    };
    let ghost src = first_n(string_views(ids@), MAX_FIELDS_LISTED as nat);
    assert(src =~= string_views(ids@).subrange(0, lim as int));
    let mut out: Vec<char> = Vec::new();
    let mut i: usize = 0;
    while i < lim
        invariant
            i <= lim <= ids@.len(),
            src == string_views(ids@).subrange(0, lim as int),
            out@ == join_comma(src.subrange(0, i as int)),
        decreases lim - i,
    {
        let ghost sub = src.subrange(0, i + 1);
        assert(sub.drop_last() =~= src.subrange(0, i as int));
        if i > 0 {
            push_str_chars(&mut out, ", ");
        }
        push_str_chars(&mut out, ids[i].as_str());
        if i == 0 {
            assert(out@ =~= sub[0]);
        } else {
            assert(out@ =~= join_comma(sub.drop_last()) + ", "@ + sub.last());
        }
        i += 1;
    }
    assert(src.subrange(0, lim as int) =~= src);
    string_of(out.as_slice())
}

pub(crate) fn idecimal_string(x: i32) -> (r: String)
    ensures
        r@ == idecimal(x as int),
{
    if x < 0 {
        let mag: u64 = (0 - (x as i64)) as u64;
        let d = decimal_chars(mag);
        let mut out = chars_of("-");
        push_chars(&mut out, &d);
        string_of(out.as_slice())
    } else {
        let d = decimal_chars(x as u64);
        string_of(d.as_slice())
    }
}

impl PromptBuilder {
    pub fn new(operators: OperatorCatalog) -> (r: Self)
        ensures
            r.operators == operators,
    {
        PromptBuilder { operators }
    }

    fn push_operator_section(&self, lines: &mut Vec<String>)
        ensures
            string_views(final(lines)@) == string_views(old(lines)@) + operator_section(self.operators.by_category@),
    {
        let cats = &self.operators.by_category;
        if cats.len() == 0 {
            assert(string_views(lines@) =~= string_views(lines@) + operator_section(cats@));
            return;
        }
        let ghost base = string_views(lines@);
        lines.push("Operators (compact hints):".to_string());
        let mut i: usize = 0;
        while i < cats.len()
            invariant
                i <= cats@.len(),
                string_views(lines@) == base + seq!["Operators (compact hints):"@] + category_lines(cats@.subrange(0, i as int)),
            decreases cats@.len() - i,
        {
            assert(cats@.subrange(0, i + 1).drop_last() =~= cats@.subrange(0, i as int));
            let l = category_line_exec(&cats[i].0, &cats[i].1);
            let ghost before = lines@;
            lines.push(l);
            assert(string_views(lines@) =~= string_views(before).push(l@));
            i += 1;
        }
        assert(cats@.subrange(0, cats@.len() as int) =~= cats@);
        let ghost before = lines@;
        lines.push(String::new());
        assert(string_views(lines@) =~= string_views(before).push(Seq::<char>::empty()));
        assert(string_views(lines@) =~= base + operator_section(cats@));
    }

    /// The prompt without field samples: task header, placeholder examples,
    /// operator hints and complexity guidelines.
    pub fn build(&self, n: usize) -> (r: String)
        ensures
            r@ == join_nl(
                seq![gen_line(n as nat)] + header_lines() + build_examples() + operator_section(self.operators.by_category@)
                    + guideline_lines(),
            ),
    {
        let mut lines: Vec<String> = Vec::new();
        lines.push(gen_line_string(n));
        lines.push("Return ONLY the expressions, one per line.".to_string());
        lines.push("Each line MUST start with 'ALPHA_EXPR:' followed by the expression.".to_string());
        lines.push("No markdown, no explanations.".to_string());
        lines.push("Do NOT include any curly braces {} or annotations.".to_string());
        lines.push("Do NOT append trailing markers like {CR}, {…}, comments or metadata.".to_string());
        lines.push("".to_string());
        lines.push("Example format (use placeholders; do NOT reuse placeholders as real fields):".to_string());
        lines.push("ALPHA_EXPR:ts_rank([FIELD], 20)".to_string());
        lines.push("ALPHA_EXPR:group_zscore(ts_mean([FIELD], 10), [GROUP_FIELD])".to_string());
        lines.push("".to_string());
        assert(string_views(lines@) =~= seq![gen_line(n as nat)] + header_lines() + build_examples());
        self.push_operator_section(&mut lines);
        let ghost mid = string_views(lines@);
        lines.push("STRICT COMPLEXITY GUIDELINES:".to_string());
        lines.push("1. 每个表达式必须至少使用 3 个运算符，且覆盖≥2类（如 ts_* + group_* + arithmetic/logical）。".to_string());
        lines.push("2. 每个表达式必须引用≥2个不同的数据字段（不要只用同一个字段）。".to_string());
        lines.push("3. 至少包含一个时间序列运算符（ts_*）并提供正整数lookback，以及一个分组运算符（group_*）。".to_string());
        lines.push("4. 优先使用嵌套组合：例如 group_neutralize(ts_rank(FIELD_ID, 30) - ts_mean(OTHER_FIELD_ID, 20), GROUP_FIELD)。".to_string());
        lines.push("5. 避免简单形式（单一运算符、统一的极小lookback如1、或重复相同模板）。".to_string());
        lines.push("6. 尽量混合使用低频字段以提升多样性。".to_string());
        assert(string_views(lines@) =~= mid + guideline_lines());
        join_lines(&lines)
    }

    /// `build_with_field_groups` with every field listed as non-event.
    pub fn build_with_fields(&self, n: usize, fields: &Vec<String>, region: Option<&str>, universe: Option<&str>, delay: Option<i32>) -> (r: String)
        ensures
            r@ == join_nl(
                seq![gen_line(n as nat)] + header_lines() + context_lines(opt_sv(region), opt_sv(universe), delay)
                    + field_lines(string_views(fields@), Seq::empty()) + group_examples() + operator_section(self.operators.by_category@)
                    + guideline_lines(),
            ),
    {
        let none: Vec<String> = Vec::new();
        assert(string_views(none@) =~= Seq::<Seq<char>>::empty());
        self.build_with_field_groups(n, fields, &none, region, universe, delay)
    }

    /// The prompt with the scope, the sampled non-event and event fields, the
    /// operator hints and the complexity guidelines.
    pub fn build_with_field_groups(
        &self,
        n: usize,
        non_event_fields: &Vec<String>,
        event_fields: &Vec<String>,
        region: Option<&str>,
        universe: Option<&str>,
        delay: Option<i32>,
    ) -> (r: String)
        ensures
            r@ == join_nl(
                seq![gen_line(n as nat)] + header_lines() + context_lines(opt_sv(region), opt_sv(universe), delay)
                    + field_lines(string_views(non_event_fields@), string_views(event_fields@)) + group_examples()
                    + operator_section(self.operators.by_category@) + guideline_lines(),
            ),
    {
        let mut lines: Vec<String> = Vec::new();
        lines.push(gen_line_string(n));
        lines.push("Return ONLY the expressions, one per line.".to_string());
        lines.push("Each line MUST start with 'ALPHA_EXPR:' followed by the expression.".to_string());
        lines.push("No markdown, no explanations.".to_string());
        lines.push("Do NOT include any curly braces {} or annotations.".to_string());
        lines.push("Do NOT append trailing markers like {CR}, {…}, comments or metadata.".to_string());
        lines.push("".to_string());
        let ghost l0 = string_views(lines@);
        assert(l0 =~= seq![gen_line(n as nat)] + header_lines());
        if region.is_some() || universe.is_some() || delay.is_some() {
            let mut c = chars_of("Context: region=");
            match region {
                Some(x) => push_str_chars(&mut c, x),
                None => push_str_chars(&mut c, "N/A"),
            }
            push_str_chars(&mut c, ", universe=");
            match universe {
                Some(x) => push_str_chars(&mut c, x),
                None => push_str_chars(&mut c, "N/A"),
            }
            push_str_chars(&mut c, ", delay=");
            match delay {
                Some(x) => {
                    let d = idecimal_string(x);
                    push_str_chars(&mut c, d.as_str());
                },
                None => push_str_chars(&mut c, "N/A"),
            }
            let cs = string_of(c.as_slice());
            lines.push(cs);
        }
        let ghost l1 = string_views(lines@);
        assert(l1 =~= l0 + context_lines(opt_sv(region), opt_sv(universe), delay));
        if non_event_fields.len() > 0 || event_fields.len() > 0 {
            lines.push("Available Fields sample (use real field IDs below):".to_string());
            if non_event_fields.len() > 0 {
                let mut c = chars_of("NON_EVENT: (");
                let j = join_ids(non_event_fields);
                push_str_chars(&mut c, j.as_str());
                push_str_chars(&mut c, ")");
                lines.push(string_of(c.as_slice()));
            }
            if event_fields.len() > 0 {
                let mut c = chars_of("EVENT: (");
                let j = join_ids(event_fields);
                push_str_chars(&mut c, j.as_str());
                push_str_chars(&mut c, ")");
                lines.push(string_of(c.as_slice()));
            }
            lines.push(String::new());
        }
        let ghost l2 = string_views(lines@);
        assert(l2 =~= l1 + field_lines(string_views(non_event_fields@), string_views(event_fields@)));
        lines.push("Example format (use provided fields; avoid placeholders):".to_string());
        lines.push("ALPHA_EXPR:ts_rank(FIELD_ID_HERE, 20)".to_string());
        lines.push("ALPHA_EXPR:group_zscore(ts_mean(FIELD_ID_HERE, 10), GROUP_FIELD_ID)".to_string());
        lines.push("".to_string());
        assert(string_views(lines@) =~= l2 + group_examples());
        self.push_operator_section(&mut lines);
        let ghost l3 = string_views(lines@);
        lines.push("STRICT COMPLEXITY GUIDELINES:".to_string());
        lines.push("1. 每个表达式必须至少使用 3 个运算符，且覆盖≥2类（如 ts_* + group_* + arithmetic/logical）。".to_string());
        lines.push("2. 每个表达式必须引用≥2个不同的数据字段（不要只用同一个字段）。".to_string());
        lines.push("3. 至少包含一个时间序列运算符（ts_*）并提供正整数lookback，以及一个分组运算符（group_*）。".to_string());
        lines.push("4. 优先使用嵌套组合：例如 group_neutralize(ts_rank(FIELD_ID, 30) - ts_mean(OTHER_FIELD_ID, 20), GROUP_FIELD)。".to_string());
        lines.push("5. 避免简单形式（单一运算符、统一的极小lookback如1、或重复相同模板）。".to_string());
        lines.push("6. 尽量混合使用低频字段以提升多样性。".to_string());
        assert(string_views(lines@) =~= l3 + guideline_lines());
        join_lines(&lines)
    }
}

fn gen_line_string(n: usize) -> (r: String)
    ensures
        r@ == gen_line(n as nat),
{
    let mut c = chars_of("Generate ");
    let d = decimal_chars(n as u64);
    push_chars(&mut c, &d);
    push_str_chars(&mut c, " unique alpha factor expressions for WorldQuant BRAIN FASTEXPR.");
    string_of(c.as_slice())
}

} // verus!
