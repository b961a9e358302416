use alpha_engine::parser::{paren_balanced, parse_alpha_exprs, sanitize_expression, validate_prequeue};
use alpha_engine::tokens::{extract_operators, extract_tokens};

#[test]
fn sanitize_strips_brace_spans_and_collapses_whitespace() {
    assert_eq!(sanitize_expression("ts_rank(x{a}, 5)"), "ts_rank(x, 5)");
    assert_eq!(sanitize_expression("  rank( close )\n\t{CR}  "), "rank( close )");
    assert_eq!(sanitize_expression("a{b{c}d}e"), "ad}e");
    assert_eq!(sanitize_expression("keep {unclosed"), "keep {unclosed");
    assert_eq!(sanitize_expression(""), "");
}

#[test]
fn parenthesis_law_examples() {
    assert!(paren_balanced("ts_rank(close, 20)"));
    assert!(paren_balanced("((a)(b))"));
    assert!(paren_balanced(""));
    assert!(!paren_balanced(")("));
    assert!(!paren_balanced("(()"));
    assert!(!paren_balanced("a)"));
    let cleaned = sanitize_expression("group_rank(ts_mean(x, 5){note}, industry)");
    assert!(paren_balanced(&cleaned));
}

#[test]
fn prequeue_more_cases() {
    assert_eq!(validate_prequeue("f(a) \t (b)"), Err("unexpected_right_paren".to_string()));
    assert_eq!(validate_prequeue("f(a , \n)"), Err("trailing_comma".to_string()));
    assert_eq!(validate_prequeue("WINSORIZE(x, y)"), Err("winsorize_arity".to_string()));
    assert_eq!(validate_prequeue("winsorize(x, std=4) + winsorize(y, z)"), Err("winsorize_arity".to_string()));
    assert_eq!(validate_prequeue("winsorize(f(a, b), std=4)"), Ok(()));
    assert_eq!(validate_prequeue("winsorize(x, , std=4)"), Ok(()));
    assert_eq!(validate_prequeue("winsorize()"), Err("winsorize_arity".to_string()));
    assert_eq!(validate_prequeue("winsorize(std=4)"), Err("winsorize_arity".to_string()));
    assert_eq!(validate_prequeue("rank(winsorize(x, std=4))"), Ok(()));
    assert_eq!(validate_prequeue("winsorize(winsorize(a,b), std=4)"), Err("winsorize_arity".to_string()));
    assert_eq!(validate_prequeue("winsorize(winsorize(a, std=2), std=4)"), Ok(()));
    assert_eq!(validate_prequeue("a)(b) , )"), Err("unexpected_right_paren".to_string()));
    assert_eq!(validate_prequeue("rank(close)"), Ok(()));
}

#[test]
fn parse_lines_accepts_and_rejects() {
    let text = "ALPHA_EXPR: ts_rank(close, 20)\n\nshort()\nnoparens_here\nrank((x)\nreduce_sum(x, y)\nALPHA_EXPR:group_rank(x{n}, sector)\n";
    let r = parse_alpha_exprs(text);
    assert_eq!(r.total_lines, 7);
    assert_eq!(r.exprs, vec!["ts_rank(close, 20)".to_string(), "group_rank(x, sector)".to_string()]);
    assert_eq!(
        r.rejected_examples,
        vec![
            "too_short: short()".to_string(),
            "no_parens: noparens_here".to_string(),
            "bad_parens: rank((x)".to_string(),
            "banned_op: reduce_sum(x, y)".to_string(),
        ]
    );
}

#[test]
fn parse_keeps_five_rejects() {
    let text = "a()\nb()\nc()\nd()\ne()\nf()\ng()";
    let r = parse_alpha_exprs(text);
    assert_eq!(r.total_lines, 7);
    assert!(r.exprs.is_empty());
    assert_eq!(r.rejected_examples.len(), 5);
    assert_eq!(r.rejected_examples[4], "too_short: e()");
}

#[test]
fn parse_empty_text() {
    let r = parse_alpha_exprs("");
    assert_eq!(r.total_lines, 0);
    assert!(r.exprs.is_empty());
}

#[test]
fn tokens_and_operators() {
    let e = "group_rank(ts_mean(close, 5) - open, industry)";
    assert_eq!(
        extract_tokens(e),
        vec!["group_rank", "ts_mean", "close", "5", "open", "industry"].into_iter().map(String::from).collect::<Vec<_>>()
    );
    assert_eq!(extract_operators(e), vec!["group_rank".to_string(), "ts_mean".to_string()]);
    assert_eq!(extract_operators("rank (x)"), vec!["rank".to_string()]);
    assert!(extract_tokens("(+)").is_empty());
}
