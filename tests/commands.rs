use alpha_engine::command::{is_region_code, parse_interval_seconds, AppCommand};

#[test]
fn interval_parsing() {
    assert_eq!(parse_interval_seconds("90"), Some(90));
    assert_eq!(parse_interval_seconds(" 30s "), Some(30));
    assert_eq!(parse_interval_seconds("5min"), Some(300));
    assert_eq!(parse_interval_seconds("10MINS"), Some(600));
    assert_eq!(parse_interval_seconds("2h"), Some(7200));
    assert_eq!(parse_interval_seconds("3 hours"), Some(10800));
    assert_eq!(parse_interval_seconds("1m"), Some(60));
    assert_eq!(parse_interval_seconds(""), None);
    assert_eq!(parse_interval_seconds("abc"), None);
    assert_eq!(parse_interval_seconds("18446744073709551615h"), None);
}

#[test]
fn region_codes() {
    assert!(is_region_code("USA"));
    assert!(!is_region_code("usa"));
    assert!(!is_region_code("US"));
    assert!(!is_region_code("deepseek/r1"));
}

#[test]
fn parse_backtest_commands() {
    match AppCommand::parse("backtest  rank(close)   +  1", "openrouter") {
        AppCommand::Backtest { expr } => assert_eq!(expr, "rank(close) + 1"),
        other => panic!("{:?}", other),
    }
    assert!(matches!(AppCommand::parse("backtest clear", "openrouter"), AppCommand::BacktestsClear));
    assert!(matches!(AppCommand::parse("alphas clear", "openrouter"), AppCommand::AlphasClear));
    match AppCommand::parse("backtest", "openrouter") {
        AppCommand::Unknown(m) => assert_eq!(m, "用法: backtest <expr> | backtest clear"),
        other => panic!("{:?}", other),
    }
}

#[test]
fn parse_generate_once_with_region_first() {
    match AppCommand::parse("generate once 4 USA TOP3000 1 100 no", "cerebras") {
        AppCommand::GenerateOnce { model, batch, region, universe, delay, sample_size, auto_backtest } => {
            assert_eq!(model, "llama-3.3-70b");
            assert_eq!(batch, 4);
            assert_eq!(region.as_deref(), Some("USA"));
            assert_eq!(universe.as_deref(), Some("TOP3000"));
            assert_eq!(delay, Some(1));
            assert_eq!(sample_size, 100);
            assert!(!auto_backtest);
        },
        other => panic!("{:?}", other),
    }
}

#[test]
fn parse_generate_loop_with_model() {
    match AppCommand::parse("generate loop 2 5m my/model CHN", "openrouter") {
        AppCommand::GenerateStart { model, batch, interval_sec, region, universe, delay, sample_size, auto_backtest } => {
            assert_eq!(model, "my/model");
            assert_eq!(batch, 2);
            assert_eq!(interval_sec, 300);
            assert_eq!(region.as_deref(), Some("CHN"));
            assert_eq!(universe, None);
            assert_eq!(delay, None);
            assert_eq!(sample_size, 300);
            assert!(auto_backtest);
        },
        other => panic!("{:?}", other),
    }
    match AppCommand::parse("generate loop x", "openrouter") {
        AppCommand::GenerateStart { model, batch, interval_sec, .. } => {
            assert_eq!(model, "deepseek/deepseek-r1");
            assert_eq!(batch, 1);
            assert_eq!(interval_sec, 5);
        },
        other => panic!("{:?}", other),
    }
}

#[test]
fn parse_misc_commands() {
    assert!(matches!(AppCommand::parse("generate stop", "openrouter"), AppCommand::GenerateStop));
    assert!(matches!(AppCommand::parse("help", "x"), AppCommand::Help));
    assert!(matches!(AppCommand::parse("q", "x"), AppCommand::Quit));
    assert!(matches!(AppCommand::parse("fields sync", "x"), AppCommand::FieldsSync));
    assert!(matches!(AppCommand::parse("fields stats", "x"), AppCommand::FieldStats));
    match AppCommand::parse("fields sample USA TOP3000 -1 x", "x") {
        AppCommand::FieldSample { region, universe, delay, n } => {
            assert_eq!(region.as_deref(), Some("USA"));
            assert_eq!(universe.as_deref(), Some("TOP3000"));
            assert_eq!(delay, Some(-1));
            assert_eq!(n, 300);
        },
        other => panic!("{:?}", other),
    }
    match AppCommand::parse("catch abc", "x") {
        AppCommand::Catch { alpha_id } => assert_eq!(alpha_id, "abc"),
        other => panic!("{:?}", other),
    }
    match AppCommand::parse("frobnicate", "x") {
        AppCommand::Unknown(m) => assert_eq!(m, "未知命令: frobnicate"),
        other => panic!("{:?}", other),
    }
    match AppCommand::parse("generate twice", "x") {
        AppCommand::Unknown(m) => assert_eq!(m, "未知的 generate 子命令: twice"),
        other => panic!("{:?}", other),
    }
    match AppCommand::parse("   ", "x") {
        AppCommand::Unknown(m) => assert_eq!(m, ""),
        other => panic!("{:?}", other),
    }
}
