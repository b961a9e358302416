use alpha_engine::alpha::AlphaStatus;
use alpha_engine::context::{EmptyContextProvider, FieldCatalog, GenerateContextProvider};
use alpha_engine::fields::{DataFieldRepository, EventOpValidationErr, FieldEntry, OperatorCompatRepository};
use alpha_engine::generate::{dedup_truncate, process_generated, GenerateConfig};
use alpha_engine::job::JobStatus;
use alpha_engine::prompt::{compact_signature, is_banned, scope_abbr, smart_truncate, OperatorCatalog, OperatorInfo, PromptBuilder};
use alpha_engine::store::JobStore;

fn entry(id: &str, region: &str, universe: &str, delay: i32) -> FieldEntry {
    FieldEntry {
        field_id: id.to_string(),
        description: String::new(),
        dataset_id: String::new(),
        dataset_name: String::new(),
        category_id: String::new(),
        category_name: String::new(),
        subcategory_id: String::new(),
        subcategory_name: String::new(),
        region: region.to_string(),
        delay,
        universe: universe.to_string(),
        field_type: String::new(),
    }
}

fn op(name: &str, def: Option<&str>, desc: Option<&str>, scope: Option<Vec<&str>>, level: Option<&str>) -> OperatorInfo {
    OperatorInfo {
        name: name.to_string(),
        category: "Time Series".to_string(),
        op_type: None,
        definition: def.map(|d| d.to_string()),
        description: desc.map(|d| d.to_string()),
        scope: scope.map(|v| v.into_iter().map(String::from).collect()),
        documentation: None,
        level: level.map(|l| l.to_string()),
    }
}

fn config(auto: bool) -> GenerateConfig {
    GenerateConfig {
        batch_size: 5,
        max_insert: 10,
        model: "m".to_string(),
        interval_sec: 5,
        region: Some("USA".to_string()),
        universe: Some("TOP3000".to_string()),
        delay: Some(1),
        field_sample_size: 300,
        auto_backtest: auto,
    }
}

#[test]
fn prompt_helpers() {
    assert!(is_banned("REDUCE_SUM"));
    assert!(!is_banned("reduce_other"));
    assert_eq!(scope_abbr(&vec!["COMBO".to_string(), "X".to_string(), "SELECTION".to_string()]), "CS");
    assert_eq!(smart_truncate("short", 64), "short");
    assert_eq!(smart_truncate("alpha beta gamma", 12), "alpha beta");
    assert_eq!(smart_truncate("abcdefghij", 4), "abcd");
    assert_eq!(compact_signature("ts_rank(x, d)"), "x,d");
    assert_eq!(compact_signature("  vec_sum (x, filter=abc, k)"), "x,filter,k");
    assert_eq!(compact_signature("not a call"), "not a call");
}

#[test]
fn prompt_build_lists_operators_and_fields() {
    let cat = OperatorCatalog {
        by_category: vec![(
            "Time Series".to_string(),
            vec![
                op("ts_rank", Some("ts_rank(x, d)"), Some("Rank over time. More text"), Some(vec!["REGULAR"]), Some("ALL")),
                op("reduce_sum", None, None, None, None),
                op("ts_mean", None, None, None, Some("GENIUS")),
            ],
        )],
    };
    let pb = PromptBuilder::new(cat);
    let p = pb.build_with_field_groups(3, &vec!["close".to_string(), "open".to_string()], &vec!["news_x".to_string()], Some("USA"), None, Some(1));
    let lines: Vec<&str> = p.split('\n').collect();
    assert_eq!(lines[0], "Generate 3 unique alpha factor expressions for WorldQuant BRAIN FASTEXPR.");
    assert!(lines.contains(&"Context: region=USA, universe=N/A, delay=1"));
    assert!(lines.contains(&"NON_EVENT: (close, open)"));
    assert!(lines.contains(&"EVENT: (news_x)"));
    assert!(lines.contains(&"Time Series: ts_rank(x,d){R}: Rank over time. More text | ts_mean[GENIUS]"));
    assert!(!p.contains("reduce_sum"));
    assert!(p.ends_with("6. 尽量混合使用低频字段以提升多样性。"));
    assert!(lines.contains(&"STRICT COMPLEXITY GUIDELINES:"));
    let plain = pb.build(2);
    assert!(plain.starts_with("Generate 2 unique"));
    assert!(plain.ends_with("6. 尽量混合使用低频字段以提升多样性。"));
    let with_fields = pb.build_with_fields(1, &vec!["f".to_string()], None, None, None);
    assert!(with_fields.contains("NON_EVENT: (f)"));
    assert!(!with_fields.contains("Context:"));
}

#[test]
fn hint_line_stops_before_400_bytes() {
    let long = "d".repeat(60);
    let ops: Vec<OperatorInfo> = (0..20).map(|i| op(&format!("op{}", i), None, Some(&long), None, None)).collect();
    let pb = PromptBuilder::new(OperatorCatalog { by_category: vec![("C".to_string(), ops)] });
    let p = pb.build(1);
    let line = p.split('\n').find(|l| l.starts_with("C: ")).unwrap();
    assert!(line.len() <= 400);
    assert!(!line.ends_with(" | "));
    assert!(line.ends_with(&"d".repeat(60)));
}

#[test]
fn dedup_and_truncate() {
    let v: Vec<String> = vec!["a", "b", "a", "c", "d"].into_iter().map(String::from).collect();
    assert_eq!(dedup_truncate(&v, 3), vec!["a", "b", "c"]);
    assert_eq!(dedup_truncate(&v, 0), Vec::<String>::new());
}

#[test]
fn event_operator_compatibility() {
    let mut repo = DataFieldRepository::new();
    let (ins, upd) = repo.upsert_batch(vec![entry("news_x", "USA", "TOP3000", 1), entry("close", "USA", "TOP3000", 1)]);
    assert_eq!((ins, upd), (2, 0));
    repo.upsert_scopes(&vec![entry("news_x", "USA", "TOP3000", 1), entry("close", "USA", "TOP3000", 1)]);
    assert_eq!(repo.mark_field_event("news_x", "USA", "TOP3000", None), 1);
    assert!(repo.is_event_scope("news_x", Some("USA"), None, None));
    assert!(!repo.is_event_scope("close", None, None, None));
    let mut compat = OperatorCompatRepository::new();
    compat.mark_incompatible("ts_mean");
    compat.mark_incompatible("ts_sum");
    compat.mark_supported("ts_sum");
    let bad = compat.list_incompatible_ops();
    assert_eq!(bad, vec!["ts_mean".to_string()]);
    assert_eq!(
        repo.validate_event_operator_compatibility("rank(ts_mean(news_x, 5))", Some("USA"), Some("TOP3000"), Some(1), &bad),
        Err(EventOpValidationErr::Incompatible)
    );
    assert_eq!(repo.validate_event_operator_compatibility("rank(ts_mean(close, 5))", Some("USA"), None, None, &bad), Ok(()));
    assert_eq!(repo.validate_event_operator_compatibility("rank(news_x)", None, None, None, &bad), Ok(()));
    assert_eq!(repo.extract_used_fields("close + news_x - close + zz"), vec!["close".to_string(), "news_x".to_string()]);
    let (normal, event) = repo.split_by_event(&vec!["close".to_string(), "news_x".to_string()], Some("USA"), None, None);
    assert_eq!(normal, vec!["close".to_string()]);
    assert_eq!(event, vec!["news_x".to_string()]);
}

#[test]
fn field_stats_group_by_scope() {
    let mut repo = DataFieldRepository::new();
    let added = repo.upsert_scopes(&vec![
        entry("a", "USA", "TOP3000", 1),
        entry("b", "USA", "TOP3000", 1),
        entry("a", "USA", "TOP3000", 1),
        entry("a", "CHN", "TOP2000U", 1),
    ]);
    assert_eq!(added, 3);
    let rows = repo.stats_by_region_universe_delay();
    assert_eq!(rows.len(), 2);
    assert_eq!((rows[0].region.as_str(), rows[0].count), ("USA", 2));
    assert_eq!((rows[1].region.as_str(), rows[1].count), ("CHN", 1));
    let freq = repo.field_frequencies(Some("USA"), None, None);
    assert_eq!(freq.len(), 2);
    let (ins, upd) = repo.upsert_batch(vec![entry("a", "USA", "TOP3000", 1), entry("a", "USA", "TOP3000", 3)]);
    assert_eq!((ins, upd), (1, 1));
    assert_eq!(repo.field(0).delay, 3);
}

#[test]
fn generated_answer_is_recorded_and_queued() {
    let mut store = JobStore::new();
    let catalog = DataFieldRepository::new();
    let text = "ALPHA_EXPR: rank(ts_mean(close, 5))\nALPHA_EXPR: rank(ts_mean(close, 5))\nALPHA_EXPR: ts_sum(close,)\nbad\n";
    let r = process_generated(&mut store, &catalog, &Vec::new(), text, &config(true), 100);
    assert_eq!(r.total_lines, 4);
    assert_eq!(r.candidates, 3);
    assert_eq!(r.accepted, 2);
    assert_eq!(r.inserted, 2);
    assert_eq!(r.queued, 1);
    assert_eq!(r.rejected_examples, vec!["too_short: bad".to_string()]);
    assert_eq!(store.alphas.len(), 2);
    assert_eq!(store.jobs.len(), 1);
    assert_eq!(store.jobs.job(0).status, JobStatus::Queued);
    assert_eq!(store.jobs.job(0).region, "USA");
    assert_eq!(store.jobs.job(0).expression, "rank(ts_mean(close, 5))");
    assert_eq!(store.alphas.get(1).expression, "ts_sum(close,)");
    assert_eq!(store.alphas.get(1).status, AlphaStatus::Pending);
    assert_eq!(store.alphas.get(1).universe, "TOP3000");
    let r2 = process_generated(&mut store, &catalog, &Vec::new(), "ALPHA_EXPR: rank(close, 2)", &config(false), 101);
    assert_eq!(r2.queued, 0);
    assert_eq!(store.jobs.len(), 1);
    assert_eq!(store.alphas.len(), 3);
}

#[test]
fn empty_context_provider() {
    let p = EmptyContextProvider::new();
    assert!(p.get_operator_catalog().unwrap().by_category.is_empty());
    assert!(p.get_field_catalog("USA", 1, "TOP3000").unwrap().entries.is_empty());
}

#[test]
fn scopes_upsert_twice_adds_nothing() {
    let mut repo = DataFieldRepository::new();
    let entries = vec![entry("a", "USA", "TOP3000", 1), entry("b", "USA", "TOP3000", 1)];
    assert_eq!(repo.upsert_scopes(&entries), 2);
    assert_eq!(repo.upsert_scopes(&entries), 0);
    assert_eq!(repo.scope_count(), 2);
}

#[test]
fn field_catalog_groups_by_category_and_dataset() {
    let mut a = entry("a", "USA", "TOP3000", 1);
    a.category_name = "Price".to_string();
    a.dataset_name = "pv1".to_string();
    let mut b = entry("b", "USA", "TOP3000", 1);
    b.category_name = "Fundamental".to_string();
    let mut c = entry("c", "USA", "TOP3000", 1);
    c.category_name = "Price".to_string();
    c.dataset_name = "pv1".to_string();
    let cat = FieldCatalog::from_entries(vec![a, b, c], "USA", "TOP3000", 1);
    assert_eq!(cat.entries.len(), 3);
    assert_eq!(cat.by_category.len(), 2);
    assert_eq!(cat.by_category[0].0, "Price");
    assert_eq!(cat.by_category[0].1, vec!["a".to_string(), "c".to_string()]);
    assert_eq!(cat.by_dataset.len(), 1);
    assert_eq!(cat.by_dataset[0].1, vec!["a".to_string(), "c".to_string()]);
    assert_eq!(cat.regions, vec!["USA".to_string()]);
    assert_eq!(cat.delays, vec![1]);
}
