use alpha_engine::alpha::{AlphaDefinition, AlphaRepository, AlphaStatus, CoreMetrics};
use alpha_engine::json::{merge_json, Json};

fn obj(members: Vec<(&str, Json)>) -> Json {
    Json::Object(members.into_iter().map(|(k, v)| (k.to_string(), v)).collect())
}

fn n(x: &str) -> Json {
    Json::Number(x.to_string())
}

fn def(e: &str) -> AlphaDefinition {
    AlphaDefinition {
        expression: e.to_string(),
        region: "CHN".to_string(),
        universe: "TOP2000U".to_string(),
        language: "FASTEXPR".to_string(),
        delay: 1,
        decay: 10,
        neutralization: "INDUSTRY".to_string(),
        operator_count: 0,
    }
}

fn member<'a>(j: &'a Json, k: &str) -> &'a Json {
    j.get(k).expect("member")
}

#[test]
fn merge_objects_recursively() {
    let a = obj(vec![("IS", obj(vec![("sharpe", n("1")), ("turnover", n("0.2"))])), ("keep", n("7"))]);
    let b = obj(vec![("IS", obj(vec![("sharpe", n("2")), ("fitness", n("0.9"))])), ("new", Json::Bool(true))]);
    let m = merge_json(a, b);
    let is = member(&m, "IS");
    assert!(matches!(member(is, "sharpe"), Json::Number(x) if x == "2"));
    assert!(matches!(member(is, "turnover"), Json::Number(x) if x == "0.2"));
    assert!(matches!(member(is, "fitness"), Json::Number(x) if x == "0.9"));
    assert!(matches!(member(&m, "keep"), Json::Number(x) if x == "7"));
    assert!(matches!(member(&m, "new"), Json::Bool(true)));
}

#[test]
fn merge_non_objects_replace() {
    let m = merge_json(Json::Array(vec![n("1"), n("2")]), Json::Array(vec![n("3")]));
    assert!(matches!(&m, Json::Array(v) if v.len() == 1));
    let m = merge_json(obj(vec![("a", n("1"))]), n("5"));
    assert!(matches!(m, Json::Number(x) if x == "5"));
    let m = merge_json(n("5"), obj(vec![("a", n("1"))]));
    assert!(matches!(member(&m, "a"), Json::Number(x) if x == "1"));
}

#[test]
fn successive_mark_done_folds_merges() {
    let mut repo = AlphaRepository::new();
    assert!(repo.insert_or_ignore_alpha(def("rank(x)"), 1));
    let e = "rank(x)".to_string();
    let payloads = vec![
        obj(vec![("IS", obj(vec![("sharpe", n("1")), ("pnl", n("10"))]))]),
        obj(vec![("IS", obj(vec![("sharpe", n("2"))])), ("OS", n("3"))]),
        obj(vec![("IS", obj(vec![("fitness", n("0.5"))]))]),
    ];
    let mut expected = obj(vec![]);
    for p in &payloads {
        expected = merge_json(expected, p.deep_clone());
    }
    for (k, p) in payloads.into_iter().enumerate() {
        assert!(repo.mark_done(&e, None, Some(p), None, 10 + k as i64));
    }
    let got = &repo.get(0).metrics_json;
    assert_eq!(format!("{:?}", got), format!("{:?}", expected));
    let is = member(got, "IS");
    assert!(matches!(member(is, "sharpe"), Json::Number(x) if x == "2"));
    assert!(matches!(member(is, "pnl"), Json::Number(x) if x == "10"));
    assert!(matches!(member(is, "fitness"), Json::Number(x) if x == "0.5"));
    assert_eq!(repo.get(0).status, AlphaStatus::Done);
}

#[test]
fn alpha_lifecycle() {
    let mut repo = AlphaRepository::new();
    assert_eq!(repo.insert_batch(vec![def("a(x)"), def("b(x)"), def("a(x)")], 5), 2);
    assert!(!repo.insert_or_ignore_alpha(def("b(x)"), 6));
    assert_eq!(repo.len(), 2);
    let a = "a(x)".to_string();
    assert!(repo.mark_simulating(&a, 10));
    let core = CoreMetrics {
        is_sharpe: Some("1.2".to_string()),
        is_fitness: None,
        is_turnover: None,
        is_returns: None,
        is_drawdown: None,
        is_pnl: None,
    };
    assert!(repo.mark_done(&a, Some(core), None, None, 11));
    assert_eq!(repo.get(0).core.is_sharpe.as_deref(), Some("1.2"));
    assert!(repo.mark_simulating(&"b(x)".to_string(), 20));
    assert_eq!(repo.reset_stale_simulating(700, 600), 1);
    assert_eq!(repo.get(1).status, AlphaStatus::Pending);
    assert!(!repo.mark_error(&"zzz".to_string(), 1));
    let c = repo.status_counts();
    assert_eq!((c.pending, c.simulating, c.done, c.error), (1, 0, 1, 0));
    repo.wipe_all();
    assert_eq!(repo.len(), 0);
}

#[test]
fn reset_stale_keeps_recent() {
    let mut repo = AlphaRepository::new();
    repo.insert_or_ignore_alpha(def("a(x)"), 0);
    repo.mark_simulating(&"a(x)".to_string(), 100);
    assert_eq!(repo.reset_stale_simulating(650, 600), 0);
    assert_eq!(repo.get(0).status, AlphaStatus::Simulating);
}

#[test]
fn snapshot_rows_must_have_distinct_expressions() {
    let mut repo = AlphaRepository::new();
    repo.insert_or_ignore_alpha(def("a(x)"), 0);
    repo.insert_or_ignore_alpha(def("b(x)"), 0);
    let copy = |r: &alpha_engine::alpha::AlphaRecord| alpha_engine::alpha::AlphaRecord {
        expression: r.expression.clone(),
        region: r.region.clone(),
        universe: r.universe.clone(),
        language: r.language.clone(),
        delay: r.delay,
        decay: r.decay,
        neutralization: r.neutralization.clone(),
        operator_count: r.operator_count,
        status: r.status,
        core: CoreMetrics { is_sharpe: None, is_fitness: None, is_turnover: None, is_returns: None, is_drawdown: None, is_pnl: None },
        metrics_json: r.metrics_json.deep_clone(),
        checks_json: r.checks_json.deep_clone(),
        created_at: r.created_at,
        updated_at: r.updated_at,
    };
    let good = AlphaRepository::from_rows(vec![copy(repo.get(0)), copy(repo.get(1))]);
    assert_eq!(good.map(|r| r.len()), Some(2));
    assert!(AlphaRepository::from_rows(vec![copy(repo.get(0)), copy(repo.get(0))]).is_none());
}

#[test]
fn merge_deeply_nested_objects() {
    let mut a = obj(vec![("leaf", n("1")), ("keep", n("9"))]);
    let mut b = obj(vec![("leaf", n("2"))]);
    for _ in 0..50 {
        a = obj(vec![("x", a)]);
        b = obj(vec![("x", b)]);
    }
    let merged = merge_json(a, b);
    let mut m = &merged;
    for _ in 0..50 {
        m = member(m, "x");
    }
    assert!(matches!(member(m, "leaf"), Json::Number(x) if x == "2"));
    assert!(matches!(member(m, "keep"), Json::Number(x) if x == "9"));
}
