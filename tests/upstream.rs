use alpha_engine::catalog::{catalog_from_json, collect_scopes, field_entry_from, page_items};
use alpha_engine::json::Json;
use alpha_engine::llm::{classify_chat_status, extract_chat_text, pick_key, split_keys, LlmError};
use alpha_engine::model::BacktestErrorType;
use alpha_engine::session::{auth_is_fresh, basic_auth_value, retry_step, RetryAction};
use alpha_engine::sync::{PageAction, PageCursor, PageEvent, SyncGuard};
use alpha_engine::urls::{
    url_alphas_alphaid, url_alphas_alphaid_check, url_alphas_alphaid_submit, url_datafields_fieldid,
    url_datasets_datasetid, url_list_datasets, url_search_fields,
};
use alpha_engine::worker::{BacktestWorker, PollAction};

fn obj(members: Vec<(&str, Json)>) -> Json {
    Json::Object(members.into_iter().map(|(k, v)| (k.to_string(), v)).collect())
}

fn s(x: &str) -> Json {
    Json::Str(x.to_string())
}

#[test]
fn url_builders() {
    assert_eq!(url_alphas_alphaid("a1"), "https://api.worldquantbrain.com/alphas/a1");
    assert_eq!(url_alphas_alphaid_check("a1"), "https://api.worldquantbrain.com/alphas/a1/check");
    assert_eq!(url_alphas_alphaid_submit("a1"), "https://api.worldquantbrain.com:443/alphas/a1/submit");
    assert_eq!(url_datasets_datasetid("d1"), "https://api.worldquantbrain.com/data-sets/d1");
    assert_eq!(url_datafields_fieldid("f1"), "https://api.worldquantbrain.com/data-fields/f1");
}

#[test]
fn submit_status_classes() {
    let e = BacktestWorker::classify_submit(401, "").unwrap_err();
    assert_eq!(e.error_type, BacktestErrorType::Infra);
    let e = BacktestWorker::classify_submit(503, "").unwrap_err();
    assert_eq!(e.error_type, BacktestErrorType::Infra);
    assert_eq!(e.message, "WQB 服务器波动 (503)");
    let e = BacktestWorker::classify_submit(302, "moved").unwrap_err();
    assert_eq!(e.error_type, BacktestErrorType::Internal);
    assert_eq!(e.message, "未预期的状态码 (302): moved");
    assert!(!e.retryable);
}

#[test]
fn simulation_id_sources() {
    let body = obj(vec![("id", s("from_body"))]);
    assert_eq!(BacktestWorker::simulation_id(Some("/simulations/L"), Some(&body)).unwrap(), "L");
    assert_eq!(BacktestWorker::simulation_id(None, Some(&body)).unwrap(), "from_body");
    assert_eq!(BacktestWorker::simulation_id(Some("/simulations/"), Some(&body)).unwrap(), "from_body");
    let other = obj(vec![("foo", s("bar"))]);
    assert_eq!(BacktestWorker::simulation_id(Some("https://h/simulations/abc"), Some(&other)).unwrap(), "abc");
    assert!(BacktestWorker::simulation_id(None, None).is_err());
}

#[test]
fn poll_terminal_states() {
    let err = obj(vec![("status", s("ERROR")), ("message", s("bad field"))]);
    match BacktestWorker::poll_step(None, Some(&err)) {
        PollAction::Fail(e) => {
            assert_eq!(e.error_type, BacktestErrorType::Alpha);
            assert_eq!(e.message, "回测失败: bad field");
        },
        other => panic!("{:?}", other),
    }
    let fail = obj(vec![("status", s("FAIL"))]);
    match BacktestWorker::poll_step(None, Some(&fail)) {
        PollAction::Fail(e) => assert_eq!(e.message, "回测失败: 未知引擎错误"),
        other => panic!("{:?}", other),
    }
    let cancelled = obj(vec![("status", s("CANCELLED"))]);
    match BacktestWorker::poll_step(Some(9), Some(&cancelled)) {
        PollAction::Fail(e) => assert!(e.retryable),
        other => panic!("{:?}", other),
    }
    let no_alpha = obj(vec![("status", s("WARNING"))]);
    match BacktestWorker::poll_step(None, Some(&no_alpha)) {
        PollAction::Fail(e) => assert_eq!(e.error_type, BacktestErrorType::Internal),
        other => panic!("{:?}", other),
    }
    let unknown = obj(vec![("status", s("QUEUED"))]);
    assert!(matches!(BacktestWorker::poll_step(None, Some(&unknown)), PollAction::Wait(20)));
    assert!(matches!(BacktestWorker::poll_step(Some(7), None), PollAction::Wait(7)));
    let progress = obj(vec![("progress", Json::Number("0.5".to_string()))]);
    assert!(matches!(BacktestWorker::poll_step(None, Some(&progress)), PollAction::Wait(20)));
    let bad_status = obj(vec![("status", Json::Number("1".to_string()))]);
    assert!(matches!(BacktestWorker::poll_step(None, Some(&bad_status)), PollAction::Fail(_)));
}

#[test]
fn sim_data_shape() {
    let d = BacktestWorker::build_sim_data("rank(x)", "USA", "TOP3000");
    assert!(matches!(d.get("regular"), Some(Json::Str(e)) if e == "rank(x)"));
    let settings = d.get("settings").unwrap();
    assert!(matches!(settings.get("region"), Some(Json::Str(r)) if r == "USA"));
    assert!(matches!(settings.get("truncation"), Some(Json::Number(t)) if t == "0.08"));
    assert!(matches!(settings.get("visualization"), Some(Json::Bool(false))));
}

#[test]
fn chat_text_shapes() {
    let a = obj(vec![("choices", Json::Array(vec![obj(vec![("message", obj(vec![("content", s("hi"))]))])]))]);
    assert_eq!(extract_chat_text(&a, "").unwrap(), "hi");
    let parts = Json::Array(vec![obj(vec![("text", s("x"))]), s("y"), Json::Null]);
    let b = obj(vec![("choices", Json::Array(vec![obj(vec![("content", parts)])]))]);
    assert_eq!(extract_chat_text(&b, "").unwrap(), "x\ny");
    let c = obj(vec![("choices", Json::Array(vec![obj(vec![("text", s("t"))])]))]);
    assert_eq!(extract_chat_text(&c, "").unwrap(), "t");
    let d = obj(vec![("choices", Json::Array(vec![obj(vec![])])), ("output_text", s("o"))]);
    assert_eq!(extract_chat_text(&d, "").unwrap(), "o");
    let e = obj(vec![("choices", Json::Array(vec![]))]);
    assert!(matches!(extract_chat_text(&e, "raw"), Err(LlmError::InvalidResponse(m)) if m.contains("raw")));
    let f = obj(vec![("choices", Json::Array(vec![obj(vec![("content", Json::Bool(true))])]))]);
    assert!(matches!(extract_chat_text(&f, "RAWBODY"), Err(LlmError::InvalidResponse(m)) if m.ends_with("RAWBODY")));
}

#[test]
fn chat_status_and_keys() {
    assert!(matches!(classify_chat_status(403, ""), Err(LlmError::Unauthorized)));
    assert!(matches!(classify_chat_status(429, ""), Err(LlmError::RateLimited)));
    assert!(matches!(classify_chat_status(500, "oops"), Err(LlmError::Http(m)) if m == "500 oops"));
    assert!(classify_chat_status(200, "").is_ok());
    let keys = split_keys(" k1, k2;;k3\n\tk4 ");
    assert_eq!(keys, vec!["k1", "k2", "k3", "k4"]);
    assert_eq!(pick_key(&keys, 5), "k2");
}

#[test]
fn pagination_rules() {
    let c = PageCursor::start();
    let (c, a) = c.step(PageEvent::Page { items: 50 });
    assert_eq!(a, PageAction::Fetch(50));
    let (c, a) = c.step(PageEvent::RateLimited { retry_after: None });
    assert_eq!(a, PageAction::Retry(3));
    assert_eq!(c.offset, 50);
    let (_, a) = c.step(PageEvent::Page { items: 12 });
    assert_eq!(a, PageAction::Finish);
    let mut c = PageCursor::start();
    for _ in 0..5 {
        let (next, a) = c.step(PageEvent::RateLimited { retry_after: Some(2) });
        assert_eq!(a, PageAction::Retry(2));
        c = next;
    }
    let (_, a) = c.step(PageEvent::RateLimited { retry_after: Some(2) });
    assert_eq!(a, PageAction::Abort);
    let near_end = PageCursor { offset: 9950, consecutive_rate_limits: 0 };
    assert_eq!(near_end.step(PageEvent::Page { items: 50 }).1, PageAction::Finish);
}

#[test]
fn sync_runs_one_at_a_time() {
    let mut g = SyncGuard::new();
    assert!(g.try_start());
    assert!(!g.try_start());
    g.finish();
    assert!(!g.running());
    assert!(g.try_start());
}

#[test]
fn request_retry_policy() {
    assert_eq!(retry_step(true, 200, 1, 3, None, 1000), RetryAction::Accept);
    assert_eq!(retry_step(false, 401, 1, 3, None, 1000), RetryAction::Reauth { delay_ms: 1000 });
    assert_eq!(retry_step(false, 429, 2, 3, None, 1000), RetryAction::Wait { delay_ms: 2000 });
    assert_eq!(retry_step(false, 429, 1, 3, Some(5000), 1000), RetryAction::Wait { delay_ms: 5000 });
    assert_eq!(retry_step(false, 500, 1, 3, None, 1000), RetryAction::Wait { delay_ms: 1000 });
    assert_eq!(retry_step(false, 500, 3, 3, None, 1000), RetryAction::GiveUp);
    assert!(auth_is_fresh(Some(100), 120));
    assert!(!auth_is_fresh(Some(100), 130));
    assert!(!auth_is_fresh(None, 0));
}

#[test]
fn basic_auth_encodes_credentials() {
    assert_eq!(basic_auth_value("a", "b"), "Basic YTpi");
    assert_eq!(basic_auth_value("user@x.com", "pw"), "Basic dXNlckB4LmNvbTpwdw==");
}

#[test]
fn field_items_from_pages() {
    let item = obj(vec![
        ("id", s("close")),
        ("description", s("Close price")),
        ("dataset", obj(vec![("id", s("pv1")), ("name", s("Price Volume"))])),
        ("categoryId", s("pv")),
        ("type", s("MATRIX")),
    ]);
    let page = obj(vec![("results", Json::Array(vec![item, obj(vec![("description", s("no id"))])]))]);
    let items = page_items(&page, "fields", "data", "results").unwrap();
    assert_eq!(items.len(), 2);
    let e = field_entry_from(&items[0], "USA", "TOP3000", 1).unwrap();
    assert_eq!(e.field_id, "close");
    assert_eq!(e.dataset_name, "Price Volume");
    assert_eq!(e.category_id, "pv");
    assert_eq!(e.category_name, "");
    assert_eq!(e.field_type, "MATRIX");
    assert_eq!(e.region, "USA");
    assert!(field_entry_from(&items[1], "USA", "TOP3000", 1).is_none());
}

#[test]
fn dataset_scopes_are_collected_once() {
    let rows = vec![
        obj(vec![("region", s("USA")), ("settings", obj(vec![("universe", s("TOP3000"))]))]),
        obj(vec![("region", s("USA")), ("universe", s("TOP500")), ("settings", obj(vec![("region", s("CHN"))]))]),
        obj(vec![("region", s(""))]),
    ];
    let mut regions = Vec::new();
    let mut universes = Vec::new();
    collect_scopes(&rows, &mut regions, &mut universes);
    assert_eq!(regions, vec!["USA", "CHN"]);
    assert_eq!(universes, vec!["TOP3000", "TOP500"]);
}

#[test]
fn operator_catalog_groups_by_category() {
    let op = |name: &str, cat: Option<&str>| {
        let mut m = vec![("name", s(name))];
        if let Some(c) = cat {
            m.push(("category", s(c)));
        }
        m.push(("scope", Json::Array(vec![s(" REGULAR "), Json::Null])));
        obj(m)
    };
    let body = obj(vec![(
        "operators",
        Json::Array(vec![op(" ts_rank ", Some("Time Series")), op("rank", Some("Cross")), op("ts_mean", Some("Time Series")), op("  ", None), op("x", None)]),
    )]);
    let cat = catalog_from_json(&body);
    let names: Vec<&str> = cat.by_category.iter().map(|(c, _)| c.as_str()).collect();
    assert_eq!(names, vec!["Time Series", "Cross", "Unknown"]);
    assert_eq!(cat.by_category[0].1.len(), 2);
    assert_eq!(cat.by_category[0].1[0].name, "ts_rank");
    assert_eq!(cat.by_category[0].1[0].scope.as_ref().unwrap(), &vec!["REGULAR".to_string()]);
}

#[test]
fn paged_query_urls() {
    assert_eq!(
        url_search_fields("USA", -1, "TOP3000", None, Some(20000)),
        "https://api.worldquantbrain.com/data-fields?region=USA&delay=-1&universe=TOP3000&instrumentType=EQUITY&limit=50&offset=9950"
    );
    assert_eq!(
        url_search_fields("CHN", 1, "TOP2000U", Some(0), None),
        "https://api.worldquantbrain.com/data-fields?region=CHN&delay=1&universe=TOP2000U&instrumentType=EQUITY&limit=1&offset=0"
    );
    assert_eq!(url_list_datasets(500, 100), "https://api.worldquantbrain.com/data-sets?limit=50&offset=100");
}

#[test]
fn provider_attempts_and_catalog_cache() {
    assert_eq!(alpha_engine::llm::chat_attempts("openrouter"), 2);
    assert_eq!(alpha_engine::llm::chat_attempts("cerebras"), 1);
    assert_eq!(alpha_engine::llm::chat_attempts("xirang"), 1);
    assert!(alpha_engine::catalog::catalog_fresh(Some(1000), 1899));
    assert!(!alpha_engine::catalog::catalog_fresh(Some(1000), 1900));
    assert!(!alpha_engine::catalog::catalog_fresh(None, 0));
}
