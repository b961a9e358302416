use alpha_engine::alpha::AlphaStatus;
use alpha_engine::fields::{sample_by_keys, DataFieldRepository, FieldEntry};
use alpha_engine::job::{ErrorKind, FailureOutcome, JobStatus};
use alpha_engine::json::Json;
use alpha_engine::parser::validate_prequeue;
use alpha_engine::store::JobStore;
use alpha_engine::worker::{BacktestWorker, PollAction};

fn obj(members: Vec<(&str, Json)>) -> Json {
    Json::Object(members.into_iter().map(|(k, v)| (k.to_string(), v)).collect())
}

fn s(x: &str) -> Json {
    Json::Str(x.to_string())
}

fn num(x: &str) -> Json {
    Json::Number(x.to_string())
}

fn entry(id: &str, region: &str, universe: &str, delay: i32) -> FieldEntry {
    FieldEntry {
        field_id: id.to_string(),
        description: String::new(),
        dataset_id: String::new(),
        dataset_name: String::new(),
        category_id: String::new(),
        category_name: String::new(),
        subcategory_id: String::new(),
        subcategory_name: String::new(),
        region: region.to_string(),
        delay,
        universe: universe.to_string(),
        field_type: String::new(),
    }
}

#[test]
fn submit_then_poll_progress_then_complete() {
    let now = 1_000;
    let mut store = JobStore::new();
    let id = store
        .enqueue("ts_rank(close,20)".to_string(), "CHN".to_string(), "TOP2000U".to_string(), now)
        .expect("new job");
    let claimed = store.jobs.claim_next("w1", now).expect("claimable");
    assert_eq!(claimed, id);
    store.begin_attempt(id, now).unwrap();
    assert_eq!(store.jobs.job(id).status, JobStatus::Submitting);
    assert_eq!(store.alphas.get(0).status, AlphaStatus::Simulating);

    assert!(BacktestWorker::classify_submit(201, "").is_ok());
    let sim_id = BacktestWorker::simulation_id(Some("/simulations/sim_1"), None).unwrap();
    assert_eq!(sim_id, "sim_1");

    let progress = obj(vec![("progress", num("0.3"))]);
    for _ in 0..2 {
        match BacktestWorker::poll_step(Some(1), Some(&progress)) {
            PollAction::Wait(secs) => assert_eq!(secs, 1),
            other => panic!("expected to keep polling, got {:?}", other),
        }
    }
    let done = obj(vec![("status", s("COMPLETE")), ("alpha", s("a_1"))]);
    let alpha_id = match BacktestWorker::poll_step(None, Some(&done)) {
        PollAction::Fetch(a) => a,
        other => panic!("expected fetch, got {:?}", other),
    };
    assert_eq!(alpha_id, "a_1");

    let check = obj(vec![("name", s("x")), ("result", s("PASS"))]);
    let is = obj(vec![("sharpe", num("1.5")), ("checks", Json::Array(vec![check]))]);
    let detail = obj(vec![("id", s("a_1")), ("is", is)]);
    let result = BacktestWorker::fetch_result(alpha_id, sim_id, &detail);
    store.finish_success(id, result, now + 60).unwrap();

    let job = store.jobs.job(id);
    assert_eq!(job.status, JobStatus::Done);
    assert_eq!(job.alpha_id.as_deref(), Some("a_1"));
    assert_eq!(job.simulation_id.as_deref(), Some("sim_1"));
    let alpha = store.alphas.get(0);
    assert_eq!(alpha.status, AlphaStatus::Done);
    assert_eq!(alpha.core.is_sharpe.as_deref(), Some("1.5"));
    match &alpha.checks_json {
        Json::Array(items) => assert_eq!(items.len(), 1),
        other => panic!("checks should be an array, got {:?}", other),
    }
}

#[test]
fn submit_400_fails_permanently() {
    let now = 2_000;
    let mut store = JobStore::new();
    let id = store
        .enqueue("ts_rank(close,20)".to_string(), "CHN".to_string(), "TOP2000U".to_string(), now)
        .unwrap();
    store.jobs.claim_next("w1", now).unwrap();
    store.begin_attempt(id, now).unwrap();
    let err = BacktestWorker::classify_submit(400, "bad expr").unwrap_err();
    assert!(!err.retryable);
    assert!(err.message.contains("bad expr"));
    let outcome = store.finish_error(id, &err, 0, now).unwrap();
    assert_eq!(outcome, FailureOutcome::Permanent { kind: ErrorKind::Permanent });
    let job = store.jobs.job(id);
    assert_eq!(job.status, JobStatus::FailedPermanent);
    assert_eq!(job.last_error_kind, Some(ErrorKind::Permanent));
    assert_eq!(job.retry_count, 0);
    assert_eq!(store.alphas.get(0).status, AlphaStatus::Error);
}

#[test]
fn submit_429_then_success() {
    let now = 3_000;
    let mut store = JobStore::new();
    let id = store
        .enqueue("ts_rank(close,20)".to_string(), "CHN".to_string(), "TOP2000U".to_string(), now)
        .unwrap();
    store.jobs.claim_next("w1", now).unwrap();
    store.begin_attempt(id, now).unwrap();
    let err = BacktestWorker::classify_submit(429, "").unwrap_err();
    assert!(err.retryable);
    let outcome = store.finish_error(id, &err, 0, now).unwrap();
    assert_eq!(outcome, FailureOutcome::Retry { attempt: 1, max_retries: 5, next_run_at: now + 5 });
    let job = store.jobs.job(id);
    assert_eq!(job.status, JobStatus::RetryWait);
    assert_eq!(job.retry_count, 1);
    assert_eq!(job.next_run_at, now + 5);

    assert_eq!(store.jobs.claim_next("w2", now + 4), None);
    assert_eq!(store.jobs.claim_next("w2", now + 5), Some(id));
    store.begin_attempt(id, now + 5).unwrap();
    assert!(BacktestWorker::classify_submit(201, "").is_ok());
    let detail = obj(vec![("id", s("a_2"))]);
    let result = BacktestWorker::fetch_result("a_2".to_string(), "sim_2".to_string(), &detail);
    store.finish_success(id, result, now + 30).unwrap();
    assert_eq!(store.jobs.job(id).status, JobStatus::Done);
}

#[test]
fn claim_race_single_winner() {
    let now = 4_000;
    let mut store = JobStore::new();
    store.enqueue("rank(close)".to_string(), "CHN".to_string(), "TOP2000U".to_string(), now).unwrap();
    let a = store.jobs.claim_next("w1", now);
    let b = store.jobs.claim_next("w2", now);
    assert!(a.is_some() != b.is_some());
    assert_eq!(a, Some(0));
    assert_eq!(b, None);
    assert_eq!(store.jobs.job(0).claimed_by.as_deref(), Some("w1"));
}

#[test]
fn weighted_sampling_prefers_rare_fields() {
    let mut repo = DataFieldRepository::new();
    let mut entries = vec![entry("f_a", "USA", "TOP3000", 1), entry("f_b", "USA", "TOP3000", 1)];
    for k in 0..100 {
        entries.push(entry("f_c", &format!("R{}", k), "TOP3000", 1));
    }
    repo.upsert_scopes(&entries);
    let rows = repo.field_frequencies(None, None, None);
    assert_eq!(rows.len(), 3);
    let trials = 10_000;
    let mut hits = [0usize; 3];
    for _ in 0..trials {
        let keys: Vec<u64> = rows
            .iter()
            .map(|r| {
                let u: f64 = rand::random::<f64>();
                u.powf(r.freq as f64).to_bits()
            })
            .collect();
        let picked = sample_by_keys(&rows, &keys, 2);
        assert_eq!(picked.len(), 2);
        assert_ne!(picked[0], picked[1]);
        for id in picked {
            let slot = match id.as_str() {
                "f_a" => 0,
                "f_b" => 1,
                _ => 2,
            };
            hits[slot] += 1;
        }
    }
    let p = |h: usize| h as f64 / trials as f64;
    assert!(p(hits[0]) > 0.9);
    assert!(p(hits[1]) > 0.9);
    assert!(p(hits[2]) < 0.5);
}

#[test]
fn prequeue_validation_cases() {
    assert_eq!(validate_prequeue("ts_sum(close,)"), Err("trailing_comma".to_string()));
    assert_eq!(validate_prequeue("a)(b)"), Err("unexpected_right_paren".to_string()));
    assert_eq!(validate_prequeue("winsorize(x, 0.1)"), Err("winsorize_arity".to_string()));
    assert_eq!(validate_prequeue("winsorize(ts_rank(x,20), std=4)"), Ok(()));
}
