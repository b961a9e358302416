use alpha_engine::job::{backoff_delay, BacktestRepository, ErrorKind, FailureOutcome, Job, JobStatus, RepoError};
use alpha_engine::model::BacktestError;

fn repo_with(exprs: &[&str], now: i64) -> BacktestRepository {
    let mut r = BacktestRepository::new();
    for e in exprs {
        r.create_job(e.to_string(), "CHN".to_string(), "TOP2000U".to_string(), now).unwrap();
    }
    r
}

#[test]
fn claimed_job_is_not_claimed_again() {
    let mut r = repo_with(&["a(x)", "b(x)"], 10);
    let first = r.claim_next("w1", 10).unwrap();
    let second = r.claim_next("w2", 10).unwrap();
    assert_ne!(first, second);
    assert_eq!(r.claim_next("w3", 10), None);
    r.mark_status(first, JobStatus::Running, Some("sim".to_string()), 11).unwrap();
    assert_eq!(r.claim_next("w3", 11), None);
}

#[test]
fn claim_order_priority_then_age() {
    let mut r = BacktestRepository::new();
    r.create_job("late(x)".to_string(), "CHN".to_string(), "U".to_string(), 20).unwrap();
    r.create_job("early(x)".to_string(), "CHN".to_string(), "U".to_string(), 10).unwrap();
    assert_eq!(r.claim_next("w", 30), Some(1));
    assert_eq!(r.claim_next("w", 30), Some(0));
}

#[test]
fn claim_respects_next_run_at() {
    let mut r = repo_with(&["a(x)"], 100);
    assert_eq!(r.claim_next("w", 99), None);
    assert_eq!(r.claim_next("w", 100), Some(0));
}

#[test]
fn enqueue_is_idempotent_while_live() {
    let mut r = BacktestRepository::new();
    let first = r.create_job("rank(x)".to_string(), "CHN".to_string(), "U".to_string(), 1);
    let second = r.create_job("rank(x)".to_string(), "CHN".to_string(), "U".to_string(), 2);
    assert_eq!(first, Some(0));
    assert_eq!(second, None);
    assert_eq!(r.len(), 1);
    r.mark_done(0, None, None, None, None, 3).unwrap();
    let third = r.create_job("rank(x)".to_string(), "CHN".to_string(), "U".to_string(), 4);
    assert_eq!(third, Some(1));
}

#[test]
fn backoff_values() {
    assert_eq!(backoff_delay(0, 0), 5);
    assert_eq!(backoff_delay(1, 0), 10);
    assert_eq!(backoff_delay(3, 0), 40);
    assert_eq!(backoff_delay(6, 0), 320);
    assert_eq!(backoff_delay(7, 0), 600);
    assert_eq!(backoff_delay(10, 0), 600);
    assert_eq!(backoff_delay(40, 0), 600);
    assert_eq!(backoff_delay(0, 20), 6);
    assert_eq!(backoff_delay(7, 20), 720);
    assert_eq!(backoff_delay(7, 42), 600);
    assert_eq!(backoff_delay(7, 41), 720);
    assert_eq!(backoff_delay(3, 10), 44);
}

#[test]
fn backoff_window_holds_for_every_jitter() {
    for rc in 0..=10u32 {
        let floor = std::cmp::min(600u64, 5u64 << rc);
        for j in 0..=255u8 {
            let d = backoff_delay(rc, j);
            assert!(d >= floor);
            assert!(5 * d <= 6 * floor);
        }
    }
}

#[test]
fn retry_budget_exhausts_after_max_plus_one_failures() {
    let mut r = repo_with(&["rank(x)"], 0);
    let err = BacktestError::infra("timeout".to_string());
    let mut now = 0;
    for k in 1..=5u32 {
        let id = r.claim_next("w", now).unwrap();
        let outcome = r.handle_error(id, &err, 0, now).unwrap();
        match outcome {
            FailureOutcome::Retry { attempt, max_retries, next_run_at } => {
                assert_eq!(attempt, k);
                assert_eq!(max_retries, 5);
                now = next_run_at;
            },
            other => panic!("failure {} should retry, got {:?}", k, other),
        }
        assert_eq!(r.job(0).status, JobStatus::RetryWait);
        assert_eq!(r.job(0).last_error_kind, Some(ErrorKind::Retryable));
    }
    let id = r.claim_next("w", now).unwrap();
    let outcome = r.handle_error(id, &err, 0, now).unwrap();
    assert_eq!(outcome, FailureOutcome::Permanent { kind: ErrorKind::RetryExceeded });
    assert_eq!(r.job(0).status, JobStatus::FailedPermanent);
    assert_eq!(r.job(0).last_error_kind, Some(ErrorKind::RetryExceeded));
    assert_eq!(r.job(0).retry_count, 5);
    assert_eq!(r.handle_error(0, &err, 0, now), Err(RepoError::TerminalState));
    assert_eq!(r.get_stats().error_exceeded, 1);
}

#[test]
fn recovery_requeues_in_flight_jobs() {
    let mut r = repo_with(&["a(x)", "b(x)", "c(x)", "d(x)", "e(x)"], 0);
    for _ in 0..4 {
        r.claim_next("w", 0).unwrap();
    }
    r.mark_status(1, JobStatus::Submitting, None, 1).unwrap();
    r.mark_status(2, JobStatus::Running, None, 1).unwrap();
    r.mark_status(3, JobStatus::Fetching, None, 1).unwrap();
    r.mark_done(3, None, None, None, None, 2).unwrap();
    let count = r.reset_stale_jobs(50);
    assert_eq!(count, 3);
    for i in 0..5 {
        let st = r.job(i).status;
        assert!(!matches!(st, JobStatus::Claimed | JobStatus::Submitting | JobStatus::Running | JobStatus::Fetching));
    }
    assert_eq!(r.job(0).status, JobStatus::Queued);
    assert_eq!(r.job(0).next_run_at, 50);
    assert_eq!(r.job(3).status, JobStatus::Done);
    assert_eq!(r.job(4).next_run_at, 0);
}

#[test]
fn stats_count_by_state() {
    let mut r = repo_with(&["a(x)", "b(x)", "c(x)", "d(x)"], 0);
    r.claim_next("w", 0).unwrap();
    r.claim_next("w", 0).unwrap();
    r.mark_done(0, None, None, None, None, 1).unwrap();
    r.mark_failed_permanent(1, ErrorKind::Permanent, None, Some("bad".to_string()), 1).unwrap();
    r.mark_failed_retryable(2, ErrorKind::Retryable, None, None, 100, 1).unwrap();
    let st = r.get_stats();
    assert_eq!(st.total, 4);
    assert_eq!(st.pending, 1);
    assert_eq!(st.running, 0);
    assert_eq!(st.completed, 1);
    assert_eq!(st.error_retryable, 1);
    assert_eq!(st.error_fatal, 1);
    assert_eq!(st.error_exceeded, 0);
}

#[test]
fn transitions_refuse_unknown_and_terminal_jobs() {
    let mut r = repo_with(&["a(x)"], 0);
    assert_eq!(r.mark_status(7, JobStatus::Running, None, 1), Err(RepoError::RecordNotFound));
    r.mark_done(0, None, Some("a1".to_string()), None, None, 1).unwrap();
    assert_eq!(r.mark_status(0, JobStatus::Queued, None, 2), Err(RepoError::TerminalState));
    assert_eq!(r.job(0).alpha_id.as_deref(), Some("a1"));
}

#[test]
fn retryable_mark_refused_without_budget() {
    let mut r = repo_with(&["a(x)"], 0);
    for _ in 0..5 {
        r.mark_failed_retryable(0, ErrorKind::Retryable, None, None, 0, 0).unwrap();
    }
    assert_eq!(r.job(0).retry_count, 5);
    assert_eq!(
        r.mark_failed_retryable(0, ErrorKind::Retryable, None, None, 0, 0),
        Err(RepoError::RetryBudgetExhausted)
    );
}

#[test]
fn wipe_all_empties_queue() {
    let mut r = repo_with(&["a(x)", "b(x)"], 0);
    r.wipe_all();
    assert_eq!(r.len(), 0);
    assert_eq!(r.get_stats().total, 0);
}

#[test]
fn random_jitter_stays_within_window() {
    let mut store = alpha_engine::store::JobStore::new();
    store.enqueue("a(x)".to_string(), "CHN".to_string(), "U".to_string(), 0).unwrap();
    store.jobs.claim_next("w", 0).unwrap();
    let err = BacktestError::infra("x".to_string());
    match store.finish_error_now(0, &err, 1000).unwrap() {
        FailureOutcome::Retry { next_run_at, .. } => assert!(next_run_at >= 1005 && next_run_at <= 1006),
        other => panic!("expected retry, got {:?}", other),
    }
}

#[test]
fn snapshot_reload_checks_well_formedness() {
    let job = |id: usize, expr: &str, status: JobStatus, rc: u32| Job {
        id,
        expression: expr.to_string(),
        region: "CHN".to_string(),
        universe: "TOP2000U".to_string(),
        status,
        priority: 0,
        retry_count: rc,
        max_retries: 5,
        next_run_at: 0,
        claimed_by: None,
        claimed_at: None,
        simulation_id: None,
        alpha_id: None,
        metrics_json: None,
        checks_json: None,
        last_error_kind: None,
        last_error_code: None,
        last_error_message: None,
        created_at: 0,
        updated_at: 0,
    };
    let ok = BacktestRepository::from_jobs(vec![job(0, "a(x)", JobStatus::Done, 0), job(1, "a(x)", JobStatus::Running, 2)]);
    let mut repo = ok.expect("well formed");
    assert_eq!(repo.reset_stale_jobs(9), 1);
    assert!(BacktestRepository::from_jobs(vec![job(0, "a(x)", JobStatus::Queued, 0), job(1, "a(x)", JobStatus::RetryWait, 1)]).is_none());
    assert!(BacktestRepository::from_jobs(vec![job(1, "a(x)", JobStatus::Queued, 0)]).is_none());
    assert!(BacktestRepository::from_jobs(vec![job(0, "a(x)", JobStatus::Queued, 6)]).is_none());
}
