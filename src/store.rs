use vstd::prelude::*;
use crate::alpha::{done_record, has_row, opt_json_view, row_index, AlphaRecord, AlphaRepository, AlphaStatus};
use crate::json::JsonV;
use crate::job::{failure_post, update_post, BacktestRepository, FailureOutcome, Job, JobStatus, RepoError};
use crate::model::BacktestError;
use crate::worker::BacktestResult;

verus! {

/// Relies on `rand::random`, which draws from the thread-local generator;
/// nothing is assumed of the value drawn.
pub assume_specification<T>[ rand::random::<T> ]() -> (r: T)
    where
        rand::distributions::Standard: rand::distributions::Distribution<T>,
;

pub open spec fn opt_text(o: Option<String>) -> Option<Seq<char>> {
    match o {
        Some(x) => Some(x@),
        None => None,
    }
}

/// `j1` is `j0` marked DONE with the fetched values; a value that did not
/// come back leaves the job's own.
pub open spec fn job_done(
    j0: Job,
    j1: Job,
    simulation_id: Option<Seq<char>>,
    alpha_id: Option<Seq<char>>,
    metrics: Option<JsonV>,
    checks: Option<JsonV>,
    now: i64,
) -> bool {
    &&& j1 == (Job {
        status: JobStatus::Done,
        simulation_id: j1.simulation_id,
        alpha_id: j1.alpha_id,
        metrics_json: j1.metrics_json,
        checks_json: j1.checks_json,
        updated_at: now,
        ..j0
    })
    &&& opt_text(j1.simulation_id) == if simulation_id is Some { simulation_id } else { opt_text(j0.simulation_id) }
    &&& opt_text(j1.alpha_id) == if alpha_id is Some { alpha_id } else { opt_text(j0.alpha_id) }
    &&& opt_json_view(j1.metrics_json) == if metrics is Some { metrics } else { opt_json_view(j0.metrics_json) }
    &&& opt_json_view(j1.checks_json) == if checks is Some { checks } else { opt_json_view(j0.checks_json) }
}

/// The durable state of the engine: the job queue and the alpha records it
/// keeps in step with the jobs.
pub struct JobStore {
    pub jobs: BacktestRepository,
    pub alphas: AlphaRepository,
}

impl JobStore {
    pub open spec fn wf(&self) -> bool {
        self.jobs.wf() && self.alphas.wf()
    }

    pub fn new() -> (r: Self)
        ensures
            r.wf(),
            r.jobs@.len() == 0,
            r.alphas@.len() == 0,
    {
        JobStore { jobs: BacktestRepository::new(), alphas: AlphaRepository::new() }
    }

    /// Enqueues `expression` (see `BacktestRepository::create_job`) and makes
    /// sure a PENDING alpha record exists for it.
    pub fn enqueue(&mut self, expression: String, region: String, universe: String, now: i64) -> (r: Option<usize>)
        requires
            old(self).wf(),
        ensures
            final(self).wf(),
            crate::job::enqueue_post(old(self).jobs@, expression@, region@, universe@, now, final(self).jobs@, r),
            has_row(final(self).alphas@, expression@),
            has_row(old(self).alphas@, expression@) ==> final(self).alphas@ == old(self).alphas@,
    {
        let def = crate::alpha::AlphaDefinition {
            expression: expression.clone(),
            region: region.clone(),
            universe: universe.clone(),
            language: "FASTEXPR".to_string(),
            delay: crate::generate::DEFAULT_DELAY,
            decay: crate::generate::DEFAULT_DECAY,
            neutralization: "INDUSTRY".to_string(),
            operator_count: 0,
        };
        let inserted = self.alphas.insert_or_ignore_alpha(def, now);
        proof {
            if inserted {
                assert(self.alphas@[self.alphas@.len() - 1].expression@ == expression@);
            }
        }
        self.jobs.create_job(expression, region, universe, now)
    }

    /// A worker starts on job `id`: the job goes to SUBMITTING and the
    /// matching alpha record, if any, to SIMULATING.
    pub fn begin_attempt(&mut self, id: usize, now: i64) -> (r: Result<(), RepoError>)
        requires
            old(self).wf(),
        ensures
            final(self).wf(),
            update_post(
                old(self).jobs@,
                id,
                final(self).jobs@,
                r,
                r is Ok && final(self).jobs@ == old(self).jobs@.update(
                    id as int,
                    Job { status: JobStatus::Submitting, updated_at: now, ..old(self).jobs@[id as int] },
                ) && (has_row(old(self).alphas@, old(self).jobs@[id as int].expression@) ==> ({
                    let i = row_index(old(self).alphas@, old(self).jobs@[id as int].expression@);
                    final(self).alphas@ == old(self).alphas@.update(
                        i,
                        AlphaRecord { status: AlphaStatus::Simulating, updated_at: now, ..old(self).alphas@[i] },
                    )
                })) && (!has_row(old(self).alphas@, old(self).jobs@[id as int].expression@)
                    ==> final(self).alphas@ == old(self).alphas@),
            ),
            r is Err ==> final(self).alphas@ == old(self).alphas@,
    {
        let res = self.jobs.mark_status(id, JobStatus::Submitting, None, now);
        match res {
            Err(e) => Err(e),
            Ok(()) => {
                let expr = self.jobs.job(id).expression.clone();
                self.alphas.mark_simulating(&expr, now);
                assert(final(self).jobs@ =~= old(self).jobs@.update(
                    id as int,
                    Job { status: JobStatus::Submitting, updated_at: now, ..old(self).jobs@[id as int] },
                ));
                Ok(())
            },
        }
    }

    /// A worker attempt succeeded: the job is DONE with what was fetched, and
    /// when an alpha id came back the alpha record is DONE with its core
    /// metrics and with the metrics and checks deep-merged in.
    pub fn finish_success(&mut self, id: usize, result: BacktestResult, now: i64) -> (r: Result<(), RepoError>)
        requires
            old(self).wf(),
        ensures
            final(self).wf(),
            id >= old(self).jobs@.len() ==> r == Err::<(), RepoError>(RepoError::RecordNotFound),
            id < old(self).jobs@.len() && crate::job::is_terminal(old(self).jobs@[id as int].status) ==> r
                == Err::<(), RepoError>(RepoError::TerminalState),
            id < old(self).jobs@.len() && !crate::job::is_terminal(old(self).jobs@[id as int].status) ==> r is Ok,
            r is Err ==> final(self).jobs@ == old(self).jobs@ && final(self).alphas@ == old(self).alphas@,
            r is Ok ==> final(self).jobs@.len() == old(self).jobs@.len() && (forall|j: int|
                0 <= j < old(self).jobs@.len() && j != id ==> final(self).jobs@[j] == old(self).jobs@[j])
                && job_done(
                old(self).jobs@[id as int],
                final(self).jobs@[id as int],
                opt_text(result.simulation_id),
                opt_text(result.alpha_id),
                opt_json_view(result.metrics_json),
                opt_json_view(result.checks_json),
                now,
            ),
            r is Ok && result.alpha_id is Some && has_row(old(self).alphas@, old(self).jobs@[id as int].expression@)
                ==> ({
                let i = row_index(old(self).alphas@, old(self).jobs@[id as int].expression@);
                &&& final(self).alphas@.len() == old(self).alphas@.len()
                &&& forall|j: int| 0 <= j < old(self).alphas@.len() && j != i ==> final(self).alphas@[j] == old(self).alphas@[j]
                &&& done_record(
                    old(self).alphas@[i],
                    final(self).alphas@[i],
                    result.core_metrics,
                    opt_json_view(result.metrics_json),
                    opt_json_view(result.checks_json),
                    now,
                )
            }),
            r is Ok && (result.alpha_id is None || !has_row(old(self).alphas@, old(self).jobs@[id as int].expression@))
                ==> final(self).alphas@ == old(self).alphas@,
    {
        let BacktestResult { alpha_id, simulation_id, core_metrics, metrics_json, checks_json } = result;
        let has_alpha = alpha_id.is_some();
        let m_copy = match &metrics_json {
            Some(m) => Some(m.deep_clone()),
            None => None,
        };
        let c_copy = match &checks_json {
            Some(c) => Some(c.deep_clone()),
            None => None,
        };
        let res = self.jobs.mark_done(id, simulation_id, alpha_id, m_copy, c_copy, now);
        match res {
            Err(e) => Err(e),
            Ok(()) => {
                if has_alpha {
                    let expr = self.jobs.job(id).expression.clone();
                    proof {
                        crate::alpha::lemma_row_index(self.alphas@, expr@);
                    }
                    self.alphas.mark_done(&expr, core_metrics, metrics_json, checks_json, now);
                }
                Ok(())
            },
        }
    }

    /// A worker attempt failed: the retry policy decides the job's next
    /// state, and a permanent failure also marks the alpha record ERROR.
    pub fn finish_error(&mut self, id: usize, err: &BacktestError, jitter: u8, now: i64) -> (r: Result<
        FailureOutcome,
        RepoError,
    >)
        requires
            old(self).wf(),
        ensures
            final(self).wf(),
            failure_post(old(self).jobs@, final(self).jobs@, id, err.retryable, err.message, jitter, now, r),
            match r {
                Ok(FailureOutcome::Permanent { .. }) => has_row(
                    old(self).alphas@,
                    old(self).jobs@[id as int].expression@,
                ) ==> final(self).alphas@[row_index(old(self).alphas@, old(self).jobs@[id as int].expression@)].status
                    == AlphaStatus::Error,
                _ => final(self).alphas@ == old(self).alphas@,
            },
    {
        let res = self.jobs.handle_error(id, err, jitter, now);
        match res {
            Ok(FailureOutcome::Permanent { kind }) => {
                let expr = self.jobs.job(id).expression.clone();
                proof {
                    crate::alpha::lemma_row_index(self.alphas@, expr@);
                }
                self.alphas.mark_error(&expr, now);
                Ok(FailureOutcome::Permanent { kind })
            },
            other => other,
        }
    }

    /// `finish_error` with a jitter percentage drawn uniformly from 0..=20
    /// (a 64-bit draw reduced mod 21).
    pub fn finish_error_now(&mut self, id: usize, err: &BacktestError, now: i64) -> (r: Result<FailureOutcome, RepoError>)
        requires
            old(self).wf(),
        ensures
            final(self).wf(),
            exists|jitter: u8| failure_post(old(self).jobs@, final(self).jobs@, id, err.retryable, err.message, jitter, now, r),
            match r {
                Ok(FailureOutcome::Permanent { .. }) => has_row(
                    old(self).alphas@,
                    old(self).jobs@[id as int].expression@,
                ) ==> final(self).alphas@[row_index(old(self).alphas@, old(self).jobs@[id as int].expression@)].status
                    == AlphaStatus::Error,
                _ => final(self).alphas@ == old(self).alphas@,
            },
    {
        let draw: u64 = rand::random::<u64>();
        let jitter: u8 = (draw % 21) as u8;
        self.finish_error(id, err, jitter, now)
    }
}

} // verus!
