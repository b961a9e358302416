use vstd::prelude::*;
use crate::json::Json;
use crate::model::{BacktestError, BacktestStats};

verus! {

/// States of the per-job machine.
#[derive(Debug, Clone, Copy, PartialEq, Eq, Structural)]
pub enum JobStatus {
    Queued,
    RetryWait,
    Claimed,
    Submitting,
    Running,
    Fetching,
    Done,
    FailedPermanent,
}

/// The kind recorded with the last failure of a job.
#[derive(Debug, Clone, Copy, PartialEq, Eq, Structural)]
pub enum ErrorKind {
    Retryable,
    Permanent,
    RetryExceeded,
}

/// One request to simulate one expression once.
#[derive(Debug)]
pub struct Job {
    pub id: usize,
    pub expression: String,
    pub region: String,
    pub universe: String,
    pub status: JobStatus,
    pub priority: i32,
    pub retry_count: u32,
    pub max_retries: u32,
    pub next_run_at: i64,
    pub claimed_by: Option<String>,
    pub claimed_at: Option<i64>,
    pub simulation_id: Option<String>,
    pub alpha_id: Option<String>,
    pub metrics_json: Option<Json>,
    pub checks_json: Option<Json>,
    pub last_error_kind: Option<ErrorKind>,
    pub last_error_code: Option<String>,
    pub last_error_message: Option<String>,
    pub created_at: i64,
    pub updated_at: i64,
}

/// Why a store operation was refused.
#[derive(Debug, Clone, Copy, PartialEq, Eq, Structural)]
pub enum RepoError {
    /// No job has that id.
    RecordNotFound,
    /// The job is DONE or FAILED_PERMANENT and accepts no further transition.
    TerminalState,
    /// The job has used its whole retry budget.
    RetryBudgetExhausted,
}

/// What the retry policy decided for a failed attempt.
#[derive(Debug, Clone, Copy, PartialEq, Eq, Structural)]
pub enum FailureOutcome {
    /// The job waits in RETRY_WAIT; `attempt` is its new retry count.
    Retry { attempt: u32, max_retries: u32, next_run_at: i64 },
    /// The job is FAILED_PERMANENT with this kind.
    Permanent { kind: ErrorKind },
}

pub const DEFAULT_MAX_RETRIES: u32 = 5;
pub const BACKOFF_BASE_SECS: u64 = 5;
pub const BACKOFF_CAP_SECS: u64 = 600;
pub const BACKOFF_MAX_EXPONENT: u32 = 10;

pub open spec fn is_terminal(s: JobStatus) -> bool {
    s == JobStatus::Done || s == JobStatus::FailedPermanent
}

pub open spec fn is_in_flight(s: JobStatus) -> bool {
    s == JobStatus::Claimed || s == JobStatus::Submitting || s == JobStatus::Running
        || s == JobStatus::Fetching
}

pub open spec fn is_waiting(s: JobStatus) -> bool {
    s == JobStatus::Queued || s == JobStatus::RetryWait
}

pub open spec fn is_claimable(j: Job, now: i64) -> bool {
    is_waiting(j.status) && j.next_run_at <= now
}

/// Claim order: higher priority first, then older, then lower id.
pub open spec fn claim_precedes(a: Job, b: Job) -> bool {
    a.priority > b.priority || (a.priority == b.priority && (a.created_at < b.created_at || (
    a.created_at == b.created_at && a.id <= b.id)))
}

/// Store well-formedness: ids are positions, the retry budget is respected,
/// and no two live jobs share an expression.
pub open spec fn wf_jobs(js: Seq<Job>) -> bool {
    &&& forall|i: int| 0 <= i < js.len() ==> (#[trigger] js[i]).id == i
    &&& forall|i: int| 0 <= i < js.len() ==> (#[trigger] js[i]).retry_count <= js[i].max_retries
    &&& forall|i: int, k: int|
        0 <= i < js.len() && 0 <= k < js.len() && i != k && !is_terminal(js[i].status)
            && !is_terminal(js[k].status) ==> (#[trigger] js[i]).expression@ != (
        #[trigger] js[k]).expression@
}

pub open spec fn has_live_job(js: Seq<Job>, expr: Seq<char>) -> bool {
    exists|i: int| 0 <= i < js.len() && !is_terminal(js[i].status) && (#[trigger] js[i]).expression@ == expr
}

/// The relation between the store before and after `create_job`.
pub open spec fn enqueue_post(
    s0: Seq<Job>,
    expr: Seq<char>,
    region: Seq<char>,
    universe: Seq<char>,
    now: i64,
    s1: Seq<Job>,
    r: Option<usize>,
) -> bool {
    if has_live_job(s0, expr) {
        r is None && s1 == s0
    } else {
        &&& r == Some(s0.len() as usize)
        &&& s1.len() == s0.len() + 1
        &&& s1.subrange(0, s0.len() as int) == s0
        &&& fresh_job(s1[s0.len() as int], s0.len() as usize, expr, region, universe, now)
    }
}

pub open spec fn fresh_job(
    j: Job,
    id: usize,
    expr: Seq<char>,
    region: Seq<char>,
    universe: Seq<char>,
    now: i64,
) -> bool {
    &&& j.id == id
    &&& j.expression@ == expr
    &&& j.region@ == region
    &&& j.universe@ == universe
    &&& j.status == JobStatus::Queued
    &&& j.priority == 0
    &&& j.retry_count == 0
    &&& j.max_retries == DEFAULT_MAX_RETRIES
    &&& j.next_run_at == now
    &&& j.claimed_by is None
    &&& j.claimed_at is None
    &&& j.simulation_id is None
    &&& j.alpha_id is None
    &&& j.metrics_json is None
    &&& j.checks_json is None
    &&& j.last_error_kind is None
    &&& j.last_error_code is None
    &&& j.last_error_message is None
    &&& j.created_at == now
    &&& j.updated_at == now
}

/// `k` is the job that `claim_next` must pick at time `now`.
pub open spec fn is_claim_pick(s: Seq<Job>, k: int, now: i64) -> bool {
    &&& 0 <= k < s.len()
    &&& is_claimable(s[k], now)
    &&& forall|i: int| 0 <= i < s.len() && is_claimable(#[trigger] s[i], now) ==> claim_precedes(s[k], s[i])
}

/// The relation between the store before and after a successful claim of job `k`.
pub open spec fn claim_post(s0: Seq<Job>, s1: Seq<Job>, k: int, worker: Seq<char>, now: i64) -> bool {
    &&& is_claim_pick(s0, k, now)
    &&& s1.len() == s0.len()
    &&& forall|i: int| 0 <= i < s0.len() && i != k ==> s1[i] == s0[i]
    &&& s1[k] == (Job {
        status: JobStatus::Claimed,
        claimed_by: s1[k].claimed_by,
        claimed_at: Some(now),
        updated_at: now,
        ..s0[k]
    })
    &&& s1[k].claimed_by matches Some(w) && w@ == worker
}

/// Retry delay before jitter: `min(cap, base * 2^min(retry_count, 10))`.
pub open spec fn backoff_floor(retry_count: u32) -> int {
    let e = if retry_count < BACKOFF_MAX_EXPONENT { retry_count as nat } else { BACKOFF_MAX_EXPONENT as nat };
    let d = BACKOFF_BASE_SECS * exp2(e);
    if d < BACKOFF_CAP_SECS { d as int } else { BACKOFF_CAP_SECS as int }
}

/// Retry delay with jitter: the floor plus `(jitter mod 21)` percent of it.
pub open spec fn backoff_spec(retry_count: u32, jitter: u8) -> int {
    backoff_floor(retry_count) + backoff_floor(retry_count) * ((jitter % 21) as int) / 100
}

/// Counts the jobs of `s` whose status satisfies `p`.
pub open spec fn count_status(s: Seq<Job>, p: spec_fn(JobStatus) -> bool) -> nat
    decreases s.len(),
{
    if s.len() == 0 {
        0
    } else {
        count_status(s.drop_last(), p) + if p(s.last().status) { 1nat } else { 0nat }
    }
}

pub open spec fn count_exceeded(s: Seq<Job>) -> nat
    decreases s.len(),
{
    if s.len() == 0 {
        0
    } else {
        count_exceeded(s.drop_last()) + if s.last().last_error_kind == Some(ErrorKind::RetryExceeded) {
            1nat
        } else {
            0nat
        }
    }
}


/// Status, retry count and error kind after one failed attempt of a live job.
pub open spec fn after_failure(retry_count: u32, max_retries: u32, retryable: bool) -> (JobStatus, u32, ErrorKind) {
    if retryable && retry_count < max_retries {
        (JobStatus::RetryWait, (retry_count + 1) as u32, ErrorKind::Retryable)
    } else if !retryable {
        (JobStatus::FailedPermanent, retry_count, ErrorKind::Permanent)
    } else {
        (JobStatus::FailedPermanent, retry_count, ErrorKind::RetryExceeded)
    }
}

/// `now + delay`, held at `i64::MAX`.
pub open spec fn later(now: i64, delay: int) -> i64 {
    if now + delay > i64::MAX { i64::MAX } else { (now + delay) as i64 }
}

/// Shared outcome of the update operations: unknown id, terminal job, or `ok`.
pub open spec fn update_post(s0: Seq<Job>, id: usize, s1: Seq<Job>, r: Result<(), RepoError>, ok: bool) -> bool {
    if id >= s0.len() {
        r == Err::<(), RepoError>(RepoError::RecordNotFound) && s1 == s0
    } else if is_terminal(s0[id as int].status) {
        r == Err::<(), RepoError>(RepoError::TerminalState) && s1 == s0
    } else {
        ok
    }
}

/// `2^n`.
pub open spec fn exp2(n: nat) -> nat
    decreases n,
{
    if n == 0 { 1 } else { 2 * exp2((n - 1) as nat) }
}

/// The relation between the store before and after `handle_error` on job `id`.
pub open spec fn failure_post(
    s0: Seq<Job>,
    s1: Seq<Job>,
    id: usize,
    retryable: bool,
    message: String,
    jitter: u8,
    now: i64,
    r: Result<FailureOutcome, RepoError>,
) -> bool {
    if id >= s0.len() {
        r == Err::<FailureOutcome, RepoError>(RepoError::RecordNotFound) && s1 == s0
    } else if is_terminal(s0[id as int].status) {
        r == Err::<FailureOutcome, RepoError>(RepoError::TerminalState) && s1 == s0
    } else {
        let j = s0[id as int];
        let step = after_failure(j.retry_count, j.max_retries, retryable);
        let next = later(now, backoff_spec(j.retry_count, jitter));
        &&& r == Ok::<FailureOutcome, RepoError>(
            if step.0 == JobStatus::RetryWait {
                FailureOutcome::Retry { attempt: step.1, max_retries: j.max_retries, next_run_at: next }
            } else {
                FailureOutcome::Permanent { kind: step.2 }
            },
        )
        &&& s1 =~= s0.update(
            id as int,
            Job {
                status: step.0,
                retry_count: step.1,
                next_run_at: if step.0 == JobStatus::RetryWait { next } else { j.next_run_at },
                last_error_kind: Some(step.2),
                last_error_code: None,
                last_error_message: Some(message),
                updated_at: now,
                ..j
            },
        )
    }
}

impl JobStatus {
    pub fn terminal(&self) -> (r: bool)
        ensures
            r == is_terminal(*self),
    {
        matches!(self, JobStatus::Done | JobStatus::FailedPermanent)
    }

    pub fn in_flight(&self) -> (r: bool)
        ensures
            r == is_in_flight(*self),
    {
        matches!(self, JobStatus::Claimed | JobStatus::Submitting | JobStatus::Running | JobStatus::Fetching)
    }

    pub fn waiting(&self) -> (r: bool)
        ensures
            r == is_waiting(*self),
    {
        matches!(self, JobStatus::Queued | JobStatus::RetryWait)
    }
}

/// The job queue: every job ever enqueued, indexed by id.
pub struct BacktestRepository {
    jobs: Vec<Job>,
}

impl View for BacktestRepository {
    type V = Seq<Job>;

    closed spec fn view(&self) -> Seq<Job> {
        self.jobs@
    }
}

impl BacktestRepository {
    pub open spec fn wf(&self) -> bool {
        wf_jobs(self@)
    }

    /// An empty queue.
    pub fn new() -> (r: Self)
        ensures
            r@ == Seq::<Job>::empty(),
            r.wf(),
    {
        BacktestRepository { jobs: Vec::new() }
    }

    /// A queue holding `jobs`, as reloaded from a snapshot; `None` when they
    /// are not well formed (ids not their positions, a retry count over its
    /// budget, or two live jobs for one expression).
    pub fn from_jobs(jobs: Vec<Job>) -> (r: Option<Self>)
        ensures
            match r {
                Some(x) => x@ == jobs@ && x.wf(),
                None => !wf_jobs(jobs@),
            },
    {
        let n = jobs.len();
        let mut i: usize = 0;
        while i < n
            invariant
                n == jobs@.len(),
                i <= n,
                forall|k: int| 0 <= k < i ==> (#[trigger] jobs@[k]).id == k && jobs@[k].retry_count <= jobs@[k].max_retries,
                forall|a: int, b: int|
                    0 <= a < i && 0 <= b < n && a != b && !is_terminal(jobs@[a].status) && !is_terminal(jobs@[b].status)
                        ==> (#[trigger] jobs@[a]).expression@ != (#[trigger] jobs@[b]).expression@,
            decreases n - i,
        {
            if jobs[i].id != i || jobs[i].retry_count > jobs[i].max_retries {
                return None;
            }
            if !jobs[i].status.terminal() {
                let mut j: usize = 0;
                while j < n
                    invariant
                        n == jobs@.len(),
                        i < n,
                        j <= n,
                        !is_terminal(jobs@[i as int].status),
                        forall|b: int|
                            0 <= b < j && b != i && !is_terminal(jobs@[b].status) ==> jobs@[i as int].expression@ != (
                            #[trigger] jobs@[b]).expression@,
                    decreases n - j,
                {
                    if j != i && !jobs[j].status.terminal() && jobs[j].expression == jobs[i].expression {
                        assert(!wf_jobs(jobs@)) by {
                            assert(jobs@[i as int].expression@ == jobs@[j as int].expression@);
                        }
                        return None;
                    }
                    j += 1;
                }
            }
            i += 1;
        }
        Some(BacktestRepository { jobs })
    }

    /// Number of jobs held, terminal ones included.
    pub fn len(&self) -> (r: usize)
        ensures
            r == self@.len(),
    {
        self.jobs.len()
    }

    /// The job with the given id.
    pub fn job(&self, id: usize) -> (r: &Job)
        requires
            id < self@.len(),
        ensures
            *r == self@[id as int],
    {
        &self.jobs[id]
    }

    /// Enqueues `expression` unless a live job already holds it; returns the new id.
    pub fn create_job(&mut self, expression: String, region: String, universe: String, now: i64) -> (r:
        Option<usize>)
        requires
            old(self).wf(),
        ensures
            final(self).wf(),
            enqueue_post(old(self)@, expression@, region@, universe@, now, final(self)@, r),
    {
        let n = self.jobs.len();
        let mut i: usize = 0;
        while i < n
            invariant
                n == self.jobs@.len(),
                i <= n,
                self@ == old(self)@,
                wf_jobs(self@),
                forall|k: int|
                    0 <= k < i ==> is_terminal(self.jobs@[k].status) || (#[trigger] self.jobs@[k]).expression@
                        != expression@,
            decreases n - i,
        {
            if !self.jobs[i].status.terminal() && self.jobs[i].expression == expression {
                assert(self.jobs@[i as int] == old(self)@[i as int]);
                assert(has_live_job(old(self)@, expression@));
                return None;
            }
            i += 1;
        }
        let job = Job {
            id: n,
            expression,
            region,
            universe,
            status: JobStatus::Queued,
            priority: 0,
            retry_count: 0,
            max_retries: DEFAULT_MAX_RETRIES,
            next_run_at: now,
            claimed_by: None,
            claimed_at: None,
            simulation_id: None,
            alpha_id: None,
            metrics_json: None,
            checks_json: None,
            last_error_kind: None,
            last_error_code: None,
            last_error_message: None,
            created_at: now,
            updated_at: now,
        };
        self.jobs.push(job);
        assert(self@.subrange(0, n as int) =~= old(self)@);
        Some(n)
    }

    /// Atomically picks the first claimable job in claim order and marks it CLAIMED.
    pub fn claim_next(&mut self, worker_id: &str, now: i64) -> (r: Option<usize>)
        requires
            old(self).wf(),
        ensures
            final(self).wf(),
            match r {
                None => final(self)@ == old(self)@ && forall|i: int|
                    0 <= i < old(self)@.len() ==> !is_claimable(#[trigger] old(self)@[i], now),
                Some(k) => claim_post(old(self)@, final(self)@, k as int, worker_id@, now),
            },
    {
        let n = self.jobs.len();
        let mut best: Option<usize> = None;
        let mut i: usize = 0;
        while i < n
            invariant
                n == self.jobs@.len(),
                i <= n,
                wf_jobs(self.jobs@),
                match best {
                    None => forall|k: int| 0 <= k < i ==> !is_claimable(#[trigger] self.jobs@[k], now),
                    Some(b) => b < i && is_claimable(self.jobs@[b as int], now) && forall|k: int|
                        0 <= k < i && is_claimable(#[trigger] self.jobs@[k], now) ==> claim_precedes(
                            self.jobs@[b as int],
                            self.jobs@[k],
                        ),
                },
            decreases n - i,
        {
            if self.jobs[i].status.waiting() && self.jobs[i].next_run_at <= now {
                match best {
                    None => {
                        best = Some(i);
                    },
                    Some(b) => {
                        if self.jobs[i].priority > self.jobs[b].priority || (self.jobs[i].priority
                            == self.jobs[b].priority && self.jobs[i].created_at
                            < self.jobs[b].created_at) {
                            best = Some(i);
                        }
                    },
                }
            }
            i += 1;
        }
        match best {
            None => None,
            Some(b) => {
                let w = worker_id.to_owned();
                self.jobs[b].status = JobStatus::Claimed;
                self.jobs[b].claimed_by = Some(w);
                self.jobs[b].claimed_at = Some(now);
                self.jobs[b].updated_at = now;
                Some(b)
            },
        }
    }

    /// Moves a live job to `status`, recording the simulation id when given.
    pub fn mark_status(&mut self, id: usize, status: JobStatus, simulation_id: Option<String>, now: i64) -> (r:
        Result<(), RepoError>)
        requires
            old(self).wf(),
        ensures
            final(self).wf(),
            update_post(
                old(self)@,
                id,
                final(self)@,
                r,
                r is Ok && final(self)@ =~= old(self)@.update(
                    id as int,
                    Job {
                        status,
                        simulation_id: match simulation_id {
                            Some(x) => Some(x),
                            None => old(self)@[id as int].simulation_id,
                        },
                        updated_at: now,
                        ..old(self)@[id as int]
                    },
                ),
            ),
    {
        if id >= self.jobs.len() {
            return Err(RepoError::RecordNotFound);
        }
        if self.jobs[id].status.terminal() {
            return Err(RepoError::TerminalState);
        }
        self.jobs[id].status = status;
        match simulation_id {
            Some(x) => {
                self.jobs[id].simulation_id = Some(x);
            },
            None => {},
        }
        self.jobs[id].updated_at = now;
        assert(wf_jobs(self@)) by {
            assert forall|i: int| 0 <= i < self@.len() implies (#[trigger] self@[i]).id == i by {
                assert(old(self)@[i].id == i);
            }
        }
        Ok(())
    }

    /// Marks a live job DONE and stores what the fetch returned.
    pub fn mark_done(
        &mut self,
        id: usize,
        simulation_id: Option<String>,
        alpha_id: Option<String>,
        metrics_json: Option<Json>,
        checks_json: Option<Json>,
        now: i64,
    ) -> (r: Result<(), RepoError>)
        requires
            old(self).wf(),
        ensures
            final(self).wf(),
            update_post(
                old(self)@,
                id,
                final(self)@,
                r,
                r is Ok && final(self)@ =~= old(self)@.update(
                    id as int,
                    Job {
                        status: JobStatus::Done,
                        simulation_id: if simulation_id is Some { simulation_id } else { old(self)@[id as int].simulation_id },
                        alpha_id: if alpha_id is Some { alpha_id } else { old(self)@[id as int].alpha_id },
                        metrics_json: if metrics_json is Some { metrics_json } else { old(self)@[id as int].metrics_json },
                        checks_json: if checks_json is Some { checks_json } else { old(self)@[id as int].checks_json },
                        updated_at: now,
                        ..old(self)@[id as int]
                    },
                ),
            ),
    {
        if id >= self.jobs.len() {
            return Err(RepoError::RecordNotFound);
        }
        if self.jobs[id].status.terminal() {
            return Err(RepoError::TerminalState);
        }
        self.jobs[id].status = JobStatus::Done;
        if simulation_id.is_some() {
            self.jobs[id].simulation_id = simulation_id;
        }
        if alpha_id.is_some() {
            self.jobs[id].alpha_id = alpha_id;
        }
        if metrics_json.is_some() {
            self.jobs[id].metrics_json = metrics_json;
        }
        if checks_json.is_some() {
            self.jobs[id].checks_json = checks_json;
        }
        self.jobs[id].updated_at = now;
        assert(wf_jobs(self@)) by {
            assert forall|i: int| 0 <= i < self@.len() implies (#[trigger] self@[i]).id == i by {
                assert(old(self)@[i].id == i);
            }
        }
        Ok(())
    }

    /// Records a retryable failure: RETRY_WAIT, one more retry used, next eligibility at `next_run_at`.
    /// Refused once the job has used its whole retry budget.
    pub fn mark_failed_retryable(
        &mut self,
        id: usize,
        kind: ErrorKind,
        code: Option<String>,
        message: Option<String>,
        next_run_at: i64,
        now: i64,
    ) -> (r: Result<(), RepoError>)
        requires
            old(self).wf(),
        ensures
            final(self).wf(),
            update_post(
                old(self)@,
                id,
                final(self)@,
                r,
                if old(self)@[id as int].retry_count >= old(self)@[id as int].max_retries {
                    r == Err::<(), RepoError>(RepoError::RetryBudgetExhausted) && final(self)@ == old(self)@
                } else {
                    r is Ok && final(self)@ =~= old(self)@.update(
                        id as int,
                        Job {
                            status: JobStatus::RetryWait,
                            retry_count: (old(self)@[id as int].retry_count + 1) as u32,
                            next_run_at,
                            last_error_kind: Some(kind),
                            last_error_code: code,
                            last_error_message: message,
                            updated_at: now,
                            ..old(self)@[id as int]
                        },
                    )
                },
            ),
    {
        if id >= self.jobs.len() {
            return Err(RepoError::RecordNotFound);
        }
        if self.jobs[id].status.terminal() {
            return Err(RepoError::TerminalState);
        }
        if self.jobs[id].retry_count >= self.jobs[id].max_retries {
            return Err(RepoError::RetryBudgetExhausted);
        }
        let rc = self.jobs[id].retry_count + 1;
        self.jobs[id].status = JobStatus::RetryWait;
        self.jobs[id].retry_count = rc;
        self.jobs[id].next_run_at = next_run_at;
        self.jobs[id].last_error_kind = Some(kind);
        self.jobs[id].last_error_code = code;
        self.jobs[id].last_error_message = message;
        self.jobs[id].updated_at = now;
        assert(wf_jobs(self@)) by {
            assert forall|i: int| 0 <= i < self@.len() implies (#[trigger] self@[i]).id == i by {
                assert(old(self)@[i].id == i);
            }
        }
        Ok(())
    }

    /// Records a permanent failure: the job becomes FAILED_PERMANENT with `kind`.
    pub fn mark_failed_permanent(
        &mut self,
        id: usize,
        kind: ErrorKind,
        code: Option<String>,
        message: Option<String>,
        now: i64,
    ) -> (r: Result<(), RepoError>)
        requires
            old(self).wf(),
        ensures
            final(self).wf(),
            update_post(
                old(self)@,
                id,
                final(self)@,
                r,
                r is Ok && final(self)@ =~= old(self)@.update(
                    id as int,
                    Job {
                        status: JobStatus::FailedPermanent,
                        last_error_kind: Some(kind),
                        last_error_code: code,
                        last_error_message: message,
                        updated_at: now,
                        ..old(self)@[id as int]
                    },
                ),
            ),
    {
        if id >= self.jobs.len() {
            return Err(RepoError::RecordNotFound);
        }
        if self.jobs[id].status.terminal() {
            return Err(RepoError::TerminalState);
        }
        self.jobs[id].status = JobStatus::FailedPermanent;
        self.jobs[id].last_error_kind = Some(kind);
        self.jobs[id].last_error_code = code;
        self.jobs[id].last_error_message = message;
        self.jobs[id].updated_at = now;
        assert(wf_jobs(self@)) by {
            assert forall|i: int| 0 <= i < self@.len() implies (#[trigger] self@[i]).id == i by {
                assert(old(self)@[i].id == i);
            }
        }
        Ok(())
    }

    /// Applies the retry policy to a failed attempt of job `id`: a retryable error
    /// with budget left moves the job to RETRY_WAIT after an exponential backoff
    /// with `jitter`; otherwise the job fails for good, as RETRY_EXCEEDED when the
    /// error was retryable and as PERMANENT when it was not.
    pub fn handle_error(&mut self, id: usize, err: &BacktestError, jitter: u8, now: i64) -> (r: Result<
        FailureOutcome,
        RepoError,
    >)
        requires
            old(self).wf(),
        ensures
            final(self).wf(),
            failure_post(old(self)@, final(self)@, id, err.retryable, err.message, jitter, now, r),
    {
        if id >= self.jobs.len() {
            return Err(RepoError::RecordNotFound);
        }
        if self.jobs[id].status.terminal() {
            return Err(RepoError::TerminalState);
        }
        let rc = self.jobs[id].retry_count;
        let max = self.jobs[id].max_retries;
        let msg = err.message.clone();
        if err.retryable && rc < max {
            let delay = backoff_delay(rc, jitter);
            let next = if now > i64::MAX - (delay as i64) {
                i64::MAX
            } else {
                now + delay as i64
            };
            let res = self.mark_failed_retryable(id, ErrorKind::Retryable, None, Some(msg), next, now);
            proof {
                assert(res is Ok);
            }
            Ok(FailureOutcome::Retry { attempt: rc + 1, max_retries: max, next_run_at: next })
        } else {
            let kind = if !err.retryable {
                ErrorKind::Permanent
            } else {
                ErrorKind::RetryExceeded
            };
            let res = self.mark_failed_permanent(id, kind, None, Some(msg), now);
            proof {
                assert(res is Ok);
            }
            Ok(FailureOutcome::Permanent { kind })
        }
    }

    /// Recovery after a crash: every job caught mid-flight (CLAIMED, SUBMITTING,
    /// RUNNING, FETCHING) goes back to QUEUED, eligible at `now`. Returns how many.
    pub fn reset_stale_jobs(&mut self, now: i64) -> (r: usize)
        requires
            old(self).wf(),
        ensures
            final(self).wf(),
            final(self)@.len() == old(self)@.len(),
            forall|i: int|
                0 <= i < old(self)@.len() ==> (#[trigger] final(self)@[i]) == if is_in_flight(
                    old(self)@[i].status,
                ) {
                    Job { status: JobStatus::Queued, next_run_at: now, updated_at: now, ..old(self)@[i] }
                } else {
                    old(self)@[i]
                },
            forall|i: int| 0 <= i < final(self)@.len() ==> !is_in_flight(#[trigger] final(self)@[i].status),
            r == count_status(old(self)@, |s: JobStatus| is_in_flight(s)),
    {
        let n = self.jobs.len();
        let mut count: usize = 0;
        let mut i: usize = 0;
        while i < n
            invariant
                n == self.jobs@.len(),
                n == old(self)@.len(),
                i <= n,
                count <= i,
                count == count_status(old(self)@.subrange(0, i as int), |s: JobStatus| is_in_flight(s)),
                forall|k: int|
                    0 <= k < i ==> (#[trigger] self.jobs@[k]) == if is_in_flight(old(self)@[k].status) {
                        Job { status: JobStatus::Queued, next_run_at: now, updated_at: now, ..old(self)@[k] }
                    } else {
                        old(self)@[k]
                    },
                forall|k: int| i <= k < n ==> (#[trigger] self.jobs@[k]) == old(self)@[k],
            decreases n - i,
        {
            assert(old(self)@.subrange(0, i + 1).drop_last() =~= old(self)@.subrange(0, i as int));
            if self.jobs[i].status.in_flight() {
                self.jobs[i].status = JobStatus::Queued;
                self.jobs[i].next_run_at = now;
                self.jobs[i].updated_at = now;
                count += 1;
            }
            i += 1;
        }
        assert(old(self)@.subrange(0, n as int) =~= old(self)@);
        assert(wf_jobs(self@)) by {
            assert forall|a: int, b: int|
                0 <= a < self@.len() && 0 <= b < self@.len() && a != b && !is_terminal(self@[a].status)
                    && !is_terminal(self@[b].status) implies (#[trigger] self@[a]).expression@ != (
            #[trigger] self@[b]).expression@ by {
                assert(!is_terminal(old(self)@[a].status));
                assert(!is_terminal(old(self)@[b].status));
            }
            assert forall|a: int| 0 <= a < self@.len() implies (#[trigger] self@[a]).id == a && self@[a].retry_count <= self@[a].max_retries by {
                assert(old(self)@[a].id == a);
            }
        }
        count
    }

    /// Counts of jobs by state.
    pub fn get_stats(&self) -> (r: BacktestStats)
        ensures
            r.total == self@.len(),
            r.pending == count_status(self@, |s: JobStatus| s == JobStatus::Queued),
            r.running == count_status(self@, |s: JobStatus| is_in_flight(s)),
            r.completed == count_status(self@, |s: JobStatus| s == JobStatus::Done),
            r.error_retryable == count_status(self@, |s: JobStatus| s == JobStatus::RetryWait),
            r.error_fatal == count_status(self@, |s: JobStatus| s == JobStatus::FailedPermanent),
            r.error_exceeded == count_exceeded(self@),
    {
        let n = self.jobs.len();
        let mut st = BacktestStats {
            total: n,
            pending: 0,
            running: 0,
            completed: 0,
            error_retryable: 0,
            error_fatal: 0,
            error_exceeded: 0,
        };
        let mut i: usize = 0;
        while i < n
            invariant
                n == self.jobs@.len(),
                i <= n,
                st.total == n,
                st.pending <= i && st.running <= i && st.completed <= i && st.error_retryable <= i
                    && st.error_fatal <= i && st.error_exceeded <= i,
                st.pending == count_status(self@.subrange(0, i as int), |s: JobStatus| s == JobStatus::Queued),
                st.running == count_status(self@.subrange(0, i as int), |s: JobStatus| is_in_flight(s)),
                st.completed == count_status(self@.subrange(0, i as int), |s: JobStatus| s == JobStatus::Done),
                st.error_retryable == count_status(
                    self@.subrange(0, i as int),
                    |s: JobStatus| s == JobStatus::RetryWait,
                ),
                st.error_fatal == count_status(
                    self@.subrange(0, i as int),
                    |s: JobStatus| s == JobStatus::FailedPermanent,
                ),
                st.error_exceeded == count_exceeded(self@.subrange(0, i as int)),
            decreases n - i,
        {
            assert(self@.subrange(0, i + 1).drop_last() =~= self@.subrange(0, i as int));
            let s = self.jobs[i].status;
            match s {
                JobStatus::Queued => st.pending = st.pending + 1,
                JobStatus::RetryWait => st.error_retryable = st.error_retryable + 1,
                JobStatus::Done => st.completed = st.completed + 1,
                JobStatus::FailedPermanent => st.error_fatal = st.error_fatal + 1,
                _ => st.running = st.running + 1,
            }
            if matches!(self.jobs[i].last_error_kind, Some(ErrorKind::RetryExceeded)) {
                st.error_exceeded = st.error_exceeded + 1;
            }
            i += 1;
        }
        assert(self@.subrange(0, n as int) =~= self@);
        st
    }

    /// Removes every job.
    pub fn wipe_all(&mut self)
        ensures
            final(self)@ == Seq::<Job>::empty(),
            final(self).wf(),
    {
        self.jobs = Vec::new();
    }
}

/// Retry delay in seconds after a failure at `retry_count`:
/// `min(600, 5 * 2^min(retry_count, 10))`, plus `(jitter mod 21)` percent of it.
pub fn backoff_delay(retry_count: u32, jitter: u8) -> (r: u64)
    ensures
        r == backoff_spec(retry_count, jitter),
        r <= 720,
{
    let e: u32 = if retry_count < BACKOFF_MAX_EXPONENT {
        retry_count
    } else {
        BACKOFF_MAX_EXPONENT
    };
    let mut p: u64 = 1;
    let mut k: u32 = 0;
    while k < e
        invariant
            k <= e,
            e <= 10,
            p == exp2(k as nat),
            p <= 1024,
        decreases e - k,
    {
        assert(exp2((k + 1) as nat) == 2 * exp2(k as nat));
        proof {
            lemma_exp2_bound((k + 1) as nat, 10);
            lemma_exp2_ten();
        }
        p = p * 2;
        k = k + 1;
    }
    let raw = BACKOFF_BASE_SECS * p;
    let d: u64 = if raw < BACKOFF_CAP_SECS {
        raw
    } else {
        BACKOFF_CAP_SECS
    };
    let m = (jitter % 21) as u64;
    assert(d * m <= 600 * 20) by (nonlinear_arith)
        requires
            d <= 600,
            m <= 20,
    ;
    assert(d * m / 100 <= 120);
    d + d * m / 100
}

proof fn lemma_exp2_ten()
    ensures
        exp2(10) == 1024,
{
    reveal_with_fuel(exp2, 11);
}

proof fn lemma_exp2_bound(k: nat, b: nat)
    requires
        k <= b,
    ensures
        exp2(k) <= exp2(b),
    decreases b,
{
    if k < b {
        lemma_exp2_bound(k, (b - 1) as nat);
    }
}

/// Status, retry count and last error kind of a fresh job after `n` retryable
/// failures, each on a live claim of the job.
pub open spec fn retry_path(max_retries: u32, n: nat) -> (JobStatus, u32, Option<ErrorKind>)
    decreases n,
{
    if n == 0 {
        (JobStatus::Queued, 0, None)
    } else {
        let p = retry_path(max_retries, (n - 1) as nat);
        if is_terminal(p.0) {
            p
        } else {
            let s = after_failure(p.1, max_retries, true);
            (s.0, s.1, Some(s.2))
        }
    }
}

/// A job handed out by `claim_next` is not handed out again while its state
/// stays outside QUEUED and RETRY_WAIT.
pub proof fn lemma_no_double_claim(
    s0: Seq<Job>,
    s1: Seq<Job>,
    s2: Seq<Job>,
    s3: Seq<Job>,
    k1: int,
    k2: int,
    w1: Seq<char>,
    w2: Seq<char>,
    now1: i64,
    now2: i64,
)
    requires
        claim_post(s0, s1, k1, w1, now1),
        0 <= k1 < s2.len(),
        !is_waiting(s2[k1].status),
        claim_post(s2, s3, k2, w2, now2),
    ensures
        k1 != k2,
        s1[k1].status == JobStatus::Claimed,
{
}

/// Of two enqueues of one expression, at most one returns an id: the second
/// sees the live job that the first created.
pub proof fn lemma_enqueue_idempotent(
    s0: Seq<Job>,
    s1: Seq<Job>,
    s2: Seq<Job>,
    expr: Seq<char>,
    region1: Seq<char>,
    universe1: Seq<char>,
    now1: i64,
    region2: Seq<char>,
    universe2: Seq<char>,
    now2: i64,
    r1: Option<usize>,
    r2: Option<usize>,
)
    requires
        enqueue_post(s0, expr, region1, universe1, now1, s1, r1),
        enqueue_post(s1, expr, region2, universe2, now2, s2, r2),
    ensures
        !(r1 is Some && r2 is Some),
{
    if r1 is Some {
        assert(!is_terminal(s1[s0.len() as int].status));
        assert(has_live_job(s1, expr));
    }
}

/// In a well-formed store an expression has at most one live job.
pub proof fn lemma_single_live_job(s: Seq<Job>, expr: Seq<char>)
    requires
        wf_jobs(s),
    ensures
        forall|i: int, k: int|
            0 <= i < s.len() && 0 <= k < s.len() && !is_terminal(s[i].status) && !is_terminal(
                s[k].status,
            ) && (#[trigger] s[i]).expression@ == expr && (#[trigger] s[k]).expression@ == expr ==> i == k,
{
}

/// The retry delay chosen at retry count `c` (the failure after `c` earlier
/// ones) lies between `min(cap, base * 2^c)` and 1.2 times that.
pub proof fn lemma_backoff_window(retry_count: u32, jitter: u8)
    requires
        retry_count <= BACKOFF_MAX_EXPONENT,
    ensures
        backoff_floor(retry_count) == if BACKOFF_BASE_SECS * exp2(retry_count as nat) < BACKOFF_CAP_SECS {
            (BACKOFF_BASE_SECS * exp2(retry_count as nat)) as int
        } else {
            BACKOFF_CAP_SECS as int
        },
        backoff_floor(retry_count) <= backoff_spec(retry_count, jitter),
        5 * backoff_spec(retry_count, jitter) <= 6 * backoff_floor(retry_count),
{
    let d = backoff_floor(retry_count);
    let m = (jitter % 21) as int;
    assert(d >= 0);
    assert(0 <= d * m <= d * 20) by (nonlinear_arith)
        requires
            d >= 0,
            0 <= m <= 20,
    ;
    assert(d * m / 100 <= d * 20 / 100);
    assert(d * 20 / 100 <= d / 5);
}

/// A fresh job that keeps failing with retryable errors is FAILED_PERMANENT with
/// kind RETRY_EXCEEDED exactly from its `max_retries + 1`-th failure on; before
/// that, after `n` failures it waits in RETRY_WAIT with retry count `n`.
pub proof fn lemma_retry_budget(max_retries: u32, n: nat)
    ensures
        n <= max_retries ==> retry_path(max_retries, n) == if n == 0 {
            (JobStatus::Queued, 0u32, None::<ErrorKind>)
        } else {
            (JobStatus::RetryWait, n as u32, Some(ErrorKind::Retryable))
        },
        (retry_path(max_retries, n).0 == JobStatus::FailedPermanent && retry_path(max_retries, n).2 == Some(
            ErrorKind::RetryExceeded,
        )) <==> n >= max_retries + 1,
    decreases n,
{
    if n > 0 {
        lemma_retry_budget(max_retries, (n - 1) as nat);
    }
}

/// The delay that `handle_error` sets on the `k`-th consecutive retryable
/// failure of a job (retry count `k - 1` before it, `k <= 10`, budget left)
/// lies between `min(cap, base * 2^(k-1))` and 1.2 times that.
pub proof fn lemma_retry_delay_window(
    s0: Seq<Job>,
    s1: Seq<Job>,
    id: usize,
    message: String,
    jitter: u8,
    now: i64,
    r: Result<FailureOutcome, RepoError>,
)
    requires
        failure_post(s0, s1, id, true, message, jitter, now, r),
        id < s0.len(),
        !is_terminal(s0[id as int].status),
        s0[id as int].retry_count < s0[id as int].max_retries,
        s0[id as int].retry_count < BACKOFF_MAX_EXPONENT,
        now <= i64::MAX - 720,
    ensures
        s1[id as int].status == JobStatus::RetryWait,
        s1[id as int].retry_count == s0[id as int].retry_count + 1,
        backoff_floor(s0[id as int].retry_count) <= s1[id as int].next_run_at - now,
        5 * (s1[id as int].next_run_at - now) <= 6 * backoff_floor(s0[id as int].retry_count),
{
    let rc = s0[id as int].retry_count;
    lemma_backoff_window(rc, jitter);
    assert(backoff_spec(rc, jitter) <= 720) by {
        assert(backoff_floor(rc) <= 600);
    }
}

/// Of any run of enqueues of one expression, at most one returns an id:
/// `states[i]` is the store before the `i`-th call and `results[i]` its result.
pub proof fn lemma_enqueue_run(
    states: Seq<Seq<Job>>,
    results: Seq<Option<usize>>,
    expr: Seq<char>,
    regions: Seq<Seq<char>>,
    universes: Seq<Seq<char>>,
    nows: Seq<i64>,
)
    requires
        states.len() == results.len() + 1,
        regions.len() == results.len(),
        universes.len() == results.len(),
        nows.len() == results.len(),
        forall|i: int|
            0 <= i < results.len() ==> enqueue_post(
                #[trigger] states[i],
                expr,
                regions[i],
                universes[i],
                nows[i],
                states[i + 1],
                results[i],
            ),
    ensures
        forall|i: int, j: int| 0 <= i < j < results.len() ==> !((#[trigger] results[i]) is Some && (#[trigger] results[j]) is Some),
{
    assert forall|i: int, j: int| 0 <= i < j < results.len() implies !((#[trigger] results[i]) is Some && (#[trigger] results[j]) is Some) by {
        if results[i] is Some {
            lemma_live_after(states, results, expr, regions, universes, nows, i, j);
        }
    }
}

proof fn lemma_live_after(
    states: Seq<Seq<Job>>,
    results: Seq<Option<usize>>,
    expr: Seq<char>,
    regions: Seq<Seq<char>>,
    universes: Seq<Seq<char>>,
    nows: Seq<i64>,
    i: int,
    j: int,
)
    requires
        states.len() == results.len() + 1,
        regions.len() == results.len(),
        universes.len() == results.len(),
        nows.len() == results.len(),
        forall|k: int|
            0 <= k < results.len() ==> enqueue_post(
                #[trigger] states[k],
                expr,
                regions[k],
                universes[k],
                nows[k],
                states[k + 1],
                results[k],
            ),
        0 <= i < j <= results.len(),
        results[i] is Some,
    ensures
        has_live_job(states[j], expr),
        j < results.len() ==> results[j] is None,
    decreases j - i,
{
    if j == i + 1 {
        assert(enqueue_post(states[i], expr, regions[i], universes[i], nows[i], states[i + 1], results[i]));
        let n = states[i].len() as int;
        assert(!is_terminal(states[i + 1][n].status));
        assert(states[i + 1][n].expression@ == expr);
    } else {
        lemma_live_after(states, results, expr, regions, universes, nows, i, j - 1);
        assert(enqueue_post(states[j - 1], expr, regions[j - 1], universes[j - 1], nows[j - 1], states[j], results[j - 1]));
    }
    if j < results.len() {
        assert(enqueue_post(states[j], expr, regions[j], universes[j], nows[j], states[j + 1], results[j]));
    }
}

/// Over any run of store states `ss`, where step `i` and a later step `j`
/// are claims that both hand out job `k`, the job was back in QUEUED or
/// RETRY_WAIT at some state between them.
pub proof fn lemma_claims_separated(
    ss: Seq<Seq<Job>>,
    i: int,
    j: int,
    k: int,
    wi: Seq<char>,
    wj: Seq<char>,
    ni: i64,
    nj: i64,
)
    requires
        0 <= i < j,
        j + 1 < ss.len(),
        claim_post(ss[i], ss[i + 1], k, wi, ni),
        claim_post(ss[j], ss[j + 1], k, wj, nj),
    ensures
        ss[i + 1][k].status == JobStatus::Claimed,
        exists|t: int| i + 1 < t <= j && is_waiting(#[trigger] ss[t][k].status),
{
    assert(is_claimable(ss[j][k], nj));
    assert(is_waiting(ss[j][k].status));
    assert(j != i + 1);
}

/// One retryable failure of a live job: status, retry count and kind as the
/// policy sets them, the budget kept. Claims between failures keep the
/// retry count and the budget, so a run of failures is a chain of these.
pub open spec fn failure_outcome(j0: Job, j1: Job) -> bool {
    let st = after_failure(j0.retry_count, j0.max_retries, true);
    &&& !is_terminal(j0.status)
    &&& j1.status == st.0
    &&& j1.retry_count == st.1
    &&& j1.last_error_kind == Some(st.2)
    &&& j1.max_retries == j0.max_retries
}

/// `handle_error` with a retryable error is one `failure_outcome` on the job.
pub proof fn lemma_failure_post_outcome(
    s0: Seq<Job>,
    s1: Seq<Job>,
    id: usize,
    message: String,
    jitter: u8,
    now: i64,
    r: Result<FailureOutcome, RepoError>,
)
    requires
        failure_post(s0, s1, id, true, message, jitter, now, r),
        id < s0.len(),
        !is_terminal(s0[id as int].status),
    ensures
        failure_outcome(s0[id as int], s1[id as int]),
{
}

proof fn lemma_budget_prefix(js: Seq<Job>, i: int)
    requires
        js.len() >= 1,
        js[0].retry_count == 0,
        !is_terminal(js[0].status),
        forall|t: int| 0 <= t < js.len() - 1 ==> failure_outcome(#[trigger] js[t], js[t + 1]),
        0 <= i < js.len(),
    ensures
        js[i].max_retries == js[0].max_retries,
        i <= js[0].max_retries ==> js[i].retry_count == i && (i > 0 ==> js[i].status == JobStatus::RetryWait),
        i <= js[0].max_retries + 1,
        i == js[0].max_retries + 1 ==> js[i].status == JobStatus::FailedPermanent && js[i].last_error_kind == Some(
            ErrorKind::RetryExceeded,
        ),
    decreases i,
{
    if i > 0 {
        lemma_budget_prefix(js, i - 1);
        assert(failure_outcome(js[i - 1], js[i]));
    }
}

/// Retry budget over a run of failures: `js[0]` is a fresh live job and
/// each `js[t + 1]` follows one retryable failure of `js[t]`. After `m`
/// failures, `m <= max_retries + 1`; the retry count is `m` while
/// `m <= max_retries`; and the job is FAILED_PERMANENT with RETRY_EXCEEDED
/// exactly when `m == max_retries + 1`.
pub proof fn lemma_retry_budget_run(js: Seq<Job>)
    requires
        js.len() >= 1,
        js[0].retry_count == 0,
        !is_terminal(js[0].status),
        forall|t: int| 0 <= t < js.len() - 1 ==> failure_outcome(#[trigger] js[t], js[t + 1]),
    ensures
        js.len() - 1 <= js[0].max_retries + 1,
        js.len() - 1 <= js[0].max_retries ==> js.last().retry_count == js.len() - 1,
        (js.last().status == JobStatus::FailedPermanent && js.last().last_error_kind == Some(ErrorKind::RetryExceeded))
            <==> js.len() - 1 == js[0].max_retries + 1,
{
    let m = js.len() - 1;
    lemma_budget_prefix(js, m);
    if m == 0 {
        assert(js.last() == js[0]);
    }
}

} // verus!
