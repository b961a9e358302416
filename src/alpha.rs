use vstd::prelude::*;
use crate::json::{merge, merge_all, merge_json, Json, JsonV};

verus! {

/// Lifecycle of an alpha record.
#[derive(Debug, Clone, Copy, PartialEq, Eq, Structural)]
pub enum AlphaStatus {
    Pending,
    Simulating,
    Done,
    Error,
}

/// What is known of an expression before it is simulated.
#[derive(Debug)]
pub struct AlphaDefinition {
    pub expression: String,
    pub region: String,
    pub universe: String,
    pub language: String,
    pub delay: i32,
    pub decay: i32,
    pub neutralization: String,
    pub operator_count: i32,
}

/// The six headline in-sample metrics, as the decimal text the upstream sent.
#[derive(Debug)]
pub struct CoreMetrics {
    pub is_sharpe: Option<String>,
    pub is_fitness: Option<String>,
    pub is_turnover: Option<String>,
    pub is_returns: Option<String>,
    pub is_drawdown: Option<String>,
    pub is_pnl: Option<String>,
}

/// One alpha row, keyed by its expression.
#[derive(Debug)]
pub struct AlphaRecord {
    pub expression: String,
    pub region: String,
    pub universe: String,
    pub language: String,
    pub delay: i32,
    pub decay: i32,
    pub neutralization: String,
    pub operator_count: i32,
    pub status: AlphaStatus,
    pub core: CoreMetrics,
    pub metrics_json: Json,
    pub checks_json: Json,
    pub created_at: i64,
    pub updated_at: i64,
}

/// Counts of alpha records by status.
#[derive(Debug, Clone, Copy, PartialEq, Eq, Structural)]
pub struct AlphaStatusCounts {
    pub pending: usize,
    pub simulating: usize,
    pub done: usize,
    pub error: usize,
}

/// The alpha records, at most one per expression.
pub struct AlphaRepository {
    rows: Vec<AlphaRecord>,
}

pub open spec fn wf_rows(rs: Seq<AlphaRecord>) -> bool {
    forall|i: int, k: int|
        0 <= i < rs.len() && 0 <= k < rs.len() && i != k ==> (#[trigger] rs[i]).expression@ != (
        #[trigger] rs[k]).expression@
}

pub open spec fn row_index(rs: Seq<AlphaRecord>, e: Seq<char>) -> int
    decreases rs.len(),
{
    if rs.len() == 0 {
        0
    } else if row_index(rs.drop_last(), e) < rs.len() - 1 {
        row_index(rs.drop_last(), e)
    } else if rs.last().expression@ == e {
        rs.len() - 1
    } else {
        rs.len() as int
    }
}

pub open spec fn has_row(rs: Seq<AlphaRecord>, e: Seq<char>) -> bool {
    exists|i: int| 0 <= i < rs.len() && (#[trigger] rs[i]).expression@ == e
}

/// A freshly inserted record for `d`: PENDING, no metrics, `{}` and `[]`.
pub open spec fn fresh_record(r: AlphaRecord, d: AlphaDefinition, now: i64) -> bool {
    &&& r.expression == d.expression
    &&& r.region == d.region
    &&& r.universe == d.universe
    &&& r.language == d.language
    &&& r.delay == d.delay
    &&& r.decay == d.decay
    &&& r.neutralization == d.neutralization
    &&& r.operator_count == d.operator_count
    &&& r.status == AlphaStatus::Pending
    &&& r.core.is_sharpe is None && r.core.is_fitness is None && r.core.is_turnover is None
    &&& r.core.is_returns is None && r.core.is_drawdown is None && r.core.is_pnl is None
    &&& r.metrics_json@ == JsonV::Object(Seq::empty())
    &&& r.checks_json@ == JsonV::Array(Seq::empty())
    &&& r.created_at == now
    &&& r.updated_at == now
}

/// `r` is a fresh record for one of `ds`.
pub open spec fn fresh_for_some(r: AlphaRecord, ds: Seq<AlphaDefinition>, now: i64) -> bool {
    exists|k: int| 0 <= k < ds.len() && fresh_record(r, #[trigger] ds[k], now)
}

pub open spec fn opt_or(new: Option<String>, old: Option<String>) -> Option<String> {
    if new is Some {
        new
    } else {
        old
    }
}

/// The record after `mark_done` with the given payloads.
pub open spec fn done_record(
    r0: AlphaRecord,
    r1: AlphaRecord,
    core: Option<CoreMetrics>,
    metrics: Option<JsonV>,
    checks: Option<JsonV>,
    now: i64,
) -> bool {
    &&& r1.expression == r0.expression && r1.region == r0.region && r1.universe == r0.universe
    &&& r1.language == r0.language && r1.delay == r0.delay && r1.decay == r0.decay
    &&& r1.neutralization == r0.neutralization && r1.operator_count == r0.operator_count
    &&& r1.created_at == r0.created_at
    &&& r1.status == AlphaStatus::Done
    &&& r1.updated_at == now
    &&& match core {
        Some(c) => r1.core.is_sharpe == opt_or(c.is_sharpe, r0.core.is_sharpe) && r1.core.is_fitness
            == opt_or(c.is_fitness, r0.core.is_fitness) && r1.core.is_turnover == opt_or(
            c.is_turnover,
            r0.core.is_turnover,
        ) && r1.core.is_returns == opt_or(c.is_returns, r0.core.is_returns) && r1.core.is_drawdown
            == opt_or(c.is_drawdown, r0.core.is_drawdown) && r1.core.is_pnl == opt_or(c.is_pnl, r0.core.is_pnl),
        None => r1.core == r0.core,
    }
    &&& r1.metrics_json@ == match metrics {
        Some(m) => merge(r0.metrics_json@, m),
        None => r0.metrics_json@,
    }
    &&& r1.checks_json@ == match checks {
        Some(c) => merge(r0.checks_json@, c),
        None => r0.checks_json@,
    }
}

pub open spec fn opt_json_view(o: Option<Json>) -> Option<JsonV> {
    match o {
        Some(j) => Some(j@),
        None => None,
    }
}

/// Status `st` counted over `rs`.
pub open spec fn count_alpha(rs: Seq<AlphaRecord>, st: AlphaStatus) -> nat
    decreases rs.len(),
{
    if rs.len() == 0 {
        0
    } else {
        count_alpha(rs.drop_last(), st) + if rs.last().status == st {
            1nat
        } else {
            0nat
        }
    }
}

pub proof fn lemma_row_index(rs: Seq<AlphaRecord>, e: Seq<char>)
    ensures
        0 <= row_index(rs, e) <= rs.len(),
        row_index(rs, e) < rs.len() ==> rs[row_index(rs, e)].expression@ == e,
        forall|j: int| 0 <= j < row_index(rs, e) ==> rs[j].expression@ != e,
    decreases rs.len(),
{
    if rs.len() > 0 {
        lemma_row_index(rs.drop_last(), e);
        assert forall|j: int| 0 <= j < row_index(rs, e) implies rs[j].expression@ != e by {
            if j < rs.len() - 1 {
                assert(rs[j] == rs.drop_last()[j]);
            }
        }
    }
}

impl View for AlphaRepository {
    type V = Seq<AlphaRecord>;

    closed spec fn view(&self) -> Seq<AlphaRecord> {
        self.rows@
    }
}

fn fresh_from(d: AlphaDefinition, now: i64) -> (r: AlphaRecord)
    ensures
        fresh_record(r, d, now),
{
    let mv: Vec<(String, Json)> = Vec::new();
    let cv: Vec<Json> = Vec::new();
    proof {
        crate::json::lemma_object_view(mv);
        crate::json::lemma_array_view(cv);
        assert(crate::json::members_view(mv@) =~= Seq::empty());
        assert(crate::json::items_view(cv@) =~= Seq::empty());
    }
    let r = AlphaRecord {
        expression: d.expression,
        region: d.region,
        universe: d.universe,
        language: d.language,
        delay: d.delay,
        decay: d.decay,
        neutralization: d.neutralization,
        operator_count: d.operator_count,
        status: AlphaStatus::Pending,
        core: CoreMetrics {
            is_sharpe: None,
            is_fitness: None,
            is_turnover: None,
            is_returns: None,
            is_drawdown: None,
            is_pnl: None,
        },
        metrics_json: Json::Object(mv),
        checks_json: Json::Array(cv),
        created_at: now,
        updated_at: now,
    };
    r
}

fn blank_record() -> AlphaRecord {
    AlphaRecord {
        expression: String::new(),
        region: String::new(),
        universe: String::new(),
        language: String::new(),
        delay: 0,
        decay: 0,
        neutralization: String::new(),
        operator_count: 0,
        status: AlphaStatus::Pending,
        core: CoreMetrics {
            is_sharpe: None,
            is_fitness: None,
            is_turnover: None,
            is_returns: None,
            is_drawdown: None,
            is_pnl: None,
        },
        metrics_json: Json::Null,
        checks_json: Json::Null,
        created_at: 0,
        updated_at: 0,
    }
}

fn pick(new: Option<String>, old: Option<String>) -> (r: Option<String>)
    ensures
        r == opt_or(new, old),
{
    if new.is_some() {
        new
    } else {
        old
    }
}

fn apply_done(
    rec: AlphaRecord,
    core: Option<CoreMetrics>,
    metrics_json: Option<Json>,
    checks_json: Option<Json>,
    now: i64,
) -> (r: AlphaRecord)
    ensures
        done_record(rec, r, core, opt_json_view(metrics_json), opt_json_view(checks_json), now),
{
    let ghost r0 = rec;
    let AlphaRecord {
        expression,
        region,
        universe,
        language,
        delay,
        decay,
        neutralization,
        operator_count,
        status: _,
        core: old_core,
        metrics_json: old_metrics,
        checks_json: old_checks,
        created_at,
        updated_at: _,
    } = rec;
    let new_core = match core {
        Some(c) => CoreMetrics {
            is_sharpe: pick(c.is_sharpe, old_core.is_sharpe),
            is_fitness: pick(c.is_fitness, old_core.is_fitness),
            is_turnover: pick(c.is_turnover, old_core.is_turnover),
            is_returns: pick(c.is_returns, old_core.is_returns),
            is_drawdown: pick(c.is_drawdown, old_core.is_drawdown),
            is_pnl: pick(c.is_pnl, old_core.is_pnl),
        },
        None => old_core,
    };
    let m = match metrics_json {
        Some(m) => merge_json(old_metrics, m),
        None => old_metrics,
    };
    let c = match checks_json {
        Some(c) => merge_json(old_checks, c),
        None => old_checks,
    };
    AlphaRecord {
        expression,
        region,
        universe,
        language,
        delay,
        decay,
        neutralization,
        operator_count,
        status: AlphaStatus::Done,
        core: new_core,
        metrics_json: m,
        checks_json: c,
        created_at,
        updated_at: now,
    }
}

impl AlphaRepository {
    pub open spec fn wf(&self) -> bool {
        wf_rows(self@)
    }

    pub fn new() -> (r: Self)
        ensures
            r@ == Seq::<AlphaRecord>::empty(),
            r.wf(),
    {
        AlphaRepository { rows: Vec::new() }
    }

    /// The records `rows`, as reloaded from a snapshot; `None` when two
    /// share an expression.
    pub fn from_rows(rows: Vec<AlphaRecord>) -> (r: Option<Self>)
        ensures
            match r {
                Some(x) => x@ == rows@ && x.wf(),
                None => !wf_rows(rows@),
            },
    {
        let n = rows.len();
        let mut i: usize = 0;
        while i < n
            invariant
                n == rows@.len(),
                i <= n,
                forall|a: int, b: int|
                    0 <= a < i && 0 <= b < n && a != b ==> (#[trigger] rows@[a]).expression@ != (#[trigger] rows@[b]).expression@,
            decreases n - i,
        {
            let mut j: usize = 0;
            while j < n
                invariant
                    n == rows@.len(),
                    i < n,
                    j <= n,
                    forall|b: int| 0 <= b < j && b != i ==> rows@[i as int].expression@ != (#[trigger] rows@[b]).expression@,
                decreases n - j,
            {
                if j != i && rows[j].expression == rows[i].expression {
                    assert(!wf_rows(rows@)) by {
                        assert(rows@[i as int].expression@ == rows@[j as int].expression@);
                    }
                    return None;
                }
                j += 1;
            }
            i += 1;
        }
        Some(AlphaRepository { rows })
    }

    pub fn len(&self) -> (r: usize)
        ensures
            r == self@.len(),
    {
        self.rows.len()
    }

    pub fn get(&self, i: usize) -> (r: &AlphaRecord)
        requires
            i < self@.len(),
        ensures
            *r == self@[i as int],
    {
        &self.rows[i]
    }

    /// Position of the record of `expression`, if any.
    pub fn find(&self, expression: &String) -> (r: Option<usize>)
        ensures
            match r {
                Some(i) => i < self@.len() && self@[i as int].expression@ == expression@ && i == row_index(
                    self@,
                    expression@,
                ),
                None => !has_row(self@, expression@) && row_index(self@, expression@) == self@.len(),
            },
    {
        proof {
            lemma_row_index(self@, expression@);
        }
        let mut j: usize = 0;
        while j < self.rows.len()
            invariant
                j <= self@.len(),
                0 <= row_index(self@, expression@) <= self@.len(),
                row_index(self@, expression@) < self@.len() ==> self@[row_index(self@, expression@)].expression@
                    == expression@,
                forall|m: int| 0 <= m < row_index(self@, expression@) ==> self@[m].expression@ != expression@,
                forall|m: int| 0 <= m < j ==> (#[trigger] self@[m]).expression@ != expression@,
            decreases self@.len() - j,
        {
            if self.rows[j].expression == *expression {
                return Some(j);
            }
            j += 1;
        }
        None
    }

    /// Inserts a PENDING record for `def` unless its expression already has one.
    pub fn insert_or_ignore_alpha(&mut self, def: AlphaDefinition, now: i64) -> (r: bool)
        requires
            old(self).wf(),
        ensures
            final(self).wf(),
            r == !has_row(old(self)@, def.expression@),
            r ==> final(self)@.len() == old(self)@.len() + 1 && final(self)@.subrange(0, old(self)@.len() as int)
                == old(self)@ && fresh_record(final(self)@.last(), def, now),
            !r ==> final(self)@ == old(self)@,
    {
        match self.find(&def.expression) {
            Some(_) => false,
            None => {
                let rec = fresh_from(def, now);
                self.rows.push(rec);
                assert(final(self)@.subrange(0, old(self)@.len() as int) =~= old(self)@) by {
                    assert(self@.subrange(0, old(self)@.len() as int) =~= old(self)@);
                }
                true
            },
        }
    }

    /// Marks the record of `expression` SIMULATING; returns whether one was found.
    pub fn mark_simulating(&mut self, expression: &String, now: i64) -> (r: bool)
        requires
            old(self).wf(),
        ensures
            final(self).wf(),
            r == has_row(old(self)@, expression@),
            r ==> ({
                let i = row_index(old(self)@, expression@);
                final(self)@ == old(self)@.update(
                    i,
                    AlphaRecord { status: AlphaStatus::Simulating, updated_at: now, ..old(self)@[i] },
                )
            }),
            !r ==> final(self)@ == old(self)@,
    {
        match self.find(expression) {
            None => false,
            Some(i) => {
                self.rows[i].status = AlphaStatus::Simulating;
                self.rows[i].updated_at = now;
                assert(self@ =~= old(self)@.update(
                    i as int,
                    AlphaRecord { status: AlphaStatus::Simulating, updated_at: now, ..old(self)@[i as int] },
                ));
                true
            },
        }
    }

    /// Marks the record of `expression` ERROR; returns whether one was found.
    pub fn mark_error(&mut self, expression: &String, now: i64) -> (r: bool)
        requires
            old(self).wf(),
        ensures
            final(self).wf(),
            r == has_row(old(self)@, expression@),
            r ==> ({
                let i = row_index(old(self)@, expression@);
                final(self)@ == old(self)@.update(
                    i,
                    AlphaRecord { status: AlphaStatus::Error, updated_at: now, ..old(self)@[i] },
                )
            }),
            !r ==> final(self)@ == old(self)@,
    {
        match self.find(expression) {
            None => false,
            Some(i) => {
                self.rows[i].status = AlphaStatus::Error;
                self.rows[i].updated_at = now;
                assert(self@ =~= old(self)@.update(
                    i as int,
                    AlphaRecord { status: AlphaStatus::Error, updated_at: now, ..old(self)@[i as int] },
                ));
                true
            },
        }
    }

    /// Records a finished simulation: DONE, the core metrics that came with it,
    /// and the metrics and checks JSON deep-merged into what the record held.
    pub fn mark_done(
        &mut self,
        expression: &String,
        core: Option<CoreMetrics>,
        metrics_json: Option<Json>,
        checks_json: Option<Json>,
        now: i64,
    ) -> (r: bool)
        requires
            old(self).wf(),
        ensures
            final(self).wf(),
            r == has_row(old(self)@, expression@),
            final(self)@.len() == old(self)@.len(),
            r ==> ({
                let i = row_index(old(self)@, expression@);
                &&& forall|j: int| 0 <= j < old(self)@.len() && j != i ==> final(self)@[j] == old(self)@[j]
                &&& done_record(
                    old(self)@[i],
                    final(self)@[i],
                    core,
                    opt_json_view(metrics_json),
                    opt_json_view(checks_json),
                    now,
                )
            }),
            !r ==> final(self)@ == old(self)@,
    {
        let i = match self.find(expression) {
            None => {
                return false;
            },
            Some(i) => i,
        };
        let mut rec = blank_record();
        std::mem::swap(&mut self.rows[i], &mut rec);
        let updated = apply_done(rec, core, metrics_json, checks_json, now);
        self.rows.set(i, updated);
        assert(wf_rows(self@)) by {
            assert forall|a: int, b: int|
                0 <= a < self@.len() && 0 <= b < self@.len() && a != b implies (#[trigger] self@[a]).expression@
                != (#[trigger] self@[b]).expression@ by {
                assert(old(self)@[a].expression@ != old(self)@[b].expression@);
            }
        }
        true
    }

    /// Watchdog: records SIMULATING since before `now - timeout_secs` go back
    /// to PENDING. Returns how many.
    pub fn reset_stale_simulating(&mut self, now: i64, timeout_secs: i64) -> (r: usize)
        requires
            old(self).wf(),
            timeout_secs >= 0,
        ensures
            final(self).wf(),
            final(self)@.len() == old(self)@.len(),
            forall|i: int|
                0 <= i < old(self)@.len() ==> (#[trigger] final(self)@[i]) == if old(self)@[i].status
                    == AlphaStatus::Simulating && old(self)@[i].updated_at < now - timeout_secs {
                    AlphaRecord { status: AlphaStatus::Pending, updated_at: now, ..old(self)@[i] }
                } else {
                    old(self)@[i]
                },
    {
        let threshold: i64 = if now < i64::MIN + timeout_secs {
            i64::MIN
        } else {
            now - timeout_secs
        };
        let n = self.rows.len();
        let mut count: usize = 0;
        let mut i: usize = 0;
        while i < n
            invariant
                n == self@.len(),
                n == old(self)@.len(),
                i <= n,
                count <= i,
                threshold == if now < i64::MIN + timeout_secs { i64::MIN as int } else { now - timeout_secs },
                forall|k: int|
                    0 <= k < i ==> (#[trigger] self@[k]) == if old(self)@[k].status == AlphaStatus::Simulating
                        && old(self)@[k].updated_at < now - timeout_secs {
                        AlphaRecord { status: AlphaStatus::Pending, updated_at: now, ..old(self)@[k] }
                    } else {
                        old(self)@[k]
                    },
                forall|k: int| i <= k < n ==> (#[trigger] self@[k]) == old(self)@[k],
            decreases n - i,
        {
            if self.rows[i].status == AlphaStatus::Simulating && self.rows[i].updated_at < threshold {
                self.rows[i].status = AlphaStatus::Pending;
                self.rows[i].updated_at = now;
                count += 1;
            }
            i += 1;
        }
        assert(wf_rows(self@)) by {
            assert forall|a: int, b: int|
                0 <= a < self@.len() && 0 <= b < self@.len() && a != b implies (#[trigger] self@[a]).expression@
                != (#[trigger] self@[b]).expression@ by {
                assert(old(self)@[a].expression@ != old(self)@[b].expression@);
            }
        }
        count
    }

    /// Counts of records by status.
    pub fn status_counts(&self) -> (r: AlphaStatusCounts)
        ensures
            r.pending == count_alpha(self@, AlphaStatus::Pending),
            r.simulating == count_alpha(self@, AlphaStatus::Simulating),
            r.done == count_alpha(self@, AlphaStatus::Done),
            r.error == count_alpha(self@, AlphaStatus::Error),
    {
        let n = self.rows.len();
        let mut c = AlphaStatusCounts { pending: 0, simulating: 0, done: 0, error: 0 };
        let mut i: usize = 0;
        while i < n
            invariant
                n == self@.len(),
                i <= n,
                c.pending <= i && c.simulating <= i && c.done <= i && c.error <= i,
                c.pending == count_alpha(self@.subrange(0, i as int), AlphaStatus::Pending),
                c.simulating == count_alpha(self@.subrange(0, i as int), AlphaStatus::Simulating),
                c.done == count_alpha(self@.subrange(0, i as int), AlphaStatus::Done),
                c.error == count_alpha(self@.subrange(0, i as int), AlphaStatus::Error),
            decreases n - i,
        {
            assert(self@.subrange(0, i + 1).drop_last() =~= self@.subrange(0, i as int));
            match self.rows[i].status {
                AlphaStatus::Pending => c.pending = c.pending + 1,
                AlphaStatus::Simulating => c.simulating = c.simulating + 1,
                AlphaStatus::Done => c.done = c.done + 1,
                AlphaStatus::Error => c.error = c.error + 1,
            }
            i += 1;
        }
        assert(self@.subrange(0, n as int) =~= self@);
        c
    }

    /// Inserts a PENDING record for each definition whose expression has none
    /// yet, earlier definitions first. Returns how many were inserted.
    pub fn insert_batch(&mut self, defs: Vec<AlphaDefinition>, now: i64) -> (r: usize)
        requires
            old(self).wf(),
        ensures
            final(self).wf(),
            final(self)@.len() == old(self)@.len() + r,
            final(self)@.subrange(0, old(self)@.len() as int) == old(self)@,
            forall|k: int| 0 <= k < defs@.len() ==> has_row(final(self)@, (#[trigger] defs@[k]).expression@),
            forall|j: int|
                old(self)@.len() <= j < final(self)@.len() ==> fresh_for_some(#[trigger] final(self)@[j], defs@, now),
    {
        let ghost d0 = defs@;
        let mut defs = defs;
        let mut count: usize = 0;
        let mut k: usize = 0;
        let n = defs.len();
        let ghost s0 = self@;
        while k < n
            invariant
                n == defs@.len(),
                n == d0.len(),
                k <= n,
                wf_rows(self@),
                self@.len() == s0.len() + count,
                count <= k,
                self@.subrange(0, s0.len() as int) == s0,
                forall|m: int| k <= m < n ==> defs@[m] == d0[m],
                forall|m: int| 0 <= m < k ==> has_row(self@, (#[trigger] d0[m]).expression@),
                forall|j: int| s0.len() <= j < self@.len() ==> fresh_for_some(#[trigger] self@[j], d0, now),
            decreases n - k,
        {
            let mut d = AlphaDefinition {
                expression: String::new(),
                region: String::new(),
                universe: String::new(),
                language: String::new(),
                delay: 0,
                decay: 0,
                neutralization: String::new(),
                operator_count: 0,
            };
            std::mem::swap(&mut defs[k], &mut d);
            assert(d == d0[k as int]);
            let ghost before = self@;
            let ins = self.insert_or_ignore_alpha(d, now);
            if ins {
                count += 1;
                assert(self@.subrange(0, s0.len() as int) =~= before.subrange(0, s0.len() as int));
                assert(self@.last().expression == d0[k as int].expression);
                assert(has_row(self@, d0[k as int].expression@)) by {
                    assert(self@[self@.len() - 1].expression@ == d0[k as int].expression@);
                }
                assert forall|m: int| 0 <= m <= k implies has_row(self@, (#[trigger] d0[m]).expression@) by {
                    if m < k {
                        let w = choose|w: int| 0 <= w < before.len() && (#[trigger] before[w]).expression@ == d0[m].expression@;
                        assert(self@[w] == before[w]);
                    }
                }
                assert forall|j: int| s0.len() <= j < self@.len() implies fresh_for_some(#[trigger] self@[j], d0, now) by {
                    if j < self@.len() - 1 {
                        assert(self@[j] == before[j]);
                    } else {
                        assert(fresh_record(self@[j], d0[k as int], now));
                    }
                }
            }
            k += 1;
        }
        count
    }

    /// Removes every record.
    pub fn wipe_all(&mut self)
        ensures
            final(self)@ == Seq::<AlphaRecord>::empty(),
            final(self).wf(),
    {
        self.rows = Vec::new();
    }
}

/// Merge law: if each metrics value arises from the one before by a
/// `mark_done` with payload `payloads[i]`, the last one is the left fold of
/// deep-merge over the payloads, starting from the first.
pub proof fn lemma_metrics_fold(states: Seq<JsonV>, payloads: Seq<JsonV>)
    requires
        states.len() == payloads.len() + 1,
        forall|i: int| 0 <= i < payloads.len() ==> states[i + 1] == merge(states[i], #[trigger] payloads[i]),
    ensures
        states.last() == merge_all(states[0], payloads),
    decreases payloads.len(),
{
    if payloads.len() > 0 {
        let earlier_states = states.drop_last();
        let earlier_payloads = payloads.drop_last();
        assert forall|i: int| 0 <= i < earlier_payloads.len() implies earlier_states[i + 1] == merge(earlier_states[i], #[trigger] earlier_payloads[i]) by {
            assert(payloads[i] == earlier_payloads[i]);
        }
        lemma_metrics_fold(earlier_states, earlier_payloads);
        assert(states[payloads.len() as int] == merge(states[payloads.len() - 1], payloads.last()));
    }
}

/// Merge law over successive `mark_done` calls: when each record follows
/// the one before by a `mark_done` with metrics payload `payloads[i]`, the
/// last record's metrics are the left fold of deep-merge over the payloads.
pub proof fn lemma_mark_done_run(
    rows: Seq<AlphaRecord>,
    cores: Seq<Option<CoreMetrics>>,
    payloads: Seq<JsonV>,
    checks: Seq<Option<JsonV>>,
    nows: Seq<i64>,
)
    requires
        rows.len() == payloads.len() + 1,
        cores.len() == payloads.len(),
        checks.len() == payloads.len(),
        nows.len() == payloads.len(),
        forall|i: int|
            0 <= i < payloads.len() ==> done_record(
                #[trigger] rows[i],
                rows[i + 1],
                cores[i],
                Some(payloads[i]),
                checks[i],
                nows[i],
            ),
    ensures
        rows.last().metrics_json@ == merge_all(rows[0].metrics_json@, payloads),
{
    let states = Seq::new(rows.len(), |i: int| rows[i].metrics_json@);
    assert forall|i: int| 0 <= i < payloads.len() implies states[i + 1] == merge(states[i], #[trigger] payloads[i]) by {
        assert(done_record(rows[i], rows[i + 1], cores[i], Some(payloads[i]), checks[i], nows[i]));
    }
    lemma_metrics_fold(states, payloads);
}

} // verus!
