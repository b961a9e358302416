use vstd::prelude::*;
use crate::alpha::{fresh_for_some, has_row, AlphaDefinition, AlphaRecord, AlphaStatus};
use crate::json::JsonV;
use crate::fields::{event_op_conflict, opt_str_view, DataFieldRepository};
use crate::job::{fresh_job, has_live_job, Job};
use crate::parser::{
    accepted_of, has_trailing_comma, has_unexpected_right_paren, has_winsorize_violation, lines_of, parse_alpha_exprs,
    rejects_of, validate_prequeue, MAX_REJECT_EXAMPLES,
};
use crate::store::JobStore;
use crate::text::{contains_text, opt_text_view, string_views};

verus! {

/// What one generation round asks for.
#[derive(Debug)]
pub struct GenerateConfig {
    pub batch_size: usize,
    pub max_insert: usize,
    pub model: String,
    pub interval_sec: u64,
    pub region: Option<String>,
    pub universe: Option<String>,
    pub delay: Option<i32>,
    pub field_sample_size: usize,
    pub auto_backtest: bool,
}

/// What one generation round produced.
#[derive(Debug)]
pub struct GenerateResult {
    pub total_lines: usize,
    pub candidates: usize,
    pub accepted: usize,
    pub inserted: usize,
    pub queued: usize,
    pub rejected_examples: Vec<String>,
}

pub const DEFAULT_REGION: &'static str = "CHN";
pub const DEFAULT_UNIVERSE: &'static str = "TOP2000U";
pub const DEFAULT_DELAY: i32 = 1;
pub const DEFAULT_DECAY: i32 = 10;

/// The first occurrence of each expression, in order, at most `max` of them.
pub open spec fn dedup_upto(es: Seq<Seq<char>>, max: nat) -> Seq<Seq<char>>
    decreases es.len(),
{
    if es.len() == 0 {
        Seq::empty()
    } else {
        let p = dedup_upto(es.drop_last(), max);
        if p.len() < max && !p.contains(es.last()) {
            p.push(es.last())
        } else {
            p
        }
    }
}

proof fn lemma_dedup_len(es: Seq<Seq<char>>, max: nat)
    ensures
        dedup_upto(es, max).len() <= max,
        dedup_upto(es, max).len() <= es.len(),
    decreases es.len(),
{
    if es.len() > 0 {
        lemma_dedup_len(es.drop_last(), max);
    }
}

/// Drops repeated expressions of a batch and keeps at most `max_insert`.
pub fn dedup_truncate(exprs: &Vec<String>, max_insert: usize) -> (r: Vec<String>)
    ensures
        string_views(r@) == dedup_upto(string_views(exprs@), max_insert as nat),
{
    let ghost ev = string_views(exprs@);
    let mut out: Vec<String> = Vec::new();
    let mut i: usize = 0;
    while i < exprs.len()
        invariant
            i <= exprs@.len(),
            ev == string_views(exprs@),
            string_views(out@) == dedup_upto(ev.subrange(0, i as int), max_insert as nat),
        decreases exprs@.len() - i,
    {
        assert(ev.subrange(0, i + 1).drop_last() =~= ev.subrange(0, i as int));
        assert(ev.subrange(0, i + 1).last() == exprs@[i as int]@);
        if out.len() < max_insert && !contains_text(&out, &exprs[i]) {
            let ghost before = out@;
            out.push(exprs[i].clone());
            assert(string_views(out@) =~= string_views(before).push(exprs@[i as int]@));
        }
        i += 1;
    }
    assert(ev.subrange(0, exprs@.len() as int) =~= ev);
    out
}

/// The expression passes every pre-enqueue check for the scope.
pub open spec fn passes_checks(
    e: Seq<char>,
    catalog: &DataFieldRepository,
    region: Option<Seq<char>>,
    universe: Option<Seq<char>>,
    delay: Option<i32>,
    incompatible: Seq<Seq<char>>,
) -> bool {
    !has_unexpected_right_paren(e) && !has_trailing_comma(e) && !has_winsorize_violation(e) && !event_op_conflict(
        catalog.fields_view(),
        catalog.scopes_view(),
        e,
        region,
        universe,
        delay,
        incompatible,
    )
}

fn or_default(o: &Option<String>, d: &str) -> (r: String)
    ensures
        r@ == match o {
            Some(x) => x@,
            None => d@,
        },
{
    match o {
        Some(x) => x.clone(),
        None => d.to_string(),
    }
}

fn opt_as_str(o: &Option<String>) -> (r: Option<&str>)
    ensures
        opt_str_view(r) == opt_text_view(*o),
{
    match o {
        Some(x) => Some(x.as_str()),
        None => None,
    }
}

pub open spec fn default_text(o: Option<String>, d: Seq<char>) -> Seq<char> {
    match o {
        Some(x) => x@,
        None => d,
    }
}

/// A record that a generation round inserted for one of the accepted
/// expressions `acc`: PENDING, empty metrics, with the round's settings.
pub open spec fn generated_row(r: AlphaRecord, acc: Seq<Seq<char>>, cfg: &GenerateConfig, now: i64) -> bool {
    &&& acc.contains(r.expression@)
    &&& r.region@ == default_text(cfg.region, DEFAULT_REGION@)
    &&& r.universe@ == default_text(cfg.universe, DEFAULT_UNIVERSE@)
    &&& r.language@ == "FASTEXPR"@
    &&& r.delay == match cfg.delay {
        Some(d) => d,
        None => DEFAULT_DELAY,
    }
    &&& r.decay == DEFAULT_DECAY
    &&& r.neutralization@ == "INDUSTRY"@
    &&& r.operator_count == 0
    &&& r.status == AlphaStatus::Pending
    &&& r.core.is_sharpe is None && r.core.is_fitness is None && r.core.is_turnover is None
    &&& r.core.is_returns is None && r.core.is_drawdown is None && r.core.is_pnl is None
    &&& r.metrics_json@ == JsonV::Object(Seq::empty())
    &&& r.checks_json@ == JsonV::Array(Seq::empty())
    &&& r.created_at == now && r.updated_at == now
}

/// A job that a generation round enqueued at position `idx` for one of the
/// accepted expressions that pass every pre-enqueue check.
pub open spec fn queued_job(
    jb: Job,
    idx: int,
    acc: Seq<Seq<char>>,
    catalog: &DataFieldRepository,
    cfg: &GenerateConfig,
    incompatible: Seq<Seq<char>>,
    now: i64,
) -> bool {
    exists|k: int|
        0 <= k < acc.len() && passes_checks(
            #[trigger] acc[k],
            catalog,
            opt_text_view(cfg.region),
            opt_text_view(cfg.universe),
            cfg.delay,
            incompatible,
        ) && fresh_job(
            jb,
            idx as usize,
            acc[k],
            default_text(cfg.region, DEFAULT_REGION@),
            default_text(cfg.universe, DEFAULT_UNIVERSE@),
            now,
        )
}

/// Handles a model answer: parses the candidate lines, keeps the first
/// `max_insert` distinct ones, records each as a PENDING alpha, and when
/// `auto_backtest` is set enqueues those that pass the pre-enqueue checks.
pub fn process_generated(
    store: &mut JobStore,
    catalog: &DataFieldRepository,
    incompatible: &Vec<String>,
    text: &str,
    cfg: &GenerateConfig,
    now: i64,
) -> (r: GenerateResult)
    requires
        old(store).wf(),
    ensures
        final(store).wf(),
        r.total_lines == lines_of(text@).len(),
        r.candidates == accepted_of(lines_of(text@)).len(),
        r.accepted == dedup_upto(accepted_of(lines_of(text@)), cfg.max_insert as nat).len(),
        r.inserted == r.accepted,
        string_views(r.rejected_examples@) == if rejects_of(lines_of(text@)).len() <= MAX_REJECT_EXAMPLES {
            rejects_of(lines_of(text@))
        } else {
            rejects_of(lines_of(text@)).subrange(0, MAX_REJECT_EXAMPLES as int)
        },
        forall|k: int|
            0 <= k < dedup_upto(accepted_of(lines_of(text@)), cfg.max_insert as nat).len() ==> has_row(
                final(store).alphas@,
                #[trigger] dedup_upto(accepted_of(lines_of(text@)), cfg.max_insert as nat)[k],
            ),
        final(store).alphas@.subrange(0, old(store).alphas@.len() as int) == old(store).alphas@,
        forall|j: int|
            old(store).alphas@.len() <= j < final(store).alphas@.len() ==> generated_row(
                #[trigger] final(store).alphas@[j],
                dedup_upto(accepted_of(lines_of(text@)), cfg.max_insert as nat),
                cfg,
                now,
            ),
        !cfg.auto_backtest ==> final(store).jobs@ == old(store).jobs@,
        final(store).jobs@.len() >= old(store).jobs@.len(),
        final(store).jobs@.subrange(0, old(store).jobs@.len() as int) == old(store).jobs@,
        forall|j: int|
            old(store).jobs@.len() <= j < final(store).jobs@.len() ==> queued_job(
                #[trigger] final(store).jobs@[j],
                j,
                dedup_upto(accepted_of(lines_of(text@)), cfg.max_insert as nat),
                catalog,
                cfg,
                string_views(incompatible@),
                now,
            ),
        cfg.auto_backtest ==> forall|k: int|
            0 <= k < dedup_upto(accepted_of(lines_of(text@)), cfg.max_insert as nat).len() && passes_checks(
                dedup_upto(accepted_of(lines_of(text@)), cfg.max_insert as nat)[k],
                catalog,
                opt_text_view(cfg.region),
                opt_text_view(cfg.universe),
                cfg.delay,
                string_views(incompatible@),
            ) ==> has_live_job(final(store).jobs@, #[trigger] dedup_upto(accepted_of(lines_of(text@)), cfg.max_insert as nat)[k]),
{
    let parsed = parse_alpha_exprs(text);
    let candidates = parsed.exprs.len();
    let accepted = dedup_truncate(&parsed.exprs, cfg.max_insert);
    let ghost acc = string_views(accepted@);
    proof {
        lemma_dedup_len(string_views(parsed.exprs@), cfg.max_insert as nat);
    }
    let region = or_default(&cfg.region, DEFAULT_REGION);
    let universe = or_default(&cfg.universe, DEFAULT_UNIVERSE);
    let delay = match cfg.delay {
        Some(d) => d,
        None => DEFAULT_DELAY,
    };
    let mut defs: Vec<AlphaDefinition> = Vec::new();
    let mut i: usize = 0;
    while i < accepted.len()
        invariant
            i <= accepted@.len(),
            defs@.len() == i,
            region@ == default_text(cfg.region, DEFAULT_REGION@),
            universe@ == default_text(cfg.universe, DEFAULT_UNIVERSE@),
            delay == match cfg.delay {
                Some(d) => d,
                None => DEFAULT_DELAY,
            },
            forall|m: int|
                0 <= m < i ==> (#[trigger] defs@[m]).expression@ == accepted@[m]@ && defs@[m].region@ == region@
                    && defs@[m].universe@ == universe@ && defs@[m].language@ == "FASTEXPR"@ && defs@[m].delay
                    == delay && defs@[m].decay == DEFAULT_DECAY && defs@[m].neutralization@ == "INDUSTRY"@
                    && defs@[m].operator_count == 0,
        decreases accepted@.len() - i,
    {
        defs.push(AlphaDefinition {
            expression: accepted[i].clone(),
            region: region.clone(),
            universe: universe.clone(),
            language: "FASTEXPR".to_string(),
            delay,
            decay: DEFAULT_DECAY,
            neutralization: "INDUSTRY".to_string(),
            operator_count: 0,
        });
        i += 1;
    }
    let ghost dv = defs@;
    let ghost a0 = store.alphas@;
    store.alphas.insert_batch(defs, now);
    assert forall|k: int| 0 <= k < acc.len() implies has_row(store.alphas@, #[trigger] acc[k]) by {
        assert(dv[k].expression@ == acc[k]);
    }
    assert forall|j: int| a0.len() <= j < store.alphas@.len() implies generated_row(
        #[trigger] store.alphas@[j],
        acc,
        cfg,
        now,
    ) by {
        assert(fresh_for_some(store.alphas@[j], dv, now));
        let k = choose|k: int| 0 <= k < dv.len() && crate::alpha::fresh_record(store.alphas@[j], #[trigger] dv[k], now);
        assert(acc[k] == store.alphas@[j].expression@);
    }
    let ghost j0 = store.jobs@;
    let ghost a1 = store.alphas@;
    let mut queued: usize = 0;
    if cfg.auto_backtest {
        let r_opt = opt_as_str(&cfg.region);
        let u_opt = opt_as_str(&cfg.universe);
        let mut j: usize = 0;
        while j < accepted.len()
            invariant
                j <= accepted@.len(),
                acc == string_views(accepted@),
                queued <= j,
                store.wf(),
                store.alphas@ == a1,
                store.jobs@.len() >= j0.len(),
                store.jobs@.subrange(0, j0.len() as int) == j0,
                region@ == default_text(cfg.region, DEFAULT_REGION@),
                universe@ == default_text(cfg.universe, DEFAULT_UNIVERSE@),
                forall|jj: int|
                    j0.len() <= jj < store.jobs@.len() ==> queued_job(
                        #[trigger] store.jobs@[jj],
                        jj,
                        acc,
                        catalog,
                        cfg,
                        string_views(incompatible@),
                        now,
                    ),
                opt_str_view(r_opt) == opt_text_view(cfg.region),
                opt_str_view(u_opt) == opt_text_view(cfg.universe),
                forall|k: int| 0 <= k < acc.len() ==> has_row(store.alphas@, #[trigger] acc[k]),
                forall|k: int|
                    0 <= k < j && passes_checks(
                        acc[k],
                        catalog,
                        opt_text_view(cfg.region),
                        opt_text_view(cfg.universe),
                        cfg.delay,
                        string_views(incompatible@),
                    ) ==> has_live_job(store.jobs@, #[trigger] acc[k]),
            decreases accepted@.len() - j,
        {
            let e = &accepted[j];
            assert(acc[j as int] == e@);
            let ok1 = validate_prequeue(e.as_str()).is_ok();
            let ok2 = catalog.validate_event_operator_compatibility(e.as_str(), r_opt, u_opt, cfg.delay, incompatible).is_ok();
            if ok1 && ok2 {
                let ghost before = store.jobs@;
                let res = store.jobs.create_job(e.clone(), region.clone(), universe.clone(), now);
                if res.is_some() {
                    queued += 1;
                }
                proof {
                    if res.is_some() {
                        assert(store.jobs@[before.len() as int].expression@ == e@);
                        assert(!crate::job::is_terminal(store.jobs@[before.len() as int].status));
                    }
                    assert(has_live_job(store.jobs@, e@));
                    assert(passes_checks(acc[j as int], catalog, opt_text_view(cfg.region), opt_text_view(cfg.universe), cfg.delay, string_views(incompatible@)));
                    assert(store.jobs@.subrange(0, j0.len() as int) =~= before.subrange(0, j0.len() as int));
                    assert forall|jj: int| j0.len() <= jj < store.jobs@.len() implies queued_job(
                        #[trigger] store.jobs@[jj],
                        jj,
                        acc,
                        catalog,
                        cfg,
                        string_views(incompatible@),
                        now,
                    ) by {
                        if jj < before.len() {
                            assert(store.jobs@[jj] == before[jj]);
                        } else {
                            assert(fresh_job(store.jobs@[jj], jj as usize, acc[j as int], region@, universe@, now));
                        }
                    }
                    assert forall|k: int|
                        0 <= k < j + 1 && passes_checks(
                            acc[k],
                            catalog,
                            opt_text_view(cfg.region),
                            opt_text_view(cfg.universe),
                            cfg.delay,
                            string_views(incompatible@),
                        ) implies has_live_job(store.jobs@, #[trigger] acc[k]) by {
                        if k < j {
                            let w = choose|w: int| 0 <= w < before.len() && !crate::job::is_terminal(before[w].status) && (#[trigger] before[w]).expression@ == acc[k];
                            assert(store.jobs@[w] == before[w]);
                        }
                    }
                }
            }
            j += 1;
        }
    }
    GenerateResult {
        total_lines: parsed.total_lines,
        candidates,
        accepted: accepted.len(),
        inserted: accepted.len(),
        queued,
        rejected_examples: parsed.rejected_examples,
    }
}

} // verus!
