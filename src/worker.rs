use vstd::prelude::*;
use crate::alpha::CoreMetrics;
use crate::json::{jget, jstr, Json, JsonV};
use crate::model::{BacktestError, BacktestErrorType};
use crate::text::{chars_eq, chars_of, concat_str, string_of};

verus! {

/// Runs one attempt of a job against the upstream. The HTTP exchanges happen
/// outside; these functions decide what each response means.
pub struct BacktestWorker;

/// What the worker does after a poll response.
#[derive(Debug)]
pub enum PollAction {
    /// Still running: ask again after this many seconds.
    Wait(u64),
    /// Finished: fetch this alpha.
    Fetch(String),
    /// The attempt ends with this error.
    Fail(BacktestError),
}

/// What a finished simulation yields for the stores.
#[derive(Debug)]
pub struct BacktestResult {
    pub alpha_id: Option<String>,
    pub simulation_id: Option<String>,
    pub core_metrics: Option<CoreMetrics>,
    pub metrics_json: Option<Json>,
    pub checks_json: Option<Json>,
}

pub const DEFAULT_POLL_WAIT_SECS: u64 = 20;

pub open spec fn digit_char(d: nat) -> char {
    if d == 0 { '0' } else if d == 1 { '1' } else if d == 2 { '2' } else if d == 3 { '3' } else if d
        == 4 { '4' } else if d == 5 { '5' } else if d == 6 { '6' } else if d == 7 { '7' } else if d
        == 8 { '8' } else { '9' }
}

/// Decimal digits of `n`.
pub open spec fn decimal(n: nat) -> Seq<char>
    decreases n,
{
    if n < 10 {
        seq![digit_char(n)]
    } else {
        decimal(n / 10) + seq![digit_char(n % 10)]
    }
}

fn digit_char_exec(d: u64) -> (r: char)
    requires
        d < 10,
    ensures
        r == digit_char(d as nat),
{
    if d == 0 { '0' } else if d == 1 { '1' } else if d == 2 { '2' } else if d == 3 { '3' } else if d
        == 4 { '4' } else if d == 5 { '5' } else if d == 6 { '6' } else if d == 7 { '7' } else if d
        == 8 { '8' } else { '9' }
}

pub(crate) fn decimal_chars(n: u64) -> (r: Vec<char>)
    ensures
        r@ == decimal(n as nat),
    decreases n,
{
    if n < 10 {
        let r = vec![digit_char_exec(n)];
        assert(r@ =~= seq![digit_char(n as nat)]);
        r
    } else {
        let mut r = decimal_chars(n / 10);
        r.push(digit_char_exec(n % 10));
        r
    }
}

/// `a`, the decimal digits of `n`, then `b`.
fn with_number(a: &str, n: u64, b: &str) -> (r: String)
    ensures
        r@ == a@ + decimal(n as nat) + b@,
{
    let d = decimal_chars(n);
    let ds = string_of(d.as_slice());
    let mut s = a.to_string();
    s.append(ds.as_str());
    s.append(b);
    s
}

/// How the submit response's status classifies the attempt: `None` for 2xx.
pub open spec fn submit_error_spec(status: u16, body: Seq<char>) -> Option<(BacktestErrorType, Seq<char>)> {
    if 200 <= status <= 299 {
        None
    } else if status == 400 {
        Some((BacktestErrorType::Alpha, "表达式不合法: "@ + body))
    } else if status == 401 {
        Some((BacktestErrorType::Infra, "认证过期，等待自动重试"@))
    } else if status == 429 {
        Some((BacktestErrorType::Infra, "触发 WQB 频率限制 (429)"@))
    } else if 500 <= status <= 599 {
        Some((BacktestErrorType::Infra, "WQB 服务器波动 ("@ + decimal(status as nat) + ")"@))
    } else {
        Some((BacktestErrorType::Internal, "未预期的状态码 ("@ + decimal(status as nat) + "): "@ + body))
    }
}

/// The characters of `s` after its last `/` (all of `s` when it has none).
pub open spec fn last_segment(s: Seq<char>) -> Seq<char>
    decreases s.len(),
{
    if s.len() == 0 {
        s
    } else if s.last() == '/' {
        Seq::empty()
    } else {
        last_segment(s.drop_last()).push(s.last())
    }
}

pub open spec fn error_is(e: BacktestError, t: BacktestErrorType, m: Seq<char>) -> bool {
    e.error_type == t && e.message@ == m && e.retryable == (t == BacktestErrorType::Infra)
}

/// The simulation id after a 2xx submit: the last path segment of the
/// `Location` header when it is there and not empty, else the body's string `id`.
pub open spec fn simulation_id_spec(location: Option<Seq<char>>, body: Option<JsonV>) -> Option<Seq<char>> {
    match location {
        Some(l) if last_segment(l).len() > 0 => Some(last_segment(l)),
        _ => match body {
            Some(b) => jstr(jget(b, "id"@)),
            None => None,
        },
    }
}

/// A finished poll body names its `status` as a string.
pub open spec fn sim_shape_ok(b: JsonV) -> bool {
    jstr(jget(b, "status"@)) is Some
}

/// The action after a poll response. `body` is `None` when it was empty. A
/// body without `status` (progress only) means the simulation still runs;
/// the wait is the `Retry-After` seconds, 20 when the header is absent.
pub open spec fn poll_spec(retry_after: Option<u64>, body: Option<JsonV>, r: PollAction) -> bool {
    let wait = match retry_after {
        Some(s) => s,
        None => DEFAULT_POLL_WAIT_SECS,
    };
    match body {
        None => r == PollAction::Wait(wait),
        Some(b) => if jget(b, "status"@) is None {
            r == PollAction::Wait(wait)
        } else if !sim_shape_ok(b) {
            r matches PollAction::Fail(e) && e.error_type == BacktestErrorType::Internal && !e.retryable
        } else {
            let st = jstr(jget(b, "status"@)).unwrap();
            if st == "COMPLETE"@ || st == "WARNING"@ {
                match jstr(jget(b, "alpha"@)) {
                    Some(a) => r matches PollAction::Fetch(x) && x@ == a,
                    None => r matches PollAction::Fail(e) && error_is(
                        e,
                        BacktestErrorType::Internal,
                        "模拟成功但未返回 alpha ID"@,
                    ),
                }
            } else if st == "ERROR"@ || st == "FAIL"@ {
                r matches PollAction::Fail(e) && error_is(
                    e,
                    BacktestErrorType::Alpha,
                    "回测失败: "@ + match jstr(jget(b, "message"@)) {
                        Some(m) => m,
                        None => "未知引擎错误"@,
                    },
                )
            } else if st == "CANCELLED"@ {
                r matches PollAction::Fail(e) && error_is(e, BacktestErrorType::Infra, "任务被外部取消"@)
            } else {
                r == PollAction::Wait(wait)
            }
        },
    }
}

fn last_segment_exec(s: &str) -> (r: String)
    ensures
        r@ == last_segment(s@),
{
    let v = chars_of(s);
    let n = v.len();
    let mut start: usize = 0;
    let mut i: usize = 0;
    while i < n
        invariant
            n == v@.len(),
            start <= i <= n,
            last_segment(v@.subrange(0, i as int)) == v@.subrange(start as int, i as int),
        decreases n - i,
    {
        assert(v@.subrange(0, i + 1).drop_last() =~= v@.subrange(0, i as int));
        if v[i] == '/' {
            start = i + 1;
            assert(v@.subrange(start as int, i + 1) =~= Seq::<char>::empty());
        } else {
            assert(v@.subrange(start as int, i + 1) =~= v@.subrange(start as int, i as int).push(v@[i as int]));
        }
        i += 1;
    }
    assert(v@.subrange(0, n as int) =~= v@);
    let seg = crate::text::slice_chars(&v, start, n);
    string_of(seg.as_slice())
}

impl BacktestWorker {
    /// Classifies the submit response: `Ok` for 2xx, else the error for the status.
    pub fn classify_submit(status: u16, body: &str) -> (r: Result<(), BacktestError>)
        ensures
            match submit_error_spec(status, body@) {
                None => r is Ok,
                Some((t, m)) => r matches Err(e) && error_is(e, t, m),
            },
    {
        if 200 <= status && status <= 299 {
            Ok(())
        } else if status == 400 {
            Err(BacktestError::alpha(concat_str("表达式不合法: ", body)))
        } else if status == 401 {
            Err(BacktestError::infra("认证过期，等待自动重试".to_string()))
        } else if status == 429 {
            Err(BacktestError::infra("触发 WQB 频率限制 (429)".to_string()))
        } else if 500 <= status && status <= 599 {
            Err(BacktestError::infra(with_number("WQB 服务器波动 (", status as u64, ")")))
        } else {
            let head = with_number("未预期的状态码 (", status as u64, "): ");
            let mut m = head;
            m.append(body);
            Err(BacktestError::internal(m))
        }
    }

    /// The simulation id of an accepted submit. `location` is the `Location`
    /// header, `body` the parsed body or `None` when it was empty.
    pub fn simulation_id(location: Option<&str>, body: Option<&Json>) -> (r: Result<String, BacktestError>)
        ensures
            match simulation_id_spec(
                match location {
                    Some(l) => Some(l@),
                    None => None,
                },
                match body {
                    Some(b) => Some(b@),
                    None => None,
                },
            ) {
                Some(id) => r matches Ok(x) && x@ == id,
                None => r matches Err(e) && e.error_type == BacktestErrorType::Internal && !e.retryable,
            },
    {
        match location {
            Some(l) => {
                let seg = last_segment_exec(l);
                if !seg.as_str().is_empty() {
                    return Ok(seg);
                }
            },
            None => {},
        }
        match body {
            Some(b) => match b.get("id") {
                Some(Json::Str(id)) => Ok(id.clone()),
                _ => Err(BacktestError::internal("API 返回成功但无法获取 Simulation ID".to_string())),
            },
            None => Err(BacktestError::internal("API 返回空响应且无 Location Header".to_string())),
        }
    }

    /// Decides what follows a poll response. `retry_after` is the parsed
    /// `Retry-After` header, `body` the parsed body or `None` when it was empty.
    pub fn poll_step(retry_after: Option<u64>, body: Option<&Json>) -> (r: PollAction)
        ensures
            poll_spec(
                retry_after,
                match body {
                    Some(b) => Some(b@),
                    None => None,
                },
                r,
            ),
    {
        let wait = match retry_after {
            Some(s) => s,
            None => DEFAULT_POLL_WAIT_SECS,
        };
        let b = match body {
            None => {
                return PollAction::Wait(wait);
            },
            Some(b) => b,
        };
        let status = b.get("status");
        if status.is_none() {
            return PollAction::Wait(wait);
        }
        let st = match status {
            Some(Json::Str(s)) => s,
            _ => {
                return PollAction::Fail(BacktestError::internal("轮询结果结构不匹配".to_string()));
            },
        };
        let sv = chars_of(st.as_str());
        if chars_eq(&sv, "COMPLETE") || chars_eq(&sv, "WARNING") {
            match b.get("alpha") {
                Some(Json::Str(a)) => PollAction::Fetch(a.clone()),
                _ => PollAction::Fail(BacktestError::internal("模拟成功但未返回 alpha ID".to_string())),
            }
        } else if chars_eq(&sv, "ERROR") || chars_eq(&sv, "FAIL") {
            let msg = match b.get("message") {
                Some(Json::Str(m)) => concat_str("回测失败: ", m.as_str()),
                _ => "回测失败: 未知引擎错误".to_string(),
            };
            proof {
                reveal_strlit("回测失败: 未知引擎错误");
                reveal_strlit("回测失败: ");
                reveal_strlit("未知引擎错误");
                assert("回测失败: 未知引擎错误"@ =~= "回测失败: "@ + "未知引擎错误"@);
            }
            PollAction::Fail(BacktestError::alpha(msg))
        } else if chars_eq(&sv, "CANCELLED") {
            PollAction::Fail(BacktestError::infra("任务被外部取消".to_string()))
        } else {
            PollAction::Wait(wait)
        }
    }
}

/// The decimal text of a JSON number, if `j` is one.
pub open spec fn jnum(j: Option<JsonV>) -> Option<Seq<char>> {
    match j {
        Some(JsonV::Number(t)) => Some(t),
        _ => None,
    }
}

pub open spec fn opt_str_view(o: Option<String>) -> Option<Seq<char>> {
    match o {
        Some(s) => Some(s@),
        None => None,
    }
}

/// The in-sample subtree of an alpha detail, when present and not null.
pub open spec fn is_subtree(detail: JsonV) -> Option<JsonV> {
    match jget(detail, "is"@) {
        Some(JsonV::Null) => None,
        other => other,
    }
}

fn number_text(j: Option<&Json>) -> (r: Option<String>)
    ensures
        opt_str_view(r) == jnum(
            match j {
                Some(x) => Some(x@),
                None => None,
            },
        ),
{
    match j {
        Some(Json::Number(t)) => Some(t.clone()),
        _ => None,
    }
}

impl BacktestWorker {
    /// The submit body: the expression with the fixed simulation settings.
    pub fn build_sim_data(expression: &str, region: &str, universe: &str) -> (r: Json)
        ensures
            r@ == sim_data_spec(expression@, region@, universe@),
    {
        let sv = vec![
            ("instrumentType".to_string(), Json::Str("EQUITY".to_string())),
            ("region".to_string(), Json::Str(region.to_string())),
            ("universe".to_string(), Json::Str(universe.to_string())),
            ("delay".to_string(), Json::Number("1".to_string())),
            ("decay".to_string(), Json::Number("10".to_string())),
            ("neutralization".to_string(), Json::Str("INDUSTRY".to_string())),
            ("truncation".to_string(), Json::Number("0.08".to_string())),
            ("pasteurization".to_string(), Json::Str("ON".to_string())),
            ("unitHandling".to_string(), Json::Str("VERIFY".to_string())),
            ("nanHandling".to_string(), Json::Str("OFF".to_string())),
            ("language".to_string(), Json::Str("FASTEXPR".to_string())),
            ("visualization".to_string(), Json::Bool(false)),
        ];
        proof {
            crate::json::lemma_object_view(sv);
            assert(crate::json::members_view(sv@) =~= sim_settings_spec(region@, universe@));
        }
        let settings = Json::Object(sv);
        let tv = vec![
            ("type".to_string(), Json::Str("REGULAR".to_string())),
            ("settings".to_string(), settings),
            ("regular".to_string(), Json::Str(expression.to_string())),
        ];
        proof {
            crate::json::lemma_object_view(tv);
            assert(crate::json::members_view(tv@) =~= seq![
                ("type"@, JsonV::Str("REGULAR"@)),
                ("settings"@, JsonV::Object(sim_settings_spec(region@, universe@))),
                ("regular"@, JsonV::Str(expression@)),
            ]);
        }
        Json::Object(tv)
    }

    /// What a successful fetch yields: the whole `is` subtree under `IS`,
    /// the six headline numbers, and `is.checks`.
    pub fn fetch_result(alpha_id: String, simulation_id: String, detail: &Json) -> (r: BacktestResult)
        ensures
            r.alpha_id matches Some(a) && a@ == alpha_id@,
            r.simulation_id matches Some(x) && x@ == simulation_id@,
            match is_subtree(detail@) {
                None => r.core_metrics is None && r.metrics_json is None && r.checks_json is None,
                Some(is) => {
                    &&& r.metrics_json matches Some(m) && m@ == JsonV::Object(seq![("IS"@, is)])
                    &&& r.checks_json matches Some(c) ==> jget(is, "checks"@) == Some(c@)
                    &&& r.checks_json is None ==> jget(is, "checks"@) is None
                    &&& r.core_metrics matches Some(c) && opt_str_view(c.is_sharpe) == jnum(jget(is, "sharpe"@))
                        && opt_str_view(c.is_fitness) == jnum(jget(is, "fitness"@)) && opt_str_view(
                        c.is_turnover,
                    ) == jnum(jget(is, "turnover"@)) && opt_str_view(c.is_returns) == jnum(
                        jget(is, "returns"@),
                    ) && opt_str_view(c.is_drawdown) == jnum(jget(is, "drawdown"@)) && opt_str_view(
                        c.is_pnl,
                    ) == jnum(jget(is, "pnl"@))
                },
            },
    {
        let is = match detail.get("is") {
            None => {
                return BacktestResult {
                    alpha_id: Some(alpha_id),
                    simulation_id: Some(simulation_id),
                    core_metrics: None,
                    metrics_json: None,
                    checks_json: None,
                };
            },
            Some(Json::Null) => {
                return BacktestResult {
                    alpha_id: Some(alpha_id),
                    simulation_id: Some(simulation_id),
                    core_metrics: None,
                    metrics_json: None,
                    checks_json: None,
                };
            },
            Some(x) => x,
        };
        let core = CoreMetrics {
            is_sharpe: number_text(is.get("sharpe")),
            is_fitness: number_text(is.get("fitness")),
            is_turnover: number_text(is.get("turnover")),
            is_returns: number_text(is.get("returns")),
            is_drawdown: number_text(is.get("drawdown")),
            is_pnl: number_text(is.get("pnl")),
        };
        let checks = match is.get("checks") {
            Some(c) => Some(c.deep_clone()),
            None => None,
        };
        let mv = vec![("IS".to_string(), is.deep_clone())];
        proof {
            crate::json::lemma_object_view(mv);
            assert(crate::json::members_view(mv@) =~= seq![("IS"@, is@)]);
        }
        BacktestResult {
            alpha_id: Some(alpha_id),
            simulation_id: Some(simulation_id),
            core_metrics: Some(core),
            metrics_json: Some(Json::Object(mv)),
            checks_json: checks,
        }
    }
}

/// The fixed settings of a submit, for `region` and `universe`.
pub open spec fn sim_settings_spec(region: Seq<char>, universe: Seq<char>) -> Seq<(Seq<char>, JsonV)> {
    seq![
        ("instrumentType"@, JsonV::Str("EQUITY"@)),
        ("region"@, JsonV::Str(region)),
        ("universe"@, JsonV::Str(universe)),
        ("delay"@, JsonV::Number("1"@)),
        ("decay"@, JsonV::Number("10"@)),
        ("neutralization"@, JsonV::Str("INDUSTRY"@)),
        ("truncation"@, JsonV::Number("0.08"@)),
        ("pasteurization"@, JsonV::Str("ON"@)),
        ("unitHandling"@, JsonV::Str("VERIFY"@)),
        ("nanHandling"@, JsonV::Str("OFF"@)),
        ("language"@, JsonV::Str("FASTEXPR"@)),
        ("visualization"@, JsonV::Bool(false)),
    ]
}

/// The submit body for `expression` in `region` and `universe`.
pub open spec fn sim_data_spec(expression: Seq<char>, region: Seq<char>, universe: Seq<char>) -> JsonV {
    JsonV::Object(
        seq![
            ("type"@, JsonV::Str("REGULAR"@)),
            ("settings"@, JsonV::Object(sim_settings_spec(region, universe))),
            ("regular"@, JsonV::Str(expression)),
        ],
    )
}

} // verus!
