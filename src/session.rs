use vstd::prelude::*;
use crate::job::exp2;

verus! {

/// What the session does after a response that was not the expected one.
#[derive(Debug, Clone, Copy, PartialEq, Eq, Structural)]
pub enum RetryAction {
    /// The response is the expected one: hand it back.
    Accept,
    /// No tries left: hand back this last response.
    GiveUp,
    /// 401/403: authenticate again, wait, then retry.
    Reauth { delay_ms: u64 },
    /// Wait, then retry without authenticating.
    Wait { delay_ms: u64 },
}

pub const DEFAULT_MAX_TRIES: u32 = 3;
pub const AUTH_THROTTLE_SECS: i64 = 30;

/// `base * 2^(k)`, held at `u64::MAX`.
pub open spec fn backoff_ms(base: u64, k: nat) -> u64 {
    if base * exp2(k) > u64::MAX { u64::MAX } else { (base * exp2(k)) as u64 }
}

/// Retry policy of one request: `try_num` counts from 1, `retry_after_ms`
/// is the parsed `Retry-After` of the response, `base_delay_ms` the pause
/// before retrying an unexpected response.
pub open spec fn retry_spec(expected: bool, status: u16, try_num: u32, max_tries: u32, retry_after_ms: Option<u64>, base_delay_ms: u64) -> RetryAction {
    if expected {
        RetryAction::Accept
    } else if try_num >= max_tries {
        RetryAction::GiveUp
    } else if status == 401 || status == 403 {
        RetryAction::Reauth { delay_ms: base_delay_ms }
    } else if status == 429 {
        RetryAction::Wait {
            delay_ms: match retry_after_ms {
                Some(d) => d,
                None => backoff_ms(base_delay_ms, (try_num - 1) as nat),
            },
        }
    } else {
        RetryAction::Wait { delay_ms: base_delay_ms }
    }
}

fn saturating_backoff(base: u64, k: u32) -> (r: u64)
    ensures
        r == backoff_ms(base, k as nat),
{
    let mut acc: u64 = base;
    let mut i: u32 = 0;
    let mut saturated = false;
    assert(exp2(0) == 1);
    while i < k
        invariant
            i <= k,
            saturated ==> base * exp2(i as nat) > u64::MAX,
            !saturated ==> acc == base * exp2(i as nat),
            saturated ==> acc == u64::MAX,
        decreases k - i,
    {
        assert(exp2((i + 1) as nat) == 2 * exp2(i as nat));
        assert(base * exp2((i + 1) as nat) == 2 * (base * exp2(i as nat))) by (nonlinear_arith)
            requires
                exp2((i + 1) as nat) == 2 * exp2(i as nat),
        ;
        if !saturated {
            if acc > u64::MAX / 2 {
                saturated = true;
                acc = u64::MAX;
            } else {
                acc = acc * 2;
            }
        }
        i += 1;
    }
    acc
}

/// Decides what follows one response of a request with retries.
pub fn retry_step(expected: bool, status: u16, try_num: u32, max_tries: u32, retry_after_ms: Option<u64>, base_delay_ms: u64) -> (r: RetryAction)
    requires
        try_num >= 1,
    ensures
        r == retry_spec(expected, status, try_num, max_tries, retry_after_ms, base_delay_ms),
{
    if expected {
        RetryAction::Accept
    } else if try_num >= max_tries {
        RetryAction::GiveUp
    } else if status == 401 || status == 403 {
        RetryAction::Reauth { delay_ms: base_delay_ms }
    } else if status == 429 {
        let d = match retry_after_ms {
            Some(d) => d,
            None => saturating_backoff(base_delay_ms, try_num - 1),
        };
        RetryAction::Wait { delay_ms: d }
    } else {
        RetryAction::Wait { delay_ms: base_delay_ms }
    }
}

/// Authentication is skipped when one succeeded less than 30 s before `now`.
pub fn auth_is_fresh(last_success_at: Option<i64>, now: i64) -> (r: bool)
    ensures
        r == (last_success_at matches Some(t) && now - t < AUTH_THROTTLE_SECS),
{
    match last_success_at {
        Some(t) => {
            (now as i128) - (t as i128) < AUTH_THROTTLE_SECS as i128
        },
        None => false,
    }
}

/// What the standard Base64 encoding (with padding) gives for the UTF-8 bytes of a text.
pub uninterp spec fn base64_text(s: Seq<char>) -> Seq<char>;

/// Relies on `base64::engine::general_purpose::STANDARD.encode`: the
/// padded standard Base64 of the UTF-8 bytes of `s`.
#[verifier::external_body]
fn encode_base64(s: &str) -> (r: String)
    ensures
        r@ == base64_text(s@),
{
    base64::Engine::encode(&base64::engine::general_purpose::STANDARD, s.as_bytes())
}

/// The `Authorization` value of Basic authentication for the credentials.
pub fn basic_auth_value(email: &str, password: &str) -> (r: String)
    ensures
        r@ == "Basic "@ + base64_text(email@ + ":"@ + password@),
{
    let mut cred = email.to_string();
    cred.append(":");
    cred.append(password);
    let enc = encode_base64(cred.as_str());
    let mut out = "Basic ".to_string();
    out.append(enc.as_str());
    out
}

} // verus!
