use vstd::prelude::*;
use crate::text::{concat_str, string_views};
use crate::json::{jget, jstr, Json, JsonV};
use crate::text::{chars_eq, chars_of, is_white, push_chars, push_str_chars, slice_chars, string_of, trim, trim_chars};
use crate::worker::{decimal, decimal_chars};

verus! {

/// Why a chat completion failed.
#[derive(Debug)]
pub enum LlmError {
    MissingEnv(String),
    Http(String),
    Unauthorized,
    RateLimited,
    InvalidResponse(String),
}

/// The text a model answered with, and the raw body it came in.
#[derive(Debug)]
pub struct ChatResponse {
    pub text: String,
    pub raw: Option<String>,
}

pub open spec fn http_message(status: u16, raw: Seq<char>) -> Seq<char> {
    decimal(status as nat) + seq![' '] + raw
}

/// Maps the status of a chat response to its error, if any.
pub fn classify_chat_status(status: u16, raw: &str) -> (r: Result<(), LlmError>)
    ensures
        (status == 401 || status == 403) ==> r matches Err(LlmError::Unauthorized),
        status == 429 ==> r matches Err(LlmError::RateLimited),
        status != 401 && status != 403 && status != 429 && !(200 <= status <= 299) ==> (r matches Err(
            LlmError::Http(m),
        ) && m@ == http_message(status, raw@)),
        200 <= status <= 299 ==> r is Ok,
{
    if status == 401 || status == 403 {
        Err(LlmError::Unauthorized)
    } else if status == 429 {
        Err(LlmError::RateLimited)
    } else if !(200 <= status && status <= 299) {
        let mut c = decimal_chars(status as u64);
        c.push(' ');
        push_str_chars(&mut c, raw);
        Err(LlmError::Http(string_of(c.as_slice())))
    } else {
        Ok(())
    }
}

/// The parts of a content array: each part's `text` when it is a string,
/// else the part itself when it is a string; other parts are skipped.
pub open spec fn content_parts(items: Seq<JsonV>) -> Seq<Seq<char>>
    decreases items.len(),
{
    if items.len() == 0 {
        Seq::empty()
    } else {
        let p = content_parts(items.drop_last());
        let it = items.last();
        match jstr(jget(it, "text"@)) {
            Some(t) => p.push(t),
            None => match it {
                JsonV::Str(t) => p.push(t),
                _ => p,
            },
        }
    }
}

pub open spec fn join_newline(ls: Seq<Seq<char>>) -> Seq<char>
    decreases ls.len(),
{
    if ls.len() == 0 {
        Seq::empty()
    } else if ls.len() == 1 {
        ls[0]
    } else {
        join_newline(ls.drop_last()) + seq!['\n'] + ls.last()
    }
}

pub open spec fn first_choice(v: JsonV) -> Option<JsonV> {
    match jget(v, "choices"@) {
        Some(JsonV::Array(cs)) => if cs.len() > 0 { Some(cs[0]) } else { None },
        _ => None,
    }
}

/// The text of a chat completion, tolerating the shapes providers use:
/// `choices[0].message.content` or `choices[0].content` as a string or an
/// array of parts, else `choices[0].text`, else a top-level `output_text`.
/// `None` when none of them is there or the content has another type.
pub open spec fn chat_text_spec(v: JsonV) -> Option<Seq<char>> {
    match first_choice(v) {
        None => None,
        Some(c0) => {
            let content = match jget(c0, "message"@) {
                Some(m) => match jget(m, "content"@) {
                    Some(x) => Some(x),
                    None => jget(c0, "content"@),
                },
                None => jget(c0, "content"@),
            };
            match content {
                Some(JsonV::Str(s)) => Some(s),
                Some(JsonV::Array(items)) => Some(join_newline(content_parts(items))),
                Some(_) => None,
                None => match jstr(jget(c0, "text"@)) {
                    Some(t) => Some(t),
                    None => jstr(jget(v, "output_text"@)),
                },
            }
        },
    }
}

fn parts_text(items: &Vec<Json>) -> (r: String)
    ensures
        r@ == join_newline(content_parts(crate::json::items_view(items@))),
{
    let ghost iv = crate::json::items_view(items@);
    let mut out: Vec<char> = Vec::new();
    let mut count: usize = 0;
    let mut i: usize = 0;
    while i < items.len()
        invariant
            i <= items@.len(),
            iv == crate::json::items_view(items@),
            out@ == join_newline(content_parts(iv.subrange(0, i as int))),
            count == content_parts(iv.subrange(0, i as int)).len(),
            count <= i,
        decreases items@.len() - i,
    {
        let ghost sub = iv.subrange(0, i + 1);
        assert(sub.drop_last() =~= iv.subrange(0, i as int));
        assert(sub.last() == items@[i as int]@);
        let it = &items[i];
        let piece: Option<&String> = match it.get("text") {
            Some(Json::Str(t)) => Some(t),
            _ => match it {
                Json::Str(t) => Some(t),
                _ => None,
            },
        };
        match piece {
            Some(t) => {
                let ghost prev = content_parts(iv.subrange(0, i as int));
                if count > 0 {
                    out.push('\n');
                }
                push_str_chars(&mut out, t.as_str());
                proof {
                    let parts = content_parts(sub);
                    assert(parts == prev.push(t@));
                    if count == 0 {
                        assert(out@ =~= parts[0]);
                    } else {
                        assert(parts.drop_last() =~= prev);
                        assert(out@ =~= join_newline(parts.drop_last()) + seq!['\n'] + parts.last());
                    }
                }
                count += 1;
            },
            None => {},
        }
        i += 1;
    }
    assert(iv.subrange(0, items@.len() as int) =~= iv);
    string_of(out.as_slice())
}

/// `s` ends with `tail`.
pub open spec fn ends_with(s: Seq<char>, tail: Seq<char>) -> bool {
    s.len() >= tail.len() && s.subrange(s.len() - tail.len(), s.len() as int) == tail
}

/// An error message naming what went wrong, followed by the raw body.
fn invalid(what: &str, raw: &str) -> (r: LlmError)
    ensures
        r matches LlmError::InvalidResponse(m) && ends_with(m@, raw@),
{
    let m = concat_str(what, raw);
    assert(m@.subrange(m@.len() - raw@.len(), m@.len() as int) =~= raw@);
    LlmError::InvalidResponse(m)
}

/// Reads the answer text out of a parsed chat completion body; when no text
/// is found the error carries the raw body `raw`.
pub fn extract_chat_text(v: &Json, raw: &str) -> (r: Result<String, LlmError>)
    ensures
        match chat_text_spec(v@) {
            Some(t) => r matches Ok(x) && x@ == t,
            None => r matches Err(LlmError::InvalidResponse(m)) && ends_with(m@, raw@),
        },
{
    let c0 = match v.get("choices") {
        Some(Json::Array(cs)) => {
            proof {
                crate::json::lemma_array_view(*cs);
            }
            if cs.len() > 0 {
                &cs[0]
            } else {
                return Err(invalid("missing choices[0], raw=", raw));
            }
        },
        _ => {
            return Err(invalid("missing choices[0], raw=", raw));
        },
    };
    let content: Option<&Json> = match c0.get("message") {
        Some(m) => match m.get("content") {
            Some(x) => Some(x),
            None => c0.get("content"),
        },
        None => c0.get("content"),
    };
    match content {
        Some(Json::Str(s)) => Ok(s.clone()),
        Some(Json::Array(items)) => {
            proof {
                crate::json::lemma_array_view(*items);
            }
            Ok(parts_text(items))
        },
        Some(_) => Err(invalid("unexpected content type, raw=", raw)),
        None => match c0.get("text") {
            Some(Json::Str(t)) => Ok(t.clone()),
            _ => match v.get("output_text") {
                Some(Json::Str(t)) => Ok(t.clone()),
                _ => Err(invalid("missing content/text in choices[0], raw=", raw)),
            },
        },
    }
}

pub open spec fn is_key_sep(c: char) -> bool {
    c == ',' || c == ';' || c == '\n' || c == '\t' || c == ' '
}

/// The pieces of `s` between separators, in order, empty ones included.
pub open spec fn key_pieces(s: Seq<char>) -> Seq<Seq<char>>
    decreases s.len(),
{
    if s.len() == 0 {
        seq![Seq::<char>::empty()]
    } else {
        let p = key_pieces(s.drop_last());
        if is_key_sep(s.last()) {
            p.push(Seq::<char>::empty())
        } else {
            p.update(p.len() - 1, p.last().push(s.last()))
        }
    }
}

/// The trimmed, non-empty pieces of `ps`.
pub open spec fn nonempty_trimmed(ps: Seq<Seq<char>>) -> Seq<Seq<char>>
    decreases ps.len(),
{
    if ps.len() == 0 {
        Seq::empty()
    } else if trim(ps.last()).len() > 0 {
        nonempty_trimmed(ps.drop_last()).push(trim(ps.last()))
    } else {
        nonempty_trimmed(ps.drop_last())
    }
}

/// Splits a list of API keys on commas, semicolons, tabs, newlines and spaces.
pub fn split_keys(raw: &str) -> (r: Vec<String>)
    ensures
        string_views(r@) == nonempty_trimmed(key_pieces(raw@)),
{
    let v = chars_of(raw);
    let n = v.len();
    let mut out: Vec<String> = Vec::new();
    let mut cur: Vec<char> = Vec::new();
    let mut i: usize = 0;
    assert(key_pieces(v@.subrange(0, 0)) =~= seq![Seq::<char>::empty()]);
    while i < n
        invariant
            n == v@.len(),
            i <= n,
            key_pieces(v@.subrange(0, i as int)).last() == cur@,
            key_pieces(v@.subrange(0, i as int)).len() >= 1,
            string_views(out@) == nonempty_trimmed(key_pieces(v@.subrange(0, i as int)).drop_last()),
        decreases n - i,
    {
        let ghost kp = key_pieces(v@.subrange(0, i as int));
        assert(v@.subrange(0, i + 1).drop_last() =~= v@.subrange(0, i as int));
        let c = v[i];
        if c == ',' || c == ';' || c == '\n' || c == '\t' || c == ' ' {
            let t = trim_chars(&cur);
            if t.len() > 0 {
                let ghost before = out@;
                out.push(string_of(t.as_slice()));
                assert(string_views(out@) =~= string_views(before).push(t@));
            }
            assert(key_pieces(v@.subrange(0, i + 1)).drop_last() =~= kp);
            cur = Vec::new();
        } else {
            cur.push(c);
            assert(key_pieces(v@.subrange(0, i + 1)).drop_last() =~= kp.drop_last());
        }
        i += 1;
    }
    assert(v@.subrange(0, n as int) =~= v@);
    let t = trim_chars(&cur);
    if t.len() > 0 {
        let ghost before = out@;
        out.push(string_of(t.as_slice()));
        assert(string_views(out@) =~= string_views(before).push(t@));
    }
    out
}

/// Round-robin choice of the key for the `counter`-th request.
pub fn pick_key(keys: &Vec<String>, counter: usize) -> (r: &String)
    requires
        keys@.len() > 0,
    ensures
        *r == keys@[(counter as int) % (keys@.len() as int)],
{
    &keys[counter % keys.len()]
}

/// Tries of one chat request: OpenRouter, the default provider, retries a
/// transport timeout once on the next key; Cerebras and Xirang do not.
pub fn chat_attempts(provider: &str) -> (r: u32)
    ensures
        r == if provider@ == "cerebras"@ || provider@ == "xirang"@ { 1u32 } else { 2u32 },
{
    let v = chars_of(provider);
    if chars_eq(&v, "cerebras") || chars_eq(&v, "xirang") {
        1
    } else {
        2
    }
}

} // verus!
