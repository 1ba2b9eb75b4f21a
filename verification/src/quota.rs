//! Codex quota API: the requests the client sends, how it reads the replies,
//! and the reset-credit snapshot. The HTTP exchange itself, and the rate
//! windows (which carry floating-point percentages), live with the caller.

use vstd::prelude::*;
use crate::auth::CodexAuth;
use crate::codec::{lossy_head, spec_utf8_lossy};
use crate::error::AppError;
use crate::text::{parse_i64, spec_parse_i64, chars_eq_str, chars_of, decimal, fmt_u64, prefix_at_most, push_chars, push_str, string_from_chars};
use crate::time::{Timestamp, from_unix, spec_parse_rfc3339, spec_unix_in_range, parse_rfc3339};
use crate::json::Json;
use crate::time::spec_seconds_until;

verus! {

/// The backend the official Codex CLI talks to.
pub const DEFAULT_BASE: &'static str = "https://chatgpt.com/backend-api";

/// The `User-Agent` of every request.
pub const USER_AGENT_STR: &'static str = "CodexRunway-Windows/0.1";

/// The quota endpoint, relative to the base.
pub const USAGE_PATH: &'static str = "wham/usage";

/// The reset-credits endpoint, relative to the base.
pub const RESET_CREDITS_PATH: &'static str = "wham/rate-limit-reset-credits";

/// The profile endpoint, relative to the base.
pub const PROFILE_PATH: &'static str = "wham/profiles/me";

/// Whether a character may stand in an HTTP header value: a tab, or any
/// character from the space on except DEL (characters past ASCII are sent
/// as UTF-8 bytes, all of which are allowed).
pub open spec fn is_header_char(c: char) -> bool {
    c == '\t' || ((c as u32) >= 32 && (c as u32) != 127)
}

pub open spec fn is_header_value(s: Seq<char>) -> bool {
    forall|i: int| 0 <= i < s.len() ==> is_header_char(#[trigger] s[i])
}

/// Calls `reqwest::header::HeaderValue::from_str`, which accepts a text
/// exactly when each of its bytes is a tab or at least 32 and not 127.
#[verifier::external_body]
fn header_value_ok(s: &str) -> (r: bool)
    ensures
        r == is_header_value(s@),
{
    reqwest::header::HeaderValue::from_str(s).is_ok()
}

/// A text without its trailing `c` characters.
pub open spec fn trim_end_char(s: Seq<char>, c: char) -> Seq<char>
    decreases s.len(),
{
    if s.len() > 0 && s.last() == c {
        trim_end_char(s.drop_last(), c)
    } else {
        s
    }
}

/// The request line and headers of one call to the quota API.
#[derive(Debug, Clone)]
pub struct QuotaRequest {
    pub url: String,
    /// The `Authorization` header: `Bearer <access token>`.
    pub authorization: String,
    /// The `ChatGPT-Account-Id` header, when the account id is non-empty and
    /// can stand in a header.
    pub account_id: Option<String>,
}

/// The URL of an endpoint: the base without trailing slashes, a slash, the
/// path.
pub open spec fn spec_endpoint_url(base: Seq<char>, path: Seq<char>) -> Seq<char> {
    trim_end_char(base, '/') + "/"@ + path
}

/// The request for `path` under `base` with the credential `auth`: an
/// `Auth` error without an access token, or when `Bearer <token>` cannot
/// stand in a header; the account id header only when it is non-empty and
/// can stand in a header.
pub open spec fn spec_quota_request(base: Seq<char>, path: Seq<char>, auth: CodexAuth) -> Result<(Seq<char>, Seq<char>, Option<Seq<char>>), Seq<char>> {
    match auth.tokens {
        None => Err("missing access_token; cannot call Codex API"@),
        Some(t) => {
            let bearer = "Bearer "@ + t.access_token@;
            if !is_header_value(bearer) {
                Err("access_token contains non-ASCII characters"@)
            } else {
                let acc = match t.account_id {
                    Some(a) => if a@.len() > 0 && is_header_value(a@) { Some(a@) } else { None },
                    None => None,
                };
                Ok((spec_endpoint_url(base, path), bearer, acc))
            }
        },
    }
}

fn trim_end_slashes(s: &str) -> (r: Vec<char>)
    ensures
        r@ == trim_end_char(s@, '/'),
{
    let mut v = chars_of(s);
    while v.len() > 0 && v[v.len() - 1] == '/'
        invariant
            trim_end_char(v@, '/') == trim_end_char(s@, '/'),
        decreases v.len(),
    {
        let ghost before = v@;
        v.pop();
        assert(v@ =~= before.drop_last());
    }
    v
}

/// The URL of an endpoint; see `spec_endpoint_url`.
pub fn endpoint_url(base: &str, path: &str) -> (r: String)
    ensures
        r@ == spec_endpoint_url(base@, path@),
{
    let mut v = trim_end_slashes(base);
    push_str(&mut v, "/");
    push_str(&mut v, path);
    proof {
        reveal_strlit("/");
    }
    string_from_chars(&v)
}

/// The request for `path` under `base`; see `spec_quota_request`.
pub fn quota_request(base: &str, path: &str, auth: &CodexAuth) -> (r: Result<QuotaRequest, AppError>)
    ensures
        match spec_quota_request(base@, path@, *auth) {
            Ok((url, bearer, acc)) => r matches Ok(q) && q.url@ == url && q.authorization@ == bearer
                && match q.account_id { Some(a) => acc == Some(a@), None => acc is None },
            Err(msg) => r matches Err(AppError::Auth(m)) && m@ == msg,
        },
{
    proof {
        reveal_strlit("missing access_token; cannot call Codex API");
        reveal_strlit("access_token contains non-ASCII characters");
        reveal_strlit("Bearer ");
    }
    let url = endpoint_url(base, path);
    let token = match auth.access_token() {
        Some(t) => t,
        None => {
            return Err(AppError::Auth("missing access_token; cannot call Codex API".to_owned()));
        },
    };
    let mut b = chars_of("Bearer ");
    push_str(&mut b, token.as_str());
    let bearer = string_from_chars(&b);
    if !header_value_ok(bearer.as_str()) {
        return Err(AppError::Auth("access_token contains non-ASCII characters".to_owned()));
    }
    let account_id = match auth.account_id() {
        Some(a) => {
            if !a.as_str().is_empty() && header_value_ok(a.as_str()) {
                Some(a)
            } else {
                None
            }
        },
        None => None,
    };
    Ok(QuotaRequest { url, authorization: bearer, account_id })
}

/// How a reply is read: a status outside 200..=299 is a `Quota` error
/// `<code> <reason>: <first 200 characters of the body>`; 204 gives no
/// bytes; any other success gives the body.
pub open spec fn spec_quota_reply(status: u16, reason: Seq<char>, body: Seq<u8>) -> Result<Seq<u8>, Seq<char>> {
    if !(200 <= status && status <= 299) {
        Err(decimal(status as nat) + " "@ + reason + ": "@ + prefix_at_most(spec_utf8_lossy(body), 200))
    } else if status == 204 {
        Ok(Seq::empty())
    } else {
        Ok(body)
    }
}

/// Reads a reply of status `status` (whose canonical reason is `reason`,
/// empty when it has none); see `spec_quota_reply`.
pub fn quota_reply(status: u16, reason: &str, body: Vec<u8>) -> (r: Result<Vec<u8>, AppError>)
    ensures
        match spec_quota_reply(status, reason@, body@) {
            Ok(b) => r matches Ok(v) && v@ == b,
            Err(msg) => r matches Err(AppError::Quota(m)) && m@ == msg,
        },
{
    proof {
        reveal_strlit(" ");
        reveal_strlit(": ");
    }
    if !(200 <= status && status <= 299) {
        let head = lossy_head(body.as_slice(), 200);
        let mut m = fmt_u64(status as u64);
        push_str(&mut m, " ");
        push_str(&mut m, reason);
        push_str(&mut m, ": ");
        push_chars(&mut m, &head);
        return Err(AppError::Quota(string_from_chars(&m)));
    }
    if status == 204 {
        return Ok(Vec::new());
    }
    Ok(body)
}

/// One reset credit as the reset-credits endpoint reports it.
#[derive(Debug, Clone)]
pub struct ResetCreditRaw {
    pub id: Option<String>,
    pub status: Option<String>,
    pub created_at: Option<Timestamp>,
    pub expires_at: Option<Timestamp>,
}

/// The reply of the reset-credits endpoint.
#[derive(Debug, Clone)]
pub struct ResetCreditsResponse {
    pub available_count: Option<i64>,
    pub credits: Vec<ResetCreditRaw>,
}

/// One reset credit, with the whole seconds left until it expires.
#[derive(Debug, Clone)]
pub struct ResetCredit {
    pub id: Option<String>,
    pub status: String,
    pub created_at: Option<Timestamp>,
    pub expires_at: Option<Timestamp>,
    pub remaining_seconds: i64,
}

/// The reset credits of an account at one instant.
#[derive(Debug, Clone)]
pub struct ResetCreditsSnapshot {
    pub available_count: i64,
    pub credits: Vec<ResetCredit>,
    pub updated_at: Timestamp,
}

/// Whole seconds from `now` until an optional instant: 0 without one, and
/// never negative.
pub open spec fn spec_remaining(at: Option<Timestamp>, now: Timestamp) -> i64 {
    match at {
        Some(e) => spec_seconds_until(now, e),
        None => 0,
    }
}

/// Whole seconds from `now` until an optional instant (0 without one).
pub fn remaining_secs(at: Option<Timestamp>, now: Timestamp) -> (r: i64)
    ensures
        r == spec_remaining(at, now),
        r >= 0,
{
    match at {
        Some(e) => now.seconds_until(&e),
        None => 0,
    }
}

/// A credit as the snapshot shows it: the status defaults to `unknown`.
pub open spec fn credit_ok(raw: ResetCreditRaw, c: ResetCredit, now: Timestamp) -> bool {
    &&& c.id == raw.id
    &&& c.status@ == match raw.status { Some(s) => s@, None => "unknown"@ }
    &&& c.created_at == raw.created_at
    &&& c.expires_at == raw.expires_at
    &&& c.remaining_seconds == spec_remaining(raw.expires_at, now)
}

/// How many credits have the status `available`.
pub open spec fn count_available(cs: Seq<ResetCredit>) -> nat
    decreases cs.len(),
{
    if cs.len() == 0 {
        0
    } else {
        count_available(cs.drop_last()) + if cs.last().status@ == "available"@ { 1nat } else { 0nat }
    }
}

fn credit_of(raw: ResetCreditRaw, now: Timestamp) -> (c: ResetCredit)
    ensures
        credit_ok(raw, c, now),
{
    proof {
        reveal_strlit("unknown");
    }
    let remaining = remaining_secs(raw.expires_at, now);
    let status = match raw.status {
        Some(s) => s,
        None => "unknown".to_owned(),
    };
    ResetCredit {
        id: raw.id,
        status,
        created_at: raw.created_at,
        expires_at: raw.expires_at,
        remaining_seconds: remaining,
    }
}

impl ResetCreditsSnapshot {
    /// The snapshot of a reply read at `now`: one credit per reported
    /// credit, in order; the available count as reported, or else the
    /// number of credits whose status is `available`.
    pub fn from_response(r: ResetCreditsResponse, now: Timestamp) -> (s: ResetCreditsSnapshot)
        ensures
            s.updated_at == now,
            s.credits@.len() == r.credits@.len(),
            forall|i: int| 0 <= i < r.credits@.len() ==> credit_ok(r.credits@[i], #[trigger] s.credits@[i], now),
            s.available_count == match r.available_count {
                Some(n) => n,
                None => count_available(s.credits@) as i64,
            },
    {
        let ResetCreditsResponse { available_count, credits: raw } = r;
        let ghost all = raw@;
        let mut src = raw;
        let mut credits: Vec<ResetCredit> = Vec::new();
        let mut avail: usize = 0;
        assert(all.skip(0) =~= all);
        while src.len() > 0
            invariant
                credits@.len() + src@.len() == all.len(),
                src@ == all.skip(credits@.len() as int),
                forall|i: int| 0 <= i < credits@.len() ==> credit_ok(all[i], #[trigger] credits@[i], now),
                avail == count_available(credits@),
                avail <= credits@.len(),
            decreases src.len(),
        {
            let ghost j: int = credits@.len() as int;
            let x = src.remove(0);
            assert(x == all[j]);
            assert(src@ =~= all.skip(j + 1));
            let c = credit_of(x, now);
            let is_avail = chars_eq_str(&chars_of(c.status.as_str()), "available");
            let ghost before = credits@;
            credits.push(c);
            assert(credits@.drop_last() =~= before);
            if is_avail {
                assert(avail < credits@.len() <= usize::MAX) by {
                    assert(credits@.len() == credits.len());
                }
                avail = avail + 1;
            }
        }
        let available_count = match available_count {
            Some(n) => n,
            None => avail as i64,
        };
        ResetCreditsSnapshot { available_count, credits, updated_at: now }
    }
}


/// A count that the quota endpoint sends as a JSON number or as a decimal
/// text: a number as `as_i64` reads it (none when it is not an integer in
/// range); a text read as an `i64`, and `None` when it is not one, which
/// fails the reply; nothing for any other value.
pub open spec fn spec_flexible_i64(v: Json) -> Option<Option<i64>> {
    match v {
        Json::Number(n) => Some(n.int),
        Json::Str(s) => match spec_parse_i64(s@) {
            Some(x) => Some(Some(x)),
            None => None,
        },
        _ => Some(None),
    }
}

/// Reads a count that may come as a number or as a text; see
/// `spec_flexible_i64`.
pub fn flexible_i64(v: &Json) -> (r: Option<Option<i64>>)
    ensures
        r == spec_flexible_i64(*v),
{
    match v {
        Json::Number(n) => Some(n.int),
        Json::Str(s) => match parse_i64(s.as_str()) {
            Some(x) => Some(Some(x)),
            None => None,
        },
        _ => Some(None),
    }
}

/// The instant `secs` whole seconds after the epoch, when chrono's range
/// holds it.
pub open spec fn spec_unix_instant(secs: i64) -> Option<Timestamp> {
    if spec_unix_in_range(secs as int) {
        Some(Timestamp { secs, nanos: 0 })
    } else {
        None
    }
}

/// The instant `secs` whole seconds after the epoch; see
/// `spec_unix_instant`.
pub fn unix_instant(secs: i64) -> (r: Option<Timestamp>)
    ensures
        r == spec_unix_instant(secs),
{
    from_unix(secs)
}

/// An instant that the quota endpoint sends as a JSON number of seconds
/// since the epoch (an integer, or else the number truncated), or as a text
/// in RFC 3339 or else a decimal count of seconds; nothing for any other
/// value, for a text that is neither, or out of chrono's range.
pub open spec fn spec_flexible_date(v: Json) -> Option<Timestamp> {
    match v {
        Json::Number(n) => spec_unix_instant(
            match n.int {
                Some(i) => i,
                None => n.float_truncated,
            },
        ),
        Json::Str(s) => match spec_parse_rfc3339(s@) {
            Some(t) => Some(t),
            None => match spec_parse_i64(s@) {
                Some(i) => spec_unix_instant(i),
                None => None,
            },
        },
        _ => None,
    }
}

/// Reads an instant that may come as a number or as a text; see
/// `spec_flexible_date`.
pub fn flexible_date(v: &Json) -> (r: Option<Timestamp>)
    ensures
        r == spec_flexible_date(*v),
{
    match v {
        Json::Number(n) => {
            let secs = match n.int {
                Some(i) => i,
                None => n.float_truncated,
            };
            unix_instant(secs)
        },
        Json::Str(s) => match parse_rfc3339(s.as_str()) {
            Some(t) => Some(t),
            None => match parse_i64(s.as_str()) {
                Some(i) => unix_instant(i),
                None => None,
            },
        },
        _ => None,
    }
}

} // verus!
