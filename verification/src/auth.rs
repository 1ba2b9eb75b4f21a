//! The Codex `auth.json` credential model and the rules that decide whether
//! a credential can be installed as the active Codex login.

use vstd::prelude::*;
use crate::codec::{b64url_decode, spec_b64url_decode};
use crate::json::{Json, field_lookup, json_get, opt_str, parse_json_bytes, spec_parse_json_bytes};
use crate::text::{ascii_lower_chars, ascii_lower_seq, chars_eq_str, chars_of, string_from_chars};

verus! {

/// Number of UTF-8 bytes of a text (`str::len`).
pub open spec fn byte_len(s: Seq<char>) -> nat {
    vstd::utf8::encode_utf8(s).len()
}

pub fn byte_len_of(s: &String) -> (r: usize)
    ensures
        r == byte_len(s@),
{
    s.as_str().as_bytes().len()
}

#[derive(Debug, Clone, PartialEq, Eq)]
pub struct Tokens {
    pub id_token: Option<String>,
    pub access_token: String,
    pub refresh_token: String,
    pub account_id: Option<String>,
}

impl Default for Tokens {
    fn default() -> (r: Tokens)
        ensures
            r.id_token is None,
            r.access_token@.len() == 0,
            r.refresh_token@.len() == 0,
            r.account_id is None,
    {
        Tokens {
            id_token: None,
            access_token: String::new(),
            refresh_token: String::new(),
            account_id: None,
        }
    }
}

/// The credential carries an OAuth access or refresh token.
pub open spec fn spec_has_oauth_tokens(t: Tokens) -> bool {
    t.access_token@.len() > 0 || t.refresh_token@.len() > 0
}

impl Tokens {
    pub fn has_oauth_tokens(&self) -> (r: bool)
        ensures
            r == spec_has_oauth_tokens(*self),
    {
        !self.access_token.as_str().is_empty() || !self.refresh_token.as_str().is_empty()
    }
}

/// The on-disk shape of Codex's `auth.json`.
#[derive(Debug, Clone)]
pub struct CodexAuth {
    pub auth_mode: Option<String>,
    pub tokens: Option<Tokens>,
    pub last_refresh: Option<String>,
    pub plan_type: Option<String>,
    pub auth_file_plan_type: Option<String>,
    pub openai_api_key: Option<String>,
}

impl Default for CodexAuth {
    fn default() -> (r: CodexAuth)
        ensures
            r.auth_mode is None,
            r.tokens is None,
            r.last_refresh is None,
            r.plan_type is None,
            r.auth_file_plan_type is None,
            r.openai_api_key is None,
    {
        CodexAuth {
            auth_mode: None,
            tokens: None,
            last_refresh: None,
            plan_type: None,
            auth_file_plan_type: None,
            openai_api_key: None,
        }
    }
}

#[derive(Debug, Clone, Copy, PartialEq, Eq, Structural)]
pub enum LoginUsability {
    Usable,
    /// Access token is expired (or missing) and there is no refresh_token to
    /// renew it. The account can be kept in the library but not switched to.
    ExpiredAccess,
    /// Placeholder / truncated junk. Never written back to official
    /// `auth.json`.
    Invalid,
}

/// An `auth_mode` that names API-key login: `apikey`, `api_key` or
/// `api-key`, in any ASCII case.
pub open spec fn is_api_key_mode(m: Seq<char>) -> bool {
    let l = ascii_lower_seq(m);
    l == "apikey"@ || l == "api_key"@ || l == "api-key"@
}

/// The credential logs in with an API key: it holds a non-empty key and no
/// OAuth token, or its `auth_mode` names API-key login.
pub open spec fn spec_is_api_key(a: CodexAuth) -> bool {
    ||| (a.openai_api_key matches Some(k) && k@.len() > 0 && !(a.tokens matches Some(t)
        && spec_has_oauth_tokens(t)))
    ||| (a.auth_mode matches Some(m) && is_api_key_mode(m@))
}

/// The credential logs in with OAuth tokens.
pub open spec fn spec_is_oauth(a: CodexAuth) -> bool {
    !spec_is_api_key(a) && (a.tokens matches Some(t) && spec_has_oauth_tokens(t))
}

/// The second `.`-separated segment of a JWT (its payload), if there is one.
pub open spec fn jwt_payload_segment(jwt: Seq<char>) -> Option<Seq<char>> {
    if exists|i: int| 0 <= i < jwt.len() && jwt[i] == '.' {
        let i = choose|i: int| 0 <= i < jwt.len() && jwt[i] == '.' && forall|k: int|
            0 <= k < i ==> jwt[k] != '.';
        let rest = jwt.skip(i + 1);
        if exists|j: int| 0 <= j < rest.len() && rest[j] == '.' {
            let j = choose|j: int| 0 <= j < rest.len() && rest[j] == '.' && forall|k: int|
                0 <= k < j ==> rest[k] != '.';
            Some(rest.take(j))
        } else {
            Some(rest)
        }
    } else {
        None
    }
}

/// How a JSON value deserializes as an `Option<i64>`: `null` is `None`, an
/// integer in range is `Some`, anything else is an error (`Err`).
pub open spec fn optional_i64_of(v: Json) -> Result<Option<i64>, ()> {
    match v {
        Json::Null => Ok(None),
        Json::Number(n) => match n.int {
            Some(x) => Ok(Some(x)),
            None => Err(()),
        },
        _ => Err(()),
    }
}

/// The `exp` claim of a decoded JWT payload, as a struct with one optional
/// `exp: i64` field deserializes it: from an object (a missing `exp` is
/// `None`) or from a one-element array; any other value is an error. The
/// payload is read as a JSON tree, whose objects keep the last of repeated
/// keys, so a payload that repeats `exp` is read by its last `exp`.
pub open spec fn claims_exp(j: Json) -> Result<Option<i64>, ()> {
    match j {
        Json::Object(fields) => match field_lookup(fields@, "exp"@) {
            Some(v) => optional_i64_of(v),
            None => Ok(None),
        },
        Json::Array(items) => if items@.len() == 1 {
            optional_i64_of(items@[0])
        } else {
            Err(())
        },
        _ => Err(()),
    }
}

/// A JWT is expired at Unix time `now` when it cannot be read (no payload
/// segment, bad base64, bad JSON, bad `exp`) or when its `exp` is within 60
/// seconds of `now`; a readable token without `exp` never expires.
pub open spec fn spec_jwt_expired_at(jwt: Seq<char>, now: i64) -> bool {
    match jwt_payload_segment(jwt) {
        None => true,
        Some(seg) => match spec_b64url_decode(seg) {
            None => true,
            Some(bytes) => match spec_parse_json_bytes(bytes) {
                None => true,
                Some(j) => match claims_exp(j) {
                    Err(_) => true,
                    Ok(None) => false,
                    Ok(Some(exp)) => exp <= now + 60,
                },
            },
        },
    }
}

/// The payload segment of a JWT, as `jwt.split('.').nth(1)` gives it.
pub fn jwt_payload(jwt: &str) -> (r: Option<String>)
    ensures
        r matches Some(s) ==> jwt_payload_segment(jwt@) == Some(s@),
        r is None <==> jwt_payload_segment(jwt@) is None,
{
    let cs = chars_of(jwt);
    let mut i: usize = 0;
    while i < cs.len() && cs[i] != '.'
        invariant
            i <= cs.len(),
            cs@ == jwt@,
            forall|k: int| 0 <= k < i ==> cs@[k] != '.',
        decreases cs.len() - i,
    {
        i = i + 1;
    }
    if i == cs.len() {
        return None;
    }
    let start = i + 1;
    let mut j: usize = start;
    while j < cs.len() && cs[j] != '.'
        invariant
            start <= j <= cs.len(),
            cs@ == jwt@,
            forall|k: int| start <= k < j ==> cs@[k] != '.',
        decreases cs.len() - j,
    {
        j = j + 1;
    }
    let mut seg: Vec<char> = Vec::new();
    let mut k: usize = start;
    while k < j
        invariant
            start <= k <= j <= cs.len(),
            seg@ == cs@.subrange(start as int, k as int),
        decreases j - k,
    {
        seg.push(cs[k]);
        k = k + 1;
        assert(seg@ =~= cs@.subrange(start as int, k as int));
    }
    proof {
        let ii = choose|ii: int| 0 <= ii < jwt@.len() && jwt@[ii] == '.' && forall|kk: int|
            0 <= kk < ii ==> jwt@[kk] != '.';
        assert(jwt@[i as int] == '.');
        if ii < i { assert(false); }
        if ii > i { assert(jwt@[i as int] != '.'); }
        let rest = jwt@.skip(i + 1);
        if j < cs.len() {
            assert(rest[j - start] == '.');
            let jj = choose|jj: int| 0 <= jj < rest.len() && rest[jj] == '.' && forall|kk: int|
                0 <= kk < jj ==> rest[kk] != '.';
            if jj < j - start { assert(rest[jj] == cs@[start + jj]); }
            if jj > j - start { assert(rest[j - start] != '.'); }
            assert(rest.take(j - start) =~= seg@);
        } else {
            assert forall|jj: int| 0 <= jj < rest.len() implies rest[jj] != '.' by {
                assert(rest[jj] == cs@[start + jj]);
            }
            assert(rest =~= seg@);
        }
    }
    Some(string_from_chars(&seg))
}

/// The decoded JSON payload of a JWT: its second segment, base64url-decoded
/// and parsed.
pub open spec fn spec_jwt_claims(jwt: Seq<char>) -> Option<Json> {
    match jwt_payload_segment(jwt) {
        None => None,
        Some(seg) => match spec_b64url_decode(seg) {
            None => None,
            Some(bytes) => spec_parse_json_bytes(bytes),
        },
    }
}

/// Decodes the JSON payload of a JWT (no signature check).
pub fn jwt_claims(jwt: &str) -> (r: Option<Json>)
    ensures
        r == spec_jwt_claims(jwt@),
{
    let seg = match jwt_payload(jwt) {
        Some(s) => s,
        None => return None,
    };
    let bytes = match b64url_decode(seg.as_str()) {
        Some(b) => b,
        None => return None,
    };
    parse_json_bytes(bytes.as_slice())
}

fn optional_i64_exec(v: &Json) -> (r: Result<Option<i64>, ()>)
    ensures
        r == optional_i64_of(*v),
{
    match v {
        Json::Null => Ok(None),
        Json::Number(n) => match n.int {
            Some(x) => Ok(Some(x)),
            None => Err(()),
        },
        _ => Err(()),
    }
}

fn claims_exp_exec(j: &Json) -> (r: Result<Option<i64>, ()>)
    ensures
        r == claims_exp(*j),
{
    match j {
        Json::Object(_) => {
            proof { reveal_strlit("exp"); }
            match j.get("exp") {
                Some(v) => optional_i64_exec(v),
                None => Ok(None),
            }
        },
        Json::Array(items) => {
            if items.len() == 1 {
                optional_i64_exec(&items[0])
            } else {
                Err(())
            }
        },
        _ => Err(()),
    }
}

/// JWT expiry check at a given Unix time; see `spec_jwt_expired_at`.
pub fn is_jwt_expired_at(jwt: &str, now: i64) -> (r: bool)
    ensures
        r == spec_jwt_expired_at(jwt@, now),
{
    let seg = match jwt_payload(jwt) {
        Some(s) => s,
        None => return true,
    };
    let bytes = match b64url_decode(seg.as_str()) {
        Some(b) => b,
        None => return true,
    };
    let j = match parse_json_bytes(bytes.as_slice()) {
        Some(j) => j,
        None => return true,
    };
    match claims_exp_exec(&j) {
        Err(_) => true,
        Ok(None) => false,
        Ok(Some(exp)) => (exp as i128) <= (now as i128) + 60,
    }
}

/// Best-effort JWT expiry check against the current time. Returns `true` if
/// the token is expired or cannot be parsed.
pub fn is_jwt_expired(jwt: &str) -> (r: bool)
    ensures
        exists|now: i64| r == spec_jwt_expired_at(jwt@, now),
{
    let now = crate::time::now_timestamp().secs;
    let r = is_jwt_expired_at(jwt, now);
    assert(r == spec_jwt_expired_at(jwt@, now));
    r
}

/// Whether a credential can be installed as the Codex login at Unix time
/// `now`: an API key must be at least 8 bytes. Without a refresh token, a
/// missing or empty access token counts as expired (`ExpiredAccess`), as
/// does an expired one. Otherwise OAuth needs an access token of at least
/// 40 bytes and either a refresh token of at least 20 bytes or, without
/// one, an access token that is not expired.
pub open spec fn spec_login_usability_at(a: CodexAuth, now: i64) -> LoginUsability {
    if spec_is_api_key(a) {
        if a.openai_api_key matches Some(k) && byte_len(k@) >= 8 {
            LoginUsability::Usable
        } else {
            LoginUsability::Invalid
        }
    } else {
        match a.tokens {
            None => LoginUsability::ExpiredAccess,
            Some(t) => if t.access_token@.len() == 0 && t.refresh_token@.len() == 0 {
                LoginUsability::ExpiredAccess
            } else if byte_len(t.access_token@) < 40 {
                LoginUsability::Invalid
            } else if t.refresh_token@.len() > 0 {
                if byte_len(t.refresh_token@) < 20 {
                    LoginUsability::Invalid
                } else {
                    LoginUsability::Usable
                }
            } else if spec_jwt_expired_at(t.access_token@, now) {
                LoginUsability::ExpiredAccess
            } else {
                LoginUsability::Usable
            },
        }
    }
}

fn is_api_key_mode_exec(m: &String) -> (r: bool)
    ensures
        r == is_api_key_mode(m@),
{
    let l = ascii_lower_chars(&chars_of(m.as_str()));
    chars_eq_str(&l, "apikey") || chars_eq_str(&l, "api_key") || chars_eq_str(&l, "api-key")
}

impl CodexAuth {
    /// Whether this credential can be installed as the official
    /// `~/.codex/auth.json` at Unix time `now`.
    pub fn login_usability_at(&self, now: i64) -> (r: LoginUsability)
        ensures
            r == spec_login_usability_at(*self, now),
    {
        if self.is_api_key() {
            return match &self.openai_api_key {
                Some(k) => if byte_len_of(k) >= 8 {
                    LoginUsability::Usable
                } else {
                    LoginUsability::Invalid
                },
                None => LoginUsability::Invalid,
            };
        }
        let tokens = match &self.tokens {
            Some(t) => t,
            None => return LoginUsability::ExpiredAccess,
        };
        if tokens.access_token.as_str().is_empty() && tokens.refresh_token.as_str().is_empty() {
            return LoginUsability::ExpiredAccess;
        }
        if byte_len_of(&tokens.access_token) < 40 {
            return LoginUsability::Invalid;
        }
        if !tokens.refresh_token.as_str().is_empty() {
            if byte_len_of(&tokens.refresh_token) < 20 {
                return LoginUsability::Invalid;
            }
            return LoginUsability::Usable;
        }
        if is_jwt_expired_at(tokens.access_token.as_str(), now) {
            LoginUsability::ExpiredAccess
        } else {
            LoginUsability::Usable
        }
    }

    /// Whether this credential can be installed as the official
    /// `~/.codex/auth.json` now.
    pub fn login_usability(&self) -> (r: LoginUsability)
        ensures
            exists|now: i64| r == spec_login_usability_at(*self, now),
    {
        let now = crate::time::now_timestamp().secs;
        let r = self.login_usability_at(now);
        assert(r == spec_login_usability_at(*self, now));
        r
    }

    pub fn is_api_key(&self) -> (r: bool)
        ensures
            r == spec_is_api_key(*self),
    {
        if let Some(key) = &self.openai_api_key {
            let oauth = match &self.tokens {
                Some(t) => t.has_oauth_tokens(),
                None => false,
            };
            if !key.as_str().is_empty() && !oauth {
                return true;
            }
        }
        match &self.auth_mode {
            Some(m) => is_api_key_mode_exec(m),
            None => false,
        }
    }

    pub fn is_oauth(&self) -> (r: bool)
        ensures
            r == spec_is_oauth(*self),
    {
        !self.is_api_key() && match &self.tokens {
            Some(t) => t.has_oauth_tokens(),
            None => false,
        }
    }

    pub fn account_id(&self) -> (r: Option<String>)
        ensures
            r matches Some(s) ==> (self.tokens matches Some(t) && t.account_id matches Some(a)
                && a@ == s@),
            r is None <==> (self.tokens is None || self.tokens->0.account_id is None),
    {
        match &self.tokens {
            Some(t) => match &t.account_id {
                Some(a) => Some(a.clone()),
                None => None,
            },
            None => None,
        }
    }

    pub fn access_token(&self) -> (r: Option<String>)
        ensures
            r matches Some(s) ==> (self.tokens matches Some(t) && t.access_token@ == s@),
            r is None <==> self.tokens is None,
    {
        match &self.tokens {
            Some(t) => Some(t.access_token.clone()),
            None => None,
        }
    }

    pub fn can_refresh_oauth(&self) -> (r: bool)
        ensures
            r == (self.tokens matches Some(t) && t.refresh_token@.len() > 0),
    {
        match &self.tokens {
            Some(t) => !t.refresh_token.as_str().is_empty(),
            None => false,
        }
    }
}

} // verus!

verus! {

/// The keys of an object's members, in order; empty for other values.
pub open spec fn obj_keys(j: Json) -> Seq<Seq<char>> {
    match j {
        Json::Object(fields) => fields@.map_values(|p: (String, Json)| p.0@),
        _ => Seq::empty(),
    }
}

/// `seq![k]` when `b` holds, else empty.
pub open spec fn key_if(b: bool, k: Seq<char>) -> Seq<Seq<char>> {
    if b { seq![k] } else { Seq::empty() }
}

/// The `auth_mode` written to the official file: the credential's own, or
/// `apikey` / `chatgpt` by its kind.
pub open spec fn spec_official_mode(a: CodexAuth) -> Seq<char> {
    match a.auth_mode {
        Some(m) => m@,
        None => if spec_is_api_key(a) { "apikey"@ } else { "chatgpt"@ },
    }
}

/// `s` is present and non-empty.
pub open spec fn non_empty(s: Option<String>) -> bool {
    s matches Some(x) && x@.len() > 0
}

/// The member `key` of `j` is the string `s`.
pub open spec fn has_str(j: Json, key: Seq<char>, s: Seq<char>) -> bool {
    opt_str(json_get(j, key)) == Some(s)
}

/// The shape of the object written as the official `auth.json`: never the
/// runway-only plan fields; for an API-key login only `auth_mode` and the
/// key; for OAuth the tokens (`refresh_token` always, `id_token` and
/// `account_id` only when non-empty), `last_refresh` when known and a
/// non-empty API key.
pub open spec fn is_official_auth_object(a: CodexAuth, r: Json) -> bool {
    &&& r is Object
    &&& has_str(r, "auth_mode"@, spec_official_mode(a))
    &&& spec_is_api_key(a) ==> {
        &&& obj_keys(r) == key_if(a.openai_api_key is Some, "OPENAI_API_KEY"@) + seq!["auth_mode"@]
        &&& a.openai_api_key matches Some(k) ==> has_str(r, "OPENAI_API_KEY"@, k@)
    }
    &&& (!spec_is_api_key(a) && a.tokens is None) ==> obj_keys(r) == seq!["auth_mode"@]
    &&& (!spec_is_api_key(a) && a.tokens is Some) ==> is_official_oauth_object(a, a.tokens->0, r)
}

/// The OAuth part of `is_official_auth_object`, for the tokens `t`.
pub open spec fn is_official_oauth_object(a: CodexAuth, t: Tokens, r: Json) -> bool {
    &&& obj_keys(r) == key_if(non_empty(a.openai_api_key), "OPENAI_API_KEY"@) + seq![
        "auth_mode"@,
    ] + key_if(a.last_refresh is Some, "last_refresh"@) + seq!["tokens"@]
    &&& non_empty(a.openai_api_key) ==> has_str(r, "OPENAI_API_KEY"@, a.openai_api_key->0@)
    &&& a.last_refresh matches Some(l) ==> has_str(r, "last_refresh"@, l@)
    &&& json_get(r, "tokens"@) matches Some(tk) && {
        &&& obj_keys(tk) == seq!["access_token"@] + key_if(
            non_empty(t.account_id),
            "account_id"@,
        ) + key_if(non_empty(t.id_token), "id_token"@) + seq!["refresh_token"@]
        &&& has_str(tk, "access_token"@, t.access_token@)
        &&& has_str(tk, "refresh_token"@, t.refresh_token@)
        &&& non_empty(t.account_id) ==> has_str(tk, "account_id"@, t.account_id->0@)
        &&& non_empty(t.id_token) ==> has_str(tk, "id_token"@, t.id_token->0@)
    }
}

fn str_member(key: &str, value: &String) -> (r: (String, Json))
    ensures
        r.0@ == key@,
        r.1 matches Json::Str(s) && s@ == value@,
{
    (key.to_owned(), Json::Str(value.clone()))
}

proof fn lemma_lookup_in(fields: Seq<(String, Json)>, i: int, key: Seq<char>)
    requires
        0 <= i < fields.len(),
        fields[i].0@ == key,
        forall|k: int| 0 <= k < i ==> fields[k].0@ != key,
    ensures
        field_lookup(fields, key) == Some(fields[i].1),
    decreases i,
{
    if i > 0 {
        lemma_lookup_in(fields.drop_first(), i - 1, key);
    }
}

proof fn lemma_lookup_absent(fields: Seq<(String, Json)>, key: Seq<char>)
    requires
        forall|k: int| 0 <= k < fields.len() ==> fields[k].0@ != key,
    ensures
        field_lookup(fields, key) is None,
    decreases fields.len(),
{
    if fields.len() > 0 {
        lemma_lookup_absent(fields.drop_first(), key);
    }
}

/// Encode the credential as the JSON object written to the official
/// `auth.json`. The runway-only `plan_type` / `auth_file_plan_type` are
/// never emitted, because Codex file watchers may reject them.
pub fn official_auth_object(auth: &CodexAuth) -> (r: Json)
    ensures
        is_official_auth_object(*auth, r),
        !obj_keys(r).contains("plan_type"@),
        !obj_keys(r).contains("auth_file_plan_type"@),
{
    let r = build_official_object(auth);
    proof {
        lemma_official_keys_plain(*auth, r);
    }
    r
}

/// The keys an official object can have.
spec fn is_official_key(k: Seq<char>) -> bool {
    k == "OPENAI_API_KEY"@ || k == "auth_mode"@ || k == "last_refresh"@ || k == "tokens"@
}

proof fn lemma_official_keys_plain(a: CodexAuth, r: Json)
    requires
        is_official_auth_object(a, r),
    ensures
        !obj_keys(r).contains("plan_type"@),
        !obj_keys(r).contains("auth_file_plan_type"@),
{
    reveal_strlit("plan_type");
    reveal_strlit("auth_file_plan_type");
    reveal_strlit("auth_mode");
    reveal_strlit("OPENAI_API_KEY");
    reveal_strlit("last_refresh");
    reveal_strlit("tokens");
    let ks = obj_keys(r);
    assert forall|i: int| 0 <= i < ks.len() implies is_official_key(#[trigger] ks[i]) by {
        if spec_is_api_key(a) {
            assert(ks == key_if(a.openai_api_key is Some, "OPENAI_API_KEY"@) + seq!["auth_mode"@]);
        } else if a.tokens is None {
            assert(ks == seq!["auth_mode"@]);
        } else {
            assert(ks == key_if(non_empty(a.openai_api_key), "OPENAI_API_KEY"@) + seq![
                "auth_mode"@,
            ] + key_if(a.last_refresh is Some, "last_refresh"@) + seq!["tokens"@]);
        }
    }
    assert("plan_type"@[0] == 'p');
    assert("auth_file_plan_type"@.len() == 19);
    assert(!is_official_key("plan_type"@)) by {
        assert("auth_mode"@[0] == 'a');
        assert("plan_type"@.len() != "OPENAI_API_KEY"@.len());
        assert("plan_type"@.len() != "last_refresh"@.len());
        assert("plan_type"@.len() != "tokens"@.len());
    }
    assert(!is_official_key("auth_file_plan_type"@)) by {
        assert("auth_file_plan_type"@.len() != "OPENAI_API_KEY"@.len());
        assert("auth_file_plan_type"@.len() != "auth_mode"@.len());
        assert("auth_file_plan_type"@.len() != "last_refresh"@.len());
        assert("auth_file_plan_type"@.len() != "tokens"@.len());
    }
}

fn build_official_object(auth: &CodexAuth) -> (r: Json)
    ensures
        is_official_auth_object(*auth, r),
{
    proof {
        reveal_strlit("auth_mode");
        reveal_strlit("OPENAI_API_KEY");
        reveal_strlit("last_refresh");
        reveal_strlit("tokens");
        reveal_strlit("access_token");
        reveal_strlit("account_id");
        reveal_strlit("id_token");
        reveal_strlit("refresh_token");
        reveal_strlit("apikey");
        reveal_strlit("chatgpt");
        assert("OPENAI_API_KEY"@.len() == 14);
        assert("auth_mode"@.len() == 9);
        assert("last_refresh"@.len() == 12);
        assert("tokens"@.len() == 6);
        assert("access_token"@.len() == 12);
        assert("account_id"@.len() == 10);
        assert("id_token"@.len() == 8);
        assert("refresh_token"@.len() == 13);
    }
    let api = auth.is_api_key();
    let mode: String = match &auth.auth_mode {
        Some(m) => m.clone(),
        None => if api { "apikey".to_owned() } else { "chatgpt".to_owned() },
    };
    let mut fields: Vec<(String, Json)> = Vec::new();
    if api {
        if let Some(k) = &auth.openai_api_key {
            fields.push(str_member("OPENAI_API_KEY", k));
        }
        fields.push(str_member("auth_mode", &mode));
        proof {
            let f = fields@;
            let n = f.len() as int;
            lemma_lookup_in(f, n - 1, "auth_mode"@);
            if n == 2 {
                lemma_lookup_in(f, 0, "OPENAI_API_KEY"@);
            }
            assert(f.map_values(|p: (String, Json)| p.0@) =~= key_if(
                auth.openai_api_key is Some,
                "OPENAI_API_KEY"@,
            ) + seq!["auth_mode"@]);
        }
        return Json::Object(fields);
    }
    match &auth.tokens {
        None => {
            fields.push(str_member("auth_mode", &mode));
            proof {
                lemma_lookup_in(fields@, 0, "auth_mode"@);
                assert(fields@.map_values(|p: (String, Json)| p.0@) =~= seq!["auth_mode"@]);
            }
            Json::Object(fields)
        },
        Some(t) => {
            let mut tk: Vec<(String, Json)> = Vec::new();
            tk.push(str_member("access_token", &t.access_token));
            let has_acc = match &t.account_id {
                Some(a) => !a.as_str().is_empty(),
                None => false,
            };
            if has_acc {
                if let Some(a) = &t.account_id {
                    tk.push(str_member("account_id", a));
                }
            }
            let has_id = match &t.id_token {
                Some(a) => !a.as_str().is_empty(),
                None => false,
            };
            if has_id {
                if let Some(a) = &t.id_token {
                    tk.push(str_member("id_token", a));
                }
            }
            tk.push(str_member("refresh_token", &t.refresh_token));
            let ghost tkf = tk@;
            proof {
                let n = tkf.len() as int;
                lemma_lookup_in(tkf, 0, "access_token"@);
                lemma_lookup_in(tkf, n - 1, "refresh_token"@);
                if has_acc {
                    lemma_lookup_in(tkf, 1, "account_id"@);
                }
                if has_id {
                    lemma_lookup_in(tkf, n - 2, "id_token"@);
                }
                assert(tkf.map_values(|p: (String, Json)| p.0@) =~= seq!["access_token"@]
                    + key_if(non_empty(t.account_id), "account_id"@) + key_if(
                    non_empty(t.id_token),
                    "id_token"@,
                ) + seq!["refresh_token"@]);
            }
            let tokens_json = Json::Object(tk);
            let has_key = match &auth.openai_api_key {
                Some(k) => !k.as_str().is_empty(),
                None => false,
            };
            if has_key {
                if let Some(k) = &auth.openai_api_key {
                    fields.push(str_member("OPENAI_API_KEY", k));
                }
            }
            fields.push(str_member("auth_mode", &mode));
            if let Some(lr) = &auth.last_refresh {
                fields.push(str_member("last_refresh", lr));
            }
            fields.push(("tokens".to_owned(), tokens_json));
            proof {
                let f = fields@;
                let n = f.len() as int;
                let m = if has_key { 1int } else { 0int };
                lemma_lookup_in(f, m, "auth_mode"@);
                lemma_lookup_in(f, n - 1, "tokens"@);
                if has_key {
                    lemma_lookup_in(f, 0, "OPENAI_API_KEY"@);
                }
                if auth.last_refresh is Some {
                    lemma_lookup_in(f, m + 1, "last_refresh"@);
                }
                assert(f.map_values(|p: (String, Json)| p.0@) =~= key_if(
                    non_empty(auth.openai_api_key),
                    "OPENAI_API_KEY"@,
                ) + seq!["auth_mode"@] + key_if(auth.last_refresh is Some, "last_refresh"@)
                    + seq!["tokens"@]);
            }
            Json::Object(fields)
        },
    }
}

} // verus!
